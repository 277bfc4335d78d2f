//! Configuration of the daemon.

use vstd::prelude::*;
use vstd::slice::slice_subrange;

use crate::path;
use crate::path::join_path;
use crate::text;
use crate::text::{chars_of, copy_str, is_text, lines_of, parse_u32, same_str, string_of, trimmed};

verus! {

/// Where the foreground package comes from.
#[derive(Debug, Clone, Copy, PartialEq, Eq, Structural)]
pub enum ResolverMode {
    /// The activity manager, then the cgroup hierarchy.
    Auto,
    /// The activity manager alone.
    Binder,
    /// The cgroup hierarchy alone.
    Cgroup,
}

/// The mode of that name.
pub open spec fn mode_named(name: Seq<char>) -> Option<ResolverMode> {
    if name == "auto"@ {
        Some(ResolverMode::Auto)
    } else if name == "binder"@ {
        Some(ResolverMode::Binder)
    } else if name == "cgroup"@ {
        Some(ResolverMode::Cgroup)
    } else {
        None
    }
}

impl ResolverMode {
    /// The mode of that name.
    pub fn from_str(name: &str) -> (r: Option<ResolverMode>)
        ensures
            r == mode_named(name@),
    {
        if same_str(name, "auto") {
            Some(ResolverMode::Auto)
        } else if same_str(name, "binder") {
            Some(ResolverMode::Binder)
        } else if same_str(name, "cgroup") {
            Some(ResolverMode::Cgroup)
        } else {
            None
        }
    }
}

/// The key and the value that a line sets.
pub open spec fn setting(line: Seq<char>) -> Option<(Seq<char>, Seq<char>)> {
    let t = text::trim(line);
    let k = text::find(t, '=');
    if t.len() == 0 || t.first() == '#' || k == t.len() {
        None
    } else {
        Some((text::trim(t.take(k)), text::trim(t.skip(k + 1))))
    }
}

/// The value to which the last line that can be used sets `key`.
pub open spec fn last_set(
    ls: Seq<Seq<char>>,
    key: Seq<char>,
    usable: spec_fn(Seq<char>) -> bool,
) -> Option<Seq<char>>
    decreases ls.len(),
{
    if ls.len() == 0 {
        None
    } else {
        match setting(ls.last()) {
            Some((k, v)) if k == key && usable(v) => Some(v),
            _ => last_set(ls.drop_last(), key, usable),
        }
    }
}

/// The value to which the last line for `key` sets it.
pub open spec fn last_text(ls: Seq<Seq<char>>, key: Seq<char>) -> Option<Seq<char>> {
    last_set(ls, key, |v: Seq<char>| true)
}

/// The mode that the last line with the name of one sets.
pub open spec fn last_mode(ls: Seq<Seq<char>>) -> ResolverMode {
    match last_set(ls, "resolver_mode"@, |v: Seq<char>| mode_named(v) is Some) {
        Some(v) => mode_named(v)->0,
        None => ResolverMode::Auto,
    }
}

/// The UID that the last line with a number sets.
pub open spec fn last_uid(ls: Seq<Seq<char>>) -> Option<u32> {
    match last_set(
        ls,
        "daemon_uid"@,
        |v: Seq<char>| text::natural_upto(v, u32::MAX as nat) is Some,
    ) {
        Some(v) => Some(text::natural_upto(v, u32::MAX as nat)->0 as u32),
        None => None,
    }
}

pub open spec fn or_default(v: Option<Seq<char>>, default: Seq<char>) -> Seq<char> {
    match v {
        Some(t) => t,
        None => default,
    }
}

/// What the daemon is configured to do.
#[derive(Debug)]
pub struct Config {
    /// The directory of the runtime files.
    pub cache_dir: String,
    /// The blocklist file.
    pub blocklist_path: String,
    /// The package registry.
    pub packages_xml_path: String,
    /// The name of the abstract socket.
    pub socket_name: String,
    /// Where the foreground package comes from.
    pub resolver_mode: ResolverMode,
    /// The only caller that is served, if set.
    pub daemon_uid: Option<u32>,
}

/// Whether a configuration is what the lines set, with the defaults for what
/// they leave out.
pub open spec fn configured(c: Config, ls: Seq<Seq<char>>) -> bool {
    &&& c.cache_dir@ == or_default(last_text(ls, "cache_dir"@), "/data/local/tmp/coreshift/"@)
    &&& c.blocklist_path@ == or_default(
        last_text(ls, "blocklist_path"@),
        path::join(c.cache_dir@, "blocklist.conf"@),
    )
    &&& c.packages_xml_path@ == or_default(
        last_text(ls, "packages_xml_path"@),
        "/data/system/packages.xml"@,
    )
    &&& c.socket_name@ == or_default(last_text(ls, "socket_name"@), "coreshift"@)
    &&& c.resolver_mode == last_mode(ls)
    &&& c.daemon_uid == last_uid(ls)
}

impl Clone for Config {
    fn clone(&self) -> (r: Self)
        ensures
            r.cache_dir@ == self.cache_dir@,
            r.blocklist_path@ == self.blocklist_path@,
            r.packages_xml_path@ == self.packages_xml_path@,
            r.socket_name@ == self.socket_name@,
            r.resolver_mode == self.resolver_mode,
            r.daemon_uid == self.daemon_uid,
    {
        Config {
            cache_dir: self.cache_dir.clone(),
            blocklist_path: self.blocklist_path.clone(),
            packages_xml_path: self.packages_xml_path.clone(),
            socket_name: self.socket_name.clone(),
            resolver_mode: self.resolver_mode,
            daemon_uid: self.daemon_uid,
        }
    }
}

impl Default for Config {
    fn default() -> (r: Self)
        ensures
            configured(r, seq![]),
            r.blocklist_path@ == "/data/local/tmp/coreshift/blocklist.conf"@,
    {
        proof {
            reveal_strlit("/data/local/tmp/coreshift/");
            reveal_strlit("blocklist.conf");
            reveal_strlit("/data/local/tmp/coreshift/blocklist.conf");
        }
        let r = Config {
            cache_dir: copy_str("/data/local/tmp/coreshift/"),
            blocklist_path: copy_str("/data/local/tmp/coreshift/blocklist.conf"),
            packages_xml_path: copy_str("/data/system/packages.xml"),
            socket_name: copy_str("coreshift"),
            resolver_mode: ResolverMode::Auto,
            daemon_uid: None,
        };
        assert(r.blocklist_path@ =~= path::join(r.cache_dir@, "blocklist.conf"@));
        r
    }
}

fn split_setting<'a>(line: &'a [char]) -> (r: Option<(&'a [char], &'a [char])>)
    ensures
        setting(line@) == match r {
            Some((k, v)) => Some((k@, v@)),
            None => None,
        },
{
    let t = trimmed(line);
    if t.len() == 0 || t[0] == '#' {
        return None;
    }
    let mut k: usize = 0;
    while k < t.len()
        invariant
            k <= t.len(),
            t@ == text::trim(line@),
            t@.len() > 0 && t@[0] != '#',
            forall|j: int| 0 <= j < k ==> t@[j] != '=',
        decreases t.len() - k,
    {
        if t[k] == '=' {
            proof {
                text::lemma_find_is(t@, '=', k as int);
            }
            let key = slice_subrange(t, 0, k);
            let value = slice_subrange(t, k + 1, t.len());
            assert(key@ =~= t@.take(k as int));
            assert(value@ =~= t@.skip(k + 1));
            return Some((trimmed(key), trimmed(value)));
        }
        k += 1;
    }
    proof {
        text::lemma_find_is(t@, '=', t@.len() as int);
    }
    None
}

/// The keys differ in their lengths.
proof fn lemma_keys_differ()
    ensures
        "cache_dir"@.len() == 9,
        "daemon_uid"@.len() == 10,
        "socket_name"@.len() == 11,
        "resolver_mode"@.len() == 13,
        "blocklist_path"@.len() == 14,
        "packages_xml_path"@.len() == 17,
{
    reveal_strlit("cache_dir");
    reveal_strlit("daemon_uid");
    reveal_strlit("socket_name");
    reveal_strlit("resolver_mode");
    reveal_strlit("blocklist_path");
    reveal_strlit("packages_xml_path");
}

impl Config {
    /// The configuration that a file gives (`None` if it cannot be read).
    pub fn load(content: Option<&str>) -> (r: Self)
        ensures
            configured(
                r,
                match content {
                    Some(c) => text::lines(c@),
                    None => seq![],
                },
            ),
    {
        let chars = match content {
            Some(c) => chars_of(c),
            None => Vec::new(),
        };
        let ls = lines_of(chars.as_slice());
        let ghost rows = text::rows(ls@);
        proof {
            if content is None {
                assert(rows =~= Seq::<Seq<char>>::empty());
            }
        }
        let mut cache_dir = copy_str("/data/local/tmp/coreshift/");
        let mut blocklist_path: Option<String> = None;
        let mut packages_xml_path = copy_str("/data/system/packages.xml");
        let mut socket_name = copy_str("coreshift");
        let mut resolver_mode = ResolverMode::Auto;
        let mut daemon_uid: Option<u32> = None;
        let mut i: usize = 0;
        while i < ls.len()
            invariant
                i <= ls.len(),
                rows == text::rows(ls@),
                cache_dir@ == or_default(
                    last_text(rows.take(i as int), "cache_dir"@),
                    "/data/local/tmp/coreshift/"@,
                ),
                text::opt_text(blocklist_path) == last_text(rows.take(i as int), "blocklist_path"@),
                packages_xml_path@ == or_default(
                    last_text(rows.take(i as int), "packages_xml_path"@),
                    "/data/system/packages.xml"@,
                ),
                socket_name@ == or_default(
                    last_text(rows.take(i as int), "socket_name"@),
                    "coreshift"@,
                ),
                resolver_mode == last_mode(rows.take(i as int)),
                daemon_uid == last_uid(rows.take(i as int)),
            decreases ls.len() - i,
        {
            proof {
                assert(rows.take(i + 1).drop_last() =~= rows.take(i as int));
                assert(rows.take(i + 1).last() == ls@[i as int]@);
                lemma_keys_differ();
            }
            if let Some((key, value)) = split_setting(ls[i]) {
                if is_text(key, "cache_dir") {
                    cache_dir = string_of(value);
                } else if is_text(key, "blocklist_path") {
                    blocklist_path = Some(string_of(value));
                } else if is_text(key, "packages_xml_path") {
                    packages_xml_path = string_of(value);
                } else if is_text(key, "socket_name") {
                    socket_name = string_of(value);
                } else if is_text(key, "resolver_mode") {
                    let name = string_of(value);
                    if let Some(mode) = ResolverMode::from_str(name.as_str()) {
                        resolver_mode = mode;
                    }
                } else if is_text(key, "daemon_uid") {
                    if let Some(uid) = parse_u32(value) {
                        daemon_uid = Some(uid);
                    }
                }
            }
            i += 1;
        }
        assert(rows.take(rows.len() as int) =~= rows);
        let blocklist_path = match blocklist_path {
            Some(p) => p,
            None => join_path(cache_dir.as_str(), "blocklist.conf"),
        };
        Config {
            cache_dir,
            blocklist_path,
            packages_xml_path,
            socket_name,
            resolver_mode,
            daemon_uid,
        }
    }
}

/// A line that sets a key after all others for it decides its value.
pub proof fn law_last_line_decides(
    ls: Seq<Seq<char>>,
    line: Seq<char>,
    key: Seq<char>,
    value: Seq<char>,
)
    requires
        setting(line) == Some((key, value)),
    ensures
        last_text(ls.push(line), key) == Some(value),
        forall|other: Seq<char>| other != key ==> #[trigger] last_text(ls.push(line), other)
            == last_text(ls, other),
{
    assert(ls.push(line).drop_last() =~= ls);
}

/// A line sets the key before its first `=` to what follows, white space around
/// both aside. A comment, an empty line and a line without `=` set nothing.
pub proof fn law_setting_line(
    before: Seq<char>,
    key: Seq<char>,
    gap: Seq<char>,
    lead: Seq<char>,
    value: Seq<char>,
    after: Seq<char>,
    other: Seq<char>,
)
    requires
        text::is_blank(before),
        text::is_blank(gap),
        text::is_blank(lead),
        text::is_blank(after),
        key.len() > 0,
        key.first() != '#',
        !key.contains('='),
        !text::is_space(key.first()) && !text::is_space(key.last()),
        value.len() > 0,
        !text::is_space(value.first()) && !text::is_space(value.last()),
    ensures
        setting(before + key + gap + seq!['='] + lead + value + after) == Some((key, value)),
        setting(before + seq!['#'] + other) is None,
        setting(before) is None,
        !other.contains('=') ==> setting(other) is None,
{
    let none = Seq::<char>::empty();
    let left = key + gap;
    let right = lead + value;
    let t = left + seq!['='] + right;
    assert(before + key + gap + seq!['='] + lead + value + after =~= before + t + after);
    assert(t.first() == key.first() && t.last() == value.last());
    text::law_trim(before, t, after);
    assert forall|i: int| 0 <= i < left.len() implies t[i] != '=' by {
        if i < key.len() {
            assert(t[i] == key[i]);
            if key[i] == '=' {
                assert(key.contains(key[i]));
            }
        } else {
            assert(t[i] == gap[i - key.len()]);
            assert(text::is_space(gap[i - key.len()]));
        }
    }
    assert(t[left.len() as int] == '=');
    text::lemma_find_is(t, '=', left.len() as int);
    assert(t.take(left.len() as int) =~= none + key + gap);
    text::law_trim(none, key, gap);
    assert(t.skip(left.len() as int + 1) =~= lead + value + none);
    text::law_trim(lead, value, none);
    lemma_comment(before, other);
    text::law_trim(before, none, none);
    assert(before + none + none =~= before);
    if !other.contains('=') {
        let u = text::trim(other);
        text::lemma_trim(other);
        text::lemma_find(u, '=');
        let k = text::find(u, '=');
        if k < u.len() {
            assert(other.contains(text::trim(other)[k]));
        }
    }
}

/// A line that begins with `#` sets nothing.
proof fn lemma_comment(before: Seq<char>, other: Seq<char>)
    requires
        text::is_blank(before),
    ensures
        setting(before + seq!['#'] + other) is None,
{
    let s = before + seq!['#'] + other;
    let n = before.len() as int;
    assert forall|i: int| 0 <= i < n implies text::is_space(s[i]) by {
        assert(s[i] == before[i]);
    }
    assert(s[n] == '#');
    text::lemma_trim_start_is(s, n);
    let u = s.skip(n);
    assert(u[0] == '#');
    text::lemma_trim_end(u);
    let t = text::trim_end(u);
    if t.len() == 0 {
        assert(text::is_space(u[0]));
    }
    assert(t.first() == u[0]);
}

/// The modes are known by their names alone.
pub proof fn law_modes(name: Seq<char>)
    ensures
        mode_named("auto"@) == Some(ResolverMode::Auto),
        mode_named("binder"@) == Some(ResolverMode::Binder),
        mode_named("cgroup"@) == Some(ResolverMode::Cgroup),
        name != "auto"@ && name != "binder"@ && name != "cgroup"@ ==> mode_named(name) is None,
{
    reveal_strlit("auto");
    reveal_strlit("binder");
    reveal_strlit("cgroup");
    assert("auto"@.len() == 4 && "binder"@.len() == 6 && "cgroup"@.len() == 6);
    assert("binder"@[0] == 'b' && "cgroup"@[0] == 'c');
}

/// The last line that names a mode decides it, and the last one with a number the
/// caller; a value that is neither, and a line for another key, change nothing.
/// Without such lines the mode is the automatic one, and every caller is served.
pub proof fn law_mode_and_caller(ls: Seq<Seq<char>>, line: Seq<char>, value: Seq<char>, uid: u32)
    ensures
        last_mode(Seq::<Seq<char>>::empty()) == ResolverMode::Auto,
        last_uid(Seq::<Seq<char>>::empty()) is None,
        setting(line) == Some(("resolver_mode"@, value)) ==> last_mode(ls.push(line)) == if value
            == "auto"@ {
            ResolverMode::Auto
        } else if value == "binder"@ {
            ResolverMode::Binder
        } else if value == "cgroup"@ {
            ResolverMode::Cgroup
        } else {
            last_mode(ls)
        },
        setting(line) == Some(("daemon_uid"@, text::dec(uid as nat))) ==> last_uid(ls.push(line))
            == Some(uid),
        (match setting(line) {
            Some((k, _)) => k != "resolver_mode"@,
            None => true,
        }) ==> last_mode(ls.push(line)) == last_mode(ls),
        (match setting(line) {
            Some((k, v)) => k != "daemon_uid"@ || text::natural(v) is None,
            None => true,
        }) ==> last_uid(ls.push(line)) == last_uid(ls),
{
    assert(ls.push(line).drop_last() =~= ls);
    law_modes(value);
    text::law_numbers_are_read(uid as nat, 0, u32::MAX as nat);
    assert(text::zeros(0) + text::dec(uid as nat) =~= text::dec(uid as nat));
}

/// Whether a line sets `key` to `value`.
pub open spec fn sets(line: Seq<char>, key: Seq<char>, value: Seq<char>) -> bool {
    setting(line) == Some((key, value))
}

/// Whether no line from `from` on sets `key`.
pub open spec fn unset_from(ls: Seq<Seq<char>>, key: Seq<char>, from: int) -> bool {
    forall|j: int|
        from <= j < ls.len() ==> match setting(#[trigger] ls[j]) {
            Some((k, _)) => k != key,
            None => true,
        }
}

/// Each path and the socket's name are those of the last line for them; what no
/// line sets has its default, and the blocklist stands in the cache directory.
pub proof fn law_configuration(c: Config, ls: Seq<Seq<char>>, i: int, key: Seq<char>, value: Seq<char>)
    requires
        configured(c, ls),
    ensures
        0 <= i < ls.len() && sets(ls[i], key, value) && unset_from(ls, key, i + 1) ==> {
            &&& key == "cache_dir"@ ==> c.cache_dir@ == value
            &&& key == "blocklist_path"@ ==> c.blocklist_path@ == value
            &&& key == "packages_xml_path"@ ==> c.packages_xml_path@ == value
            &&& key == "socket_name"@ ==> c.socket_name@ == value
        },
        unset_from(ls, "cache_dir"@, 0) ==> c.cache_dir@ == "/data/local/tmp/coreshift/"@,
        unset_from(ls, "packages_xml_path"@, 0) ==> c.packages_xml_path@
            == "/data/system/packages.xml"@,
        unset_from(ls, "socket_name"@, 0) ==> c.socket_name@ == "coreshift"@,
        unset_from(ls, "blocklist_path"@, 0) && c.cache_dir@.len() > 0 ==> c.blocklist_path@ == (
        if c.cache_dir@.last() == '/' {
            c.cache_dir@ + "blocklist.conf"@
        } else {
            c.cache_dir@ + seq!['/'] + "blocklist.conf"@
        }),
{
    if 0 <= i < ls.len() && sets(ls[i], key, value) && unset_from(ls, key, i + 1) {
        lemma_last_text(ls, key, i, value);
    }
    if unset_from(ls, "cache_dir"@, 0) {
        lemma_unset(ls, "cache_dir"@);
    }
    if unset_from(ls, "packages_xml_path"@, 0) {
        lemma_unset(ls, "packages_xml_path"@);
    }
    if unset_from(ls, "socket_name"@, 0) {
        lemma_unset(ls, "socket_name"@);
    }
    if unset_from(ls, "blocklist_path"@, 0) {
        lemma_unset(ls, "blocklist_path"@);
        reveal_strlit("blocklist.conf");
        assert(c.cache_dir@.push('/') + "blocklist.conf"@ =~= c.cache_dir@ + seq!['/']
            + "blocklist.conf"@);
    }
}

proof fn lemma_last_text(ls: Seq<Seq<char>>, key: Seq<char>, i: int, value: Seq<char>)
    requires
        0 <= i < ls.len(),
        sets(ls[i], key, value),
        unset_from(ls, key, i + 1),
    ensures
        last_text(ls, key) == Some(value),
    decreases ls.len(),
{
    if i < ls.len() - 1 {
        let front = ls.drop_last();
        assert forall|j: int| i + 1 <= j < front.len() implies match setting(#[trigger] front[j]) {
            Some((k, _)) => k != key,
            None => true,
        } by {
            assert(front[j] == ls[j]);
        }
        assert(front[i] == ls[i]);
        lemma_last_text(front, key, i, value);
        assert(ls.last() == ls[ls.len() - 1]);
    }
}

proof fn lemma_unset(ls: Seq<Seq<char>>, key: Seq<char>)
    requires
        unset_from(ls, key, 0),
    ensures
        last_text(ls, key) is None,
    decreases ls.len(),
{
    if ls.len() > 0 {
        let front = ls.drop_last();
        assert forall|j: int| 0 <= j < front.len() implies match setting(#[trigger] front[j]) {
            Some((k, _)) => k != key,
            None => true,
        } by {
            assert(front[j] == ls[j]);
        }
        lemma_unset(front, key);
        assert(ls.last() == ls[ls.len() - 1]);
    }
}

/// A key may be set to nothing, and a value may stand without a key.
pub proof fn law_empty_settings(
    before: Seq<char>,
    key: Seq<char>,
    gap: Seq<char>,
    lead: Seq<char>,
    value: Seq<char>,
    after: Seq<char>,
)
    requires
        text::is_blank(before),
        text::is_blank(gap),
        text::is_blank(lead),
        text::is_blank(after),
        key.len() > 0,
        key.first() != '#',
        !key.contains('='),
        !text::is_space(key.first()) && !text::is_space(key.last()),
        value.len() > 0,
        !text::is_space(value.first()) && !text::is_space(value.last()),
    ensures
        setting(before + key + gap + seq!['='] + after) == Some((key, Seq::<char>::empty())),
        setting(before + seq!['='] + lead + value + after) == Some((Seq::<char>::empty(), value)),
{
    let none = Seq::<char>::empty();
    let left = key + gap;
    let s = left + seq!['='];
    assert(before + key + gap + seq!['='] + after =~= before + s + after);
    assert(s.first() == key.first() && s.last() == '=');
    text::law_white_space('=');
    text::law_trim(before, s, after);
    assert forall|i: int| 0 <= i < left.len() implies s[i] != '=' by {
        if i < key.len() {
            assert(s[i] == key[i]);
            if key[i] == '=' {
                assert(key.contains(key[i]));
            }
        } else {
            assert(s[i] == gap[i - key.len()]);
            assert(text::is_space(gap[i - key.len()]));
        }
    }
    assert(s[left.len() as int] == '=');
    text::lemma_find_is(s, '=', left.len() as int);
    assert(s.take(left.len() as int) =~= none + key + gap);
    text::law_trim(none, key, gap);
    assert(s.skip(left.len() as int + 1) =~= none);
    text::law_trim(none, none, none);
    assert(none + none + none =~= none);
    let t = seq!['='] + lead + value;
    assert(before + seq!['='] + lead + value + after =~= before + t + after);
    assert(t.first() == '=' && t.last() == value.last());
    text::law_trim(before, t, after);
    text::lemma_find_is(t, '=', 0);
    assert(t.take(0) =~= none);
    assert(t.skip(1) =~= lead + value + none);
    text::law_trim(lead, value, none);
}

/// The mode and the only caller are those that the lines decide. A number that is
/// no UID decides nothing.
pub proof fn law_configured_caller(c: Config, ls: Seq<Seq<char>>, line: Seq<char>, k: nat, n: nat)
    requires
        setting(line) == Some(("daemon_uid"@, text::zeros(k) + text::dec(n))),
    ensures
        configured(c, ls) ==> c.resolver_mode == last_mode(ls) && c.daemon_uid == last_uid(ls),
        configured(c, ls.push(line)) ==> c.daemon_uid == if n <= 0xffff_ffff {
            Some(n as u32)
        } else {
            last_uid(ls)
        },
{
    assert(ls.push(line).drop_last() =~= ls);
    text::law_numbers_are_read(n, k, u32::MAX as nat);
}

} // verus!
