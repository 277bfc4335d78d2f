//! The package blocklist: defaults, user additions and user removals.

use vstd::prelude::*;
use vstd::slice::slice_subrange;

use crate::package_set;
use crate::package_set::PackageSet;
use crate::text;
use crate::text::{
    chars_of, copy_str, from_utf8_lossy, lines_of, push_text, split_of, starts_with_text,
    string_of, trimmed, words_of,
};

verus! {

/// What one line of the blocklist file says.
pub enum Entry {
    /// A comment or an empty line.
    Nothing,
    /// Block this pattern.
    Add(Seq<char>),
    /// Unblock everything that this pattern covers.
    Remove(Seq<char>),
}

/// The meaning of one line: `#` starts a comment, `-` a removal.
pub open spec fn entry(line: Seq<char>) -> Entry {
    let t = text::trim(line);
    if t.len() == 0 || t.first() == '#' {
        Entry::Nothing
    } else if t.first() == '-' {
        Entry::Remove(text::trim(t.drop_first()))
    } else {
        Entry::Add(t)
    }
}

/// The patterns that some line adds.
pub open spec fn additions(ls: Seq<Seq<char>>) -> Set<Seq<char>> {
    Set::new(|p: Seq<char>| exists|i: int| 0 <= i < ls.len() && entry(#[trigger] ls[i]) == Entry::Add(p))
}

/// Whether some line removes `package`.
pub open spec fn removed(ls: Seq<Seq<char>>, package: Seq<char>) -> bool {
    exists|i: int, p: Seq<char>|
        0 <= i < ls.len() && entry(#[trigger] ls[i]) == Entry::Remove(p) && #[trigger] package_set::covers(p, package)
}

/// The patterns that are blocked unless the user removes them.
pub open spec fn static_defaults() -> Seq<Seq<char>> {
    seq![
        "com.google.android.as*"@,
        "com.google.android.gms*"@,
        "com.google.android.apps.wellbeing"@,
        "com.google.android.tts"@,
        "com.google.android.googlequicksearchbox"@,
        "com.google.android.apps.googleassistant"@,
        "com.google.android.permissioncontroller"@,
    ]
}

/// The lines of the blocklist file; none if there is no readable file.
pub open spec fn file_lines(content: Option<Seq<char>>) -> Seq<Seq<char>> {
    match content {
        Some(text) => text::lines(text),
        None => seq![],
    }
}

/// What is blocked: defaults and additions, without what a removal covers.
pub open spec fn resolved(content: Option<Seq<char>>, dynamic: Set<Seq<char>>) -> Set<Seq<char>> {
    let ls = file_lines(content);
    static_defaults().to_set().union(dynamic).union(additions(ls)).filter(
        |p: Seq<char>| !removed(ls, p),
    )
}

/// The head of the file that is written back.
pub open spec fn file_head() -> Seq<Seq<char>> {
    seq!["# Blocklist configuration"@, "# Use '-' prefix to unblock a package"@, ""@]
}

/// The file that is written back for a resolved list.
pub open spec fn file_text(listing: Seq<Seq<char>>) -> Seq<char> {
    text::unlines(file_head()) + text::unlines(listing)
}

/// Whether a text is the file that is written back for `packages`: they stand in
/// it in ascending order.
pub open spec fn is_file_text(t: Seq<char>, packages: Set<Seq<char>>) -> bool {
    exists|listing: Seq<Seq<char>>|
        package_set::ascending(listing) && listing.to_set() == packages && t == #[trigger] file_text(
            listing,
        )
}

/// The first word of `ws` that starts with `package=`, without that prefix.
pub open spec fn brief_package(ws: Seq<Seq<char>>) -> Option<Seq<char>>
    decreases ws.len(),
{
    if ws.len() == 0 {
        None
    } else if "package="@.is_prefix_of(ws.first()) {
        Some(ws.first().skip("package="@.len() as int))
    } else {
        brief_package(ws.drop_first())
    }
}

/// The package of a component name: what stands before the first `/`.
pub open spec fn component_package(s: Seq<char>) -> Seq<char> {
    text::split(s, '/').first()
}

/// The packages that the system's own settings put on the list.
pub open spec fn dynamic_defaults(
    launcher: Option<Seq<u8>>,
    input_method: Option<Seq<u8>>,
    accessibility: Option<Seq<u8>>,
) -> Set<Seq<char>> {
    let a: Set<Seq<char>> = match launcher {
        Some(b) => match brief_package(text::words(text::lossy(b))) {
            Some(p) => set![p],
            None => set![],
        },
        None => set![],
    };
    let b: Set<Seq<char>> = match input_method {
        Some(b) => set![component_package(text::trim(text::lossy(b)))],
        None => set![],
    };
    let c: Set<Seq<char>> = match accessibility {
        Some(b) => text::split(text::lossy(b), ':').map_values(|s: Seq<char>| component_package(s)).to_set(),
        None => set![],
    };
    a.union(b).union(c)
}

/// The packages that are never reported as foreground.
#[derive(Debug, Clone)]
pub struct Blocklist {
    pub packages: PackageSet,
}

impl Default for Blocklist {
    fn default() -> (r: Self)
        ensures
            r.packages@ == Set::<Seq<char>>::empty(),
    {
        Blocklist { packages: PackageSet::new() }
    }
}

impl Blocklist {
    /// Resolve the list from the content of its file (`None` if it cannot be
    /// read) and the packages that the system's settings name. Returns the list
    /// and the text to write back to the file.
    pub fn load_or_create(content: Option<&str>, dynamic_defaults: PackageSet) -> (r: (Self, String))
        ensures
            r.0.packages@ == resolved(text::opt_str(content), dynamic_defaults@),
            is_file_text(r.1@, r.0.packages@),
    {
        let ghost dynamic = dynamic_defaults@;
        let ghost base = static_defaults().to_set().union(dynamic);
        let mut packages = dynamic_defaults;
        packages.insert(copy_str("com.google.android.as*"));
        packages.insert(copy_str("com.google.android.gms*"));
        packages.insert(copy_str("com.google.android.apps.wellbeing"));
        packages.insert(copy_str("com.google.android.tts"));
        packages.insert(copy_str("com.google.android.googlequicksearchbox"));
        packages.insert(copy_str("com.google.android.apps.googleassistant"));
        packages.insert(copy_str("com.google.android.permissioncontroller"));
        proof {
            lemma_static_defaults();
            assert(packages@ =~= base);
        }
        let mut removals: Vec<String> = Vec::new();
        let chars = match content {
            Some(text) => chars_of(text),
            None => Vec::new(),
        };
        let ls = lines_of(chars.as_slice());
        let ghost rows = text::rows(ls@);
        let mut i: usize = 0;
        proof {
            assert(rows =~= file_lines(text::opt_str(content)));
            assert(additions(rows.take(0)) =~= Set::<Seq<char>>::empty());
            assert(base.union(additions(rows.take(0))) =~= base);
        }
        while i < ls.len()
            invariant
                i <= ls.len(),
                rows == text::rows(ls@),
                packages@ == base.union(additions(rows.take(i as int))),
                forall|p: Seq<char>|
                    #![trigger text::texts(removals@).contains(p)]
                    text::texts(removals@).contains(p) <==> removes(rows.take(i as int), p),
            decreases ls.len() - i,
        {
            let ghost head = rows.take(i as int);
            let ghost line = rows[i as int];
            assert(rows.take(i + 1) =~= head.push(line));
            let ghost was = text::texts(removals@);
            proof {
                lemma_push_line(head, line);
            }
            let t = trimmed(ls[i]);
            if t.len() > 0 && t[0] != '#' {
                if t[0] == '-' {
                    let rest = slice_subrange(t, 1, t.len());
                    assert(rest@ =~= t@.drop_first());
                    let p = trimmed(rest);
                    removals.push(string_of(p));
                    assert(text::texts(removals@) =~= was.push(p@));
                    assert forall|q: Seq<char>| #[trigger]
                        text::texts(removals@).contains(q) <==> was.contains(q) || q == p@ by {
                        package_set::lemma_push_contains(was, p@, q);
                    }
                } else {
                    packages.insert(string_of(t));
                }
            }
            assert(packages@ =~= base.union(additions(rows.take(i + 1))));
            i += 1;
        }
        assert(rows.take(rows.len() as int) =~= rows);
        let ghost all = base.union(additions(rows));
        let ghost rem = text::texts(removals@);
        let mut k: usize = 0;
        assert(all.filter(|x: Seq<char>| !covered_by(rem.take(0), x)) =~= all);
        while k < removals.len()
            invariant
                k <= removals.len(),
                rem == text::texts(removals@),
                packages@ == all.filter(|x: Seq<char>| !covered_by(rem.take(k as int), x)),
            decreases removals.len() - k,
        {
            packages.remove_covered(removals[k].as_str());
            proof {
                let head = rem.take(k as int);
                let p = rem[k as int];
                assert(rem.take(k + 1) =~= head.push(p));
                assert forall|x: Seq<char>| #[trigger] covered_by(head.push(p), x) <==> covered_by(
                    head,
                    x,
                ) || package_set::covers(p, x) by {
                    let w = head.push(p);
                    assert(w[head.len() as int] == p);
                    if covered_by(head, x) {
                        let m = choose|m: int|
                            0 <= m < head.len() && package_set::covers(#[trigger] head[m], x);
                        assert(w[m] == head[m]);
                    }
                    if covered_by(w, x) && !package_set::covers(p, x) {
                        let m = choose|m: int|
                            0 <= m < w.len() && package_set::covers(#[trigger] w[m], x);
                        assert(head[m] == w[m]);
                    }
                }
                assert(packages@ =~= all.filter(
                    |x: Seq<char>| !covered_by(rem.take(k + 1), x),
                ));
            }
            k += 1;
        }
        proof {
            assert(rem.take(rem.len() as int) =~= rem);
            assert forall|x: Seq<char>| #[trigger] covered_by(rem, x) <==> removed(rows, x) by {
                if covered_by(rem, x) {
                    let m = choose|m: int|
                        0 <= m < rem.len() && package_set::covers(#[trigger] rem[m], x);
                    assert(text::texts(removals@).contains(rem[m]));
                    assert(removes(rows, rem[m]));
                }
                if removed(rows, x) {
                    let (j, p) = choose|j: int, p: Seq<char>|
                        0 <= j < rows.len() && entry(#[trigger] rows[j]) == Entry::Remove(p)
                            && #[trigger] package_set::covers(p, x);
                    assert(removes(rows, p));
                    assert(text::texts(removals@).contains(p));
                }
            }
            assert(packages@ =~= all.filter(|p: Seq<char>| !removed(rows, p)));
        }
        let text = Self::file_of(&packages);
        (Self { packages }, text)
    }

    /// The file text for a list.
    fn file_of(packages: &PackageSet) -> (r: String)
        ensures
            is_file_text(r@, packages@),
    {
        let mut out: Vec<char> = Vec::new();
        push_text(&mut out, "# Blocklist configuration");
        out.push('\n');
        push_text(&mut out, "# Use '-' prefix to unblock a package");
        out.push('\n');
        push_text(&mut out, "");
        out.push('\n');
        proof {
            let h = file_head();
            assert(h.drop_last() =~= seq![h[0], h[1]]);
            assert(h.drop_last().drop_last() =~= seq![h[0]]);
            assert(h.drop_last().drop_last().drop_last() =~= Seq::<Seq<char>>::empty());
            reveal_with_fuel(text::unlines, 4);
            assert(out@ =~= text::unlines(h));
        }
        let n = packages.len();
        let ghost listing = packages.listing();
        let mut i: usize = 0;
        assert(listing.take(0) =~= Seq::<Seq<char>>::empty());
        while i < n
            invariant
                i <= n == listing.len(),
                listing == packages.listing(),
                out@ == text::unlines(file_head()) + text::unlines(listing.take(i as int)),
            decreases n - i,
        {
            let ghost was = out@;
            push_text(&mut out, packages.at(i));
            out.push('\n');
            proof {
                assert(listing.take(i + 1).drop_last() =~= listing.take(i as int));
                assert(out@ =~= was + listing[i as int].push('\n'));
                assert(out@ =~= text::unlines(file_head()) + text::unlines(listing.take(i + 1)));
            }
            i += 1;
        }
        assert(listing.take(n as int) =~= listing);
        assert(out@ == file_text(listing));
        string_of(out.as_slice())
    }

    /// Whether `package` is blocked.
    pub fn is_blocked(&self, package: &str) -> (r: bool)
        ensures
            r == package_set::covered(self.packages@, package@),
    {
        self.packages.covers(package)
    }

    /// The launcher package, from the output of the activity resolver.
    pub fn resolve_launcher(launcher: Option<&[u8]>) -> (r: Option<String>)
        ensures
            text::opt_text(r) == match launcher {
                Some(bytes) => brief_package(text::words(text::lossy(bytes@))),
                None => None,
            },
    {
        match launcher {
            Some(bytes) => parse_package_from_brief(bytes),
            None => None,
        }
    }

    /// The packages that the system's own settings put on the list: launcher,
    /// input method and accessibility services. Each argument is the output of
    /// the command that asks for them, `None` if it failed.
    pub fn resolve_defaults(
        launcher: Option<&[u8]>,
        input_method: Option<&[u8]>,
        accessibility: Option<&[u8]>,
    ) -> (r: PackageSet)
        ensures
            r@ == dynamic_defaults(
                text::opt_bytes(launcher),
                text::opt_bytes(input_method),
                text::opt_bytes(accessibility),
            ),
    {
        let mut defaults = PackageSet::new();
        if let Some(bytes) = launcher {
            if let Some(package) = parse_package_from_brief(bytes) {
                defaults.insert(package);
            }
        }
        let ghost a = defaults@;
        if let Some(bytes) = input_method {
            if let Some(package) = parse_package_from_component(bytes) {
                defaults.insert(package);
            }
        }
        let ghost ab = defaults@;
        if let Some(bytes) = accessibility {
            let stdout = from_utf8_lossy(bytes);
            let chars = chars_of(stdout.as_str());
            let parts = split_of(chars.as_slice(), ':');
            let ghost rows = text::rows(parts@);
            let ghost pkgs = rows.map_values(|s: Seq<char>| component_package(s));
            let mut i: usize = 0;
            assert(ab.union(pkgs.take(0).to_set()) =~= ab);
            while i < parts.len()
                invariant
                    i <= parts.len(),
                    rows == text::rows(parts@),
                    pkgs == rows.map_values(|s: Seq<char>| component_package(s)),
                    defaults@ == ab.union(pkgs.take(i as int).to_set()),
                decreases parts.len() - i,
            {
                let p = component_of(parts[i]);
                defaults.insert(p);
                proof {
                    let head = pkgs.take(i as int);
                    assert(pkgs.take(i + 1) =~= head.push(p@));
                    assert forall|x: Seq<char>| #[trigger]
                        pkgs.take(i + 1).contains(x) <==> head.contains(x) || x == p@ by {
                        package_set::lemma_push_contains(head, p@, x);
                    }
                    assert(defaults@ =~= ab.union(pkgs.take(i + 1).to_set()));
                }
                i += 1;
            }
            assert(pkgs.take(pkgs.len() as int) =~= pkgs);
        }
        assert(defaults@ =~= dynamic_defaults(
            text::opt_bytes(launcher),
            text::opt_bytes(input_method),
            text::opt_bytes(accessibility),
        ));
        defaults
    }
}

/// Whether some line removes the pattern `p`.
spec fn removes(ls: Seq<Seq<char>>, p: Seq<char>) -> bool {
    exists|i: int| 0 <= i < ls.len() && entry(#[trigger] ls[i]) == Entry::Remove(p)
}

/// Whether some pattern of `v` covers `x`.
spec fn covered_by(v: Seq<Seq<char>>, x: Seq<char>) -> bool {
    exists|i: int| 0 <= i < v.len() && package_set::covers(#[trigger] v[i], x)
}

proof fn lemma_static_defaults()
    ensures
        forall|x: Seq<char>| #[trigger]
            static_defaults().to_set().contains(x) <==> {
                ||| x == "com.google.android.as*"@
                ||| x == "com.google.android.gms*"@
                ||| x == "com.google.android.apps.wellbeing"@
                ||| x == "com.google.android.tts"@
                ||| x == "com.google.android.googlequicksearchbox"@
                ||| x == "com.google.android.apps.googleassistant"@
                ||| x == "com.google.android.permissioncontroller"@
            },
{
    let s = static_defaults();
    assert(s.contains(s[0]) && s.contains(s[1]) && s.contains(s[2]) && s.contains(s[3])
        && s.contains(s[4]) && s.contains(s[5]) && s.contains(s[6]));
}

/// What one more line adds to the additions and to the removals.
proof fn lemma_push_line(ls: Seq<Seq<char>>, line: Seq<char>)
    ensures
        additions(ls.push(line)) == match entry(line) {
            Entry::Add(p) => additions(ls).insert(p),
            _ => additions(ls),
        },
        forall|p: Seq<char>| #[trigger]
            removes(ls.push(line), p) <==> removes(ls, p) || entry(line) == Entry::Remove(p),
{
    let w = ls.push(line);
    assert(w[ls.len() as int] == line);
    assert forall|p: Seq<char>| #[trigger] additions(w).contains(p) <==> additions(ls).contains(p)
        || entry(line) == Entry::Add(p) by {
        if additions(ls).contains(p) {
            let i = choose|i: int|
                0 <= i < ls.len() && entry(#[trigger] ls[i]) == Entry::Add(p);
            assert(w[i] == ls[i]);
        }
        if additions(w).contains(p) && entry(line) != Entry::Add(p) {
            let i = choose|i: int| 0 <= i < w.len() && entry(#[trigger] w[i]) == Entry::Add(p);
            assert(w[i] == ls[i]);
        }
    }
    assert forall|p: Seq<char>| #[trigger] removes(w, p) <==> removes(ls, p) || entry(line)
        == Entry::Remove(p) by {
        if removes(ls, p) {
            let i = choose|i: int|
                0 <= i < ls.len() && entry(#[trigger] ls[i]) == Entry::Remove(p);
            assert(w[i] == ls[i]);
        }
        if removes(w, p) && entry(line) != Entry::Remove(p) {
            let i = choose|i: int| 0 <= i < w.len() && entry(#[trigger] w[i]) == Entry::Remove(p);
            assert(w[i] == ls[i]);
        }
    }
    assert(additions(w) =~= match entry(line) {
        Entry::Add(p) => additions(ls).insert(p),
        _ => additions(ls),
    });
}

/// The package of the first `package=` word of an activity resolver's output.
pub fn parse_package_from_brief(stdout: &[u8]) -> (r: Option<String>)
    ensures
        text::opt_text(r) == brief_package(text::words(text::lossy(stdout@))),
{
    let s = from_utf8_lossy(stdout);
    brief_of(s.as_str())
}

/// The package of the first `package=` word of a text.
pub fn brief_of(s: &str) -> (r: Option<String>)
    ensures
        text::opt_text(r) == brief_package(text::words(s@)),
{
    let chars = chars_of(s);
    let ws = words_of(chars.as_slice());
    let ghost rows = text::rows(ws@);
    let prefix = chars_of("package=");
    let mut i: usize = 0;
    assert(rows.skip(0) =~= rows);
    while i < ws.len()
        invariant
            i <= ws.len(),
            rows == text::rows(ws@),
            rows == text::words(s@),
            prefix@ == "package="@,
            brief_package(rows) == brief_package(rows.skip(i as int)),
        decreases ws.len() - i,
    {
        let w = ws[i];
        assert(rows.skip(i as int).first() == w@);
        if starts_with_text(w, "package=") {
            let rest = slice_subrange(w, prefix.len(), w.len());
            assert(rest@ =~= w@.skip("package="@.len() as int));
            return Some(string_of(rest));
        }
        assert(rows.skip(i as int).drop_first() =~= rows.skip(i + 1));
        i += 1;
    }
    None
}

/// The package of the component name that a settings query printed.
pub fn parse_package_from_component(stdout: &[u8]) -> (r: Option<String>)
    ensures
        r is Some,
        r->0@ == component_package(text::trim(text::lossy(stdout@))),
{
    let s = from_utf8_lossy(stdout);
    let chars = chars_of(s.as_str());
    let t = trimmed(chars.as_slice());
    Some(component_of(t))
}

/// The package of a component name.
pub fn parse_package_from_component_str(component: &str) -> (r: Option<String>)
    ensures
        r is Some,
        r->0@ == component_package(component@),
{
    let chars = chars_of(component);
    Some(component_of(chars.as_slice()))
}

fn component_of(component: &[char]) -> (r: String)
    ensures
        r@ == component_package(component@),
{
    let parts = split_of(component, '/');
    assert(text::rows(parts@)[0] == parts@[0]@);
    string_of(parts[0])
}

// ---------------------------------------------------------------------------
// Laws
// ---------------------------------------------------------------------------

/// A pattern that can stand on a line of the blocklist file.
pub open spec fn writable(p: Seq<char>) -> bool {
    &&& p.len() > 0
    &&& p.first() != '#'
    &&& p.first() != '-'
    &&& !text::is_space(p.first())
    &&& !text::is_space(p.last())
    &&& forall|i: int| 0 <= i < p.len() ==> p[i] != '\n'
}

/// A file that was written back reads as the list that it was written for:
/// resolving it again, with the same dynamic packages, keeps every pattern of
/// the list, removes nothing and adds only defaults.
pub proof fn law_written_file_is_read_back(listing: Seq<Seq<char>>, dynamic: Set<Seq<char>>)
    requires
        forall|i: int| 0 <= i < listing.len() ==> writable(#[trigger] listing[i]),
    ensures
        additions(text::lines(file_text(listing))) == listing.to_set(),
        resolved(Some(file_text(listing)), dynamic) == static_defaults().to_set().union(
            dynamic,
        ).union(listing.to_set()),
{
    let ls = text::lines(file_text(listing));
    let h = file_head();
    reveal_strlit("# Blocklist configuration");
    reveal_strlit("# Use '-' prefix to unblock a package");
    reveal_strlit("");
    assert forall|i: int| 0 <= i < h.len() implies text::plain_line(#[trigger] h[i]) by {}
    assert forall|i: int| 0 <= i < listing.len() implies text::plain_line(#[trigger] listing[i]) by {
        assert(writable(listing[i]));
    }
    text::lemma_lines_unlines(h, text::unlines(listing));
    text::lemma_lines_unlines(listing, seq![]);
    assert(text::unlines(listing) + Seq::<char>::empty() =~= text::unlines(listing));
    assert(listing + text::lines(Seq::<char>::empty()) =~= listing);
    assert(ls == h + listing);
    assert forall|i: int| 0 <= i < h.len() implies entry(#[trigger] h[i]) == Entry::Nothing by {
        text::lemma_trim_fixed(h[i]);
    }
    assert forall|i: int| 0 <= i < listing.len() implies entry(#[trigger] listing[i]) == Entry::Add(
        listing[i],
    ) by {
        assert(writable(listing[i]));
        text::lemma_trim_fixed(listing[i]);
    }
    assert forall|i: int| 0 <= i < ls.len() implies entry(#[trigger] ls[i]) == if i < h.len() {
        Entry::Nothing
    } else {
        Entry::Add(ls[i])
    } by {
        if i < h.len() {
            assert(entry(h[i]) == Entry::Nothing);
        } else {
            assert(entry(listing[i - h.len()]) == Entry::Add(ls[i]));
        }
    }
    assert forall|p: Seq<char>| #[trigger] additions(ls).contains(p) <==> listing.contains(p) by {
        if listing.contains(p) {
            let k = choose|k: int| 0 <= k < listing.len() && listing[k] == p;
            assert(ls[k + h.len()] == p);
        }
        if additions(ls).contains(p) {
            let k = choose|k: int| 0 <= k < ls.len() && entry(#[trigger] ls[k]) == Entry::Add(p);
            assert(listing[k - h.len()] == p);
        }
    }
    assert(additions(ls) =~= listing.to_set());
    assert forall|p: Seq<char>| !removed(ls, p) by {}
    assert(resolved(Some(file_text(listing)), dynamic) =~= static_defaults().to_set().union(
        dynamic,
    ).union(listing.to_set()));
}

/// A list can be written to its file if the system's settings name only what can
/// stand on a line.
pub proof fn law_list_is_writable(content: Option<Seq<char>>, dynamic: Set<Seq<char>>)
    requires
        forall|p: Seq<char>| #[trigger] dynamic.contains(p) ==> writable(p),
    ensures
        forall|p: Seq<char>| #[trigger] resolved(content, dynamic).contains(p) ==> writable(p),
{
    let ls = file_lines(content);
    if let Some(t) = content {
        text::lemma_lines_hold_no_feed(t);
    }
    lemma_static_defaults();
    reveal_strlit("com.google.android.as*");
    reveal_strlit("com.google.android.gms*");
    reveal_strlit("com.google.android.apps.wellbeing");
    reveal_strlit("com.google.android.tts");
    reveal_strlit("com.google.android.googlequicksearchbox");
    reveal_strlit("com.google.android.apps.googleassistant");
    reveal_strlit("com.google.android.permissioncontroller");
    assert forall|p: Seq<char>| #[trigger] resolved(content, dynamic).contains(p) implies writable(
        p,
    ) by {
        if additions(ls).contains(p) {
            let i = choose|i: int|
                0 <= i < ls.len() && entry(#[trigger] ls[i]) == Entry::Add(p);
            text::lemma_trim(ls[i]);
            assert(!ls[i].contains('\n'));
            assert forall|j: int| 0 <= j < p.len() implies p[j] != '\n' by {
                assert(ls[i].contains(text::trim(ls[i])[j]));
            }
        }
    }
}

/// A list comes back from its file: what was resolved and written is resolved
/// again, with the defaults that a removal had kept from it, as the file that is
/// written holds no removals. Where there were none, the list stays as it was.
pub proof fn law_list_survives_restart(
    content: Option<Seq<char>>,
    dynamic: Set<Seq<char>>,
    written: Seq<char>,
)
    requires
        forall|p: Seq<char>| #[trigger] dynamic.contains(p) ==> writable(p),
        is_file_text(written, resolved(content, dynamic)),
    ensures
        resolved(Some(written), dynamic) == static_defaults().to_set().union(dynamic).union(
            resolved(content, dynamic),
        ),
        (forall|i: int|
            0 <= i < file_lines(content).len() ==> !(#[trigger] entry(
                file_lines(content)[i],
            ) is Remove)) ==> resolved(Some(written), dynamic) == resolved(content, dynamic),
{
    let list = resolved(content, dynamic);
    let listing = choose|listing: Seq<Seq<char>>|
        package_set::ascending(listing) && listing.to_set() == list && written
            == #[trigger] file_text(listing);
    law_list_is_writable(content, dynamic);
    assert forall|i: int| 0 <= i < listing.len() implies writable(#[trigger] listing[i]) by {
        assert(listing.to_set().contains(listing[i])) by {
            assert(listing.contains(listing[i]));
        }
    }
    law_written_file_is_read_back(listing, dynamic);
    if forall|i: int|
        0 <= i < file_lines(content).len() ==> !(#[trigger] entry(
            file_lines(content)[i],
        ) is Remove) {
        law_defaults_are_blocked(content, dynamic);
        assert(static_defaults().to_set().union(dynamic).union(list) =~= list);
    }
}

/// What a removal covers is not on the resolved list, default or not.
pub proof fn law_removal_wins(
    content: Seq<char>,
    dynamic: Set<Seq<char>>,
    i: int,
    pattern: Seq<char>,
    package: Seq<char>,
)
    requires
        0 <= i < text::lines(content).len(),
        entry(text::lines(content)[i]) == Entry::Remove(pattern),
        package_set::covers(pattern, package),
    ensures
        !resolved(Some(content), dynamic).contains(package),
{
}

/// Without removals every default and every addition is on the resolved list.
pub proof fn law_defaults_are_blocked(content: Option<Seq<char>>, dynamic: Set<Seq<char>>)
    requires
        forall|i: int|
            0 <= i < file_lines(content).len() ==> !(#[trigger] entry(
                file_lines(content)[i],
            ) is Remove),
    ensures
        static_defaults().to_set().subset_of(resolved(content, dynamic)),
        dynamic.subset_of(resolved(content, dynamic)),
        additions(file_lines(content)).subset_of(resolved(content, dynamic)),
{
    assert forall|p: Seq<char>| !removed(file_lines(content), p) by {}
}

/// The packages and prefixes that are on every list unless they are taken off.
pub open spec fn is_default(x: Seq<char>) -> bool {
    ||| x == "com.google.android.as*"@
    ||| x == "com.google.android.gms*"@
    ||| x == "com.google.android.apps.wellbeing"@
    ||| x == "com.google.android.tts"@
    ||| x == "com.google.android.googlequicksearchbox"@
    ||| x == "com.google.android.apps.googleassistant"@
    ||| x == "com.google.android.permissioncontroller"@
}

/// Whether the removal of `q` takes `x` off the list: it is `x`, or a prefix of
/// `x` followed by `*`.
pub open spec fn takes_off(q: Seq<char>, x: Seq<char>) -> bool {
    q == x || exists|prefix: Seq<char>| q == #[trigger] prefix.push('*') && prefix.is_prefix_of(x)
}

/// Whether a line of the file is `x`, but for white space around it, and `x` is
/// neither empty nor a comment nor a removal.
pub open spec fn has_line(content: Option<Seq<char>>, x: Seq<char>) -> bool {
    content is Some && x.len() > 0 && x[0] != '#' && x[0] != '-' && exists|i: int|
        0 <= i < text::lines(content->0).len() && text::trim(#[trigger] text::lines(content->0)[i])
            == x
}

/// Whether a line of the file is a minus and then a text that takes `x` off.
pub open spec fn has_removal(content: Option<Seq<char>>, x: Seq<char>) -> bool {
    content is Some && exists|i: int, rest: Seq<char>|
        0 <= i < text::lines(content->0).len() && text::trim(#[trigger] text::lines(content->0)[i])
            == seq!['-'] + rest && #[trigger] takes_off(text::trim(rest), x)
}

proof fn lemma_takes_off(q: Seq<char>, x: Seq<char>)
    ensures
        package_set::covers(q, x) <==> takes_off(q, x),
{
    if q.len() > 0 && q.last() == '*' {
        let prefix = q.drop_last();
        assert(q =~= prefix.push('*'));
        package_set::law_patterns(prefix, seq![], x);
        if takes_off(q, x) && q != x {
            let other = choose|other: Seq<char>|
                q == #[trigger] other.push('*') && other.is_prefix_of(x);
            assert(other =~= other.push('*').drop_last());
        }
        if q == x {
            package_set::law_patterns(prefix, seq![], q);
        }
    } else {
        package_set::law_patterns(seq![], q, x);
        if takes_off(q, x) && q != x {
            let other = choose|other: Seq<char>|
                q == #[trigger] other.push('*') && other.is_prefix_of(x);
            assert(q.last() == '*');
        }
    }
}

/// What is on the list: the defaults, the packages of the system's settings and
/// the lines of the file, but for what a removal in the file takes off, wherever
/// it stands.
pub proof fn law_list_is_exact(content: Option<Seq<char>>, dynamic: Set<Seq<char>>, x: Seq<char>)
    ensures
        resolved(content, dynamic).contains(x) <==> (is_default(x) || dynamic.contains(x)
            || has_line(content, x)) && !has_removal(content, x),
{
    let ls = file_lines(content);
    lemma_static_defaults();
    assert(additions(ls).contains(x) <==> has_line(content, x)) by {
        if additions(ls).contains(x) {
            let i = choose|i: int| 0 <= i < ls.len() && entry(#[trigger] ls[i]) == Entry::Add(x);
            assert(text::trim(text::lines(content->0)[i]) == x);
        }
        if has_line(content, x) {
            let i = choose|i: int|
                0 <= i < text::lines(content->0).len() && text::trim(
                    #[trigger] text::lines(content->0)[i],
                ) == x;
            assert(entry(ls[i]) == Entry::Add(x));
        }
    }
    assert(removed(ls, x) <==> has_removal(content, x)) by {
        if removed(ls, x) {
            let (i, p) = choose|i: int, p: Seq<char>|
                0 <= i < ls.len() && entry(#[trigger] ls[i]) == Entry::Remove(p)
                    && #[trigger] package_set::covers(p, x);
            lemma_takes_off(p, x);
            let t = text::trim(ls[i]);
            let rest = t.drop_first();
            assert(t =~= seq!['-'] + rest);
            assert(takes_off(text::trim(rest), x));
            assert(text::trim(text::lines(content->0)[i]) == seq!['-'] + rest);
        }
        if has_removal(content, x) {
            let (i, rest) = choose|i: int, rest: Seq<char>|
                0 <= i < text::lines(content->0).len() && text::trim(
                    #[trigger] text::lines(content->0)[i],
                ) == seq!['-'] + rest && #[trigger] takes_off(text::trim(rest), x);
            let t = text::trim(ls[i]);
            assert(t.drop_first() =~= rest);
            let p = text::trim(rest);
            lemma_takes_off(p, x);
            assert(entry(ls[i]) == Entry::Remove(p));
            assert(package_set::covers(p, x));
        }
    }
}

/// A line `-q`, with white space wherever it may stand, takes `q` off the list,
/// be it a package or a prefix with `*`, a default or not; and where `q` is a
/// prefix with `*`, all that begins with the prefix.
pub proof fn law_removal_line(
    content: Seq<char>,
    dynamic: Set<Seq<char>>,
    i: int,
    before: Seq<char>,
    gap: Seq<char>,
    q: Seq<char>,
    after: Seq<char>,
    prefix: Seq<char>,
    x: Seq<char>,
)
    requires
        0 <= i < text::lines(content).len(),
        text::lines(content)[i] == before + seq!['-'] + gap + q + after,
        text::is_blank(before),
        text::is_blank(gap),
        text::is_blank(after),
        q.len() > 0,
        !text::is_space(q.first()),
        !text::is_space(q.last()),
    ensures
        !resolved(Some(content), dynamic).contains(q),
        q == prefix.push('*') && prefix.is_prefix_of(x) ==> !resolved(
            Some(content),
            dynamic,
        ).contains(x),
{
    let t = seq!['-'] + gap + q;
    assert(before + seq!['-'] + gap + q + after =~= before + t + after);
    assert(t.last() == q.last());
    text::law_trim(before, t, after);
    let rest = gap + q;
    assert(t =~= seq!['-'] + rest);
    let none = Seq::<char>::empty();
    assert(gap + q =~= gap + q + none);
    text::law_trim(gap, q, none);
    let file = Some(content);
    assert(text::trim(text::lines(file->0)[i]) == seq!['-'] + rest);
    assert(takes_off(text::trim(rest), q));
    assert(has_removal(Some(content), q));
    law_list_is_exact(Some(content), dynamic, q);
    if q == prefix.push('*') && prefix.is_prefix_of(x) {
        assert(takes_off(text::trim(rest), x));
        assert(has_removal(Some(content), x));
        law_list_is_exact(Some(content), dynamic, x);
    }
}

/// A line with a package or a prefix with `*`, with white space around it, puts
/// that on the list if no line takes it off; then it is blocked, and so is all
/// that begins with the prefix.
pub proof fn law_added_line(
    content: Seq<char>,
    dynamic: Set<Seq<char>>,
    i: int,
    before: Seq<char>,
    q: Seq<char>,
    after: Seq<char>,
    prefix: Seq<char>,
    x: Seq<char>,
)
    requires
        0 <= i < text::lines(content).len(),
        text::lines(content)[i] == before + q + after,
        text::is_blank(before),
        text::is_blank(after),
        writable(q),
        forall|j: int|
            0 <= j < text::lines(content).len() ==> text::trim(
                #[trigger] text::lines(content)[j],
            ).len() == 0 || text::trim(text::lines(content)[j])[0] != '-',
    ensures
        resolved(Some(content), dynamic).contains(q),
        package_set::covered(resolved(Some(content), dynamic), q),
        q == prefix.push('*') && prefix.is_prefix_of(x) ==> package_set::covered(
            resolved(Some(content), dynamic),
            x,
        ),
{
    text::law_trim(before, q, after);
    let file = Some(content);
    assert(text::trim(text::lines(file->0)[i]) == q);
    assert(q[0] == q.first());
    assert(has_line(Some(content), q));
    assert(!has_removal(Some(content), q)) by {
        if has_removal(Some(content), q) {
            let (j, rest) = choose|j: int, rest: Seq<char>|
                0 <= j < text::lines(content).len() && text::trim(
                    #[trigger] text::lines(content)[j],
                ) == seq!['-'] + rest && #[trigger] takes_off(text::trim(rest), q);
            assert((seq!['-'] + rest)[0] == '-');
        }
    }
    law_list_is_exact(Some(content), dynamic, q);
    let list = resolved(Some(content), dynamic);
    package_set::law_covered(list, q);
    if q == prefix.push('*') && prefix.is_prefix_of(x) {
        assert(list.contains(prefix.push('*')));
        package_set::law_covered(list, x);
    }
}

/// The written file is a head of comments and an empty line, and then one line
/// for each entry.
pub proof fn law_file_text(listing: Seq<Seq<char>>, p: Seq<char>)
    ensures
        file_text(Seq::<Seq<char>>::empty()) == "# Blocklist configuration"@ + seq!['\n']
            + "# Use '-' prefix to unblock a package"@ + seq!['\n'] + seq!['\n'],
        file_text(listing.push(p)) == file_text(listing) + p + seq!['\n'],
{
    let none = Seq::<Seq<char>>::empty();
    let a = none.push("# Blocklist configuration"@);
    let b = a.push("# Use '-' prefix to unblock a package"@);
    reveal_strlit("");
    text::law_unlines(none, "# Blocklist configuration"@);
    text::law_unlines(a, "# Use '-' prefix to unblock a package"@);
    text::law_unlines(b, ""@);
    assert(b.push(""@) =~= file_head());
    text::law_unlines(listing, p);
    assert(file_text(listing.push(p)) =~= file_text(listing) + p + seq!['\n']);
    assert(file_text(none) =~= "# Blocklist configuration"@ + seq!['\n']
        + "# Use '-' prefix to unblock a package"@ + seq!['\n'] + seq!['\n']);
}

/// The launcher is what follows `package=` in the first word that begins so.
pub proof fn law_launcher_word(before: Seq<Seq<char>>, p: Seq<char>, after: Seq<Seq<char>>)
    requires
        forall|i: int|
            0 <= i < before.len() ==> !"package="@.is_prefix_of(#[trigger] before[i]),
    ensures
        brief_package(before) is None,
        brief_package(before + seq!["package="@ + p] + after) == Some(p),
    decreases before.len(),
{
    let w = "package="@ + p;
    let ws = before + seq![w] + after;
    if before.len() == 0 {
        assert(ws.first() == w);
        assert(w.take("package="@.len() as int) =~= "package="@);
        assert(w.skip("package="@.len() as int) =~= p);
    } else {
        let rest = before.drop_first();
        assert(!"package="@.is_prefix_of(before[0]));
        assert forall|i: int| 0 <= i < rest.len() implies !"package="@.is_prefix_of(
            #[trigger] rest[i],
        ) by {
            assert(rest[i] == before[i + 1]);
        }
        law_launcher_word(rest, p, after);
        assert(ws.first() == before[0]);
        assert(ws.drop_first() =~= rest + seq![w] + after);
    }
}

/// The package of a component is what stands before its slash; without one, all
/// of it.
pub proof fn law_component(p: Seq<char>, class: Seq<char>)
    requires
        !p.contains('/'),
    ensures
        component_package(p) == p,
        component_package(p + seq!['/'] + class) == p,
{
    text::law_split(p, '/', class);
}

/// The settings put on the list: the launcher, the package of the input method,
/// and that of each accessibility service, which are separated by colons. A
/// setting that could not be asked for puts nothing on it.
pub proof fn law_settings(
    launcher: Option<Seq<u8>>,
    input_method: Option<Seq<u8>>,
    accessibility: Option<Seq<u8>>,
    x: Seq<char>,
)
    ensures
        dynamic_defaults(launcher, input_method, accessibility).contains(x) <==> {
            ||| launcher is Some && brief_package(text::words(text::lossy(launcher->0))) == Some(x)
            ||| input_method is Some && component_package(
                text::trim(text::lossy(input_method->0)),
            ) == x
            ||| accessibility is Some && exists|i: int|
                0 <= i < text::split(text::lossy(accessibility->0), ':').len()
                    && component_package(
                    #[trigger] text::split(text::lossy(accessibility->0), ':')[i],
                ) == x
        },
{
    if let Some(b) = accessibility {
        let parts = text::split(text::lossy(b), ':');
        let names = parts.map_values(|s: Seq<char>| component_package(s));
        if names.to_set().contains(x) {
            let i = choose|i: int| 0 <= i < names.len() && names[i] == x;
            assert(component_package(parts[i]) == x);
        }
        if exists|i: int| 0 <= i < parts.len() && component_package(#[trigger] parts[i]) == x {
            let i = choose|i: int|
                0 <= i < parts.len() && component_package(#[trigger] parts[i]) == x;
            assert(names[i] == x);
            assert(names.contains(x));
        }
    }
}

/// The file holds three lines at its head, and then one line for each entry, in
/// order and none twice.
pub proof fn law_file_is_sorted(t: Seq<char>, packages: Set<Seq<char>>, i: int, j: int, x: Seq<char>)
    requires
        is_file_text(t, packages),
        forall|p: Seq<char>| #[trigger] packages.contains(p) ==> writable(p),
    ensures
        ({
            let ls = text::lines(t);
            &&& ls.len() >= 3
            &&& ls[0] == "# Blocklist configuration"@
            &&& ls[1] == "# Use '-' prefix to unblock a package"@
            &&& ls[2] == ""@
            &&& 3 <= i < j < ls.len() ==> package_set::less(ls[i], ls[j])
            &&& packages.contains(x) <==> ls.skip(3).contains(x)
        }),
{
    let listing = choose|listing: Seq<Seq<char>>|
        package_set::ascending(listing) && listing.to_set() == packages && t == #[trigger] file_text(
            listing,
        );
    let h = file_head();
    reveal_strlit("# Blocklist configuration");
    reveal_strlit("# Use '-' prefix to unblock a package");
    reveal_strlit("");
    assert forall|k: int| 0 <= k < h.len() implies text::plain_line(#[trigger] h[k]) by {}
    assert forall|k: int| 0 <= k < listing.len() implies text::plain_line(#[trigger] listing[k]) by {
        assert(listing.to_set().contains(listing[k]));
        assert(writable(listing[k]));
    }
    text::lemma_lines_unlines(h, text::unlines(listing));
    text::lemma_lines_unlines(listing, seq![]);
    assert(text::unlines(listing) + Seq::<char>::empty() =~= text::unlines(listing));
    assert(listing + text::lines(Seq::<char>::empty()) =~= listing);
    let ls = text::lines(t);
    assert(ls == h + listing);
    assert(ls.skip(3) =~= listing);
    if 3 <= i < j < ls.len() {
        assert(ls[i] == listing[i - 3] && ls[j] == listing[j - 3]);
    }
}

} // verus!
