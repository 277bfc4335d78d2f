//! Resolution of the foreground package from the cgroup hierarchy.

use std::collections::HashMap;

use vstd::prelude::*;
use vstd::slice::slice_subrange;

use crate::blocklist::Blocklist;
use crate::cache;
use crate::cache::{CacheFile, CacheState, Fingerprint, UidCache};
use crate::package_set;
use crate::path;
use crate::path::join_path;
use crate::terminal_apps::TerminalApps;
use crate::text;
use crate::text::{
    chars_of, contains_text, copy_str, is_text, lines_of, parse_i32, push_all, push_dec, push_int,
    push_text, quote, same_str, split_of, starts_with_text, string_of, trimmed, words_of,
};

verus! {

broadcast use vstd::std_specs::hash::group_hash_axioms;

/// The first UID of installed apps.
pub const FIRST_APP_UID: u32 = 10000;

/// The file that lists the processes of the top-app CPUSet.
pub const TOP_APP_PROCS: &'static str = "/dev/cpuset/top-app/cgroup.procs";

/// A cgroup directory that exists, and its `cgroup.events`: the content, or why
/// it cannot be read.
#[derive(Debug)]
pub struct GroupFacts {
    pub path: String,
    pub events: Result<String, String>,
}

/// What the system shows of a process.
#[derive(Debug)]
pub struct ProcFacts {
    pub pid: i32,
    /// The content of `/proc/<pid>/cgroup`, or why it cannot be read.
    pub cgroup: Result<String, String>,
    /// Those of the directories that `cgroup` may stand for that exist.
    pub groups: Vec<GroupFacts>,
    /// The owner of the process, or why it cannot be told.
    pub uid: Result<u32, String>,
    /// The command line, with blanks between its arguments.
    pub cmdline: Option<String>,
    /// The content of `/proc/<pid>/oom_score_adj`.
    pub oom_score_adj: Option<String>,
    /// The output of the package listing, for an owner that the cache lacks.
    pub listing: Option<Vec<u8>>,
}

// ---------------------------------------------------------------------------
// Model: processes and their groups
// ---------------------------------------------------------------------------

/// The PIDs that the lines name.
pub open spec fn listed_pids(ls: Seq<Seq<char>>) -> Seq<i32>
    decreases ls.len(),
{
    if ls.len() == 0 {
        seq![]
    } else {
        let head = listed_pids(ls.drop_last());
        match text::integer_i32(text::trim(ls.last())) {
            Some(pid) => head.push(pid),
            None => head,
        }
    }
}

/// How many leading elements of `s` are at least `pid`.
pub open spec fn rank(s: Seq<i32>, pid: i32) -> int
    decreases s.len(),
{
    if s.len() == 0 || s.first() < pid {
        0
    } else {
        1 + rank(s.drop_first(), pid)
    }
}

/// `s` in descending order.
pub open spec fn descending(s: Seq<i32>) -> Seq<i32>
    decreases s.len(),
{
    if s.len() == 0 {
        seq![]
    } else {
        let head = descending(s.drop_last());
        head.insert(rank(head, s.last()), s.last())
    }
}

/// `s` without the slashes at its start.
pub open spec fn unrooted(s: Seq<char>) -> Seq<char>
    decreases s.len(),
{
    if s.len() > 0 && s.first() == '/' {
        unrooted(s.drop_first())
    } else {
        s
    }
}

/// The directory below a cgroup v2 root that a line of `/proc/<pid>/cgroup`
/// names.
pub open spec fn v2_rel(line: Seq<char>) -> Option<Seq<char>> {
    let parts = text::split(line, ':');
    if parts.len() >= 3 && parts[0] == "0"@ && parts[1].len() == 0 {
        Some(unrooted(parts[2]))
    } else {
        None
    }
}

/// `rel` below each of `roots`.
pub open spec fn below(roots: Seq<Seq<char>>, rel: Seq<char>) -> Seq<Seq<char>> {
    roots.map_values(|root: Seq<char>| path::join(root, rel))
}

/// The directories that the lines of `/proc/<pid>/cgroup` may stand for, in the
/// order in which they are tried.
pub open spec fn candidates(roots: Seq<Seq<char>>, ls: Seq<Seq<char>>) -> Seq<Seq<char>>
    decreases ls.len(),
{
    if ls.len() == 0 {
        seq![]
    } else {
        let head = candidates(roots, ls.drop_last());
        match v2_rel(ls.last()) {
            Some(rel) => head + below(roots, rel),
            None => head,
        }
    }
}

/// The position of `path` in `groups`, or their number.
pub open spec fn group_at(groups: Seq<GroupFacts>, path: Seq<char>) -> int
    decreases groups.len(),
{
    if groups.len() == 0 || groups.first().path@ == path {
        0
    } else {
        1 + group_at(groups.drop_first(), path)
    }
}

/// The group of the first of `paths` that has one.
pub open spec fn first_group(groups: Seq<GroupFacts>, paths: Seq<Seq<char>>) -> Option<GroupFacts>
    decreases paths.len(),
{
    if paths.len() == 0 {
        None
    } else {
        let k = group_at(groups, paths.first());
        if k < groups.len() {
            Some(groups[k])
        } else {
            first_group(groups, paths.drop_first())
        }
    }
}

/// The cgroup v2 directory of a process.
pub open spec fn v2_group(roots: Seq<Seq<char>>, f: ProcFacts) -> Option<GroupFacts> {
    match f.cgroup {
        Ok(content) => first_group(f.groups@, candidates(roots, text::lines(content@))),
        Err(_) => None,
    }
}

/// Whether the cgroup v2 directory of a process is populated.
pub open spec fn populated(roots: Seq<Seq<char>>, f: ProcFacts) -> bool {
    match v2_group(roots, f) {
        Some(group) => match group.events {
            Ok(events) => text::contains(events@, "populated 1"@),
            Err(_) => false,
        },
        None => false,
    }
}

/// The cgroup v2 mount points that the lines of `/proc/mounts` name.
pub open spec fn mounted(ls: Seq<Seq<char>>) -> Seq<Seq<char>>
    decreases ls.len(),
{
    if ls.len() == 0 {
        seq![]
    } else {
        let head = mounted(ls.drop_last());
        let ws = text::words(ls.last());
        if ws.len() >= 3 && ws[2] == "cgroup2"@ {
            head.push(ws[1])
        } else {
            head
        }
    }
}

/// The cgroup v2 roots: the mount points, or the usual one if there are none.
pub open spec fn v2_roots(mounts: Option<Seq<char>>) -> Seq<Seq<char>> {
    let found = match mounts {
        Some(content) => mounted(text::lines(content)),
        None => seq![],
    };
    if found.len() == 0 {
        seq!["/sys/fs/cgroup"@]
    } else {
        found
    }
}

// ---------------------------------------------------------------------------
// Listing and grouping of processes
// ---------------------------------------------------------------------------

fn insert_descending(v: &mut Vec<i32>, pid: i32)
    ensures
        final(v)@ == old(v)@.insert(rank(old(v)@, pid), pid),
        0 <= rank(old(v)@, pid) <= old(v)@.len(),
{
    let mut k: usize = 0;
    let ghost s = v@;
    assert(s.skip(0) =~= s);
    while k < v.len() && v[k] >= pid
        invariant
            k <= v.len(),
            v@ == s,
            rank(s, pid) == k + rank(s.skip(k as int), pid),
        decreases v.len() - k,
    {
        assert(s.skip(k as int).drop_first() =~= s.skip(k + 1));
        k += 1;
    }
    assert(rank(s.skip(k as int), pid) == 0);
    v.insert(k, pid);
}

/// The PIDs of the top-app CPUSet in the order in which they are looked at.
pub fn get_v1_top_app_pids(content: &str) -> (r: Vec<i32>)
    ensures
        r@ == descending(listed_pids(text::lines(content@))),
{
    let pids = parse_pids(content);
    let mut out: Vec<i32> = Vec::new();
    let mut i: usize = 0;
    while i < pids.len()
        invariant
            i <= pids.len(),
            out@ == descending(pids@.take(i as int)),
        decreases pids.len() - i,
    {
        let ghost was = out@;
        insert_descending(&mut out, pids[i]);
        assert(pids@.take(i + 1).drop_last() =~= pids@.take(i as int));
        i += 1;
    }
    assert(pids@.take(pids@.len() as int) =~= pids@);
    out
}

/// The PIDs that the lines of `content` name, as they come.
pub(crate) fn parse_pids(content: &str) -> (r: Vec<i32>)
    ensures
        r@ == listed_pids(text::lines(content@)),
{
    let chars = chars_of(content);
    let ls = lines_of(chars.as_slice());
    let ghost rows = text::rows(ls@);
    let mut out: Vec<i32> = Vec::new();
    let mut i: usize = 0;
    while i < ls.len()
        invariant
            i <= ls.len(),
            rows == text::rows(ls@),
            out@ == listed_pids(rows.take(i as int)),
        decreases ls.len() - i,
    {
        proof {
            assert(rows.take(i + 1).drop_last() =~= rows.take(i as int));
            assert(rows.take(i + 1).last() == ls@[i as int]@);
        }
        if let Some(pid) = parse_i32(trimmed(ls[i])) {
            out.push(pid);
        }
        i += 1;
    }
    assert(rows.take(rows.len() as int) =~= rows);
    out
}

fn skip_slashes<'a>(s: &'a [char]) -> (r: &'a [char])
    ensures
        r@ == unrooted(s@),
{
    let mut k: usize = 0;
    assert(s@.skip(0) =~= s@);
    while k < s.len() && s[k] == '/'
        invariant
            k <= s.len(),
            unrooted(s@) == unrooted(s@.skip(k as int)),
        decreases s.len() - k,
    {
        assert(s@.skip(k as int).drop_first() =~= s@.skip(k + 1));
        k += 1;
    }
    let r = slice_subrange(s, k, s.len());
    assert(r@ =~= s@.skip(k as int));
    r
}

/// Append `rel` below each of `roots` to `out`.
fn push_below(out: &mut Vec<String>, roots: &Vec<String>, rel: &[char])
    ensures
        text::texts(final(out)@) == text::texts(old(out)@) + below(text::texts(roots@), rel@),
{
    let rel_text = string_of(rel);
    let ghost tails = below(text::texts(roots@), rel@);
    let mut i: usize = 0;
    assert(text::texts(out@) + tails.take(0) =~= text::texts(out@));
    while i < roots.len()
        invariant
            i <= roots.len(),
            rel_text@ == rel@,
            tails == below(text::texts(roots@), rel@),
            text::texts(out@) == text::texts(old(out)@) + tails.take(i as int),
        decreases roots.len() - i,
    {
        let ghost was = text::texts(out@);
        let joined = join_path(roots[i].as_str(), rel_text.as_str());
        out.push(joined);
        proof {
            assert(text::texts(out@) =~= was.push(joined@));
            assert(tails[i as int] == joined@);
            assert(was.push(joined@) =~= text::texts(old(out)@) + tails.take(i + 1));
        }
        i += 1;
    }
    assert(tails.take(tails.len() as int) =~= tails);
}

/// The group of `path`.
fn find_group<'a>(groups: &'a Vec<GroupFacts>, path: &str) -> (r: Option<&'a GroupFacts>)
    ensures
        r == (if group_at(groups@, path@) < groups@.len() {
            Some(&groups@[group_at(groups@, path@)])
        } else {
            None
        }),
        group_at(groups@, path@) >= 0,
{
    let mut k: usize = 0;
    assert(groups@.skip(0) =~= groups@);
    while k < groups.len()
        invariant
            k <= groups.len(),
            group_at(groups@, path@) == k + group_at(groups@.skip(k as int), path@),
        decreases groups.len() - k,
    {
        if same_str(groups[k].path.as_str(), path) {
            return Some(&groups[k]);
        }
        assert(groups@.skip(k as int).drop_first() =~= groups@.skip(k + 1));
        k += 1;
    }
    None
}

/// The group of the first of `paths` that has one.
fn find_first_group<'a>(groups: &'a Vec<GroupFacts>, paths: &Vec<String>) -> (r: Option<
    &'a GroupFacts,
>)
    ensures
        r == (match first_group(groups@, text::texts(paths@)) {
            Some(g) => Some(&g),
            None => None,
        }),
{
    let ghost ps = text::texts(paths@);
    let mut k: usize = 0;
    assert(ps.skip(0) =~= ps);
    while k < paths.len()
        invariant
            k <= paths.len(),
            ps == text::texts(paths@),
            first_group(groups@, ps) == first_group(groups@, ps.skip(k as int)),
        decreases paths.len() - k,
    {
        assert(ps.skip(k as int).first() == paths@[k as int]@);
        let found = find_group(groups, paths[k].as_str());
        if found.is_some() {
            return found;
        }
        assert(ps.skip(k as int).drop_first() =~= ps.skip(k + 1));
        k += 1;
    }
    None
}

/// The mount points of the cgroup v2 hierarchies, from `/proc/mounts`.
pub fn discover_cgroup_v2_roots(mounts: Option<&str>) -> (r: Vec<String>)
    ensures
        text::texts(r@) == v2_roots(text::opt_str(mounts)),
{
    let chars = match mounts {
        Some(content) => chars_of(content),
        None => Vec::new(),
    };
    let ls = lines_of(chars.as_slice());
    let ghost rows = text::rows(ls@);
    let mut out: Vec<String> = Vec::new();
    let mut i: usize = 0;
    assert(text::texts(out@) =~= Seq::<Seq<char>>::empty());
    while i < ls.len()
        invariant
            i <= ls.len(),
            rows == text::rows(ls@),
            text::texts(out@) == mounted(rows.take(i as int)),
        decreases ls.len() - i,
    {
        proof {
            assert(rows.take(i + 1).drop_last() =~= rows.take(i as int));
            assert(rows.take(i + 1).last() == ls@[i as int]@);
        }
        let ws = words_of(ls[i]);
        let ghost words = text::rows(ws@);
        if ws.len() >= 3 {
            assert(words[1] == ws@[1]@ && words[2] == ws@[2]@);
            if is_text(ws[2], "cgroup2") {
                let ghost was = text::texts(out@);
                let root = string_of(ws[1]);
                out.push(root);
                assert(text::texts(out@) =~= was.push(root@));
            }
        }
        i += 1;
    }
    assert(rows.take(rows.len() as int) =~= rows);
    proof {
        if mounts is None {
            assert(text::texts(out@) =~= Seq::<Seq<char>>::empty());
        }
    }
    assert(out@.len() == text::texts(out@).len());
    if out.len() == 0 {
        out.push(copy_str("/sys/fs/cgroup"));
        assert(text::texts(out@) =~= seq!["/sys/fs/cgroup"@]);
    }
    out
}

// ---------------------------------------------------------------------------
// Model: identity and selection
// ---------------------------------------------------------------------------

/// What a resolution goes by and leaves as it is.
#[verifier::ext_equal]
pub struct Setup {
    pub blocked: Set<Seq<char>>,
    pub terminals: Set<Seq<char>>,
    pub launcher: Option<Seq<char>>,
    pub roots: Seq<Seq<char>>,
    pub cache_file: Seq<char>,
    pub stamp: Option<Fingerprint>,
}

/// What a resolution learns: packages by UID, and by PID (the empty text for a
/// process that is of no interest).
#[verifier::ext_equal]
pub struct Known {
    pub cache: CacheState,
    pub pids: Map<i32, Seq<char>>,
}

/// The process name at the start of a command line.
pub open spec fn process_name(cmdline: Seq<char>) -> Seq<char> {
    text::trim(text::split(cmdline, '\0')[0])
}

/// Whether a command line shows that a process of the terminal `package` is one
/// of the programs that run in it.
pub open spec fn runs_in_terminal(cmdline: Seq<char>, package: Seq<char>) -> bool {
    process_name(cmdline) != package || cmdline.contains('/')
}

/// Whether a system process of that name can be in the foreground.
pub open spec fn is_system_app(name: Seq<char>) -> bool {
    name.len() > 0 && ("com.android."@.is_prefix_of(name) || "com.google."@.is_prefix_of(name))
}

/// What is known after a process was looked at, and its package, if it has one
/// that counts.
pub open spec fn identified(setup: Setup, known: Known, f: ProcFacts, uid: u32) -> (
    Known,
    Option<Seq<char>>,
) {
    if uid >= FIRST_APP_UID {
        let next = cache::looked_up(known.cache, uid, opt_vec(f.listing));
        let named = match cache::package_of(next, uid) {
            Some(package) => if package_set::covered(setup.terminals, package)
                && f.cmdline is Some && runs_in_terminal(f.cmdline->0@, package) {
                None
            } else {
                Some(package)
            },
            None => None,
        };
        (Known { cache: next, ..known }, named)
    } else {
        let named = match f.cmdline {
            Some(cmdline) => if is_system_app(process_name(cmdline@)) {
                Some(process_name(cmdline@))
            } else {
                None
            },
            None => None,
        };
        (known, named)
    }
}

/// The bytes of an optional vector.
pub open spec fn opt_vec(b: Option<Vec<u8>>) -> Option<Seq<u8>> {
    match b {
        Some(v) => Some(v@),
        None => None,
    }
}

/// What is known after a process was considered, and whether it is a candidate.
pub open spec fn considered(setup: Setup, known: Known, f: ProcFacts) -> (Known, bool) {
    if !populated(setup.roots, f) {
        (known, false)
    } else if known.pids.contains_key(f.pid) {
        let package = known.pids[f.pid];
        (known, package.len() > 0 && !package_set::covered(setup.blocked, package))
    } else {
        match f.uid {
            Ok(uid) => {
                let (next, named) = identified(setup, known, f, uid);
                match named {
                    Some(package) => (
                        Known { pids: next.pids.insert(f.pid, package), ..next },
                        !package_set::covered(setup.blocked, package),
                    ),
                    None => (Known { pids: next.pids.insert(f.pid, seq![]), ..next }, false),
                }
            },
            Err(_) => (known, false),
        }
    }
}

/// The position of the facts on `pid`, or the number of facts.
pub open spec fn facts_at(facts: Seq<ProcFacts>, pid: i32) -> int
    decreases facts.len(),
{
    if facts.len() == 0 || facts.first().pid == pid {
        0
    } else {
        1 + facts_at(facts.drop_first(), pid)
    }
}

/// What is known after all of `pids` were considered, and those that are
/// candidates. A process without facts is gone.
pub open spec fn filtered(setup: Setup, known: Known, pids: Seq<i32>, facts: Seq<ProcFacts>) -> (
    Known,
    Seq<ProcFacts>,
)
    decreases pids.len(),
{
    if pids.len() == 0 {
        (known, seq![])
    } else {
        let (next, kept) = filtered(setup, known, pids.drop_last(), facts);
        let k = facts_at(facts, pids.last());
        if k < facts.len() {
            let (after, keep) = considered(setup, next, facts[k]);
            (after, if keep { kept.push(facts[k]) } else { kept })
        } else {
            (next, kept)
        }
    }
}

/// A candidate for the foreground: `low` tells those that lose ties.
#[derive(Debug, Clone, Copy)]
pub struct Candidate {
    pub pid: i32,
    pub oom: i32,
    pub low: bool,
}

/// Whether `a` is to be preferred to `b`: the lower OOM score counts first, then
/// that it does not lose ties, then the higher PID.
pub open spec fn beats(a: Candidate, b: Candidate) -> bool {
    ||| a.oom < b.oom
    ||| a.oom == b.oom && !a.low && b.low
    ||| a.oom == b.oom && a.low == b.low && a.pid > b.pid
}

/// What the selection starts from: beaten by every candidate that counts.
pub open spec fn nobody() -> Candidate {
    Candidate { pid: (-1) as i32, oom: i32::MAX, low: true }
}

/// The package of a process, or the empty text.
pub open spec fn package_at(pids: Map<i32, Seq<char>>, pid: i32) -> Seq<char> {
    if pids.contains_key(pid) {
        pids[pid]
    } else {
        seq![]
    }
}

/// Whether a package loses ties: a terminal or the launcher.
pub open spec fn loses_ties(setup: Setup, package: Seq<char>) -> bool {
    package_set::covered(setup.terminals, package) || setup.launcher == Some(package)
}

/// The OOM score of a process.
pub open spec fn oom_of(f: ProcFacts) -> Option<i32> {
    match f.oom_score_adj {
        Some(content) => text::integer_i32(text::trim(content@)),
        None => None,
    }
}

/// Those of the processes that have an OOM score.
pub open spec fn ranked(setup: Setup, pids: Map<i32, Seq<char>>, kept: Seq<ProcFacts>) -> Seq<
    Candidate,
>
    decreases kept.len(),
{
    if kept.len() == 0 {
        seq![]
    } else {
        let head = ranked(setup, pids, kept.drop_last());
        let f = kept.last();
        match oom_of(f) {
            Some(oom) => head.push(
                Candidate { pid: f.pid, oom, low: loses_ties(setup, package_at(pids, f.pid)) },
            ),
            None => head,
        }
    }
}

/// The best of the candidates.
pub open spec fn best(cs: Seq<Candidate>) -> Candidate
    decreases cs.len(),
{
    if cs.len() == 0 {
        nobody()
    } else {
        let head = best(cs.drop_last());
        if beats(cs.last(), head) {
            cs.last()
        } else {
            head
        }
    }
}

/// The facts on the process `pid` among `kept`.
pub open spec fn kept_at(kept: Seq<ProcFacts>, pid: i32) -> Option<ProcFacts> {
    let k = facts_at(kept, pid);
    if k < kept.len() {
        Some(kept[k])
    } else {
        None
    }
}

/// The package in the foreground, and whether it is an installed app.
pub open spec fn selected(setup: Setup, pids: Map<i32, Seq<char>>, kept: Seq<ProcFacts>) -> Option<
    (Seq<char>, bool),
> {
    let winner = best(ranked(setup, pids, kept)).pid;
    if winner != -1 && pids.contains_key(winner) {
        match kept_at(kept, winner) {
            Some(f) => match f.uid {
                Ok(uid) => Some((pids[winner], uid >= FIRST_APP_UID)),
                Err(_) => None,
            },
            None => None,
        }
    } else {
        None
    }
}

/// The cgroup v2 directories of the processes.
pub open spec fn group_paths(roots: Seq<Seq<char>>, kept: Seq<ProcFacts>) -> Seq<Seq<char>>
    decreases kept.len(),
{
    if kept.len() == 0 {
        seq![]
    } else {
        let head = group_paths(roots, kept.drop_last());
        match v2_group(roots, kept.last()) {
            Some(group) => head.push(group.path@),
            None => head,
        }
    }
}

/// The outcome of a resolution: the package in the foreground, whether it is an
/// installed app, and the directories of all candidates.
pub open spec fn outcome(setup: Setup, known: Known, pids: Seq<i32>, facts: Seq<ProcFacts>) -> (
    Known,
    Option<(Seq<char>, bool, Seq<Seq<char>>)>,
) {
    let (next, kept) = filtered(setup, known, pids, facts);
    match selected(setup, next.pids, kept) {
        Some((package, is_app)) => (next, Some((package, is_app, group_paths(setup.roots, kept)))),
        None => (next, None),
    }
}

/// The PIDs of the top-app CPUSet in the order in which they are looked at, none
/// if it cannot be read.
pub open spec fn top_app(procs: Option<Seq<char>>) -> Seq<i32> {
    match procs {
        Some(content) => descending(listed_pids(text::lines(content))),
        None => seq![],
    }
}

/// A result with its texts.
pub open spec fn found(r: Option<(String, bool, Vec<String>)>) -> Option<
    (Seq<char>, bool, Seq<Seq<char>>),
> {
    match r {
        Some((package, is_app, paths)) => Some((package@, is_app, text::texts(paths@))),
        None => None,
    }
}

// ---------------------------------------------------------------------------
// Model: traces
// ---------------------------------------------------------------------------

/// A step of a traced resolution.
#[derive(Debug)]
pub struct TraceEntry {
    pub pid: i32,
    pub stage: &'static str,
    pub detail: String,
    pub pass: bool,
}

/// The texts of a step.
#[verifier::ext_equal]
pub struct Step {
    pub pid: i32,
    pub stage: Seq<char>,
    pub detail: Seq<char>,
    pub pass: bool,
}

impl View for TraceEntry {
    type V = Step;

    open spec fn view(&self) -> Step {
        Step { pid: self.pid, stage: self.stage@, detail: self.detail@, pass: self.pass }
    }
}

/// The steps of a trace.
pub open spec fn steps(v: Seq<TraceEntry>) -> Seq<Step> {
    v.map_values(|e: TraceEntry| e@)
}

/// Numbers, separated by commas.
pub open spec fn number_list(s: Seq<i32>) -> Seq<char>
    decreases s.len(),
{
    if s.len() == 0 {
        seq![]
    } else if s.len() == 1 {
        text::dec_int(s[0] as int)
    } else {
        number_list(s.drop_last()) + ", "@ + text::dec_int(s.last() as int)
    }
}

/// Texts, each followed by a blank.
pub open spec fn spaced(s: Seq<Seq<char>>) -> Seq<char>
    decreases s.len(),
{
    if s.len() == 0 {
        seq![]
    } else {
        spaced(s.drop_last()) + s.last().push(' ')
    }
}

/// The step that tells of the top-app CPUSet: its number of processes and the
/// first eight of them.
pub open spec fn listed_step(pids: Seq<i32>) -> Step {
    let shown = if pids.len() < 8 {
        pids
    } else {
        pids.take(8)
    };
    Step {
        pid: 0,
        stage: "cgroup-v1"@,
        detail: TOP_APP_PROCS@ + ": "@ + text::dec(pids.len()) + " pid(s): ["@ + number_list(shown)
            + "]"@,
        pass: pids.len() > 0,
    }
}

/// The step that tells why the top-app CPUSet cannot be read.
pub open spec fn unlisted_step(why: Seq<char>) -> Step {
    Step { pid: 0, stage: "cgroup-v1"@, detail: TOP_APP_PROCS@ + ": "@ + why, pass: false }
}

/// The step that tells of the cgroup v2 roots.
pub open spec fn roots_step(roots: Seq<Seq<char>>) -> Step {
    Step {
        pid: 0,
        stage: "cgroup-v2-roots"@,
        detail: text::trim(spaced(roots)),
        pass: roots.len() > 0,
    }
}

/// The directory below a cgroup v2 root that a trace goes by: that of the first
/// line for the unified hierarchy, or the root itself.
pub open spec fn traced_rel(ls: Seq<Seq<char>>) -> Seq<char>
    decreases ls.len(),
{
    if ls.len() == 0 {
        seq![]
    } else if "0::"@.is_prefix_of(ls.first()) {
        unrooted(ls.first().skip(3))
    } else {
        traced_rel(ls.drop_first())
    }
}

/// The group that a trace finds for a process.
pub open spec fn traced_group(roots: Seq<Seq<char>>, f: ProcFacts, content: Seq<char>) -> Option<
    GroupFacts,
> {
    first_group(f.groups@, below(roots, traced_rel(text::lines(content))))
}

pub open spec fn bool_text(b: bool) -> Seq<char> {
    if b {
        "true"@
    } else {
        "false"@
    }
}

/// The step that tells of the group of a process. It passes if the group is
/// populated.
pub open spec fn group_step(roots: Seq<Seq<char>>, f: ProcFacts) -> Step {
    match f.cgroup {
        Err(why) => Step {
            pid: f.pid,
            stage: "proc-cgroup"@,
            detail: "/proc/"@ + text::dec_int(f.pid as int) + "/cgroup: "@ + why@,
            pass: false,
        },
        Ok(content) => match traced_group(roots, f, content@) {
            None => Step {
                pid: f.pid,
                stage: "cgroup-v2-path"@,
                detail: "no v2 path for rel="@ + text::quoted(
                    traced_rel(text::lines(content@)),
                ),
                pass: false,
            },
            Some(group) => match group.events {
                Err(why) => Step {
                    pid: f.pid,
                    stage: "cgroup-v2-events"@,
                    detail: path::join(group.path@, "cgroup.events"@) + ": "@ + why@,
                    pass: false,
                },
                Ok(events) => {
                    let full = text::contains(events@, "populated 1"@);
                    Step {
                        pid: f.pid,
                        stage: "cgroup-v2-populated"@,
                        detail: group.path@ + ": populated="@ + bool_text(full),
                        pass: full,
                    }
                },
            },
        },
    }
}

/// The name that a trace gives to a process of `uid`, and the cache after it.
pub open spec fn traced_name(cache: CacheState, f: ProcFacts, uid: u32) -> (CacheState, Seq<char>) {
    if uid >= FIRST_APP_UID {
        let next = cache::looked_up(cache, uid, opt_vec(f.listing));
        match cache::package_of(next, uid) {
            Some(package) => (next, package),
            None => (next, seq![]),
        }
    } else {
        match f.cmdline {
            Some(cmdline) => (cache, process_name(cmdline@)),
            None => (cache, seq![]),
        }
    }
}

/// The step that tells who a process is, and the cache after it. It passes if
/// the process has a name that is not blocked.
pub open spec fn identity_step(setup: Setup, cache: CacheState, f: ProcFacts) -> (
    CacheState,
    Step,
) {
    match f.uid {
        Err(why) => (
            cache,
            Step { pid: f.pid, stage: "proc-stat"@, detail: why@, pass: false },
        ),
        Ok(uid) => {
            let (next, name) = traced_name(cache, f, uid);
            let blocked = package_set::covered(setup.blocked, name);
            (
                next,
                Step {
                    pid: f.pid,
                    stage: "identity"@,
                    detail: "uid="@ + text::dec(uid as nat) + " pkg="@ + text::quoted(name)
                        + " blocked="@ + bool_text(blocked),
                    pass: !blocked && name.len() > 0,
                },
            )
        },
    }
}

/// The steps of a process, the cache after them, and whether all passed.
pub open spec fn traced_process(setup: Setup, cache: CacheState, f: ProcFacts) -> (
    CacheState,
    Seq<Step>,
    bool,
) {
    let group = group_step(setup.roots, f);
    if group.pass {
        let (next, identity) = identity_step(setup, cache, f);
        (next, seq![group, identity], identity.pass)
    } else {
        (cache, seq![group], false)
    }
}

/// The steps of the processes, the cache after them, and whether some process
/// passed all of its own.
pub open spec fn traced_processes(
    setup: Setup,
    cache: CacheState,
    pids: Seq<i32>,
    facts: Seq<ProcFacts>,
) -> (CacheState, Seq<Step>, bool)
    decreases pids.len(),
{
    if pids.len() == 0 {
        (cache, seq![], false)
    } else {
        let (mid, head, any) = traced_processes(setup, cache, pids.drop_last(), facts);
        match kept_at(facts, pids.last()) {
            Some(f) => {
                let (next, tail, passed) = traced_process(setup, mid, f);
                (next, head + tail, any || passed)
            },
            None => (mid, head, any),
        }
    }
}

/// The last step.
pub open spec fn result_step(package: Option<Seq<char>>) -> Step {
    Step {
        pid: 0,
        stage: "result"@,
        detail: match package {
            Some(p) => p,
            None => "None"@,
        },
        pass: package is Some,
    }
}

/// The last step where no process passed.
pub open spec fn empty_step() -> Step {
    Step {
        pid: 0,
        stage: "result"@,
        detail: "filtered empty \u{2014} no foreground resolved"@,
        pass: false,
    }
}

/// A traced resolution: what is known after it, its outcome and its steps.
pub open spec fn traced(
    setup: Setup,
    known: Known,
    procs: Result<Seq<char>, Seq<char>>,
    facts: Seq<ProcFacts>,
) -> (Known, Option<(Seq<char>, bool, Seq<Seq<char>>)>, Seq<Step>) {
    match procs {
        Err(why) => (known, None, seq![unlisted_step(why)]),
        Ok(content) => {
            let pids = listed_pids(text::lines(content));
            let (cache, inner, any) = traced_processes(setup, known.cache, pids, facts);
            let head = seq![listed_step(pids), roots_step(setup.roots)] + inner;
            let mid = Known { cache, ..known };
            if any {
                let (next, result) = outcome(setup, mid, top_app(Some(content)), facts);
                let package = match result {
                    Some((p, _, _)) => Some(p),
                    None => None,
                };
                (next, result, head.push(result_step(package)))
            } else {
                (mid, None, head.push(empty_step()))
            }
        },
    }
}

// ---------------------------------------------------------------------------
// The resolver
// ---------------------------------------------------------------------------

fn find_facts<'a>(facts: &'a [ProcFacts], pid: i32) -> (r: Option<&'a ProcFacts>)
    ensures
        r == (match kept_at(facts@, pid) {
            Some(f) => Some(&f),
            None => None,
        }),
        facts_at(facts@, pid) >= 0,
{
    let mut k: usize = 0;
    assert(facts@.skip(0) =~= facts@);
    while k < facts.len()
        invariant
            k <= facts.len(),
            facts_at(facts@, pid) == k + facts_at(facts@.skip(k as int), pid),
        decreases facts.len() - k,
    {
        if facts[k].pid == pid {
            return Some(&facts[k]);
        }
        assert(facts@.skip(k as int).drop_first() =~= facts@.skip(k + 1));
        k += 1;
    }
    None
}

/// The process name at the start of a command line.
fn name_of(cmdline: &str) -> (r: String)
    ensures
        r@ == process_name(cmdline@),
{
    let chars = chars_of(cmdline);
    let parts = split_of(chars.as_slice(), '\0');
    assert(text::rows(parts@)[0] == parts@[0]@);
    string_of(trimmed(parts[0]))
}

fn has_slash(s: &str) -> (r: bool)
    ensures
        r == s@.contains('/'),
{
    let chars = chars_of(s);
    let mut i: usize = 0;
    while i < chars.len()
        invariant
            i <= chars.len(),
            chars@ == s@,
            forall|j: int| 0 <= j < i ==> s@[j] != '/',
        decreases chars.len() - i,
    {
        if chars[i] == '/' {
            assert(s@[i as int] == '/');
            return true;
        }
        i += 1;
    }
    false
}

/// The group of a process among those that exist, for the given roots.
fn find_v2_group<'a>(roots: &Vec<String>, f: &'a ProcFacts) -> (r: Option<&'a GroupFacts>)
    ensures
        r == (match v2_group(text::texts(roots@), *f) {
            Some(g) => Some(&g),
            None => None,
        }),
{
    match &f.cgroup {
        Ok(content) => {
            let paths = candidate_paths(roots, content.as_str());
            find_first_group(&f.groups, &paths)
        },
        Err(_) => None,
    }
}

fn candidate_paths(roots: &Vec<String>, content: &str) -> (r: Vec<String>)
    ensures
        text::texts(r@) == candidates(text::texts(roots@), text::lines(content@)),
{
    let chars = chars_of(content);
    let ls = lines_of(chars.as_slice());
    let ghost rows = text::rows(ls@);
    let ghost rs = text::texts(roots@);
    let mut out: Vec<String> = Vec::new();
    let mut i: usize = 0;
    assert(text::texts(out@) =~= Seq::<Seq<char>>::empty());
    while i < ls.len()
        invariant
            i <= ls.len(),
            rows == text::rows(ls@),
            rs == text::texts(roots@),
            text::texts(out@) == candidates(rs, rows.take(i as int)),
        decreases ls.len() - i,
    {
        proof {
            assert(rows.take(i + 1).drop_last() =~= rows.take(i as int));
            assert(rows.take(i + 1).last() == ls@[i as int]@);
        }
        let parts = split_of(ls[i], ':');
        let ghost ps = text::rows(parts@);
        if parts.len() >= 3 {
            assert(ps[0] == parts@[0]@ && ps[1] == parts@[1]@ && ps[2] == parts@[2]@);
            if is_text(parts[0], "0") && parts[1].len() == 0 {
                push_below(&mut out, roots, skip_slashes(parts[2]));
            }
        }
        i += 1;
    }
    assert(rows.take(rows.len() as int) =~= rows);
    out
}

fn is_preferred(a: &Candidate, b: &Candidate) -> (r: bool)
    ensures
        r == beats(*a, *b),
{
    a.oom < b.oom || (a.oom == b.oom && ((!a.low && b.low) || (a.low == b.low && a.pid > b.pid)))
}

/// Resolves the foreground package and remembers what it learned.
#[derive(Debug)]
pub struct Resolver {
    pub cache: UidCache,
    pub blocklist: Blocklist,
    pub terminal_apps: TerminalApps,
    pub launcher_pkg: Option<String>,
    pid_cache: HashMap<i32, String>,
    cgroup_v2_roots: Vec<String>,
}

/// The texts of a mapping by PID.
pub open spec fn pid_names(m: Map<i32, String>) -> Map<i32, Seq<char>> {
    m.map_values(|s: String| s@)
}

impl Resolver {
    /// What a resolution goes by.
    pub closed spec fn setup(&self) -> Setup {
        Setup {
            blocked: self.blocklist.packages@,
            terminals: self.terminal_apps.packages@,
            launcher: text::opt_text(self.launcher_pkg),
            roots: text::texts(self.cgroup_v2_roots@),
            cache_file: self.cache.file(),
            stamp: self.cache.stamp(),
        }
    }

    /// What it has learned.
    pub closed spec fn known(&self) -> Known {
        Known { cache: self.cache.state(), pids: pid_names(self.pid_cache@) }
    }

    /// A resolver that has not looked at any process. `mounts` is the content of
    /// `/proc/mounts`.
    pub fn new(
        cache: UidCache,
        blocklist: Blocklist,
        terminal_apps: TerminalApps,
        launcher_pkg: Option<String>,
        mounts: Option<&str>,
    ) -> (r: Self)
        ensures
            r.known() == (Known { cache: cache.state(), pids: Map::empty() }),
            r.setup() == (Setup {
                blocked: blocklist.packages@,
                terminals: terminal_apps.packages@,
                launcher: text::opt_text(launcher_pkg),
                roots: v2_roots(text::opt_str(mounts)),
                cache_file: cache.file(),
                stamp: cache.stamp(),
            }),
    {
        let cgroup_v2_roots = discover_cgroup_v2_roots(mounts);
        let r = Self {
            cache,
            blocklist,
            terminal_apps,
            launcher_pkg,
            pid_cache: HashMap::new(),
            cgroup_v2_roots,
        };
        assert(r.known().pids =~= Map::<i32, Seq<char>>::empty());
        r
    }

    /// Forget the packages of processes.
    pub fn clear_pid_cache(&mut self)
        ensures
            final(self).setup() == old(self).setup(),
            final(self).known() == (Known { pids: Map::empty(), ..old(self).known() }),
    {
        self.pid_cache.clear();
        assert(self.known().pids =~= Map::<i32, Seq<char>>::empty());
    }

    /// Go by another blocklist from now on.
    pub fn set_blocklist(&mut self, blocklist: Blocklist)
        ensures
            final(self).setup() == (Setup { blocked: blocklist.packages@, ..old(self).setup() }),
            final(self).known() == old(self).known(),
    {
        self.blocklist = blocklist;
    }

    /// Go by other terminals from now on.
    pub fn set_terminal_apps(&mut self, terminal_apps: TerminalApps)
        ensures
            final(self).setup() == (Setup {
                terminals: terminal_apps.packages@,
                ..old(self).setup()
            }),
            final(self).known() == old(self).known(),
    {
        self.terminal_apps = terminal_apps;
    }

    /// The blocklist.
    pub fn blocklist(&self) -> (r: &Blocklist)
        ensures
            r.packages@ == self.setup().blocked,
    {
        &self.blocklist
    }

    /// Load the cache from its file, or refresh it, as `UidCache` does. Returns
    /// the text to write to the file, and whether the fingerprint changed.
    pub fn reload_cache(
        &mut self,
        file: CacheFile<'_>,
        current: Option<Fingerprint>,
        listing: Option<&[u8]>,
    ) -> (r: (Option<String>, bool))
        ensures
            cache::reloaded(
                old(self).known().cache,
                old(self).setup().stamp,
                file,
                current,
                text::opt_bytes(listing),
            ) == (final(self).known().cache, final(self).setup().stamp),
            final(self).known().pids == old(self).known().pids,
            final(self).setup() == (Setup {
                stamp: final(self).setup().stamp,
                ..old(self).setup()
            }),
            r.0 is Some <==> cache::is_stale(old(self).setup().stamp, file, current),
            r.0 is Some ==> cache::is_file_text(
                r.0->0@,
                final(self).setup().stamp,
                final(self).known().cache.packages,
            ),
            r.1 == (final(self).setup().stamp != old(self).setup().stamp),
    {
        let before = self.cache.fingerprint();
        let text = self.cache.load_or_refresh(file, current, listing);
        let after = self.cache.fingerprint();
        let same = match (before, after) {
            (Some(a), Some(b)) => a == b,
            (None, None) => true,
            _ => false,
        };
        (text, !same)
    }

    /// The text to write to the cache file if a lookup refreshed the mapping
    /// since it was last written.
    pub fn take_save(&mut self) -> (r: Option<String>)
        ensures
            final(self).setup() == old(self).setup(),
            final(self).known() == (Known {
                cache: CacheState { dirty: false, ..old(self).known().cache },
                ..old(self).known()
            }),
            r is Some <==> old(self).known().cache.dirty,
            r is Some ==> cache::is_file_text(
                r->0@,
                old(self).setup().stamp,
                old(self).known().cache.packages,
            ),
    {
        self.cache.take_save()
    }

    /// The number of packages in the cache.
    pub fn cache_entries(&self) -> (r: usize)
        ensures
            r == self.known().cache.packages.dom().len(),
    {
        self.cache.entries()
    }

    /// Whether a look at the process `pid` of `uid` would use a new listing: it is
    /// not known, and its owner is an app that the cache asks for.
    pub fn wants_listing(&self, pid: i32, uid: u32) -> (r: bool)
        ensures
            r == (uid >= FIRST_APP_UID && !self.known().pids.contains_key(pid)
                && cache::asks_listing(self.known().cache, uid)),
    {
        uid >= FIRST_APP_UID && !self.pid_cache.contains_key(&pid) && self.cache.wants_listing(uid)
    }

    /// The directories that may be the cgroup v2 directory of a process, in the
    /// order in which they are tried; `cgroup` is the content of
    /// `/proc/<pid>/cgroup`.
    pub fn v2_candidates(&self, cgroup: &str) -> (r: Vec<String>)
        ensures
            text::texts(r@) == candidates(self.setup().roots, text::lines(cgroup@)),
    {
        candidate_paths(&self.cgroup_v2_roots, cgroup)
    }

    /// The cgroup v2 directory of a process.
    pub fn get_pid_cgroup_v2_path(&self, f: &ProcFacts) -> (r: Option<String>)
        ensures
            text::opt_text(r) == match v2_group(self.setup().roots, *f) {
                Some(group) => Some(group.path@),
                None => None,
            },
    {
        match find_v2_group(&self.cgroup_v2_roots, f) {
            Some(group) => Some(group.path.clone()),
            None => None,
        }
    }

    /// Whether the cgroup v2 directory of a process is populated.
    pub fn is_pid_in_populated_v2_group(&self, f: &ProcFacts) -> (r: bool)
        ensures
            r == populated(self.setup().roots, *f),
    {
        match find_v2_group(&self.cgroup_v2_roots, f) {
            Some(group) => match &group.events {
                Ok(events) => {
                    let chars = chars_of(events.as_str());
                    contains_text(chars.as_slice(), "populated 1")
                },
                Err(_) => false,
            },
            None => false,
        }
    }

    /// The package of a process whose owner is `uid`, if it has one that counts.
    fn identify(&mut self, f: &ProcFacts, uid: u32) -> (r: Option<String>)
        ensures
            final(self).setup() == old(self).setup(),
            (final(self).known(), text::opt_text(r)) == identified(
                old(self).setup(),
                old(self).known(),
                *f,
                uid,
            ),
    {
        if uid >= FIRST_APP_UID {
            let listing = match &f.listing {
                Some(bytes) => Some(bytes.as_slice()),
                None => None,
            };
            match self.cache.get_package(uid, listing) {
                Some(package) => {
                    if self.terminal_apps.is_terminal(package.as_str()) {
                        if let Some(cmdline) = &f.cmdline {
                            let name = name_of(cmdline.as_str());
                            if !same_str(name.as_str(), package.as_str()) || has_slash(
                                cmdline.as_str(),
                            ) {
                                return None;
                            }
                        }
                    }
                    Some(package)
                },
                None => None,
            }
        } else {
            match &f.cmdline {
                Some(cmdline) => {
                    let name = name_of(cmdline.as_str());
                    let chars = chars_of(name.as_str());
                    if chars.len() > 0 && (starts_with_text(chars.as_slice(), "com.android.")
                        || starts_with_text(chars.as_slice(), "com.google.")) {
                        Some(name)
                    } else {
                        None
                    }
                },
                None => None,
            }
        }
    }

    /// Look at a process: whether it is a candidate for the foreground.
    pub fn consider(&mut self, f: &ProcFacts) -> (r: bool)
        ensures
            final(self).setup() == old(self).setup(),
            (final(self).known(), r) == considered(old(self).setup(), old(self).known(), *f),
    {
        if !self.is_pid_in_populated_v2_group(f) {
            return false;
        }
        if let Some(package) = self.pid_cache.get(&f.pid) {
            let chars = chars_of(package.as_str());
            return chars.len() > 0 && !self.blocklist.is_blocked(package.as_str());
        }
        match &f.uid {
            Ok(uid) => {
                let named = self.identify(f, *uid);
                let ghost mid = self.known();
                let ghost was = self.pid_cache@;
                match named {
                    Some(package) => {
                        let blocked = self.blocklist.is_blocked(package.as_str());
                        self.pid_cache.insert(f.pid, package);
                        assert(pid_names(self.pid_cache@) =~= pid_names(was).insert(f.pid, package@));
                        !blocked
                    },
                    None => {
                        let none = String::new();
                        self.pid_cache.insert(f.pid, none);
                        assert(none@ =~= Seq::<char>::empty());
                        assert(pid_names(self.pid_cache@) =~= pid_names(was).insert(f.pid, seq![]));
                        false
                    },
                }
            },
            Err(_) => false,
        }
    }

    /// Choose the best of the candidates by OOM score.
    pub fn select_best_by_oom(&self, kept: &[&ProcFacts]) -> (r: Option<(String, bool)>)
        ensures
            selected(self.setup(), self.known().pids, kept@.unref()) == match r {
                Some((package, is_app)) => Some((package@, is_app)),
                None => None,
            },
    {
        let ghost setup = self.setup();
        let ghost pids = self.known().pids;
        let ghost fs = kept@.unref();
        let mut top = Candidate { pid: -1, oom: i32::MAX, low: true };
        let mut i: usize = 0;
        while i < kept.len()
            invariant
                i <= kept.len(),
                setup == self.setup(),
                pids == self.known().pids,
                fs == kept@.unref(),
                top == best(ranked(setup, pids, fs.take(i as int))),
            decreases kept.len() - i,
        {
            let f = kept[i];
            proof {
                assert(fs.take(i + 1).drop_last() =~= fs.take(i as int));
                assert(fs.take(i + 1).last() == *f);
            }
            if let Some(content) = &f.oom_score_adj {
                let chars = chars_of(content.as_str());
                if let Some(oom) = parse_i32(trimmed(chars.as_slice())) {
                    let package = match self.pid_cache.get(&f.pid) {
                        Some(package) => package.clone(),
                        None => String::new(),
                    };
                    assert(package@ =~= package_at(pids, f.pid));
                    let is_launcher = match &self.launcher_pkg {
                        Some(launcher) => same_str(launcher.as_str(), package.as_str()),
                        None => false,
                    };
                    let low = self.terminal_apps.is_terminal(package.as_str()) || is_launcher;
                    let c = Candidate { pid: f.pid, oom, low };
                    proof {
                        let head = ranked(setup, pids, fs.take(i as int));
                        assert(head.push(c).drop_last() =~= head);
                        assert(ranked(setup, pids, fs.take(i + 1)) == head.push(c));
                    }
                    if is_preferred(&c, &top) {
                        top = c;
                    }
                }
            }
            i += 1;
        }
        assert(fs.take(fs.len() as int) =~= fs);
        if top.pid != -1 {
            if let Some(package) = self.pid_cache.get(&top.pid) {
                if let Some(f) = find_kept(kept, top.pid) {
                    if let Ok(uid) = &f.uid {
                        return Some((package.clone(), *uid >= FIRST_APP_UID));
                    }
                }
            }
        }
        None
    }

    /// Resolve the foreground package. `procs` is the content of
    /// `/dev/cpuset/top-app/cgroup.procs`, and `facts` tells of its processes.
    pub fn resolve(&mut self, procs: Option<&str>, facts: &[ProcFacts]) -> (r: Option<
        (String, bool, Vec<String>),
    >)
        ensures
            final(self).setup() == old(self).setup(),
            (final(self).known(), found(r)) == outcome(
                old(self).setup(),
                old(self).known(),
                top_app(text::opt_str(procs)),
                facts@,
            ),
    {
        let pids = match procs {
            Some(content) => get_v1_top_app_pids(content),
            None => Vec::new(),
        };
        assert(pids@ =~= top_app(text::opt_str(procs)));
        let ghost setup = self.setup();
        let ghost start = self.known();
        let mut kept: Vec<&ProcFacts> = Vec::new();
        let mut i: usize = 0;
        assert(kept@.unref() =~= Seq::<ProcFacts>::empty());
        while i < pids.len()
            invariant
                i <= pids.len(),
                self.setup() == setup,
                (self.known(), kept@.unref()) == filtered(setup, start, pids@.take(i as int), facts@),
            decreases pids.len() - i,
        {
            proof {
                assert(pids@.take(i + 1).drop_last() =~= pids@.take(i as int));
            }
            let ghost was = kept@;
            if let Some(f) = find_facts(facts, pids[i]) {
                if self.consider(f) {
                    kept.push(f);
                    assert(kept@.unref() =~= was.unref().push(*f));
                }
            }
            i += 1;
        }
        assert(pids@.take(pids@.len() as int) =~= pids@);
        match self.select_best_by_oom(kept.as_slice()) {
            Some((package, is_app)) => {
                let paths = self.paths_of(kept.as_slice());
                Some((package, is_app, paths))
            },
            None => None,
        }
    }

    fn paths_of(&self, kept: &[&ProcFacts]) -> (r: Vec<String>)
        ensures
            text::texts(r@) == group_paths(self.setup().roots, kept@.unref()),
    {
        let ghost roots = self.setup().roots;
        let ghost fs = kept@.unref();
        let mut out: Vec<String> = Vec::new();
        let mut i: usize = 0;
        assert(text::texts(out@) =~= Seq::<Seq<char>>::empty());
        while i < kept.len()
            invariant
                i <= kept.len(),
                roots == self.setup().roots,
                fs == kept@.unref(),
                text::texts(out@) == group_paths(roots, fs.take(i as int)),
            decreases kept.len() - i,
        {
            proof {
                assert(fs.take(i + 1).drop_last() =~= fs.take(i as int));
                assert(fs.take(i + 1).last() == *kept@[i as int]);
            }
            let ghost was = text::texts(out@);
            if let Some(path) = self.get_pid_cgroup_v2_path(kept[i]) {
                out.push(path);
                assert(text::texts(out@) =~= was.push(path@));
            }
            i += 1;
        }
        assert(fs.take(fs.len() as int) =~= fs);
        out
    }

    /// The directories that a trace tries for a process.
    pub fn traced_candidates(&self, cgroup: &str) -> (r: Vec<String>)
        ensures
            text::texts(r@) == below(self.setup().roots, traced_rel(text::lines(cgroup@))),
    {
        let rel = trace_rel(cgroup);
        let mut out: Vec<String> = Vec::new();
        push_below(&mut out, &self.cgroup_v2_roots, rel.as_slice());
        assert(text::texts(out@) =~= below(self.setup().roots, rel@));
        out
    }

    fn trace_group(&self, f: &ProcFacts) -> (r: TraceEntry)
        ensures
            r@ == group_step(self.setup().roots, *f),
    {
        let mut detail: Vec<char> = Vec::new();
        match &f.cgroup {
            Err(why) => {
                push_text(&mut detail, "/proc/");
                push_int(&mut detail, f.pid);
                push_text(&mut detail, "/cgroup: ");
                push_text(&mut detail, why.as_str());
                assert(detail@ =~= group_step(self.setup().roots, *f).detail);
                entry(f.pid, "proc-cgroup", &detail, false)
            },
            Ok(content) => {
                let paths = self.traced_candidates(content.as_str());
                match find_first_group(&f.groups, &paths) {
                    None => {
                        let rel = trace_rel(content.as_str());
                        let rel_text = string_of(rel.as_slice());
                        let shown = quote(rel_text.as_str());
                        push_text(&mut detail, "no v2 path for rel=");
                        push_text(&mut detail, shown.as_str());
                        assert(detail@ =~= group_step(self.setup().roots, *f).detail);
                        entry(f.pid, "cgroup-v2-path", &detail, false)
                    },
                    Some(group) => match &group.events {
                        Err(why) => {
                            let events = join_path(group.path.as_str(), "cgroup.events");
                            push_text(&mut detail, events.as_str());
                            push_text(&mut detail, ": ");
                            push_text(&mut detail, why.as_str());
                            assert(detail@ =~= group_step(self.setup().roots, *f).detail);
                            entry(f.pid, "cgroup-v2-events", &detail, false)
                        },
                        Ok(events) => {
                            let chars = chars_of(events.as_str());
                            let full = contains_text(chars.as_slice(), "populated 1");
                            push_text(&mut detail, group.path.as_str());
                            push_text(&mut detail, ": populated=");
                            push_bool(&mut detail, full);
                            assert(detail@ =~= group_step(self.setup().roots, *f).detail);
                            entry(f.pid, "cgroup-v2-populated", &detail, full)
                        },
                    },
                }
            },
        }
    }

    fn trace_identity(&mut self, f: &ProcFacts) -> (r: TraceEntry)
        ensures
            final(self).setup() == old(self).setup(),
            final(self).known().pids == old(self).known().pids,
            (final(self).known().cache, r@) == identity_step(
                old(self).setup(),
                old(self).known().cache,
                *f,
            ),
    {
        let ghost setup = self.setup();
        let ghost start = self.known().cache;
        let mut detail: Vec<char> = Vec::new();
        match &f.uid {
            Err(why) => {
                push_text(&mut detail, why.as_str());
                assert(detail@ =~= why@);
                entry(f.pid, "proc-stat", &detail, false)
            },
            Ok(uid) => {
                let uid = *uid;
                let name = if uid >= FIRST_APP_UID {
                    let listing = match &f.listing {
                        Some(bytes) => Some(bytes.as_slice()),
                        None => None,
                    };
                    match self.cache.get_package(uid, listing) {
                        Some(package) => package,
                        None => String::new(),
                    }
                } else {
                    match &f.cmdline {
                        Some(cmdline) => name_of(cmdline.as_str()),
                        None => String::new(),
                    }
                };
                assert(name@ =~= traced_name(start, *f, uid).1);
                let blocked = self.blocklist.is_blocked(name.as_str());
                let shown = quote(name.as_str());
                push_text(&mut detail, "uid=");
                push_dec(&mut detail, uid as u128);
                push_text(&mut detail, " pkg=");
                push_text(&mut detail, shown.as_str());
                push_text(&mut detail, " blocked=");
                push_bool(&mut detail, blocked);
                assert(detail@ =~= identity_step(setup, start, *f).1.detail);
                let chars = chars_of(name.as_str());
                entry(f.pid, "identity", &detail, !blocked && chars.len() > 0)
            },
        }
    }

    /// Resolve the foreground package and tell of every step. `procs` is the
    /// content of `/dev/cpuset/top-app/cgroup.procs`, or why it cannot be read.
    pub fn resolve_traced(&mut self, procs: Result<&str, &str>, facts: &[ProcFacts]) -> (r: (
        Option<(String, bool, Vec<String>)>,
        Vec<TraceEntry>,
    ))
        ensures
            final(self).setup() == old(self).setup(),
            (final(self).known(), found(r.0), steps(r.1@)) == traced(
                old(self).setup(),
                old(self).known(),
                match procs {
                    Ok(content) => Ok(content@),
                    Err(why) => Err(why@),
                },
                facts@,
            ),
    {
        let ghost setup = self.setup();
        let ghost start = self.known();
        let mut trace: Vec<TraceEntry> = Vec::new();
        let content = match procs {
            Err(why) => {
                let mut detail: Vec<char> = Vec::new();
                push_text(&mut detail, TOP_APP_PROCS);
                push_text(&mut detail, ": ");
                push_text(&mut detail, why);
                assert(detail@ =~= unlisted_step(why@).detail);
                trace.push(entry(0, "cgroup-v1", &detail, false));
                assert(steps(trace@) =~= seq![unlisted_step(why@)]);
                return (None, trace);
            },
            Ok(content) => content,
        };
        let pids = parse_pids(content);
        trace.push(listed_entry(&pids));
        trace.push(roots_entry(&self.cgroup_v2_roots));
        let ghost head = seq![listed_step(pids@), roots_step(setup.roots)];
        let ghost mut inner: Seq<Step> = seq![];
        let mut any = false;
        let mut i: usize = 0;
        assert(steps(trace@) =~= head + inner);
        while i < pids.len()
            invariant
                i <= pids.len(),
                self.setup() == setup,
                self.known().pids == start.pids,
                (self.known().cache, inner, any) == traced_processes(
                    setup,
                    start.cache,
                    pids@.take(i as int),
                    facts@,
                ),
                steps(trace@) == head + inner,
            decreases pids.len() - i,
        {
            proof {
                assert(pids@.take(i + 1).drop_last() =~= pids@.take(i as int));
            }
            if let Some(f) = find_facts(facts, pids[i]) {
                let ghost was = steps(trace@);
                let ghost mid = self.known().cache;
                let group = self.trace_group(f);
                let group_passed = group.pass;
                trace.push(group);
                assert(steps(trace@) =~= was.push(group@));
                if group_passed {
                    let identity = self.trace_identity(f);
                    if identity.pass {
                        any = true;
                    }
                    trace.push(identity);
                    assert(steps(trace@) =~= was.push(group@).push(identity@));
                }
                proof {
                    let tail = traced_process(setup, mid, *f).1;
                    assert(steps(trace@) =~= was + tail);
                    inner = inner + tail;
                    assert(steps(trace@) =~= head + inner);
                }
            }
            i += 1;
        }
        assert(pids@.take(pids@.len() as int) =~= pids@);
        let ghost was = steps(trace@);
        if !any {
            let detail = chars_of("filtered empty \u{2014} no foreground resolved");
            trace.push(entry(0, "result", &detail, false));
            assert(steps(trace@) =~= was.push(empty_step()));
            return (None, trace);
        }
        let result = self.resolve(Some(content), facts);
        let detail = match &result {
            Some((package, _, _)) => chars_of(package.as_str()),
            None => chars_of("None"),
        };
        trace.push(entry(0, "result", &detail, result.is_some()));
        proof {
            let package = match found(result) {
                Some((p, _, _)) => Some(p),
                None => None,
            };
            assert(steps(trace@) =~= was.push(result_step(package)));
        }
        (result, trace)
    }
}

fn entry(pid: i32, stage: &'static str, detail: &Vec<char>, pass: bool) -> (r: TraceEntry)
    ensures
        r@ == (Step { pid, stage: stage@, detail: detail@, pass }),
{
    TraceEntry { pid, stage, detail: string_of(detail.as_slice()), pass }
}

fn push_bool(v: &mut Vec<char>, b: bool)
    ensures
        final(v)@ == old(v)@ + bool_text(b),
{
    if b {
        push_text(v, "true");
    } else {
        push_text(v, "false");
    }
}

fn trace_rel(content: &str) -> (r: Vec<char>)
    ensures
        r@ == traced_rel(text::lines(content@)),
{
    let chars = chars_of(content);
    let ls = lines_of(chars.as_slice());
    let ghost rows = text::rows(ls@);
    let mut i: usize = 0;
    assert(rows.skip(0) =~= rows);
    proof {
        reveal_strlit("0::");
    }
    while i < ls.len()
        invariant
            i <= ls.len(),
            rows == text::rows(ls@),
            "0::"@.len() == 3,
            traced_rel(rows) == traced_rel(rows.skip(i as int)),
            rows == text::lines(content@),
        decreases ls.len() - i,
    {
        assert(rows.skip(i as int).first() == ls@[i as int]@);
        if starts_with_text(ls[i], "0::") {
            let tail = slice_subrange(ls[i], 3, ls[i].len());
            assert(tail@ =~= ls@[i as int]@.skip(3));
            let rel = skip_slashes(tail);
            let mut out: Vec<char> = Vec::new();
            push_all(&mut out, rel);
            assert(out@ =~= rel@);
            return out;
        }
        assert(rows.skip(i as int).drop_first() =~= rows.skip(i + 1));
        i += 1;
    }
    Vec::new()
}

fn listed_entry(pids: &Vec<i32>) -> (r: TraceEntry)
    ensures
        r@ == listed_step(pids@),
{
    let n: usize = if pids.len() < 8 {
        pids.len()
    } else {
        8
    };
    let mut detail: Vec<char> = Vec::new();
    push_text(&mut detail, TOP_APP_PROCS);
    push_text(&mut detail, ": ");
    push_dec(&mut detail, pids.len() as u128);
    push_text(&mut detail, " pid(s): [");
    let ghost start = detail@;
    let mut i: usize = 0;
    assert(start + number_list(pids@.take(0)) =~= start);
    while i < n
        invariant
            i <= n <= pids.len(),
            detail@ == start + number_list(pids@.take(i as int)),
        decreases n - i,
    {
        let ghost was = number_list(pids@.take(i as int));
        if i > 0 {
            push_text(&mut detail, ", ");
        }
        push_int(&mut detail, pids[i]);
        proof {
            assert(pids@.take(i + 1).drop_last() =~= pids@.take(i as int));
            assert(detail@ =~= start + number_list(pids@.take(i + 1)));
        }
        i += 1;
    }
    push_text(&mut detail, "]");
    proof {
        if pids.len() < 8 {
            assert(pids@.take(n as int) =~= pids@);
        }
        assert(detail@ =~= listed_step(pids@).detail);
    }
    entry(0, "cgroup-v1", &detail, pids.len() > 0)
}

fn roots_entry(roots: &Vec<String>) -> (r: TraceEntry)
    ensures
        r@ == roots_step(text::texts(roots@)),
{
    let ghost rs = text::texts(roots@);
    let mut note: Vec<char> = Vec::new();
    let mut i: usize = 0;
    while i < roots.len()
        invariant
            i <= roots.len(),
            rs == text::texts(roots@),
            note@ == spaced(rs.take(i as int)),
        decreases roots.len() - i,
    {
        let ghost was = note@;
        push_text(&mut note, roots[i].as_str());
        note.push(' ');
        proof {
            assert(rs.take(i + 1).drop_last() =~= rs.take(i as int));
            assert(rs.take(i + 1).last() == roots@[i as int]@);
            assert(note@ =~= was + rs[i as int].push(' '));
        }
        i += 1;
    }
    assert(rs.take(rs.len() as int) =~= rs);
    let shown = trimmed(note.as_slice());
    let mut detail: Vec<char> = Vec::new();
    push_all(&mut detail, shown);
    assert(detail@ =~= shown@);
    entry(0, "cgroup-v2-roots", &detail, roots.len() > 0)
}

fn find_kept<'a>(kept: &[&'a ProcFacts], pid: i32) -> (r: Option<&'a ProcFacts>)
    ensures
        r == (match kept_at(kept@.unref(), pid) {
            Some(f) => Some(&f),
            None => None,
        }),
{
    let ghost fs = kept@.unref();
    let mut k: usize = 0;
    assert(fs.skip(0) =~= fs);
    while k < kept.len()
        invariant
            k <= kept.len(),
            fs == kept@.unref(),
            facts_at(fs, pid) == k + facts_at(fs.skip(k as int), pid),
        decreases kept.len() - k,
    {
        assert(fs[k as int] == *kept@[k as int]);
        if kept[k].pid == pid {
            return Some(kept[k]);
        }
        assert(fs.skip(k as int).drop_first() =~= fs.skip(k + 1));
        k += 1;
    }
    None
}

// ---------------------------------------------------------------------------
// Laws
// ---------------------------------------------------------------------------

/// Processes are looked at in descending order of their PIDs, each as often as
/// it is listed.
pub proof fn law_descending(s: Seq<i32>)
    ensures
        descending(s).to_multiset() == s.to_multiset(),
        forall|i: int, j: int| 0 <= i <= j < descending(s).len() ==> descending(s)[i] >= descending(s)[j],
    decreases s.len(),
{
    broadcast use vstd::seq_lib::group_to_multiset_ensures;

    if s.len() > 0 {
        let t = s.drop_last();
        let x = s.last();
        law_descending(t);
        let head = descending(t);
        lemma_rank(head, x);
        let k = rank(head, x);
        let out = head.insert(k, x);
        assert(s =~= t.push(x));
        assert(t.push(x).to_multiset() == t.to_multiset().insert(x));
        vstd::seq_lib::to_multiset_insert(head, k, x);
        assert forall|i: int, j: int| 0 <= i <= j < out.len() implies out[i] >= out[j] by {
            if i < k && j > k {
                assert(head[i] >= head[j - 1]);
            } else if i < k && j < k {
                assert(head[i] >= head[j]);
            } else if i == k && j > k {
                assert(head[k] >= head[j - 1]);
            } else if i > k {
                assert(head[i - 1] >= head[j - 1]);
            }
        }
    }
}

proof fn lemma_rank(s: Seq<i32>, x: i32)
    requires
        forall|i: int, j: int| 0 <= i <= j < s.len() ==> s[i] >= s[j],
    ensures
        0 <= rank(s, x) <= s.len(),
        forall|i: int| 0 <= i < rank(s, x) ==> s[i] >= x,
        rank(s, x) < s.len() ==> s[rank(s, x)] < x,
    decreases s.len(),
{
    if s.len() > 0 && s.first() >= x {
        let t = s.drop_first();
        lemma_rank(t, x);
        assert forall|i: int| 0 <= i < rank(s, x) implies s[i] >= x by {
            if i > 0 {
                assert(t[i - 1] == s[i]);
            }
        }
    }
}

/// No candidate is to be preferred to the one that is selected: its OOM score is
/// lowest, among those it does not lose ties if another does not, and among
/// those its PID is highest.
pub proof fn law_best_is_unbeaten(cs: Seq<Candidate>)
    ensures
        forall|i: int| 0 <= i < cs.len() ==> !beats(#[trigger] cs[i], best(cs)),
        best(cs) == nobody() || cs.contains(best(cs)),
    decreases cs.len(),
{
    if cs.len() > 0 {
        let head = cs.drop_last();
        law_best_is_unbeaten(head);
        assert forall|i: int| 0 <= i < cs.len() implies !beats(#[trigger] cs[i], best(cs)) by {
            if i < head.len() {
                assert(!beats(head[i], best(head)));
            }
        }
        if beats(cs.last(), best(head)) {
            assert(cs[cs.len() - 1] == best(cs));
        } else if best(head) != nobody() {
            let k = choose|k: int| 0 <= k < head.len() && head[k] == best(head);
            assert(cs[k] == best(cs));
        }
    }
}

/// A resolution keeps what is known of processes.
pub proof fn law_known_processes_stay(
    setup: Setup,
    known: Known,
    pids: Seq<i32>,
    facts: Seq<ProcFacts>,
)
    ensures
        known.pids.submap_of(filtered(setup, known, pids, facts).0.pids),
    decreases pids.len(),
{
    if pids.len() > 0 {
        law_known_processes_stay(setup, known, pids.drop_last(), facts);
        let mid = filtered(setup, known, pids.drop_last(), facts).0;
        let next = filtered(setup, known, pids, facts).0;
        assert(mid.pids.submap_of(next.pids));
        assert forall|p: i32| #[trigger] known.pids.dom().contains(p) implies next.pids.dom().contains(
            p,
        ) && next.pids[p] == known.pids[p] by {
            assert(mid.pids.dom().contains(p));
        }
    }
}

/// Every candidate is in a populated group, was listed, and has a package that
/// is not blocked.
pub proof fn law_candidates_qualify(
    setup: Setup,
    known: Known,
    pids: Seq<i32>,
    facts: Seq<ProcFacts>,
)
    ensures
        ({
            let (next, kept) = filtered(setup, known, pids, facts);
            forall|i: int|
                0 <= i < kept.len() ==> {
                    let f = #[trigger] kept[i];
                    &&& populated(setup.roots, f)
                    &&& pids.contains(f.pid)
                    &&& facts.contains(f)
                    &&& next.pids.contains_key(f.pid)
                    &&& !package_set::covered(setup.blocked, next.pids[f.pid])
                }
        }),
    decreases pids.len(),
{
    if pids.len() > 0 {
        let front = pids.drop_last();
        law_candidates_qualify(setup, known, front, facts);
        let (mid, head) = filtered(setup, known, front, facts);
        let (next, kept) = filtered(setup, known, pids, facts);
        let k = facts_at(facts, pids.last());
        lemma_facts_at(facts, pids.last());
        assert(mid.pids.submap_of(next.pids));
        assert forall|i: int| 0 <= i < kept.len() implies {
            let f = #[trigger] kept[i];
            &&& populated(setup.roots, f)
            &&& pids.contains(f.pid)
            &&& facts.contains(f)
            &&& next.pids.contains_key(f.pid)
            &&& !package_set::covered(setup.blocked, next.pids[f.pid])
        } by {
            let f = kept[i];
            if i < head.len() {
                assert(kept[i] == head[i]);
                let j = choose|j: int| 0 <= j < front.len() && front[j] == f.pid;
                assert(pids[j] == f.pid);
                assert(mid.pids.dom().contains(f.pid));
            } else {
                assert(f == facts[k]);
                assert(pids[pids.len() - 1] == f.pid);
            }
        }
    }
}

proof fn lemma_facts_at(facts: Seq<ProcFacts>, pid: i32)
    ensures
        0 <= facts_at(facts, pid) <= facts.len(),
        facts_at(facts, pid) < facts.len() ==> facts[facts_at(facts, pid)].pid == pid,
    decreases facts.len(),
{
    if facts.len() > 0 && facts.first().pid != pid {
        lemma_facts_at(facts.drop_first(), pid);
    }
}

/// The facts of every ranked process are among those of the candidates.
proof fn lemma_ranked(setup: Setup, pids: Map<i32, Seq<char>>, kept: Seq<ProcFacts>)
    ensures
        forall|c: Candidate| #[trigger]
            ranked(setup, pids, kept).contains(c) ==> exists|i: int|
                0 <= i < kept.len() && (#[trigger] kept[i]).pid == c.pid && oom_of(kept[i]) == Some(
                    c.oom,
                ) && c.low == loses_ties(setup, package_at(pids, c.pid)),
        forall|i: int|
            0 <= i < kept.len() && oom_of(#[trigger] kept[i]) is Some ==> ranked(
                setup,
                pids,
                kept,
            ).contains(
                Candidate {
                    pid: kept[i].pid,
                    oom: oom_of(kept[i])->0,
                    low: loses_ties(setup, package_at(pids, kept[i].pid)),
                },
            ),
    decreases kept.len(),
{
    if kept.len() > 0 {
        let front = kept.drop_last();
        let f = kept.last();
        lemma_ranked(setup, pids, front);
        let head = ranked(setup, pids, front);
        let cs = ranked(setup, pids, kept);
        assert forall|c: Candidate| #[trigger] cs.contains(c) implies exists|i: int|
            0 <= i < kept.len() && (#[trigger] kept[i]).pid == c.pid && oom_of(kept[i]) == Some(
                c.oom,
            ) && c.low == loses_ties(setup, package_at(pids, c.pid)) by {
            let n = choose|n: int| 0 <= n < cs.len() && cs[n] == c;
            if n < head.len() {
                assert(head[n] == c);
                assert(head.contains(c));
                let i = choose|i: int|
                    0 <= i < front.len() && (#[trigger] front[i]).pid == c.pid && oom_of(front[i])
                        == Some(c.oom) && c.low == loses_ties(setup, package_at(pids, c.pid));
                assert(kept[i] == front[i]);
            } else {
                assert(kept[kept.len() - 1] == f);
            }
        }
        assert forall|i: int| 0 <= i < kept.len() && oom_of(#[trigger] kept[i]) is Some implies cs.contains(
            Candidate {
                pid: kept[i].pid,
                oom: oom_of(kept[i])->0,
                low: loses_ties(setup, package_at(pids, kept[i].pid)),
            },
        ) by {
            let c = Candidate {
                pid: kept[i].pid,
                oom: oom_of(kept[i])->0,
                low: loses_ties(setup, package_at(pids, kept[i].pid)),
            };
            if i < front.len() {
                assert(front[i] == kept[i]);
                assert(head.contains(c));
                let n = choose|n: int| 0 <= n < head.len() && head[n] == c;
                assert(cs[n] == c);
            } else {
                assert(cs[cs.len() - 1] == c);
            }
        }
    }
}

/// A process as a candidate, if it has an OOM score.
pub open spec fn candidate(setup: Setup, pids: Map<i32, Seq<char>>, f: ProcFacts) -> Candidate {
    Candidate {
        pid: f.pid,
        oom: oom_of(f)->0,
        low: loses_ties(setup, package_at(pids, f.pid)),
    }
}

/// The package in the foreground is never a blocked one. It is that of a
/// candidate to which no other is to be preferred: none has a lower OOM score, and
/// of those with the same none wins the tie.
pub proof fn law_foreground(setup: Setup, known: Known, pids: Seq<i32>, facts: Seq<ProcFacts>)
    ensures
        ({
            let (next, kept) = filtered(setup, known, pids, facts);
            match outcome(setup, known, pids, facts).1 {
                Some((package, _, _)) => {
                    &&& !package_set::covered(setup.blocked, package)
                    &&& exists|w: int|
                        0 <= w < kept.len() && pids.contains((#[trigger] kept[w]).pid)
                            && next.pids.contains_pair(kept[w].pid, package) && oom_of(
                            kept[w],
                        ) is Some && forall|i: int|
                            0 <= i < kept.len() && oom_of(#[trigger] kept[i]) is Some ==> !beats(
                                candidate(setup, next.pids, kept[i]),
                                candidate(setup, next.pids, kept[w]),
                            )
                },
                None => true,
            }
        }),
{
    let (next, kept) = filtered(setup, known, pids, facts);
    let cs = ranked(setup, next.pids, kept);
    law_candidates_qualify(setup, known, pids, facts);
    law_best_is_unbeaten(cs);
    lemma_ranked(setup, next.pids, kept);
    if let Some((package, _, _)) = outcome(setup, known, pids, facts).1 {
        let c = best(cs);
        assert(cs.contains(c));
        let w = choose|i: int|
            0 <= i < kept.len() && (#[trigger] kept[i]).pid == c.pid && oom_of(kept[i]) == Some(
                c.oom,
            ) && c.low == loses_ties(setup, package_at(next.pids, c.pid));
        assert(populated(setup.roots, kept[w]));
        assert(candidate(setup, next.pids, kept[w]) == c);
        assert forall|i: int| 0 <= i < kept.len() && oom_of(#[trigger] kept[i]) is Some implies !beats(
            candidate(setup, next.pids, kept[i]),
            candidate(setup, next.pids, kept[w]),
        ) by {
            let d = candidate(setup, next.pids, kept[i]);
            assert(cs.contains(d));
            let n = choose|n: int| 0 <= n < cs.len() && cs[n] == d;
            assert(!beats(cs[n], c));
        }
    }
}

/// Where a candidate has a score, a resolution finds a package, if the owner of
/// each candidate can be told.
pub proof fn law_foreground_is_found(
    setup: Setup,
    known: Known,
    pids: Seq<i32>,
    facts: Seq<ProcFacts>,
    k: int,
)
    requires
        0 <= k < filtered(setup, known, pids, facts).1.len(),
        oom_of(filtered(setup, known, pids, facts).1[k]) is Some,
        forall|i: int| 0 <= i < pids.len() ==> #[trigger] pids[i] > 0,
        forall|i: int| 0 <= i < facts.len() ==> (#[trigger] facts[i]).uid is Ok,
    ensures
        outcome(setup, known, pids, facts).1 is Some,
{
    let (next, kept) = filtered(setup, known, pids, facts);
    let cs = ranked(setup, next.pids, kept);
    law_candidates_qualify(setup, known, pids, facts);
    law_best_is_unbeaten(cs);
    lemma_ranked(setup, next.pids, kept);
    let f = kept[k];
    let d = Candidate {
        pid: f.pid,
        oom: oom_of(f)->0,
        low: loses_ties(setup, package_at(next.pids, f.pid)),
    };
    assert(cs.contains(d));
    let n = choose|n: int| 0 <= n < cs.len() && cs[n] == d;
    assert(!beats(cs[n], best(cs)));
    let p = choose|p: int| 0 <= p < pids.len() && pids[p] == f.pid;
    assert(pids[p] > 0);
    assert(best(cs) != nobody());
    let c = best(cs);
    let w = choose|i: int|
        0 <= i < kept.len() && (#[trigger] kept[i]).pid == c.pid && oom_of(kept[i]) == Some(c.oom)
            && c.low == loses_ties(setup, package_at(next.pids, c.pid));
    let q = choose|q: int| 0 <= q < pids.len() && pids[q] == kept[w].pid;
    assert(pids[q] > 0);
    lemma_facts_at_finds(kept, w);
    let g = kept[facts_at(kept, c.pid)];
    assert(facts.contains(g));
    let m = choose|m: int| 0 <= m < facts.len() && facts[m] == g;
    assert(facts[m].uid is Ok);
}

proof fn lemma_facts_at_finds(facts: Seq<ProcFacts>, w: int)
    requires
        0 <= w < facts.len(),
    ensures
        0 <= facts_at(facts, facts[w].pid) < facts.len(),
    decreases facts.len(),
{
    if facts.first().pid != facts[w].pid {
        assert(facts.drop_first()[w - 1] == facts[w]);
        lemma_facts_at_finds(facts.drop_first(), w - 1);
    }
}

/// A program that runs in a terminal is not a candidate.
pub proof fn law_terminal_programs_are_skipped(setup: Setup, known: Known, f: ProcFacts, uid: u32)
    requires
        f.uid == Ok::<u32, String>(uid),
        uid >= FIRST_APP_UID,
        !known.pids.contains_key(f.pid),
        cache::package_of(cache::looked_up(known.cache, uid, opt_vec(f.listing)), uid) is Some,
        package_set::covered(
            setup.terminals,
            cache::package_of(cache::looked_up(known.cache, uid, opt_vec(f.listing)), uid)->0,
        ),
        f.cmdline is Some,
        f.cmdline->0@.contains('/'),
    ensures
        !considered(setup, known, f).1,
{
}

/// The PIDs but for `k`.
pub open spec fn without(pids: Seq<i32>, k: i32) -> Seq<i32>
    decreases pids.len(),
{
    if pids.len() == 0 {
        seq![]
    } else {
        let head = without(pids.drop_last(), k);
        if pids.last() == k {
            head
        } else {
            head.push(pids.last())
        }
    }
}

/// Whether the facts show the process `k` as a program that runs in the terminal
/// `package` of `uid`.
pub open spec fn is_terminal_program(
    setup: Setup,
    facts: Seq<ProcFacts>,
    k: i32,
    uid: u32,
    package: Seq<char>,
) -> bool {
    match kept_at(facts, k) {
        Some(f) => {
            &&& f.uid == Ok::<u32, String>(uid)
            &&& uid >= FIRST_APP_UID
            &&& package_set::covered(setup.terminals, package)
            &&& f.cmdline is Some
            &&& f.cmdline->0@.contains('/')
        },
        None => false,
    }
}

/// A program that runs in a terminal counts as if it were not listed at all: the
/// resolution finds what it finds without it. That is so where the mapping names
/// the terminal for its UID when the program is looked at, that is, where no
/// lookup before it brings a listing that does not.
pub proof fn law_terminal_programs_do_not_count(
    setup: Setup,
    known: Known,
    listed: Seq<i32>,
    facts: Seq<ProcFacts>,
    k: i32,
    uid: u32,
    package: Seq<char>,
)
    requires
        !known.pids.contains_key(k),
        is_terminal_program(setup, facts, k, uid, package),
        forall|i: int|
            0 <= i < descending(listed).len() && descending(listed)[i] == k ==> cache::package_of(
                filtered(setup, known, #[trigger] descending(listed).take(i), facts).0.cache,
                uid,
            ) == Some(package),
    ensures
        outcome(setup, known, descending(listed), facts).1 == outcome(
            setup,
            known,
            descending(without(listed, k)),
            facts,
        ).1,
{
    let pids = descending(listed);
    lemma_without(setup, known, pids, facts, k, uid, package);
    lemma_descending_without(listed, k);
    let (a, kept) = filtered(setup, known, pids, facts);
    let (b, _) = filtered(setup, known, without(pids, k), facts);
    lemma_selected_without(setup, a.pids, b.pids, kept, k);
}

/// Considering a terminal program leaves no trace but its own.
proof fn lemma_without(
    setup: Setup,
    known: Known,
    pids: Seq<i32>,
    facts: Seq<ProcFacts>,
    k: i32,
    uid: u32,
    package: Seq<char>,
)
    requires
        !known.pids.contains_key(k),
        is_terminal_program(setup, facts, k, uid, package),
        forall|i: int|
            0 <= i < pids.len() && pids[i] == k ==> cache::package_of(
                filtered(setup, known, #[trigger] pids.take(i), facts).0.cache,
                uid,
            ) == Some(package),
    ensures
        ({
            let (a, kept) = filtered(setup, known, pids, facts);
            let (b, rest) = filtered(setup, known, without(pids, k), facts);
            &&& kept == rest
            &&& a.cache == b.cache
            &&& a.pids.remove(k) == b.pids
            &&& !b.pids.contains_key(k)
            &&& a.pids.contains_key(k) ==> a.pids[k].len() == 0
            &&& forall|i: int| 0 <= i < kept.len() ==> (#[trigger] kept[i]).pid != k
        }),
    decreases pids.len(),
{
    if pids.len() == 0 {
        assert(known.pids.remove(k) =~= known.pids);
    } else {
        let front = pids.drop_last();
        let p = pids.last();
        assert forall|i: int| 0 <= i < front.len() && front[i] == k implies cache::package_of(
            filtered(setup, known, #[trigger] front.take(i), facts).0.cache,
            uid,
        ) == Some(package) by {
            assert(front.take(i) =~= pids.take(i));
            assert(pids[i] == k);
        }
        lemma_without(setup, known, front, facts, k, uid, package);
        assert(pids.take(pids.len() - 1) =~= front);
        let (a, kept) = filtered(setup, known, front, facts);
        let (b, rest) = filtered(setup, known, without(front, k), facts);
        if p == k {
            assert(pids[pids.len() - 1] == k);
            assert(cache::package_of(a.cache, uid) == Some(package));
        }
        let n = facts_at(facts, p);
        lemma_facts_at(facts, p);
        let longer = without(pids, k);
        if p == k {
            let f = facts[n];
            let (next, keep) = considered(setup, a, f);
            assert(!keep);
            assert(next.pids.remove(k) =~= b.pids);
        } else {
            assert(longer.drop_last() =~= without(front, k));
            assert(longer.last() == p);
            if n < facts.len() {
                let f = facts[n];
                let (x, keep) = considered(setup, a, f);
                let (y, _) = considered(setup, b, f);
                assert(a.pids.contains_key(f.pid) == b.pids.contains_key(f.pid));
                assert(x.pids.remove(k) =~= y.pids);
            }
        }
    }
}

proof fn lemma_selected_without(
    setup: Setup,
    a: Map<i32, Seq<char>>,
    b: Map<i32, Seq<char>>,
    kept: Seq<ProcFacts>,
    k: i32,
)
    requires
        a.remove(k) == b,
        forall|i: int| 0 <= i < kept.len() ==> (#[trigger] kept[i]).pid != k,
    ensures
        selected(setup, a, kept) == selected(setup, b, kept),
{
    lemma_ranked_without(setup, a, b, kept, k);
    let cs = ranked(setup, a, kept);
    law_best_is_unbeaten(cs);
    lemma_ranked(setup, a, kept);
    let c = best(cs);
    if c != nobody() {
        assert(cs.contains(c));
        assert(c.pid != k);
    }
}

proof fn lemma_ranked_without(
    setup: Setup,
    a: Map<i32, Seq<char>>,
    b: Map<i32, Seq<char>>,
    kept: Seq<ProcFacts>,
    k: i32,
)
    requires
        a.remove(k) == b,
        forall|i: int| 0 <= i < kept.len() ==> (#[trigger] kept[i]).pid != k,
    ensures
        ranked(setup, a, kept) == ranked(setup, b, kept),
    decreases kept.len(),
{
    if kept.len() > 0 {
        let front = kept.drop_last();
        assert forall|i: int| 0 <= i < front.len() implies (#[trigger] front[i]).pid != k by {
            assert(front[i] == kept[i]);
        }
        lemma_ranked_without(setup, a, b, front, k);
        let f = kept[kept.len() - 1];
        assert(f.pid != k);
        assert(package_at(a, f.pid) == package_at(b, f.pid));
    }
}

/// Leaving a PID out before the PIDs are sorted or after is the same.
proof fn lemma_descending_without(s: Seq<i32>, k: i32)
    ensures
        descending(without(s, k)) == without(descending(s), k),
{
    let x = descending(without(s, k));
    let y = without(descending(s), k);
    law_descending(s);
    law_descending(without(s, k));
    lemma_without_count(s, k);
    lemma_without_count(descending(s), k);
    assert(x.to_multiset() =~= y.to_multiset());
    lemma_without_sorted(descending(s), k);
    let leq = |a: i32, b: i32| a >= b;
    vstd::seq_lib::lemma_sorted_unique(x, y, leq);
}

proof fn lemma_without_count(s: Seq<i32>, k: i32)
    ensures
        forall|a: i32| #[trigger]
            without(s, k).to_multiset().count(a) == if a == k {
                0
            } else {
                s.to_multiset().count(a)
            },
    decreases s.len(),
{
    broadcast use vstd::seq_lib::group_to_multiset_ensures;

    assert forall|a: i32| #[trigger]
        without(s, k).to_multiset().count(a) == if a == k {
            0
        } else {
            s.to_multiset().count(a)
        } by {
        if s.len() > 0 {
            let front = s.drop_last();
            lemma_without_count(front, k);
            assert(without(front, k).to_multiset().count(a) == if a == k {
                0
            } else {
                front.to_multiset().count(a)
            });
            assert(s =~= front.push(s.last()));
            assert(s.to_multiset() == front.to_multiset().insert(s.last()));
        } else {
            assert(without(s, k) =~= s);
            assert(!s.contains(a));
            assert(s.to_multiset().count(a) == 0);
        }
    }
}

proof fn lemma_without_sorted(s: Seq<i32>, k: i32)
    requires
        forall|i: int, j: int| 0 <= i <= j < s.len() ==> s[i] >= s[j],
    ensures
        forall|i: int, j: int|
            0 <= i <= j < without(s, k).len() ==> without(s, k)[i] >= without(s, k)[j],
        forall|i: int| 0 <= i < without(s, k).len() ==> s.contains(#[trigger] without(s, k)[i]),
    decreases s.len(),
{
    if s.len() > 0 {
        let front = s.drop_last();
        lemma_without_sorted(front, k);
        let head = without(front, k);
        let out = without(s, k);
        assert forall|i: int| 0 <= i < head.len() implies s.contains(#[trigger] head[i])
            && head[i] >= s.last() by {
            assert(front.contains(head[i]));
            let m = choose|m: int| 0 <= m < front.len() && front[m] == head[i];
            assert(s[m] == head[i]);
            assert(s[m] >= s[s.len() - 1]);
        }
        assert(s.contains(s.last())) by {
            assert(s[s.len() - 1] == s.last());
        }
        assert forall|i: int| 0 <= i < out.len() implies s.contains(#[trigger] out[i]) by {
            if i < head.len() {
                assert(out[i] == head[i]);
            }
        }
        assert forall|i: int, j: int| 0 <= i <= j < out.len() implies out[i] >= out[j] by {
            if j < head.len() {
                assert(head[i] >= head[j]);
            } else if i < head.len() {
                assert(head[i] >= s.last());
            }
        }
    }
}

/// A system process is a candidate only under a name that begins with
/// `com.android.` or `com.google.`.
pub proof fn law_system_names(setup: Setup, known: Known, f: ProcFacts, uid: u32)
    requires
        f.uid == Ok::<u32, String>(uid),
        uid < FIRST_APP_UID,
        !known.pids.contains_key(f.pid),
        considered(setup, known, f).1,
    ensures
        "com.android."@.is_prefix_of(considered(setup, known, f).0.pids[f.pid])
            || "com.google."@.is_prefix_of(considered(setup, known, f).0.pids[f.pid]),
{
}

/// Whether two views of a process differ at most in the package listing.
pub open spec fn same_but_listing(f: ProcFacts, g: ProcFacts) -> bool {
    &&& f.pid == g.pid
    &&& f.cgroup == g.cgroup
    &&& f.groups == g.groups
    &&& f.uid == g.uid
    &&& f.cmdline == g.cmdline
    &&& f.oom_score_adj == g.oom_score_adj
}

/// A package listing makes no difference for a process that does not want one.
pub proof fn law_listing_counts_if_wanted(setup: Setup, known: Known, f: ProcFacts, g: ProcFacts)
    requires
        same_but_listing(f, g),
        f.uid is Ok ==> !(f.uid->Ok_0 >= FIRST_APP_UID && !known.pids.contains_key(f.pid)
            && cache::asks_listing(known.cache, f.uid->Ok_0)),
    ensures
        considered(setup, known, f) == considered(setup, known, g),
{
}

/// The directories of all candidates are reported, in their order.
pub proof fn law_paths_of_all_candidates(
    setup: Setup,
    known: Known,
    pids: Seq<i32>,
    facts: Seq<ProcFacts>,
)
    ensures
        ({
            let kept = filtered(setup, known, pids, facts).1;
            &&& group_paths(setup.roots, kept).len() == kept.len()
            &&& forall|i: int|
                0 <= i < kept.len() ==> v2_group(setup.roots, #[trigger] kept[i]) is Some
                    && group_paths(setup.roots, kept)[i] == v2_group(
                    setup.roots,
                    kept[i],
                )->0.path@
        }),
{
    let kept = filtered(setup, known, pids, facts).1;
    law_candidates_qualify(setup, known, pids, facts);
    assert forall|i: int| 0 <= i < kept.len() implies v2_group(
        setup.roots,
        #[trigger] kept[i],
    ) is Some by {
        assert(populated(setup.roots, kept[i]));
    }
    lemma_group_paths(setup.roots, kept);
}

proof fn lemma_group_paths(roots: Seq<Seq<char>>, kept: Seq<ProcFacts>)
    requires
        forall|i: int| 0 <= i < kept.len() ==> v2_group(roots, #[trigger] kept[i]) is Some,
    ensures
        group_paths(roots, kept).len() == kept.len(),
        forall|i: int|
            0 <= i < kept.len() ==> group_paths(roots, kept)[i] == v2_group(
                roots,
                #[trigger] kept[i],
            )->0.path@,
    decreases kept.len(),
{
    if kept.len() > 0 {
        let front = kept.drop_last();
        assert forall|i: int| 0 <= i < front.len() implies v2_group(
            roots,
            #[trigger] front[i],
        ) is Some by {
            assert(front[i] == kept[i]);
        }
        lemma_group_paths(roots, front);
        assert(v2_group(roots, kept[kept.len() - 1]) is Some);
        assert forall|i: int| 0 <= i < kept.len() implies group_paths(roots, kept)[i] == v2_group(
            roots,
            #[trigger] kept[i],
        )->0.path@ by {
            if i < front.len() {
                assert(front[i] == kept[i]);
            }
        }
    }
}

// ---------------------------------------------------------------------------
// Laws: traces
// ---------------------------------------------------------------------------

/// Whether the cache knows the owner of each listed process that is an app.
pub open spec fn owners_are_known(
    cache: CacheState,
    pids: Seq<i32>,
    facts: Seq<ProcFacts>,
) -> bool {
    forall|i: int|
        0 <= i < pids.len() ==> match kept_at(facts, #[trigger] pids[i]) {
            Some(f) => f.uid is Ok && f.uid->Ok_0 >= FIRST_APP_UID ==> cache.packages.contains_key(
                f.uid->Ok_0,
            ),
            None => true,
        }
}

/// Where the cache knows all owners, a resolution leaves it as it is.
pub proof fn law_known_owners_keep_cache(
    setup: Setup,
    known: Known,
    pids: Seq<i32>,
    facts: Seq<ProcFacts>,
)
    requires
        owners_are_known(known.cache, pids, facts),
    ensures
        filtered(setup, known, pids, facts).0.cache == known.cache,
    decreases pids.len(),
{
    if pids.len() > 0 {
        let front = pids.drop_last();
        assert forall|i: int| 0 <= i < front.len() implies match kept_at(
            facts,
            #[trigger] front[i],
        ) {
            Some(f) => f.uid is Ok && f.uid->Ok_0 >= FIRST_APP_UID
                ==> known.cache.packages.contains_key(f.uid->Ok_0),
            None => true,
        } by {
            assert(front[i] == pids[i]);
        }
        law_known_owners_keep_cache(setup, known, front, facts);
        let p = pids[pids.len() - 1];
        assert(p == pids.last());
        assert(kept_at(facts, p) is Some ==> kept_at(facts, p)->0 == facts[facts_at(facts, p)]);
    }
}

/// Whether at most one of the lines is for the unified hierarchy, and its path
/// has no colon.
pub open spec fn is_unified(ls: Seq<Seq<char>>) -> bool {
    &&& forall|i: int, j: int|
        0 <= i < ls.len() && 0 <= j < ls.len() && "0::"@.is_prefix_of(#[trigger] ls[i])
            && "0::"@.is_prefix_of(#[trigger] ls[j]) ==> i == j
    &&& forall|i: int|
        0 <= i < ls.len() && "0::"@.is_prefix_of(#[trigger] ls[i]) ==> !ls[i].skip(3).contains(':')
}

/// Whether the cgroups of the listed processes are so.
pub open spec fn cgroups_are_unified(pids: Seq<i32>, facts: Seq<ProcFacts>) -> bool {
    forall|i: int|
        0 <= i < pids.len() ==> match kept_at(facts, #[trigger] pids[i]) {
            Some(f) => f.cgroup is Ok ==> is_unified(text::lines(f.cgroup->Ok_0@)),
            None => true,
        }
}

/// The content of the top-app CPUSet, if it was read.
pub open spec fn read_procs(procs: Result<Seq<char>, Seq<char>>) -> Option<Seq<char>> {
    match procs {
        Ok(content) => Some(content),
        Err(_) => None,
    }
}

/// A traced resolution finds what a plain one finds, and its last step passes
/// exactly if that is something. That is so where nothing is known of processes
/// yet, the cache knows all owners (by names that are words, as listings and the
/// cache file give them), and each process has one path in the unified hierarchy,
/// without a colon.
pub proof fn law_traced_is_plain(
    setup: Setup,
    known: Known,
    procs: Result<Seq<char>, Seq<char>>,
    facts: Seq<ProcFacts>,
)
    requires
        known.pids == Map::<i32, Seq<char>>::empty(),
        cache::storable(known.cache.packages),
        owners_are_known(known.cache, top_app(read_procs(procs)), facts),
        cgroups_are_unified(top_app(read_procs(procs)), facts),
    ensures
        ({
            let (_, result, trace) = traced(setup, known, procs, facts);
            &&& result == outcome(setup, known, top_app(read_procs(procs)), facts).1
            &&& trace.len() > 0
            &&& trace.last().pass <==> result is Some
        }),
{
    let top = top_app(read_procs(procs));
    lemma_passing_candidates(setup, known, top, facts);
    match procs {
        Err(_) => {
            assert(top =~= Seq::<i32>::empty());
        },
        Ok(content) => {
            let pids = listed_pids(text::lines(content));
            lemma_same_pids(pids);
            assert forall|i: int| 0 <= i < pids.len() implies match kept_at(
                facts,
                #[trigger] pids[i],
            ) {
                Some(f) => f.uid is Ok && f.uid->Ok_0 >= FIRST_APP_UID
                    ==> known.cache.packages.contains_key(f.uid->Ok_0),
                None => true,
            } by {
                assert(top.contains(pids[i]));
                let j = choose|j: int| 0 <= j < top.len() && top[j] == pids[i];
                assert(kept_at(facts, top[j]) == kept_at(facts, pids[i]));
            }
            lemma_traced_processes(setup, known.cache, pids, facts);
            let (cache, _, any) = traced_processes(setup, known.cache, pids, facts);
            assert(Known { cache, ..known } =~= known);
            let kept = filtered(setup, known, top, facts).1;
            if !any {
                if kept.len() > 0 {
                    let f = kept[0];
                    assert(top.contains(f.pid));
                    assert(pids.contains(f.pid));
                    let j = choose|j: int| 0 <= j < pids.len() && pids[j] == f.pid;
                    assert(kept_at(facts, pids[j]) == Some(f));
                    assert(false);
                }
                assert(kept =~= Seq::<ProcFacts>::empty());
                assert(outcome(setup, known, top, facts).1 is None);
            }
        },
    }
}

proof fn lemma_same_pids(s: Seq<i32>)
    ensures
        forall|p: i32| #[trigger] descending(s).contains(p) <==> s.contains(p),
{
    broadcast use vstd::seq_lib::group_to_multiset_ensures;

    law_descending(s);
    assert forall|p: i32| #[trigger] descending(s).contains(p) <==> s.contains(p) by {
        assert(descending(s).to_multiset().count(p) == s.to_multiset().count(p));
    }
}

/// Whether a trace lets a process pass.
pub open spec fn passes(setup: Setup, cache: CacheState, f: ProcFacts) -> bool {
    traced_process(setup, cache, f).2
}

/// Where all owners are known, a trace leaves the cache and tells of every
/// process that passes.
proof fn lemma_traced_processes(
    setup: Setup,
    cache: CacheState,
    pids: Seq<i32>,
    facts: Seq<ProcFacts>,
)
    requires
        owners_are_known(cache, pids, facts),
    ensures
        traced_processes(setup, cache, pids, facts).0 == cache,
        forall|i: int|
            0 <= i < pids.len() && kept_at(facts, #[trigger] pids[i]) is Some && passes(
                setup,
                cache,
                kept_at(facts, pids[i])->0,
            ) ==> traced_processes(setup, cache, pids, facts).2,
    decreases pids.len(),
{
    if pids.len() > 0 {
        let front = pids.drop_last();
        assert forall|i: int| 0 <= i < front.len() implies match kept_at(
            facts,
            #[trigger] front[i],
        ) {
            Some(f) => f.uid is Ok && f.uid->Ok_0 >= FIRST_APP_UID ==> cache.packages.contains_key(
                f.uid->Ok_0,
            ),
            None => true,
        } by {
            assert(front[i] == pids[i]);
        }
        lemma_traced_processes(setup, cache, front, facts);
        let p = pids[pids.len() - 1];
        if let Some(f) = kept_at(facts, p) {
            assert(traced_process(setup, cache, f).0 == cache);
        }
        assert forall|i: int|
            0 <= i < pids.len() && kept_at(facts, #[trigger] pids[i]) is Some && passes(
                setup,
                cache,
                kept_at(facts, pids[i])->0,
            ) implies traced_processes(setup, cache, pids, facts).2 by {
            if i < front.len() {
                assert(front[i] == pids[i]);
            }
        }
    }
}

/// Where nothing is known of processes and all owners are known, a resolution
/// leaves the cache, and a trace lets every candidate pass.
proof fn lemma_passing_candidates(
    setup: Setup,
    known: Known,
    pids: Seq<i32>,
    facts: Seq<ProcFacts>,
)
    requires
        known.pids == Map::<i32, Seq<char>>::empty(),
        cache::storable(known.cache.packages),
        owners_are_known(known.cache, pids, facts),
        cgroups_are_unified(pids, facts),
    ensures
        ({
            let (next, kept) = filtered(setup, known, pids, facts);
            &&& next.cache == known.cache
            &&& forall|p: i32| #[trigger]
                next.pids.contains_key(p) && next.pids[p].len() > 0 && !package_set::covered(
                    setup.blocked,
                    next.pids[p],
                ) ==> kept_at(facts, p) is Some && passes(setup, known.cache, kept_at(facts, p)->0)
            &&& forall|i: int|
                0 <= i < kept.len() ==> pids.contains((#[trigger] kept[i]).pid) && kept_at(
                    facts,
                    kept[i].pid,
                ) == Some(kept[i]) && passes(setup, known.cache, kept[i])
        }),
    decreases pids.len(),
{
    if pids.len() > 0 {
        let front = pids.drop_last();
        assert forall|i: int| 0 <= i < front.len() implies match kept_at(
            facts,
            #[trigger] front[i],
        ) {
            Some(f) => (f.uid is Ok && f.uid->Ok_0 >= FIRST_APP_UID
                ==> known.cache.packages.contains_key(f.uid->Ok_0)) && (f.cgroup is Ok
                ==> is_unified(text::lines(f.cgroup->Ok_0@))),
            None => true,
        } by {
            assert(front[i] == pids[i]);
        }
        lemma_passing_candidates(setup, known, front, facts);
        let (mid, head) = filtered(setup, known, front, facts);
        let (next, kept) = filtered(setup, known, pids, facts);
        let p = pids[pids.len() - 1];
        let n = facts_at(facts, p);
        lemma_facts_at(facts, p);
        if n < facts.len() {
            let f = facts[n];
            assert(kept_at(facts, p) == Some(f));
            if populated(setup.roots, f) {
                lemma_populated_passes(setup.roots, f);
                lemma_identity_passes(setup, mid, f);
            }
        }
        assert forall|i: int| 0 <= i < kept.len() implies pids.contains((#[trigger] kept[i]).pid)
            && kept_at(facts, kept[i].pid) == Some(kept[i]) && passes(
            setup,
            known.cache,
            kept[i],
        ) by {
            if i < head.len() {
                assert(kept[i] == head[i]);
                let j = choose|j: int| 0 <= j < front.len() && front[j] == head[i].pid;
                assert(pids[j] == kept[i].pid);
            } else {
                assert(kept[i] == facts[n]);
                assert(pids[pids.len() - 1] == kept[i].pid);
            }
        }
    }
}

/// A process that gets a name that is not blocked passes the step that tells who
/// it is.
proof fn lemma_identity_passes(setup: Setup, known: Known, f: ProcFacts)
    requires
        cache::storable(known.cache.packages),
        f.uid is Ok && f.uid->Ok_0 >= FIRST_APP_UID ==> known.cache.packages.contains_key(
            f.uid->Ok_0,
        ),
    ensures
        f.uid is Ok ==> ({
            let (next, named) = identified(setup, known, f, f.uid->Ok_0);
            &&& next == known
            &&& named is Some ==> named->0.len() > 0
            &&& named is Some && !package_set::covered(setup.blocked, named->0) ==> identity_step(
                setup,
                known.cache,
                f,
            ).1.pass
        }),
{
    if f.uid is Ok {
        let uid = f.uid->Ok_0;
        if uid >= FIRST_APP_UID {
            assert(!cache::asks_listing(known.cache, uid));
            assert(text::is_word(known.cache.packages[uid]));
        }
    }
}

/// A populated group is the one that a trace finds.
proof fn lemma_populated_passes(roots: Seq<Seq<char>>, f: ProcFacts)
    requires
        populated(roots, f),
        f.cgroup is Ok ==> is_unified(text::lines(f.cgroup->Ok_0@)),
    ensures
        group_step(roots, f).pass,
{
    let ls = text::lines(f.cgroup->Ok_0@);
    lemma_unified_candidates(roots, ls);
}

/// The directories of a process are those that a trace tries, if it has any.
proof fn lemma_unified_candidates(roots: Seq<Seq<char>>, ls: Seq<Seq<char>>)
    requires
        is_unified(ls),
    ensures
        candidates(roots, ls).len() == 0 || candidates(roots, ls) == below(roots, traced_rel(ls)),
{
    if exists|m: int| 0 <= m < ls.len() && "0::"@.is_prefix_of(#[trigger] ls[m]) {
        let m = choose|m: int| 0 <= m < ls.len() && "0::"@.is_prefix_of(#[trigger] ls[m]);
        lemma_candidates_at(roots, ls, m);
        lemma_traced_at(ls, m);
    } else {
        lemma_no_candidates(roots, ls);
    }
}

proof fn lemma_no_candidates(roots: Seq<Seq<char>>, ls: Seq<Seq<char>>)
    requires
        forall|i: int| 0 <= i < ls.len() ==> !"0::"@.is_prefix_of(#[trigger] ls[i]),
    ensures
        candidates(roots, ls).len() == 0,
    decreases ls.len(),
{
    if ls.len() > 0 {
        let front = ls.drop_last();
        assert forall|i: int| 0 <= i < front.len() implies !"0::"@.is_prefix_of(
            #[trigger] front[i],
        ) by {
            assert(front[i] == ls[i]);
        }
        lemma_no_candidates(roots, front);
        lemma_v2_rel(ls[ls.len() - 1]);
    }
}

proof fn lemma_candidates_at(roots: Seq<Seq<char>>, ls: Seq<Seq<char>>, m: int)
    requires
        0 <= m < ls.len(),
        "0::"@.is_prefix_of(ls[m]),
        !ls[m].skip(3).contains(':'),
        forall|i: int| 0 <= i < ls.len() && i != m ==> !"0::"@.is_prefix_of(#[trigger] ls[i]),
    ensures
        candidates(roots, ls) == below(roots, unrooted(ls[m].skip(3))),
    decreases ls.len(),
{
    let front = ls.drop_last();
    let last = ls[ls.len() - 1];
    lemma_v2_rel(last);
    assert forall|i: int| 0 <= i < front.len() && i != m implies !"0::"@.is_prefix_of(
        #[trigger] front[i],
    ) by {
        assert(front[i] == ls[i]);
    }
    if m == ls.len() - 1 {
        lemma_no_candidates(roots, front);
        assert(candidates(roots, front) =~= Seq::<Seq<char>>::empty());
        assert(candidates(roots, ls) =~= below(roots, unrooted(ls[m].skip(3))));
    } else {
        assert(front[m] == ls[m]);
        lemma_candidates_at(roots, front, m);
    }
}

proof fn lemma_traced_at(ls: Seq<Seq<char>>, m: int)
    requires
        0 <= m < ls.len(),
        "0::"@.is_prefix_of(ls[m]),
        forall|i: int| 0 <= i < ls.len() && i != m ==> !"0::"@.is_prefix_of(#[trigger] ls[i]),
    ensures
        traced_rel(ls) == unrooted(ls[m].skip(3)),
    decreases ls.len(),
{
    if m > 0 {
        let rest = ls.drop_first();
        assert(!"0::"@.is_prefix_of(ls[0]));
        assert(rest[m - 1] == ls[m]);
        assert forall|i: int| 0 <= i < rest.len() && i != m - 1 implies !"0::"@.is_prefix_of(
            #[trigger] rest[i],
        ) by {
            assert(rest[i] == ls[i + 1]);
        }
        lemma_traced_at(rest, m - 1);
    } else {
        assert(ls.first() == ls[0]);
    }
}

/// Only a line that begins with `0::` names a directory; it names all that
/// follows, if that has no colon.
proof fn lemma_v2_rel(line: Seq<char>)
    ensures
        v2_rel(line) is Some ==> "0::"@.is_prefix_of(line),
        "0::"@.is_prefix_of(line) && !line.skip(3).contains(':') ==> v2_rel(line) == Some(
            unrooted(line.skip(3)),
        ),
{
    reveal_strlit("0::");
    reveal_strlit("0");
    let parts = text::split(line, ':');
    let k = text::find(line, ':');
    text::lemma_find(line, ':');
    if k < line.len() {
        let rest = line.skip(k + 1);
        let tail = text::split(rest, ':');
        assert(parts == seq![line.take(k)] + tail);
        let j = text::find(rest, ':');
        text::lemma_find(rest, ':');
        if j < rest.len() {
            let end = rest.skip(j + 1);
            let ends = text::split(end, ':');
            assert(tail == seq![rest.take(j)] + ends);
            if v2_rel(line) is Some {
                assert(parts[0] == line.take(k) && parts[0].len() == k);
                assert(parts[1] == tail[0] && tail[0] == rest.take(j) && parts[1].len() == j);
                assert("0"@.len() == 1);
                assert(k == 1 && j == 0);
                assert(line.take(k)[0] == '0');
                assert(line[1] == ':' && rest[0] == ':' && line[2] == rest[0]);
                assert("0::"@ =~= line.take(3));
            }
            if "0::"@.is_prefix_of(line) && !line.skip(3).contains(':') {
                assert(line.take(3) =~= "0::"@);
                assert(line[0] == "0::"@[0] && line[1] == "0::"@[1] && line[2] == "0::"@[2]);
                assert(k == 1);
                assert(rest[0] == line[2]);
                assert(j == 0);
                assert(end =~= line.skip(3));
                text::lemma_find(end, ':');
                assert(text::find(end, ':') >= end.len()) by {
                    if text::find(end, ':') < end.len() {
                        assert(end.contains(end[text::find(end, ':')]));
                    }
                }
                assert(ends =~= seq![end]);
                assert(parts[0] =~= "0"@);
                assert(parts[1] == tail[0]);
                assert(parts[2] == tail[1] && tail[1] == ends[0]);
            }
        } else {
            assert(tail =~= seq![rest]);
            assert(parts.len() == 2);
            if "0::"@.is_prefix_of(line) {
                assert(line[1] == "0::"@[1] && line[2] == "0::"@[2] && line[0] == "0::"@[0]);
                assert(k == 1);
                assert(rest[0] == line[2]);
                assert(false);
            }
        }
    } else {
        assert(parts =~= seq![line]);
        if "0::"@.is_prefix_of(line) {
            assert(line[1] == "0::"@[1]);
            assert(false);
        }
    }
}

// ---------------------------------------------------------------------------
// Laws: from what the system shows to the package
// ---------------------------------------------------------------------------

/// Each line of the CPUSet that is an integer, white space around it aside, lists
/// that PID; any other line lists none.
pub proof fn law_listed_line(
    ls: Seq<Seq<char>>,
    before: Seq<char>,
    pid: i32,
    after: Seq<char>,
    other: Seq<char>,
)
    requires
        text::is_blank(before),
        text::is_blank(after),
        text::integer(text::trim(other)) is None,
    ensures
        listed_pids(Seq::<Seq<char>>::empty()) == Seq::<i32>::empty(),
        listed_pids(ls.push(before + text::dec_int(pid as int) + after)) == listed_pids(ls).push(
            pid,
        ),
        listed_pids(ls.push(other)) == listed_pids(ls),
{
    lemma_decimal_score(before, pid, after);
    let line = before + text::dec_int(pid as int) + after;
    assert(ls.push(line).drop_last() =~= ls);
    assert(ls.push(other).drop_last() =~= ls);
}

/// A decimal text with white space around it is read as its number.
proof fn lemma_decimal_score(before: Seq<char>, v: i32, after: Seq<char>)
    requires
        text::is_blank(before),
        text::is_blank(after),
    ensures
        text::trim(before + text::dec_int(v as int) + after) == text::dec_int(v as int),
        text::integer_i32(text::dec_int(v as int)) == Some(v),
        text::integer(text::dec_int(v as int)) == Some(v as int),
{
    let t = text::dec_int(v as int);
    let m = if v < 0 {
        (-(v as int)) as nat
    } else {
        v as nat
    };
    text::lemma_dec_no_space(m);
    text::law_numbers_are_read(m, 0, 0);
    let d = text::dec(m);
    assert(!text::is_space(d[0]) && !text::is_space(d[d.len() - 1]));
    assert(t.last() == d[d.len() - 1]);
    text::law_trim(before, t, after);
}

/// Slashes.
pub open spec fn slashes(n: nat) -> Seq<char> {
    Seq::new(n, |i: int| '/')
}

/// A line `0::` and a path names the directory of that path, without the slashes
/// at its start and without what follows a colon in it; a line that begins
/// otherwise names none.
pub proof fn law_unified_line(n: nat, rel: Seq<char>, rest: Seq<char>, other: Seq<char>)
    requires
        rel.len() == 0 || rel.first() != '/',
        !rel.contains(':'),
        !"0::"@.is_prefix_of(other),
    ensures
        v2_rel("0::"@ + slashes(n) + rel) == Some(rel),
        v2_rel("0::"@ + slashes(n) + rel + seq![':'] + rest) == Some(rel),
        v2_rel(other) is None,
{
    reveal_strlit("0::");
    reveal_strlit("0");
    let zero = seq!['0'];
    let none = Seq::<char>::empty();
    let p = slashes(n) + rel;
    assert(!p.contains(':')) by {
        if p.contains(':') {
            let i = choose|i: int| 0 <= i < p.len() && p[i] == ':';
            if i >= n {
                assert(p[i] == rel[i - n]);
                assert(rel.contains(rel[i - n]));
            }
        }
    }
    lemma_unrooted(n, rel);
    let a = "0::"@ + slashes(n) + rel;
    let b = a + seq![':'] + rest;
    assert(a =~= zero + seq![':'] + (none + seq![':'] + p));
    assert(b =~= zero + seq![':'] + (none + seq![':'] + (p + seq![':'] + rest)));
    text::law_split(zero, ':', none + seq![':'] + p);
    text::law_split(none, ':', p);
    text::law_split(p, ':', rest);
    text::law_split(zero, ':', none + seq![':'] + (p + seq![':'] + rest));
    text::law_split(none, ':', p + seq![':'] + rest);
    let x = text::split(a, ':');
    assert(x =~= seq![zero, none, p]);
    let y = text::split(b, ':');
    assert(y =~= seq![zero, none, p] + text::split(rest, ':'));
    assert(y[0] == zero && y[1] == none && y[2] == p);
    assert(zero =~= "0"@);
    lemma_v2_rel(other);
}

proof fn lemma_unrooted(n: nat, rel: Seq<char>)
    requires
        rel.len() == 0 || rel.first() != '/',
    ensures
        unrooted(slashes(n) + rel) == rel,
    decreases n,
{
    let p = slashes(n) + rel;
    if n > 0 {
        assert(p.first() == '/');
        assert(p.drop_first() =~= slashes((n - 1) as nat) + rel);
        lemma_unrooted((n - 1) as nat, rel);
    } else {
        assert(p =~= rel);
    }
}

/// The directories of a process are tried line by line, and for each line below
/// the roots in their order.
pub proof fn law_directories(
    roots: Seq<Seq<char>>,
    ls: Seq<Seq<char>>,
    line: Seq<char>,
    i: int,
)
    requires
        0 <= i < roots.len(),
        roots[i].len() > 0 && roots[i].last() != '/',
    ensures
        candidates(roots, Seq::<Seq<char>>::empty()).len() == 0,
        v2_rel(line) is None ==> candidates(roots, ls.push(line)) == candidates(roots, ls),
        v2_rel(line) is Some && (v2_rel(line)->0.len() == 0 || v2_rel(line)->0.first() != '/') ==> {
            let all = candidates(roots, ls.push(line));
            let n = candidates(roots, ls).len();
            &&& all.len() == n + roots.len()
            &&& all.take(n as int) == candidates(roots, ls)
            &&& all[n + i] == roots[i] + seq!['/'] + v2_rel(line)->0
        },
{
    assert(ls.push(line).drop_last() =~= ls);
    if let Some(rel) = v2_rel(line) {
        let all = candidates(roots, ls.push(line));
        let n = candidates(roots, ls).len();
        assert(all.take(n as int) =~= candidates(roots, ls));
        if rel.len() == 0 || rel.first() != '/' {
            path::law_join(roots[i], rel);
        }
    }
}

/// The group of a process is the first of its directories that exists.
pub proof fn law_first_directory(
    groups: Seq<GroupFacts>,
    before: Seq<Seq<char>>,
    path: Seq<char>,
    after: Seq<Seq<char>>,
    k: int,
)
    requires
        0 <= k < groups.len(),
        groups[k].path@ == path,
        forall|j: int| 0 <= j < k ==> (#[trigger] groups[j]).path@ != path,
        forall|i: int, j: int|
            0 <= i < before.len() && 0 <= j < groups.len() ==> (#[trigger] groups[j]).path@
                != #[trigger] before[i],
    ensures
        first_group(groups, before) is None,
        first_group(groups, before + seq![path] + after) == Some(groups[k]),
    decreases before.len(),
{
    let paths = before + seq![path] + after;
    if before.len() == 0 {
        assert(paths.first() == path);
        lemma_group_at(groups, path, k);
    } else {
        let rest = before.drop_first();
        assert forall|i: int, j: int|
            0 <= i < rest.len() && 0 <= j < groups.len() implies (#[trigger] groups[j]).path@
            != #[trigger] rest[i] by {
            assert(rest[i] == before[i + 1]);
        }
        law_first_directory(groups, rest, path, after, k);
        assert(paths.first() == before[0]);
        assert(paths.drop_first() =~= rest + seq![path] + after);
        assert forall|j: int| 0 <= j < groups.len() implies (#[trigger] groups[j]).path@
            != before[0] by {
            assert(groups[j].path@ != before[0]);
        }
        lemma_no_group(groups, before[0]);
    }
}

proof fn lemma_group_at(groups: Seq<GroupFacts>, path: Seq<char>, k: int)
    requires
        0 <= k < groups.len(),
        groups[k].path@ == path,
        forall|j: int| 0 <= j < k ==> (#[trigger] groups[j]).path@ != path,
    ensures
        group_at(groups, path) == k,
    decreases groups.len(),
{
    if k > 0 {
        assert(groups[0].path@ != path);
        let rest = groups.drop_first();
        assert forall|j: int| 0 <= j < k - 1 implies (#[trigger] rest[j]).path@ != path by {
            assert(rest[j] == groups[j + 1]);
        }
        lemma_group_at(rest, path, k - 1);
    }
}

proof fn lemma_no_group(groups: Seq<GroupFacts>, path: Seq<char>)
    requires
        forall|j: int| 0 <= j < groups.len() ==> (#[trigger] groups[j]).path@ != path,
    ensures
        group_at(groups, path) == groups.len(),
    decreases groups.len(),
{
    if groups.len() > 0 {
        assert(groups[0].path@ != path);
        let rest = groups.drop_first();
        assert forall|j: int| 0 <= j < rest.len() implies (#[trigger] rest[j]).path@ != path by {
            assert(rest[j] == groups[j + 1]);
        }
        lemma_no_group(rest, path);
    }
}

/// A process is in a populated group exactly if its first directory that exists
/// has a readable `cgroup.events` with `populated 1` in it. One whose cgroup
/// cannot be read, or that has no such directory, is not.
pub proof fn law_populated(roots: Seq<Seq<char>>, f: ProcFacts)
    ensures
        populated(roots, f) <==> f.cgroup is Ok && ({
            let group = first_group(
                f.groups@,
                candidates(roots, text::lines(f.cgroup->Ok_0@)),
            );
            group is Some && group->0.events is Ok && text::contains(
                group->0.events->Ok_0@,
                "populated 1"@,
            )
        }),
{
}

/// The name of a process is the start of its command line up to a NUL, without
/// the white space around it.
pub proof fn law_process_name(before: Seq<char>, name: Seq<char>, after: Seq<char>, rest: Seq<char>)
    requires
        text::is_blank(before),
        text::is_blank(after),
        name.len() > 0 ==> !text::is_space(name.first()) && !text::is_space(name.last()),
        !name.contains('\0'),
    ensures
        process_name(before + name + after) == name,
        process_name(before + name + after + seq!['\0'] + rest) == name,
{
    let s = before + name + after;
    assert(!s.contains('\0')) by {
        if s.contains('\0') {
            let i = choose|i: int| 0 <= i < s.len() && s[i] == '\0';
            if i < before.len() {
                assert(s[i] == before[i]);
            } else if i < before.len() + name.len() {
                assert(s[i] == name[i - before.len()]);
                assert(name.contains(name[i - before.len()]));
            } else {
                assert(s[i] == after[i - before.len() - name.len()]);
            }
        }
    }
    text::law_split(s, '\0', rest);
    text::law_trim(before, name, after);
}

/// The name under which a process counts: for an app the package of its UID,
/// unless that is a terminal and the command line shows another program; for a
/// system process its own name, if it is one of those that can be shown.
pub open spec fn called(setup: Setup, packages: Map<u32, Seq<char>>, f: ProcFacts) -> Option<
    Seq<char>,
> {
    match (f.uid, f.cmdline) {
        (Ok(uid), cmdline) => if uid >= 10000 {
            let package = packages[uid];
            if package_set::covered(setup.terminals, package) && cmdline is Some && (process_name(
                cmdline->0@,
            ) != package || cmdline->0@.contains('/')) {
                None
            } else {
                Some(package)
            }
        } else if cmdline is Some && ("com.android."@.is_prefix_of(process_name(cmdline->0@))
            || "com.google."@.is_prefix_of(process_name(cmdline->0@))) {
            Some(process_name(cmdline->0@))
        } else {
            None
        },
        _ => None,
    }
}

/// Whether a process is listed and can be in the foreground: its group is
/// populated, and it counts under a name that is not blocked.
pub open spec fn is_eligible(
    setup: Setup,
    packages: Map<u32, Seq<char>>,
    pids: Seq<i32>,
    facts: Seq<ProcFacts>,
    f: ProcFacts,
) -> bool {
    &&& pids.contains(f.pid)
    &&& kept_at(facts, f.pid) == Some(f)
    &&& populated(setup.roots, f)
    &&& f.uid is Ok
    &&& called(setup, packages, f) is Some
    &&& !package_set::covered(setup.blocked, called(setup, packages, f)->0)
}

/// Whether nothing is known of processes yet, and the cache knows all owners by
/// proper names.
pub open spec fn is_fresh(known: Known, pids: Seq<i32>, facts: Seq<ProcFacts>) -> bool {
    &&& known.pids == Map::<i32, Seq<char>>::empty()
    &&& cache::storable(known.cache.packages)
    &&& owners_are_known(known.cache, pids, facts)
}

/// The candidates are exactly the processes that can be in the foreground, each
/// under its name.
pub proof fn law_candidates_are_exact(
    setup: Setup,
    known: Known,
    pids: Seq<i32>,
    facts: Seq<ProcFacts>,
)
    requires
        is_fresh(known, pids, facts),
    ensures
        ({
            let (next, kept) = filtered(setup, known, pids, facts);
            let packages = known.cache.packages;
            &&& next.cache == known.cache
            &&& forall|f: ProcFacts| #[trigger]
                kept.contains(f) <==> is_eligible(setup, packages, pids, facts, f)
            &&& forall|f: ProcFacts| #[trigger]
                is_eligible(setup, packages, pids, facts, f) ==> next.pids.contains_pair(
                    f.pid,
                    called(setup, packages, f)->0,
                )
            &&& forall|p: i32| #[trigger]
                next.pids.contains_key(p) ==> pids.contains(p) && is_named(
                    setup,
                    packages,
                    facts,
                    p,
                    next.pids[p],
                )
        }),
    decreases pids.len(),
{
    let packages = known.cache.packages;
    if pids.len() == 0 {
        let (next, kept) = filtered(setup, known, pids, facts);
        assert(kept =~= Seq::<ProcFacts>::empty());
    } else {
        let front = pids.drop_last();
        assert forall|i: int| 0 <= i < front.len() implies match kept_at(
            facts,
            #[trigger] front[i],
        ) {
            Some(f) => f.uid is Ok && f.uid->Ok_0 >= FIRST_APP_UID
                ==> known.cache.packages.contains_key(f.uid->Ok_0),
            None => true,
        } by {
            assert(front[i] == pids[i]);
        }
        law_candidates_are_exact(setup, known, front, facts);
        let (mid, head) = filtered(setup, known, front, facts);
        let (next, kept) = filtered(setup, known, pids, facts);
        let p = pids[pids.len() - 1];
        assert(p == pids.last());
        let n = facts_at(facts, p);
        lemma_facts_at(facts, p);
        assert forall|q: i32| #[trigger] pids.contains(q) <==> front.contains(q) || q == p by {
            if front.contains(q) {
                let j = choose|j: int| 0 <= j < front.len() && front[j] == q;
                assert(pids[j] == q);
            }
            if pids.contains(q) && q != p {
                let j = choose|j: int| 0 <= j < pids.len() && pids[j] == q;
                assert(front[j] == q);
            }
        }
        if n < facts.len() {
            let g = facts[n];
            assert(kept_at(facts, p) == Some(g));
            lemma_considered(setup, mid, g);
            assert forall|f: ProcFacts| #[trigger]
                kept.contains(f) <==> is_eligible(setup, packages, pids, facts, f) by {
                lemma_pushed(head, g, f);
                if f == g {
                    assert(f.pid == p);
                    assert(head.contains(g) <==> is_eligible(setup, packages, front, facts, g));
                    if front.contains(p) && mid.pids.contains_key(p) {
                        assert(is_named(setup, packages, facts, p, mid.pids[p]));
                    }
                } else {
                    assert(head.contains(f) <==> is_eligible(setup, packages, front, facts, f));
                    if f.pid == p {
                        assert(kept_at(facts, f.pid) != Some(f));
                    }
                }
            }
            assert forall|f: ProcFacts| #[trigger]
                is_eligible(setup, packages, pids, facts, f) implies next.pids.contains_pair(
                f.pid,
                called(setup, packages, f)->0,
            ) by {
                if f.pid == p {
                    assert(f == g);
                    if mid.pids.contains_key(p) {
                        assert(is_named(setup, packages, facts, p, mid.pids[p]));
                    }
                } else {
                    assert(is_eligible(setup, packages, front, facts, f));
                }
            }
        } else {
            assert(kept_at(facts, p) is None);
            assert forall|f: ProcFacts| #[trigger]
                kept.contains(f) <==> is_eligible(setup, packages, pids, facts, f) by {
                assert(head.contains(f) <==> is_eligible(setup, packages, front, facts, f));
            }
            assert forall|f: ProcFacts| #[trigger]
                is_eligible(setup, packages, pids, facts, f) implies next.pids.contains_pair(
                f.pid,
                called(setup, packages, f)->0,
            ) by {
                assert(is_eligible(setup, packages, front, facts, f));
            }
        }
    }
}

/// Whether the name kept for a PID is that of its process, or empty where the
/// process counts under none.
pub open spec fn is_named(
    setup: Setup,
    packages: Map<u32, Seq<char>>,
    facts: Seq<ProcFacts>,
    p: i32,
    name: Seq<char>,
) -> bool {
    match kept_at(facts, p) {
        Some(f) => {
            &&& f.uid is Ok
            &&& match called(setup, packages, f) {
                Some(n) => n == name && n.len() > 0,
                None => name.len() == 0,
            }
        },
        None => false,
    }
}

proof fn lemma_pushed(head: Seq<ProcFacts>, g: ProcFacts, f: ProcFacts)
    ensures
        head.push(g).contains(f) <==> head.contains(f) || f == g,
{
    let w = head.push(g);
    assert(w[head.len() as int] == g);
    if head.contains(f) {
        let j = choose|j: int| 0 <= j < head.len() && head[j] == f;
        assert(w[j] == f);
    }
    if w.contains(f) && f != g {
        let j = choose|j: int| 0 <= j < w.len() && w[j] == f;
        assert(head[j] == f);
    }
}

/// What considering a process comes to, where the cache knows its owner.
proof fn lemma_considered(setup: Setup, known: Known, f: ProcFacts)
    requires
        cache::storable(known.cache.packages),
        f.uid is Ok && f.uid->Ok_0 >= FIRST_APP_UID ==> known.cache.packages.contains_key(
            f.uid->Ok_0,
        ),
    ensures
        ({
            let (next, keep) = considered(setup, known, f);
            let name = called(setup, known.cache.packages, f);
            &&& next.cache == known.cache
            &&& name is Some ==> name->0.len() > 0
            &&& !known.pids.contains_key(f.pid) && populated(setup.roots, f) && f.uid is Ok ==> {
                &&& next.pids == known.pids.insert(
                    f.pid,
                    match name {
                        Some(n) => n,
                        None => seq![],
                    },
                )
                &&& keep <==> name is Some && !package_set::covered(setup.blocked, name->0)
            }
            &&& known.pids.contains_key(f.pid) || !populated(setup.roots, f) || f.uid is Err
                ==> next.pids == known.pids
            &&& known.pids.contains_key(f.pid) && populated(setup.roots, f) ==> (keep
                <==> known.pids[f.pid].len() > 0 && !package_set::covered(
                setup.blocked,
                known.pids[f.pid],
            ))
            &&& !known.pids.contains_key(f.pid) && f.uid is Err ==> !keep
            &&& !populated(setup.roots, f) ==> !keep
        }),
{
    reveal_strlit("com.android.");
    reveal_strlit("com.google.");
    if f.uid is Ok {
        let uid = f.uid->Ok_0;
        if uid >= FIRST_APP_UID {
            assert(!cache::asks_listing(known.cache, uid));
            assert(text::is_word(known.cache.packages[uid]));
        }
    }
}

/// Whether the OOM score of a process is this integer.
pub open spec fn has_score(f: ProcFacts, v: int) -> bool {
    &&& f.oom_score_adj is Some
    &&& text::integer(text::trim(f.oom_score_adj->0@)) == Some(v)
    &&& -0x8000_0000 <= v <= 0x7fff_ffff
}

/// Whether the OOM score is written as this integer in decimal.
pub open spec fn shows_score(f: ProcFacts, v: int) -> bool {
    &&& f.oom_score_adj is Some
    &&& text::trim(f.oom_score_adj->0@) == text::dec_int(v)
    &&& -0x8000_0000 <= v <= 0x7fff_ffff
}

/// A score that is written in decimal is that integer and no other.
pub proof fn law_shown_score(f: ProcFacts, v: int, u: int)
    requires
        shows_score(f, v),
    ensures
        has_score(f, v),
        has_score(f, u) ==> u == v,
{
    let none = Seq::<char>::empty();
    lemma_decimal_score(none, v as i32, none);
}

/// Whether a name loses ties: it is that of a terminal or of the launcher.
pub open spec fn is_low(setup: Setup, name: Seq<char>) -> bool {
    package_set::covered(setup.terminals, name) || setup.launcher == Some(name)
}

/// Whether the process `f`, with the score `v` and the name `n`, gives way to
/// none with the score `u`, the name `m` and the PID `q`: its score is lower; or
/// it is the same, and the other one loses ties; or neither or both do, and its
/// PID is not the lower one.
pub open spec fn holds_against(
    setup: Setup,
    p: i32,
    v: int,
    n: Seq<char>,
    q: i32,
    u: int,
    m: Seq<char>,
) -> bool {
    ||| v < u
    ||| v == u && is_low(setup, m) && !is_low(setup, n)
    ||| v == u && is_low(setup, m) == is_low(setup, n) && p >= q
}

/// Whether a process is in the foreground: it is eligible and has a score, and
/// holds against every other that is and has.
pub open spec fn is_foreground(
    setup: Setup,
    packages: Map<u32, Seq<char>>,
    pids: Seq<i32>,
    facts: Seq<ProcFacts>,
    f: ProcFacts,
    v: int,
) -> bool {
    &&& is_eligible(setup, packages, pids, facts, f)
    &&& has_score(f, v)
    &&& forall|g: ProcFacts, u: int|
        is_eligible(setup, packages, pids, facts, g) && #[trigger] has_score(g, u)
            ==> holds_against(
            setup,
            f.pid,
            v,
            called(setup, packages, f)->0,
            g.pid,
            u,
            called(setup, packages, g)->0,
        )
}

/// What is resolved: the package is that of a process in the foreground, an app if
/// its UID is that of one; nothing is resolved only where no process that can be
/// in the foreground has a score. The processes are those listed, by their PIDs,
/// which are positive.
pub proof fn law_resolution(setup: Setup, known: Known, pids: Seq<i32>, facts: Seq<ProcFacts>)
    requires
        is_fresh(known, pids, facts),
        forall|i: int| 0 <= i < pids.len() ==> #[trigger] pids[i] > 0,
    ensures
        match outcome(setup, known, pids, facts).1 {
            Some((package, is_app, _)) => exists|f: ProcFacts, v: int| #[trigger]
                is_foreground(setup, known.cache.packages, pids, facts, f, v) && called(
                    setup,
                    known.cache.packages,
                    f,
                ) == Some(package) && is_app == (f.uid->Ok_0 >= 10000),
            None => forall|f: ProcFacts, v: int|
                is_eligible(setup, known.cache.packages, pids, facts, f) ==> !(#[trigger] has_score(
                    f,
                    v,
                )),
        },
{
    let packages = known.cache.packages;
    let (next, kept) = filtered(setup, known, pids, facts);
    law_candidates_are_exact(setup, known, pids, facts);
    let cs = ranked(setup, next.pids, kept);
    law_best_is_unbeaten(cs);
    lemma_ranked(setup, next.pids, kept);
    let c = best(cs);
    assert forall|g: ProcFacts, u: int|
        is_eligible(setup, packages, pids, facts, g) && #[trigger] has_score(g, u) implies {
        &&& cs.contains(candidate(setup, next.pids, g))
        &&& oom_of(g) == Some(u as i32)
        &&& !beats(candidate(setup, next.pids, g), c)
        &&& candidate(setup, next.pids, g).low == is_low(setup, called(setup, packages, g)->0)
        &&& g.pid > 0
    } by {
        assert(kept.contains(g));
        let i = choose|i: int| 0 <= i < kept.len() && kept[i] == g;
        assert(oom_of(kept[i]) == Some(u as i32));
        let d = candidate(setup, next.pids, g);
        assert(cs.contains(d));
        let n = choose|n: int| 0 <= n < cs.len() && cs[n] == d;
        assert(!beats(cs[n], c));
        assert(next.pids.contains_pair(g.pid, called(setup, packages, g)->0));
        let j = choose|j: int| 0 <= j < pids.len() && pids[j] == g.pid;
        assert(pids[j] > 0);
    }
    if c == nobody() {
        assert forall|f: ProcFacts, v: int|
            is_eligible(setup, packages, pids, facts, f) implies !(#[trigger] has_score(f, v)) by {
            if has_score(f, v) {
                assert(!beats(candidate(setup, next.pids, f), c));
            }
        }
    } else {
        assert(cs.contains(c));
        let w = choose|i: int|
            0 <= i < kept.len() && (#[trigger] kept[i]).pid == c.pid && oom_of(kept[i]) == Some(
                c.oom,
            ) && c.low == loses_ties(setup, package_at(next.pids, c.pid));
        let f = kept[w];
        assert(kept.contains(f));
        assert(is_eligible(setup, packages, pids, facts, f));
        let v = c.oom as int;
        assert(has_score(f, v));
        assert(f.pid > 0);
        assert(next.pids.contains_pair(f.pid, called(setup, packages, f)->0));
        assert(candidate(setup, next.pids, f) == c);
        lemma_facts_at_finds(kept, w);
        lemma_facts_at(kept, f.pid);
        let h = kept[facts_at(kept, f.pid)];
        assert(kept.contains(h));
        assert(is_eligible(setup, packages, pids, facts, h));
        assert(h == f);
        assert(is_foreground(setup, packages, pids, facts, f, v)) by {
            assert forall|g: ProcFacts, u: int|
                is_eligible(setup, packages, pids, facts, g) && #[trigger] has_score(
                    g,
                    u,
                ) implies holds_against(
                setup,
                f.pid,
                v,
                called(setup, packages, f)->0,
                g.pid,
                u,
                called(setup, packages, g)->0,
            ) by {
                assert(!beats(candidate(setup, next.pids, g), c));
            }
        }
    }
}

/// The lowest score wins: where two processes can be in the foreground and their
/// scores are written in decimal, the one with the higher score is not the one
/// that is resolved.
pub proof fn law_lowest_score_wins(
    setup: Setup,
    known: Known,
    pids: Seq<i32>,
    facts: Seq<ProcFacts>,
    f: ProcFacts,
    a: int,
    g: ProcFacts,
    b: int,
)
    requires
        is_fresh(known, pids, facts),
        forall|i: int| 0 <= i < pids.len() ==> #[trigger] pids[i] > 0,
        is_eligible(setup, known.cache.packages, pids, facts, f),
        is_eligible(setup, known.cache.packages, pids, facts, g),
        shows_score(f, a),
        shows_score(g, b),
        a < b,
    ensures
        outcome(setup, known, pids, facts).1 is Some,
        forall|v: int| !(#[trigger] is_foreground(setup, known.cache.packages, pids, facts, g, v)),
        (forall|h: ProcFacts| #[trigger]
            is_eligible(setup, known.cache.packages, pids, facts, h) ==> h == f || h == g)
            ==> match outcome(setup, known, pids, facts).1 {
            Some((package, _, _)) => called(setup, known.cache.packages, f) == Some(package),
            None => false,
        },
{
    let packages = known.cache.packages;
    law_shown_score(f, a, a);
    law_resolution(setup, known, pids, facts);
    assert(has_score(f, a));
    assert forall|v: int| !(#[trigger] is_foreground(setup, packages, pids, facts, g, v)) by {
        if is_foreground(setup, packages, pids, facts, g, v) {
            law_shown_score(g, b, v);
            assert(has_score(f, a));
        }
    }
}

/// What is known of a process decides about it, whatever the system shows of its
/// owner and its command line: it counts under the known name if that is not
/// blocked, and not at all if it is known to be of no interest.
pub proof fn law_known_name_decides(setup: Setup, known: Known, f: ProcFacts)
    requires
        known.pids.contains_key(f.pid),
    ensures
        considered(setup, known, f) == (
            known,
            populated(setup.roots, f) && known.pids[f.pid].len() > 0 && !package_set::covered(
                setup.blocked,
                known.pids[f.pid],
            ),
        ),
{
}

/// An app that nothing is known of is looked up by its UID, with the listing where
/// the cache lacks it. It is a candidate if it gets a package that is not blocked,
/// and does not run another program in a terminal; either way it is known from
/// then on.
pub proof fn law_app_is_considered(setup: Setup, known: Known, f: ProcFacts, uid: u32)
    requires
        populated(setup.roots, f),
        !known.pids.contains_key(f.pid),
        f.uid == Ok::<u32, String>(uid),
        uid >= 10000,
    ensures
        ({
            let cache = cache::looked_up(known.cache, uid, opt_vec(f.listing));
            let (next, keep) = considered(setup, known, f);
            &&& next.cache == cache
            &&& match cache::package_of(cache, uid) {
                Some(package) => if package_set::covered(setup.terminals, package)
                    && f.cmdline is Some && (process_name(f.cmdline->0@) != package
                    || f.cmdline->0@.contains('/')) {
                    !keep && next.pids == known.pids.insert(f.pid, seq![])
                } else {
                    keep == !package_set::covered(setup.blocked, package) && next.pids
                        == known.pids.insert(f.pid, package)
                },
                None => !keep && next.pids == known.pids.insert(f.pid, seq![]),
            }
        }),
{
}

/// A system process that nothing is known of is a candidate under its own name, if
/// that begins with `com.android.` or `com.google.` and is not blocked.
pub proof fn law_system_process_is_considered(setup: Setup, known: Known, f: ProcFacts, uid: u32)
    requires
        populated(setup.roots, f),
        !known.pids.contains_key(f.pid),
        f.uid == Ok::<u32, String>(uid),
        uid < 10000,
    ensures
        ({
            let (next, keep) = considered(setup, known, f);
            let shown = f.cmdline is Some && ("com.android."@.is_prefix_of(
                process_name(f.cmdline->0@),
            ) || "com.google."@.is_prefix_of(process_name(f.cmdline->0@)));
            &&& next.cache == known.cache
            &&& keep <==> shown && !package_set::covered(
                setup.blocked,
                process_name(f.cmdline->0@),
            )
            &&& next.pids == known.pids.insert(
                f.pid,
                if shown {
                    process_name(f.cmdline->0@)
                } else {
                    seq![]
                },
            )
        }),
{
    reveal_strlit("com.android.");
    reveal_strlit("com.google.");
}

/// A process in no populated group, or whose owner cannot be told, is no candidate
/// and leaves what is known.
pub proof fn law_others_are_passed_over(setup: Setup, known: Known, f: ProcFacts)
    requires
        !known.pids.contains_key(f.pid),
        !populated(setup.roots, f) || f.uid is Err,
    ensures
        considered(setup, known, f) == (known, false),
{
}

/// Processes are considered one by one in the order of their PIDs, each with what
/// was learnt from those before it. One that the system shows nothing of is gone.
pub proof fn law_one_by_one(setup: Setup, known: Known, pids: Seq<i32>, p: i32, facts: Seq<ProcFacts>, k: int)
    requires
        0 <= k <= facts.len(),
        k < facts.len() ==> facts[k].pid == p,
        forall|j: int| 0 <= j < k ==> (#[trigger] facts[j]).pid != p,
    ensures
        filtered(setup, known, Seq::<i32>::empty(), facts) == (known, Seq::<ProcFacts>::empty()),
        ({
            let (mid, kept) = filtered(setup, known, pids, facts);
            filtered(setup, known, pids.push(p), facts) == if k < facts.len() {
                let (next, keep) = considered(setup, mid, facts[k]);
                (
                    next,
                    if keep {
                        kept.push(facts[k])
                    } else {
                        kept
                    },
                )
            } else {
                (mid, kept)
            }
        }),
        outcome(setup, known, pids, facts).0 == filtered(setup, known, pids, facts).0,
{
    assert(pids.push(p).drop_last() =~= pids);
    lemma_facts_at_is(facts, p, k);
}

proof fn lemma_facts_at_is(facts: Seq<ProcFacts>, p: i32, k: int)
    requires
        0 <= k <= facts.len(),
        k < facts.len() ==> facts[k].pid == p,
        forall|j: int| 0 <= j < k ==> (#[trigger] facts[j]).pid != p,
    ensures
        facts_at(facts, p) == k,
    decreases facts.len(),
{
    if k > 0 {
        assert(facts[0].pid != p);
        let rest = facts.drop_first();
        assert forall|j: int| 0 <= j < k - 1 implies (#[trigger] rest[j]).pid != p by {
            assert(rest[j] == facts[j + 1]);
        }
        lemma_facts_at_is(rest, p, k - 1);
    }
}

/// Of any candidates, one is selected that holds against all others that have a
/// score: by the lower score, then by losing no ties, then by the higher PID. Its
/// package is the one known for it. None is selected only where none has a score,
/// if their PIDs are positive, their packages known and their owners told.
pub proof fn law_selection(setup: Setup, names: Map<i32, Seq<char>>, kept: Seq<ProcFacts>)
    ensures
        match selected(setup, names, kept) {
            Some((package, is_app)) => exists|w: int, v: int|
                0 <= w < kept.len() && #[trigger] has_score(kept[w], v) && names.contains_pair(
                    kept[w].pid,
                    package,
                ) && (exists|j: int|
                    0 <= j < kept.len() && (#[trigger] kept[j]).pid == kept[w].pid && kept[j].uid is Ok
                        && is_app == (kept[j].uid->Ok_0 >= 10000)) && forall|i: int, u: int|
                    0 <= i < kept.len() && #[trigger] has_score(kept[i], u) ==> holds_against(
                        setup,
                        kept[w].pid,
                        v,
                        package,
                        kept[i].pid,
                        u,
                        package_at(names, kept[i].pid),
                    ),
            None => (forall|i: int|
                0 <= i < kept.len() ==> (#[trigger] kept[i]).pid > 0 && names.contains_key(
                    kept[i].pid,
                ) && kept[i].uid is Ok) ==> forall|i: int, u: int|
                0 <= i < kept.len() ==> !(#[trigger] has_score(kept[i], u)),
        },
{
    let cs = ranked(setup, names, kept);
    law_best_is_unbeaten(cs);
    lemma_ranked(setup, names, kept);
    let c = best(cs);
    assert forall|i: int, u: int| 0 <= i < kept.len() && #[trigger] has_score(kept[i], u) implies {
        &&& oom_of(kept[i]) == Some(u as i32)
        &&& !beats(candidate(setup, names, kept[i]), c)
    } by {
        assert(oom_of(kept[i]) == Some(u as i32));
        let d = candidate(setup, names, kept[i]);
        assert(cs.contains(d));
        let n = choose|n: int| 0 <= n < cs.len() && cs[n] == d;
        assert(!beats(cs[n], c));
    }
    if let Some((package, is_app)) = selected(setup, names, kept) {
        assert(cs.contains(c));
        let w = choose|i: int|
            0 <= i < kept.len() && (#[trigger] kept[i]).pid == c.pid && oom_of(kept[i]) == Some(
                c.oom,
            ) && c.low == loses_ties(setup, package_at(names, c.pid));
        let v = c.oom as int;
        assert(has_score(kept[w], v));
        assert(names.contains_pair(kept[w].pid, package));
        lemma_facts_at(kept, c.pid);
        let j = facts_at(kept, c.pid);
        assert(kept[j].pid == kept[w].pid);
        assert forall|i: int, u: int| 0 <= i < kept.len() && #[trigger] has_score(
            kept[i],
            u,
        ) implies holds_against(
            setup,
            kept[w].pid,
            v,
            package,
            kept[i].pid,
            u,
            package_at(names, kept[i].pid),
        ) by {
            assert(!beats(candidate(setup, names, kept[i]), c));
        }
    } else if forall|i: int|
        0 <= i < kept.len() ==> (#[trigger] kept[i]).pid > 0 && names.contains_key(kept[i].pid)
            && kept[i].uid is Ok {
        assert forall|i: int, u: int| 0 <= i < kept.len() implies !(#[trigger] has_score(
            kept[i],
            u,
        )) by {
            if has_score(kept[i], u) {
                assert(kept[i].pid > 0);
                assert(!beats(candidate(setup, names, kept[i]), c));
                assert(c != nobody());
                assert(cs.contains(c));
                let w = choose|i: int|
                    0 <= i < kept.len() && (#[trigger] kept[i]).pid == c.pid && oom_of(kept[i])
                        == Some(c.oom) && c.low == loses_ties(setup, package_at(names, c.pid));
                assert(kept[w].pid > 0);
                lemma_facts_at_finds(kept, w);
                lemma_facts_at(kept, c.pid);
                let j = facts_at(kept, c.pid);
                assert(kept[j].uid is Ok);
            }
        }
    }
}

/// Where a resolution finds something, it tells of the directories of all
/// candidates, each the first one of its process that exists.
pub proof fn law_reported_directories(
    setup: Setup,
    known: Known,
    pids: Seq<i32>,
    facts: Seq<ProcFacts>,
    i: int,
)
    requires
        outcome(setup, known, pids, facts).1 is Some,
    ensures
        ({
            let kept = filtered(setup, known, pids, facts).1;
            match outcome(setup, known, pids, facts).1 {
                Some((_, _, paths)) => paths.len() == kept.len() && (0 <= i < kept.len() ==> ({
                    let group = first_group(
                        kept[i].groups@,
                        candidates(setup.roots, text::lines(kept[i].cgroup->Ok_0@)),
                    );
                    kept[i].cgroup is Ok && group is Some && paths[i] == group->0.path@
                })),
                None => false,
            }
        }),
{
    law_paths_of_all_candidates(setup, known, pids, facts);
    let kept = filtered(setup, known, pids, facts).1;
    if 0 <= i < kept.len() {
        assert(v2_group(setup.roots, kept[i]) is Some);
    }
}

/// The roots are the mount points of the cgroup v2 hierarchies, the second word of
/// each line whose third is `cgroup2`; where there is none, the usual one.
pub proof fn law_roots(ls: Seq<Seq<char>>, line: Seq<char>, content: Seq<char>)
    ensures
        mounted(Seq::<Seq<char>>::empty()) == Seq::<Seq<char>>::empty(),
        text::words(line).len() >= 3 && text::words(line)[2] == "cgroup2"@ ==> mounted(ls.push(line))
            == mounted(ls).push(text::words(line)[1]),
        text::words(line).len() < 3 || text::words(line)[2] != "cgroup2"@ ==> mounted(ls.push(line))
            == mounted(ls),
        v2_roots(None) == seq!["/sys/fs/cgroup"@],
        mounted(text::lines(content)).len() == 0 ==> v2_roots(Some(content)) == seq![
            "/sys/fs/cgroup"@,
        ],
        mounted(text::lines(content)).len() > 0 ==> v2_roots(Some(content)) == mounted(
            text::lines(content),
        ),
{
    assert(ls.push(line).drop_last() =~= ls);
}

/// The processes that are looked at are those of the CPUSet, from the highest PID
/// down, each as often as it is listed; none if it cannot be read.
pub proof fn law_top_app(content: Seq<char>)
    ensures
        top_app(None) == Seq::<i32>::empty(),
        top_app(Some(content)).to_multiset() == listed_pids(text::lines(content)).to_multiset(),
        forall|i: int, j: int|
            0 <= i <= j < top_app(Some(content)).len() ==> top_app(Some(content))[i] >= top_app(
                Some(content),
            )[j],
{
    law_descending(listed_pids(text::lines(content)));
}

/// In a trace, the step on the group of a process passes exactly if the first of
/// the directories that it names exists and is populated, and the step on its
/// identity exactly if it gets a name that is not blocked: the package of its UID,
/// or that of the process.
pub proof fn law_trace_steps(setup: Setup, cache: CacheState, f: ProcFacts, uid: u32)
    requires
        f.uid == Ok::<u32, String>(uid),
    ensures
        group_step(setup.roots, f).pass <==> f.cgroup is Ok && ({
            let group = first_group(
                f.groups@,
                below(setup.roots, traced_rel(text::lines(f.cgroup->Ok_0@))),
            );
            group is Some && group->0.events is Ok && text::contains(
                group->0.events->Ok_0@,
                "populated 1"@,
            )
        }),
        group_step(setup.roots, f).pid == f.pid,
        identity_step(setup, cache, f).1.pid == f.pid,
        ({
            let next = cache::looked_up(cache, uid, opt_vec(f.listing));
            let name = if uid >= 10000 {
                cache::package_of(next, uid)
            } else if f.cmdline is Some {
                Some(process_name(f.cmdline->0@))
            } else {
                None
            };
            &&& identity_step(setup, cache, f).0 == if uid >= 10000 {
                next
            } else {
                cache
            }
            &&& identity_step(setup, cache, f).1.pass <==> name is Some && name->0.len() > 0
                && !package_set::covered(setup.blocked, name->0)
        }),
{
}

/// A trace begins with the list of processes, or with why there is none, and ends
/// with what was found, if anything was.
pub proof fn law_trace(
    setup: Setup,
    known: Known,
    content: Seq<char>,
    why: Seq<char>,
    facts: Seq<ProcFacts>,
)
    ensures
        ({
            let (next, result, steps) = traced(setup, known, Err(why), facts);
            &&& next == known && result is None && steps.len() == 1
            &&& steps[0].detail == "/dev/cpuset/top-app/cgroup.procs"@ + ": "@ + why
            &&& steps[0].stage == "cgroup-v1"@
            &&& !steps[0].pass && steps[0].pid == 0
        }),
        ({
            let (_, result, steps) = traced(setup, known, Ok(content), facts);
            let pids = listed_pids(text::lines(content));
            &&& steps.len() >= 3
            &&& steps[0].stage == "cgroup-v1"@ && (steps[0].pass <==> pids.len() > 0)
            &&& steps[1].stage == "cgroup-v2-roots"@ && (steps[1].pass <==> setup.roots.len() > 0)
            &&& pids.len() < 8 ==> steps[0].detail == "/dev/cpuset/top-app/cgroup.procs"@ + ": "@
                + text::dec(pids.len()) + " pid(s): ["@ + number_list(pids) + "]"@
            &&& pids.len() >= 8 ==> steps[0].detail == "/dev/cpuset/top-app/cgroup.procs"@ + ": "@
                + text::dec(pids.len()) + " pid(s): ["@ + number_list(pids.take(8)) + "]"@
            &&& steps.last().stage == "result"@
            &&& steps.last().pass <==> result is Some
            &&& match result {
                Some((package, _, _)) => steps.last().detail == package,
                None => steps.last().detail == "None"@ || steps.last().detail
                    == "filtered empty \u{2014} no foreground resolved"@,
            }
        }),
{
}

/// A process that is listed and was looked at adds the step of its group and, where
/// that passes, the step of its identity; a process that was not looked at adds
/// nothing. Something is resolved exactly if one of them passes both.
pub proof fn law_traced_one_by_one(
    setup: Setup,
    cache: CacheState,
    pids: Seq<i32>,
    p: i32,
    facts: Seq<ProcFacts>,
    k: int,
)
    ensures
        traced_processes(setup, cache, Seq::<i32>::empty(), facts) == (
            cache,
            Seq::<Step>::empty(),
            false,
        ),
        0 <= k < facts.len() && facts[k].pid == p && (forall|j: int|
            0 <= j < k ==> (#[trigger] facts[j]).pid != p) ==> {
            let (mid, head, any) = traced_processes(setup, cache, pids, facts);
            let (next, steps, some) = traced_processes(setup, cache, pids.push(p), facts);
            let group = group_step(setup.roots, facts[k]);
            let (after, identity) = identity_step(setup, mid, facts[k]);
            &&& group.pass ==> steps == head.push(group).push(identity) && next == after && some
                == (any || identity.pass)
            &&& !group.pass ==> steps == head.push(group) && next == mid && some == any
        },
        (forall|j: int| 0 <= j < facts.len() ==> (#[trigger] facts[j]).pid != p)
            ==> traced_processes(setup, cache, pids.push(p), facts) == traced_processes(
            setup,
            cache,
            pids,
            facts,
        ),
{
    assert(pids.push(p).drop_last() =~= pids);
    let head = traced_processes(setup, cache, pids, facts).1;
    if 0 <= k < facts.len() && facts[k].pid == p && (forall|j: int|
        0 <= j < k ==> (#[trigger] facts[j]).pid != p) {
        lemma_facts_at_is(facts, p, k);
        let mid = traced_processes(setup, cache, pids, facts).0;
        let group = group_step(setup.roots, facts[k]);
        let identity = identity_step(setup, mid, facts[k]).1;
        assert(head + seq![group, identity] =~= head.push(group).push(identity));
        assert(head + seq![group] =~= head.push(group));
    }
    if forall|j: int| 0 <= j < facts.len() ==> (#[trigger] facts[j]).pid != p {
        lemma_facts_at_is(facts, p, facts.len() as int);
    }
}

/// What the steps of a process tell, where each of them stops.
pub proof fn law_trace_texts(setup: Setup, cache: CacheState, f: ProcFacts)
    ensures
        ({
            let group = group_step(setup.roots, f);
            let (_, identity) = identity_step(setup, cache, f);
            &&& group.pid == f.pid && identity.pid == f.pid
            &&& f.cgroup is Err ==> !group.pass && group.stage == "proc-cgroup"@ && group.detail
                == "/proc/"@ + text::dec_int(f.pid as int) + "/cgroup: "@ + f.cgroup->Err_0@
            &&& f.cgroup is Ok ==> {
                let rel = traced_rel(text::lines(f.cgroup->Ok_0@));
                match first_group(f.groups@, below(setup.roots, rel)) {
                    None => !group.pass && group.stage == "cgroup-v2-path"@ && group.detail
                        == "no v2 path for rel="@ + text::quoted(rel),
                    Some(g) => match g.events {
                        Err(why) => !group.pass && group.stage == "cgroup-v2-events"@
                            && group.detail == path::join(g.path@, "cgroup.events"@) + ": "@
                            + why@,
                        Ok(_) => group.stage == "cgroup-v2-populated"@ && group.detail == g.path@
                            + ": populated="@ + (if group.pass {
                            "true"@
                        } else {
                            "false"@
                        }),
                    },
                }
            }
            &&& f.uid is Err ==> !identity.pass && identity.stage == "proc-stat"@
                && identity.detail == f.uid->Err_0@
            &&& f.uid is Ok ==> identity.stage == "identity"@
        }),
{
}

/// The numbers of a list are shown in order, with a comma between them.
pub proof fn law_number_list(s: Seq<i32>, v: i32)
    ensures
        number_list(Seq::<i32>::empty()) == Seq::<char>::empty(),
        number_list(seq![v]) == text::dec_int(v as int),
        s.len() > 0 ==> number_list(s.push(v)) == number_list(s) + ", "@ + text::dec_int(v as int),
{
    assert(s.push(v).drop_last() =~= s);
}

/// A number that no process can have is passed over in the list.
pub proof fn law_large_numbers(ls: Seq<Seq<char>>, line: Seq<char>, v: int)
    requires
        text::integer(text::trim(line)) == Some(v),
    ensures
        listed_pids(ls.push(line)) == if -0x8000_0000 <= v <= 0x7fff_ffff {
            listed_pids(ls).push(v as i32)
        } else {
            listed_pids(ls)
        },
{
    assert(ls.push(line).drop_last() =~= ls);
}

/// A line of the unified hierarchy stands for one directory below each root, in
/// the order of the roots.
pub proof fn law_below_every_root(
    roots: Seq<Seq<char>>,
    ls: Seq<Seq<char>>,
    n: nat,
    rel: Seq<char>,
    i: int,
)
    requires
        rel.len() == 0 || rel.first() != '/',
        !rel.contains(':'),
        0 <= i < roots.len(),
        roots[i].len() > 0,
    ensures
        ({
            let all = candidates(roots, ls.push("0::"@ + slashes(n) + rel));
            let k = candidates(roots, ls).len();
            &&& all.len() == k + roots.len()
            &&& roots[i].last() != '/' ==> all[k + i] == roots[i] + seq!['/'] + rel
            &&& roots[i].last() == '/' ==> all[k + i] == roots[i] + rel
        }),
{
    let line = "0::"@ + slashes(n) + rel;
    assert(!"0::"@.is_prefix_of(Seq::<char>::empty())) by {
        reveal_strlit("0::");
    }
    law_unified_line(n, rel, rel, Seq::<char>::empty());
    assert(ls.push(line).drop_last() =~= ls);
    path::law_join(roots[i], rel);
    if roots[i].last() == '/' {
        let front = roots[i].drop_last();
        assert(front + seq!['/'] =~= roots[i]);
        path::law_join(front, rel);
    }
}

/// A trace looks at the first line of the unified hierarchy, and takes the
/// directory from it without the slashes at its front.
pub proof fn law_traced_line(before: Seq<Seq<char>>, n: nat, rel: Seq<char>, after: Seq<Seq<char>>)
    requires
        forall|i: int| 0 <= i < before.len() ==> !"0::"@.is_prefix_of(#[trigger] before[i]),
        rel.len() == 0 || rel.first() != '/',
    ensures
        traced_rel(before) == Seq::<char>::empty(),
        traced_rel(before + seq!["0::"@ + slashes(n) + rel] + after) == rel,
    decreases before.len(),
{
    let line = "0::"@ + slashes(n) + rel;
    let all = before + seq![line] + after;
    reveal_strlit("0::");
    if before.len() == 0 {
        assert(all.first() == line);
        assert("0::"@.is_prefix_of(line)) by {
            assert(line.take(3) =~= "0::"@);
        }
        assert(line.skip(3) =~= slashes(n) + rel);
        lemma_unrooted(n, rel);
    } else {
        let rest = before.drop_first();
        assert forall|i: int| 0 <= i < rest.len() implies !"0::"@.is_prefix_of(
            #[trigger] rest[i],
        ) by {
            assert(rest[i] == before[i + 1]);
        }
        law_traced_line(rest, n, rel, after);
        assert(all.first() == before[0]);
        assert(all.drop_first() =~= rest + seq![line] + after);
    }
}

} // verus!
