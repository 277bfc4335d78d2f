//! The daemon: what it does about each event.

use std::collections::{HashMap, HashSet};

use vstd::prelude::*;

use crate::binder_source;
use crate::binder_source::BinderForegroundSource;
use crate::blocklist;
use crate::blocklist::Blocklist;
use crate::cache;
use crate::cache::{CacheFile, CacheState, Fingerprint, UidCache};
use crate::config::{Config, ResolverMode};
use crate::error::{CoreError, EADDRINUSE};
use crate::package_set::PackageSet;
use crate::path;
use crate::reactor::{Event, Token};
use crate::resolver;
use crate::resolver::{Known, ProcFacts, Resolver, Setup};
use crate::socket;
use crate::socket::{parse_command, status_reply, watch_line, Command};
use crate::spawn::process::{SIGINT, SIGTERM};
use crate::terminal_apps;
use crate::terminal_apps::TerminalApps;
use crate::text;
use crate::text::{chars_of, contains_text, push_text, same_str, string_of};
use crate::unix_socket::PeerCred;

verus! {

broadcast use vstd::std_specs::hash::group_hash_axioms;

/// The most connections that are taken in at once.
pub const MAX_ACCEPTS: u32 = 16;

// ---------------------------------------------------------------------------
// Model
// ---------------------------------------------------------------------------

/// The state of the daemon.
#[verifier::ext_equal]
pub struct State {
    /// The configuration, which says among other things who is asked for the
    /// foreground and which callers are served.
    pub config: Config,
    /// The path of the terminal apps file.
    pub terminal_file: Seq<char>,
    pub has_binder: bool,
    pub setup: Setup,
    pub known: Known,
    /// The connections whose request has not come yet.
    pub pending: Set<u64>,
    /// The connections of watchers, by their UID.
    pub watchers: Map<u32, u64>,
    /// The UIDs of watchers, by their connection.
    pub uids: Map<u64, u32>,
    /// The cgroup directories that are monitored.
    pub monitors: Map<u64, Seq<char>>,
    /// The last content of the top-app CPUSet, and its highest PID.
    pub payload: Seq<char>,
    pub max_pid: i32,
    /// The package that was found last for a watcher, new or old.
    pub last: Option<Seq<char>>,
    /// The packages that watchers were last told of, by their UID.
    pub told: Map<u32, Seq<char>>,
    /// The packages that the system's settings put on the blocklist.
    pub defaults: Set<Seq<char>>,
}

/// The texts of a mapping by token.
pub open spec fn token_texts(m: Map<u64, String>) -> Map<u64, Seq<char>> {
    m.map_values(|s: String| s@)
}

/// Where events come from.
#[derive(Debug, Clone, Copy)]
pub struct Sources {
    pub socket: Token,
    pub signal: Token,
    pub inotify: Token,
    /// The observer of the activity manager, if there is one.
    pub binder: Option<Token>,
}

/// The watches of the files.
#[derive(Debug, Clone, Copy)]
pub struct Watches {
    pub packages: i32,
    pub blocklist: i32,
    pub terminal_apps: i32,
    pub foreground: i32,
}

/// What an event is for.
#[derive(Debug, Clone, Copy, PartialEq, Eq, Structural)]
pub enum Route {
    /// Clients connect.
    Accept,
    /// Signals came.
    Signals,
    /// The activity manager tells of a change.
    Observer,
    /// Files changed.
    Files,
    /// A connection is gone before its request came.
    DropPending,
    /// A request came.
    Dispatch,
    /// The watcher of this UID is gone, or speaks out of turn.
    Evict(u32),
    /// A monitored group changed.
    Monitor,
    /// Nothing.
    Ignore,
}

/// What an event is for.
pub open spec fn routed(st: State, s: Sources, ev: Event) -> Route {
    if ev.token == s.socket {
        Route::Accept
    } else if ev.token == s.signal {
        Route::Signals
    } else if s.binder == Some(ev.token) {
        Route::Observer
    } else if ev.token == s.inotify {
        Route::Files
    } else if st.pending.contains(ev.token.0) {
        if ev.error || ev.hangup {
            Route::DropPending
        } else if ev.readable {
            Route::Dispatch
        } else {
            Route::Ignore
        }
    } else if st.uids.contains_key(ev.token.0) {
        if ev.error || ev.readable || ev.hangup {
            Route::Evict(st.uids[ev.token.0])
        } else {
            Route::Ignore
        }
    } else if st.monitors.contains_key(ev.token.0) && ev.priority {
        Route::Monitor
    } else {
        Route::Ignore
    }
}

/// What to do about a request.
#[derive(Debug, Clone, Copy, PartialEq, Eq, Structural)]
pub enum Dispatch {
    /// Nothing: the caller is not served.
    Refused,
    Status,
    /// Subscribe the caller.
    Watch(u32),
    /// Tell the caller that the command is unknown.
    Unknown,
}

/// What to do about a request of `uid`.
pub open spec fn dispatched(served: Option<u32>, command: Command, uid: u32) -> Dispatch {
    if served is Some && served->0 != uid {
        Dispatch::Refused
    } else {
        match command {
            Command::Status => Dispatch::Status,
            Command::Watch => Dispatch::Watch(uid),
            Command::Unknown => Dispatch::Unknown,
        }
    }
}

/// What is resolved by the activity manager.
pub open spec fn by_binder(st: State, focused: Option<Seq<char>>) -> Option<
    (Seq<char>, Seq<Seq<char>>),
> {
    if st.has_binder {
        match binder_source::unblocked(focused, st.setup.blocked) {
            Some(p) => Some((p, seq![])),
            None => None,
        }
    } else {
        None
    }
}

/// What is resolved by the cgroup hierarchy.
pub open spec fn by_cgroup(st: State, procs: Option<Seq<char>>, facts: Seq<ProcFacts>) -> (
    Known,
    Option<(Seq<char>, Seq<Seq<char>>)>,
) {
    let (next, out) = resolver::outcome(st.setup, st.known, resolver::top_app(procs), facts);
    (
        next,
        match out {
            Some((p, _, paths)) => Some((p, paths)),
            None => None,
        },
    )
}

/// Whether the activity manager is asked: for watchers, unless the mode is to go
/// by the cgroup hierarchy alone.
pub open spec fn uses_binder(mode: ResolverMode, watch: bool) -> bool {
    watch && mode != ResolverMode::Cgroup
}

/// Whether the cgroup hierarchy is asked: not in a mode of the activity manager
/// alone, nor where that has told already; but always for a status.
pub open spec fn uses_cgroup(st: State, watch: bool, focused: Option<Seq<char>>) -> bool {
    let mode = st.config.resolver_mode;
    !uses_binder(mode, watch) || (mode == ResolverMode::Auto && by_binder(st, focused) is None)
}

/// What is known after the foreground package was resolved, and the package with
/// the directories of the candidates.
pub open spec fn foreground(
    st: State,
    watch: bool,
    focused: Option<Seq<char>>,
    procs: Option<Seq<char>>,
    facts: Seq<ProcFacts>,
) -> (Known, Option<(Seq<char>, Seq<Seq<char>>)>) {
    if uses_cgroup(st, watch, focused) {
        by_cgroup(st, procs, facts)
    } else {
        (st.known, by_binder(st, focused))
    }
}

/// The largest of the numbers, or zero if there are none.
pub open spec fn largest(s: Seq<i32>) -> i32
    decreases s.len(),
{
    if s.len() == 0 {
        0
    } else if s.len() == 1 {
        s[0]
    } else {
        let head = largest(s.drop_last());
        if s.last() > head {
            s.last()
        } else {
            head
        }
    }
}

/// Half of a number, towards zero.
pub open spec fn half(x: i32) -> int {
    if x >= 0 {
        x as int / 2
    } else {
        -((-x) / 2)
    }
}

/// The state after the top-app CPUSet was read, and whether it changed. PIDs
/// that start again far lower are those of other processes.
pub open spec fn after_payload(st: State, payload: Seq<char>) -> (State, bool) {
    if payload == st.payload {
        (st, false)
    } else {
        let top = largest(resolver::listed_pids(text::lines(payload)));
        (
            State {
                payload,
                max_pid: top,
                known: if top < half(st.max_pid) {
                    Known { pids: Map::empty(), ..st.known }
                } else {
                    st.known
                },
                ..st
            },
            true,
        )
    }
}

/// The package of a resolution.
pub open spec fn package_in(res: Option<(Seq<char>, Seq<Seq<char>>)>) -> Option<Seq<char>> {
    match res {
        Some((p, _)) => Some(p),
        None => None,
    }
}

/// The texts of a resolution.
pub open spec fn res_texts(res: Option<(String, Vec<String>)>) -> Option<
    (Seq<char>, Seq<Seq<char>>),
> {
    match res {
        Some((p, paths)) => Some((p@, text::texts(paths@))),
        None => None,
    }
}

/// The watchers that are to be told of a package: all of them where it is not the
/// one that was found last, and otherwise those that were last told of another
/// one, or of none.
pub open spec fn awaiting(st: State, package: Option<Seq<char>>) -> Set<u32> {
    match package {
        Some(p) => Set::new(
            |uid: u32|
                st.watchers.contains_key(uid) && (st.last != Some(p) || !st.told.contains_pair(
                    uid,
                    p,
                )),
        ),
        None => Set::empty(),
    }
}

/// The line that watchers are told after a resolution, if any of them is to be
/// told.
pub open spec fn notice_text(st: State, package: Option<Seq<char>>) -> Option<Seq<char>> {
    if package is Some && awaiting(st, package) != Set::<u32>::empty() {
        Some(socket::watch_text(package->0))
    } else {
        None
    }
}

/// The state after a resolution for a new watcher.
pub open spec fn after_watch(st: State, res: Option<(Seq<char>, Seq<Seq<char>>)>) -> State {
    State { last: package_in(res), ..st }
}

/// The state after a resolution for watchers: all of them were told of the
/// package. Where none was found, the next one counts as a change.
pub open spec fn after_notice(st: State, res: Option<(Seq<char>, Seq<Seq<char>>)>) -> State {
    State {
        last: package_in(res),
        told: match package_in(res) {
            Some(p) => st.watchers.map_values(|token: u64| p),
            None => Map::empty(),
        },
        ..st
    }
}

/// Whether `list` holds the watchers of `uids` with their connections, each once.
pub open spec fn lists_watchers(list: Seq<(u32, u64)>, st: State, uids: Set<u32>) -> bool {
    &&& forall|i: int|
        0 <= i < list.len() ==> uids.contains((#[trigger] list[i]).0) && st.watchers.contains_pair(
            list[i].0,
            list[i].1,
        )
    &&& forall|uid: u32| #[trigger]
        uids.contains(uid) && st.watchers.contains_key(uid) ==> list.contains(
            (uid, st.watchers[uid]),
        )
    &&& forall|i: int, j: int|
        0 <= i < j < list.len() ==> (#[trigger] list[i]).0 != (#[trigger] list[j]).0
}

/// The files that a change of a watched file concerns.
#[derive(Debug, Clone, Copy, PartialEq, Eq, Structural)]
pub struct FileChange {
    /// The packages, the blocklist or the terminals are to be loaded again.
    pub refresh: bool,
    /// The top-app CPUSet may have changed.
    pub foreground: bool,
}

/// What the events of one round came to.
#[derive(Debug, Clone, Copy, PartialEq, Eq, Structural)]
pub struct Turn {
    /// The packages, the blocklist or the terminals are to be loaded again.
    pub refresh: bool,
    /// The top-app CPUSet may have changed.
    pub foreground: bool,
    /// The activity manager told of a change.
    pub observed: bool,
}

impl Turn {
    /// A round without events.
    pub fn new() -> (r: Self)
        ensures
            !r.refresh && !r.foreground && !r.observed,
    {
        Turn { refresh: false, foreground: false, observed: false }
    }

    /// Take in the change of a watched file.
    pub fn file_changed(&mut self, w: &Watches, wd: i32)
        ensures
            final(self).refresh == (old(self).refresh || changed_by(*w, wd).refresh),
            final(self).foreground == (old(self).foreground || changed_by(*w, wd).foreground),
            final(self).observed == old(self).observed,
    {
        let change = file_changed(w, wd);
        self.refresh = self.refresh || change.refresh;
        self.foreground = self.foreground || change.foreground;
    }

    /// Take in that the activity manager told of a change.
    pub fn observe(&mut self)
        ensures
            *final(self) == (Turn { observed: true, ..*old(self) }),
    {
        self.observed = true;
    }
}

/// What a change of a watched file concerns.
pub open spec fn changed_by(w: Watches, wd: i32) -> FileChange {
    FileChange {
        refresh: wd == w.packages || wd == w.blocklist || wd == w.terminal_apps,
        foreground: wd == w.foreground,
    }
}

/// The state at the end of a round, and whether the foreground package is to be
/// resolved for the watchers. `payload` is the content of the top-app CPUSet,
/// which counts only if it may have changed.
pub open spec fn after_turn(st: State, turn: Turn, payload: Seq<char>) -> (State, bool) {
    let (next, changed) = if turn.foreground {
        after_payload(st, payload)
    } else {
        (st, false)
    };
    (next, (changed || turn.observed) && next.watchers.dom().len() > 0)
}

/// What the files gave at the start.
pub struct StartFacts<'a> {
    pub cache: CacheFile<'a>,
    pub fingerprint: Option<Fingerprint>,
    pub listing: Option<&'a [u8]>,
    /// The outputs of the commands that tell of the launcher, the input method
    /// and the accessibility services.
    pub launcher: Option<&'a [u8]>,
    pub input_method: Option<&'a [u8]>,
    pub accessibility: Option<&'a [u8]>,
    pub blocklist: Option<&'a str>,
    pub terminal_apps: Option<&'a str>,
    pub mounts: Option<&'a str>,
    pub binder: Option<BinderForegroundSource>,
}

/// What a resolution leads to.
#[derive(Debug)]
pub struct Answer {
    /// The text to send, if any.
    pub text: Option<String>,
    /// The directories to monitor from now on; `None` leaves the monitors.
    pub monitor: Option<Vec<String>>,
}

/// The directories of an answer.
pub open spec fn monitored(a: Answer) -> Option<Seq<Seq<char>>> {
    match a.monitor {
        Some(paths) => Some(text::texts(paths@)),
        None => None,
    }
}

/// The directories of a resolution, none if it found nothing.
pub open spec fn paths_in(res: Option<(Seq<char>, Seq<Seq<char>>)>) -> Seq<Seq<char>> {
    match res {
        Some((_, paths)) => paths,
        None => seq![],
    }
}

/// The texts to write to files.
pub struct FileTexts {
    /// The cache file, if it is to be written.
    pub cache: Option<String>,
    pub blocklist: String,
}

// ---------------------------------------------------------------------------
// The daemon
// ---------------------------------------------------------------------------

/// The daemon.
pub struct Daemon {
    pub config: Config,
    pub binder: Option<BinderForegroundSource>,
    pub resolver: Resolver,
    pub pending: HashSet<u64>,
    pub watchers: HashMap<u32, u64>,
    pub token_to_uid: HashMap<u64, u32>,
    pub cgroup_monitors: HashMap<u64, String>,
    pub last_v1_payload: String,
    pub last_max_pid: i32,
    /// The package that was found last for a watcher, new or old.
    pub last_package: Option<String>,
    /// The packages that watchers were last told of, by their UID.
    pub told_packages: HashMap<u32, String>,
    pub blocklist_defaults: PackageSet,
    pub terminal_apps_path: String,
}

impl View for Daemon {
    type V = State;

    open spec fn view(&self) -> State {
        State {
            config: self.config,
            terminal_file: self.terminal_apps_path@,
            has_binder: self.binder is Some,
            setup: self.resolver.setup(),
            known: self.resolver.known(),
            pending: self.pending@,
            watchers: self.watchers@,
            uids: self.token_to_uid@,
            monitors: token_texts(self.cgroup_monitors@),
            payload: self.last_v1_payload@,
            max_pid: self.last_max_pid,
            last: text::opt_text(self.last_package),
            told: cache::names(self.told_packages@),
            defaults: self.blocklist_defaults@,
        }
    }
}

/// Whether each UID has at most one connection, and each connection of a watcher
/// one UID.
pub open spec fn is_paired(st: State) -> bool {
    &&& forall|uid: u32| #[trigger]
        st.watchers.contains_key(uid) ==> st.uids.contains_pair(st.watchers[uid], uid)
    &&& forall|token: u64| #[trigger]
        st.uids.contains_key(token) ==> st.watchers.contains_pair(st.uids[token], token)
}

/// The watchers without that of `uid`.
pub open spec fn evicted(st: State, uid: u32) -> State {
    if st.watchers.contains_key(uid) {
        State {
            watchers: st.watchers.remove(uid),
            uids: st.uids.remove(st.watchers[uid]),
            told: st.told.remove(uid),
            ..st
        }
    } else {
        st
    }
}

/// The watchers with one more, in place of an earlier one of the same UID. It was
/// told of the package `shown`, if any.
pub open spec fn subscribed(st: State, token: u64, uid: u32, shown: Option<Seq<char>>) -> State {
    let rest = evicted(st, uid);
    State {
        watchers: rest.watchers.insert(uid, token),
        uids: rest.uids.insert(token, uid),
        told: match shown {
            Some(p) => rest.told.insert(uid, p),
            None => rest.told.remove(uid),
        },
        ..rest
    }
}

/// The monitors of directories that are not in `paths`.
pub open spec fn stale_monitors(st: State, paths: Seq<Seq<char>>) -> Set<u64> {
    Set::new(|t: u64| st.monitors.contains_key(t) && !paths.contains(st.monitors[t]))
}

/// The path of the terminal apps file.
pub open spec fn terminal_path(cache_dir: Seq<char>) -> Seq<char> {
    cache_dir + "/terminal_apps.conf"@
}

/// Fail if another daemon answers on the socket.
pub fn check_running(connected: bool) -> (r: Result<(), CoreError>)
    ensures
        r == (if connected {
            Err(CoreError::Syscall { code: EADDRINUSE, op: "bind" })
        } else {
            Ok(())
        }),
{
    if connected {
        Err(CoreError::sys(EADDRINUSE, "bind"))
    } else {
        Ok(())
    }
}

/// Whether a signal ends the daemon.
pub fn ends_daemon(signo: u32) -> (r: bool)
    ensures
        r == (signo == SIGTERM || signo == SIGINT),
{
    signo == SIGTERM as u32 || signo == SIGINT as u32
}

/// Whether the `count`th connection of a round is taken in.
pub fn takes_in(count: u32) -> (r: bool)
    ensures
        r == (count <= MAX_ACCEPTS),
{
    count <= MAX_ACCEPTS
}

/// What a change of a watched file concerns.
pub fn file_changed(w: &Watches, wd: i32) -> (r: FileChange)
    ensures
        r == changed_by(*w, wd),
{
    FileChange {
        refresh: wd == w.packages || wd == w.blocklist || wd == w.terminal_apps,
        foreground: wd == w.foreground,
    }
}

fn max_of(pids: &Vec<i32>) -> (r: i32)
    ensures
        r == largest(pids@),
{
    if pids.len() == 0 {
        return 0;
    }
    let mut top = pids[0];
    let mut i: usize = 1;
    assert(pids@.take(1)[0] == pids@[0]);
    while i < pids.len()
        invariant
            1 <= i <= pids.len(),
            top == largest(pids@.take(i as int)),
        decreases pids.len() - i,
    {
        assert(pids@.take(i + 1).drop_last() =~= pids@.take(i as int));
        if pids[i] > top {
            top = pids[i];
        }
        i += 1;
    }
    assert(pids@.take(pids@.len() as int) =~= pids@);
    top
}

fn holds_path(paths: &[String], path: &str) -> (r: bool)
    ensures
        r == text::texts(paths@).contains(path@),
{
    let ghost ts = text::texts(paths@);
    let mut i: usize = 0;
    while i < paths.len()
        invariant
            i <= paths.len(),
            ts == text::texts(paths@),
            forall|j: int| 0 <= j < i ==> ts[j] != path@,
        decreases paths.len() - i,
    {
        assert(ts[i as int] == paths@[i as int]@);
        if same_str(paths[i].as_str(), path) {
            return true;
        }
        i += 1;
    }
    false
}

impl Daemon {
    /// A daemon without connections, and the texts of its files.
    pub fn new(config: Config, facts: StartFacts<'_>) -> (r: (Self, FileTexts))
        ensures
            is_paired(r.0@),
            r.0.config == config,
            ({
                let empty = CacheState {
                    packages: Map::empty(),
                    misses: Map::empty(),
                    dirty: false,
                };
                let (cache, stamp) = cache::reloaded(
                    empty,
                    None,
                    facts.cache,
                    facts.fingerprint,
                    text::opt_bytes(facts.listing),
                );
                let defaults = blocklist::dynamic_defaults(
                    text::opt_bytes(facts.launcher),
                    text::opt_bytes(facts.input_method),
                    text::opt_bytes(facts.accessibility),
                );
                let launcher = match facts.launcher {
                    Some(b) => blocklist::brief_package(text::words(text::lossy(b@))),
                    None => None,
                };
                &&& r.0@ == (State {
                    config,
                    terminal_file: terminal_path(config.cache_dir@),
                    has_binder: facts.binder is Some,
                    setup: Setup {
                        blocked: blocklist::resolved(text::opt_str(facts.blocklist), defaults),
                        terminals: terminal_apps::resolved(text::opt_str(facts.terminal_apps)),
                        launcher,
                        roots: resolver::v2_roots(text::opt_str(facts.mounts)),
                        cache_file: path::join(config.cache_dir@, "package_cache.txt"@),
                        stamp,
                    },
                    known: Known { cache, pids: Map::empty() },
                    pending: Set::empty(),
                    watchers: Map::empty(),
                    uids: Map::empty(),
                    monitors: Map::empty(),
                    payload: seq![],
                    max_pid: 0,
                    last: None,
                    told: Map::empty(),
                    defaults,
                })
                &&& r.1.cache is Some <==> cache::is_stale(None, facts.cache, facts.fingerprint)
                &&& r.1.cache is Some ==> cache::is_file_text(
                    r.1.cache->0@,
                    stamp,
                    cache.packages,
                )
                &&& blocklist::is_file_text(r.1.blocklist@, r.0@.setup.blocked)
            }),
    {
        let mut cache = UidCache::new(config.cache_dir.as_str());
        let saved = cache.load_or_refresh(facts.cache, facts.fingerprint, facts.listing);
        let defaults = Blocklist::resolve_defaults(
            facts.launcher,
            facts.input_method,
            facts.accessibility,
        );
        let (list, list_text) = Blocklist::load_or_create(facts.blocklist, defaults.clone());
        let terminals = TerminalApps::load_or_create(facts.terminal_apps);
        let launcher = Blocklist::resolve_launcher(facts.launcher);
        let resolver = Resolver::new(cache, list, terminals, launcher, facts.mounts);
        let mut terminal_apps_path: Vec<char> = chars_of(config.cache_dir.as_str());
        push_text(&mut terminal_apps_path, "/terminal_apps.conf");
        let daemon = Daemon {
            config,
            binder: facts.binder,
            resolver,
            pending: HashSet::new(),
            watchers: HashMap::new(),
            token_to_uid: HashMap::new(),
            cgroup_monitors: HashMap::new(),
            last_v1_payload: String::new(),
            last_max_pid: 0,
            last_package: None,
            told_packages: HashMap::new(),
            blocklist_defaults: defaults,
            terminal_apps_path: string_of(terminal_apps_path.as_slice()),
        };
        assert(daemon@.monitors =~= Map::<u64, Seq<char>>::empty());
        assert(daemon@.told =~= Map::<u32, Seq<char>>::empty());
        assert(daemon@.payload =~= Seq::<char>::empty());
        (daemon, FileTexts { cache: saved, blocklist: list_text })
    }

    /// What an event is for.
    pub fn route(&self, s: &Sources, ev: &Event) -> (r: Route)
        ensures
            r == routed(self@, *s, *ev),
    {
        if ev.token == s.socket {
            return Route::Accept;
        }
        if ev.token == s.signal {
            return Route::Signals;
        }
        if let Some(binder) = s.binder {
            if binder == ev.token {
                return Route::Observer;
            }
        }
        if ev.token == s.inotify {
            return Route::Files;
        }
        let token = ev.token.val();
        if self.pending.contains(&token) {
            return if ev.error || ev.hangup {
                Route::DropPending
            } else if ev.readable {
                Route::Dispatch
            } else {
                Route::Ignore
            };
        }
        if let Some(uid) = self.token_to_uid.get(&token) {
            return if ev.error || ev.readable || ev.hangup {
                Route::Evict(*uid)
            } else {
                Route::Ignore
            };
        }
        if self.cgroup_monitors.contains_key(&token) && ev.priority {
            Route::Monitor
        } else {
            Route::Ignore
        }
    }

    /// Take in a connection.
    pub fn accepted(&mut self, token: u64)
        ensures
            final(self)@ == (State { pending: old(self)@.pending.insert(token), ..old(self)@ }),
    {
        self.pending.insert(token);
    }

    /// Forget a connection whose request has not come.
    pub fn drop_pending(&mut self, token: u64)
        ensures
            final(self)@ == (State { pending: old(self)@.pending.remove(token), ..old(self)@ }),
    {
        self.pending.remove(&token);
    }

    /// Decide what to do about the request on a connection, from the credentials
    /// of the caller and what was read.
    pub fn dispatch(
        &mut self,
        token: u64,
        peer: Result<Option<PeerCred>, CoreError>,
        read: Result<Option<&[u8]>, CoreError>,
    ) -> (r: Dispatch)
        ensures
            final(self)@ == (State { pending: old(self)@.pending.remove(token), ..old(self)@ }),
            r == dispatched(
                old(self)@.config.daemon_uid,
                socket::requested(read),
                socket::caller(peer),
            ),
    {
        self.pending.remove(&token);
        let (command, uid) = parse_command(peer, read);
        if let Some(allowed) = self.config.daemon_uid {
            if uid != allowed {
                return Dispatch::Refused;
            }
        }
        match command {
            Command::Status => Dispatch::Status,
            Command::Watch => Dispatch::Watch(uid),
            Command::Unknown => Dispatch::Unknown,
        }
    }

    /// Whether the activity manager is to be asked for a resolution.
    pub fn asks_binder(&self, watch: bool) -> (r: bool)
        ensures
            r == (uses_binder(self@.config.resolver_mode, watch) && self@.has_binder),
    {
        watch && self.config.resolver_mode != ResolverMode::Cgroup && self.binder.is_some()
    }

    /// Whether the cgroup hierarchy is to be looked at for a resolution.
    pub fn asks_cgroup(&self, watch: bool, focused: Option<&str>) -> (r: bool)
        ensures
            r == uses_cgroup(self@, watch, text::opt_str(focused)),
    {
        if !watch || self.config.resolver_mode == ResolverMode::Cgroup {
            return true;
        }
        self.config.resolver_mode == ResolverMode::Auto && self.focused_package(focused).is_none()
    }

    fn focused_package(&self, focused: Option<&str>) -> (r: Option<String>)
        ensures
            by_binder(self@, text::opt_str(focused)) == match r {
                Some(p) => Some((p@, Seq::<Seq<char>>::empty())),
                None => None,
            },
    {
        match &self.binder {
            Some(source) => source.resolve(focused, self.resolver.blocklist()),
            None => None,
        }
    }

    /// Resolve the foreground package, for a watcher or for a status. `focused`
    /// is what the activity manager tells; `procs` and `facts` are what the
    /// cgroup hierarchy shows.
    pub fn resolve_foreground(
        &mut self,
        watch: bool,
        focused: Option<&str>,
        procs: Option<&str>,
        facts: &[ProcFacts],
    ) -> (r: Option<(String, Vec<String>)>)
        ensures
            ({
                let (known, res) = foreground(
                    old(self)@,
                    watch,
                    text::opt_str(focused),
                    text::opt_str(procs),
                    facts@,
                );
                &&& final(self)@ == (State { known, ..old(self)@ })
                &&& res_texts(r) == res
            }),
    {
        if self.asks_cgroup(watch, focused) {
            match self.resolver.resolve(procs, facts) {
                Some((package, _, paths)) => Some((package, paths)),
                None => None,
            }
        } else {
            match self.focused_package(focused) {
                Some(package) => {
                    let none: Vec<String> = Vec::new();
                    assert(text::texts(none@) =~= Seq::<Seq<char>>::empty());
                    Some((package, none))
                },
                None => None,
            }
        }
    }

    /// Answer a status request after a resolution. One that found nothing leaves
    /// the monitors.
    pub fn status(&self, res: Option<(String, Vec<String>)>) -> (r: Answer)
        ensures
            r.text is Some,
            r.text->0@ == socket::status_text(
                package_in(res_texts(res)),
                self@.known.cache.packages.dom().len(),
            ),
            monitored(r) == (if res is Some {
                Some(paths_in(res_texts(res)))
            } else {
                None
            }),
    {
        let entries = self.resolver.cache_entries();
        match res {
            Some((package, paths)) => Answer {
                text: Some(status_reply(Some(package.as_str()), entries)),
                monitor: Some(paths),
            },
            None => Answer { text: Some(status_reply(None, entries)), monitor: None },
        }
    }

    /// Answer a watch request after a resolution: the package, if there is one,
    /// whatever other watchers were told. It is the package found last from now on.
    pub fn watch(&mut self, res: Option<(String, Vec<String>)>) -> (r: Answer)
        ensures
            final(self)@ == after_watch(old(self)@, res_texts(res)),
            text::opt_text(r.text) == match package_in(res_texts(res)) {
                Some(p) => Some(socket::watch_text(p)),
                None => None,
            },
            monitored(r) == Some(paths_in(res_texts(res))),
    {
        match res {
            Some((package, paths)) => {
                let line = watch_line(package.as_str());
                self.last_package = Some(package);
                Answer { text: Some(line), monitor: Some(paths) }
            },
            None => {
                self.last_package = None;
                Self::no_answer()
            },
        }
    }

    fn no_answer() -> (r: Answer)
        ensures
            r.text is None,
            monitored(r) == Some(Seq::<Seq<char>>::empty()),
    {
        let none: Vec<String> = Vec::new();
        assert(text::texts(none@) =~= Seq::<Seq<char>>::empty());
        Answer { text: None, monitor: Some(none) }
    }

    /// Subscribe a watcher that was told of the package `shown`, if any. Returns
    /// the connection that it replaces.
    pub fn subscribe(&mut self, token: u64, uid: u32, shown: Option<String>) -> (r: Option<u64>)
        requires
            is_paired(old(self)@),
            !old(self)@.uids.contains_key(token),
        ensures
            final(self)@ == subscribed(old(self)@, token, uid, text::opt_text(shown)),
            is_paired(final(self)@),
            r == (if old(self)@.watchers.contains_key(uid) {
                Some(old(self)@.watchers[uid])
            } else {
                None
            }),
    {
        let replaced = self.evict_watcher(uid);
        let ghost mid = self@;
        self.token_to_uid.insert(token, uid);
        self.watchers.insert(uid, token);
        match shown {
            Some(package) => {
                self.told_packages.insert(uid, package);
                assert(self@.told =~= mid.told.insert(uid, package@));
            },
            None => {
                self.told_packages.remove(&uid);
                assert(self@.told =~= mid.told.remove(uid));
            },
        }
        proof {
            let st = self@;
            assert forall|u: u32| #[trigger] st.watchers.contains_key(u) implies st.uids.contains_pair(
                st.watchers[u],
                u,
            ) by {
                if u != uid {
                    assert(mid.watchers.contains_key(u));
                    assert(mid.uids.contains_pair(mid.watchers[u], u));
                }
            }
            assert forall|t: u64| #[trigger] st.uids.contains_key(t) implies st.watchers.contains_pair(
                st.uids[t],
                t,
            ) by {
                if t != token {
                    assert(mid.uids.contains_key(t));
                    assert(mid.watchers.contains_pair(mid.uids[t], t));
                }
            }
        }
        replaced
    }

    /// Whether a connection is that of a watcher.
    pub fn is_watching(&self, token: u64) -> (r: bool)
        ensures
            r == self@.uids.contains_key(token),
    {
        self.token_to_uid.contains_key(&token)
    }

    /// End the watch of `uid`. Returns its connection.
    pub fn evict_watcher(&mut self, uid: u32) -> (r: Option<u64>)
        requires
            is_paired(old(self)@),
        ensures
            final(self)@ == evicted(old(self)@, uid),
            is_paired(final(self)@),
            r == (if old(self)@.watchers.contains_key(uid) {
                Some(old(self)@.watchers[uid])
            } else {
                None
            }),
    {
        let ghost was = self@;
        let token = match self.watchers.get(&uid) {
            Some(token) => *token,
            None => return None,
        };
        self.watchers.remove(&uid);
        self.token_to_uid.remove(&token);
        self.told_packages.remove(&uid);
        assert(self@.told =~= was.told.remove(uid));
        proof {
            let st = self@;
            assert(was.watchers.contains_key(uid));
            assert forall|u: u32| #[trigger] st.watchers.contains_key(u) implies st.uids.contains_pair(
                st.watchers[u],
                u,
            ) by {
                assert(was.watchers.contains_key(u));
                assert(was.uids.contains_pair(was.watchers[u], u));
            }
            assert forall|t: u64| #[trigger] st.uids.contains_key(t) implies st.watchers.contains_pair(
                st.uids[t],
                t,
            ) by {
                assert(was.uids.contains_key(t));
                assert(was.watchers.contains_pair(was.uids[t], t));
            }
        }
        Some(token)
    }

    /// Whether anybody watches.
    pub fn has_watchers(&self) -> (r: bool)
        ensures
            r == (self@.watchers.dom().len() > 0),
    {
        self.watchers.len() > 0
    }

    /// The UIDs and connections of the watchers, each once, in some order.
    pub fn watcher_list(&self) -> (r: Vec<(u32, u64)>)
        ensures
            lists_watchers(r@, self@, self@.watchers.dom()),
    {
        let mut uids: Vec<u32> = Vec::new();
        for k in it: self.watchers.keys()
            invariant
                it.seq().unref().to_set() == self.watchers@.dom(),
                it.seq().no_duplicates(),
                uids@ == it.seq().unref().take(it.index() as int),
                it.index() == it.seq().len() ==> uids@ == it.seq().unref(),
                uids@.no_duplicates(),
        {
            assert forall|j: int| 0 <= j < uids@.len() implies uids@[j] != *k by {
                assert(it.seq()[j] != it.seq()[it.index() as int]);
            }
            uids.push(*k);
            assert(it.seq().unref().take(it.index() + 1) =~= it.seq().unref().take(
                it.index() as int,
            ).push(*k));
        }
        assert(uids@.to_set() == self.watchers@.dom());
        let mut out: Vec<(u32, u64)> = Vec::new();
        let mut i: usize = 0;
        while i < uids.len()
            invariant
                i <= uids.len(),
                uids@.no_duplicates(),
                uids@.to_set() == self.watchers@.dom(),
                out@.len() == i,
                forall|j: int|
                    0 <= j < i ==> self.watchers@.contains_pair((#[trigger] out@[j]).0, out@[j].1)
                        && out@[j].0 == uids@[j],
            decreases uids.len() - i,
        {
            let uid = uids[i];
            assert(uids@.contains(uids@[i as int]));
            assert(uids@.to_set().contains(uid));
            if let Some(token) = self.watchers.get(&uid) {
                out.push((uid, *token));
            }
            i += 1;
        }
        proof {
            assert forall|uid: u32| #[trigger] self@.watchers.contains_key(uid) implies out@.contains(
                (uid, self@.watchers[uid]),
            ) by {
                assert(uids@.to_set().contains(uid));
                let j = choose|j: int| 0 <= j < uids@.len() && uids@[j] == uid;
                assert(out@[j] == (uid, self@.watchers[uid]));
            }
        }
        out
    }

    /// Go on after a monitored group changed: one that is empty now ends what is
    /// known of processes. `events` is the content of its `cgroup.events`.
    pub fn monitor_event(&mut self, events: Option<&str>)
        ensures
            final(self)@ == (if events is Some && text::contains(events->0@, "populated 0"@) {
                State { known: Known { pids: Map::empty(), ..old(self)@.known }, ..old(self)@ }
            } else {
                old(self)@
            }),
    {
        if let Some(content) = events {
            let chars = chars_of(content);
            if contains_text(chars.as_slice(), "populated 0") {
                self.resolver.clear_pid_cache();
            }
        }
    }

    /// Load the cache again after a file changed. Returns the text to write to
    /// the cache file, if any, and whether the system's settings are to be asked
    /// for again.
    pub fn reload_cache(
        &mut self,
        file: CacheFile<'_>,
        current: Option<Fingerprint>,
        listing: Option<&[u8]>,
    ) -> (r: (Option<String>, bool))
        ensures
            ({
                let was = old(self)@;
                let (cache, stamp) = cache::reloaded(
                    was.known.cache,
                    was.setup.stamp,
                    file,
                    current,
                    text::opt_bytes(listing),
                );
                &&& final(self)@ == (State {
                    known: Known { cache, ..was.known },
                    setup: Setup { stamp, ..was.setup },
                    ..was
                })
                &&& r.0 is Some <==> cache::is_stale(was.setup.stamp, file, current)
                &&& r.0 is Some ==> cache::is_file_text(r.0->0@, stamp, cache.packages)
                &&& r.1 == (stamp != was.setup.stamp)
            }),
    {
        self.resolver.reload_cache(file, current, listing)
    }

    /// Load the blocklist and the terminals again after a file changed.
    /// `defaults` are what the system's settings put on the blocklist, where they
    /// were asked for again. Returns the text to write to the blocklist file.
    pub fn reload_lists(
        &mut self,
        defaults: Option<PackageSet>,
        list: Option<&str>,
        terminals: Option<&str>,
    ) -> (r: String)
        ensures
            ({
                let was = old(self)@;
                let dynamic = match defaults {
                    Some(d) => d@,
                    None => was.defaults,
                };
                final(self)@ == (State {
                    defaults: dynamic,
                    setup: Setup {
                        blocked: blocklist::resolved(text::opt_str(list), dynamic),
                        terminals: terminal_apps::resolved(text::opt_str(terminals)),
                        ..was.setup
                    },
                    ..was
                })
            }),
            blocklist::is_file_text(r@, final(self)@.setup.blocked),
    {
        if let Some(d) = defaults {
            self.blocklist_defaults = d;
        }
        let (blocked, list_text) = Blocklist::load_or_create(list, self.blocklist_defaults.clone());
        self.resolver.set_blocklist(blocked);
        self.resolver.set_terminal_apps(TerminalApps::load_or_create(terminals));
        list_text
    }

    /// Go on after the top-app CPUSet may have changed: whether it did.
    pub fn payload_changed(&mut self, payload: &str) -> (r: bool)
        ensures
            (final(self)@, r) == after_payload(old(self)@, payload@),
    {
        if same_str(payload, self.last_v1_payload.as_str()) {
            return false;
        }
        let pids = resolver::parse_pids(payload);
        let top = max_of(&pids);
        let last = self.last_max_pid;
        let limit: i32 = if last >= 0 {
            last / 2
        } else {
            0 - ((0 - last as i64) / 2) as i32
        };
        if top < limit {
            self.resolver.clear_pid_cache();
        }
        self.last_max_pid = top;
        self.last_v1_payload = text::copy_str(payload);
        true
    }

    /// End a round: whether the foreground package is to be resolved for the
    /// watchers. That is so if there are any, and the top-app CPUSet changed or
    /// the activity manager told of a change.
    pub fn end_turn(&mut self, turn: &Turn, payload: &str) -> (r: bool)
        ensures
            (final(self)@, r) == after_turn(old(self)@, *turn, payload@),
    {
        let changed = turn.foreground && self.payload_changed(payload);
        (changed || turn.observed) && self.has_watchers()
    }

    /// What watchers are told after a resolution, and which of them: a package that
    /// is not the one found last goes to all, and that one to those that were last
    /// told of another or of none. The list of them is in some order.
    pub fn notice(&mut self, res: Option<(String, Vec<String>)>) -> (r: (Answer, Vec<(u32, u64)>))
        ensures
            final(self)@ == after_notice(old(self)@, res_texts(res)),
            text::opt_text(r.0.text) == notice_text(old(self)@, package_in(res_texts(res))),
            monitored(r.0) == Some(paths_in(res_texts(res))),
            lists_watchers(r.1@, old(self)@, awaiting(old(self)@, package_in(res_texts(res)))),
    {
        match res {
            Some((package, paths)) => {
                let to = self.tell_all(package.as_str());
                let text = if to.len() > 0 {
                    assert(awaiting(old(self)@, Some(package@)).contains(to@[0].0));
                    Some(watch_line(package.as_str()))
                } else {
                    assert(awaiting(old(self)@, Some(package@)) =~= Set::<u32>::empty());
                    None
                };
                self.last_package = Some(package);
                (Answer { text, monitor: Some(paths) }, to)
            },
            None => {
                self.last_package = None;
                self.told_packages = HashMap::new();
                assert(self@.told =~= Map::<u32, Seq<char>>::empty());
                (Self::no_answer(), Vec::new())
            },
        }
    }

    /// Note that all watchers are told of `package`. Returns those that are to be
    /// told.
    fn tell_all(&mut self, package: &str) -> (to: Vec<(u32, u64)>)
        ensures
            final(self)@ == (State {
                told: old(self)@.watchers.map_values(|token: u64| package@),
                ..old(self)@
            }),
            lists_watchers(to@, old(self)@, awaiting(old(self)@, Some(package@))),
    {
        let ghost was = self@;
        let ghost waiting = awaiting(was, Some(package@));
        let all = self.watcher_list();
        let unchanged = match &self.last_package {
            Some(last) => same_str(last.as_str(), package),
            None => false,
        };
        let mut to: Vec<(u32, u64)> = Vec::new();
        let mut told: HashMap<u32, String> = HashMap::new();
        let mut i: usize = 0;
        while i < all.len()
            invariant
                i <= all.len(),
                self@ == was,
                waiting == awaiting(was, Some(package@)),
                unchanged == (was.last == Some(package@)),
                lists_watchers(all@, was, was.watchers.dom()),
                forall|uid: u32| #[trigger]
                    told@.contains_key(uid) ==> was.watchers.contains_key(uid) && told@[uid]@
                        == package@,
                forall|j: int| 0 <= j < i ==> told@.contains_key((#[trigger] all@[j]).0),
                forall|j: int|
                    0 <= j < i && waiting.contains((#[trigger] all@[j]).0) ==> to@.contains(all@[j]),
                forall|k: int|
                    0 <= k < to@.len() ==> waiting.contains((#[trigger] to@[k]).0)
                        && all@.take(i as int).contains(to@[k]),
                forall|k: int, l: int|
                    0 <= k < l < to@.len() ==> (#[trigger] to@[k]).0 != (#[trigger] to@[l]).0,
            decreases all.len() - i,
        {
            let (uid, token) = all[i];
            let ghost seen = to@;
            let ghost head = all@.take(i as int);
            let ghost longer = all@.take(i + 1);
            assert(all@[i as int] == (uid, token));
            assert(longer[i as int] == (uid, token));
            assert forall|x: (u32, u64)| #[trigger] head.contains(x) implies longer.contains(x)
                && x.0 != uid by {
                let j = choose|j: int| 0 <= j < head.len() && head[j] == x;
                assert(longer[j] == x);
                assert(all@[j] == x);
            }
            let knows = unchanged && match self.told_packages.get(&uid) {
                Some(last) => same_str(last.as_str(), package),
                None => false,
            };
            assert(waiting.contains(uid) == !knows);
            if !knows {
                to.push((uid, token));
                assert(to@[seen.len() as int] == (uid, token));
                assert forall|x: (u32, u64)| seen.contains(x) implies #[trigger] to@.contains(x) by {
                    let k = choose|k: int| 0 <= k < seen.len() && seen[k] == x;
                    assert(to@[k] == x);
                }
            }
            told.insert(uid, text::copy_str(package));
            i += 1;
        }
        self.told_packages = told;
        proof {
            assert forall|uid: u32| #[trigger] was.watchers.contains_key(uid) implies told@.contains_key(
                uid,
            ) by {
                assert(was.watchers.dom().contains(uid));
                let x = (uid, was.watchers[uid]);
                assert(all@.contains(x));
                let j = choose|j: int| 0 <= j < all@.len() && all@[j] == x;
                assert(told@.contains_key(all@[j].0));
            }
            assert(self@.told =~= was.watchers.map_values(|token: u64| package@));
            assert forall|uid: u32| #[trigger] waiting.contains(uid) && was.watchers.contains_key(
                uid,
            ) implies to@.contains((uid, was.watchers[uid])) by {
                assert(was.watchers.dom().contains(uid));
                let x = (uid, was.watchers[uid]);
                assert(all@.contains(x));
                let j = choose|j: int| 0 <= j < all@.len() && all@[j] == x;
                assert(to@.contains(all@[j]));
            }
            assert forall|k: int| 0 <= k < to@.len() implies was.watchers.contains_pair(
                (#[trigger] to@[k]).0,
                to@[k].1,
            ) by {
                let head = all@.take(all@.len() as int);
                assert(head.contains(to@[k]));
                let j = choose|j: int| 0 <= j < head.len() && head[j] == to@[k];
                assert(all@[j] == to@[k]);
            }
        }
        to
    }

    /// Go on after a watcher was told: one that cannot be told is gone. A write
    /// that would block is no failure. Returns the connection to close.
    pub fn told(&mut self, uid: u32, wrote: Result<Option<usize>, CoreError>) -> (r: Option<u64>)
        requires
            is_paired(old(self)@),
        ensures
            final(self)@ == (if wrote is Err {
                evicted(old(self)@, uid)
            } else {
                old(self)@
            }),
            is_paired(final(self)@),
            r == (if wrote is Err && old(self)@.watchers.contains_key(uid) {
                Some(old(self)@.watchers[uid])
            } else {
                None
            }),
    {
        if wrote.is_err() {
            self.evict_watcher(uid)
        } else {
            None
        }
    }

    /// Drop the monitors of directories that are not in `paths`. Returns their
    /// tokens.
    pub fn drop_stale_monitors(&mut self, paths: &[String]) -> (r: Vec<u64>)
        ensures
            r@.to_set() == stale_monitors(old(self)@, text::texts(paths@)),
            r@.no_duplicates(),
            final(self)@ == (State {
                monitors: old(self)@.monitors.remove_keys(
                    stale_monitors(old(self)@, text::texts(paths@)),
                ),
                ..old(self)@
            }),
    {
        let ghost was = self@;
        let ghost ps = text::texts(paths@);
        let ghost map = self.cgroup_monitors@;
        let mut stale: Vec<u64> = Vec::new();
        for t in it: self.cgroup_monitors.keys()
            invariant
                it.seq().unref().to_set() == self.cgroup_monitors@.dom(),
                it.seq().no_duplicates(),
                map == self.cgroup_monitors@,
                was == self@,
                ps == text::texts(paths@),
                stale@.no_duplicates(),
                forall|x: u64| #[trigger]
                    stale@.contains(x) <==> it.seq().unref().take(it.index() as int).contains(x)
                        && !ps.contains(was.monitors[x]),
                it.index() == it.seq().len() ==> it.seq().unref().take(it.index() as int)
                    == it.seq().unref(),
        {
            let ghost keys = it.seq().unref();
            let ghost n = it.index() as int;
            let ghost head = keys.take(n);
            proof {
                assert(keys[n] == *t);
                assert(keys.to_set().contains(*t)) by {
                    assert(keys.contains(keys[n]));
                }
                assert(self.cgroup_monitors@.contains_key(*t));
                assert(!head.contains(*t)) by {
                    if head.contains(*t) {
                        let j = choose|j: int| 0 <= j < head.len() && head[j] == *t;
                        assert(it.seq()[j] != it.seq()[n]);
                    }
                }
                assert forall|x: u64| #[trigger] keys.take(n + 1).contains(x) <==> head.contains(x)
                    || x == *t by {
                    assert(keys.take(n + 1) =~= head.push(*t));
                    let longer = keys.take(n + 1);
                    assert(longer[n] == *t);
                    if head.contains(x) {
                        let j = choose|j: int| 0 <= j < head.len() && head[j] == x;
                        assert(longer[j] == x);
                    }
                    if longer.contains(x) && x != *t {
                        let j = choose|j: int| 0 <= j < longer.len() && longer[j] == x;
                        assert(head[j] == x);
                    }
                }
            }
            let ghost before = stale@;
            let keep = match self.cgroup_monitors.get(t) {
                Some(path) => holds_path(paths, path.as_str()),
                None => true,
            };
            assert(keep == ps.contains(was.monitors[*t]));
            proof {
                assert(!before.contains(*t));
                assert forall|j: int| 0 <= j < before.len() implies before[j] != *t by {
                    assert(before.contains(before[j]));
                }
            }
            if !keep {
                stale.push(*t);
            }
            proof {
                assert forall|x: u64| #[trigger] stale@.contains(x) <==> keys.take(n + 1).contains(x)
                    && !ps.contains(was.monitors[x]) by {
                    assert(keys.take(n + 1).contains(x) <==> head.contains(x) || x == *t);
                    assert(before.contains(x) <==> head.contains(x) && !ps.contains(
                        was.monitors[x],
                    ));
                    if !keep {
                        assert(stale@ =~= before.push(*t));
                        assert(stale@[before.len() as int] == *t);
                        if before.contains(x) {
                            let j = choose|j: int| 0 <= j < before.len() && before[j] == x;
                            assert(stale@[j] == x);
                        }
                        if stale@.contains(x) && x != *t {
                            let j = choose|j: int| 0 <= j < stale@.len() && stale@[j] == x;
                            assert(before[j] == x);
                        }
                    }
                }
            }
        }
        proof {
            assert forall|x: u64| #[trigger] stale@.to_set().contains(x) <==> stale_monitors(
                was,
                ps,
            ).contains(x) by {
                assert(stale@.contains(x) <==> self.cgroup_monitors@.dom().contains(x)
                    && !ps.contains(was.monitors[x]));
            }
            assert(stale@.to_set() =~= stale_monitors(was, ps));
        }
        let mut i: usize = 0;
        assert(stale@.take(0).to_set() =~= Set::<u64>::empty());
        assert(token_texts(self.cgroup_monitors@) =~= was.monitors.remove_keys(
            stale@.take(0).to_set(),
        ));
        while i < stale.len()
            invariant
                i <= stale.len(),
                self@ == (State {
                    monitors: was.monitors.remove_keys(stale@.take(i as int).to_set()),
                    ..was
                }),
            decreases stale.len() - i,
        {
            let ghost mid = self.cgroup_monitors@;
            let token = stale[i];
            self.cgroup_monitors.remove(&token);
            proof {
                let head = stale@.take(i as int);
                let longer = stale@.take(i + 1);
                assert(longer =~= head.push(token));
                assert forall|x: u64| #[trigger] longer.contains(x) <==> head.contains(x) || x
                    == token by {
                    assert(longer[i as int] == token);
                    if head.contains(x) {
                        let j = choose|j: int| 0 <= j < head.len() && head[j] == x;
                        assert(longer[j] == x);
                    }
                    if longer.contains(x) && x != token {
                        let j = choose|j: int| 0 <= j < longer.len() && longer[j] == x;
                        assert(head[j] == x);
                    }
                }
                assert(token_texts(self.cgroup_monitors@) =~= token_texts(mid).remove(token));
                assert(token_texts(mid).remove(token) =~= was.monitors.remove_keys(
                    longer.to_set(),
                ));
            }
            i += 1;
        }
        assert(stale@.take(stale@.len() as int) =~= stale@);
        stale
    }

    /// Whether a directory has no monitor yet.
    pub fn needs_monitor(&self, path: &str) -> (r: bool)
        ensures
            r == !self@.monitors.values().contains(path@),
    {
        let mut found = false;
        let ghost st = self@;
        for t in it: self.cgroup_monitors.keys()
            invariant
                st == self@,
                it.seq().unref().to_set() == self.cgroup_monitors@.dom(),
                found ==> st.monitors.values().contains(path@),
                !found ==> forall|j: int|
                    0 <= j < it.index() ==> st.monitors[#[trigger] it.seq().unref()[j]] != path@,
                it.index() == it.seq().len() ==> (!found ==> forall|x: u64|
                    it.seq().unref().contains(x) ==> #[trigger] st.monitors[x] != path@),
        {
            let ghost keys = it.seq().unref();
            assert(keys.to_set().contains(*t)) by {
                assert(keys[it.index() as int] == *t);
                assert(keys.contains(keys[it.index() as int]));
            }
            if let Some(p) = self.cgroup_monitors.get(t) {
                if same_str(p.as_str(), path) {
                    found = true;
                    assert(st.monitors.contains_pair(*t, path@));
                }
            }
        }
        proof {
            if !found {
                assert forall|x: u64| st.monitors.contains_key(x) implies #[trigger] st.monitors[x]
                    != path@ by {
                    assert(self.cgroup_monitors@.dom().contains(x));
                }
            }
        }
        !found
    }

    /// Take in the monitor of a directory.
    pub fn monitor_added(&mut self, token: u64, path: String)
        ensures
            final(self)@ == (State {
                monitors: old(self)@.monitors.insert(token, path@),
                ..old(self)@
            }),
    {
        let ghost was = self.cgroup_monitors@;
        self.cgroup_monitors.insert(token, path);
        assert(token_texts(self.cgroup_monitors@) =~= token_texts(was).insert(token, path@));
    }
}

// ---------------------------------------------------------------------------
// Laws
// ---------------------------------------------------------------------------

/// Where a caller is named that is served, no other is answered.
pub proof fn law_only_served_callers(allowed: u32, command: Command, uid: u32)
    ensures
        dispatched(Some(allowed), command, uid) == Dispatch::Refused <==> uid != allowed,
        dispatched(None, command, uid) != Dispatch::Refused,
{
}

/// A UID has one watch: the last connection that subscribed. The watches of
/// other UIDs stay.
pub proof fn law_one_watch_per_uid(
    st: State,
    token: u64,
    uid: u32,
    shown: Option<Seq<char>>,
    other: u32,
)
    requires
        is_paired(st),
        !st.uids.contains_key(token),
        other != uid,
    ensures
        subscribed(st, token, uid, shown).watchers.contains_pair(uid, token),
        subscribed(st, token, uid, shown).watchers.contains_key(other)
            == st.watchers.contains_key(other),
        st.watchers.contains_key(other) ==> subscribed(st, token, uid, shown).watchers[other]
            == st.watchers[other],
        st.watchers.contains_key(uid) ==> !subscribed(st, token, uid, shown).uids.contains_key(
            st.watchers[uid],
        ),
        evicted(subscribed(st, token, uid, shown), uid).watchers == st.watchers.remove(uid),
{
    if st.watchers.contains_key(uid) {
        assert(st.uids.contains_pair(st.watchers[uid], uid));
    }
    assert(evicted(subscribed(st, token, uid, shown), uid).watchers =~= st.watchers.remove(uid));
}

/// A change is told to every watcher: where the package is not the one that was
/// found last, all of them are to be told. Where it is, those are that were last
/// told of another one, or of none.
pub proof fn law_changes_reach_every_watcher(st: State, package: Seq<char>, uid: u32)
    ensures
        st.last != Some(package) ==> awaiting(st, Some(package)) == st.watchers.dom(),
        st.last == Some(package) ==> (awaiting(st, Some(package)).contains(uid)
            <==> st.watchers.contains_key(uid) && !st.told.contains_pair(uid, package)),
        st.watchers.contains_key(uid) && !st.told.contains_pair(uid, package) ==> awaiting(
            st,
            Some(package),
        ).contains(uid),
        notice_text(st, Some(package)) is None ==> !awaiting(st, Some(package)).contains(uid),
{
    if st.last != Some(package) {
        assert(awaiting(st, Some(package)) =~= st.watchers.dom());
    }
}

/// After a notice all watchers were told of its package, and none is told of it
/// again until another one, or none, is found.
pub proof fn law_told_once(st: State, res: Option<(Seq<char>, Seq<Seq<char>>)>, uid: u32)
    ensures
        package_in(res) is Some && st.watchers.contains_key(uid) ==> after_notice(
            st,
            res,
        ).told.contains_pair(uid, package_in(res)->0),
        after_notice(st, res).last == package_in(res),
        awaiting(after_notice(st, res), package_in(res)) == Set::<u32>::empty(),
        notice_text(after_notice(st, res), package_in(res)) is None,
{
    let next = after_notice(st, res);
    assert(awaiting(next, package_in(res)) =~= Set::<u32>::empty());
}

/// What a new watcher is shown keeps no change from the others: whoever was not
/// last told of a package is to be told of it, and all of them of any package but
/// the one shown. The new watcher is to be told of another package only.
pub proof fn law_new_watcher_hides_nothing(
    st: State,
    token: u64,
    uid: u32,
    res: Option<(Seq<char>, Seq<Seq<char>>)>,
    package: Seq<char>,
    other: u32,
)
    requires
        other != uid,
        st.watchers.contains_key(other),
    ensures
        ({
            let shown = package_in(res);
            let next = awaiting(subscribed(after_watch(st, res), token, uid, shown), Some(package));
            &&& !st.told.contains_pair(other, package) ==> next.contains(other)
            &&& shown != Some(package) ==> next.contains(other)
            &&& next.contains(uid) <==> shown != Some(package)
        }),
{
}

/// A status is always resolved by the cgroup hierarchy; so is everything in the
/// mode for it.
pub proof fn law_status_by_cgroup(
    st: State,
    focused: Option<Seq<char>>,
    procs: Option<Seq<char>>,
    facts: Seq<ProcFacts>,
    watch: bool,
)
    requires
        !watch || st.config.resolver_mode == ResolverMode::Cgroup,
    ensures
        foreground(st, watch, focused, procs, facts) == by_cgroup(st, procs, facts),
{
}

/// For watchers, the activity manager comes first where it tells of a package
/// that is not blocked; otherwise the cgroup hierarchy stands in, but not in the
/// mode of the activity manager alone.
pub proof fn law_binder_first(
    st: State,
    focused: Option<Seq<char>>,
    procs: Option<Seq<char>>,
    facts: Seq<ProcFacts>,
)
    ensures
        st.config.resolver_mode != ResolverMode::Cgroup && by_binder(st, focused) is Some ==> foreground(
            st,
            true,
            focused,
            procs,
            facts,
        ).1 == by_binder(st, focused),
        st.config.resolver_mode == ResolverMode::Auto && by_binder(st, focused) is None ==> foreground(
            st,
            true,
            focused,
            procs,
            facts,
        ) == by_cgroup(st, procs, facts),
        st.config.resolver_mode == ResolverMode::Binder && by_binder(st, focused) is None ==> foreground(
            st,
            true,
            focused,
            procs,
            facts,
        ).1 is None,
{
}

/// No mode ever shows a blocked package.
pub proof fn law_blocked_is_never_shown(
    st: State,
    watch: bool,
    focused: Option<Seq<char>>,
    procs: Option<Seq<char>>,
    facts: Seq<ProcFacts>,
)
    ensures
        match foreground(st, watch, focused, procs, facts).1 {
            Some((package, _)) => !crate::package_set::covered(st.setup.blocked, package),
            None => true,
        },
{
    resolver::law_foreground(st.setup, st.known, resolver::top_app(procs), facts);
}

/// At the end of a round the foreground package is resolved for the watchers if
/// there are any, and the top-app CPUSet changed or the activity manager told of a
/// change; the latter counts whether the CPUSet changed or not.
pub proof fn law_resolution_is_due(st: State, turn: Turn, payload: Seq<char>)
    ensures
        after_turn(st, turn, payload).1 <==> st.watchers.dom().len() > 0 && (turn.observed || (
        turn.foreground && payload != st.payload)),
{
}

/// Whether no directory has two monitors.
pub open spec fn is_single(st: State) -> bool {
    forall|a: u64, b: u64|
        #![trigger st.monitors[a], st.monitors[b]]
        st.monitors.contains_key(a) && st.monitors.contains_key(b) && a != b ==> st.monitors[a]
            != st.monitors[b]
}

/// When the stale monitors are dropped, those of the candidates stay, and no
/// others. A directory has at most one monitor, as one is added only where there
/// is none.
pub proof fn law_monitors_follow_candidates(
    st: State,
    paths: Seq<Seq<char>>,
    token: u64,
    path: Seq<char>,
)
    requires
        is_single(st),
    ensures
        ({
            let kept = State {
                monitors: st.monitors.remove_keys(stale_monitors(st, paths)),
                ..st
            };
            &&& is_single(kept)
            &&& forall|t: u64| #[trigger]
                kept.monitors.contains_key(t) <==> st.monitors.contains_key(t) && paths.contains(
                    st.monitors[t],
                )
        }),
        !st.monitors.values().contains(path) ==> is_single(
            State { monitors: st.monitors.insert(token, path), ..st },
        ),
{
    if !st.monitors.values().contains(path) {
        assert forall|t: u64| st.monitors.contains_key(t) implies #[trigger] st.monitors[t]
            != path by {
            assert(st.monitors.contains_pair(t, st.monitors[t]));
        }
    }
}

/// A top-app CPUSet that did not change does not lead to a resolution.
pub proof fn law_same_payload_is_skipped(st: State, payload: Seq<char>)
    ensures
        !after_payload(after_payload(st, payload).0, payload).1,
        after_payload(after_payload(st, payload).0, payload).0 == after_payload(st, payload).0,
{
}

/// Where there is an activity manager and the mode lets it be asked, a watcher is
/// shown the focused package exactly, if the blocklist neither holds it nor a
/// prefix of it followed by `*`.
pub proof fn law_focus_is_shown(
    st: State,
    package: Seq<char>,
    procs: Option<Seq<char>>,
    facts: Seq<ProcFacts>,
)
    requires
        st.has_binder,
        st.config.resolver_mode != ResolverMode::Cgroup,
        !st.setup.blocked.contains(package),
        forall|prefix: Seq<char>|
            prefix.is_prefix_of(package) ==> !(#[trigger] st.setup.blocked.contains(
                prefix.push('*'),
            )),
    ensures
        foreground(st, true, Some(package), procs, facts) == (
            st.known,
            Some((package, Seq::<Seq<char>>::empty())),
        ),
{
    binder_source::law_focused_package(package, st.setup.blocked);
}

/// Where the activity manager shows nothing, be it that there is none, that
/// nothing has the focus or that what has it is blocked, the cgroup hierarchy
/// decides in the automatic mode, and nothing is shown in the mode of the activity
/// manager alone. A status, and the mode for it, go by the cgroup hierarchy.
pub proof fn law_who_decides(
    st: State,
    watch: bool,
    focused: Option<Seq<char>>,
    procs: Option<Seq<char>>,
    facts: Seq<ProcFacts>,
)
    ensures
        ({
            let silent = !st.has_binder || focused is None || st.setup.blocked.contains(focused->0)
                || exists|prefix: Seq<char>| #[trigger]
                st.setup.blocked.contains(prefix.push('*')) && prefix.is_prefix_of(focused->0);
            let (next, found) = resolver::outcome(
                st.setup,
                st.known,
                resolver::top_app(procs),
                facts,
            );
            let shown = match found {
                Some((package, _, paths)) => Some((package, paths)),
                None => None,
            };
            let mode = st.config.resolver_mode;
            &&& !watch || mode == ResolverMode::Cgroup || (mode == ResolverMode::Auto && silent)
                ==> foreground(st, watch, focused, procs, facts) == (next, shown)
            &&& watch && mode == ResolverMode::Binder && silent ==> foreground(
                st,
                watch,
                focused,
                procs,
                facts,
            ) == (st.known, None::<(Seq<char>, Seq<Seq<char>>)>)
        }),
{
    if focused is Some {
        binder_source::law_focused_package(focused->0, st.setup.blocked);
    } else {
        binder_source::law_focused_package(seq![], st.setup.blocked);
    }
}

/// The largest of the numbers is one of them, and none is larger.
pub proof fn law_largest(s: Seq<i32>)
    ensures
        s.len() > 0 ==> s.contains(largest(s)),
        forall|i: int| 0 <= i < s.len() ==> #[trigger] s[i] <= largest(s),
        s.len() == 0 ==> largest(s) == 0,
    decreases s.len(),
{
    if s.len() == 1 {
        assert(s[0] == largest(s));
    } else if s.len() > 1 {
        let head = s.drop_last();
        law_largest(head);
        let k = choose|k: int| 0 <= k < head.len() && head[k] == largest(head);
        assert(s[k] == largest(head));
        assert(s[s.len() - 1] == s.last());
        assert forall|i: int| 0 <= i < s.len() implies #[trigger] s[i] <= largest(s) by {
            if i < head.len() {
                assert(head[i] == s[i]);
            }
        }
    }
}

/// A changed top-app CPUSet is taken in with its highest PID. What is known of
/// processes is kept unless that PID is below half of the highest one before: then
/// the PIDs have started again and are those of others.
pub proof fn law_payload_is_taken_in(st: State, payload: Seq<char>)
    requires
        payload != st.payload,
        st.max_pid >= 0,
    ensures
        ({
            let (next, changed) = after_payload(st, payload);
            let pids = resolver::listed_pids(text::lines(payload));
            &&& changed
            &&& next.payload == payload
            &&& pids.len() == 0 ==> next.max_pid == 0
            &&& pids.len() > 0 ==> pids.contains(next.max_pid)
            &&& forall|i: int| 0 <= i < pids.len() ==> #[trigger] pids[i] <= next.max_pid
            &&& next.known.cache == st.known.cache
            &&& 2 * (next.max_pid + 1) <= st.max_pid ==> next.known.pids == Map::<
                i32,
                Seq<char>,
            >::empty()
            &&& 2 * (next.max_pid + 1) > st.max_pid ==> next.known.pids == st.known.pids
            &&& next.watchers == st.watchers && next.told == st.told && next.last == st.last
        }),
{
    law_largest(resolver::listed_pids(text::lines(payload)));
}

/// What an event is for: clients and signals come on their own descriptors; a
/// connection whose request is awaited is served when it can be read and dropped
/// when it fails; a watcher that speaks or fails is gone; a monitored group has
/// changed where there is priority data. All else is ignored.
pub proof fn law_routes(st: State, s: Sources, ev: Event)
    requires
        s.socket != s.signal && s.socket != s.inotify && s.signal != s.inotify,
        s.binder != Some(s.socket) && s.binder != Some(s.signal) && s.binder != Some(s.inotify),
    ensures
        routed(st, s, ev) == Route::Accept <==> ev.token == s.socket,
        routed(st, s, ev) == Route::Signals <==> ev.token == s.signal,
        routed(st, s, ev) == Route::Files <==> ev.token == s.inotify,
        routed(st, s, ev) == Route::Observer <==> s.binder == Some(ev.token),
        ev.token != s.socket && ev.token != s.signal && ev.token != s.inotify && s.binder != Some(
            ev.token,
        ) ==> {
            let t = ev.token.0;
            let failed = ev.error || ev.hangup;
            let pending = st.pending.contains(t);
            let watching = !pending && st.uids.contains_key(t);
            let monitored = !pending && !watching && st.monitors.contains_key(t);
            &&& routed(st, s, ev) == Route::DropPending <==> pending && failed
            &&& routed(st, s, ev) == Route::Dispatch <==> pending && !failed && ev.readable
            &&& routed(st, s, ev) == Route::Monitor <==> monitored && ev.priority
            &&& routed(st, s, ev) is Evict <==> watching && (failed || ev.readable)
            &&& routed(st, s, ev) is Evict ==> routed(st, s, ev) == Route::Evict(st.uids[t])
        },
{
}

/// A request is dispatched by its command; that of a caller who is not the one to
/// be served is refused.
pub proof fn law_dispatch(served: Option<u32>, uid: u32)
    requires
        served is None || served == Some(uid),
    ensures
        dispatched(served, Command::Status, uid) == Dispatch::Status,
        dispatched(served, Command::Watch, uid) == Dispatch::Watch(uid),
        dispatched(served, Command::Unknown, uid) == Dispatch::Unknown,
{
}

/// The packages, the blocklist and the terminals are loaded again when their
/// files change, and the top-app CPUSet is looked at when its file does.
pub proof fn law_file_changes(w: Watches, wd: i32)
    ensures
        changed_by(w, w.packages).refresh,
        changed_by(w, w.blocklist).refresh,
        changed_by(w, w.terminal_apps).refresh,
        changed_by(w, w.foreground).foreground,
        wd != w.packages && wd != w.blocklist && wd != w.terminal_apps ==> !changed_by(w, wd).refresh,
        wd != w.foreground ==> !changed_by(w, wd).foreground,
{
}

/// The focus is asked for only to watch, only from a binder that is there, and not
/// in cgroup mode. The processes are looked at where it is not asked for by mode,
/// and in automatic mode also where it tells of nothing to show.
pub proof fn law_what_is_asked(st: State, watch: bool, package: Seq<char>)
    ensures
        uses_binder(ResolverMode::Auto, true) && uses_binder(ResolverMode::Binder, true),
        !uses_binder(ResolverMode::Cgroup, watch),
        !uses_binder(st.config.resolver_mode, false),
        uses_cgroup(st, false, Some(package)),
        st.config.resolver_mode == ResolverMode::Cgroup ==> uses_cgroup(st, watch, Some(package)),
        st.config.resolver_mode == ResolverMode::Binder ==> !uses_cgroup(st, true, Some(package))
            && !uses_cgroup(st, true, None),
        st.config.resolver_mode == ResolverMode::Auto ==> {
            &&& uses_cgroup(st, true, None)
            &&& !st.has_binder ==> uses_cgroup(st, true, Some(package))
            &&& st.has_binder ==> (uses_cgroup(st, true, Some(package))
                <==> st.setup.blocked.contains(package) || exists|prefix: Seq<char>| #[trigger]
                st.setup.blocked.contains(prefix.push('*')) && prefix.is_prefix_of(package))
        },
{
    binder_source::law_focused_package(package, st.setup.blocked);
}

/// A list of watchers names each user that is meant and watches once, with the
/// connection it watches on, and nobody else.
pub proof fn law_watcher_lists(
    list: Seq<(u32, u64)>,
    st: State,
    uids: Set<u32>,
    uid: u32,
    token: u64,
)
    requires
        lists_watchers(list, st, uids),
    ensures
        list.contains((uid, token)) <==> uids.contains(uid) && st.watchers.contains_pair(uid, token),
        forall|i: int, j: int|
            0 <= i < list.len() && 0 <= j < list.len() && (#[trigger] list[i]).0 == (
            #[trigger] list[j]).0 ==> i == j,
{
    if list.contains((uid, token)) {
        let i = choose|i: int| 0 <= i < list.len() && list[i] == (uid, token);
        assert(uids.contains(list[i].0));
    }
    assert forall|i: int, j: int|
        0 <= i < list.len() && 0 <= j < list.len() && (#[trigger] list[i]).0 == (
        #[trigger] list[j]).0 implies i == j by {
        if i < j {
            assert(list[i].0 != list[j].0);
        } else if j < i {
            assert(list[j].0 != list[i].0);
        }
    }
}

/// A notice is due exactly to the users that watch and were not told of the
/// package since they began, or of another one last; after it each of them was told
/// of it and no one else of anything. Without a package nobody is told.
pub proof fn law_notices(
    st: State,
    package: Seq<char>,
    paths: Seq<Seq<char>>,
    uid: u32,
)
    ensures
        awaiting(st, Some(package)).contains(uid) <==> st.watchers.contains_key(uid) && (st.last
            != Some(package) || !st.told.contains_key(uid) || st.told[uid] != package),
        awaiting(st, None) == Set::<u32>::empty(),
        awaiting(st, Some(package)).contains(uid) ==> notice_text(st, Some(package)) == Some(
            socket::watch_text(package),
        ),
        notice_text(st, Some(package)) is Some ==> exists|u: u32|
            awaiting(st, Some(package)).contains(u),
        notice_text(st, None) is None,
        after_notice(st, Some((package, paths))).last == Some(package),
        after_notice(st, Some((package, paths))).told.contains_pair(uid, package)
            <==> st.watchers.contains_key(uid),
        after_notice(st, Some((package, paths))).told.contains_key(uid)
            <==> st.watchers.contains_key(uid),
        after_notice(st, None).last is None && !after_notice(st, None).told.contains_key(uid),
        after_watch(st, Some((package, paths))) == (State { last: Some(package), ..st }),
        after_watch(st, None) == (State { last: None, ..st }),
        package_in(Some((package, paths))) == Some(package) && paths_in(Some((package, paths)))
            == paths,
        package_in(None) is None && paths_in(None) == Seq::<Seq<char>>::empty(),
{
    let all = awaiting(st, Some(package));
    if notice_text(st, Some(package)) is Some {
        if forall|u: u32| !all.contains(u) {
            assert(all =~= Set::<u32>::empty());
        }
    }
}

/// The list of terminal apps stands in the directory of the cache.
pub proof fn law_terminal_file(cache_dir: Seq<char>)
    ensures
        terminal_path(cache_dir) == cache_dir + "/terminal_apps.conf"@,
{
}

} // verus!
