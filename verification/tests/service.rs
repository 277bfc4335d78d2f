use coreshift_foreground::binder_source::{BinderForegroundSource, BinderReplies, TxCodes};
use coreshift_foreground::blocklist::Blocklist;
use coreshift_foreground::cache::{CacheFile, Fingerprint};
use coreshift_foreground::cli::{
    client_step, consumer_name, parse_args, result_line, trace_line, ClientStep, Invocation,
};
use coreshift_foreground::config::{Config, ResolverMode};
use coreshift_foreground::daemon::{
    check_running, ends_daemon, file_changed, takes_in, Daemon, Dispatch, FileTexts, Route,
    Sources, StartFacts, Turn, Watches,
};
use coreshift_foreground::error::CoreError;
use coreshift_foreground::package_set::PackageSet;
use coreshift_foreground::reactor::{Event, Token};
use coreshift_foreground::resolver::{GroupFacts, ProcFacts, TraceEntry};
use coreshift_foreground::socket::{
    parse_command, status_reply, watch_line, Command, FG_SOCKET, PM_CONSUMER, UNKNOWN_REPLY,
    WD_CONSUMER,
};
use coreshift_foreground::spawn::process::ExitStatus;
use coreshift_foreground::supervisor::{parse_pid_file, Supervisor, Verdict};
use coreshift_foreground::unix_socket::PeerCred;

// Configuration

#[test]
fn configurations_have_defaults() {
    for c in [Config::default(), Config::load(None), Config::load(Some("# none\n=\nx\n"))] {
        assert_eq!(c.cache_dir, "/data/local/tmp/coreshift/");
        assert_eq!(c.blocklist_path, "/data/local/tmp/coreshift/blocklist.conf");
        assert_eq!(c.packages_xml_path, "/data/system/packages.xml");
        assert_eq!(c.socket_name, "coreshift");
        assert_eq!(c.resolver_mode, ResolverMode::Auto);
        assert_eq!(c.daemon_uid, None);
    }
}

#[test]
fn configurations_are_loaded() {
    let c = Config::load(Some(
        " cache_dir = /tmp/a \nsocket_name=x=y\n#socket_name = no\npackages_xml_path =\n\
         resolver_mode = binder\nresolver_mode = bad\ndaemon_uid = 2000\ndaemon_uid = -1\n\
         cache_dir=/tmp/b\nother = 1\n",
    ));
    assert_eq!(c.cache_dir, "/tmp/b");
    assert_eq!(c.blocklist_path, "/tmp/b/blocklist.conf");
    assert_eq!(c.packages_xml_path, "");
    assert_eq!(c.socket_name, "x=y");
    assert_eq!(c.resolver_mode, ResolverMode::Binder);
    assert_eq!(c.daemon_uid, Some(2000));
    let c = Config::load(Some("blocklist_path = /b\r\nresolver_mode = cgroup\r\n")).clone();
    assert_eq!((c.blocklist_path.as_str(), c.resolver_mode), ("/b", ResolverMode::Cgroup));
    assert_eq!(ResolverMode::from_str("auto"), Some(ResolverMode::Auto));
    assert_eq!(ResolverMode::from_str("Auto"), None);
}

// Requests

fn peer(uid: u32) -> Result<Option<PeerCred>, CoreError> {
    Ok(Some(PeerCred { pid: Some(1), uid, gid: 0 }))
}

#[test]
fn requests_are_parsed() {
    let failed = || CoreError::sys(9, "read");
    assert_eq!(parse_command(peer(7), Ok(Some(b"status"))), (Command::Status, 7));
    assert_eq!(parse_command(peer(7), Ok(Some(b" watch\n"))), (Command::Watch, 7));
    assert_eq!(parse_command(Ok(None), Ok(Some(b"Watch"))), (Command::Unknown, 0));
    assert_eq!(parse_command(Err(failed()), Ok(Some(b"status\xff"))), (Command::Unknown, 0));
    assert_eq!(parse_command(peer(7), Ok(None)), (Command::Unknown, 7));
    assert_eq!(parse_command(peer(7), Err(failed())), (Command::Unknown, 7));
}

#[test]
fn replies_are_lines() {
    assert_eq!(status_reply(Some("com.a"), 12), "foreground: com.a\ncache_entries: 12\n");
    assert_eq!(status_reply(None, 12), "foreground: unknown\ncache_entries: 0\n");
    assert_eq!(UNKNOWN_REPLY, "unknown command\n");
    assert_eq!(watch_line("com.a"), "com.a\n");
    assert_eq!(FG_SOCKET, "coreshift");
    assert_eq!(WD_CONSUMER, "coreshift_wd_consumer");
    assert_eq!(PM_CONSUMER, "coreshift_pm_consumer");
}

// The activity manager

#[test]
fn binders_are_opened_with_an_observer_if_possible() {
    let source = BinderForegroundSource {};
    assert_eq!(BinderForegroundSource::try_open(Some(5), false), Some((source, Some(5))));
    assert_eq!(BinderForegroundSource::try_open(None, true), Some((source, None)));
    assert_eq!(BinderForegroundSource::try_open(None, false), None);
    let (list, _) = Blocklist::load_or_create(Some("com.b"), PackageSet::new());
    assert_eq!(source.resolve(Some("com.a"), &list).as_deref(), Some("com.a"));
    assert_eq!(source.resolve(Some("com.b"), &list), None);
    assert_eq!(source.resolve(None, &list), None);
}

fn binder_trace(replies: BinderReplies) -> Vec<String> {
    let (list, _) = Blocklist::load_or_create(Some("com.b"), PackageSet::new());
    let trace = BinderForegroundSource::debug_trace(&replies, &list);
    trace.iter().map(trace_line).collect()
}

#[test]
fn binder_traces_tell_of_each_step() {
    let codes = TxCodes { observer_code: 1, query_code: 22, api_mode: 3, fg_code: 40 };
    let why = |s: &str| s.to_string();
    assert_eq!(
        binder_trace(BinderReplies {
            codes: Err(why("no jar")),
            observed: Ok(()),
            plain: Ok(()),
            focused: Ok(None),
        }),
        ["\u{2717} binder:tx-codes: no jar"]
    );
    assert_eq!(
        binder_trace(BinderReplies {
            codes: Ok(codes),
            observed: Ok(()),
            plain: Err(why("unused")),
            focused: Ok(Some(why("com.b"))),
        }),
        [
            "\u{2713} binder:tx-codes: observer=1 query=22 api_mode=3 fg=40",
            "\u{2713} binder:open-with-observer: ok \u{2014} observer registered",
            "\u{2717} binder:get-focused: com.b (blocked=true)",
        ]
    );
    assert_eq!(
        binder_trace(BinderReplies {
            codes: Ok(codes),
            observed: Err(why("denied")),
            plain: Ok(()),
            focused: Ok(Some(why("com.a"))),
        })[1..],
        [
            "\u{2717} binder:open-with-observer: denied",
            "\u{2713} binder:open: ok (polling mode)",
            "\u{2713} binder:get-focused: com.a (blocked=false)",
        ]
    );
    let ends = |plain, focused| {
        let replies = BinderReplies { codes: Ok(codes), observed: Err(why("x")), plain, focused };
        binder_trace(replies).pop().unwrap()
    };
    assert_eq!(ends(Err(why("dead")), Ok(None)), "\u{2717} binder:open: dead");
    assert_eq!(
        ends(Ok(()), Ok(None)),
        "\u{2717} binder:get-focused: returned None (no focused task)"
    );
    assert_eq!(ends(Ok(()), Err(why("late"))), "\u{2717} binder:get-focused: late");
}

// The daemon

fn started(mode: ResolverMode, served: Option<u32>, binder: bool) -> (Daemon, FileTexts) {
    let mut config = Config::default();
    config.resolver_mode = mode;
    config.daemon_uid = served;
    Daemon::new(
        config,
        StartFacts {
            cache: CacheFile::Missing,
            fingerprint: Some(Fingerprint { len: 1, modified_ns: 2 }),
            listing: Some(b"x=com.one uid:10001\n"),
            launcher: Some(b"package=com.home"),
            input_method: None,
            accessibility: None,
            blocklist: Some("com.blocked\n"),
            terminal_apps: None,
            mounts: None,
            binder: if binder { Some(BinderForegroundSource {}) } else { None },
        },
    )
}

fn daemon() -> Daemon {
    started(ResolverMode::Cgroup, None, false).0
}

fn one() -> [ProcFacts; 1] {
    [ProcFacts {
        pid: 5,
        cgroup: Ok("0::/g\n".to_string()),
        groups: vec![GroupFacts {
            path: "/sys/fs/cgroup/g".to_string(),
            events: Ok("populated 1\n".to_string()),
        }],
        uid: Ok(10001),
        cmdline: None,
        oom_score_adj: Some("0".to_string()),
        listing: None,
    }]
}

fn found(package: &str) -> Option<(String, Vec<String>)> {
    Some((package.to_string(), vec!["/g".to_string()]))
}

#[test]
fn daemons_start_from_their_files() {
    let (daemon, texts) = started(ResolverMode::Auto, None, false);
    assert_eq!(texts.cache.as_deref(), Some("FINGERPRINT 1 2\n10001 com.one\n"));
    assert!(texts.blocklist.contains("\ncom.home\n"));
    assert!(texts.blocklist.contains("\ncom.blocked\n"));
    assert_eq!(daemon.terminal_apps_path, "/data/local/tmp/coreshift//terminal_apps.conf");
    assert!(!daemon.has_watchers());
    assert!(check_running(false).is_ok());
    assert_eq!(check_running(true).unwrap_err().raw_os_error(), Some(libc::EADDRINUSE));
    assert!(ends_daemon(libc::SIGTERM as u32) && ends_daemon(libc::SIGINT as u32));
    assert!(!ends_daemon(libc::SIGCHLD as u32));
    assert!(takes_in(16) && !takes_in(17));
}

#[test]
fn daemons_load_a_cache_that_is_current() {
    let file = "FINGERPRINT 1 2\n10001 com.kept\n";
    let (daemon, texts) = Daemon::new(
        Config::default(),
        StartFacts {
            cache: CacheFile::Readable(file),
            fingerprint: Some(Fingerprint { len: 1, modified_ns: 2 }),
            listing: None,
            launcher: None,
            input_method: None,
            accessibility: None,
            blocklist: None,
            terminal_apps: None,
            mounts: None,
            binder: None,
        },
    );
    assert_eq!(texts.cache, None);
    assert_eq!(daemon.resolver.cache_entries(), 1);
}

fn event(token: u64) -> Event {
    Event {
        token: Token(token),
        readable: false,
        priority: false,
        writable: false,
        error: false,
        hangup: false,
    }
}

#[test]
fn events_are_routed() {
    let mut d = daemon();
    let s = Sources {
        socket: Token(1),
        signal: Token(2),
        inotify: Token(3),
        binder: Some(Token(4)),
    };
    d.accepted(10);
    d.subscribe(11, 7, None);
    d.monitor_added(12, "/g".to_string());
    assert_eq!(d.route(&s, &event(1)), Route::Accept);
    assert_eq!(d.route(&s, &event(2)), Route::Signals);
    assert_eq!(d.route(&s, &event(3)), Route::Files);
    assert_eq!(d.route(&s, &event(4)), Route::Observer);
    assert_eq!(d.route(&s, &event(10)), Route::Ignore);
    let readable = |t| Event { readable: true, ..event(t) };
    assert_eq!(d.route(&s, &readable(10)), Route::Dispatch);
    assert_eq!(d.route(&s, &Event { hangup: true, ..readable(10) }), Route::DropPending);
    assert_eq!(d.route(&s, &Event { error: true, ..readable(10) }), Route::DropPending);
    assert_eq!(d.route(&s, &readable(11)), Route::Evict(7));
    assert_eq!(d.route(&s, &Event { writable: true, ..event(11) }), Route::Ignore);
    assert_eq!(d.route(&s, &Event { priority: true, ..event(12) }), Route::Monitor);
    assert_eq!(d.route(&s, &readable(12)), Route::Ignore);
    assert_eq!(d.route(&s, &readable(99)), Route::Ignore);
    d.drop_pending(10);
    assert_eq!(d.route(&s, &readable(10)), Route::Ignore);
    let none = Sources { binder: None, ..s };
    assert_eq!(d.route(&none, &event(4)), Route::Ignore);
}

#[test]
fn only_the_named_caller_is_served() {
    let (mut d, _) = started(ResolverMode::Auto, Some(2000), false);
    assert_eq!(d.dispatch(1, peer(2000), Ok(Some(b"status"))), Dispatch::Status);
    assert_eq!(d.dispatch(1, peer(2000), Ok(Some(b"watch"))), Dispatch::Watch(2000));
    assert_eq!(d.dispatch(1, peer(2001), Ok(Some(b"status"))), Dispatch::Refused);
    assert_eq!(d.dispatch(1, Ok(None), Ok(Some(b"status"))), Dispatch::Refused);
    let mut open = daemon();
    open.accepted(1);
    assert_eq!(open.dispatch(1, peer(2001), Ok(Some(b"hello"))), Dispatch::Unknown);
    assert!(open.pending.is_empty());
}

#[test]
fn modes_decide_who_is_asked() {
    let procs = Some("5\n");
    let package = |d: &mut Daemon, watch, focused| {
        d.resolve_foreground(watch, focused, procs, &one()).map(|(p, _)| p)
    };
    let (mut auto, _) = started(ResolverMode::Auto, None, true);
    assert!(auto.asks_binder(true) && !auto.asks_binder(false));
    assert_eq!(package(&mut auto, true, Some("com.focus")).as_deref(), Some("com.focus"));
    assert_eq!(package(&mut auto, true, Some("com.blocked")).as_deref(), Some("com.one"));
    assert_eq!(package(&mut auto, true, None).as_deref(), Some("com.one"));
    assert_eq!(package(&mut auto, false, Some("com.focus")).as_deref(), Some("com.one"));

    let (mut binder, _) = started(ResolverMode::Binder, None, true);
    assert_eq!(package(&mut binder, true, Some("com.focus")).as_deref(), Some("com.focus"));
    assert_eq!(package(&mut binder, true, Some("com.blocked")), None);
    assert!(!binder.asks_cgroup(true, None) && binder.asks_cgroup(false, None));
    assert_eq!(package(&mut binder, false, None).as_deref(), Some("com.one"));

    let (mut none, _) = started(ResolverMode::Binder, None, false);
    assert!(!none.asks_binder(true));
    assert_eq!(package(&mut none, true, Some("com.focus")), None);

    let (mut cgroup, _) = started(ResolverMode::Cgroup, None, true);
    assert_eq!(package(&mut cgroup, true, Some("com.focus")).as_deref(), Some("com.one"));
    let res = cgroup.resolve_foreground(true, None, procs, &one());
    assert_eq!(res.unwrap().1, ["/sys/fs/cgroup/g"]);
}

#[test]
fn answers_tell_the_package_and_the_monitors() {
    let mut d = daemon();
    let a = d.status(found("com.one"));
    assert_eq!(a.text.as_deref(), Some("foreground: com.one\ncache_entries: 1\n"));
    assert_eq!(a.monitor, Some(vec!["/g".to_string()]));
    let a = d.status(None);
    assert_eq!(a.text.as_deref(), Some("foreground: unknown\ncache_entries: 0\n"));
    assert_eq!(a.monitor, None);

    let a = d.watch(found("com.one"));
    assert_eq!((a.text.as_deref(), a.monitor.map(|m| m.len())), (Some("com.one\n"), Some(1)));
    d.subscribe(10, 7, Some("com.one".to_string()));
    let (a, to) = d.notice(found("com.one"));
    assert_eq!((a.text, a.monitor.map(|m| m.len()), to), (None, Some(1), vec![]));
    let (a, to) = d.notice(found("com.two"));
    assert_eq!((a.text.as_deref(), to), (Some("com.two\n"), vec![(7, 10)]));
    let (a, to) = d.notice(None);
    assert_eq!((a.text, a.monitor, to), (None, Some(vec![]), vec![]));
    assert_eq!(d.notice(found("com.two")).0.text.as_deref(), Some("com.two\n"));
    let a = d.watch(None);
    assert_eq!((a.text, a.monitor), (None, Some(vec![])));
}

fn watch(d: &mut Daemon, token: u64, uid: u32, package: Option<&str>) {
    let answer = d.watch(package.and_then(found));
    assert_eq!(answer.text, package.map(|p| format!("{p}\n")));
    d.subscribe(token, uid, package.map(str::to_string));
}

fn told_of(d: &mut Daemon, package: &str) -> Vec<(u32, u64)> {
    let (answer, mut to) = d.notice(found(package));
    to.sort();
    assert_eq!(answer.text, if to.is_empty() { None } else { Some(format!("{package}\n")) });
    to
}

#[test]
fn new_watchers_hide_no_change_from_others() {
    let mut d = daemon();
    watch(&mut d, 10, 7, Some("com.one"));
    watch(&mut d, 11, 8, Some("com.two"));
    assert_eq!(told_of(&mut d, "com.two"), [(7, 10)]);
    assert_eq!(told_of(&mut d, "com.two"), []);
    watch(&mut d, 12, 8, Some("com.two"));
    assert_eq!(told_of(&mut d, "com.two"), []);
}

#[test]
fn changes_are_told_to_every_watcher() {
    let mut d = daemon();
    watch(&mut d, 10, 7, Some("com.one"));
    assert_eq!(told_of(&mut d, "com.one"), []);
    assert_eq!(told_of(&mut d, "com.two"), [(7, 10)]);

    // What a new watcher was shown in passing counts as a change, there and back.
    watch(&mut d, 11, 8, Some("com.three"));
    assert_eq!(told_of(&mut d, "com.two"), [(7, 10), (8, 11)]);
    assert_eq!(told_of(&mut d, "com.two"), []);

    // So does that nothing was found.
    watch(&mut d, 12, 9, None);
    assert_eq!(told_of(&mut d, "com.two"), [(7, 10), (8, 11), (9, 12)]);
    d.notice(None);
    assert_eq!(told_of(&mut d, "com.two"), [(7, 10), (8, 11), (9, 12)]);
}

#[test]
fn each_uid_has_one_watch() {
    let mut d = daemon();
    assert_eq!(d.subscribe(10, 7, None), None);
    assert_eq!(d.subscribe(11, 8, None), None);
    assert_eq!(d.subscribe(12, 7, None), Some(10));
    assert!(!d.is_watching(10) && d.is_watching(11) && d.is_watching(12));
    let mut list = d.watcher_list();
    list.sort();
    assert_eq!(list, [(7, 12), (8, 11)]);
    assert_eq!(d.told(7, Ok(Some(3))), None);
    assert_eq!(d.told(7, Ok(None)), None);
    assert_eq!(d.told(7, Err(CoreError::sys(libc::EPIPE, "write"))), Some(12));
    assert_eq!(d.evict_watcher(7), None);
    assert_eq!(d.evict_watcher(8), Some(11));
    assert!(!d.has_watchers());
}

#[test]
fn rounds_end_in_a_resolution_when_something_changed() {
    let w = Watches { packages: 1, blocklist: 2, terminal_apps: 3, foreground: 4 };
    assert!(file_changed(&w, 1).refresh && file_changed(&w, 2).refresh);
    assert!(file_changed(&w, 3).refresh && !file_changed(&w, 3).foreground);
    assert!(file_changed(&w, 4).foreground && !file_changed(&w, 4).refresh);

    let mut d = daemon();
    let mut turn = Turn::new();
    assert!(!d.end_turn(&turn, "5\n"));
    turn.file_changed(&w, 4);
    turn.file_changed(&w, 9);
    assert!(turn.foreground && !turn.refresh);
    assert!(!d.end_turn(&turn, "5\n"));
    d.subscribe(10, 7, None);
    assert!(!d.end_turn(&turn, "5\n"));
    assert!(d.end_turn(&turn, "6\n5\n"));
    assert!(!d.end_turn(&turn, "6\n5\n"));
    turn.observe();
    assert!(d.end_turn(&turn, "6\n5\n"));
    let mut seen = Turn::new();
    seen.observe();
    assert!(d.end_turn(&seen, "ignored"));
}

#[test]
fn processes_are_forgotten_when_pids_start_again() {
    let resolved = |d: &mut Daemon, uid: u32| {
        let mut facts = one();
        facts[0].uid = Ok(uid);
        d.resolve_foreground(true, None, Some("5\n"), &facts).map(|(p, _)| p)
    };
    let mut d = daemon();
    assert!(d.payload_changed("5\n100\n"));
    assert_eq!(resolved(&mut d, 10001).as_deref(), Some("com.one"));
    assert_eq!(resolved(&mut d, 1000).as_deref(), Some("com.one"));
    assert!(d.payload_changed("50\n"));
    assert_eq!(resolved(&mut d, 1000).as_deref(), Some("com.one"));
    assert!(d.payload_changed("24\n"));
    assert_eq!(resolved(&mut d, 1000), None);
    assert!(!d.payload_changed("24\n"));
    assert_eq!(d.last_max_pid, 24);
    assert!(d.payload_changed(""));
    assert_eq!(d.last_max_pid, 0);

    assert_eq!(resolved(&mut d, 10001).as_deref(), Some("com.one"));
    d.monitor_event(Some("populated 1\n"));
    d.monitor_event(None);
    assert_eq!(resolved(&mut d, 1000).as_deref(), Some("com.one"));
    d.monitor_event(Some("populated 0\nfrozen 0\n"));
    assert_eq!(resolved(&mut d, 1000), None);
}

#[test]
fn monitors_follow_the_candidates() {
    let mut d = daemon();
    let path = |p: &str| p.to_string();
    assert!(d.needs_monitor("/a"));
    d.monitor_added(1, path("/a"));
    d.monitor_added(2, path("/b"));
    d.monitor_added(3, path("/c"));
    assert!(!d.needs_monitor("/a"));
    let mut dropped = d.drop_stale_monitors(&[path("/b"), path("/d")]);
    dropped.sort();
    assert_eq!(dropped, [1, 3]);
    assert!(d.needs_monitor("/a") && !d.needs_monitor("/b") && d.needs_monitor("/d"));
    assert_eq!(d.drop_stale_monitors(&[]), [2]);
}

#[test]
fn files_are_loaded_again() {
    let mut d = daemon();
    let stamp = Some(Fingerprint { len: 1, modified_ns: 2 });
    let file = "FINGERPRINT 1 2\n10001 com.one\n10002 com.two\n";
    assert_eq!(d.reload_cache(CacheFile::Readable(file), stamp, None), (None, false));
    assert_eq!(d.resolver.cache_entries(), 2);
    let next = Some(Fingerprint { len: 9, modified_ns: 2 });
    let (text, changed) = d.reload_cache(CacheFile::Readable(file), next, Some(b"x=com.x uid:1\n"));
    assert_eq!((text.as_deref(), changed), (Some("FINGERPRINT 9 2\n1 com.x\n"), true));

    let text = d.reload_lists(None, Some("com.new\n-com.home"), Some("com.term"));
    assert!(text.contains("\ncom.new\n") && !text.contains("com.home"));
    assert!(d.resolver.blocklist().is_blocked("com.new"));
    let mut defaults = PackageSet::new();
    defaults.insert("com.ime".to_string());
    let text = d.reload_lists(Some(defaults), None, None);
    assert!(text.contains("\ncom.ime\n") && !text.contains("com.new"));
    let text = d.reload_lists(None, None, None);
    assert!(text.contains("\ncom.ime\n"));
}

// Supervision

const MS: u128 = 1_000_000;

#[test]
fn daemons_are_restarted_with_a_growing_delay() {
    let mut s = Supervisor::new();
    let crash = Some(ExitStatus::Signaled(11));
    let restart = |backoff_ms, new_window| Verdict::Restart { backoff_ms, new_window };
    assert_eq!(s.ended(crash, 0), restart(500, false));
    assert_eq!(s.ended(Some(ExitStatus::Exited(1)), 9_000 * MS), restart(1000, false));
    assert_eq!(s.ended(None, 10_000 * MS), restart(1500, false));
    assert_eq!(s.ended(Some(ExitStatus::Exited(0)), 0), Verdict::Stopped);
    assert_eq!(s.ended(crash, 1), restart(2000, false));
    let mut late = s;
    assert_eq!(s.ended(crash, 2), Verdict::GiveUp);
    assert_eq!(late.ended(crash, 10_000 * MS + 1), restart(500, true));
    assert_eq!(parse_pid_file(" 123\n"), Some(123));
    assert_eq!(parse_pid_file("12a"), None);
    assert_eq!(parse_pid_file(""), None);
}

// The command line

fn parsed(args: &[&str]) -> String {
    let mut all = vec!["coreshift-foreground".to_string()];
    all.extend(args.iter().map(|a| a.to_string()));
    format!("{:?}", parse_args(&all))
}

#[test]
fn command_lines_are_parsed() {
    assert!(matches!(parse_args(&vec![]), Invocation::Usage));
    assert_eq!(parsed(&[]), "Usage");
    assert_eq!(parsed(&["help"]), "Usage");
    assert_eq!(parsed(&["status"]), "Status");
    assert_eq!(parsed(&["watch", "x"]), "Watch");
    assert_eq!(parsed(&["stop"]), "Stop");
    assert_eq!(parsed(&["restart"]), "Restart");
    assert_eq!(parsed(&["resolve"]), "Resolve { debug: false }");
    assert_eq!(parsed(&["resolve", "x", "--debug"]), "Resolve { debug: true }");
    assert_eq!(parsed(&["daemon"]), "Daemon(None)");
    assert_eq!(parsed(&["daemon", "--resolver=cgroup"]), "Daemon(Some(Cgroup))");
    assert_eq!(
        parsed(&["daemon", "--resolver=cgroup", "-v", "--resolver=binder"]),
        "Daemon(Some(Binder))"
    );
    assert_eq!(
        parsed(&["daemon", "--resolver=", "--resolver=bad", "--resolver=auto"]),
        "UnknownResolver(\"\")"
    );
}

#[test]
fn clients_show_what_they_read() {
    assert_eq!(consumer_name("coreshift"), "coreshift_consumer");
    assert_eq!(client_step(false, Some(5)), ClientStep::ShowAndEnd);
    assert_eq!(client_step(true, Some(5)), ClientStep::ShowAndWait);
    assert_eq!(client_step(true, Some(0)), ClientStep::End);
    assert_eq!(client_step(false, None), ClientStep::Wait);
}

#[test]
fn results_are_shown() {
    let result = Some(("com.a".to_string(), true, vec![]));
    assert_eq!(result_line(false, &result), "com.a");
    assert_eq!(result_line(true, &result), "foreground: com.a (is_app=true)");
    assert_eq!(result_line(false, &None), "unknown");
    assert_eq!(result_line(true, &None), "foreground: unknown");
    let step = |pid, pass| TraceEntry { pid, stage: "s", detail: "d".to_string(), pass };
    assert_eq!(trace_line(&step(0, true)), "\u{2713} s: d");
    assert_eq!(trace_line(&step(-5, false)), "\u{2717} [-5] s: d");
}
