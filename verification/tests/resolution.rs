use coreshift_foreground::blocklist::{
    brief_of, parse_package_from_brief, parse_package_from_component,
    parse_package_from_component_str, Blocklist,
};
use coreshift_foreground::cache::{parse_package_list, CacheFile, Fingerprint, UidCache};
use coreshift_foreground::error::CoreError;
use coreshift_foreground::fs::PathFingerprint;
use coreshift_foreground::package_set::PackageSet;
use coreshift_foreground::path::join_path;
use coreshift_foreground::resolver::{
    discover_cgroup_v2_roots, get_v1_top_app_pids, GroupFacts, ProcFacts, Resolver, TraceEntry,
};
use coreshift_foreground::terminal_apps::TerminalApps;

// Package listings and the cache

#[test]
fn test_parse_package_list() {
    let stdout = "package:/data/app/com.example-1/base.apk=com.example uid:10123\n                      package:/system/priv-app/SystemUI/SystemUI.apk=com.android.systemui uid:1000";
    let mapping = parse_package_list(stdout);
    assert_eq!(mapping.get(&10123).unwrap(), "com.example");
    assert_eq!(mapping.get(&1000).unwrap(), "com.android.systemui");
}

#[test]
fn listing_lines_are_read_from_their_ends() {
    let mapping = parse_package_list(
        "package:/a=b/base.apk=com.a uid:1\npackage:/c=com.c uid:2,3\nno uid here=com.d\n\
         word uid:4\n=  uid:5\npackage:/uid:9/x=com.e uid:6\npackage:/a=com.b uid:1\n",
    );
    assert_eq!(mapping.len(), 4);
    assert_eq!(mapping.get(&1).unwrap(), "com.b");
    assert_eq!(mapping.get(&4).unwrap(), "word");
    assert_eq!(mapping.get(&5).unwrap(), "uid:5");
    assert_eq!(mapping.get(&6).unwrap(), "com.e");
}

const LISTING: &[u8] = b"package:/a=com.example uid:10123\npackage:/b=com.other uid:10124\n";

#[test]
fn fingerprints_are_collected() {
    let fp = Fingerprint::collect(Ok(PathFingerprint { len: 3, modified_ns: 4 }));
    assert_eq!(fp, Some(Fingerprint { len: 3, modified_ns: 4 }));
    assert_eq!(Fingerprint::collect(Err(CoreError::sys(2, "metadata"))), None);
}

#[test]
fn caches_are_refreshed_saved_and_read_back() {
    let stamp = Some(Fingerprint { len: 7, modified_ns: u128::MAX });
    let mut cache = UidCache::new("/data/cache");
    assert_eq!(cache.cache_path(), "/data/cache/package_cache.txt");
    assert!(cache.needs_refresh(&CacheFile::Missing, None));
    assert!(!cache.needs_refresh(&CacheFile::Unreadable, None));
    assert!(cache.needs_refresh(&CacheFile::Unreadable, stamp));
    assert!(cache.needs_refresh(&CacheFile::Readable("10123 com.example\n"), stamp));
    assert!(cache.needs_refresh(&CacheFile::Readable("FINGERPRINT 7 8\n"), stamp));

    let text = cache.load_or_refresh(CacheFile::Missing, stamp, Some(LISTING)).unwrap();
    let mut lines: Vec<&str> = text.lines().collect();
    assert_eq!(lines[0], "FINGERPRINT 7 340282366920938463463374607431768211455");
    lines[1..].sort();
    assert_eq!(lines[1..], ["10123 com.example", "10124 com.other"]);
    assert_eq!((cache.entries(), cache.fingerprint()), (2, stamp));

    assert_eq!(cache.load_or_refresh(CacheFile::Readable(&text), stamp, None), None);
    assert_eq!((cache.entries(), cache.fingerprint()), (2, stamp));

    let mut other = UidCache::new("/data/cache");
    other.load_from_file(&text);
    assert_eq!((other.entries(), other.fingerprint()), (2, stamp));
    assert_eq!(other.mapping.get(&10124).unwrap(), "com.other");

    assert_eq!(other.load_or_refresh(CacheFile::Unreadable, stamp, None), None);
    assert_eq!(other.entries(), 2);
    let emptied = other.load_or_refresh(CacheFile::Readable(&text), None, Some(b"")).unwrap();
    assert_eq!(emptied, "");
    assert_eq!(other.entries(), 0);
}

#[test]
fn caches_are_loaded_from_files_that_are_current() {
    let file = "FINGERPRINT 10 20\n10123 com.example\n";
    let current = Some(Fingerprint { len: 10, modified_ns: 20 });
    let mut cache = UidCache::new("/data/cache");
    assert!(!cache.needs_refresh(&CacheFile::Readable(file), current));
    assert_eq!(cache.load_or_refresh(CacheFile::Readable(file), current, Some(LISTING)), None);
    assert_eq!((cache.entries(), cache.fingerprint()), (1, current));
    assert_eq!(cache.mapping.get(&10123).unwrap(), "com.example");

    let later = Some(Fingerprint { len: 10, modified_ns: 21 });
    assert!(cache.needs_refresh(&CacheFile::Readable(file), later));
    let mut fresh = UidCache::new("/data/cache");
    assert!(fresh.load_or_refresh(CacheFile::Readable(file), later, Some(LISTING)).is_some());
    assert_eq!((fresh.entries(), fresh.fingerprint()), (2, later));
}

#[test]
fn cache_files_are_read_leniently() {
    let mut cache = UidCache::new("");
    assert_eq!(cache.cache_path(), "package_cache.txt");
    cache.load_from_file(
        "FINGERPRINT 1\nFINGERPRINT x 2\n  5   com.a  rest\n5x com.b\n6\n\n+7 com.c\nFINGERPRINT 3 4 5\n",
    );
    assert_eq!(cache.entries(), 2);
    assert_eq!(cache.mapping.get(&5).unwrap(), "com.a");
    assert_eq!(cache.mapping.get(&7).unwrap(), "com.c");
    assert_eq!(cache.fingerprint(), Some(Fingerprint { len: 3, modified_ns: 4 }));
}

#[test]
fn unknown_uids_ask_for_a_listing_three_times() {
    let mut cache = UidCache::new("/c");
    for _ in 0..3 {
        assert!(cache.wants_listing(10123));
        assert_eq!(cache.get_package(10123, None), None);
        assert!(cache.take_save().is_some());
    }
    assert!(!cache.wants_listing(10123));
    assert_eq!(cache.get_package(10123, Some(LISTING)), None);
    assert!(cache.take_save().is_none());

    assert!(cache.wants_listing(10124));
    assert_eq!(cache.get_package(10124, Some(LISTING)).as_deref(), Some("com.other"));
    assert_eq!(cache.get_package(10123, None).as_deref(), Some("com.example"));
    assert!(cache.take_save().unwrap().contains("10124 com.other\n"));
    for _ in 0..5 {
        assert!(cache.wants_listing(3));
        assert_eq!(cache.get_package(3, Some(LISTING)), None);
    }
}

#[test]
fn listings_need_not_be_text() {
    let mut cache = UidCache::new("/c");
    cache.refresh(Some(b"x=com.\xffa uid:10001\n"));
    assert_eq!(cache.mapping.get(&10001).unwrap(), "com.\u{fffd}a");
}

#[test]
fn paths_are_joined() {
    assert_eq!(join_path("/a", "b"), "/a/b");
    assert_eq!(join_path("/a/", "b"), "/a/b");
    assert_eq!(join_path("", "b"), "b");
    assert_eq!(join_path("/a", "/b"), "/b");
    assert_eq!(join_path("/a", ""), "/a/");
}

// The lists

fn set_of(patterns: &[&str]) -> PackageSet {
    let mut set = PackageSet::new();
    for p in patterns {
        set.insert(p.to_string());
    }
    set
}

fn listed(set: &PackageSet) -> Vec<String> {
    (0..set.len()).map(|i| set.at(i).to_string()).collect()
}

#[test]
fn package_sets_are_ordered() {
    let mut set = set_of(&["b", "a", "b", "aa", ""]);
    assert_eq!(listed(&set), ["", "a", "aa", "b"]);
    set.remove_covered("a*");
    assert_eq!(listed(&set), ["", "b"]);
    assert!(set.covers("b") && set.covers("") && !set.covers("bb"));
    assert!(set_of(&["*"]).covers("anything"));
    assert_eq!(listed(&set.clone()), listed(&set));
}

const STATIC: [&str; 7] = [
    "com.google.android.apps.googleassistant",
    "com.google.android.apps.wellbeing",
    "com.google.android.as*",
    "com.google.android.gms*",
    "com.google.android.googlequicksearchbox",
    "com.google.android.permissioncontroller",
    "com.google.android.tts",
];

#[test]
fn blocklists_hold_defaults_and_additions() {
    let (list, text) = Blocklist::load_or_create(None, PackageSet::new());
    assert_eq!(listed(&list.packages), STATIC);
    let head = "# Blocklist configuration\n# Use '-' prefix to unblock a package\n\n";
    assert_eq!(text, format!("{head}{}\n", STATIC.join("\n")));
    assert!(list.is_blocked("com.google.android.gms.ui"));
    assert!(!list.is_blocked("com.google.android.ttsx"));

    let (list, _) = Blocklist::load_or_create(Some("# no\n\n com.a \ncom.b*"), set_of(&["ime"]));
    assert_eq!(list.packages.len(), 10);
    assert!(list.is_blocked("com.a") && list.is_blocked("com.bc") && list.is_blocked("ime"));
    assert!(Blocklist::default().packages.len() == 0);
}

#[test]
fn removals_win_wherever_they_stand() {
    let content = "- com.google.android.tts \n-com.google.android.apps.*\ncom.google.android.tts\n-ime\n";
    let (list, text) = Blocklist::load_or_create(Some(content), set_of(&["ime", "ime2"]));
    assert_eq!(
        listed(&list.packages),
        [
            "com.google.android.as*",
            "com.google.android.gms*",
            "com.google.android.googlequicksearchbox",
            "com.google.android.permissioncontroller",
            "ime2",
        ]
    );
    assert!(!text.contains("-com") && !text.contains("tts"));
}

#[test]
fn written_blocklists_are_read_back() {
    let dynamic = set_of(&["com.launcher"]);
    let (first, text) = Blocklist::load_or_create(Some("com.mine\n"), dynamic.clone());
    let (second, again) = Blocklist::load_or_create(Some(&text), dynamic);
    assert_eq!(listed(&first.packages), listed(&second.packages));
    assert_eq!(text, again);
}

#[test]
fn settings_name_packages() {
    let brief: &[u8] = b"priority=0 package=com.launcher  package=x\ncom.launcher/.Home\n";
    assert_eq!(Blocklist::resolve_launcher(Some(brief)).as_deref(), Some("com.launcher"));
    assert_eq!(Blocklist::resolve_launcher(None), None);
    assert_eq!(parse_package_from_brief(b"nothing"), None);
    assert_eq!(brief_of("package=").as_deref(), Some(""));
    assert_eq!(parse_package_from_component(b" com.ime/.Service\n").as_deref(), Some("com.ime"));
    assert_eq!(parse_package_from_component_str("null\n").as_deref(), Some("null\n"));
    let set = Blocklist::resolve_defaults(
        Some(brief),
        Some(b"com.ime/.Service\n"),
        Some(b"com.a/.S:com.b/.T\n"),
    );
    assert_eq!(listed(&set), ["com.a", "com.b", "com.ime", "com.launcher"]);
    assert_eq!(Blocklist::resolve_defaults(None, None, None).len(), 0);
}

#[test]
fn terminals_are_those_of_the_file() {
    let text = TerminalApps::default_file();
    assert_eq!(
        text,
        "# Terminal apps list (supports wildcard *)\ncom.termux\ncom.termius.client\n\
         com.server.auditor.ssh.client\nbin.mt*\n"
    );
    let from_file = TerminalApps::load_or_create(Some(&text));
    let from_none = TerminalApps::load_or_create(None);
    let from_empty = TerminalApps::load_or_create(Some("# nothing\n"));
    assert_eq!(listed(&from_file.packages), listed(&from_none.packages));
    assert_eq!(listed(&from_file.packages), listed(&from_empty.packages));
    assert!(from_file.is_terminal("bin.mt.plus") && !from_file.is_terminal("com.termux.api"));
    let own = TerminalApps::load_or_create(Some("com.mine"));
    assert!(own.is_terminal("com.mine") && !own.is_terminal("com.termux"));
    assert_eq!(TerminalApps::default().packages.len(), 0);
}

// Processes

#[test]
fn pids_are_looked_at_from_the_highest() {
    assert_eq!(get_v1_top_app_pids(" 3\n10\nx\n\n7\n10\n99999999999\n"), [10, 10, 7, 3]);
    assert_eq!(get_v1_top_app_pids(""), [] as [i32; 0]);
}

#[test]
fn roots_are_discovered() {
    let mounts = "none /dev/cg2_bpf cgroup2 rw 0 0\ncgroup /acct cgroup rw\nnone /sys/fs/cgroup cgroup2\n";
    assert_eq!(discover_cgroup_v2_roots(Some(mounts)), ["/dev/cg2_bpf", "/sys/fs/cgroup"]);
    assert_eq!(discover_cgroup_v2_roots(Some("a b c\n")), ["/sys/fs/cgroup"]);
    assert_eq!(discover_cgroup_v2_roots(None), ["/sys/fs/cgroup"]);
}

fn group_of(pid: i32) -> String {
    format!("/sys/fs/cgroup/top/pid_{pid}")
}

/// A process in a populated group.
fn proc_of(pid: i32, uid: u32, cmdline: &str, oom: i32) -> ProcFacts {
    ProcFacts {
        pid,
        cgroup: Ok(format!("5:cpuset:/top-app\n0::/top/pid_{pid}\n")),
        groups: vec![GroupFacts {
            path: group_of(pid),
            events: Ok("populated 1\nfrozen 0\n".to_string()),
        }],
        uid: Ok(uid),
        cmdline: Some(cmdline.to_string()),
        oom_score_adj: Some(format!("{oom}\n")),
        listing: None,
    }
}

fn resolver_with(launcher: Option<&str>) -> Resolver {
    let mut cache = UidCache::new("/c");
    cache.refresh(Some(
        b"x=com.one uid:10001\nx=com.two uid:10002\nx=com.termux uid:10003\nx=com.home uid:10004\n",
    ));
    let (list, _) = Blocklist::load_or_create(Some("com.blocked*"), PackageSet::new());
    let terminals = TerminalApps::load_or_create(None);
    Resolver::new(cache, list, terminals, launcher.map(str::to_string), None)
}

fn procs_of(facts: &[ProcFacts]) -> String {
    facts.iter().map(|f| format!("{}\n", f.pid)).collect()
}

fn foreground(facts: &[ProcFacts]) -> Option<(String, bool)> {
    let procs = procs_of(facts);
    let found = resolver_with(Some("com.home")).resolve(Some(&procs), facts);
    found.map(|(package, is_app, _)| (package, is_app))
}

fn app(name: &str) -> Option<(String, bool)> {
    Some((name.to_string(), true))
}

#[test]
fn the_lowest_score_wins() {
    let facts = [
        proc_of(20, 10001, "com.one", 0),
        proc_of(10, 10002, "com.two", -5),
        proc_of(30, 10003, "com.termux", 200),
    ];
    assert_eq!(foreground(&facts), app("com.two"));
    let found = resolver_with(None).resolve(Some("10\n20\n30\n"), &facts).unwrap();
    assert_eq!(found.2, [group_of(30), group_of(20), group_of(10)]);
}

#[test]
fn ties_go_to_apps_and_then_to_high_pids() {
    let one = || proc_of(10, 10001, "com.one", 0);
    let two = || proc_of(20, 10002, "com.two", 0);
    let terminal = || proc_of(30, 10003, "com.termux", 0);
    let home = || proc_of(40, 10004, "com.home", 0);
    assert_eq!(foreground(&[one(), two()]), app("com.two"));
    assert_eq!(foreground(&[two(), one()]), app("com.two"));
    assert_eq!(foreground(&[one(), terminal(), home()]), app("com.one"));
    assert_eq!(foreground(&[terminal(), home()]), app("com.home"));
    assert_eq!(foreground(&[proc_of(30, 10003, "com.termux", -1), one()]), app("com.termux"));
}

#[test]
fn programs_in_terminals_are_skipped() {
    assert_eq!(foreground(&[proc_of(30, 10003, "com.termux", 0)]), app("com.termux"));
    assert_eq!(foreground(&[proc_of(30, 10003, "bash", 0)]), None);
    assert_eq!(foreground(&[proc_of(30, 10003, "com.termux /bin/sh", 0)]), None);
    assert_eq!(foreground(&[proc_of(30, 10001, "/bin/sh", 0)]), app("com.one"));
    let mut silent = proc_of(30, 10003, "", 0);
    silent.cmdline = None;
    assert_eq!(foreground(&[silent]), app("com.termux"));
}

#[test]
fn programs_in_terminals_count_as_unlisted() {
    let shell = || proc_of(90, 10003, "/data/data/com.termux/files/usr/bin/bash", -900);
    let others = || vec![proc_of(20, 10001, "com.one", 0), proc_of(30, 10003, "com.termux", 5)];
    let mut all = others();
    all.push(shell());
    assert_eq!(foreground(&all), foreground(&others()));
    assert_eq!(foreground(&all), app("com.one"));
    assert_eq!(foreground(&[shell()]), None);
}

#[test]
fn system_processes_go_by_their_names() {
    let system = Some(("com.android.settings".to_string(), false));
    assert_eq!(foreground(&[proc_of(5, 1000, "com.android.settings", 0)]), system);
    assert_eq!(foreground(&[proc_of(5, 1000, "surfaceflinger", 0)]), None);
    assert_eq!(foreground(&[proc_of(5, 1000, "com.google.android.tts", 0)]), None);
    assert_eq!(foreground(&[proc_of(5, 9999, " com.google.x \0arg", 0)]).unwrap().0, "com.google.x");
}

#[test]
fn processes_without_a_claim_do_not_count() {
    assert_eq!(foreground(&[]), None);
    let mut f = proc_of(5, 10001, "com.one", 0);
    f.groups[0].events = Ok("populated 0\n".to_string());
    assert_eq!(foreground(&[f]), None);
    let mut f = proc_of(5, 10001, "com.one", 0);
    f.groups[0].events = Err("gone".to_string());
    assert_eq!(foreground(&[f]), None);
    let mut f = proc_of(5, 10001, "com.one", 0);
    f.groups.clear();
    assert_eq!(foreground(&[f]), None);
    let mut f = proc_of(5, 10001, "com.one", 0);
    f.cgroup = Err("gone".to_string());
    assert_eq!(foreground(&[f]), None);
    let mut f = proc_of(5, 10001, "com.one", 0);
    f.uid = Err("gone".to_string());
    assert_eq!(foreground(&[f]), None);
    let mut f = proc_of(5, 10001, "com.one", 0);
    f.oom_score_adj = None;
    assert_eq!(foreground(&[f]), None);
    let mut f = proc_of(5, 10001, "com.one", 0);
    f.oom_score_adj = Some("much".to_string());
    assert_eq!(foreground(&[f]), None);
    assert_eq!(foreground(&[proc_of(5, 19999, "com.unknown", 0)]), None);
    let mut resolver = resolver_with(None);
    assert_eq!(resolver.resolve(None, &[proc_of(5, 10001, "com.one", 0)]), None);
    assert_eq!(resolver.resolve(Some("6\n"), &[proc_of(5, 10001, "com.one", 0)]), None);
}

#[test]
fn processes_are_remembered_until_they_are_forgotten() {
    let mut resolver = resolver_with(None);
    let package = |r: &mut Resolver, f: ProcFacts| r.resolve(Some("5\n"), &[f]).map(|p| p.0);
    assert_eq!(package(&mut resolver, proc_of(5, 10001, "", 0)).as_deref(), Some("com.one"));
    assert_eq!(package(&mut resolver, proc_of(5, 10002, "", 0)).as_deref(), Some("com.one"));
    resolver.clear_pid_cache();
    assert_eq!(package(&mut resolver, proc_of(5, 10002, "", 0)).as_deref(), Some("com.two"));
    let (list, _) = Blocklist::load_or_create(Some("com.two"), PackageSet::new());
    resolver.set_blocklist(list);
    assert_eq!(package(&mut resolver, proc_of(5, 10002, "", 0)), None);
}

#[test]
fn unknown_owners_lead_to_a_listing() {
    let mut resolver = resolver_with(None);
    assert!(resolver.wants_listing(5, 10009));
    assert!(!resolver.wants_listing(5, 10001));
    assert!(!resolver.wants_listing(5, 1000));
    let mut f = proc_of(5, 10009, "", 0);
    f.listing = Some(b"x=com.nine uid:10009\n".to_vec());
    assert_eq!(resolver.resolve(Some("5\n"), &[f]).unwrap().0, "com.nine");
    assert!(!resolver.wants_listing(5, 10001));
    assert!(resolver.wants_listing(6, 10001));
    assert_eq!(resolver.cache_entries(), 1);
    assert_eq!(resolver.take_save().as_deref(), Some("10009 com.nine\n"));
    assert_eq!(resolver.take_save(), None);
}

#[test]
fn groups_are_found_below_the_roots() {
    let mounts = "n /one cgroup2\nn /two cgroup2\n";
    let resolver = Resolver::new(
        UidCache::new("/c"),
        Blocklist::default(),
        TerminalApps::default(),
        None,
        Some(mounts),
    );
    let cgroup = "0:a:/no\n0::no\n1::/no\n0:://apps/x:y\n0::/z\n";
    let paths = ["/one/no", "/two/no", "/one/apps/x", "/two/apps/x", "/one/z", "/two/z"];
    assert_eq!(resolver.v2_candidates(cgroup), paths);
    assert_eq!(resolver.traced_candidates("1::/no\n0:://apps/x:y\n"), ["/one/apps/x:y", "/two/apps/x:y"]);
    let mut f = proc_of(5, 0, "", 0);
    f.cgroup = Ok(cgroup.to_string());
    f.groups = vec![
        GroupFacts { path: "/one/z".to_string(), events: Ok("populated 1".to_string()) },
        GroupFacts { path: "/two/apps/x".to_string(), events: Ok("populated 0".to_string()) },
    ];
    assert_eq!(resolver.get_pid_cgroup_v2_path(&f).as_deref(), Some("/two/apps/x"));
    assert!(!resolver.is_pid_in_populated_v2_group(&f));
}

fn shown(t: &TraceEntry) -> String {
    format!("{} {} {}: {}", if t.pass { "+" } else { "-" }, t.pid, t.stage, t.detail)
}

#[test]
fn traces_tell_of_each_step() {
    let mut gone = proc_of(7, 0, "", 0);
    gone.cgroup = Err("No such file".to_string());
    let mut lost = proc_of(8, 0, "", 0);
    lost.groups.clear();
    let mut unread = proc_of(9, 0, "", 0);
    unread.groups[0].events = Err("denied".to_string());
    let mut empty = proc_of(10, 0, "", 0);
    empty.groups[0].events = Ok("populated 0".to_string());
    let mut nobody = proc_of(11, 0, "", 0);
    nobody.uid = Err("stat failed (code=2)".to_string());
    let facts = [
        gone,
        lost,
        unread,
        empty,
        nobody,
        proc_of(12, 1000, "say \"hi\"", 0),
        proc_of(13, 10001, "com.one", 0),
        proc_of(14, 10099, "", 0),
    ];
    let procs = procs_of(&facts);
    let (result, trace) = resolver_with(None).resolve_traced(Ok(&procs), &facts);
    assert_eq!(result.unwrap().0, "com.one");
    let lines: Vec<String> = trace.iter().map(shown).collect();
    assert_eq!(
        lines,
        [
            "+ 0 cgroup-v1: /dev/cpuset/top-app/cgroup.procs: 8 pid(s): [7, 8, 9, 10, 11, 12, 13, 14]",
            "+ 0 cgroup-v2-roots: /sys/fs/cgroup",
            "- 7 proc-cgroup: /proc/7/cgroup: No such file",
            "- 8 cgroup-v2-path: no v2 path for rel=\"top/pid_8\"",
            "- 9 cgroup-v2-events: /sys/fs/cgroup/top/pid_9/cgroup.events: denied",
            "- 10 cgroup-v2-populated: /sys/fs/cgroup/top/pid_10: populated=false",
            "+ 11 cgroup-v2-populated: /sys/fs/cgroup/top/pid_11: populated=true",
            "- 11 proc-stat: stat failed (code=2)",
            "+ 12 cgroup-v2-populated: /sys/fs/cgroup/top/pid_12: populated=true",
            "+ 12 identity: uid=1000 pkg=\"say \\\"hi\\\"\" blocked=false",
            "+ 13 cgroup-v2-populated: /sys/fs/cgroup/top/pid_13: populated=true",
            "+ 13 identity: uid=10001 pkg=\"com.one\" blocked=false",
            "+ 14 cgroup-v2-populated: /sys/fs/cgroup/top/pid_14: populated=true",
            "- 14 identity: uid=10099 pkg=\"\" blocked=false",
            "+ 0 result: com.one",
        ]
    );
}

#[test]
fn traces_end_where_nothing_is_left() {
    let (result, trace) = resolver_with(None).resolve_traced(Err("denied"), &[]);
    assert_eq!(result, None);
    assert_eq!(trace.len(), 1);
    assert_eq!(shown(&trace[0]), "- 0 cgroup-v1: /dev/cpuset/top-app/cgroup.procs: denied");

    let many = "1\n2\n3\n4\n5\n6\n7\n8\n9\n";
    let (result, trace) = resolver_with(None).resolve_traced(Ok(many), &[]);
    assert_eq!(result, None);
    let lines: Vec<String> = trace.iter().map(shown).collect();
    assert_eq!(
        lines,
        [
            "+ 0 cgroup-v1: /dev/cpuset/top-app/cgroup.procs: 9 pid(s): [1, 2, 3, 4, 5, 6, 7, 8]",
            "+ 0 cgroup-v2-roots: /sys/fs/cgroup",
            "- 0 result: filtered empty \u{2014} no foreground resolved",
        ]
    );
    let named = [proc_of(5, 1000, "daemon", 0)];
    let (result, trace) = resolver_with(None).resolve_traced(Ok("5\n"), &named);
    assert_eq!(result, None);
    assert_eq!(shown(trace.last().unwrap()), "- 0 result: None");
}

#[test]
fn traces_find_what_resolutions_find() {
    let cases = [
        vec![proc_of(20, 10001, "com.one", 0), proc_of(30, 10003, "com.termux", 0)],
        vec![proc_of(20, 10001, "com.one", 7), proc_of(21, 1000, "com.android.settings", 3)],
        vec![proc_of(90, 10003, "/bin/sh", 0)],
        vec![proc_of(5, 1000, "daemon", 0)],
        vec![],
    ];
    for facts in &cases {
        let procs = procs_of(facts);
        let plain = resolver_with(None).resolve(Some(&procs), facts);
        let (result, trace) = resolver_with(None).resolve_traced(Ok(&procs), facts);
        assert_eq!(result, plain);
        assert_eq!(trace.last().unwrap().pass, result.is_some());
    }
}
