use coreshift_foreground::android_property::{
    android_property_find, android_property_get, android_property_read, android_property_serial,
    android_property_set, android_property_wait, duration_to_timespec, serial_result,
    AndroidPropertyInfo, AndroidPropertyStore, AndroidPropertyValue, PropertyError, PropertyGet,
    SystemAndroidPropertyStore, ANDROID_PROP_SERIAL_ERROR,
};
use coreshift_foreground::byte_order::ByteOrder;
use coreshift_foreground::error::{
    io_error, posix_ret, syscall_ret, Attempt, CoreError, SysReply,
};
use coreshift_foreground::error as e;
use coreshift_foreground::fs::{
    mapped, mmap_madvise, next_touch, path_exists, path_fingerprint, path_lstat_exists,
    read_to_string, readahead, readahead_step, unmapped, FileTimes, MapPlan,
};
use coreshift_foreground::inotify::{decode_events, InotifyEvent};
use coreshift_foreground::log::{log, log_write, LogBackend, LogLevel, LogRecord, Logger};
use coreshift_foreground::proc::{
    clock_ticks_per_second, parse_proc_cmdline_bytes, parse_proc_status, proc_file,
    read_proc_cmdline, read_proc_status,
};
use coreshift_foreground::reactor::Delay;
use coreshift_foreground::signal::{
    install_shutdown_flag, shutdown_requested, InstallStep, SignalRuntime,
};
use coreshift_foreground::uid::{
    chown_path, path_lstat, path_stat, path_uid, proc_dir, proc_stat, proc_stat_at, proc_uid,
    proc_uid_at, PathStat, StatReply,
};
use coreshift_foreground::text::from_utf8_lossy;
use std::cell::RefCell;
use std::collections::BTreeMap;
use std::sync::atomic::{AtomicBool, Ordering};

fn done(ret: i64) -> SysReply {
    SysReply { ret, errno: 0 }
}

fn failed(errno: i32) -> SysReply {
    SysReply { ret: -1, errno }
}

fn code<T>(r: Result<T, CoreError>) -> i32 {
    match r {
        Ok(_) => panic!("expected an error"),
        Err(e) => e.raw_os_error().unwrap(),
    }
}

// Errors

#[test]
fn error_codes_are_those_of_the_platform() {
    assert_eq!(e::ENOENT, libc::ENOENT);
    assert_eq!(e::ESRCH, libc::ESRCH);
    assert_eq!(e::EINTR, libc::EINTR);
    assert_eq!(e::EIO, libc::EIO);
    assert_eq!(e::EAGAIN, libc::EAGAIN);
    assert_eq!(e::EAGAIN, libc::EWOULDBLOCK);
    assert_eq!(e::EEXIST, libc::EEXIST);
    assert_eq!(e::EINVAL, libc::EINVAL);
    assert_eq!(e::EPIPE, libc::EPIPE);
    assert_eq!(e::ENAMETOOLONG, libc::ENAMETOOLONG);
    assert_eq!(e::EOVERFLOW, libc::EOVERFLOW);
    assert_eq!(e::EADDRINUSE, libc::EADDRINUSE);
    assert_eq!(e::EISCONN, libc::EISCONN);
    assert_eq!(e::EALREADY, libc::EALREADY);
    assert_eq!(e::EINPROGRESS, libc::EINPROGRESS);
}

#[test]
fn errors_name_their_operation() {
    let e = CoreError::sys(2, "open");
    assert_eq!(e.raw_os_error(), Some(2));
    assert_eq!(e.op(), "open");
    assert_eq!(e.to_io_error(), 2);
    assert_eq!(e.message(), "open failed (code=2)");
    assert_eq!(CoreError::sys(-7, "x").message(), "x failed (code=-7)");
}

#[test]
fn replies_are_read() {
    assert!(syscall_ret(done(0), "op").is_ok());
    assert!(syscall_ret(done(7), "op").is_ok());
    assert_eq!(code(syscall_ret(failed(9), "op")), 9);
    assert!(posix_ret(0, "op").is_ok());
    assert_eq!(code(posix_ret(22, "op")), 22);
    assert_eq!(io_error(Some(13), "op").raw_os_error(), Some(13));
    assert_eq!(io_error(None, "op").raw_os_error(), Some(libc::EIO));
}

#[test]
fn bytes_are_read_as_text() {
    assert_eq!(from_utf8_lossy(b"a\xe2\x82\xac"), "a\u{20ac}");
    assert_eq!(from_utf8_lossy(b"\xffa\xc0"), "\u{fffd}a\u{fffd}");
    assert_eq!(from_utf8_lossy(b""), "");
}

// Android properties

#[derive(Default)]
struct FakeStore {
    entries: RefCell<BTreeMap<String, String>>,
}

impl AndroidPropertyStore for FakeStore {
    fn get(&self, key: &str) -> Option<String> {
        self.entries.borrow().get(key).cloned()
    }

    fn set(&self, key: &str, value: &str) -> Result<(), PropertyError> {
        self.entries
            .borrow_mut()
            .insert(key.to_string(), value.to_string());
        Ok(())
    }
}

#[test]
fn fake_store_round_trips_properties() {
    let store = FakeStore::default();
    assert_eq!(store.get("debug.hwui.renderer"), None);
    store.set("debug.hwui.renderer", "skiagl").unwrap();
    assert_eq!(store.get("debug.hwui.renderer").as_deref(), Some("skiagl"));
}

#[test]
fn system_store_rejects_embedded_nul() {
    for status in [None, Some(0), Some(1)] {
        let err = SystemAndroidPropertyStore
            .set("debug.hwui.renderer", "skia\0gl", status)
            .unwrap_err();
        assert!(matches!(err, PropertyError::InvalidInput(_)));
    }
    let err = SystemAndroidPropertyStore.set("a\0b", "v", Some(0)).unwrap_err();
    assert_eq!(err, PropertyError::InvalidInput("embedded NUL"));
}

#[test]
fn duration_to_timespec_rejects_large_timeout() {
    let err = duration_to_timespec(Delay { secs: u64::MAX, nanos: 0 }).unwrap_err();
    assert!(matches!(err, PropertyError::InvalidInput(_)));
    assert_eq!(duration_to_timespec(Delay { secs: 3, nanos: 5 }), Ok((3, 5)));
}

#[test]
fn serial_error_maps_to_io_error() {
    assert!(serial_result(1, 0).is_ok());
    assert!(serial_result(ANDROID_PROP_SERIAL_ERROR, 5).is_err());
}

#[test]
fn properties_are_read_and_set() {
    let got = PropertyGet { len: 6, value: b"skiagl" };
    assert_eq!(android_property_get("k", Some(got)).as_deref(), Some("skiagl"));
    assert_eq!(android_property_get("k", None), None);
    assert_eq!(android_property_get("k\0", Some(got)), None);
    assert_eq!(
        android_property_get("k", Some(PropertyGet { len: 0, value: b"" })),
        None
    );
    let bad = PropertyGet { len: 2, value: &[0x61, 0xff] };
    assert_eq!(android_property_get("k", Some(bad)).as_deref(), Some("a\u{fffd}"));

    assert_eq!(android_property_set("k", "v", Some(0)), Ok(()));
    assert_eq!(android_property_set("k", "v", Some(5)), Err(PropertyError::Os(5)));
    assert!(matches!(
        android_property_set("k", "v", None),
        Err(PropertyError::Unsupported(_))
    ));

    assert_eq!(android_property_find("k", 0), None);
    assert_eq!(android_property_find("k\0", 8), None);
    let info = android_property_find("k", 8).unwrap();
    assert_eq!(info.as_ptr(), 8);

    let none = AndroidPropertyInfo { raw: 0 };
    let value = AndroidPropertyValue {
        name: "k".to_string(),
        value: "v".to_string(),
        serial: 4,
    };
    assert_eq!(android_property_read(info, Some(Some(value.clone()))), Ok(value));
    assert!(matches!(android_property_read(info, Some(None)), Err(PropertyError::Other(_))));
    assert!(matches!(
        android_property_read(none, Some(None)),
        Err(PropertyError::InvalidInput(_))
    ));
    assert!(matches!(android_property_read(none, None), Err(PropertyError::Unsupported(_))));

    assert_eq!(android_property_serial(info, Some((4, 0))), Ok(4));
    assert_eq!(
        android_property_serial(info, Some((u32::MAX, 22))),
        Err(PropertyError::Os(22))
    );
    assert!(matches!(
        android_property_serial(none, Some((4, 0))),
        Err(PropertyError::InvalidInput(_))
    ));
    assert!(matches!(
        android_property_serial(info, None),
        Err(PropertyError::Unsupported(_))
    ));
}

#[test]
fn property_waits_are_checked_first() {
    let info = AndroidPropertyInfo { raw: 8 };
    let none = AndroidPropertyInfo { raw: 0 };
    let long = Some(Delay { secs: u64::MAX, nanos: 0 });
    let short = Some(Delay { secs: 1, nanos: 0 });
    assert_eq!(android_property_wait(info, short, Some(Some(9))), Ok(Some(9)));
    assert_eq!(android_property_wait(info, None, Some(None)), Ok(None));
    assert_eq!(
        android_property_wait(none, None, Some(None)),
        Err(PropertyError::InvalidInput("invalid android property info"))
    );
    assert_eq!(
        android_property_wait(info, long, Some(None)),
        Err(PropertyError::InvalidInput("timeout too large"))
    );
    assert_eq!(
        android_property_wait(none, long, None),
        Err(PropertyError::InvalidInput("timeout too large"))
    );
    assert!(matches!(
        android_property_wait(none, short, None),
        Err(PropertyError::Unsupported(_))
    ));
}

// Logging

#[test]
fn test_log_backend_selection() {
    let logger_null = Logger::new(LogBackend::Null);
    let r = logger_null.log(LogLevel::Info, "Test", "This should be discarded");
    assert!(matches!(r, LogRecord::Nothing));

    let logger_stderr = Logger::new(LogBackend::Stderr);
    match logger_stderr.log(LogLevel::Info, "Test", "This should go to stderr") {
        LogRecord::Stderr(line) => assert_eq!(line, "[INFO][Test] This should go to stderr\n"),
        other => panic!("unexpected record {other:?}"),
    }
}

#[test]
fn android_records_have_no_nul() {
    match log(true, LogLevel::Fatal, "a\0b", "c\0d") {
        LogRecord::Android { priority, tag, text } => {
            assert_eq!(priority, 7);
            assert_eq!(tag, "CoreShift");
            assert_eq!(text, "<invalid utf8>");
        }
        other => panic!("unexpected record {other:?}"),
    }
    match log_write(false, LogLevel::Warn, "t", "m") {
        LogRecord::Stderr(line) => assert_eq!(line, "[WARN][t] m\n"),
        other => panic!("unexpected record {other:?}"),
    }
    let levels = [
        (LogLevel::Verbose, 2, "VERBOSE"),
        (LogLevel::Debug, 3, "DEBUG"),
        (LogLevel::Info, 4, "INFO"),
        (LogLevel::Warn, 5, "WARN"),
        (LogLevel::Error, 6, "ERROR"),
        (LogLevel::Fatal, 7, "FATAL"),
    ];
    for (level, priority, name) in levels {
        assert_eq!(level.priority(), priority);
        assert_eq!(level.name(), name);
    }
}

// File changes

#[test]
fn test_decode_inotify_events() {
    let mut buf = Vec::new();

    buf.extend_from_slice(&1i32.to_ne_bytes());
    buf.extend_from_slice(&2u32.to_ne_bytes());
    buf.extend_from_slice(&0u32.to_ne_bytes());
    buf.extend_from_slice(&0u32.to_ne_bytes());

    buf.extend_from_slice(&2i32.to_ne_bytes());
    buf.extend_from_slice(&4u32.to_ne_bytes());
    buf.extend_from_slice(&0u32.to_ne_bytes());
    buf.extend_from_slice(&8u32.to_ne_bytes());
    buf.extend_from_slice(b"file.txt");

    let events = decode_events(&buf, ByteOrder::native()).unwrap();
    assert_eq!(events.len(), 2);
    assert_eq!(
        events[0],
        InotifyEvent {
            wd: 1,
            mask: 2,
            name: None,
        }
    );
    assert_eq!(
        events[1],
        InotifyEvent {
            wd: 2,
            mask: 4,
            name: Some(b"file.txt".to_vec()),
        }
    );

    buf.extend_from_slice(&3i32.to_ne_bytes());
    buf.extend_from_slice(&8u32.to_ne_bytes());

    let err = decode_events(&buf, ByteOrder::native()).unwrap_err();
    assert_eq!(err.raw_os_error(), Some(libc::EINVAL));
}

#[test]
fn inotify_names_end_at_a_nul() {
    let mut buf = Vec::new();
    buf.extend_from_slice(&(-1i32).to_ne_bytes());
    buf.extend_from_slice(&0x8000_0002u32.to_ne_bytes());
    buf.extend_from_slice(&0u32.to_ne_bytes());
    buf.extend_from_slice(&4u32.to_ne_bytes());
    buf.extend_from_slice(b"ab\0\0");
    let events = decode_events(&buf, ByteOrder::native()).unwrap();
    assert_eq!(events[0].wd, -1);
    assert_eq!(events[0].mask, 0x8000_0002);
    assert_eq!(events[0].name, Some(b"ab".to_vec()));

    let cut = &buf[..buf.len() - 1];
    assert_eq!(code(decode_events(cut, ByteOrder::native())), libc::EINVAL);
    assert_eq!(decode_events(&[], ByteOrder::native()).unwrap(), vec![]);

    let record = [0, 0, 0, 3, 0, 0, 1, 2, 0, 0, 0, 0, 0, 0, 0, 1, b'x'];
    let events = decode_events(&record, ByteOrder::Big).unwrap();
    assert_eq!(events, [InotifyEvent { wd: 3, mask: 0x0102, name: Some(b"x".to_vec()) }]);
    assert_eq!(code(decode_events(&record, ByteOrder::Little)), libc::EINVAL);
}

// procfs

#[test]
fn test_parse_proc_status() {
    let content = "Name:\tcore_daemon\nState:\tR (running)\nUid:\t1000\t1000\t1000\t1000\nGid:\t1000\t1000\t1000\t1000\n";
    let status = parse_proc_status(content).unwrap();
    assert_eq!(status.name, "core_daemon");
    assert_eq!(status.uid, 1000);
}

#[test]
fn test_parse_proc_status_missing_uid_is_invalid() {
    let content = "Name:\tcore_daemon\nState:\tR (running)\n";
    let err = parse_proc_status(content).unwrap_err();
    assert_eq!(err.raw_os_error(), Some(libc::EINVAL));
}

#[test]
fn proc_status_stops_when_both_are_known() {
    let content = "Uid:\tx\nName:\ta\nUid:\t5\nName:\tb\n";
    let status = parse_proc_status(content).unwrap();
    assert_eq!(status.name, "a");
    assert_eq!(status.uid, 5);
    assert_eq!(code(parse_proc_status("Name: a\nUid: 5x\n")), libc::EINVAL);
    assert_eq!(read_proc_status(Ok("Name: n\nUid: 7\n")).unwrap().uid, 7);
    let err = read_proc_status(Err(Some(libc::ENOENT))).unwrap_err();
    assert_eq!(err.message(), "read_proc_status failed (code=2)");
}

#[test]
fn test_parse_proc_cmdline_bytes_replaces_nul_separators() {
    let content = b"/system/bin/sh\0-c\0echo hello\0";
    assert_eq!(
        parse_proc_cmdline_bytes(content),
        "/system/bin/sh -c echo hello"
    );
}

#[test]
fn test_read_proc_cmdline_at_uses_explicit_root() {
    assert_eq!(proc_file("/tmp/root", 12345, "cmdline"), "/tmp/root/12345/cmdline");
    let cmdline = read_proc_cmdline(Ok(b"com.example.app\0:service\0")).unwrap();
    assert_eq!(cmdline, "com.example.app :service");
    assert_eq!(code(read_proc_cmdline(Err(None))), libc::EIO);
    assert_eq!(parse_proc_cmdline_bytes(b"\0\0"), "");
    assert_eq!(parse_proc_cmdline_bytes(&[0x61, 0xff, 0]), "a\u{fffd}");
}

#[test]
fn test_clock_ticks_per_second_checked_result() {
    let ticks = clock_ticks_per_second(100, None).unwrap();
    assert!(ticks > 0);
    assert_eq!(ticks, 100);
    assert_eq!(code(clock_ticks_per_second(0, None)), libc::EINVAL);
    assert_eq!(code(clock_ticks_per_second(-1, Some(38))), 38);
}

// Ownership

fn stat(uid: u32, inode: u64) -> PathStat {
    PathStat {
        uid,
        inode,
        ctime_sec: 1,
        ctime_nsec: 2,
        mtime_sec: 3,
        mtime_nsec: 4,
    }
}

#[test]
fn test_path_stat_reports_identity_fields() {
    let s = StatReply { reply: done(0), stat: stat(1000, 42) };
    let r = path_stat(b"/tmp/x", &s).unwrap();
    assert_eq!(r.uid, 1000);
    assert!(r.inode > 0);
    assert_eq!(r, stat(1000, 42));
    assert_eq!(path_uid(b"/tmp/x", &s).unwrap(), 1000);
}

#[test]
fn test_path_stat_follows_symlink_and_lstat_reports_link() {
    let target = StatReply { reply: done(0), stat: stat(1000, 42) };
    let link = StatReply { reply: done(0), stat: stat(1000, 43) };
    assert_eq!(path_stat(b"/tmp/link", &target).unwrap(), path_stat(b"/tmp/x", &target).unwrap());
    assert_ne!(path_lstat(b"/tmp/link", &link).unwrap().inode, target.stat.inode);
}

#[test]
fn test_proc_uid_invalid_pid_returns_error() {
    let s = StatReply { reply: failed(libc::ENOENT), stat: stat(0, 0) };
    let err = proc_uid(&s).unwrap_err();
    assert_eq!(err.raw_os_error(), Some(libc::ENOENT));
    assert_eq!(err.op(), "stat");
}

#[test]
fn test_path_uid_missing_path_returns_error() {
    let s = StatReply { reply: failed(libc::ENOENT), stat: stat(0, 0) };
    let err = path_uid(b"/tmp/missing", &s).unwrap_err();
    assert_eq!(err.raw_os_error(), Some(libc::ENOENT));
}

#[test]
fn test_proc_uid_at_uses_explicit_root() {
    let s = StatReply { reply: done(0), stat: stat(1000, 7) };
    assert_eq!(proc_dir("/tmp/root", 54321), "/tmp/root/54321");
    assert_eq!(proc_uid_at(b"/tmp/root", &s).unwrap(), 1000);
}

#[test]
fn test_proc_stat_at_uses_explicit_root() {
    let s = StatReply { reply: done(0), stat: stat(1000, 7) };
    let r = proc_stat_at(b"/tmp/root", &s).unwrap();
    assert_eq!(r.uid, 1000);
    assert!(r.inode > 0);
    assert_eq!(proc_stat(&s).unwrap(), stat(1000, 7));
}

#[test]
fn paths_with_a_nul_are_refused() {
    let s = StatReply { reply: done(0), stat: stat(0, 0) };
    assert_eq!(code(path_stat(b"/a\0b", &s)), libc::EINVAL);
    let err = path_lstat(b"/a\0b", &s).unwrap_err();
    assert_eq!(err.op(), "lstat");
    assert_eq!(code(chown_path(b"/a\0b", None)), libc::EINVAL);
    assert_eq!(chown_path(b"/a", None).unwrap(), u32::MAX);
    assert_eq!(chown_path(b"/a", Some(5)).unwrap(), 5);
}

// Files

#[test]
fn test_path_existence() {
    assert!(path_exists("/tmp/x", done(0)));
    assert!(path_lstat_exists("/tmp/x", done(0)));
    assert!(!path_exists("/tmp/x", failed(libc::ENOENT)));
    assert!(!path_lstat_exists("/tmp/x", failed(libc::ENOENT)));
    assert!(!path_exists("/tmp/\0x", done(0)));
    assert!(!path_lstat_exists("/tmp/\0x", done(0)));
}

#[test]
fn file_contents_and_fingerprints() {
    assert_eq!(read_to_string(Ok("x".to_string())).unwrap(), "x");
    let err = read_to_string(Err(Some(13))).unwrap_err();
    assert_eq!(err.message(), "read_to_string failed (code=13)");
    let fp = path_fingerprint(Ok(FileTimes { len: 5, modified_ns: Some(9) })).unwrap();
    assert_eq!((fp.len, fp.modified_ns), (5, 9));
    let fp = path_fingerprint(Ok(FileTimes { len: 5, modified_ns: None })).unwrap();
    assert_eq!(fp.modified_ns, 0);
    assert_eq!(code(path_fingerprint(Err(None))), libc::EIO);
}

#[test]
fn test_readahead_small_temp_file() {
    assert_eq!(readahead(0).unwrap(), 0);
    assert!(matches!(readahead_step(done(0)), Attempt::Done(Ok(()))));
}

#[test]
fn test_readahead_offset_beyond_eof() {
    assert_eq!(readahead(1 << 20).unwrap(), 1 << 20);
    assert_eq!(readahead(i64::MAX as u64).unwrap(), i64::MAX);
    assert_eq!(code(readahead(i64::MAX as u64 + 1)), libc::EINVAL);
}

#[test]
fn test_readahead_zero_length() {
    assert_eq!(readahead(0).unwrap(), 0);
    assert!(matches!(readahead_step(done(0)), Attempt::Done(Ok(()))));
}

#[test]
fn test_readahead_invalid_fd() {
    match readahead_step(failed(libc::EBADF)) {
        Attempt::Done(Err(err)) => assert_eq!(err.raw_os_error(), Some(libc::EBADF)),
        other => panic!("unexpected outcome {other:?}"),
    }
    assert!(matches!(readahead_step(failed(libc::EINTR)), Attempt::Retry));
}

#[test]
fn test_mmap_madvise_offset_zero() {
    let plan = mmap_madvise(0, 16, 4096).unwrap();
    assert_eq!(plan, Some(MapPlan { offset: 0, page_size: 4096 }));
    mapped(None).unwrap();
    unmapped(done(0), done(0)).unwrap();
}

#[test]
fn test_mmap_madvise_rejects_unaligned_offset() {
    let result = mmap_madvise(1, 16, 4096);
    assert_eq!(result.unwrap_err().raw_os_error(), Some(libc::EINVAL));
}

#[test]
fn mappings_are_checked_and_undone() {
    assert_eq!(mmap_madvise(0, 0, 4096).unwrap(), None);
    assert_eq!(mmap_madvise(8192, 0, 4096).unwrap(), None);
    assert_eq!(code(mmap_madvise(1, 0, 4096)), libc::EINVAL);
    assert_eq!(code(mmap_madvise(1 << 63, 0, 4096)), libc::EINVAL);
    assert_eq!(mmap_madvise(0, 0, -1).unwrap(), None);
    assert_eq!(mmap_madvise(1, 0, -1).unwrap_err().op(), "sysconf(_SC_PAGESIZE)");
    assert_eq!(mmap_madvise(0, 1, 0).unwrap_err().op(), "sysconf(_SC_PAGESIZE)");
    assert_eq!(code(mmap_madvise(1 << 63, 1, 4096)), libc::EINVAL);
    assert_eq!(mapped(Some(12)).unwrap_err().message(), "mmap failed (code=12)");
    assert_eq!(unmapped(failed(22), done(0)).unwrap_err().op(), "madvise");
    assert_eq!(unmapped(failed(22), failed(5)).unwrap_err().op(), "munmap");
}

#[test]
fn every_page_of_a_mapping_is_touched() {
    let mut touched = vec![0usize];
    while let Some(next) = next_touch(*touched.last().unwrap(), 10_000, 4096) {
        touched.push(next);
    }
    assert_eq!(touched, vec![0, 4096, 8192]);
    assert_eq!(next_touch(0, 4096, 4096), None);
    assert_eq!(next_touch(usize::MAX - 1, usize::MAX, 4096), None);
}

// Signals

static TEST_SHUTDOWN_FLAG_A: AtomicBool = AtomicBool::new(false);
static TEST_SHUTDOWN_FLAG_B: AtomicBool = AtomicBool::new(false);
static TEST_SHUTDOWN_FLAG_C: AtomicBool = AtomicBool::new(false);

#[test]
fn test_install_shutdown_flag_compiles_and_sets_helper_state() {
    TEST_SHUTDOWN_FLAG_A.store(false, Ordering::Release);
    assert!(matches!(
        install_shutdown_flag(done(0), Some(done(0)), None),
        InstallStep::Publish
    ));
    assert!(!shutdown_requested(&TEST_SHUTDOWN_FLAG_A));

    TEST_SHUTDOWN_FLAG_A.store(true, Ordering::Release);
    assert!(shutdown_requested(&TEST_SHUTDOWN_FLAG_A));
    TEST_SHUTDOWN_FLAG_A.store(false, Ordering::Release);
}

#[test]
fn test_install_shutdown_flag_repeated_install_does_not_panic() {
    TEST_SHUTDOWN_FLAG_B.store(false, Ordering::Release);
    TEST_SHUTDOWN_FLAG_C.store(false, Ordering::Release);

    for _ in 0..2 {
        assert!(matches!(
            install_shutdown_flag(done(0), Some(done(0)), None),
            InstallStep::Publish
        ));
    }

    assert!(!shutdown_requested(&TEST_SHUTDOWN_FLAG_B));
    assert!(!shutdown_requested(&TEST_SHUTDOWN_FLAG_C));
}

#[test]
fn half_installed_handlers_are_undone() {
    match install_shutdown_flag(failed(22), None, None) {
        InstallStep::Failed(e) => assert_eq!(e.message(), "sigaction(SIGINT) failed (code=22)"),
        other => panic!("unexpected step {other:?}"),
    }
    assert!(matches!(
        install_shutdown_flag(done(0), None, None),
        InstallStep::InstallSigterm
    ));
    assert!(matches!(
        install_shutdown_flag(done(0), Some(failed(1)), None),
        InstallStep::RestoreSigint
    ));
    match install_shutdown_flag(done(0), Some(failed(1)), Some(done(0))) {
        InstallStep::Failed(e) => assert_eq!(e.message(), "sigaction(SIGTERM) failed (code=1)"),
        other => panic!("unexpected step {other:?}"),
    }
    match install_shutdown_flag(done(0), Some(failed(1)), Some(failed(3))) {
        InstallStep::Failed(e) => assert_eq!(e.message(), "sigaction(SIGINT) failed (code=3)"),
        other => panic!("unexpected step {other:?}"),
    }
}

#[test]
fn signal_calls_are_read() {
    assert!(SignalRuntime::set_with(&[done(0), done(0)]).is_ok());
    assert_eq!(code(SignalRuntime::set_with(&[done(0), failed(1)])), libc::EINVAL);
    assert_eq!(SignalRuntime::wait(0, 15).unwrap(), 15);
    assert_eq!(code(SignalRuntime::wait(4, 0)), 4);
    assert_eq!(code(SignalRuntime::block_current_thread(22)), 22);
    assert_eq!(
        SignalRuntime::restore_current_thread(22).unwrap_err().op(),
        "pthread_sigmask(SIG_SETMASK)"
    );
    assert_eq!(code(SignalRuntime::interrupt_thread(3)), 3);
    assert_eq!(code(SignalRuntime::unblock_all(failed(5))), 5);
    assert!(SignalRuntime::reset_default(None).is_ok());
    assert_eq!(code(SignalRuntime::reset_default(Some(22))), 22);
}
