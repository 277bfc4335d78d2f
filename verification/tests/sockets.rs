use coreshift_foreground::byte_order::ByteOrder;
use coreshift_foreground::error::{Attempt, CoreError, SysReply};
use coreshift_foreground::reactor::{
    Delay, DrainStep, Event, Fd, RawEvent, Reactor, SignalfdStep, Token, EPOLLERR, EPOLLET,
    EPOLLHUP, EPOLLIN, EPOLLOUT, EPOLLPRI,
};
use coreshift_foreground::unix_socket::{
    apply_stale_socket_policy, bind_unix_listener, chmod_socket_path, chmod_unix_socket,
    connect_step, connect_unix_stream, may_chmod, new_unix_stream_socket, unlink_path,
    ConnectState, PeerCred, StaleSocketPolicy, StaleStep, UnixListenerFd, UnixSocketAddr,
    UnixSocketBindOptions, UnixStreamFd,
};

fn done(ret: i64) -> SysReply {
    SysReply { ret, errno: 0 }
}

fn failed(errno: i32) -> SysReply {
    SysReply { ret: -1, errno }
}

fn code<T>(r: Result<T, CoreError>) -> i32 {
    match r {
        Ok(_) => panic!("expected an error"),
        Err(e) => e.raw_os_error().unwrap(),
    }
}

fn outcome<T>(a: Attempt<T>) -> T {
    match a {
        Attempt::Done(t) => t,
        Attempt::Retry => panic!("unexpected retry"),
    }
}

// Descriptors

#[test]
fn test_fd_slice_io_helpers() {
    let r = Fd::new(done(3), "pipe").unwrap();
    assert_eq!(r.raw(), 3);
    assert_eq!(outcome(Fd::write_slice(done(5))).unwrap(), Some(5));
    assert_eq!(outcome(Fd::read_slice(done(5))).unwrap(), Some(5));
    assert_eq!(outcome(Fd::read_slice(failed(libc::EAGAIN))).unwrap(), None);
    assert!(matches!(Fd::read_slice(failed(libc::EINTR)), Attempt::Retry));
    assert_eq!(outcome(Fd::read_slice(failed(libc::EBADF))).unwrap_err().op(), "read");
    assert_eq!(outcome(Fd::write_slice(failed(libc::EPIPE))).unwrap_err().op(), "write");
}

#[test]
fn descriptor_calls_are_read() {
    assert_eq!(code(Fd::new(failed(24), "open")), 24);
    assert_eq!(Fd::eventfd(failed(24)).unwrap_err().op(), "eventfd");
    assert_eq!(Fd::timerfd(failed(24)).unwrap_err().op(), "timerfd_create");
    assert!(matches!(Fd::dup2(failed(libc::EINTR)), Attempt::Retry));
    assert!(outcome(Fd::dup2(done(1))).is_ok());
    assert_eq!(Fd::set_nonblock(done(2)).unwrap(), 2 | libc::O_NONBLOCK);
    assert_eq!(code(Fd::set_nonblock(failed(9))), 9);
    assert_eq!(Fd::set_cloexec(done(0)).unwrap(), libc::FD_CLOEXEC);
    assert_eq!(outcome(Fd::seek_set(done(7))).unwrap(), 7);
    assert_eq!(outcome(Fd::seek_set(failed(29))).unwrap_err().op(), "lseek");
    let (little, big) = (ByteOrder::Little, ByteOrder::Big);
    let bytes = [5, 1, 0, 0, 0, 0, 0, 0];
    assert_eq!(Fd::read_u64(Some(&bytes), little).unwrap(), Some(261));
    assert_eq!(Fd::read_u64(Some(&bytes), big).unwrap(), Some(0x0501 << 48));
    assert_eq!(Fd::read_u64(None, little).unwrap(), None);
    assert_eq!(code(Fd::read_u64(Some(&[5, 0, 0, 0]), little)), libc::EIO);
    assert_eq!(Fd::write_u64(0x0102, little), [2, 1, 0, 0, 0, 0, 0, 0]);
    assert_eq!(Fd::write_u64(0x0102, big), [0, 0, 0, 0, 0, 0, 1, 2]);
    for value in [0, 1, 1 << 40, 0x0102_0304_0506_0708, u64::MAX - 1] {
        for order in [little, big] {
            let written = Fd::write_u64(value, order);
            assert_eq!(Fd::read_u64(Some(&written), order).unwrap(), Some(value));
        }
        assert_eq!(Fd::write_u64(value, ByteOrder::native()), value.to_ne_bytes());
    }
    assert_eq!(Fd::set_timer_oneshot(None), (0, 0));
    assert_eq!(Fd::set_timer_oneshot(Some(Delay { secs: 0, nanos: 0 })), (0, 1));
    assert_eq!(Fd::set_timer_oneshot(Some(Delay { secs: 2, nanos: 7 })), (2, 7));
}

// Events

#[test]
fn event_bits_are_those_of_the_platform() {
    assert_eq!(EPOLLIN, libc::EPOLLIN as u32);
    assert_eq!(EPOLLPRI, libc::EPOLLPRI as u32);
    assert_eq!(EPOLLOUT, libc::EPOLLOUT as u32);
    assert_eq!(EPOLLERR, libc::EPOLLERR as u32);
    assert_eq!(EPOLLHUP, libc::EPOLLHUP as u32);
    assert_eq!(EPOLLET, libc::EPOLLET as u32);
}

#[test]
fn test_reactor_wait_zero_events() {
    let res = Reactor::wait(0, failed(libc::EINVAL), &[]);
    assert!(res.is_ok());
    assert_eq!(res.unwrap().len(), 0);
}

#[test]
fn test_reactor_add_priority_registers_fd() {
    let mut reactor = Reactor::new(done(3)).unwrap();
    let reg = reactor.add_priority();
    assert_eq!(reg.events, EPOLLET | EPOLLPRI);
    let token = Reactor::added(reg, done(0)).unwrap();
    assert!(Reactor::wait(4, done(0), &[]).unwrap().is_empty());
    assert!(format!("{token:?}").starts_with("Token("));
}

#[test]
fn tokens_are_never_given_out_twice() {
    let mut reactor = Reactor::new(done(3)).unwrap();
    let a = reactor.add(true, false);
    assert_eq!(code(Reactor::added(a, failed(17))), 17);
    let b = reactor.add(false, true);
    let c = reactor.add(true, true);
    assert_eq!(a.events, EPOLLET | EPOLLIN);
    assert_eq!(b.events, EPOLLET | EPOLLOUT);
    assert_eq!(c.events, EPOLLET | EPOLLIN | EPOLLOUT);
    assert!(a.token != b.token && b.token != c.token && a.token != c.token);
    assert_eq!(Token::new(c.token.val()), c.token);
    assert_eq!(Reactor::new(failed(24)).unwrap_err().op(), "epoll_create1");
}

#[test]
fn events_are_decoded() {
    let raw = [
        RawEvent { events: EPOLLIN, data: 4 },
        RawEvent { events: EPOLLHUP, data: 5 },
        RawEvent { events: EPOLLPRI | EPOLLOUT, data: 6 },
        RawEvent { events: EPOLLERR, data: 7 },
    ];
    let events = Reactor::wait(64, done(3), &raw).unwrap();
    let ev = |token: u64, r: bool, p: bool, w: bool, e: bool, h: bool| Event {
        token: Token(token),
        readable: r,
        priority: p,
        writable: w,
        error: e,
        hangup: h,
    };
    assert_eq!(
        events,
        vec![
            ev(4, true, false, false, false, false),
            ev(5, true, true, true, true, true),
            ev(6, false, true, true, false, false),
        ]
    );
    let last = Reactor::wait(64, done(4), &raw).unwrap();
    assert_eq!(last[3], ev(7, true, true, true, true, false));
    assert!(Reactor::wait(64, failed(libc::EINTR), &[]).unwrap().is_empty());
    assert_eq!(Reactor::wait(64, failed(9), &[]).unwrap_err().op(), "epoll_wait");
    assert!(matches!(Reactor::del(failed(libc::EINTR)), Attempt::Retry));
    assert_eq!(outcome(Reactor::del(failed(2))).unwrap_err().op(), "epoll_ctl_del");
    assert!(outcome(Reactor::del(done(0))).is_ok());
}

#[test]
fn test_reactor_setup_signalfd_rejects_repeated_setup() {
    let mut reactor = Reactor::new(done(3)).unwrap();
    assert!(matches!(reactor.setup_signalfd(), SignalfdStep::Block));
    assert!(matches!(Reactor::signalfd_blocked(0), SignalfdStep::Create));
    let reg = match reactor.signalfd_created(done(4)) {
        SignalfdStep::Register(reg) => reg,
        other => panic!("unexpected step {other:?}"),
    };
    assert!(matches!(reactor.signalfd_registered(reg, done(0)), SignalfdStep::Done(_)));

    match reactor.setup_signalfd() {
        SignalfdStep::Failed(err) => assert_eq!(err.raw_os_error(), Some(libc::EINVAL)),
        other => panic!("unexpected step {other:?}"),
    }
}

#[test]
fn failed_signal_setup_restores_the_mask() {
    let mut reactor = Reactor::new(done(3)).unwrap();
    assert!(matches!(Reactor::signalfd_blocked(22), SignalfdStep::Failed(_)));
    assert!(matches!(reactor.signalfd_created(failed(24)), SignalfdStep::Restore(_)));
    if let SignalfdStep::Register(reg) = reactor.signalfd_created(done(4)) {
        assert!(matches!(reactor.signalfd_registered(reg, failed(9)), SignalfdStep::Restore(_)));
    }
    assert!(matches!(reactor.setup_signalfd(), SignalfdStep::Block));
    assert!(matches!(Reactor::drain_signalfd(Ok(Some(128))), DrainStep::Again));
    assert!(matches!(Reactor::drain_signalfd(Ok(Some(100))), DrainStep::Done));
    assert!(matches!(Reactor::drain_signalfd(Ok(None)), DrainStep::Done));
    assert!(matches!(
        Reactor::drain_signalfd(Err(CoreError::sys(5, "read"))),
        DrainStep::Failed(_)
    ));

    assert_eq!(reactor.setup_inotify(failed(24)).unwrap_err().op(), "inotify_init1");
    let reg = reactor.setup_inotify(done(6)).unwrap();
    assert_eq!(reactor.inotify_registered(reg, done(0)).unwrap(), reg.token);
    assert_eq!(reactor.inotify_token, Some(reg.token));
}

// Sockets

#[test]
fn test_unix_socket_nul_path_rejected() {
    let path = b"/tmp/core\0socket";
    let opts = UnixSocketBindOptions {
        stale_socket_policy: StaleSocketPolicy::Preserve,
        mode: None,
    };
    let err = bind_unix_listener(UnixSocketAddr::Path(path), opts).unwrap_err();
    assert_eq!(err.raw_os_error(), Some(libc::EINVAL));

    let err = connect_unix_stream(UnixSocketAddr::Path(path)).unwrap_err();
    assert_eq!(err.raw_os_error(), Some(libc::EINVAL));
}

#[test]
fn test_unix_socket_overlong_path_and_abstract_rejected() {
    let path = "/tmp".to_string() + &"/x".repeat(120);
    let err = bind_unix_listener(
        UnixSocketAddr::Path(path.as_bytes()),
        UnixSocketBindOptions::default(),
    )
    .unwrap_err();
    assert_eq!(err.raw_os_error(), Some(libc::ENAMETOOLONG));

    let name = vec![b'x'; 108];
    let err = bind_unix_listener(
        UnixSocketAddr::Abstract(&name),
        UnixSocketBindOptions::default(),
    )
    .unwrap_err();
    assert_eq!(err.raw_os_error(), Some(libc::ENAMETOOLONG));
}

#[test]
fn addresses_are_encoded() {
    let plan = bind_unix_listener(
        UnixSocketAddr::Abstract(b"core\0shift"),
        UnixSocketBindOptions::default(),
    )
    .unwrap();
    assert_eq!(plan.sockaddr.sun_path, b"\0core\0shift");
    assert_eq!(plan.sockaddr.len, 2 + 11);
    assert!(!plan.cleanup && plan.stale.is_none() && plan.mode.is_none());

    let opts = UnixSocketBindOptions {
        stale_socket_policy: StaleSocketPolicy::UnlinkSocketOnly,
        mode: Some(0o600),
    };
    let plan = bind_unix_listener(UnixSocketAddr::Path(b"/tmp/s"), opts).unwrap();
    assert_eq!(plan.sockaddr.sun_path, b"/tmp/s\0");
    assert_eq!(plan.sockaddr.len, 2 + 7);
    assert_eq!(plan.stale, Some(StaleSocketPolicy::UnlinkSocketOnly));
    assert_eq!(plan.mode, Some(0o600));
    assert!(plan.cleanup);

    let longest = vec![b'x'; 107];
    assert!(connect_unix_stream(UnixSocketAddr::Path(&longest)).is_ok());
    assert!(connect_unix_stream(UnixSocketAddr::Abstract(&longest)).is_ok());
    assert_eq!(code(connect_unix_stream(UnixSocketAddr::Path(b""))), libc::EINVAL);
    assert_eq!(code(connect_unix_stream(UnixSocketAddr::Abstract(b""))), libc::EINVAL);
}

#[test]
fn test_unix_socket_unlink_socket_only_preserves_regular_file() {
    match apply_stale_socket_policy(StaleSocketPolicy::UnlinkSocketOnly, Ok(false)) {
        StaleStep::Failed(err) => assert_eq!(err.raw_os_error(), Some(libc::EEXIST)),
        other => panic!("unexpected step {other:?}"),
    }
}

#[test]
fn test_unix_socket_does_not_unlink_stale_path_by_default() {
    let opts = UnixSocketBindOptions::default();
    assert!(matches!(
        apply_stale_socket_policy(opts.stale_socket_policy, Ok(true)),
        StaleStep::Keep
    ));
}

#[test]
fn test_unix_socket_unlinks_stale_path_when_requested() {
    assert!(matches!(
        apply_stale_socket_policy(StaleSocketPolicy::UnlinkSocketOnly, Ok(true)),
        StaleStep::Unlink("unlink stale unix socket")
    ));
    assert!(matches!(
        apply_stale_socket_policy(StaleSocketPolicy::UnlinkAnyPath, Ok(false)),
        StaleStep::Unlink("unlink unix socket path")
    ));
    assert!(matches!(
        apply_stale_socket_policy(StaleSocketPolicy::UnlinkSocketOnly, Err(Some(libc::ENOENT))),
        StaleStep::Keep
    ));
    match apply_stale_socket_policy(StaleSocketPolicy::UnlinkSocketOnly, Err(None)) {
        StaleStep::Failed(err) => assert_eq!(err.raw_os_error(), Some(libc::EIO)),
        other => panic!("unexpected step {other:?}"),
    }
    assert!(unlink_path(Err(Some(libc::ENOENT)), "unlink").is_ok());
    assert_eq!(code(unlink_path(Err(Some(13)), "unlink")), 13);
    assert!(unlink_path(Ok(()), "unlink").is_ok());
}

#[test]
fn test_unix_socket_accept_returns_none_on_eagain() {
    assert!(outcome(UnixListenerFd::accept(failed(libc::EAGAIN))).unwrap().is_none());
    assert!(matches!(UnixListenerFd::accept(failed(libc::EINTR)), Attempt::Retry));
    assert_eq!(outcome(UnixListenerFd::accept(done(9))).unwrap().unwrap().fd, Fd(9));
    assert_eq!(code(outcome(UnixListenerFd::accept(failed(24)))), 24);
}

#[test]
fn test_unix_socket_chmod_path_only() {
    let err = chmod_unix_socket(UnixSocketAddr::Path(b"/tmp/f"), Ok(false), done(0)).unwrap_err();
    assert_eq!(err.raw_os_error(), Some(libc::EINVAL));

    let name = b"coreshift_abstract_chmod_rejected";
    let err = chmod_unix_socket(UnixSocketAddr::Abstract(name), Ok(true), done(0)).unwrap_err();
    assert_eq!(err.raw_os_error(), Some(libc::EINVAL));

    let opts = UnixSocketBindOptions {
        stale_socket_policy: StaleSocketPolicy::Preserve,
        mode: Some(0o600),
    };
    let err = bind_unix_listener(UnixSocketAddr::Abstract(name), opts).unwrap_err();
    assert_eq!(err.raw_os_error(), Some(libc::EINVAL));

    assert!(may_chmod(UnixSocketAddr::Path(b"/tmp/s"), Ok(true)).is_ok());
    assert!(chmod_socket_path(b"/tmp/s", Ok(true), done(0)).is_ok());
    assert_eq!(chmod_socket_path(b"/tmp/s", Ok(true), failed(1)).unwrap_err().op(), "chmod");
    assert_eq!(code(chmod_socket_path(b"/tmp/s", Err(Some(2)), done(0))), 2);
}

#[test]
fn test_unix_socket_connect_result_finish_is_safe() {
    assert_eq!(new_unix_stream_socket(done(4)).unwrap(), Fd(4));
    assert_eq!(outcome(connect_step(done(0))).unwrap(), ConnectState::Connected);
    assert_eq!(
        outcome(connect_step(failed(libc::EINPROGRESS))).unwrap(),
        ConnectState::InProgress
    );
    assert_eq!(
        outcome(connect_step(failed(libc::EALREADY))).unwrap(),
        ConnectState::InProgress
    );
    assert_eq!(
        outcome(connect_step(failed(libc::EISCONN))).unwrap(),
        ConnectState::Connected
    );
    assert!(matches!(connect_step(failed(libc::EINTR)), Attempt::Retry));
    assert_eq!(code(outcome(connect_step(failed(libc::ECONNREFUSED)))), libc::ECONNREFUSED);

    assert_eq!(UnixStreamFd::check_connect_error(done(0), 0).unwrap(), None);
    let stream = UnixStreamFd { fd: Fd(4) };
    let stream = stream.finish_connect(done(0), 0).unwrap();
    assert_eq!(code(stream.finish_connect(done(0), 111)), 111);
    let stream = UnixStreamFd { fd: Fd(4) };
    assert_eq!(code(stream.finish_connect(failed(9), 0)), 9);
}

#[test]
fn test_unix_socket_peer_credentials_when_supported() {
    let cred = UnixStreamFd::peer_cred(done(0), 42, 1000, 1001).unwrap().unwrap();
    assert_eq!(cred, PeerCred { pid: Some(42), uid: 1000, gid: 1001 });
    assert_eq!(code(UnixStreamFd::peer_cred(failed(9), 0, 0, 0)), 9);
}
