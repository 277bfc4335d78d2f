use coreshift_foreground::byte_order::ByteOrder;
use coreshift_foreground::error::{Attempt, CoreError, SysReply};
use coreshift_foreground::io::buffer::{BufferState, ReadState, ReadStep};
use coreshift_foreground::io::drain::{DrainState, PipeStep};
use coreshift_foreground::io::writer::{WriteStep, WriterState};
use coreshift_foreground::reactor::{Event, Fd, Reactor, Token};
use coreshift_foreground::spawn::child::{
    close_child_fds_for_policy, collect_open_fds_for_child_policy, report_child_setup_error,
    spawn_fork_internal, ChildSetupOp, ChildStep, ForkRequest, ReportReader, ReportStep,
};
use coreshift_foreground::spawn::options::{
    spawn_start, validate_fd_policy, CancelPolicy, ExecContext, ProcessGroup, SpawnBackend,
    SpawnFdPolicy, SpawnOptions,
};
use coreshift_foreground::spawn::pipes::{PipeReply, Pipes};
use coreshift_foreground::spawn::posix as p;
use coreshift_foreground::spawn::posix::{spawn_posix_internal, PosixOp};
use coreshift_foreground::spawn::process::{decode_status, ExitStatus, Process};
use coreshift_foreground::spawn::wait::{
    spawn, KillState, PipeAction, RunningProcess, Spawned, WaitLoop, WaitStep,
};

fn done(ret: i64) -> SysReply {
    SysReply { ret, errno: 0 }
}

fn failed(errno: i32) -> SysReply {
    SysReply { ret: -1, errno }
}

fn code<T>(r: Result<T, CoreError>) -> i32 {
    match r {
        Ok(_) => panic!("expected an error"),
        Err(e) => e.raw_os_error().unwrap(),
    }
}

fn args(list: &[&str]) -> Vec<String> {
    list.iter().map(|s| s.to_string()).collect()
}

fn pipe(read_end: i32, write_end: i32) -> PipeReply {
    PipeReply { reply: done(0), read_end, write_end }
}

// Requests

#[test]
fn test_exec_context_validation() {
    let res = SpawnOptions::builder(vec![], SpawnBackend::Fork).build();
    assert!(res.is_err());

    let res = SpawnOptions::builder(
        vec!["valid".to_string(), "inv\0alid".to_string()],
        SpawnBackend::Fork,
    )
    .build();
    assert!(res.is_err());

    let res = SpawnOptions::builder(
        vec!["/bin/ls".to_string(), "-l".to_string()],
        SpawnBackend::Fork,
    )
    .cwd("/tmp".to_string())
    .build();
    assert!(res.is_ok());
}

#[test]
fn exec_errors_name_what_is_wrong() {
    let op = |r: Result<ExecContext, CoreError>| r.unwrap_err().op();
    assert_eq!(op(ExecContext::new(vec![], None, None)), "exec argv empty");
    assert_eq!(
        op(ExecContext::new(args(&["a\0"]), Some(args(&["b\0"])), None)),
        "exec argv contains nul"
    );
    assert_eq!(
        op(ExecContext::new(args(&["a"]), Some(args(&["b\0"])), Some("c\0".into()))),
        "exec env contains nul"
    );
    assert_eq!(
        op(ExecContext::new(args(&["a"]), None, Some("c\0".into()))),
        "exec cwd contains nul"
    );
}

#[test]
fn builders_keep_what_they_are_given() {
    let opts = SpawnOptions::builder(args(&["a"]), SpawnBackend::Fork)
        .env(args(&["K=V"]))
        .stdin(vec![1, 2])
        .capture_stdout()
        .capture_stderr()
        .pgroup(ProcessGroup::new(Some(5), true))
        .max_output(7)
        .timeout_ms(9)
        .kill_grace_ms(11)
        .cancel(CancelPolicy::Graceful)
        .fd_policy(SpawnFdPolicy::Allowlist(vec![4]))
        .early_exit()
        .build()
        .unwrap();
    assert_eq!(opts.ctx.envp, Some(args(&["K=V"])));
    assert_eq!(opts.stdin, Some(vec![1, 2]));
    assert!(opts.capture_stdout && opts.capture_stderr && opts.wait && opts.early_exit);
    assert_eq!(opts.pgroup, ProcessGroup { leader: Some(5), isolated: true });
    assert_eq!((opts.max_output, opts.timeout_ms, opts.kill_grace_ms), (7, Some(9), 11));
    assert_eq!(opts.cancel, CancelPolicy::Graceful);

    let plain = SpawnOptions::builder(args(&["a"]), SpawnBackend::PosixSpawn).build().unwrap();
    assert_eq!((plain.max_output, plain.timeout_ms, plain.kill_grace_ms), (1 << 20, None, 2000));
    assert_eq!(plain.cancel, CancelPolicy::Kill);
    assert!(matches!(plain.fd_policy, SpawnFdPolicy::CloexecOnly));
    assert_eq!(CancelPolicy::default(), CancelPolicy::NoAction);
    assert_eq!(ProcessGroup::default(), ProcessGroup::new(None, false));
}

#[test]
fn test_posix_spawn_rejects_unsupported_cwd() {
    let opts = SpawnOptions::builder(vec!["/bin/true".to_string()], SpawnBackend::PosixSpawn)
        .cwd("/tmp".to_string())
        .build()
        .unwrap();
    let err = spawn_start(&opts, &[]).unwrap_err();
    assert_eq!(err.raw_os_error(), Some(libc::EINVAL));
    assert_eq!(err.op(), "posix_spawn cwd unsupported");
}

#[test]
fn test_posix_spawn_rejects_unsupported_setsid() {
    let opts = SpawnOptions::builder(vec!["/bin/true".to_string()], SpawnBackend::PosixSpawn)
        .pgroup(ProcessGroup::new(None, true))
        .build()
        .unwrap();
    let err = spawn_start(&opts, &[]).unwrap_err();
    assert_eq!(err.raw_os_error(), Some(libc::EINVAL));
    assert_eq!(err.op(), "posix_spawn setsid unsupported");
}

#[test]
fn test_posix_spawn_rejects_close_from3_fd_policy() {
    let opts = SpawnOptions::builder(vec!["/bin/true".to_string()], SpawnBackend::PosixSpawn)
        .fd_policy(SpawnFdPolicy::CloseFrom3)
        .build()
        .unwrap();
    let err = spawn_start(&opts, &[]).unwrap_err();
    assert_eq!(err.raw_os_error(), Some(libc::EINVAL));
    assert_eq!(err.op(), "posix_spawn fd policy unsupported");
}

#[test]
fn test_spawn_fd_policy_rejects_dirty_allowlist() {
    let fd = 5;
    let opts = SpawnOptions::builder(vec!["/bin/true".to_string()], SpawnBackend::PosixSpawn)
        .fd_policy(SpawnFdPolicy::Allowlist(vec![fd, fd]))
        .build()
        .unwrap();
    let err = spawn_start(&opts, &[done(0), done(0)]).unwrap_err();
    assert_eq!(err.raw_os_error(), Some(libc::EINVAL));
    assert_eq!(err.op(), "spawn fd allowlist duplicate");
}

#[test]
fn allowlists_are_checked_in_order() {
    let list = |fds: Vec<i32>| SpawnFdPolicy::Allowlist(fds);
    let err = validate_fd_policy(&list(vec![4, -1]), &[done(0), failed(9)]).unwrap_err();
    assert_eq!(err.op(), "spawn fd allowlist invalid");
    let err = validate_fd_policy(&list(vec![4, 5]), &[failed(9), done(0)]).unwrap_err();
    assert_eq!(err.message(), "spawn fd allowlist fcntl(F_GETFD) failed (code=9)");
    assert!(validate_fd_policy(&list(vec![4, 5]), &[done(1), done(0)]).is_ok());
    assert!(validate_fd_policy(&SpawnFdPolicy::CloseFrom3, &[]).is_ok());
}

#[test]
fn test_spawn_start_wait_false_validation() {
    let base_builder = SpawnOptions::builder(
        vec!["/bin/sh".to_string(), "-c".to_string(), "true".to_string()],
        SpawnBackend::PosixSpawn,
    )
    .wait(false)
    .max_output(1024)
    .kill_grace_ms(1000);

    assert!(spawn_start(&base_builder.clone().build().unwrap(), &[]).is_ok());
    assert!(spawn_start(&base_builder.clone().capture_stdout().build().unwrap(), &[]).is_err());
    assert!(spawn_start(&base_builder.stdin(vec![1, 2, 3]).build().unwrap(), &[]).is_err());
}

#[test]
fn starts_tell_the_streams() {
    let opts = SpawnOptions::builder(args(&["a"]), SpawnBackend::Fork)
        .capture_stderr()
        .stdin(vec![])
        .build()
        .unwrap();
    let start = spawn_start(&opts, &[]).unwrap();
    assert_eq!(start.backend, SpawnBackend::Fork);
    assert!(start.stdin && !start.stdout && start.stderr);
}

// Pipes and the calls that use them

#[test]
fn the_first_pipe_that_fails_decides() {
    let bad = |errno| PipeReply { reply: failed(errno), read_end: 0, write_end: 0 };
    assert_eq!(code(Pipes::new(Some(bad(24)), Some(bad(23)), None)), 24);
    assert_eq!(code(Pipes::new(Some(pipe(3, 4)), None, Some(bad(23)))), 23);
    let p = Pipes::new(None, Some(pipe(3, 4)), None).unwrap();
    assert!(p.stdin.is_none() && p.stderr.is_none());
    assert_eq!(p.stdout, Some((Fd(3), Fd(4))));
    assert_eq!(p.collect_required_pipe_fds(), vec![3, 4]);
}

#[test]
fn posix_spawn_is_set_up_in_order() {
    let p = Pipes::new(Some(pipe(3, 4)), Some(pipe(5, 6)), None).unwrap();
    let ops = spawn_posix_internal(&p, Some(77));
    let shown: Vec<String> = ops.iter().map(|op| format!("{op:?}")).collect();
    assert_eq!(
        shown,
        vec![
            "InitActions",
            "Dup2 { fd: 3, to: 0, name: \"dup2 stdin\" }",
            "Close { fd: 3, name: \"close stdin pipe\" }",
            "Close { fd: 4, name: \"close stdin write pipe\" }",
            "Dup2 { fd: 6, to: 1, name: \"dup2 stdout\" }",
            "Close { fd: 6, name: \"close stdout pipe\" }",
            "Close { fd: 5, name: \"close stdout read pipe\" }",
            "InitAttr",
            "SetPgroup(77)",
            "SetFlags(14)",
            "SetSigmask",
            "SetSigdefault",
            "Spawn",
        ]
    );
    assert!(ops[0].outcome(0).is_ok());
    assert_eq!(ops[1].outcome(9).unwrap_err().message(), "dup2 stdin failed (code=9)");
    assert_eq!(PosixOp::Spawn.outcome(2).unwrap_err().op(), "posix_spawn");
    let plain = Pipes::new(None, None, None).unwrap();
    let shown = format!("{:?}", spawn_posix_internal(&plain, None));
    assert_eq!(
        shown,
        "[InitActions, InitAttr, SetFlags(12), SetSigmask, SetSigdefault, Spawn]"
    );
}

#[test]
fn spawn_flags_are_those_of_the_platform() {
    assert_eq!(p::POSIX_SPAWN_SETPGROUP, libc::POSIX_SPAWN_SETPGROUP as i32);
    assert_eq!(p::POSIX_SPAWN_SETSIGDEF, libc::POSIX_SPAWN_SETSIGDEF as i32);
    assert_eq!(p::POSIX_SPAWN_SETSIGMASK, libc::POSIX_SPAWN_SETSIGMASK as i32);
}

fn in_directory() -> ForkRequest {
    ForkRequest {
        pipes: Pipes::new(None, Some(pipe(5, 6)), None).unwrap(),
        report_r: 7,
        report_w: 8,
        policy: SpawnFdPolicy::Allowlist(vec![10]),
        open_fds: vec![0, 1, 2, 5, 6, 7, 8, 9, 10],
        isolated: true,
        has_cwd: true,
        leader: Some(3),
    }
}

#[test]
fn forked_children_are_set_up_in_order() {
    let steps = spawn_fork_internal(&in_directory());
    let shown: Vec<String> = steps.iter().map(|s| format!("{s:?}")).collect();
    assert_eq!(
        shown,
        vec![
            "Close(7)",
            "DupStdout(6)",
            "Close(5)",
            "Close(6)",
            "Close(7)",
            "Close(9)",
            "Setsid",
            "Chdir",
            "Setpgid(3)",
            "UnblockSignals",
            "ResetSigpipe",
            "Exec",
        ]
    );
    assert_eq!(steps[0].failure(), None);
    assert_eq!(steps[1].failure(), Some(ChildSetupOp::DupStdout));
    assert_eq!(ChildStep::UnblockSignals.failure(), Some(ChildSetupOp::SignalMask));
    assert_eq!(ChildStep::ResetSigpipe.failure(), Some(ChildSetupOp::SignalMask));
    assert_eq!(ChildStep::Exec.failure(), Some(ChildSetupOp::Execve));
}

#[test]
fn test_fork_reports_child_chdir_error() {
    // The child changes its directory before it becomes the program, so that a
    // directory that does not exist is reported.
    let steps = spawn_fork_internal(&in_directory());
    let at = |wanted: fn(&ChildStep) -> bool| steps.iter().position(wanted).unwrap();
    let chdir = at(|step| matches!(step, ChildStep::Chdir));
    assert!(chdir < at(|step| matches!(step, ChildStep::Exec)));
    assert_eq!(steps[chdir].failure(), Some(ChildSetupOp::Chdir));

    let order = ByteOrder::native();
    let op = steps[chdir].failure().unwrap();
    let msg = report_child_setup_error(op, libc::ENOENT, order);
    let mut reader = ReportReader::new(order);
    assert!(matches!(
        reader.read_child_setup_error(done(3), &msg[..3]),
        ReportStep::More
    ));
    assert!(matches!(
        reader.read_child_setup_error(failed(libc::EINTR), &[]),
        ReportStep::More
    ));
    match reader.read_child_setup_error(done(2), &msg[3..]) {
        ReportStep::Child(err) => {
            assert_eq!(err.raw_os_error(), Some(libc::ENOENT));
            assert!(err.message().contains("fork child chdir"));
        }
        other => panic!("unexpected step {other:?}"),
    }
}

#[test]
fn reports_are_read_back() {
    let ops = [
        ChildSetupOp::DupStdin,
        ChildSetupOp::DupStdout,
        ChildSetupOp::DupStderr,
        ChildSetupOp::Setsid,
        ChildSetupOp::Chdir,
        ChildSetupOp::Setpgid,
        ChildSetupOp::SignalMask,
        ChildSetupOp::Execve,
    ];
    for op in ops {
        for number in [0, 1, 255, 256, 0x0102_0304, -1, i32::MIN, i32::MAX] {
            for order in [ByteOrder::Little, ByteOrder::Big] {
                let msg = report_child_setup_error(op, number, order);
                match ReportReader::new(order).read_child_setup_error(done(5), &msg) {
                    ReportStep::Child(err) => {
                        assert_eq!(err.raw_os_error(), Some(number));
                        assert_eq!(err.op(), op.as_str());
                    }
                    other => panic!("unexpected step {other:?}"),
                }
            }
            let native = report_child_setup_error(op, number, ByteOrder::native());
            assert_eq!(native[..4], number.to_ne_bytes());
        }
        assert_eq!(ChildSetupOp::from_u8(op.to_u8()), op);
    }
    assert_eq!(ChildSetupOp::from_u8(200), ChildSetupOp::Execve);
    assert!(matches!(
        ReportReader::new(ByteOrder::native()).read_child_setup_error(done(0), &[]),
        ReportStep::Running
    ));
    match ReportReader::new(ByteOrder::native()).read_child_setup_error(failed(5), &[]) {
        ReportStep::Failed(err) => assert_eq!(err.op(), "read fork child setup error"),
        other => panic!("unexpected step {other:?}"),
    }
}

#[test]
fn test_fork_close_from3_closes_inherited_fd() {
    let closed = close_child_fds_for_policy(&SpawnFdPolicy::CloseFrom3, &[8], &[0, 1, 2, 3, 8, 9]);
    assert_eq!(closed, vec![3, 9]);
}

#[test]
fn test_fork_allowlist_preserves_allowed_fd() {
    let allow = SpawnFdPolicy::Allowlist(vec![9]);
    assert_eq!(close_child_fds_for_policy(&allow, &[8], &[0, 1, 2, 3, 8, 9]), vec![3]);
    let none = close_child_fds_for_policy(&SpawnFdPolicy::CloexecOnly, &[], &[3, 4]);
    assert!(none.is_empty());
}

#[test]
fn open_descriptors_are_listed() {
    let names: Vec<Vec<u8>> = [&b"."[..], b"..", b"0", b"12", b"7", b"\xff", b"x"]
        .iter()
        .map(|n| n.to_vec())
        .collect();
    let open = collect_open_fds_for_child_policy(&SpawnFdPolicy::CloseFrom3, &names, 7);
    assert_eq!(open, vec![0, 12]);
    let none = collect_open_fds_for_child_policy(&SpawnFdPolicy::CloexecOnly, &names, 7);
    assert!(none.is_empty());
}

// Ends of processes

#[test]
fn wait_statuses_are_decoded() {
    assert_eq!(decode_status(0), ExitStatus::Exited(0));
    assert_eq!(decode_status(3 << 8), ExitStatus::Exited(3));
    assert_eq!(decode_status(255 << 8), ExitStatus::Exited(255));
    assert_eq!(decode_status(9), ExitStatus::Signaled(9));
    assert_eq!(decode_status(11 | 0x80), ExitStatus::Signaled(11));
    assert_eq!(decode_status(0x137f), ExitStatus::Exited(-1));
    for status in 0..0x1_0000 {
        let expected = if libc::WIFEXITED(status) {
            ExitStatus::Exited(libc::WEXITSTATUS(status))
        } else if libc::WIFSIGNALED(status) {
            ExitStatus::Signaled(libc::WTERMSIG(status))
        } else {
            ExitStatus::Exited(-1)
        };
        assert_eq!(decode_status(status), expected);
    }
}

#[test]
fn test_process_echild() {
    let res = match Process::wait_step(failed(libc::ECHILD), 0) {
        Attempt::Done(res) => res,
        Attempt::Retry => panic!("unexpected retry"),
    };
    assert!(res.is_err());
}

#[test]
fn waits_and_signals_are_read() {
    assert!(matches!(Process::wait_step(done(0), 0), Attempt::Done(Ok(None))));
    assert!(matches!(Process::wait_step(failed(libc::EINTR), 0), Attempt::Retry));
    match Process::wait_step(done(5), 2 << 8) {
        Attempt::Done(Ok(Some(status))) => assert_eq!(status, ExitStatus::Exited(2)),
        other => panic!("unexpected outcome {other:?}"),
    }
    match Process::wait_blocking(done(5), 15) {
        Attempt::Done(Ok(status)) => assert_eq!(status, ExitStatus::Signaled(15)),
        other => panic!("unexpected outcome {other:?}"),
    }
    assert!(matches!(Process::wait_blocking(failed(libc::EINTR), 0), Attempt::Retry));
    assert!(Process::kill(failed(libc::ESRCH)).is_ok());
    assert_eq!(Process::kill(failed(libc::EPERM)).unwrap_err().op(), "kill");
    assert!(Process::kill_pgroup(done(0)).is_ok());
    assert_eq!(code(Process::kill_pgroup(failed(libc::EPERM))), libc::EPERM);
    let p = Process::new(12);
    assert_eq!((p.pid(), p.target(false), p.target(true)), (12, 12, -12));
}

// Output

fn run_to_end(limit: usize, out: &[u8], err: &[u8]) -> Result<(Vec<u8>, Vec<u8>), CoreError> {
    let mut drain = DrainState::new(None, None, Some(Fd(5)), Some(Fd(6)), limit);
    for (is_stdout, mut rest) in [(true, out), (false, err)] {
        loop {
            let n = rest.len().min(drain.buffer.to_read());
            let (now, later) = rest.split_at(n);
            rest = later;
            match drain.read_fd(is_stdout, Ok(Some(now)), false) {
                PipeStep::More => continue,
                PipeStep::Close(_) => break,
                other => panic!("unexpected step {other:?}"),
            }
        }
    }
    assert!(drain.is_done());
    let wait = WaitLoop::new(None, 0, CancelPolicy::Kill, ProcessGroup::default(), None);
    let output = wait.finish(1, ExitStatus::Exited(0), drain)?;
    Ok((output.stdout, output.stderr))
}

#[test]
fn test_spawn_output_limit_is_combined_and_errors() {
    let err = run_to_end(8, b"12345", b"67890").unwrap_err();
    assert_eq!(err.raw_os_error(), Some(libc::EOVERFLOW));
}

#[test]
fn test_spawn_output_exact_limit_eof_is_not_overflow() {
    let (stdout, _) = run_to_end(5, b"12345", b"").unwrap();
    assert_eq!(stdout, b"12345");
}

#[test]
fn test_spawn_zero_output_limit_without_output_is_not_overflow() {
    let (stdout, stderr) = run_to_end(0, b"", b"").unwrap();
    assert!(stdout.is_empty());
    assert!(stderr.is_empty());
}

fn early_exit_on_stop(chunk: &[u8]) -> bool {
    chunk.windows(4).any(|window| window == b"stop")
}

#[test]
fn test_drain_early_exit_is_explicit_state_not_eof() {
    let mut drain = DrainState::new(None, None, Some(Fd(5)), None, 128);
    let step = drain.read_fd(true, Ok(Some(b"stop")), early_exit_on_stop(b"stop"));
    assert!(matches!(step, PipeStep::Close(_)));
    assert!(drain.stdout_early_exited());

    assert!(!drain.output_limit_exceeded());
}

#[test]
fn buffers_ask_for_what_they_have_room_for() {
    let mut b = BufferState::new(100_000);
    assert_eq!(b.to_read(), 65536);
    assert!(matches!(b.read_from_fd(false, Ok(Some(&[7; 65536])), false), ReadStep::More));
    assert_eq!(b.to_read(), 100_000 - 65536);
    assert!(b.heeds_match(true) && !b.heeds_match(false));
    assert!(matches!(b.read_from_fd(true, Ok(Some(&[8; 34464])), false), ReadStep::More));
    assert!(!b.heeds_match(true));
    assert_eq!(b.to_read(), 8192);
    assert!(!b.output_limit_exceeded());
    assert!(matches!(
        b.read_from_fd(true, Ok(Some(&[])), false),
        ReadStep::Ended(ReadState::Eof)
    ));
    assert!(matches!(
        b.read_from_fd(true, Ok(None), false),
        ReadStep::Ended(ReadState::Open)
    ));
    assert!(!b.output_limit_exceeded());
    assert!(matches!(b.read_from_fd(true, Ok(Some(&[9])), true), ReadStep::More));
    assert!(b.output_limit_exceeded());
    assert!(matches!(
        b.read_from_fd(true, Err(CoreError::sys(5, "read")), false),
        ReadStep::Failed(_)
    ));
    let (out, err, exceeded, early) = b.into_parts();
    assert_eq!((out.len(), err.len(), exceeded, early), (34464, 65536, true, false));
}

#[test]
fn test_writer_state_epipe() {
    let mut writer = WriterState::new(Some(vec![0u8; 1024 * 1024]));
    assert!(matches!(writer.write_to_fd(Ok(Some(65536))), WriteStep::More));
    assert_eq!(writer.pending().unwrap().len(), 1024 * 1024 - 65536);
    let step = writer.write_to_fd(Err(CoreError::sys(libc::EPIPE, "write")));
    assert!(matches!(step, WriteStep::Finished));
    assert!(writer.buf.is_none());
}

#[test]
fn writers_deliver_everything_once() {
    let data: Vec<u8> = (0..=255).collect();
    let mut writer = WriterState::new(Some(data.clone()));
    let mut got = Vec::new();
    loop {
        let Some(bytes) = writer.pending() else { break };
        let n = bytes.len().min(100);
        got.extend_from_slice(&bytes[..n]);
        assert!(matches!(writer.write_to_fd(Ok(None)), WriteStep::Blocked));
        writer.write_to_fd(Ok(Some(n)));
    }
    assert_eq!(got, data);
    assert!(writer.buf.is_none());
    assert!(matches!(
        WriterState::new(Some(vec![1])).write_to_fd(Err(CoreError::sys(5, "write"))),
        WriteStep::Failed(_)
    ));
}

// Running processes

fn event(token: Token, readable: bool, writable: bool, error: bool) -> Event {
    Event { token, readable, priority: false, writable, error, hangup: false }
}

#[test]
fn pipes_are_registered_and_served() {
    let p = Pipes::new(Some(pipe(3, 4)), Some(pipe(5, 6)), Some(pipe(7, 8))).unwrap();
    let (mut running, child) = RunningProcess::started(99, p, Some(vec![1, 2, 3]), 100);
    assert_eq!(child, vec![Fd(3), Fd(6), Fd(8)]);
    let mut reactor = Reactor::new(done(3)).unwrap();
    let regs = running.register_with_reactor(&mut reactor);
    let fds: Vec<i32> = regs.iter().map(|r| r.fd).collect();
    assert_eq!(fds, vec![4, 5, 7]);
    let t = |i: usize| regs[i].registration.token;
    assert_eq!((t(0), t(1), t(2)), (Token(1), Token(2), Token(3)));

    let act = |ev: Event| running.handle_reactor_event(&ev);
    assert_eq!(act(event(t(1), true, false, true)), PipeAction::ReadStdout);
    assert_eq!(act(event(t(1), false, false, true)), PipeAction::DropStdout);
    assert_eq!(act(event(t(2), true, false, false)), PipeAction::ReadStderr);
    assert_eq!(act(event(t(2), false, true, true)), PipeAction::DropStderr);
    assert_eq!(act(event(t(0), false, true, false)), PipeAction::WriteStdin);
    assert_eq!(act(event(t(0), true, false, true)), PipeAction::DropStdin);
    assert_eq!(act(event(t(0), true, false, false)), PipeAction::Ignore);
    assert_eq!(act(event(Token(9), true, true, true)), PipeAction::Ignore);

    assert!(!running.io_done());
    assert!(matches!(running.drain.write_stdin(Ok(Some(1))), PipeStep::More));
    assert!(matches!(running.drain.write_stdin(Ok(None)), PipeStep::Wait));
    assert!(matches!(running.drain.write_stdin(Ok(Some(2))), PipeStep::Close(_)));
    assert!(matches!(running.drain.write_stdin(Ok(None)), PipeStep::Absent));
    assert!(matches!(running.drain.read_fd(true, Ok(Some(b"hi")), false), PipeStep::More));
    assert!(matches!(running.drain.read_fd(true, Ok(None), false), PipeStep::Wait));
    assert_eq!(running.drain.drop_stderr().unwrap().fd, Fd(7));
    let left = running.drain.take_all_slots();
    assert_eq!(left.len(), 1);
    assert!(running.io_done());
    assert_eq!(running.into_output_parts().0, b"hi");
}

#[test]
fn processes_that_nobody_waits_for_are_left() {
    let p = Pipes::new(None, None, None).unwrap();
    let (running, _) = RunningProcess::started(7, p, None, 10);
    let opts = SpawnOptions::builder(args(&["a"]), SpawnBackend::Fork).wait(false).build().unwrap();
    match spawn(&opts, &running, None) {
        Spawned::Left(out) => {
            assert_eq!((out.pid, out.status), (7, None));
            assert!(!out.timed_out && out.stdout.is_empty());
        }
        Spawned::Wait(_) => panic!("unexpected wait"),
    }
    let opts = SpawnOptions::builder(args(&["a"]), SpawnBackend::Fork)
        .pgroup(ProcessGroup::new(Some(3), false))
        .timeout_ms(5)
        .build()
        .unwrap();
    match spawn(&opts, &running, None) {
        Spawned::Wait(w) => assert!(w.group && w.timeout_ms == Some(5)),
        Spawned::Left(_) => panic!("unexpected end"),
    }
}

const MS: u128 = 1_000_000;

#[test]
fn time_limits_lead_to_signals() {
    let group = ProcessGroup::default();
    let mut w = WaitLoop::new(Some(1000), 200, CancelPolicy::Graceful, group, None);
    let t = w.tick(0);
    assert_eq!((t.signal, t.poll_timeout), (None, 1000));
    let t = w.tick(999 * MS + 1);
    assert_eq!((t.signal, t.poll_timeout), (None, 0));
    assert!(!w.timed_out);
    let t = w.tick(1000 * MS);
    assert_eq!((t.signal, t.poll_timeout), (Some(libc::SIGTERM), 100));
    assert!(w.timed_out);
    w.term_sent(true);
    assert_eq!(w.tick(1200 * MS).signal, None);
    assert_eq!(w.tick(1201 * MS).signal, Some(libc::SIGKILL));
    assert_eq!(w.state, KillState::KillSent);
    assert_eq!(w.tick(5000 * MS).signal, None);

    let mut w = WaitLoop::new(Some(0), 0, CancelPolicy::Kill, group, None);
    assert_eq!(w.tick(0).signal, Some(libc::SIGKILL));
    assert_eq!(w.tick(1).signal, None);

    let mut w = WaitLoop::new(Some(1), 0, CancelPolicy::NoAction, group, None);
    assert_eq!(w.tick(2 * MS).signal, None);
    assert!(w.timed_out);

    let mut w = WaitLoop::new(Some(1), 0, CancelPolicy::Graceful, group, None);
    assert_eq!(w.tick(MS).signal, Some(libc::SIGTERM));
    w.term_sent(false);
    assert_eq!(w.tick(900 * MS).signal, None);

    let mut w = WaitLoop::new(None, 0, CancelPolicy::Kill, group, None);
    let t = w.tick(u128::MAX);
    assert_eq!((t.signal, t.poll_timeout), (None, -1));
    assert_eq!(w.poll_timeout(t), -1);
    w.observe(Some(ExitStatus::Exited(4)));
    w.observe(Some(ExitStatus::Exited(5)));
    assert_eq!(w.status, Some(ExitStatus::Exited(4)));
    assert_eq!(w.poll_timeout(t), 1);

    let mut w = WaitLoop::new(Some(u32::MAX), 0, CancelPolicy::Kill, group, None);
    assert_eq!(w.tick(0).poll_timeout, i32::MAX);
}

#[test]
fn time_limits_hold_without_pipes() {
    let group = ProcessGroup::default();
    let mut w = WaitLoop::new(Some(100), 0, CancelPolicy::Kill, group, None);
    let t = w.tick(0);
    assert_eq!(t.signal, None);
    assert_eq!(w.next(true, t), WaitStep::Poll(10));
    assert_eq!(w.next(false, t), WaitStep::Poll(100));
    let t = w.tick(96 * MS);
    assert_eq!(w.next(true, t), WaitStep::Poll(4));
    let t = w.tick(100 * MS);
    assert_eq!(t.signal, Some(libc::SIGKILL));
    assert_eq!(w.next(true, t), WaitStep::Poll(10));
    assert_eq!(w.next(false, t), WaitStep::Poll(100));
    let killed = ExitStatus::Signaled(libc::SIGKILL);
    w.observe(Some(killed));
    assert_eq!(w.next(false, t), WaitStep::Poll(1));
    assert_eq!(w.next(true, t), WaitStep::Finish(killed));
    let out = w.finish(9, killed, DrainState::new(None, None, None, None, 0)).unwrap();
    assert!(out.timed_out && out.status == Some(killed));

    let mut w = WaitLoop::new(None, 0, CancelPolicy::Kill, group, None);
    let t = w.tick(0);
    assert_eq!(w.next(true, t), WaitStep::Block);
    assert_eq!(w.next(false, t), WaitStep::Poll(-1));
    w.observe(Some(ExitStatus::Exited(0)));
    assert_eq!(w.next(true, t), WaitStep::Finish(ExitStatus::Exited(0)));
}

#[test]
fn input_is_delivered_from_its_start() {
    let pipes = Pipes::new(Some(pipe(3, 4)), None, None).unwrap();
    let (running, child) = RunningProcess::started(7, pipes, Some(b"abc".to_vec()), 16);
    assert_eq!(child.len(), 1);
    assert_eq!(running.drain.writer.pending(), Some(&b"abc"[..]));
}
