//! Running processes: their pipes, their time limit and their end.

use vstd::prelude::*;

use crate::error::{CoreError, EOVERFLOW};
use crate::io::buffer;
use crate::io::drain;
use crate::io::drain::DrainState;
use crate::reactor;
use crate::reactor::{Event, Fd, Reactor, Registration};
use crate::spawn::options::{CancelPolicy, ProcessGroup, SpawnOptions};
use crate::spawn::pipes;
use crate::spawn::pipes::Pipes;
use crate::spawn::process::{ExitStatus, Process, SIGKILL, SIGTERM};

verus! {

// ---------------------------------------------------------------------------
// Pipes of a running process
// ---------------------------------------------------------------------------

/// A process that runs, and its pipes.
#[derive(Debug)]
pub struct RunningProcess {
    pub process: Process,
    pub drain: DrainState,
}

/// What to do about an event.
#[derive(Debug, Clone, Copy, PartialEq, Eq, Structural)]
pub enum PipeAction {
    ReadStdout,
    DropStdout,
    ReadStderr,
    DropStderr,
    WriteStdin,
    DropStdin,
    Ignore,
}

/// What to do about an event: move what can be moved on the pipe that it is for,
/// or drop the pipe if that is in error.
pub open spec fn action_for(d: DrainState, ev: Event) -> PipeAction {
    if drain::matches_token(d.stdout_slot, ev.token) {
        if ev.readable {
            PipeAction::ReadStdout
        } else if ev.error {
            PipeAction::DropStdout
        } else {
            PipeAction::Ignore
        }
    } else if drain::matches_token(d.stderr_slot, ev.token) {
        if ev.readable {
            PipeAction::ReadStderr
        } else if ev.error {
            PipeAction::DropStderr
        } else {
            PipeAction::Ignore
        }
    } else if drain::matches_token(d.stdin_slot, ev.token) {
        if ev.writable {
            PipeAction::WriteStdin
        } else if ev.error {
            PipeAction::DropStdin
        } else {
            PipeAction::Ignore
        }
    } else {
        PipeAction::Ignore
    }
}

/// A pipe to be registered.
#[derive(Debug, Clone, Copy, PartialEq, Eq, Structural)]
pub struct PipeRegistration {
    pub fd: i32,
    pub registration: Registration,
}

/// The registration of an open pipe, under the next token.
pub open spec fn registered(slot: Option<drain::FdSlot>, next: u64, write: bool) -> Seq<
    PipeRegistration,
> {
    match slot {
        Some(s) => seq![
            PipeRegistration {
                fd: s.fd.0,
                registration: Registration {
                    token: reactor::Token(next),
                    events: reactor::interest(!write, write, false),
                },
            },
        ],
        None => seq![],
    }
}

/// A slot after its registration under the next token.
pub open spec fn with_token(slot: Option<drain::FdSlot>, next: u64) -> Option<drain::FdSlot> {
    match slot {
        Some(s) => Some(drain::FdSlot { token: Some(reactor::Token(next)), fd: s.fd }),
        None => None,
    }
}

/// The next token after the registration of a slot.
pub open spec fn next_after(slot: Option<drain::FdSlot>, next: u64) -> u64 {
    if slot is Some {
        (next + 1) as u64
    } else {
        next
    }
}

fn register_slot(slot: &mut Option<drain::FdSlot>, reactor: &mut Reactor, write: bool) -> (r: Option<
    PipeRegistration,
>)
    requires
        1 <= old(reactor).next_token < u64::MAX,
    ensures
        *final(slot) == with_token(*old(slot), old(reactor).next_token),
        final(reactor).next_token == next_after(*old(slot), old(reactor).next_token),
        final(reactor).sigchld_token == old(reactor).sigchld_token,
        final(reactor).inotify_token == old(reactor).inotify_token,
        registered(*old(slot), old(reactor).next_token, write) == match r {
            Some(p) => seq![p],
            None => seq![],
        },
{
    match slot.take() {
        Some(s) => {
            let registration = reactor.add(!write, write);
            let fd = s.fd.raw();
            *slot = Some(drain::FdSlot { token: Some(registration.token), fd: s.fd });
            Some(PipeRegistration { fd, registration })
        },
        None => None,
    }
}

impl RunningProcess {
    /// A process that was started with pipes, and the ends that are its own, to
    /// be closed.
    pub fn started(pid: i32, p: Pipes, stdin: Option<Vec<u8>>, max_output: usize) -> (r: (
        Self,
        Vec<Fd>,
    ))
        ensures
            r.0.process.pid == pid,
            r.1@ == pipes::child_ends(p),
            r.0.drain.stdin_slot == (if stdin is Some {
                match p.stdin {
                    Some((_, w)) => Some(drain::FdSlot { token: None, fd: w }),
                    None => None,
                }
            } else {
                None
            }),
            r.0.drain.stdout_slot == (match p.stdout {
                Some((e, _)) => Some(drain::FdSlot { token: None, fd: e }),
                None => None,
            }),
            r.0.drain.stderr_slot == (match p.stderr {
                Some((e, _)) => Some(drain::FdSlot { token: None, fd: e }),
                None => None,
            }),
            r.0.drain.writer.wf(),
            r.0.drain.writer.buf == stdin,
            r.0.drain.writer.offset == 0,
            r.0.drain.buffer@ == (buffer::Kept {
                stdout: seq![],
                stderr: seq![],
                limit: max_output as nat,
                exceeded: false,
                early: false,
            }),
    {
        let (child, mine) = p.part();
        let drain = DrainState::new(mine.stdin_w, stdin, mine.stdout_r, mine.stderr_r, max_output);
        (RunningProcess { process: Process::new(pid), drain }, child)
    }

    /// Give each open pipe a token: input, output, then error.
    pub fn register_with_reactor(&mut self, reactor: &mut Reactor) -> (r: Vec<PipeRegistration>)
        requires
            1 <= old(reactor).next_token < u64::MAX - 3,
        ensures
            ({
                let d = old(self).drain;
                let n0 = old(reactor).next_token;
                let n1 = next_after(d.stdin_slot, n0);
                let n2 = next_after(d.stdout_slot, n1);
                &&& final(self).process == old(self).process
                &&& final(self).drain.buffer == d.buffer
                &&& final(self).drain.writer == d.writer
                &&& final(self).drain.stdin_slot == with_token(d.stdin_slot, n0)
                &&& final(self).drain.stdout_slot == with_token(d.stdout_slot, n1)
                &&& final(self).drain.stderr_slot == with_token(d.stderr_slot, n2)
                &&& final(reactor).next_token == next_after(d.stderr_slot, n2)
                &&& final(reactor).sigchld_token == old(reactor).sigchld_token
                &&& final(reactor).inotify_token == old(reactor).inotify_token
                &&& r@ == registered(d.stdin_slot, n0, true) + registered(d.stdout_slot, n1, false)
                    + registered(d.stderr_slot, n2, false)
            }),
    {
        let mut out: Vec<PipeRegistration> = Vec::new();
        let ghost d = self.drain;
        let ghost n0 = reactor.next_token;
        if let Some(p) = register_slot(&mut self.drain.stdin_slot, reactor, true) {
            out.push(p);
        }
        let ghost n1 = reactor.next_token;
        assert(out@ =~= registered(d.stdin_slot, n0, true));
        if let Some(p) = register_slot(&mut self.drain.stdout_slot, reactor, false) {
            out.push(p);
        }
        let ghost n2 = reactor.next_token;
        assert(out@ =~= registered(d.stdin_slot, n0, true) + registered(d.stdout_slot, n1, false));
        if let Some(p) = register_slot(&mut self.drain.stderr_slot, reactor, false) {
            out.push(p);
        }
        assert(out@ =~= registered(d.stdin_slot, n0, true) + registered(d.stdout_slot, n1, false)
            + registered(d.stderr_slot, n2, false));
        out
    }

    /// What to do about an event.
    pub fn handle_reactor_event(&self, ev: &Event) -> (r: PipeAction)
        ensures
            r == action_for(self.drain, *ev),
    {
        if self.drain.stdout_matches(ev.token) {
            if ev.readable {
                PipeAction::ReadStdout
            } else if ev.error {
                PipeAction::DropStdout
            } else {
                PipeAction::Ignore
            }
        } else if self.drain.stderr_matches(ev.token) {
            if ev.readable {
                PipeAction::ReadStderr
            } else if ev.error {
                PipeAction::DropStderr
            } else {
                PipeAction::Ignore
            }
        } else if self.drain.stdin_matches(ev.token) {
            if ev.writable {
                PipeAction::WriteStdin
            } else if ev.error {
                PipeAction::DropStdin
            } else {
                PipeAction::Ignore
            }
        } else {
            PipeAction::Ignore
        }
    }

    /// Whether all pipes are closed.
    pub fn io_done(&self) -> (r: bool)
        ensures
            r == self.drain.done(),
    {
        self.drain.is_done()
    }

    /// The output.
    pub fn into_output_parts(self) -> (r: (Vec<u8>, Vec<u8>))
        ensures
            r.0@ == self.drain.buffer@.stdout,
            r.1@ == self.drain.buffer@.stderr,
    {
        self.drain.into_parts()
    }
}

// ---------------------------------------------------------------------------
// The end of a process
// ---------------------------------------------------------------------------

/// What came of a process.
#[derive(Debug)]
pub struct Output {
    pub pid: i32,
    /// How it ended, unless nobody waited.
    pub status: Option<ExitStatus>,
    pub stdout: Vec<u8>,
    pub stderr: Vec<u8>,
    /// Whether it ran out of time.
    pub timed_out: bool,
    /// Whether standard output was closed on request.
    pub stdout_early_exited: bool,
}

/// How far a process that ran out of time was signalled.
#[derive(Debug, Clone, Copy, PartialEq, Eq, Structural)]
pub enum KillState {
    Idle,
    TermSent,
    KillSent,
}

/// A wait for the end of a process.
#[derive(Debug, Clone, Copy, PartialEq, Eq, Structural)]
pub struct WaitLoop {
    pub timeout_ms: Option<u32>,
    pub kill_grace_ms: u32,
    pub cancel: CancelPolicy,
    /// Whether signals go to the process group.
    pub group: bool,
    pub state: KillState,
    pub timed_out: bool,
    pub status: Option<ExitStatus>,
}

/// The nanoseconds in a millisecond.
pub const NS_PER_MS: u128 = 1_000_000;

/// What to do in a round of the wait.
#[derive(Debug, Clone, Copy, PartialEq, Eq, Structural)]
pub struct Tick {
    /// The signal to send.
    pub signal: Option<i32>,
    /// How long to wait for events, in milliseconds; -1 for as long as it takes.
    pub poll_timeout: i32,
}

/// The most milliseconds that a wait with a time limit sleeps while no pipe is
/// open: the end of the process wakes nobody then.
pub const IDLE_POLL_MS: i32 = 10;

/// How a round of the wait goes on.
#[derive(Debug, Clone, Copy, PartialEq, Eq, Structural)]
pub enum WaitStep {
    /// The process ended so, and its pipes are closed.
    Finish(ExitStatus),
    /// Wait for the end of the process, for as long as it takes.
    Block,
    /// Wait for events, for so many milliseconds; -1 for as long as it takes.
    Poll(i32),
}

/// How long a round waits for events: after the end of the process the pipes are
/// only drained.
pub open spec fn round_timeout(w: WaitLoop, tick: Tick) -> i32 {
    if w.status is Some && (tick.poll_timeout == -1 || tick.poll_timeout > 1) {
        1
    } else {
        tick.poll_timeout
    }
}

/// How a round goes on: it finishes when all pipes are closed and the end of the
/// process is known. Where only the latter is missing, no event will tell of it:
/// the wait blocks if there is no time limit, and otherwise looks again soon.
pub open spec fn round_step(w: WaitLoop, io_done: bool, tick: Tick) -> WaitStep {
    if !io_done {
        WaitStep::Poll(round_timeout(w, tick))
    } else if w.status is Some {
        WaitStep::Finish(w.status->0)
    } else if w.timeout_ms is None {
        WaitStep::Block
    } else if 0 <= tick.poll_timeout <= IDLE_POLL_MS {
        WaitStep::Poll(tick.poll_timeout)
    } else {
        WaitStep::Poll(IDLE_POLL_MS)
    }
}

/// The time limit in nanoseconds.
pub open spec fn deadline(w: WaitLoop) -> int {
    w.timeout_ms->0 * NS_PER_MS
}

/// Whether the time is over.
pub open spec fn overdue(w: WaitLoop, elapsed_ns: u128) -> bool {
    w.timeout_ms is Some && elapsed_ns >= deadline(w)
}

/// Whether the grace period is over too.
pub open spec fn grace_over(w: WaitLoop, elapsed_ns: u128) -> bool {
    (elapsed_ns - deadline(w)) / NS_PER_MS as int > w.kill_grace_ms
}

/// The signal to send.
pub open spec fn due_signal(w: WaitLoop, elapsed_ns: u128) -> Option<i32> {
    if !overdue(w, elapsed_ns) {
        None
    } else {
        match w.state {
            KillState::Idle => match w.cancel {
                CancelPolicy::Graceful => Some(SIGTERM),
                CancelPolicy::Kill => Some(SIGKILL),
                CancelPolicy::NoAction => None,
            },
            KillState::TermSent => if grace_over(w, elapsed_ns) {
                Some(SIGKILL)
            } else {
                None
            },
            KillState::KillSent => None,
        }
    }
}

/// How long to wait for events: until the time is over, and in short rounds
/// after that.
pub open spec fn due_timeout(w: WaitLoop, elapsed_ns: u128) -> int {
    if w.timeout_ms is None {
        -1
    } else if overdue(w, elapsed_ns) {
        100
    } else {
        let left = (deadline(w) - elapsed_ns) / NS_PER_MS as int;
        if left > i32::MAX {
            i32::MAX as int
        } else {
            left
        }
    }
}

/// The wait after a round began.
pub open spec fn ticked(w: WaitLoop, elapsed_ns: u128) -> WaitLoop {
    WaitLoop {
        timed_out: w.timed_out || overdue(w, elapsed_ns),
        state: if due_signal(w, elapsed_ns) == Some(SIGKILL) {
            KillState::KillSent
        } else {
            w.state
        },
        ..w
    }
}

impl WaitLoop {
    /// Begin to wait. `status` tells how the process ended if it did already.
    pub fn new(
        timeout_ms: Option<u32>,
        kill_grace_ms: u32,
        cancel: CancelPolicy,
        pgroup: ProcessGroup,
        status: Option<ExitStatus>,
    ) -> (r: Self)
        ensures
            r == (WaitLoop {
                timeout_ms,
                kill_grace_ms,
                cancel,
                group: pgroup.isolated || pgroup.leader is Some,
                state: KillState::Idle,
                timed_out: false,
                status,
            }),
    {
        WaitLoop {
            timeout_ms,
            kill_grace_ms,
            cancel,
            group: pgroup.isolated || pgroup.leader.is_some(),
            state: KillState::Idle,
            timed_out: false,
            status,
        }
    }

    /// Begin a round, `elapsed_ns` after the wait began.
    pub fn tick(&mut self, elapsed_ns: u128) -> (r: Tick)
        ensures
            *final(self) == ticked(*old(self), elapsed_ns),
            r.signal == due_signal(*old(self), elapsed_ns),
            r.poll_timeout == due_timeout(*old(self), elapsed_ns),
    {
        let limit = match self.timeout_ms {
            Some(t) => (t as u128) * NS_PER_MS,
            None => return Tick { signal: None, poll_timeout: -1 },
        };
        if elapsed_ns >= limit {
            self.timed_out = true;
            let over_ms = (elapsed_ns - limit) / NS_PER_MS;
            let signal: Option<i32> = match self.state {
                KillState::Idle => match self.cancel {
                    CancelPolicy::Graceful => Some(SIGTERM),
                    CancelPolicy::Kill => Some(SIGKILL),
                    CancelPolicy::NoAction => None,
                },
                KillState::TermSent => if over_ms > self.kill_grace_ms as u128 {
                    Some(SIGKILL)
                } else {
                    None
                },
                KillState::KillSent => None,
            };
            if let Some(sig) = signal {
                if sig == SIGKILL {
                    self.state = KillState::KillSent;
                }
            }
            Tick { signal, poll_timeout: 100 }
        } else {
            let left_ms = (limit - elapsed_ns) / NS_PER_MS;
            let poll_timeout = if left_ms > i32::MAX as u128 {
                i32::MAX
            } else {
                left_ms as i32
            };
            Tick { signal: None, poll_timeout }
        }
    }

    /// Go on after `SIGTERM` was sent. Where that failed there is nothing left
    /// to signal.
    pub fn term_sent(&mut self, sent: bool)
        ensures
            *final(self) == (WaitLoop {
                state: if sent {
                    KillState::TermSent
                } else {
                    KillState::KillSent
                },
                ..*old(self)
            }),
    {
        self.state = if sent {
            KillState::TermSent
        } else {
            KillState::KillSent
        };
    }

    /// Take in how the process ended, if it did, and that was not known.
    pub fn observe(&mut self, status: Option<ExitStatus>)
        ensures
            *final(self) == (WaitLoop {
                status: if old(self).status is Some {
                    old(self).status
                } else {
                    status
                },
                ..*old(self)
            }),
    {
        if self.status.is_none() {
            self.status = status;
        }
    }

    /// How long to wait for events: after the end of the process the pipes are
    /// only drained.
    pub fn poll_timeout(&self, tick: Tick) -> (r: i32)
        ensures
            r == round_timeout(*self, tick),
    {
        if self.status.is_some() && (tick.poll_timeout == -1 || tick.poll_timeout > 1) {
            1
        } else {
            tick.poll_timeout
        }
    }

    /// How the round goes on. `io_done` tells whether all pipes are closed.
    pub fn next(&self, io_done: bool, tick: Tick) -> (r: WaitStep)
        ensures
            r == round_step(*self, io_done, tick),
    {
        if !io_done {
            return WaitStep::Poll(self.poll_timeout(tick));
        }
        if let Some(status) = self.status {
            return WaitStep::Finish(status);
        }
        if self.timeout_ms.is_none() {
            WaitStep::Block
        } else if 0 <= tick.poll_timeout && tick.poll_timeout <= IDLE_POLL_MS {
            WaitStep::Poll(tick.poll_timeout)
        } else {
            WaitStep::Poll(IDLE_POLL_MS)
        }
    }

    /// What came of the process, whose pipes are closed and whose end is known.
    /// More output than the limit is an error.
    pub fn finish(&self, pid: i32, status: ExitStatus, drain: DrainState) -> (r: Result<
        Output,
        CoreError,
    >)
        ensures
            match r {
                Err(e) => drain.buffer@.exceeded && e == (CoreError::Syscall {
                    code: EOVERFLOW,
                    op: "spawn output limit",
                }),
                Ok(out) => {
                    &&& !drain.buffer@.exceeded
                    &&& out.pid == pid
                    &&& out.status == Some(status)
                    &&& out.stdout@ == drain.buffer@.stdout
                    &&& out.stderr@ == drain.buffer@.stderr
                    &&& out.timed_out == self.timed_out
                    &&& out.stdout_early_exited == drain.buffer@.early
                },
            },
    {
        let (stdout, stderr, exceeded, stdout_early_exited) = drain.into_parts_with_state();
        if exceeded {
            return Err(CoreError::sys(EOVERFLOW, "spawn output limit"));
        }
        Ok(
            Output {
                pid,
                status: Some(status),
                stdout,
                stderr,
                timed_out: self.timed_out,
                stdout_early_exited,
            },
        )
    }
}

/// How a spawn goes on after the process was started: a wait for its end, or
/// the output of a process that nobody waits for.
pub enum Spawned {
    Wait(WaitLoop),
    Left(Output),
}

/// Go on after a process was started and its pipes were registered. `status`
/// tells how it ended if it did already.
pub fn spawn(opts: &SpawnOptions, running: &RunningProcess, status: Option<ExitStatus>) -> (r:
    Spawned)
    ensures
        match r {
            Spawned::Wait(w) => opts.wait && w == (WaitLoop {
                timeout_ms: opts.timeout_ms,
                kill_grace_ms: opts.kill_grace_ms,
                cancel: opts.cancel,
                group: opts.pgroup.isolated || opts.pgroup.leader is Some,
                state: KillState::Idle,
                timed_out: false,
                status,
            }),
            Spawned::Left(out) => {
                &&& !opts.wait
                &&& out.pid == running.process.pid
                &&& out.status is None
                &&& out.stdout@ == Seq::<u8>::empty()
                &&& out.stderr@ == Seq::<u8>::empty()
                &&& !out.timed_out
                &&& !out.stdout_early_exited
            },
        },
{
    if opts.wait {
        Spawned::Wait(
            WaitLoop::new(opts.timeout_ms, opts.kill_grace_ms, opts.cancel, opts.pgroup, status),
        )
    } else {
        Spawned::Left(
            Output {
                pid: running.process.pid(),
                status: None,
                stdout: Vec::new(),
                stderr: Vec::new(),
                timed_out: false,
                stdout_early_exited: false,
            },
        )
    }
}

// ---------------------------------------------------------------------------
// Laws
// ---------------------------------------------------------------------------

/// A process is not signalled before its time is over, nor where the policy is
/// to let it run, nor after `SIGKILL`.
pub proof fn law_signals_are_due(w: WaitLoop, elapsed_ns: u128)
    requires
        due_signal(w, elapsed_ns) is Some,
    ensures
        w.timeout_ms is Some && elapsed_ns >= w.timeout_ms->0 * NS_PER_MS,
        w.state == KillState::Idle ==> w.cancel != CancelPolicy::NoAction,
        w.state != KillState::KillSent,
        ticked(w, elapsed_ns).timed_out,
{
}

/// `SIGTERM` is sent only under the graceful policy, and after it `SIGKILL` only
/// when the grace period is over.
pub proof fn law_grace_period(w: WaitLoop, elapsed_ns: u128)
    ensures
        due_signal(w, elapsed_ns) == Some(SIGTERM) ==> w.cancel == CancelPolicy::Graceful && w.state
            == KillState::Idle,
        w.state == KillState::TermSent && due_signal(w, elapsed_ns) is Some ==> due_signal(
            w,
            elapsed_ns,
        ) == Some(SIGKILL) && elapsed_ns > (w.timeout_ms->0 + w.kill_grace_ms) * NS_PER_MS,
{
    if w.state == KillState::TermSent && due_signal(w, elapsed_ns) is Some {
        let over = elapsed_ns - deadline(w);
        assert(over / 1_000_000 > w.kill_grace_ms);
        assert(over >= 1_000_000 * (over / 1_000_000)) by (nonlinear_arith);
        assert((w.timeout_ms->0 + w.kill_grace_ms) * 1_000_000 == w.timeout_ms->0 * 1_000_000
            + w.kill_grace_ms * 1_000_000) by (nonlinear_arith);
    }
}

/// A time limit holds whether pipes are open or not: a wait with one never blocks
/// for longer than until its time is over, and one that sends a signal when the
/// time is over does so in the first round after it.
pub proof fn law_limit_is_watched(w: WaitLoop, elapsed_ns: u128, io_done: bool)
    requires
        w.timeout_ms is Some,
    ensures
        match round_step(
            ticked(w, elapsed_ns),
            io_done,
            Tick {
                signal: due_signal(w, elapsed_ns),
                poll_timeout: due_timeout(w, elapsed_ns) as i32,
            },
        ) {
            WaitStep::Finish(status) => io_done && w.status == Some(status),
            WaitStep::Block => false,
            WaitStep::Poll(ms) => 0 <= ms && (!overdue(w, elapsed_ns) ==> elapsed_ns + ms
                * NS_PER_MS <= deadline(w)) && (overdue(w, elapsed_ns) ==> ms <= 100),
        },
        overdue(w, elapsed_ns) && w.state == KillState::Idle ==> due_signal(w, elapsed_ns)
            == match w.cancel {
            CancelPolicy::Graceful => Some(SIGTERM),
            CancelPolicy::Kill => Some(SIGKILL),
            CancelPolicy::NoAction => None,
        },
{
    if !overdue(w, elapsed_ns) {
        let left = deadline(w) - elapsed_ns;
        let ms = left / 1_000_000;
        assert(0 <= ms && ms * 1_000_000 <= left) by (nonlinear_arith)
            requires
                ms == left / 1_000_000,
                left > 0,
        ;
    }
}

/// A wait finishes when all pipes are closed and the end of the process is known,
/// and then only.
pub proof fn law_finish(w: WaitLoop, io_done: bool, tick: Tick)
    ensures
        round_step(w, io_done, tick) is Finish <==> io_done && w.status is Some,
        round_step(w, io_done, tick) is Block ==> io_done && w.status is None && w.timeout_ms is None,
{
}

/// After `SIGKILL` a process is not signalled again, however often the wait goes
/// round.
pub proof fn law_kill_is_last(w: WaitLoop, elapsed_ns: u128, later_ns: u128)
    requires
        w.state == KillState::KillSent || due_signal(w, elapsed_ns) == Some(SIGKILL),
    ensures
        ticked(w, elapsed_ns).state == KillState::KillSent,
        due_signal(ticked(w, elapsed_ns), later_ns) is None,
{
}

/// The graceful end comes to its end: once the time is over `SIGTERM` is sent, and
/// once the grace period is over too, however long that is, `SIGKILL`. The other
/// policies send `SIGKILL` at once, or nothing at all.
pub proof fn law_end_is_enforced(w: WaitLoop, elapsed_ns: u128)
    requires
        w.timeout_ms is Some,
    ensures
        elapsed_ns >= w.timeout_ms->0 * 1_000_000 && w.state == KillState::Idle ==> due_signal(
            w,
            elapsed_ns,
        ) == match w.cancel {
            CancelPolicy::Graceful => Some(15i32),
            CancelPolicy::Kill => Some(9i32),
            CancelPolicy::NoAction => None,
        },
        elapsed_ns >= (w.timeout_ms->0 + w.kill_grace_ms + 1) * 1_000_000 && w.state
            == KillState::TermSent ==> due_signal(w, elapsed_ns) == Some(9i32),
        elapsed_ns < (w.timeout_ms->0 + w.kill_grace_ms + 1) * 1_000_000 && w.state
            == KillState::TermSent ==> due_signal(w, elapsed_ns) is None,
        elapsed_ns < w.timeout_ms->0 * 1_000_000 ==> due_signal(w, elapsed_ns) is None,
        w.state == KillState::KillSent ==> due_signal(w, elapsed_ns) is None,
        due_signal(w, elapsed_ns) == Some(9i32) ==> ticked(w, elapsed_ns).state
            == KillState::KillSent,
        due_signal(w, elapsed_ns) != Some(9i32) ==> ticked(w, elapsed_ns).state == w.state,
        ticked(w, elapsed_ns).timed_out <==> w.timed_out || elapsed_ns >= w.timeout_ms->0
            * 1_000_000,
{
    let t = w.timeout_ms->0 as int;
    let g = w.kill_grace_ms as int;
    let e = elapsed_ns as int;
    assert((t + g + 1) * 1_000_000 == t * 1_000_000 + (g + 1) * 1_000_000) by (nonlinear_arith);
    let over = e - t * 1_000_000;
    if e >= t * 1_000_000 {
        if over >= (g + 1) * 1_000_000 {
            assert(over / 1_000_000 >= g + 1) by (nonlinear_arith)
                requires
                    over >= (g + 1) * 1_000_000,
            ;
        } else {
            assert(over / 1_000_000 <= g) by (nonlinear_arith)
                requires
                    over < (g + 1) * 1_000_000,
            ;
        }
    }
}

/// A process without a time limit is never signalled, and its wait has no end of
/// its own.
pub proof fn law_no_limit(w: WaitLoop, elapsed_ns: u128)
    requires
        w.timeout_ms is None,
    ensures
        due_signal(w, elapsed_ns) is None,
        due_timeout(w, elapsed_ns) == -1,
        ticked(w, elapsed_ns) == w,
{
}

/// While the time is not over, a wait for events ends when it is, to the
/// millisecond; after that it goes round every tenth of a second.
pub proof fn law_rounds(w: WaitLoop, elapsed_ns: u128)
    requires
        w.timeout_ms is Some,
    ensures
        elapsed_ns >= w.timeout_ms->0 * 1_000_000 ==> due_timeout(w, elapsed_ns) == 100,
        elapsed_ns < w.timeout_ms->0 * 1_000_000 ==> {
            let ms = due_timeout(w, elapsed_ns);
            &&& 0 <= ms <= 0x7fff_ffff
            &&& elapsed_ns + ms * 1_000_000 <= w.timeout_ms->0 * 1_000_000
            &&& ms < 0x7fff_ffff ==> elapsed_ns + (ms + 1) * 1_000_000 > w.timeout_ms->0 * 1_000_000
        },
{
    let left = w.timeout_ms->0 * 1_000_000 - elapsed_ns;
    if left > 0 {
        let ms = left / 1_000_000;
        assert(0 <= ms && ms * 1_000_000 <= left && (ms + 1) * 1_000_000 > left) by (nonlinear_arith)
            requires
                ms == left / 1_000_000,
                left > 0,
        ;
    }
}

/// What is ready on a pipe is moved; a pipe in error that cannot be read or
/// written is dropped. An event for no pipe of the process is ignored.
pub proof fn law_actions(d: DrainState, ev: Event)
    ensures
        ({
            let is = |slot: Option<drain::FdSlot>|
                slot is Some && slot->0.token == Some(ev.token);
            let out = is(d.stdout_slot);
            let err = !out && is(d.stderr_slot);
            let inp = !out && !err && is(d.stdin_slot);
            &&& action_for(d, ev) == PipeAction::ReadStdout <==> out && ev.readable
            &&& action_for(d, ev) == PipeAction::DropStdout <==> out && !ev.readable && ev.error
            &&& action_for(d, ev) == PipeAction::ReadStderr <==> err && ev.readable
            &&& action_for(d, ev) == PipeAction::DropStderr <==> err && !ev.readable && ev.error
            &&& action_for(d, ev) == PipeAction::WriteStdin <==> inp && ev.writable
            &&& action_for(d, ev) == PipeAction::DropStdin <==> inp && !ev.writable && ev.error
        }),
{
}

/// While the end of the process is not known, a round waits as long as the time
/// limit says; after it, for a millisecond at most.
pub proof fn law_round_timeout(w: WaitLoop, tick: Tick)
    requires
        tick.poll_timeout >= -1,
    ensures
        w.status is None ==> round_timeout(w, tick) == tick.poll_timeout,
        w.status is Some ==> 0 <= round_timeout(w, tick) <= 1,
        w.status is Some && 0 <= tick.poll_timeout <= 1 ==> round_timeout(w, tick)
            == tick.poll_timeout,
{
}

/// A pipe that is read is registered for reading alone, one that is written for
/// writing alone, under a token that is then given out no more.
pub proof fn law_registration(fd: i32, token: Option<reactor::Token>, next: u64, write: bool)
    requires
        next < u64::MAX,
    ensures
        ({
            let slot = Some(drain::FdSlot { token, fd: Fd(fd) });
            let all = registered(slot, next, write);
            &&& all.len() == 1
            &&& all[0].fd == fd
            &&& all[0].registration.token.0 == next
            &&& all[0].registration.events & 1 != 0 <==> !write
            &&& all[0].registration.events & 4 != 0 <==> write
            &&& all[0].registration.events & 2 == 0
            &&& drain::matches_token(with_token(slot, next), reactor::Token(next))
            &&& with_token(slot, next)->0.fd == Fd(fd)
            &&& next_after(slot, next) == next + 1
        }),
        registered(None, next, write).len() == 0,
        with_token(None, next) is None,
        next_after(None, next) == next,
{
    reactor::law_interest(!write, write, false);
}

/// What a round comes to. While pipes are open it polls them; with all of them
/// closed it ends if the end of the process is known, waits for that end if there
/// is no time limit, and otherwise looks again after 10 milliseconds, or sooner
/// where the limit is nearer.
pub proof fn law_round(w: WaitLoop, tick: Tick)
    requires
        tick.poll_timeout >= -1,
    ensures
        w.status is None ==> round_step(w, false, tick) == WaitStep::Poll(tick.poll_timeout),
        w.status is Some ==> round_step(w, false, tick) == WaitStep::Poll(
            if tick.poll_timeout == 0 {
                0i32
            } else {
                1i32
            },
        ),
        w.status is Some ==> round_step(w, true, tick) == WaitStep::Finish(w.status->0),
        w.status is None && w.timeout_ms is None ==> round_step(w, true, tick) is Block,
        w.status is None && w.timeout_ms is Some ==> round_step(w, true, tick) == WaitStep::Poll(
            if 0 <= tick.poll_timeout <= 10 {
                tick.poll_timeout
            } else {
                10i32
            },
        ),
{
}

} // verus!
