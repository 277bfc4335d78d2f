//! Processes and how they end.

use vstd::prelude::*;

use crate::error::{Attempt, CoreError, SysReply, EINTR, ESRCH};

verus! {

/// Ask a process to end.
pub const SIGTERM: i32 = 15;

/// Interrupt from the keyboard.
pub const SIGINT: i32 = 2;

/// End a process at once.
pub const SIGKILL: i32 = 9;

/// Write to a pipe that nobody reads.
pub const SIGPIPE: i32 = 13;

/// A child process ended.
pub const SIGCHLD: i32 = 17;

// ---------------------------------------------------------------------------
// Wait statuses
// ---------------------------------------------------------------------------

/// `libc::WIFEXITED`: whether the process exited, which is so if the low seven
/// bits of the status are zero.
#[verifier::external_body]
fn wifexited(status: i32) -> (r: bool)
    ensures
        r == (status & 0x7f == 0),
{
    libc::WIFEXITED(status)
}

/// `libc::WEXITSTATUS`: the exit code, which is the second byte of the status.
#[verifier::external_body]
fn wexitstatus(status: i32) -> (r: i32)
    ensures
        r == (status >> 8) & 0xff,
{
    libc::WEXITSTATUS(status)
}

/// `libc::WIFSIGNALED`: whether a signal ended the process, which is so if the
/// low seven bits of the status are neither all zero nor all one.
#[verifier::external_body]
fn wifsignaled(status: i32) -> (r: bool)
    ensures
        r == (status & 0x7f != 0 && status & 0x7f != 0x7f),
{
    libc::WIFSIGNALED(status)
}

/// `libc::WTERMSIG`: the signal that ended the process, which is in the low seven
/// bits of the status.
#[verifier::external_body]
fn wtermsig(status: i32) -> (r: i32)
    ensures
        r == status & 0x7f,
{
    libc::WTERMSIG(status)
}

/// How a process ended.
#[derive(Debug, Clone, Copy, PartialEq, Eq, Structural)]
pub enum ExitStatus {
    /// It exited with this code.
    Exited(i32),
    /// This signal ended it.
    Signaled(i32),
}

/// What a wait status tells. One that is of neither sort counts as an exit with
/// code -1.
pub open spec fn status_meaning(status: i32) -> ExitStatus {
    if status & 0x7f == 0 {
        ExitStatus::Exited((status >> 8) & 0xff)
    } else if status & 0x7f != 0x7f {
        ExitStatus::Signaled(status & 0x7f)
    } else {
        ExitStatus::Exited((-1) as i32)
    }
}

/// Read a wait status.
pub fn decode_status(status: i32) -> (r: ExitStatus)
    ensures
        r == status_meaning(status),
{
    if wifexited(status) {
        ExitStatus::Exited(wexitstatus(status))
    } else if wifsignaled(status) {
        ExitStatus::Signaled(wtermsig(status))
    } else {
        ExitStatus::Exited(-1)
    }
}

/// A status that tells of an exit with `code`, and one that tells of an end by
/// `sig`, are read as such.
pub proof fn law_statuses(code: i32, sig: i32, core: bool)
    requires
        0 <= code <= 255,
        1 <= sig <= 126,
    ensures
        status_meaning(code << 8) == ExitStatus::Exited(code),
        status_meaning(sig | (if core {
            0x80i32
        } else {
            0i32
        })) == ExitStatus::Signaled(sig),
{
    assert((code << 8) & 0x7f == 0 && ((code << 8) >> 8) & 0xff == code) by (bit_vector)
        requires
            0 <= code <= 255,
    ;
    assert((sig | 0x80i32) & 0x7f == sig && (sig | 0i32) & 0x7f == sig) by (bit_vector)
        requires
            1 <= sig <= 126,
    ;
}

// ---------------------------------------------------------------------------
// Waiting and killing
// ---------------------------------------------------------------------------

/// A process.
#[derive(Debug, Clone, Copy, PartialEq, Eq, Structural)]
pub struct Process {
    pub pid: i32,
}

/// The outcome of a wait that does not block.
pub open spec fn stepped(reply: SysReply, status: i32) -> Attempt<
    Result<Option<ExitStatus>, CoreError>,
> {
    if reply.ret == 0 {
        Attempt::Done(Ok(None))
    } else if reply.ret > 0 {
        Attempt::Done(Ok(Some(status_meaning(status))))
    } else if reply.errno == EINTR {
        Attempt::Retry
    } else {
        Attempt::Done(Err(CoreError::Syscall { code: reply.errno, op: "waitpid_step" }))
    }
}

/// The outcome of a wait that blocks.
pub open spec fn waited(reply: SysReply, status: i32) -> Attempt<Result<ExitStatus, CoreError>> {
    if reply.ret >= 0 {
        Attempt::Done(Ok(status_meaning(status)))
    } else if reply.errno == EINTR {
        Attempt::Retry
    } else {
        Attempt::Done(Err(CoreError::Syscall { code: reply.errno, op: "waitpid_blocking" }))
    }
}

/// The outcome of a signal. A process that is gone needs none.
pub open spec fn killed(reply: SysReply, op: &'static str) -> Result<(), CoreError> {
    if reply.ret >= 0 || reply.errno == ESRCH {
        Ok(())
    } else {
        Err(CoreError::Syscall { code: reply.errno, op })
    }
}

impl Process {
    pub fn new(pid: i32) -> (r: Self)
        ensures
            r.pid == pid,
    {
        Self { pid }
    }

    pub fn pid(&self) -> (r: i32)
        ensures
            r == self.pid,
    {
        self.pid
    }

    /// One round of a wait that does not block, from the reply of `waitpid` and
    /// the status it left.
    pub fn wait_step(reply: SysReply, status: i32) -> (r: Attempt<
        Result<Option<ExitStatus>, CoreError>,
    >)
        ensures
            r == stepped(reply, status),
    {
        if reply.ret == 0 {
            Attempt::Done(Ok(None))
        } else if reply.ret > 0 {
            Attempt::Done(Ok(Some(decode_status(status))))
        } else if reply.errno == EINTR {
            Attempt::Retry
        } else {
            Attempt::Done(Err(CoreError::sys(reply.errno, "waitpid_step")))
        }
    }

    /// One round of a wait that blocks.
    pub fn wait_blocking(reply: SysReply, status: i32) -> (r: Attempt<
        Result<ExitStatus, CoreError>,
    >)
        ensures
            r == waited(reply, status),
    {
        if reply.ret >= 0 {
            Attempt::Done(Ok(decode_status(status)))
        } else if reply.errno == EINTR {
            Attempt::Retry
        } else {
            Attempt::Done(Err(CoreError::sys(reply.errno, "waitpid_blocking")))
        }
    }

    /// The outcome of a signal to the process.
    pub fn kill(reply: SysReply) -> (r: Result<(), CoreError>)
        ensures
            r == killed(reply, "kill"),
    {
        if reply.ret >= 0 || reply.errno == ESRCH {
            Ok(())
        } else {
            Err(CoreError::sys(reply.errno, "kill"))
        }
    }

    /// The outcome of a signal to the process group.
    pub fn kill_pgroup(reply: SysReply) -> (r: Result<(), CoreError>)
        ensures
            r == killed(reply, "kill_pgroup"),
    {
        if reply.ret >= 0 || reply.errno == ESRCH {
            Ok(())
        } else {
            Err(CoreError::sys(reply.errno, "kill_pgroup"))
        }
    }

    /// The PID to signal: the process itself, or its group.
    pub fn target(&self, group: bool) -> (r: i32)
        requires
            self.pid > i32::MIN,
        ensures
            r == (if group {
                -self.pid
            } else {
                self.pid as int
            }),
    {
        if group {
            -self.pid
        } else {
            self.pid
        }
    }
}

// ---------------------------------------------------------------------------
// Laws
// ---------------------------------------------------------------------------

/// A wait tells that the process runs, how it ended, or why it cannot tell; one
/// that was interrupted is made again.
pub proof fn law_waits(reply: SysReply, status: i32)
    ensures
        reply.ret == 0 ==> stepped(reply, status) == Attempt::Done(Ok::<Option<ExitStatus>, CoreError>(None)),
        reply.ret > 0 ==> stepped(reply, status) == Attempt::Done(
            Ok::<Option<ExitStatus>, CoreError>(Some(status_meaning(status))),
        ),
        reply.ret >= 0 ==> waited(reply, status) == Attempt::Done(
            Ok::<ExitStatus, CoreError>(status_meaning(status)),
        ),
        reply.ret < 0 && reply.errno == 4 ==> stepped(reply, status) is Retry && waited(
            reply,
            status,
        ) is Retry,
        reply.ret < 0 && reply.errno != 4 ==> stepped(reply, status) == Attempt::Done(
            Err::<Option<ExitStatus>, CoreError>(
                CoreError::Syscall { code: reply.errno, op: "waitpid_step" },
            ),
        ) && waited(reply, status) == Attempt::Done(
            Err::<ExitStatus, CoreError>(
                CoreError::Syscall { code: reply.errno, op: "waitpid_blocking" },
            ),
        ),
{
}

/// A signal to a process that is gone is no failure.
pub proof fn law_kills(reply: SysReply, op: &'static str)
    ensures
        reply.ret >= 0 || reply.errno == 3 ==> killed(reply, op) is Ok,
        reply.ret < 0 && reply.errno != 3 ==> killed(reply, op) == Err::<(), CoreError>(
            CoreError::Syscall { code: reply.errno, op },
        ),
{
}

/// A status of a process that was only stopped counts as an exit with code -1.
pub proof fn law_other_statuses(status: i32)
    requires
        status & 0x7f == 0x7f,
    ensures
        status_meaning(status) == ExitStatus::Exited((-1) as i32),
{
    assert(0x7fi32 != 0);
}

} // verus!
