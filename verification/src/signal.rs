//! Signals and requests to shut down.

use std::sync::atomic::{AtomicBool, Ordering};

use vstd::prelude::*;

use crate::error;
use crate::error::{posix_ret, syscall_ret, CoreError, SysReply, EINVAL};

verus! {

/// The next thing to do to have `SIGINT` and `SIGTERM` flip a flag.
#[derive(Debug, Clone, Copy)]
pub enum InstallStep {
    /// Install the handler for `SIGTERM`.
    InstallSigterm,
    /// Both handlers are installed: let them flip the flag.
    Publish,
    /// Restore the handler for `SIGINT`.
    RestoreSigint,
    /// It failed.
    Failed(CoreError),
}

/// What to do after the handlers were to be installed, and, where that failed
/// for `SIGTERM`, that of `SIGINT` was to be restored. `None` stands for a call
/// that was not made yet.
pub open spec fn install_step(
    sigint: SysReply,
    sigterm: Option<SysReply>,
    restored: Option<SysReply>,
) -> InstallStep {
    if sigint.ret == -1 {
        InstallStep::Failed(CoreError::Syscall { code: sigint.errno, op: "sigaction(SIGINT)" })
    } else {
        match sigterm {
            None => InstallStep::InstallSigterm,
            Some(t) => if t.ret != -1 {
                InstallStep::Publish
            } else {
                match restored {
                    None => InstallStep::RestoreSigint,
                    Some(u) => if u.ret == -1 {
                        InstallStep::Failed(
                            CoreError::Syscall { code: u.errno, op: "sigaction(SIGINT)" },
                        )
                    } else {
                        InstallStep::Failed(
                            CoreError::Syscall { code: t.errno, op: "sigaction(SIGTERM)" },
                        )
                    },
                }
            },
        }
    }
}

/// Go on with the installation of the handlers for `SIGINT` and `SIGTERM`. The
/// flag is handed to them only if both are installed.
pub fn install_shutdown_flag(
    sigint: SysReply,
    sigterm: Option<SysReply>,
    restored: Option<SysReply>,
) -> (r: InstallStep)
    ensures
        r == install_step(sigint, sigterm, restored),
{
    match syscall_ret(sigint, "sigaction(SIGINT)") {
        Err(e) => return InstallStep::Failed(e),
        Ok(()) => {},
    }
    let t = match sigterm {
        None => return InstallStep::InstallSigterm,
        Some(t) => t,
    };
    let failed = match syscall_ret(t, "sigaction(SIGTERM)") {
        Ok(()) => return InstallStep::Publish,
        Err(e) => e,
    };
    match restored {
        None => InstallStep::RestoreSigint,
        Some(u) => match syscall_ret(u, "sigaction(SIGINT)") {
            Err(e) => InstallStep::Failed(e),
            Ok(()) => InstallStep::Failed(failed),
        },
    }
}

/// Whether a flag was flipped by the time of the call: what an acquiring load
/// of it gives. Which value that is depends on when handlers flip the flag.
pub fn shutdown_requested(flag: &AtomicBool) -> (r: bool)
    ensures
        call_ensures(AtomicBool::load, (flag, Ordering::Acquire), r),
{
    flag.load(Ordering::Acquire)
}

/// The outcomes of calls on signal sets and masks.
#[derive(Debug, Clone, Copy)]
pub struct SignalRuntime;

impl SignalRuntime {
    /// Whether all signals were added to a set, from the replies of `sigaddset`.
    pub fn set_with(replies: &[SysReply]) -> (r: Result<(), CoreError>)
        ensures
            r == (if forall|i: int| 0 <= i < replies@.len() ==> (#[trigger] replies@[i]).ret != -1 {
                Ok(())
            } else {
                Err(CoreError::Syscall { code: EINVAL, op: "sigaddset" })
            }),
    {
        let mut i: usize = 0;
        while i < replies.len()
            invariant
                i <= replies.len(),
                forall|j: int| 0 <= j < i ==> (#[trigger] replies@[j]).ret != -1,
            decreases replies.len() - i,
        {
            if replies[i].ret == -1 {
                assert(replies@[i as int].ret == -1);
                return Err(CoreError::sys(EINVAL, "sigaddset"));
            }
            i += 1;
        }
        Ok(())
    }

    /// Whether signals were blocked, from the value of `pthread_sigmask`.
    pub fn block_current_thread(ret: i32) -> (r: Result<(), CoreError>)
        ensures
            r == error::posix_outcome(ret, "pthread_sigmask(SIG_BLOCK)"),
    {
        posix_ret(ret, "pthread_sigmask(SIG_BLOCK)")
    }

    /// Whether the mask was restored, from the value of `pthread_sigmask`.
    pub fn restore_current_thread(ret: i32) -> (r: Result<(), CoreError>)
        ensures
            r == error::posix_outcome(ret, "pthread_sigmask(SIG_SETMASK)"),
    {
        posix_ret(ret, "pthread_sigmask(SIG_SETMASK)")
    }

    /// The signal that came, from the value of `sigwait`.
    pub fn wait(ret: i32, received: i32) -> (r: Result<i32, CoreError>)
        ensures
            r == (if ret == 0 {
                Ok(received)
            } else {
                Err(CoreError::Syscall { code: ret, op: "sigwait" })
            }),
    {
        posix_ret(ret, "sigwait")?;
        Ok(received)
    }

    /// Whether a thread was signalled, from the value of `pthread_kill`.
    pub fn interrupt_thread(ret: i32) -> (r: Result<(), CoreError>)
        ensures
            r == error::posix_outcome(ret, "pthread_kill"),
    {
        posix_ret(ret, "pthread_kill")
    }

    /// Whether all signals were unblocked, from the reply of `sigprocmask`.
    pub fn unblock_all(reply: SysReply) -> (r: Result<(), CoreError>)
        ensures
            r == error::ret_outcome(reply, "sigprocmask"),
    {
        syscall_ret(reply, "sigprocmask")
    }

    /// Whether the default action was restored; `failed` holds the code with
    /// which `signal` failed.
    pub fn reset_default(failed: Option<i32>) -> (r: Result<(), CoreError>)
        ensures
            r == (match failed {
                Some(code) => Err(CoreError::Syscall { code, op: "signal(SIG_DFL)" }),
                None => Ok(()),
            }),
    {
        match failed {
            Some(code) => Err(CoreError::sys(code, "signal(SIG_DFL)")),
            None => Ok(()),
        }
    }
}

// ---------------------------------------------------------------------------
// Laws
// ---------------------------------------------------------------------------

/// The flag is published exactly when both handlers are installed. Where the
/// second is refused, the first is taken back before the failure is told.
pub proof fn law_installation(
    sigint: SysReply,
    sigterm: SysReply,
    restored: SysReply,
    later: Option<SysReply>,
)
    ensures
        sigint.ret == -1 ==> install_step(sigint, Some(sigterm), later) == InstallStep::Failed(
            CoreError::Syscall { code: sigint.errno, op: "sigaction(SIGINT)" },
        ) && install_step(sigint, None, later) is Failed,
        sigint.ret != -1 ==> install_step(sigint, None, None) is InstallSigterm,
        install_step(sigint, Some(sigterm), later) is Publish <==> sigint.ret != -1 && sigterm.ret
            != -1,
        sigint.ret != -1 && sigterm.ret == -1 ==> {
            &&& install_step(sigint, Some(sigterm), None) is RestoreSigint
            &&& install_step(sigint, Some(sigterm), Some(restored)) is Failed
            &&& restored.ret != -1 ==> install_step(sigint, Some(sigterm), Some(restored))
                == InstallStep::Failed(
                CoreError::Syscall { code: sigterm.errno, op: "sigaction(SIGTERM)" },
            )
        },
{
}

} // verus!
