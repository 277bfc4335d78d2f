//! Supervision of the daemon: restarts with a growing delay, until it crashes
//! too often.

use vstd::prelude::*;

use crate::spawn::process::ExitStatus;
use crate::text;
use crate::text::{chars_of, parse_i32, trimmed};

verus! {

/// The span in which crashes are counted, in nanoseconds.
pub const CRASH_WINDOW_NS: u128 = 10_000_000_000;

/// The number of crashes in a window at which the daemon is given up.
pub const MAX_CRASHES: u32 = 5;

/// The delay per crash before a restart, in milliseconds.
pub const BACKOFF_MS: u64 = 500;

/// How long the start of the daemon may take, in milliseconds.
pub const READY_TIMEOUT_MS: u64 = 15_000;

/// How long its end may take, in milliseconds.
pub const STOP_TIMEOUT_MS: u64 = 3_000;

/// What to do after the daemon ended.
#[derive(Debug, Clone, Copy, PartialEq, Eq, Structural)]
pub enum Verdict {
    /// It was stopped: end too.
    Stopped,
    /// It crashed too often: end with a failure.
    GiveUp,
    /// Start it again after this many milliseconds. `new_window` tells whether
    /// a new window begins now.
    Restart { backoff_ms: u64, new_window: bool },
}

/// The crashes of the daemon.
#[derive(Debug, Clone, Copy, PartialEq, Eq, Structural)]
pub struct Supervisor {
    /// The crashes in the window.
    pub crash_count: u32,
}

/// The crashes in the window after one more, `elapsed_ns` after it began.
pub open spec fn counted(crash_count: u32, elapsed_ns: u128) -> int {
    if elapsed_ns > CRASH_WINDOW_NS {
        1
    } else {
        crash_count + 1
    }
}

/// What to do after the daemon ended.
pub open spec fn verdict(
    crash_count: u32,
    status: Option<ExitStatus>,
    elapsed_ns: u128,
) -> Verdict {
    if status == Some(ExitStatus::Exited(0)) {
        Verdict::Stopped
    } else if counted(crash_count, elapsed_ns) >= MAX_CRASHES {
        Verdict::GiveUp
    } else {
        Verdict::Restart {
            backoff_ms: (BACKOFF_MS * counted(crash_count, elapsed_ns)) as u64,
            new_window: elapsed_ns > CRASH_WINDOW_NS,
        }
    }
}

impl Supervisor {
    /// Whether the daemon was not given up.
    pub open spec fn wf(&self) -> bool {
        self.crash_count < MAX_CRASHES
    }

    /// Before the first crash.
    pub fn new() -> (r: Self)
        ensures
            r.wf(),
            r.crash_count == 0,
    {
        Supervisor { crash_count: 0 }
    }

    /// Go on after the daemon ended, `elapsed_ns` after the window began.
    /// `status` tells how, if that is known. Only an exit with code 0 is no
    /// crash.
    pub fn ended(&mut self, status: Option<ExitStatus>, elapsed_ns: u128) -> (r: Verdict)
        requires
            old(self).wf(),
        ensures
            r == verdict(old(self).crash_count, status, elapsed_ns),
            r is Stopped ==> *final(self) == *old(self),
            !(r is Stopped) ==> final(self).crash_count == counted(
                old(self).crash_count,
                elapsed_ns,
            ),
            r is Restart ==> final(self).wf(),
    {
        if let Some(ExitStatus::Exited(code)) = status {
            if code == 0 {
                return Verdict::Stopped;
            }
        }
        self.crash_count = self.crash_count + 1;
        let new_window = elapsed_ns > CRASH_WINDOW_NS;
        if new_window {
            self.crash_count = 1;
        }
        if self.crash_count >= MAX_CRASHES {
            return Verdict::GiveUp;
        }
        let backoff_ms = BACKOFF_MS * self.crash_count as u64;
        Verdict::Restart { backoff_ms, new_window }
    }
}

/// The PID in the file that the supervisor keeps.
pub fn parse_pid_file(content: &str) -> (r: Option<i32>)
    ensures
        r == text::integer_i32(text::trim(content@)),
{
    let chars = chars_of(content);
    parse_i32(trimmed(chars.as_slice()))
}

// ---------------------------------------------------------------------------
// Laws
// ---------------------------------------------------------------------------

/// The crashes that are counted after `n` of them in one window.
pub open spec fn after_crashes(n: nat) -> u32
    decreases n,
{
    if n == 0 {
        0
    } else {
        counted(after_crashes((n - 1) as nat), 0) as u32
    }
}

/// The daemon is given up at the fifth crash in a window, and not before; until
/// then the delay grows by half a second with each crash.
pub proof fn law_five_crashes(n: nat, status: Option<ExitStatus>, elapsed_ns: u128)
    requires
        n < MAX_CRASHES,
        status != Some(ExitStatus::Exited(0)),
        elapsed_ns <= CRASH_WINDOW_NS,
    ensures
        after_crashes(n) == n,
        verdict(after_crashes(n), status, elapsed_ns) == if n + 1 == MAX_CRASHES {
            Verdict::GiveUp
        } else {
            Verdict::Restart { backoff_ms: ((n + 1) * BACKOFF_MS) as u64, new_window: false }
        },
{
    reveal_with_fuel(after_crashes, 5);
}

/// A crash after the window begins to count anew.
pub proof fn law_new_window(crash_count: u32, status: Option<ExitStatus>, elapsed_ns: u128)
    requires
        status != Some(ExitStatus::Exited(0)),
        elapsed_ns > CRASH_WINDOW_NS,
    ensures
        verdict(crash_count, status, elapsed_ns) == (Verdict::Restart {
            backoff_ms: BACKOFF_MS,
            new_window: true,
        }),
{
}

/// The daemon is started again after a crash, with half a second more of delay for
/// each crash within ten seconds, and given up at the fifth. An exit with code 0 is
/// no crash and ends the supervision; any other end is one, also one that nobody
/// could tell of.
pub proof fn law_restarts(crash_count: u32, status: Option<ExitStatus>, elapsed_ns: u128, code: i32)
    requires
        crash_count < 5,
    ensures
        verdict(crash_count, Some(ExitStatus::Exited(0)), elapsed_ns) == Verdict::Stopped,
        status is None || status == Some(ExitStatus::Signaled(code)) || (status == Some(
            ExitStatus::Exited(code),
        ) && code != 0) ==> {
            let v = verdict(crash_count, status, elapsed_ns);
            &&& elapsed_ns > 10_000_000_000 ==> v == (Verdict::Restart {
                backoff_ms: 500,
                new_window: true,
            }) && counted(crash_count, elapsed_ns) == 1
            &&& elapsed_ns <= 10_000_000_000 && crash_count < 4 ==> v == (Verdict::Restart {
                backoff_ms: (500 * (crash_count + 1)) as u64,
                new_window: false,
            }) && counted(crash_count, elapsed_ns) == crash_count + 1
            &&& elapsed_ns <= 10_000_000_000 && crash_count == 4 ==> v == Verdict::GiveUp
        },
{
}

} // verus!
