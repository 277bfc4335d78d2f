//! Readiness events: tokens, interest masks and the outcome of each call.
//!
//! Monitoring is edge-triggered. Handlers drain a descriptor until a read or a
//! write reports that it would block.

use vstd::prelude::*;

use crate::byte_order;
use crate::byte_order::{bytes_of_long, read_long, ByteOrder};
use crate::error;
use crate::error::{syscall_ret, Attempt, CoreError, SysReply, EAGAIN, EINTR, EINVAL, EIO};

verus! {

// ---------------------------------------------------------------------------
// Descriptors
// ---------------------------------------------------------------------------

/// The flag of `F_SETFL` that makes reads and writes return at once.
pub const O_NONBLOCK: i32 = 2048;

/// The flag of `F_SETFD` that closes a descriptor on `exec`.
pub const FD_CLOEXEC: i32 = 1;

/// The number of an open file descriptor.
#[derive(Debug, PartialEq, Eq, Structural)]
pub struct Fd(pub i32);

/// The outcome of a call that returns a descriptor.
pub open spec fn opened(reply: SysReply, op: &'static str) -> Result<Fd, CoreError> {
    if reply.ret < 0 || reply.ret > i32::MAX {
        Err(CoreError::Syscall { code: reply.errno, op })
    } else {
        Ok(Fd(reply.ret as i32))
    }
}

/// The outcome of a read or a write: how many bytes were moved, or none where
/// the call would block.
pub open spec fn moved(reply: SysReply, op: &'static str) -> Attempt<
    Result<Option<usize>, CoreError>,
> {
    if reply.ret >= 0 {
        Attempt::Done(Ok(Some(reply.ret as usize)))
    } else if reply.errno == EINTR {
        Attempt::Retry
    } else if reply.errno == EAGAIN {
        Attempt::Done(Ok(None))
    } else {
        Attempt::Done(Err(CoreError::Syscall { code: reply.errno, op }))
    }
}

/// The outcome of a call that is made again when a signal interrupts it.
pub open spec fn settled(reply: SysReply, op: &'static str) -> Attempt<Result<(), CoreError>> {
    if reply.ret >= 0 {
        Attempt::Done(Ok(()))
    } else if reply.errno == EINTR {
        Attempt::Retry
    } else {
        Attempt::Done(Err(CoreError::Syscall { code: reply.errno, op }))
    }
}

fn read_moved(reply: SysReply, op: &'static str) -> (r: Attempt<Result<Option<usize>, CoreError>>)
    requires
        reply.ret <= usize::MAX,
    ensures
        r == moved(reply, op),
{
    if reply.ret >= 0 {
        Attempt::Done(Ok(Some(reply.ret as usize)))
    } else if reply.errno == EINTR {
        Attempt::Retry
    } else if reply.errno == EAGAIN {
        Attempt::Done(Ok(None))
    } else {
        Attempt::Done(Err(CoreError::sys(reply.errno, op)))
    }
}

fn read_settled(reply: SysReply, op: &'static str) -> (r: Attempt<Result<(), CoreError>>)
    ensures
        r == settled(reply, op),
{
    if reply.ret >= 0 {
        Attempt::Done(Ok(()))
    } else if reply.errno == EINTR {
        Attempt::Retry
    } else {
        Attempt::Done(Err(CoreError::sys(reply.errno, op)))
    }
}

/// A span of time.
#[derive(Debug, Clone, Copy, PartialEq, Eq, Structural)]
pub struct Delay {
    pub secs: u64,
    pub nanos: u32,
}

/// The time to which a one-shot timer is set: seconds and nanoseconds, both zero
/// to disarm it. An empty delay is rounded up to a nanosecond.
pub open spec fn timer_value(delay: Option<Delay>) -> (i64, i64) {
    match delay {
        Some(d) => if d.secs == 0 && d.nanos == 0 {
            (0, 1)
        } else {
            (d.secs as i64, d.nanos as i64)
        },
        None => (0, 0),
    }
}

impl Fd {
    /// The descriptor that a call returned.
    pub fn new(reply: SysReply, op: &'static str) -> (r: Result<Self, CoreError>)
        ensures
            r == opened(reply, op),
    {
        if reply.ret < 0 || reply.ret > i32::MAX as i64 {
            Err(CoreError::sys(reply.errno, op))
        } else {
            Ok(Fd(reply.ret as i32))
        }
    }

    /// The descriptor of a new `eventfd`.
    pub fn eventfd(reply: SysReply) -> (r: Result<Self, CoreError>)
        ensures
            r == opened(reply, "eventfd"),
    {
        Self::new(reply, "eventfd")
    }

    /// The descriptor of a new `timerfd`.
    pub fn timerfd(reply: SysReply) -> (r: Result<Self, CoreError>)
        ensures
            r == opened(reply, "timerfd_create"),
    {
        Self::new(reply, "timerfd_create")
    }

    /// The number.
    pub fn raw(&self) -> (r: i32)
        ensures
            r == self.0,
    {
        self.0
    }

    /// One round of `dup2`.
    pub fn dup2(reply: SysReply) -> (r: Attempt<Result<(), CoreError>>)
        ensures
            r == settled(reply, "dup2"),
    {
        read_settled(reply, "dup2")
    }

    /// The flags to set for `O_NONBLOCK`, from the reply of `F_GETFL`.
    pub fn set_nonblock(reply: SysReply) -> (r: Result<i32, CoreError>)
        ensures
            r == (if reply.ret == -1 {
                Err(CoreError::Syscall { code: reply.errno, op: "fcntl(F_GETFL)" })
            } else {
                Ok((reply.ret as i32) | O_NONBLOCK)
            }),
    {
        syscall_ret(reply, "fcntl(F_GETFL)")?;
        Ok(#[verifier::truncate] (reply.ret as i32) | O_NONBLOCK)
    }

    /// The flags to set for `FD_CLOEXEC`, from the reply of `F_GETFD`.
    pub fn set_cloexec(reply: SysReply) -> (r: Result<i32, CoreError>)
        ensures
            r == (if reply.ret == -1 {
                Err(CoreError::Syscall { code: reply.errno, op: "fcntl(F_GETFD)" })
            } else {
                Ok((reply.ret as i32) | FD_CLOEXEC)
            }),
    {
        syscall_ret(reply, "fcntl(F_GETFD)")?;
        Ok(#[verifier::truncate] (reply.ret as i32) | FD_CLOEXEC)
    }

    /// One round of `read`.
    pub fn read_slice(reply: SysReply) -> (r: Attempt<Result<Option<usize>, CoreError>>)
        requires
            reply.ret <= usize::MAX,
        ensures
            r == moved(reply, "read"),
    {
        read_moved(reply, "read")
    }

    /// One round of `write`.
    pub fn write_slice(reply: SysReply) -> (r: Attempt<Result<Option<usize>, CoreError>>)
        requires
            reply.ret <= usize::MAX,
        ensures
            r == moved(reply, "write"),
    {
        read_moved(reply, "write")
    }

    /// One round of `lseek`.
    pub fn seek_set(reply: SysReply) -> (r: Attempt<Result<u64, CoreError>>)
        ensures
            r == (if reply.ret >= 0 {
                Attempt::Done(Ok::<u64, CoreError>(reply.ret as u64))
            } else if reply.errno == EINTR {
                Attempt::Retry
            } else {
                Attempt::Done(Err(CoreError::Syscall { code: reply.errno, op: "lseek" }))
            }),
    {
        if reply.ret >= 0 {
            Attempt::Done(Ok(reply.ret as u64))
        } else if reply.errno == EINTR {
            Attempt::Retry
        } else {
            Attempt::Done(Err(CoreError::sys(reply.errno, "lseek")))
        }
    }

    /// The counter of an `eventfd` or `timerfd`, from the bytes that a read gave,
    /// which the kernel writes in the order of the machine.
    pub fn read_u64(read: Option<&[u8]>, order: ByteOrder) -> (r: Result<Option<u64>, CoreError>)
        ensures
            r == match read {
                Some(bytes) => if bytes@.len() == 8 {
                    Ok(Some(byte_order::long(order, bytes@)))
                } else {
                    Err(CoreError::Syscall { code: EIO, op: "read_u64" })
                },
                None => Ok(None),
            },
    {
        match read {
            Some(bytes) => if bytes.len() == 8 {
                Ok(Some(read_long(order, bytes)))
            } else {
                Err(CoreError::sys(EIO, "read_u64"))
            },
            None => Ok(None),
        }
    }

    /// The bytes to write to an `eventfd` to add to its counter, in the order of
    /// the machine.
    pub fn write_u64(value: u64, order: ByteOrder) -> (r: Vec<u8>)
        ensures
            r@ == byte_order::long_bytes(order, value),
    {
        bytes_of_long(order, value)
    }

    /// The time to which a one-shot timer is set.
    pub fn set_timer_oneshot(delay: Option<Delay>) -> (r: (i64, i64))
        ensures
            r == timer_value(delay),
    {
        match delay {
            Some(d) => if d.secs == 0 && d.nanos == 0 {
                (0, 1)
            } else {
                (#[verifier::truncate] (d.secs as i64), d.nanos as i64)
            },
            None => (0, 0),
        }
    }
}

// ---------------------------------------------------------------------------
// Events
// ---------------------------------------------------------------------------

pub const EPOLLIN: u32 = 0x1;

pub const EPOLLPRI: u32 = 0x2;

pub const EPOLLOUT: u32 = 0x4;

pub const EPOLLERR: u32 = 0x8;

pub const EPOLLHUP: u32 = 0x10;

pub const EPOLLET: u32 = 0x8000_0000;

/// Stands for a registered descriptor.
#[derive(Debug, Clone, Copy, PartialEq, Eq, Hash, Structural)]
pub struct Token(pub u64);

impl Token {
    pub fn new(val: u64) -> (r: Self)
        ensures
            r == Token(val),
    {
        Token(val)
    }

    pub fn val(&self) -> (r: u64)
        ensures
            r == self.0,
    {
        self.0
    }
}

/// What a descriptor is ready for.
#[derive(Debug, Clone, Copy, PartialEq, Eq, Structural)]
pub struct Event {
    pub token: Token,
    /// Reading does not block.
    pub readable: bool,
    /// There is priority data.
    pub priority: bool,
    /// Writing does not block.
    pub writable: bool,
    /// There is an error, or the other end hung up. It makes the descriptor
    /// ready for everything, so that its handler drains it.
    pub error: bool,
    /// The other end hung up.
    pub hangup: bool,
}

/// An event as the kernel reports it.
#[derive(Debug, Clone, Copy)]
pub struct RawEvent {
    pub events: u32,
    pub data: u64,
}

/// The event that a report stands for.
pub open spec fn decoded(raw: RawEvent) -> Event {
    let err = raw.events & EPOLLERR != 0;
    let hup = raw.events & EPOLLHUP != 0;
    Event {
        token: Token(raw.data),
        readable: raw.events & EPOLLIN != 0 || err || hup,
        priority: raw.events & EPOLLPRI != 0 || err || hup,
        writable: raw.events & EPOLLOUT != 0 || err || hup,
        error: err || hup,
        hangup: hup,
    }
}

/// The mask that asks for edge-triggered events of the chosen sorts.
pub open spec fn interest(readable: bool, writable: bool, priority: bool) -> u32 {
    let m0 = EPOLLET;
    let m1 = if readable {
        m0 | EPOLLIN
    } else {
        m0
    };
    let m2 = if writable {
        m1 | EPOLLOUT
    } else {
        m1
    };
    if priority {
        m2 | EPOLLPRI
    } else {
        m2
    }
}

fn interest_mask(readable: bool, writable: bool, priority: bool) -> (r: u32)
    ensures
        r == interest(readable, writable, priority),
{
    let mut events = EPOLLET;
    if readable {
        events = events | EPOLLIN;
    }
    if writable {
        events = events | EPOLLOUT;
    }
    if priority {
        events = events | EPOLLPRI;
    }
    events
}

fn decode(raw: &RawEvent) -> (r: Event)
    ensures
        r == decoded(*raw),
{
    let err = raw.events & EPOLLERR != 0;
    let hup = raw.events & EPOLLHUP != 0;
    Event {
        token: Token(raw.data),
        readable: raw.events & EPOLLIN != 0 || err || hup,
        priority: raw.events & EPOLLPRI != 0 || err || hup,
        writable: raw.events & EPOLLOUT != 0 || err || hup,
        error: err || hup,
        hangup: hup,
    }
}

/// A descriptor to be registered under `token` for the events of the mask.
#[derive(Debug, Clone, Copy, PartialEq, Eq, Structural)]
pub struct Registration {
    pub token: Token,
    pub events: u32,
}

/// The next thing to do to have `SIGCHLD` reported as an event.
#[derive(Debug, Clone, Copy)]
pub enum SignalfdStep {
    /// Block `SIGCHLD` for the thread.
    Block,
    /// Create the `signalfd`.
    Create,
    /// Register the `signalfd`.
    Register(Registration),
    /// It is set up.
    Done(Token),
    /// It failed with the signal mask as it was.
    Failed(CoreError),
    /// It failed; restore the signal mask.
    Restore(CoreError),
}

/// What to do after one read of the `signalfd`.
#[derive(Debug, Clone, Copy)]
pub enum DrainStep {
    Again,
    Done,
    Failed(CoreError),
}

/// The size of a record of the `signalfd`.
pub const SIGINFO_SIZE: usize = 128;

/// The tokens of an event queue.
#[derive(Debug)]
pub struct Reactor {
    /// The token of the next registration.
    pub next_token: u64,
    /// The token of the `signalfd`, if it is set up.
    pub sigchld_token: Option<Token>,
    /// The token of the `inotify` descriptor, if it is set up.
    pub inotify_token: Option<Token>,
}

impl Reactor {
    /// Whether a token was ever given out.
    pub open spec fn issued(&self, token: Token) -> bool {
        1 <= token.0 < self.next_token
    }

    /// A reactor without registrations, from the reply of `epoll_create1`.
    pub fn new(reply: SysReply) -> (r: Result<Self, CoreError>)
        ensures
            match r {
                Ok(reactor) => reply.ret != -1 && reactor.next_token == 1
                    && reactor.sigchld_token is None && reactor.inotify_token is None && forall|
                    t: Token,
                | !(#[trigger] reactor.issued(t)),
                Err(e) => reply.ret == -1 && e == (CoreError::Syscall {
                    code: reply.errno,
                    op: "epoll_create1",
                }),
            },
    {
        syscall_ret(reply, "epoll_create1")?;
        Ok(Self { next_token: 1, sigchld_token: None, inotify_token: None })
    }

    fn issue(&mut self, readable: bool, writable: bool, priority: bool) -> (r: Registration)
        requires
            1 <= old(self).next_token < u64::MAX,
        ensures
            r.token == Token(old(self).next_token),
            r.events == interest(readable, writable, priority),
            final(self).next_token == old(self).next_token + 1,
            final(self).sigchld_token == old(self).sigchld_token,
            final(self).inotify_token == old(self).inotify_token,
    {
        let token = Token(self.next_token);
        self.next_token = self.next_token + 1;
        Registration { token, events: interest_mask(readable, writable, priority) }
    }

    /// Give out a token for a descriptor that is to be registered. The token
    /// was never given out before, and is not given out again even if the
    /// registration fails.
    pub fn add(&mut self, readable: bool, writable: bool) -> (r: Registration)
        requires
            1 <= old(self).next_token < u64::MAX,
        ensures
            r.token == Token(old(self).next_token),
            r.events == interest(readable, writable, false),
            !old(self).issued(r.token),
            final(self).issued(r.token),
            final(self).next_token == old(self).next_token + 1,
            final(self).sigchld_token == old(self).sigchld_token,
            final(self).inotify_token == old(self).inotify_token,
    {
        self.issue(readable, writable, false)
    }

    /// Give out a token for a descriptor that is to be registered for priority
    /// data.
    pub fn add_priority(&mut self) -> (r: Registration)
        requires
            1 <= old(self).next_token < u64::MAX,
        ensures
            r.token == Token(old(self).next_token),
            r.events == interest(false, false, true),
            !old(self).issued(r.token),
            final(self).issued(r.token),
            final(self).next_token == old(self).next_token + 1,
            final(self).sigchld_token == old(self).sigchld_token,
            final(self).inotify_token == old(self).inotify_token,
    {
        self.issue(false, false, true)
    }

    /// The outcome of a registration.
    pub fn added(registration: Registration, reply: SysReply) -> (r: Result<Token, CoreError>)
        ensures
            r == (if reply.ret == -1 {
                Err(CoreError::Syscall { code: reply.errno, op: "epoll_ctl_add" })
            } else {
                Ok(registration.token)
            }),
    {
        syscall_ret(reply, "epoll_ctl_add")?;
        Ok(registration.token)
    }

    /// One round of the removal of a descriptor.
    pub fn del(reply: SysReply) -> (r: Attempt<Result<(), CoreError>>)
        ensures
            r == (if reply.ret != -1 {
                Attempt::Done(Ok::<(), CoreError>(()))
            } else if reply.errno == EINTR {
                Attempt::Retry
            } else {
                Attempt::Done(Err(CoreError::Syscall { code: reply.errno, op: "epoll_ctl_del" }))
            }),
    {
        if reply.ret == -1 {
            if reply.errno == EINTR {
                Attempt::Retry
            } else {
                Attempt::Done(Err(CoreError::sys(reply.errno, "epoll_ctl_del")))
            }
        } else {
            Attempt::Done(Ok(()))
        }
    }

    /// The events of one wait for at most `max_events` of them. `raw` holds what
    /// the kernel filled in; nothing is asked of it where `max_events` is zero.
    /// An interrupted wait has no events.
    pub fn wait(max_events: usize, reply: SysReply, raw: &[RawEvent]) -> (r: Result<
        Vec<Event>,
        CoreError,
    >)
        requires
            reply.ret <= raw@.len(),
        ensures
            match r {
                Ok(events) => {
                    &&& (max_events == 0 || reply.ret >= 0 || reply.errno == EINTR)
                    &&& events@ == (if max_events == 0 || reply.ret < 0 {
                        Seq::<Event>::empty()
                    } else {
                        raw@.take(reply.ret as int).map_values(|e: RawEvent| decoded(e))
                    })
                },
                Err(e) => {
                    &&& max_events > 0 && reply.ret < 0 && reply.errno != EINTR
                    &&& e == (CoreError::Syscall { code: reply.errno, op: "epoll_wait" })
                },
            },
    {
        let mut events: Vec<Event> = Vec::new();
        if max_events == 0 {
            return Ok(events);
        }
        if reply.ret < 0 {
            if reply.errno == EINTR {
                return Ok(events);
            }
            return Err(CoreError::sys(reply.errno, "epoll_wait"));
        }
        let len: usize = raw.len();
        assert(reply.ret <= len);
        let n = reply.ret as usize;
        let ghost all = raw@.take(n as int).map_values(|e: RawEvent| decoded(e));
        let mut i: usize = 0;
        while i < n
            invariant
                i <= n <= raw@.len(),
                all == raw@.take(n as int).map_values(|e: RawEvent| decoded(e)),
                events@ == all.take(i as int),
            decreases n - i,
        {
            events.push(decode(&raw[i]));
            assert(events@ =~= all.take(i + 1));
            i += 1;
        }
        assert(all.take(n as int) =~= all);
        Ok(events)
    }

    /// Begin to have `SIGCHLD` reported as an event. That can be done once.
    pub fn setup_signalfd(&self) -> (r: SignalfdStep)
        ensures
            r == (if self.sigchld_token is Some {
                SignalfdStep::Failed(
                    CoreError::Syscall { code: EINVAL, op: "setup_signalfd already initialized" },
                )
            } else {
                SignalfdStep::Block
            }),
    {
        if self.sigchld_token.is_some() {
            SignalfdStep::Failed(CoreError::sys(EINVAL, "setup_signalfd already initialized"))
        } else {
            SignalfdStep::Block
        }
    }

    /// Go on after `pthread_sigmask` returned `ret`.
    pub fn signalfd_blocked(ret: i32) -> (r: SignalfdStep)
        ensures
            r == (if ret != 0 {
                SignalfdStep::Failed(
                    CoreError::Syscall { code: ret, op: "pthread_sigmask(SIG_BLOCK)" },
                )
            } else {
                SignalfdStep::Create
            }),
    {
        if ret != 0 {
            SignalfdStep::Failed(CoreError::sys(ret, "pthread_sigmask(SIG_BLOCK)"))
        } else {
            SignalfdStep::Create
        }
    }

    /// Go on after the `signalfd` was to be created.
    pub fn signalfd_created(&mut self, reply: SysReply) -> (r: SignalfdStep)
        requires
            1 <= old(self).next_token < u64::MAX,
        ensures
            final(self).sigchld_token == old(self).sigchld_token,
            final(self).inotify_token == old(self).inotify_token,
            reply.ret == -1 ==> final(self).next_token == old(self).next_token && r
                == SignalfdStep::Restore(
                CoreError::Syscall { code: reply.errno, op: "signalfd" },
            ),
            reply.ret != -1 ==> final(self).next_token == old(self).next_token + 1 && r
                == SignalfdStep::Register(
                Registration {
                    token: Token(old(self).next_token),
                    events: interest(true, false, false),
                },
            ),
    {
        match syscall_ret(reply, "signalfd") {
            Err(e) => SignalfdStep::Restore(e),
            Ok(()) => SignalfdStep::Register(self.add(true, false)),
        }
    }

    /// Finish after the `signalfd` was to be registered.
    pub fn signalfd_registered(&mut self, registration: Registration, reply: SysReply) -> (r:
        SignalfdStep)
        ensures
            final(self).next_token == old(self).next_token,
            final(self).inotify_token == old(self).inotify_token,
            reply.ret == -1 ==> final(self).sigchld_token == old(self).sigchld_token && r
                == SignalfdStep::Restore(
                CoreError::Syscall { code: reply.errno, op: "epoll_ctl_add" },
            ),
            reply.ret != -1 ==> final(self).sigchld_token == Some(registration.token) && r
                == SignalfdStep::Done(registration.token),
    {
        match Self::added(registration, reply) {
            Err(e) => SignalfdStep::Restore(e),
            Ok(token) => {
                self.sigchld_token = Some(token);
                SignalfdStep::Done(token)
            },
        }
    }

    /// Go on after one read of the `signalfd`: until it would block, or gives
    /// less than a record.
    pub fn drain_signalfd(read: Result<Option<usize>, CoreError>) -> (r: DrainStep)
        ensures
            r == match read {
                Ok(Some(n)) => if n < SIGINFO_SIZE {
                    DrainStep::Done
                } else {
                    DrainStep::Again
                },
                Ok(None) => DrainStep::Done,
                Err(e) => DrainStep::Failed(e),
            },
    {
        match read {
            Ok(Some(n)) => if n < SIGINFO_SIZE {
                DrainStep::Done
            } else {
                DrainStep::Again
            },
            Ok(None) => DrainStep::Done,
            Err(e) => DrainStep::Failed(e),
        }
    }

    /// Begin to have file changes reported as events, from the reply of
    /// `inotify_init1`.
    pub fn setup_inotify(&mut self, reply: SysReply) -> (r: Result<Registration, CoreError>)
        requires
            1 <= old(self).next_token < u64::MAX,
        ensures
            final(self).sigchld_token == old(self).sigchld_token,
            final(self).inotify_token == old(self).inotify_token,
            reply.ret == -1 ==> final(self).next_token == old(self).next_token && r == Err::<
                Registration,
                CoreError,
            >(CoreError::Syscall { code: reply.errno, op: "inotify_init1" }),
            reply.ret != -1 ==> final(self).next_token == old(self).next_token + 1 && r == Ok::<
                Registration,
                CoreError,
            >(
                Registration {
                    token: Token(old(self).next_token),
                    events: interest(true, false, false),
                },
            ),
    {
        syscall_ret(reply, "inotify_init1")?;
        Ok(self.add(true, false))
    }

    /// Finish after the `inotify` descriptor was to be registered.
    pub fn inotify_registered(&mut self, registration: Registration, reply: SysReply) -> (r: Result<
        Token,
        CoreError,
    >)
        ensures
            final(self).next_token == old(self).next_token,
            final(self).sigchld_token == old(self).sigchld_token,
            reply.ret == -1 ==> final(self).inotify_token == old(self).inotify_token && r == Err::<
                Token,
                CoreError,
            >(CoreError::Syscall { code: reply.errno, op: "epoll_ctl_add" }),
            reply.ret != -1 ==> final(self).inotify_token == Some(registration.token) && r == Ok::<
                Token,
                CoreError,
            >(registration.token),
    {
        let token = Self::added(registration, reply)?;
        self.inotify_token = Some(token);
        Ok(token)
    }
}

// ---------------------------------------------------------------------------
// Laws
// ---------------------------------------------------------------------------

/// An error or a hangup makes a descriptor ready for everything, so that its
/// handler drains it.
pub proof fn law_errors_wake_everything(raw: RawEvent)
    ensures
        decoded(raw).error <==> raw.events & EPOLLERR != 0 || raw.events & EPOLLHUP != 0,
        decoded(raw).hangup ==> decoded(raw).error,
        decoded(raw).error ==> decoded(raw).readable && decoded(raw).writable
            && decoded(raw).priority,
{
}

/// Every registration is edge-triggered and asks for exactly the chosen sorts
/// of events.
pub proof fn law_interest(readable: bool, writable: bool, priority: bool)
    ensures
        interest(readable, writable, priority) & EPOLLET != 0,
        interest(readable, writable, priority) & EPOLLIN != 0 <==> readable,
        interest(readable, writable, priority) & EPOLLOUT != 0 <==> writable,
        interest(readable, writable, priority) & EPOLLPRI != 0 <==> priority,
{
    let m = interest(readable, writable, priority);
    let a: u32 = if readable {
        0x1
    } else {
        0
    };
    let b: u32 = if writable {
        0x4
    } else {
        0
    };
    let c: u32 = if priority {
        0x2
    } else {
        0
    };
    assert(0x8000_0000u32 | 0 == 0x8000_0000u32) by (bit_vector);
    assert(forall|x: u32| x | 0 == x) by (bit_vector);
    assert(m == ((0x8000_0000u32 | a) | b) | c);
    assert((((0x8000_0000u32 | a) | b) | c) & 0x8000_0000 != 0 && ((((0x8000_0000u32 | a) | b) | c)
        & 1 != 0 <==> a == 1) && ((((0x8000_0000u32 | a) | b) | c) & 4 != 0 <==> b == 4) && ((((
    0x8000_0000u32 | a) | b) | c) & 2 != 0 <==> c == 2)) by (bit_vector)
        requires
            a == 0 || a == 1u32,
            b == 0 || b == 4u32,
            c == 0 || c == 2u32,
    ;
}

/// What an event tells: the descriptor by its token, and each readiness by its bit
/// or by an error or a hang-up.
pub proof fn law_readiness(raw: RawEvent)
    ensures
        decoded(raw).token.0 == raw.data,
        decoded(raw).readable <==> raw.events & 1 != 0 || raw.events & 8 != 0 || raw.events & 16
            != 0,
        decoded(raw).priority <==> raw.events & 2 != 0 || raw.events & 8 != 0 || raw.events & 16
            != 0,
        decoded(raw).writable <==> raw.events & 4 != 0 || raw.events & 8 != 0 || raw.events & 16
            != 0,
        decoded(raw).error <==> raw.events & 8 != 0 || raw.events & 16 != 0,
        decoded(raw).hangup <==> raw.events & 16 != 0,
{
}

/// What a call that moves bytes comes to: how many it moved, that it would block,
/// that it is to be made again after an interrupt, or the code of its failure. One
/// that moves none knows no blocking.
pub proof fn law_transfers(reply: SysReply, op: &'static str)
    ensures
        0 <= reply.ret <= usize::MAX ==> (moved(reply, op) matches Attempt::Done(Ok(Some(n))) && n
            == reply.ret),
        reply.ret < 0 && reply.errno == 4 ==> moved(reply, op) is Retry && settled(
            reply,
            op,
        ) is Retry,
        reply.ret < 0 && reply.errno == 11 ==> (moved(reply, op) matches Attempt::Done(Ok(None))),
        reply.ret < 0 && reply.errno != 4 && reply.errno != 11 ==> (moved(
            reply,
            op,
        ) matches Attempt::Done(Err(e)) && e == (CoreError::Syscall { code: reply.errno, op })),
        reply.ret >= 0 ==> (settled(reply, op) matches Attempt::Done(Ok(_))),
        reply.ret < 0 && reply.errno != 4 ==> (settled(reply, op) matches Attempt::Done(Err(e)) && e
            == (CoreError::Syscall { code: reply.errno, op })),
{
}

/// A call that opens a descriptor gives the number it returned, or fails with the
/// code it left.
pub proof fn law_opening(reply: SysReply, op: &'static str)
    ensures
        0 <= reply.ret <= 0x7fff_ffff ==> opened(reply, op) is Ok && opened(reply, op)->Ok_0.0
            == reply.ret,
        reply.ret < 0 ==> opened(reply, op) == Err::<Fd, CoreError>(
            CoreError::Syscall { code: reply.errno, op },
        ),
{
}

/// A timer goes off after its delay, at once as nearly as can be for none of it,
/// and is off only where there is no delay.
pub proof fn law_timer(secs: u64, nanos: u32)
    requires
        secs <= i64::MAX,
    ensures
        timer_value(None) == (0i64, 0i64),
        timer_value(Some(Delay { secs, nanos })) != (0i64, 0i64),
        timer_value(Some(Delay { secs: 0, nanos: 0 })) == (0i64, 1i64),
        secs > 0 || nanos > 0 ==> ({
            let (s, n) = timer_value(Some(Delay { secs, nanos }));
            s == secs && n == nanos
        }),
{
}

} // verus!
