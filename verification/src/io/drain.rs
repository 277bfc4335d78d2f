//! Coordination of the pipes of a process.

use vstd::prelude::*;

use crate::error::CoreError;
use crate::io::buffer;
use crate::io::buffer::{BufferState, ReadState, ReadStep};
use crate::io::writer::{WriteStep, WriterState};
use crate::reactor::{Fd, Token};

verus! {

/// A descriptor and the token it is registered under.
#[derive(Debug)]
pub struct FdSlot {
    pub token: Option<Token>,
    pub fd: Fd,
}

/// The pipes of a process, its output so far and its input to come.
#[derive(Debug)]
pub struct DrainState {
    pub stdin_slot: Option<FdSlot>,
    pub stdout_slot: Option<FdSlot>,
    pub stderr_slot: Option<FdSlot>,
    pub buffer: BufferState,
    pub writer: WriterState,
}

/// Whether a slot is registered under `token`.
pub open spec fn matches_token(slot: Option<FdSlot>, token: Token) -> bool {
    slot is Some && slot->0.token == Some(token)
}

fn slot_matches(slot: &Option<FdSlot>, token: Token) -> (r: bool)
    ensures
        r == matches_token(*slot, token),
{
    match slot {
        Some(s) => match s.token {
            Some(t) => t == token,
            None => false,
        },
        None => false,
    }
}

/// A descriptor in its slot.
pub open spec fn slotted(fd: Option<Fd>) -> Option<FdSlot> {
    match fd {
        Some(fd) => Some(FdSlot { token: None, fd }),
        None => None,
    }
}

/// How the handling of a ready pipe ended.
#[derive(Debug)]
pub enum PipeStep {
    /// Read or write again.
    More,
    /// Wait for the next event.
    Wait,
    /// The pipe is done: remove it from the reactor and close it.
    Close(FdSlot),
    /// The call failed.
    Failed(CoreError),
    /// There is no such pipe.
    Absent,
}

impl DrainState {
    /// The pipes that are open: input only if there is some, and none of them
    /// registered yet. The descriptors are non-blocking.
    pub fn new(
        stdin_fd: Option<Fd>,
        stdin_buf: Option<Vec<u8>>,
        stdout_fd: Option<Fd>,
        stderr_fd: Option<Fd>,
        limit: usize,
    ) -> (r: Self)
        ensures
            r.stdin_slot == (if stdin_buf is Some {
                slotted(stdin_fd)
            } else {
                None
            }),
            r.stdout_slot == slotted(stdout_fd),
            r.stderr_slot == slotted(stderr_fd),
            r.buffer@ == (buffer::Kept {
                stdout: seq![],
                stderr: seq![],
                limit: limit as nat,
                exceeded: false,
                early: false,
            }),
            r.writer.wf(),
            r.writer.buf == stdin_buf,
            r.writer.offset == 0,
    {
        let stdin_slot = if stdin_buf.is_some() {
            match stdin_fd {
                Some(fd) => Some(FdSlot { token: None, fd }),
                None => None,
            }
        } else {
            None
        };
        let stdout_slot = match stdout_fd {
            Some(fd) => Some(FdSlot { token: None, fd }),
            None => None,
        };
        let stderr_slot = match stderr_fd {
            Some(fd) => Some(FdSlot { token: None, fd }),
            None => None,
        };
        Self {
            stdin_slot,
            stdout_slot,
            stderr_slot,
            buffer: BufferState::new(limit),
            writer: WriterState::new(stdin_buf),
        }
    }

    /// Whether all pipes are closed.
    pub open spec fn done(&self) -> bool {
        self.stdin_slot is None && self.stdout_slot is None && self.stderr_slot is None
    }

    /// Whether all pipes are closed.
    pub fn is_done(&self) -> (r: bool)
        ensures
            r == self.done(),
    {
        self.stdin_slot.is_none() && self.stdout_slot.is_none() && self.stderr_slot.is_none()
    }

    /// Go on after a write to standard input.
    pub fn write_stdin(&mut self, wrote: Result<Option<usize>, CoreError>) -> (r: PipeStep)
        requires
            old(self).writer.wf(),
            match wrote {
                Ok(Some(n)) => n <= old(self).writer.left().len(),
                _ => true,
            },
        ensures
            final(self).writer.wf(),
            final(self).buffer == old(self).buffer,
            final(self).stdout_slot == old(self).stdout_slot,
            final(self).stderr_slot == old(self).stderr_slot,
            old(self).stdin_slot is None ==> r is Absent && *final(self) == *old(self),
            old(self).stdin_slot is Some ==> ({
                let finished = match wrote {
                    Ok(Some(n)) => n == old(self).writer.left().len(),
                    Ok(None) => false,
                    Err(e) => e->code == crate::error::EPIPE,
                };
                if finished {
                    &&& r == PipeStep::Close(old(self).stdin_slot->0)
                    &&& final(self).stdin_slot is None
                    &&& final(self).writer.buf is None
                } else {
                    &&& final(self).stdin_slot == old(self).stdin_slot
                    &&& match wrote {
                        Ok(Some(n)) => r is More && final(self).writer.left() == old(self).writer.left().skip(n as int),
                        Ok(None) => r is Wait && final(self).writer == old(self).writer,
                        Err(e) => r == PipeStep::Failed(e) && final(self).writer == old(self).writer,
                    }
                }
            }),
    {
        if self.stdin_slot.is_none() {
            return PipeStep::Absent;
        }
        match self.writer.write_to_fd(wrote) {
            WriteStep::More => PipeStep::More,
            WriteStep::Blocked => PipeStep::Wait,
            WriteStep::Failed(e) => PipeStep::Failed(e),
            WriteStep::Finished => {
                self.writer.buf = None;
                match self.stdin_slot.take() {
                    Some(slot) => PipeStep::Close(slot),
                    None => PipeStep::Absent,
                }
            },
        }
    }

    /// Go on after a read of standard output or error. `matched` tells whether
    /// the bytes ask for standard output to be closed.
    pub fn read_fd(
        &mut self,
        is_stdout: bool,
        read: Result<Option<&[u8]>, CoreError>,
        matched: bool,
    ) -> (r: PipeStep)
        ensures
            final(self).writer == old(self).writer,
            final(self).stdin_slot == old(self).stdin_slot,
            is_stdout ==> final(self).stderr_slot == old(self).stderr_slot,
            !is_stdout ==> final(self).stdout_slot == old(self).stdout_slot,
            ({
                let slot = if is_stdout {
                    old(self).stdout_slot
                } else {
                    old(self).stderr_slot
                };
                let after = if is_stdout {
                    final(self).stdout_slot
                } else {
                    final(self).stderr_slot
                };
                let (kept, step) = buffer::taken(
                    old(self).buffer@,
                    is_stdout,
                    buffer::read_bytes(read),
                    matched,
                );
                match slot {
                    None => r is Absent && *final(self) == *old(self),
                    Some(open) => {
                        &&& final(self).buffer@ == kept
                        &&& match step {
                            ReadStep::More => r is More && after == slot,
                            ReadStep::Ended(ReadState::Open) => r is Wait && after == slot,
                            ReadStep::Ended(_) => r == PipeStep::Close(open) && after is None,
                            ReadStep::Failed(e) => r == PipeStep::Failed(e) && after == slot,
                        }
                    },
                }
            }),
    {
        let open = if is_stdout {
            self.stdout_slot.is_some()
        } else {
            self.stderr_slot.is_some()
        };
        if !open {
            return PipeStep::Absent;
        }
        match self.buffer.read_from_fd(is_stdout, read, matched) {
            ReadStep::More => PipeStep::More,
            ReadStep::Failed(e) => PipeStep::Failed(e),
            ReadStep::Ended(ReadState::Open) => PipeStep::Wait,
            ReadStep::Ended(_) => {
                let slot = if is_stdout {
                    self.stdout_slot.take()
                } else {
                    self.stderr_slot.take()
                };
                match slot {
                    Some(slot) => PipeStep::Close(slot),
                    None => PipeStep::Absent,
                }
            },
        }
    }

    /// Close all pipes: those that were open, input first.
    pub fn take_all_slots(&mut self) -> (r: Vec<FdSlot>)
        ensures
            final(self).done(),
            final(self).buffer == old(self).buffer,
            final(self).writer == old(self).writer,
            r@ == slot_list(old(self).stdin_slot) + slot_list(old(self).stdout_slot) + slot_list(
                old(self).stderr_slot,
            ),
    {
        let mut slots: Vec<FdSlot> = Vec::new();
        if let Some(slot) = self.stdin_slot.take() {
            slots.push(slot);
        }
        assert(slots@ =~= slot_list(old(self).stdin_slot));
        if let Some(slot) = self.stdout_slot.take() {
            slots.push(slot);
        }
        assert(slots@ =~= slot_list(old(self).stdin_slot) + slot_list(old(self).stdout_slot));
        if let Some(slot) = self.stderr_slot.take() {
            slots.push(slot);
        }
        assert(slots@ =~= slot_list(old(self).stdin_slot) + slot_list(old(self).stdout_slot)
            + slot_list(old(self).stderr_slot));
        slots
    }

    /// Drop standard input and what is left to write to it.
    pub fn drop_stdin(&mut self) -> (r: Option<FdSlot>)
        ensures
            r == old(self).stdin_slot,
            final(self).stdin_slot is None,
            final(self).writer.buf is None,
            final(self).stdout_slot == old(self).stdout_slot,
            final(self).stderr_slot == old(self).stderr_slot,
            final(self).buffer == old(self).buffer,
    {
        self.writer.buf = None;
        self.stdin_slot.take()
    }

    /// Drop standard output.
    pub fn drop_stdout(&mut self) -> (r: Option<FdSlot>)
        ensures
            r == old(self).stdout_slot,
            final(self).stdout_slot is None,
            final(self).stdin_slot == old(self).stdin_slot,
            final(self).stderr_slot == old(self).stderr_slot,
            final(self).buffer == old(self).buffer,
            final(self).writer == old(self).writer,
    {
        self.stdout_slot.take()
    }

    /// Drop standard error.
    pub fn drop_stderr(&mut self) -> (r: Option<FdSlot>)
        ensures
            r == old(self).stderr_slot,
            final(self).stderr_slot is None,
            final(self).stdin_slot == old(self).stdin_slot,
            final(self).stdout_slot == old(self).stdout_slot,
            final(self).buffer == old(self).buffer,
            final(self).writer == old(self).writer,
    {
        self.stderr_slot.take()
    }

    /// Whether standard output is registered under `token`.
    pub fn stdout_matches(&self, token: Token) -> (r: bool)
        ensures
            r == matches_token(self.stdout_slot, token),
    {
        slot_matches(&self.stdout_slot, token)
    }

    /// Whether standard error is registered under `token`.
    pub fn stderr_matches(&self, token: Token) -> (r: bool)
        ensures
            r == matches_token(self.stderr_slot, token),
    {
        slot_matches(&self.stderr_slot, token)
    }

    /// Whether standard input is registered under `token`.
    pub fn stdin_matches(&self, token: Token) -> (r: bool)
        ensures
            r == matches_token(self.stdin_slot, token),
    {
        slot_matches(&self.stdin_slot, token)
    }

    /// The output.
    pub fn into_parts(self) -> (r: (Vec<u8>, Vec<u8>))
        ensures
            r.0@ == self.buffer@.stdout,
            r.1@ == self.buffer@.stderr,
    {
        let (stdout, stderr, _, _) = self.buffer.into_parts();
        (stdout, stderr)
    }

    /// The output, whether bytes were thrown away, and whether standard output
    /// was closed on request.
    pub fn into_parts_with_state(self) -> (r: (Vec<u8>, Vec<u8>, bool, bool))
        ensures
            r.0@ == self.buffer@.stdout,
            r.1@ == self.buffer@.stderr,
            r.2 == self.buffer@.exceeded,
            r.3 == self.buffer@.early,
    {
        self.buffer.into_parts()
    }

    /// Whether more came than is kept.
    pub fn output_limit_exceeded(&self) -> (r: bool)
        ensures
            r == self.buffer@.exceeded,
    {
        self.buffer.output_limit_exceeded()
    }

    /// Whether standard output was closed on request.
    pub fn stdout_early_exited(&self) -> (r: bool)
        ensures
            r == self.buffer@.early,
    {
        self.buffer.stdout_early_exited()
    }
}

/// The open slots of one.
pub open spec fn slot_list(slot: Option<FdSlot>) -> Seq<FdSlot> {
    match slot {
        Some(s) => seq![s],
        None => seq![],
    }
}

} // verus!
