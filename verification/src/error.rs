//! Errors of low-level operations, and how the outcome of a system call is read.

use vstd::prelude::*;

use crate::text;
use crate::text::{push_int, push_text, string_of};

verus! {

pub const ENOENT: i32 = 2;
pub const ESRCH: i32 = 3;
pub const EINTR: i32 = 4;
pub const EIO: i32 = 5;
pub const EAGAIN: i32 = 11;
pub const EEXIST: i32 = 17;
pub const EINVAL: i32 = 22;
pub const EPIPE: i32 = 32;
pub const ENAMETOOLONG: i32 = 36;
pub const EOVERFLOW: i32 = 75;
pub const EADDRINUSE: i32 = 98;
pub const EISCONN: i32 = 106;
pub const EALREADY: i32 = 114;
pub const EINPROGRESS: i32 = 115;

/// Error of a low-level system operation.
#[derive(Debug, Clone, Copy, PartialEq, Eq)]
pub enum CoreError {
    /// A system call or libc-style operation failed.
    Syscall {
        /// The raw OS error code.
        code: i32,
        /// The name of the failed operation.
        op: &'static str,
    },
}

impl CoreError {
    /// The error of an operation that failed with `code`.
    pub fn sys(code: i32, op: &'static str) -> (r: Self)
        ensures
            r == (CoreError::Syscall { code, op }),
    {
        Self::Syscall { code, op }
    }

    /// The raw OS error code.
    pub fn raw_os_error(&self) -> (r: Option<i32>)
        ensures
            r == Some(self->code),
    {
        match self {
            Self::Syscall { code, .. } => Some(*code),
        }
    }

    /// The operation that failed.
    pub fn op(&self) -> (r: &'static str)
        ensures
            r == self->op,
    {
        match self {
            Self::Syscall { op, .. } => op,
        }
    }

    /// The code that a standard I/O error for this error carries.
    pub fn to_io_error(&self) -> (r: i32)
        ensures
            r == self->code,
    {
        match self.raw_os_error() {
            Some(code) => code,
            None => EIO,
        }
    }

    /// The error as a line of text.
    pub fn message(&self) -> (r: String)
        ensures
            r@ == error_text(*self),
    {
        match self {
            Self::Syscall { code, op } => {
                let mut out: Vec<char> = Vec::new();
                push_text(&mut out, op);
                push_text(&mut out, " failed (code=");
                push_int(&mut out, *code);
                push_text(&mut out, ")");
                string_of(out.as_slice())
            },
        }
    }
}

/// The text of an error: `<op> failed (code=<code>)`.
pub open spec fn error_text(e: CoreError) -> Seq<char> {
    e->op@ + " failed (code="@ + text::dec_int(e->code as int) + ")"@
}

/// The outcome of a system call: what it returned, and the value of `errno`
/// right after it. `errno` means something only where the call failed.
#[derive(Debug, Clone, Copy, PartialEq, Eq)]
pub struct SysReply {
    pub ret: i64,
    pub errno: i32,
}

/// One round of a call that is made again when a signal interrupts it.
#[derive(Debug, Clone, Copy)]
pub enum Attempt<T> {
    /// The call was interrupted: make it again.
    Retry,
    /// The call has an outcome.
    Done(T),
}

/// Read the outcome of a call that reports failure as `-1`.
pub fn syscall_ret(reply: SysReply, op: &'static str) -> (r: Result<(), CoreError>)
    ensures
        r == ret_outcome(reply, op),
{
    if reply.ret == -1 {
        Err(CoreError::sys(reply.errno, op))
    } else {
        Ok(())
    }
}

/// A call that reports failure as `-1`: its error is the `errno` it left.
pub open spec fn ret_outcome(reply: SysReply, op: &'static str) -> Result<(), CoreError> {
    if reply.ret == -1 {
        Err(CoreError::Syscall { code: reply.errno, op })
    } else {
        Ok(())
    }
}

/// Read the outcome of a call that returns its error code.
pub fn posix_ret(ret: i32, op: &'static str) -> (r: Result<(), CoreError>)
    ensures
        r == posix_outcome(ret, op),
{
    if ret != 0 {
        Err(CoreError::sys(ret, op))
    } else {
        Ok(())
    }
}

/// A call that returns its error code, zero on success.
pub open spec fn posix_outcome(ret: i32, op: &'static str) -> Result<(), CoreError> {
    if ret != 0 {
        Err(CoreError::Syscall { code: ret, op })
    } else {
        Ok(())
    }
}

/// The error of a failed standard I/O operation: its OS code, or `EIO` if it
/// carries none.
pub open spec fn io_failure(raw: Option<i32>, op: &'static str) -> CoreError {
    CoreError::Syscall {
        code: match raw {
            Some(code) => code,
            None => EIO,
        },
        op,
    }
}

/// Map the OS code of a failed standard I/O operation to an error.
pub fn io_error(raw: Option<i32>, op: &'static str) -> (r: CoreError)
    ensures
        r == io_failure(raw, op),
{
    match raw {
        Some(code) => CoreError::sys(code, op),
        None => CoreError::sys(EIO, op),
    }
}

// ---------------------------------------------------------------------------
// Laws
// ---------------------------------------------------------------------------

/// An error is told with its operation and its code in decimal.
pub proof fn law_error_text(code: i32, op: &'static str)
    ensures
        error_text(CoreError::Syscall { code, op }) == op@ + " failed (code="@ + text::dec_int(
            code as int,
        ) + ")"@,
{
}

/// Which replies are failures: -1 with the code that was left, a code itself that
/// is not zero, and any failed I/O, with code 5 where it carries none.
pub proof fn law_outcomes(reply: SysReply, ret: i32, code: i32, op: &'static str)
    ensures
        ret_outcome(reply, op) is Ok <==> reply.ret != -1,
        reply.ret == -1 ==> ret_outcome(reply, op) == Err::<(), CoreError>(
            CoreError::Syscall { code: reply.errno, op },
        ),
        posix_outcome(ret, op) is Ok <==> ret == 0,
        ret != 0 ==> posix_outcome(ret, op) == Err::<(), CoreError>(
            CoreError::Syscall { code: ret, op },
        ),
        io_failure(Some(code), op) == (CoreError::Syscall { code, op }),
        io_failure(None, op) == (CoreError::Syscall { code: 5, op }),
{
}

} // verus!
