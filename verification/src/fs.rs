//! Filesystem probes and preload requests.

use vstd::prelude::*;

use crate::error;
use crate::error::{io_error, Attempt, CoreError, SysReply, EINTR, EINVAL};
use crate::text::chars_of;

verus! {

/// Length and modification time of a file.
#[derive(Debug, Clone, Copy, PartialEq, Eq, Structural)]
pub struct PathFingerprint {
    pub len: u64,
    pub modified_ns: u128,
}

/// What the metadata of a file says: its length, and its modification time in
/// nanoseconds since the epoch, unless there is none or it lies before it.
#[derive(Debug, Clone, Copy)]
pub struct FileTimes {
    pub len: u64,
    pub modified_ns: Option<u128>,
}

/// The fingerprint of a file from its metadata, or from the OS code of the
/// attempt to read them.
pub fn path_fingerprint(metadata: Result<FileTimes, Option<i32>>) -> (r: Result<
    PathFingerprint,
    CoreError,
>)
    ensures
        r == match metadata {
            Ok(m) => Ok(
                PathFingerprint {
                    len: m.len,
                    modified_ns: match m.modified_ns {
                        Some(ns) => ns,
                        None => 0,
                    },
                },
            ),
            Err(raw) => Err(error::io_failure(raw, "path_fingerprint")),
        },
{
    match metadata {
        Ok(m) => Ok(
            PathFingerprint {
                len: m.len,
                modified_ns: match m.modified_ns {
                    Some(ns) => ns,
                    None => 0,
                },
            },
        ),
        Err(raw) => Err(io_error(raw, "path_fingerprint")),
    }
}

/// Whether a text has a NUL, so that no file can be named so.
pub fn names_no_file(path: &str) -> (r: bool)
    ensures
        r == path@.contains('\0'),
{
    let chars = chars_of(path);
    let mut i: usize = 0;
    while i < chars.len()
        invariant
            i <= chars.len(),
            chars@ == path@,
            forall|j: int| 0 <= j < i ==> path@[j] != '\0',
        decreases chars.len() - i,
    {
        if chars[i] == '\0' {
            assert(path@[i as int] == '\0');
            return true;
        }
        i += 1;
    }
    false
}

/// Whether a path exists, from the reply of `access`, which is asked only about
/// a path that a file can have.
pub fn path_exists(path: &str, reply: SysReply) -> (r: bool)
    ensures
        r == (!path@.contains('\0') && reply.ret == 0),
{
    !names_no_file(path) && reply.ret == 0
}

/// Whether a path exists without following a link, from the reply of `lstat`.
pub fn path_lstat_exists(path: &str, reply: SysReply) -> (r: bool)
    ensures
        r == (!path@.contains('\0') && reply.ret == 0),
{
    !names_no_file(path) && reply.ret == 0
}

/// The content of a file, or the OS code of the attempt to read it.
pub fn read_to_string(read: Result<String, Option<i32>>) -> (r: Result<String, CoreError>)
    ensures
        r == (match read {
            Ok(content) => Ok(content),
            Err(raw) => Err(error::io_failure(raw, "read_to_string")),
        }),
{
    match read {
        Ok(content) => Ok(content),
        Err(raw) => Err(io_error(raw, "read_to_string")),
    }
}

// ---------------------------------------------------------------------------
// Preloading
// ---------------------------------------------------------------------------

/// The offset to ask `readahead` for. One that does not fit the call is refused.
pub fn readahead(offset: u64) -> (r: Result<i64, CoreError>)
    ensures
        r == (if offset > i64::MAX {
            Err(CoreError::Syscall { code: EINVAL, op: "readahead" })
        } else {
            Ok(offset as i64)
        }),
{
    if offset > i64::MAX as u64 {
        Err(CoreError::sys(EINVAL, "readahead"))
    } else {
        Ok(offset as i64)
    }
}

/// One round of `readahead`.
pub fn readahead_step(reply: SysReply) -> (r: Attempt<Result<(), CoreError>>)
    ensures
        r == (if reply.ret != -1 {
            Attempt::Done(Ok::<(), CoreError>(()))
        } else if reply.errno == EINTR {
            Attempt::Retry
        } else {
            Attempt::Done(Err(CoreError::Syscall { code: reply.errno, op: "readahead" }))
        }),
{
    if reply.ret == -1 {
        if reply.errno == EINTR {
            Attempt::Retry
        } else {
            Attempt::Done(Err(CoreError::sys(reply.errno, "readahead")))
        }
    } else {
        Attempt::Done(Ok(()))
    }
}

/// A mapping to be made.
#[derive(Debug, Clone, Copy, PartialEq, Eq, Structural)]
pub struct MapPlan {
    pub offset: i64,
    pub page_size: u64,
}

/// Check a range to be mapped. `page_size` is what `sysconf` replied. The range
/// is not rounded: an offset inside a page, or one that does not fit the call, is
/// refused, whatever the length. An empty range needs no mapping; at the start of
/// the file it needs no page size either.
pub fn mmap_madvise(offset: u64, len: usize, page_size: i64) -> (r: Result<
    Option<MapPlan>,
    CoreError,
>)
    ensures
        r == (if len == 0 && offset == 0 {
            Ok(None)
        } else if page_size <= 0 {
            Err(CoreError::Syscall { code: EINVAL, op: "sysconf(_SC_PAGESIZE)" })
        } else if offset as int % page_size as int != 0 || offset > i64::MAX {
            Err(CoreError::Syscall { code: EINVAL, op: "mmap" })
        } else if len == 0 {
            Ok(None)
        } else {
            Ok(Some(MapPlan { offset: offset as i64, page_size: page_size as u64 }))
        }),
{
    if len == 0 && offset == 0 {
        return Ok(None);
    }
    if page_size <= 0 {
        return Err(CoreError::sys(EINVAL, "sysconf(_SC_PAGESIZE)"));
    }
    let page_size = page_size as u64;
    if offset % page_size != 0 || offset > i64::MAX as u64 {
        return Err(CoreError::sys(EINVAL, "mmap"));
    }
    if len == 0 {
        return Ok(None);
    }
    Ok(Some(MapPlan { offset: offset as i64, page_size }))
}

/// The outcome of `mmap`: `failed` holds the code with which it failed.
pub fn mapped(failed: Option<i32>) -> (r: Result<(), CoreError>)
    ensures
        r == (match failed {
            Some(code) => Err(CoreError::Syscall { code, op: "mmap" }),
            None => Ok(()),
        }),
{
    match failed {
        Some(code) => Err(CoreError::sys(code, "mmap")),
        None => Ok(()),
    }
}

/// The next byte to read of a mapping of `len` bytes to touch each of its pages,
/// after that at `pos`.
pub fn next_touch(pos: usize, len: usize, page_size: usize) -> (r: Option<usize>)
    ensures
        touch_after(pos as nat, len as nat, page_size as nat) == match r {
            Some(next) => Some(next as nat),
            None => None,
        },
{
    match pos.checked_add(page_size) {
        Some(next) => if next < len {
            Some(next)
        } else {
            None
        },
        None => None,
    }
}

/// The outcome of a mapping, from the replies of `madvise` and `munmap`. A
/// mapping that cannot be undone is the graver failure.
pub fn unmapped(advice: SysReply, unmap: SysReply) -> (r: Result<(), CoreError>)
    ensures
        r == (if unmap.ret == -1 {
            Err(CoreError::Syscall { code: unmap.errno, op: "munmap" })
        } else if advice.ret == -1 {
            Err(CoreError::Syscall { code: advice.errno, op: "madvise" })
        } else {
            Ok(())
        }),
{
    if unmap.ret == -1 {
        return Err(CoreError::sys(unmap.errno, "munmap"));
    }
    if advice.ret == -1 {
        return Err(CoreError::sys(advice.errno, "madvise"));
    }
    Ok(())
}

/// The byte to touch after that at `pos`.
pub open spec fn touch_after(pos: nat, len: nat, page_size: nat) -> Option<nat> {
    if pos + page_size < len {
        Some(pos + page_size)
    } else {
        None
    }
}

/// The byte that is touched `n` steps after the first.
pub open spec fn touched(len: nat, page_size: nat, n: nat) -> Option<nat>
    decreases n,
{
    if n == 0 {
        Some(0)
    } else {
        match touched(len, page_size, (n - 1) as nat) {
            Some(pos) => touch_after(pos, len, page_size),
            None => None,
        }
    }
}

/// A walk through a mapping touches one byte of each of its pages, and no byte
/// outside of it.
pub proof fn law_every_page_is_touched(len: nat, page_size: nat, n: nat)
    requires
        len > 0,
    ensures
        touched(len, page_size, n) == if n * page_size < len {
            Some(n * page_size)
        } else {
            None
        },
    decreases n,
{
    if n > 0 {
        let m = (n - 1) as nat;
        law_every_page_is_touched(len, page_size, m);
        assert(n * page_size == m * page_size + page_size) by (nonlinear_arith)
            requires
                n == m + 1,
        ;
    } else {
        assert(0 * page_size == 0) by (nonlinear_arith);
    }
}

} // verus!
