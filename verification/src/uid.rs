//! Ownership and identity of files and processes.

use vstd::prelude::*;

use crate::error::{syscall_ret, CoreError, SysReply, EINVAL};
use crate::path;
use crate::path::join_path;
use crate::text;
use crate::text::{push_int, string_of};

verus! {

/// Who owns a file, which file it is, and when it changed.
#[derive(Debug, Clone, Copy, PartialEq, Eq, Structural)]
pub struct PathStat {
    pub uid: u32,
    pub inode: u64,
    pub ctime_sec: i64,
    pub ctime_nsec: i64,
    pub mtime_sec: i64,
    pub mtime_nsec: i64,
}

/// The reply of `stat` or `lstat` and what it filled in.
#[derive(Debug, Clone, Copy)]
pub struct StatReply {
    pub reply: SysReply,
    pub stat: PathStat,
}

/// The outcome of `stat` on a path, which is called only if the path has no NUL.
pub open spec fn examined(path: Seq<u8>, s: StatReply, op: &'static str) -> Result<
    PathStat,
    CoreError,
> {
    if path.contains(0) {
        Err(CoreError::Syscall { code: EINVAL, op })
    } else {
        replied(s, op)
    }
}

/// The outcome of `stat`.
pub open spec fn replied(s: StatReply, op: &'static str) -> Result<PathStat, CoreError> {
    if s.reply.ret == -1 {
        Err(CoreError::Syscall { code: s.reply.errno, op })
    } else {
        Ok(s.stat)
    }
}

/// The owner that an examination tells of.
pub open spec fn owner(r: Result<PathStat, CoreError>) -> Result<u32, CoreError> {
    match r {
        Ok(stat) => Ok(stat.uid),
        Err(e) => Err(e),
    }
}

/// Whether a path has a NUL, so that no file can be named so.
pub fn has_nul(path: &[u8]) -> (r: bool)
    ensures
        r == path@.contains(0),
{
    let mut i: usize = 0;
    while i < path.len()
        invariant
            i <= path.len(),
            forall|j: int| 0 <= j < i ==> path@[j] != 0,
        decreases path.len() - i,
    {
        if path[i] == 0 {
            assert(path@[i as int] == 0);
            return true;
        }
        i += 1;
    }
    false
}

fn stat_path(path: &[u8], s: &StatReply, op: &'static str) -> (r: Result<PathStat, CoreError>)
    ensures
        r == examined(path@, *s, op),
{
    if has_nul(path) {
        return Err(CoreError::sys(EINVAL, op));
    }
    syscall_ret(s.reply, op)?;
    Ok(s.stat)
}

/// The owner of a file.
pub fn path_uid(path: &[u8], s: &StatReply) -> (r: Result<u32, CoreError>)
    ensures
        r == owner(examined(path@, *s, "stat")),
{
    match path_stat(path, s) {
        Ok(stat) => Ok(stat.uid),
        Err(e) => Err(e),
    }
}

/// The identity of the file that a path leads to.
pub fn path_stat(path: &[u8], s: &StatReply) -> (r: Result<PathStat, CoreError>)
    ensures
        r == examined(path@, *s, "stat"),
{
    stat_path(path, s, "stat")
}

/// The identity of the file at a path, be it a link.
pub fn path_lstat(path: &[u8], s: &StatReply) -> (r: Result<PathStat, CoreError>)
    ensures
        r == examined(path@, *s, "lstat"),
{
    stat_path(path, s, "lstat")
}

/// The directory of a process, below the mount point of procfs.
pub fn proc_dir(root: &str, pid: i32) -> (r: String)
    ensures
        r@ == path::join(root@, text::dec_int(pid as int)),
{
    let mut digits: Vec<char> = Vec::new();
    push_int(&mut digits, pid);
    assert(digits@ =~= text::dec_int(pid as int));
    let name = string_of(digits.as_slice());
    join_path(root, name.as_str())
}

/// The owner of a process, from the reply on its directory below `/proc`.
pub fn proc_uid(s: &StatReply) -> (r: Result<u32, CoreError>)
    ensures
        r == owner(replied(*s, "stat")),
{
    match proc_stat(s) {
        Ok(stat) => Ok(stat.uid),
        Err(e) => Err(e),
    }
}

/// The owner of a process, from the reply on its directory below `root`.
pub fn proc_uid_at(root: &[u8], s: &StatReply) -> (r: Result<u32, CoreError>)
    ensures
        r == owner(examined(root@, *s, "stat")),
{
    match proc_stat_at(root, s) {
        Ok(stat) => Ok(stat.uid),
        Err(e) => Err(e),
    }
}

/// The identity of a process, from the reply on its directory below `/proc`.
pub fn proc_stat(s: &StatReply) -> (r: Result<PathStat, CoreError>)
    ensures
        r == replied(*s, "stat"),
{
    syscall_ret(s.reply, "stat")?;
    Ok(s.stat)
}

/// The identity of a process, from the reply on its directory below `root`.
pub fn proc_stat_at(root: &[u8], s: &StatReply) -> (r: Result<PathStat, CoreError>)
    ensures
        r == examined(root@, *s, "stat"),
{
    stat_path(root, s, "stat")
}

/// The group to hand to `chown`: the one that was asked for, or the number that
/// leaves it as it is. A path with a NUL is refused.
pub fn chown_path(path: &[u8], gid: Option<u32>) -> (r: Result<u32, CoreError>)
    ensures
        r == (if path@.contains(0) {
            Err(CoreError::Syscall { code: EINVAL, op: "chown" })
        } else {
            Ok(
                match gid {
                    Some(g) => g,
                    None => u32::MAX,
                },
            )
        }),
{
    if has_nul(path) {
        return Err(CoreError::sys(EINVAL, "chown"));
    }
    match gid {
        Some(g) => Ok(g),
        None => Ok(u32::MAX),
    }
}

// ---------------------------------------------------------------------------
// Laws
// ---------------------------------------------------------------------------

/// A path with a NUL is refused; any other is examined, and gives what was found
/// or the code that was left.
pub proof fn law_examination(path: Seq<u8>, s: StatReply, op: &'static str)
    ensures
        path.contains(0u8) ==> examined(path, s, op) == Err::<PathStat, CoreError>(
            CoreError::Syscall { code: 22, op },
        ),
        !path.contains(0u8) && s.reply.ret == -1 ==> examined(path, s, op) == Err::<
            PathStat,
            CoreError,
        >(CoreError::Syscall { code: s.reply.errno, op }),
        !path.contains(0u8) && s.reply.ret != -1 ==> examined(path, s, op) == Ok::<
            PathStat,
            CoreError,
        >(s.stat),
        s.reply.ret == -1 ==> replied(s, op) == Err::<PathStat, CoreError>(
            CoreError::Syscall { code: s.reply.errno, op },
        ),
        s.reply.ret != -1 ==> replied(s, op) == Ok::<PathStat, CoreError>(s.stat),
        owner(Ok::<PathStat, CoreError>(s.stat)) == Ok::<u32, CoreError>(s.stat.uid),
        owner(Err::<PathStat, CoreError>(CoreError::Syscall { code: s.reply.errno, op })) is Err,
{
}

} // verus!
