//! The pipes between a process and its parent.

use vstd::prelude::*;

use crate::error::{syscall_ret, CoreError, SysReply};
use crate::reactor::Fd;

verus! {

/// The outcome of `pipe2`: its reply and the two descriptors it filled in.
#[derive(Debug, Clone, Copy)]
pub struct PipeReply {
    pub reply: SysReply,
    pub read_end: i32,
    pub write_end: i32,
}

/// The ends of a new pipe.
pub open spec fn piped(p: PipeReply) -> Result<(Fd, Fd), CoreError> {
    if p.reply.ret == -1 || p.read_end < 0 || p.write_end < 0 {
        Err(CoreError::Syscall { code: p.reply.errno, op: "pipe2" })
    } else {
        Ok((Fd(p.read_end), Fd(p.write_end)))
    }
}

/// Read the outcome of `pipe2`.
pub fn make_pipe(p: &PipeReply) -> (r: Result<(Fd, Fd), CoreError>)
    ensures
        r == piped(*p),
{
    syscall_ret(p.reply, "pipe2")?;
    if p.read_end < 0 || p.write_end < 0 {
        return Err(CoreError::sys(p.reply.errno, "pipe2"));
    }
    Ok((Fd(p.read_end), Fd(p.write_end)))
}

/// The pipes of a process: for each stream that is connected, the end to read
/// from and the end to write to.
#[derive(Debug)]
pub struct Pipes {
    pub stdin: Option<(Fd, Fd)>,
    pub stdout: Option<(Fd, Fd)>,
    pub stderr: Option<(Fd, Fd)>,
}

/// The first failure among the pipes that were asked for.
pub open spec fn first_failure(p: Option<PipeReply>) -> Option<CoreError> {
    match p {
        Some(p) => match piped(p) {
            Ok(_) => None,
            Err(e) => Some(e),
        },
        None => None,
    }
}

/// The ends of a pipe that was asked for.
pub open spec fn ends(p: Option<PipeReply>) -> Option<(Fd, Fd)> {
    match p {
        Some(p) => match piped(p) {
            Ok(pair) => Some(pair),
            Err(_) => None,
        },
        None => None,
    }
}

fn optional_pipe(p: Option<PipeReply>) -> (r: Result<Option<(Fd, Fd)>, CoreError>)
    ensures
        r == (match first_failure(p) {
            Some(e) => Err(e),
            None => Ok(ends(p)),
        }),
{
    match p {
        Some(p) => match make_pipe(&p) {
            Ok(pair) => Ok(Some(pair)),
            Err(e) => Err(e),
        },
        None => Ok(None),
    }
}

impl Pipes {
    /// The pipes that were made, each of them only if it was asked for. The
    /// first one that failed decides the error.
    pub fn new(
        stdin: Option<PipeReply>,
        stdout: Option<PipeReply>,
        stderr: Option<PipeReply>,
    ) -> (r: Result<Self, CoreError>)
        ensures
            r == (match (first_failure(stdin), first_failure(stdout), first_failure(stderr)) {
                (Some(e), _, _) => Err(e),
                (None, Some(e), _) => Err(e),
                (None, None, Some(e)) => Err(e),
                (None, None, None) => Ok(
                    Pipes { stdin: ends(stdin), stdout: ends(stdout), stderr: ends(stderr) },
                ),
            }),
    {
        let stdin = match optional_pipe(stdin) {
            Ok(p) => p,
            Err(e) => return Err(e),
        };
        let stdout = match optional_pipe(stdout) {
            Ok(p) => p,
            Err(e) => return Err(e),
        };
        let stderr = match optional_pipe(stderr) {
            Ok(p) => p,
            Err(e) => return Err(e),
        };
        Ok(Self { stdin, stdout, stderr })
    }

    /// The descriptors of the pipes.
    pub fn collect_required_pipe_fds(&self) -> (r: Vec<i32>)
        ensures
            r@ == pipe_fds(*self),
    {
        let mut fds: Vec<i32> = Vec::new();
        if let Some((r, w)) = &self.stdin {
            fds.push(r.raw());
            fds.push(w.raw());
        }
        assert(fds@ =~= pair_fds(self.stdin));
        if let Some((r, w)) = &self.stdout {
            fds.push(r.raw());
            fds.push(w.raw());
        }
        assert(fds@ =~= pair_fds(self.stdin) + pair_fds(self.stdout));
        if let Some((r, w)) = &self.stderr {
            fds.push(r.raw());
            fds.push(w.raw());
        }
        assert(fds@ =~= pipe_fds(*self));
        fds
    }

    /// Part the pipes after the process was started: the ends that are the
    /// process's, to be closed, and the parent's.
    pub fn part(self) -> (r: (Vec<Fd>, ParentEnds))
        ensures
            r.0@ == child_ends(self),
            r.1 == (ParentEnds {
                stdin_w: match self.stdin {
                    Some((_, w)) => Some(w),
                    None => None,
                },
                stdout_r: match self.stdout {
                    Some((r, _)) => Some(r),
                    None => None,
                },
                stderr_r: match self.stderr {
                    Some((r, _)) => Some(r),
                    None => None,
                },
            }),
    {
        let ghost all = self;
        let mut child: Vec<Fd> = Vec::new();
        let stdin_w = match self.stdin {
            Some((r, w)) => {
                child.push(r);
                Some(w)
            },
            None => None,
        };
        let stdout_r = match self.stdout {
            Some((r, w)) => {
                child.push(w);
                Some(r)
            },
            None => None,
        };
        let stderr_r = match self.stderr {
            Some((r, w)) => {
                child.push(w);
                Some(r)
            },
            None => None,
        };
        assert(child@ =~= child_ends(all));
        (child, ParentEnds { stdin_w, stdout_r, stderr_r })
    }
}

/// The ends of the pipes that are the parent's.
#[derive(Debug)]
pub struct ParentEnds {
    pub stdin_w: Option<Fd>,
    pub stdout_r: Option<Fd>,
    pub stderr_r: Option<Fd>,
}

pub open spec fn pair_fds(pair: Option<(Fd, Fd)>) -> Seq<i32> {
    match pair {
        Some((r, w)) => seq![r.0, w.0],
        None => seq![],
    }
}

/// The descriptors of the pipes, those of standard input first.
pub open spec fn pipe_fds(p: Pipes) -> Seq<i32> {
    pair_fds(p.stdin) + pair_fds(p.stdout) + pair_fds(p.stderr)
}

/// The ends that are the process's.
pub open spec fn child_ends(p: Pipes) -> Seq<Fd> {
    let a: Seq<Fd> = match p.stdin {
        Some((r, _)) => seq![r],
        None => seq![],
    };
    let b: Seq<Fd> = match p.stdout {
        Some((_, w)) => seq![w],
        None => seq![],
    };
    let c: Seq<Fd> = match p.stderr {
        Some((_, w)) => seq![w],
        None => seq![],
    };
    a + b + c
}

// ---------------------------------------------------------------------------
// Laws
// ---------------------------------------------------------------------------

/// The process reads its input and writes its output and errors: those are its
/// ends.
pub proof fn law_ends(p: Pipes, r: Fd, w: Fd)
    ensures
        p.stdin == Some((r, w)) ==> child_ends(p).contains(r),
        p.stdout == Some((r, w)) ==> child_ends(p).contains(w),
        p.stderr == Some((r, w)) ==> child_ends(p).contains(w),
        2 * child_ends(p).len() == pipe_fds(p).len(),
        p.stdin == Some((r, w)) || p.stdout == Some((r, w)) || p.stderr == Some((r, w))
            ==> pipe_fds(p).contains(r.0) && pipe_fds(p).contains(w.0),
{
    let n = child_ends(p).len() as int;
    let fds = pipe_fds(p);
    let a = pair_fds(p.stdin).len() as int;
    let b = a + pair_fds(p.stdout).len();
    if p.stdin == Some((r, w)) {
        assert(child_ends(p)[0] == r);
        assert(fds[0] == r.0 && fds[1] == w.0);
    }
    if p.stdout == Some((r, w)) {
        assert(child_ends(p)[a / 2] == w);
        assert(fds[a] == r.0 && fds[a + 1] == w.0);
    }
    if p.stderr == Some((r, w)) {
        assert(child_ends(p)[n - 1] == w);
        assert(fds[b] == r.0 && fds[b + 1] == w.0);
    }
}

/// A pipe that was made has its two ends; one that was not has none, and the
/// reason why.
pub proof fn law_pipe(p: PipeReply)
    ensures
        p.reply.ret != -1 && p.read_end >= 0 && p.write_end >= 0 ==> ends(Some(p)) == Some(
            (Fd(p.read_end), Fd(p.write_end)),
        ) && first_failure(Some(p)) is None,
        p.reply.ret == -1 ==> ends(Some(p)) is None && first_failure(Some(p)) == Some(
            CoreError::Syscall { code: p.reply.errno, op: "pipe2" },
        ),
        ends(None) is None && first_failure(None) is None,
{
}

} // verus!
