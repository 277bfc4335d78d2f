//! The calls by which `posix_spawn` is set up.

use vstd::prelude::*;

use crate::error;
use crate::error::{posix_ret, CoreError};
use crate::reactor::Fd;
use crate::spawn::pipes;
use crate::spawn::pipes::Pipes;

verus! {

pub const POSIX_SPAWN_SETPGROUP: i32 = 2;

pub const POSIX_SPAWN_SETSIGDEF: i32 = 4;

pub const POSIX_SPAWN_SETSIGMASK: i32 = 8;

/// A call that sets up or makes a spawn.
#[derive(Debug, Clone, Copy)]
pub enum PosixOp {
    /// Begin the list of file actions.
    InitActions,
    /// Let the process make descriptor `to` a copy of `fd`.
    Dup2 { fd: i32, to: i32, name: &'static str },
    /// Let the process close a descriptor.
    Close { fd: i32, name: &'static str },
    /// Begin the attributes.
    InitAttr,
    /// Let the process join a group.
    SetPgroup(i32),
    /// Choose the attributes that count.
    SetFlags(i32),
    /// Let the process start with no signal blocked.
    SetSigmask,
    /// Let the process start with the default action for `SIGPIPE`.
    SetSigdefault,
    /// Start the process.
    Spawn,
}

/// The name of a call in errors.
pub open spec fn op_name(op: PosixOp) -> &'static str {
    match op {
        PosixOp::InitActions => "file_actions_init",
        PosixOp::Dup2 { fd, to, name } => name,
        PosixOp::Close { fd, name } => name,
        PosixOp::InitAttr => "attr_init",
        PosixOp::SetPgroup(_) => "setpgroup",
        PosixOp::SetFlags(_) => "setflags",
        PosixOp::SetSigmask => "setsigmask",
        PosixOp::SetSigdefault => "setsigdefault",
        PosixOp::Spawn => "posix_spawn",
    }
}

impl PosixOp {
    /// The outcome of the call, from its return value. Where it failed, all
    /// pipes are closed.
    pub fn outcome(&self, ret: i32) -> (r: Result<(), CoreError>)
        ensures
            r == error::posix_outcome(ret, op_name(*self)),
    {
        let name = match self {
            PosixOp::InitActions => "file_actions_init",
            PosixOp::Dup2 { name, .. } => name,
            PosixOp::Close { name, .. } => name,
            PosixOp::InitAttr => "attr_init",
            PosixOp::SetPgroup(_) => "setpgroup",
            PosixOp::SetFlags(_) => "setflags",
            PosixOp::SetSigmask => "setsigmask",
            PosixOp::SetSigdefault => "setsigdefault",
            PosixOp::Spawn => "posix_spawn",
        };
        posix_ret(ret, name)
    }
}

/// The file actions for standard input: it is the read end, and no other
/// descriptor of the pipe stays open.
pub open spec fn stdin_ops(pair: Option<(Fd, Fd)>) -> Seq<PosixOp> {
    match pair {
        Some((r, w)) => seq![
            PosixOp::Dup2 { fd: r.0, to: 0, name: "dup2 stdin" },
            PosixOp::Close { fd: r.0, name: "close stdin pipe" },
            PosixOp::Close { fd: w.0, name: "close stdin write pipe" },
        ],
        None => seq![],
    }
}

/// The file actions for standard output: it is the write end.
pub open spec fn stdout_ops(pair: Option<(Fd, Fd)>) -> Seq<PosixOp> {
    match pair {
        Some((r, w)) => seq![
            PosixOp::Dup2 { fd: w.0, to: 1, name: "dup2 stdout" },
            PosixOp::Close { fd: w.0, name: "close stdout pipe" },
            PosixOp::Close { fd: r.0, name: "close stdout read pipe" },
        ],
        None => seq![],
    }
}

/// The file actions for standard error: it is the write end.
pub open spec fn stderr_ops(pair: Option<(Fd, Fd)>) -> Seq<PosixOp> {
    match pair {
        Some((r, w)) => seq![
            PosixOp::Dup2 { fd: w.0, to: 2, name: "dup2 stderr" },
            PosixOp::Close { fd: w.0, name: "close stderr pipe" },
            PosixOp::Close { fd: r.0, name: "close stderr read pipe" },
        ],
        None => seq![],
    }
}

/// The attributes: the group if there is one, an empty signal mask, and the
/// default action for `SIGPIPE`.
pub open spec fn attr_ops(leader: Option<i32>) -> Seq<PosixOp> {
    let group: Seq<PosixOp> = match leader {
        Some(pg) => seq![PosixOp::SetPgroup(pg)],
        None => seq![],
    };
    let flags = if leader is Some {
        14i32
    } else {
        12i32
    };
    seq![PosixOp::InitAttr] + group + seq![
        PosixOp::SetFlags(flags),
        PosixOp::SetSigmask,
        PosixOp::SetSigdefault,
    ]
}

/// All calls, in their order.
pub open spec fn posix_ops(p: Pipes, leader: Option<i32>) -> Seq<PosixOp> {
    seq![PosixOp::InitActions] + stdin_ops(p.stdin) + stdout_ops(p.stdout) + stderr_ops(p.stderr)
        + attr_ops(leader) + seq![PosixOp::Spawn]
}

/// Append the file actions of one stream.
fn push_stream(
    ops: &mut Vec<PosixOp>,
    mine: i32,
    other: i32,
    to: i32,
    names: (&'static str, &'static str, &'static str),
)
    ensures
        final(ops)@ == old(ops)@ + seq![
            PosixOp::Dup2 { fd: mine, to, name: names.0 },
            PosixOp::Close { fd: mine, name: names.1 },
            PosixOp::Close { fd: other, name: names.2 },
        ],
{
    ops.push(PosixOp::Dup2 { fd: mine, to, name: names.0 });
    ops.push(PosixOp::Close { fd: mine, name: names.1 });
    ops.push(PosixOp::Close { fd: other, name: names.2 });
}

/// Append the attributes.
fn push_attrs(ops: &mut Vec<PosixOp>, leader: Option<i32>)
    ensures
        final(ops)@ == old(ops)@ + attr_ops(leader),
{
    ops.push(PosixOp::InitAttr);
    let mut flags: i32 = POSIX_SPAWN_SETSIGMASK + POSIX_SPAWN_SETSIGDEF;
    if let Some(pg) = leader {
        flags = flags + POSIX_SPAWN_SETPGROUP;
        ops.push(PosixOp::SetPgroup(pg));
    }
    ops.push(PosixOp::SetFlags(flags));
    ops.push(PosixOp::SetSigmask);
    ops.push(PosixOp::SetSigdefault);
    assert(ops@ =~= old(ops)@ + attr_ops(leader));
}

/// The calls by which a process is started with the given pipes.
pub fn spawn_posix_internal(p: &Pipes, leader: Option<i32>) -> (r: Vec<PosixOp>)
    ensures
        r@ == posix_ops(*p, leader),
{
    let mut ops: Vec<PosixOp> = Vec::new();
    ops.push(PosixOp::InitActions);
    let ghost s0 = seq![PosixOp::InitActions];
    assert(ops@ =~= s0);
    match &p.stdin {
        Some((r, w)) => push_stream(
            &mut ops,
            r.raw(),
            w.raw(),
            0,
            ("dup2 stdin", "close stdin pipe", "close stdin write pipe"),
        ),
        None => {
            assert(ops@ + stdin_ops(p.stdin) =~= ops@);
        },
    }
    let ghost s1 = s0 + stdin_ops(p.stdin);
    assert(ops@ == s1);
    match &p.stdout {
        Some((r, w)) => push_stream(
            &mut ops,
            w.raw(),
            r.raw(),
            1,
            ("dup2 stdout", "close stdout pipe", "close stdout read pipe"),
        ),
        None => {
            assert(ops@ + stdout_ops(p.stdout) =~= ops@);
        },
    }
    let ghost s2 = s1 + stdout_ops(p.stdout);
    assert(ops@ == s2);
    match &p.stderr {
        Some((r, w)) => push_stream(
            &mut ops,
            w.raw(),
            r.raw(),
            2,
            ("dup2 stderr", "close stderr pipe", "close stderr read pipe"),
        ),
        None => {
            assert(ops@ + stderr_ops(p.stderr) =~= ops@);
        },
    }
    push_attrs(&mut ops, leader);
    let ghost s4 = s2 + stderr_ops(p.stderr) + attr_ops(leader);
    assert(ops@ == s4);
    ops.push(PosixOp::Spawn);
    assert(ops@ =~= s4 + seq![PosixOp::Spawn]);
    ops
}

// ---------------------------------------------------------------------------
// Laws
// ---------------------------------------------------------------------------

/// The open files of a process, by descriptor, after one call.
pub open spec fn file_after(table: Map<i32, int>, op: PosixOp) -> Map<i32, int> {
    match op {
        PosixOp::Dup2 { fd, to, name } => table.insert(to, table[fd]),
        PosixOp::Close { fd, name } => table.remove(fd),
        _ => table,
    }
}

/// The open files of a process after the calls.
pub open spec fn files_after(table: Map<i32, int>, ops: Seq<PosixOp>) -> Map<i32, int>
    decreases ops.len(),
{
    if ops.len() == 0 {
        table
    } else {
        file_after(files_after(table, ops.drop_last()), ops.last())
    }
}

proof fn lemma_files_after_concat(table: Map<i32, int>, a: Seq<PosixOp>, b: Seq<PosixOp>)
    ensures
        files_after(table, a + b) == files_after(files_after(table, a), b),
    decreases b.len(),
{
    if b.len() == 0 {
        assert(a + b =~= a);
    } else {
        lemma_files_after_concat(table, a, b.drop_last());
        assert((a + b).drop_last() =~= a + b.drop_last());
        assert((a + b).last() == b.last());
    }
}

/// One stream: its descriptor is a copy of the process's end, and both ends are
/// closed.
proof fn lemma_stream(
    table: Map<i32, int>,
    mine: i32,
    other: i32,
    to: i32,
    a: &'static str,
    b: &'static str,
    c: &'static str,
)
    requires
        mine != to,
        other != to,
    ensures
        files_after(
            table,
            seq![
                PosixOp::Dup2 { fd: mine, to, name: a },
                PosixOp::Close { fd: mine, name: b },
                PosixOp::Close { fd: other, name: c },
            ],
        ) == table.insert(to, table[mine]).remove(mine).remove(other),
{
    let ops = seq![
        PosixOp::Dup2 { fd: mine, to, name: a },
        PosixOp::Close { fd: mine, name: b },
        PosixOp::Close { fd: other, name: c },
    ];
    assert(ops.drop_last() =~= seq![ops[0], ops[1]]);
    assert(ops.drop_last().drop_last() =~= seq![ops[0]]);
    assert(ops.drop_last().drop_last().drop_last() =~= Seq::<PosixOp>::empty());
    reveal_with_fuel(files_after, 4);
}

proof fn lemma_no_file_ops(table: Map<i32, int>, ops: Seq<PosixOp>)
    requires
        forall|i: int|
            0 <= i < ops.len() ==> !((#[trigger] ops[i]) is Dup2) && !(ops[i] is Close),
    ensures
        files_after(table, ops) == table,
    decreases ops.len(),
{
    if ops.len() > 0 {
        assert forall|i: int| 0 <= i < ops.drop_last().len() implies !((
        #[trigger] ops.drop_last()[i]) is Dup2) && !(ops.drop_last()[i] is Close) by {
            assert(ops.drop_last()[i] == ops[i]);
        }
        lemma_no_file_ops(table, ops.drop_last());
        assert(!(ops[ops.len() - 1] is Dup2));
    }
}

/// A process that is started with pipes sees its ends of them as its standard
/// streams, no other descriptor of a pipe, and everything else as it was.
pub proof fn law_process_sees_its_ends(table: Map<i32, int>, p: Pipes, leader: Option<i32>)
    requires
        pipes::pipe_fds(p).no_duplicates(),
        forall|i: int| 0 <= i < pipes::pipe_fds(p).len() ==> #[trigger] pipes::pipe_fds(p)[i] > 2,
    ensures
        ({
            let after = files_after(table, posix_ops(p, leader));
            &&& match p.stdin {
                Some((r, _)) => after.contains_pair(0, table[r.0]),
                None => after.contains_key(0) == table.contains_key(0) && after[0] == table[0],
            }
            &&& match p.stdout {
                Some((_, w)) => after.contains_pair(1, table[w.0]),
                None => after.contains_key(1) == table.contains_key(1) && after[1] == table[1],
            }
            &&& match p.stderr {
                Some((_, w)) => after.contains_pair(2, table[w.0]),
                None => after.contains_key(2) == table.contains_key(2) && after[2] == table[2],
            }
            &&& forall|i: int|
                0 <= i < pipes::pipe_fds(p).len() ==> !after.contains_key(
                    #[trigger] pipes::pipe_fds(p)[i],
                )
            &&& forall|fd: i32|
                fd > 2 && !pipes::pipe_fds(p).contains(fd) ==> (#[trigger] after.contains_key(fd)
                    == table.contains_key(fd)) && (table.contains_key(fd) ==> after[fd]
                    == table[fd])
        }),
{
    let fds = pipes::pipe_fds(p);
    let a = pipes::pair_fds(p.stdin);
    let b = pipes::pair_fds(p.stdout);
    let c = pipes::pair_fds(p.stderr);
    assert(fds == a + b + c);
    assert forall|i: int| 0 <= i < a.len() implies fds[i] == a[i] by {}
    assert forall|i: int| 0 <= i < b.len() implies fds[a.len() + i] == b[i] by {}
    assert forall|i: int| 0 <= i < c.len() implies fds[a.len() + b.len() + i] == c[i] by {}
    let na: int = a.len() as int;
    let nb: int = na + b.len();
    let s0 = seq![PosixOp::InitActions];
    let s1 = stdin_ops(p.stdin);
    let s2 = stdout_ops(p.stdout);
    let s3 = stderr_ops(p.stderr);
    let s4 = attr_ops(leader);
    let s5 = seq![PosixOp::Spawn];
    lemma_files_after_concat(table, s0 + s1 + s2 + s3 + s4, s5);
    lemma_files_after_concat(table, s0 + s1 + s2 + s3, s4);
    lemma_files_after_concat(table, s0 + s1 + s2, s3);
    lemma_files_after_concat(table, s0 + s1, s2);
    lemma_files_after_concat(table, s0, s1);
    lemma_no_file_ops(table, s0);
    let t1 = files_after(table, s1);
    let t2 = files_after(t1, s2);
    let t3 = files_after(t2, s3);
    lemma_no_file_ops(t3, s4);
    lemma_no_file_ops(t3, s5);
    if let Some((r, w)) = p.stdin {
        assert(a[0] == r.0 && a[1] == w.0);
        assert(fds[0] > 2 && fds[1] > 2);
        lemma_stream(
            table,
            r.0,
            w.0,
            0,
            "dup2 stdin",
            "close stdin pipe",
            "close stdin write pipe",
        );
    }
    if let Some((r, w)) = p.stdout {
        assert(b[0] == r.0 && b[1] == w.0);
        assert(fds[na] > 2 && fds[na + 1] > 2);
        lemma_stream(
            t1,
            w.0,
            r.0,
            1,
            "dup2 stdout",
            "close stdout pipe",
            "close stdout read pipe",
        );
    }
    if let Some((r, w)) = p.stderr {
        assert(c[0] == r.0 && c[1] == w.0);
        assert(fds[nb] > 2 && fds[nb + 1] > 2);
        lemma_stream(
            t2,
            w.0,
            r.0,
            2,
            "dup2 stderr",
            "close stderr pipe",
            "close stderr read pipe",
        );
    }
    let after = files_after(table, posix_ops(p, leader));
    assert(after == t3);
    assert forall|fd: i32| fd > 2 && !fds.contains(fd) implies (#[trigger] after.contains_key(fd)
        == table.contains_key(fd)) && (table.contains_key(fd) ==> after[fd] == table[fd]) by {
        if p.stdin is Some {
            assert(fds.contains(fds[0]) && fds.contains(fds[1]));
        }
        if p.stdout is Some {
            assert(fds.contains(fds[na]) && fds.contains(fds[na + 1]));
        }
        if p.stderr is Some {
            assert(fds.contains(fds[nb]) && fds.contains(fds[nb + 1]));
        }
    }
    assert forall|i: int| 0 <= i < fds.len() implies !after.contains_key(#[trigger] fds[i]) by {
        if i < a.len() {
        } else if i < a.len() + b.len() {
            assert(fds[i] == b[i - a.len()]);
        } else {
            assert(fds[i] == c[i - a.len() - b.len()]);
        }
    }
}

/// The calls begin with the file actions and end with the spawn. The attributes
/// have the process start with an empty signal mask and the default action for a
/// broken pipe, and in the group that was asked for, if any.
pub proof fn law_attributes(p: Pipes, leader: Option<i32>, pg: i32)
    ensures
        posix_ops(p, leader).first() is InitActions,
        posix_ops(p, leader).last() is Spawn,
        ({
            let all = posix_ops(p, leader);
            let n = all.len() as int;
            &&& n >= 6
            &&& all[n - 2] is SetSigdefault
            &&& all[n - 3] is SetSigmask
            &&& leader is None ==> all[n - 4] == PosixOp::SetFlags(12) && all[n - 5] is InitAttr
            &&& leader == Some(pg) ==> all[n - 4] == PosixOp::SetFlags(14) && all[n - 5]
                == PosixOp::SetPgroup(pg) && all[n - 6] is InitAttr
        }),
{
}

/// Each call has its own name in errors.
pub proof fn law_call_names(fd: i32, name: &'static str)
    ensures
        op_name(PosixOp::InitActions) == "file_actions_init",
        op_name(PosixOp::Dup2 { fd, to: fd, name }) == name,
        op_name(PosixOp::Close { fd, name }) == name,
        op_name(PosixOp::InitAttr) == "attr_init",
        op_name(PosixOp::SetPgroup(fd)) == "setpgroup",
        op_name(PosixOp::SetFlags(fd)) == "setflags",
        op_name(PosixOp::SetSigmask) == "setsigmask",
        op_name(PosixOp::SetSigdefault) == "setsigdefault",
        op_name(PosixOp::Spawn) == "posix_spawn",
{
}

} // verus!
