//! What a forked child does before it executes its program, and how it reports
//! a failure to its parent.

use vstd::prelude::*;

use crate::byte_order;
use crate::byte_order::{push_word, read_word, ByteOrder};
use crate::error::{CoreError, SysReply, EINTR};
use crate::spawn::options::SpawnFdPolicy;
use crate::spawn::pipes;
use crate::spawn::pipes::Pipes;
use crate::text;
use crate::text::{chars_of, from_utf8, parse_i32};

verus! {

// ---------------------------------------------------------------------------
// Setup errors
// ---------------------------------------------------------------------------

/// A step of the setup that can fail.
#[derive(Debug, Clone, Copy, PartialEq, Eq, Structural)]
pub enum ChildSetupOp {
    DupStdin,
    DupStdout,
    DupStderr,
    Setsid,
    Chdir,
    Setpgid,
    SignalMask,
    Execve,
}

/// The name of a step in errors.
pub open spec fn setup_name(op: ChildSetupOp) -> &'static str {
    match op {
        ChildSetupOp::DupStdin => "fork child dup2 stdin",
        ChildSetupOp::DupStdout => "fork child dup2 stdout",
        ChildSetupOp::DupStderr => "fork child dup2 stderr",
        ChildSetupOp::Setsid => "fork child setsid",
        ChildSetupOp::Chdir => "fork child chdir",
        ChildSetupOp::Setpgid => "fork child setpgid",
        ChildSetupOp::SignalMask => "fork child signal setup",
        ChildSetupOp::Execve => "fork child execve",
    }
}

/// The number that stands for a step in a report.
pub open spec fn setup_number(op: ChildSetupOp) -> u8 {
    match op {
        ChildSetupOp::DupStdin => 1,
        ChildSetupOp::DupStdout => 2,
        ChildSetupOp::DupStderr => 3,
        ChildSetupOp::Setsid => 4,
        ChildSetupOp::Chdir => 5,
        ChildSetupOp::Setpgid => 6,
        ChildSetupOp::SignalMask => 7,
        ChildSetupOp::Execve => 8,
    }
}

/// The step that a number stands for. What stands for none counts as the last.
pub open spec fn setup_numbered(n: u8) -> ChildSetupOp {
    if n == 1 {
        ChildSetupOp::DupStdin
    } else if n == 2 {
        ChildSetupOp::DupStdout
    } else if n == 3 {
        ChildSetupOp::DupStderr
    } else if n == 4 {
        ChildSetupOp::Setsid
    } else if n == 5 {
        ChildSetupOp::Chdir
    } else if n == 6 {
        ChildSetupOp::Setpgid
    } else if n == 7 {
        ChildSetupOp::SignalMask
    } else {
        ChildSetupOp::Execve
    }
}

impl ChildSetupOp {
    pub fn as_str(self) -> (r: &'static str)
        ensures
            r == setup_name(self),
    {
        match self {
            ChildSetupOp::DupStdin => "fork child dup2 stdin",
            ChildSetupOp::DupStdout => "fork child dup2 stdout",
            ChildSetupOp::DupStderr => "fork child dup2 stderr",
            ChildSetupOp::Setsid => "fork child setsid",
            ChildSetupOp::Chdir => "fork child chdir",
            ChildSetupOp::Setpgid => "fork child setpgid",
            ChildSetupOp::SignalMask => "fork child signal setup",
            ChildSetupOp::Execve => "fork child execve",
        }
    }

    pub fn to_u8(self) -> (r: u8)
        ensures
            r == setup_number(self),
    {
        match self {
            ChildSetupOp::DupStdin => 1,
            ChildSetupOp::DupStdout => 2,
            ChildSetupOp::DupStderr => 3,
            ChildSetupOp::Setsid => 4,
            ChildSetupOp::Chdir => 5,
            ChildSetupOp::Setpgid => 6,
            ChildSetupOp::SignalMask => 7,
            ChildSetupOp::Execve => 8,
        }
    }

    pub fn from_u8(value: u8) -> (r: Self)
        ensures
            r == setup_numbered(value),
    {
        match value {
            1 => ChildSetupOp::DupStdin,
            2 => ChildSetupOp::DupStdout,
            3 => ChildSetupOp::DupStderr,
            4 => ChildSetupOp::Setsid,
            5 => ChildSetupOp::Chdir,
            6 => ChildSetupOp::Setpgid,
            7 => ChildSetupOp::SignalMask,
            _ => ChildSetupOp::Execve,
        }
    }
}

/// The length of a report.
pub const REPORT_LEN: usize = 5;

/// The report of a step that failed with `code`: the code, its bytes in the
/// given order, then the number of the step.
pub open spec fn report(order: ByteOrder, op: ChildSetupOp, code: i32) -> Seq<u8> {
    byte_order::word_bytes(order, code as u32).push(setup_number(op))
}

/// The error that a report tells of.
pub open spec fn reported(order: ByteOrder, msg: Seq<u8>) -> CoreError {
    CoreError::Syscall {
        code: byte_order::word(order, msg, 0) as i32,
        op: setup_name(setup_numbered(msg[4])),
    }
}

/// The report of a step that failed, in the order of the machine.
pub fn report_child_setup_error(op: ChildSetupOp, code: i32, order: ByteOrder) -> (r: Vec<u8>)
    ensures
        r@ == report(order, op, code),
{
    let mut msg: Vec<u8> = Vec::new();
    push_word(&mut msg, order, #[verifier::truncate] (code as u32));
    msg.push(op.to_u8());
    assert(msg@ =~= report(order, op, code));
    msg
}

/// How the parent goes on after one read of the report.
#[derive(Debug, Clone, Copy)]
pub enum ReportStep {
    /// Read again.
    More,
    /// The program is running.
    Running,
    /// The setup failed.
    Child(CoreError),
    /// The report cannot be read.
    Failed(CoreError),
}

/// What the parent has read of the report.
#[derive(Debug)]
pub struct ReportReader {
    pub got: Vec<u8>,
    /// The order of the bytes of the code.
    pub order: ByteOrder,
}

impl ReportReader {
    pub fn new(order: ByteOrder) -> (r: Self)
        ensures
            r.got@ == Seq::<u8>::empty(),
            r.order == order,
    {
        ReportReader { got: Vec::new(), order }
    }

    /// Go on after a read of at most the bytes that are missing, from its reply
    /// and the bytes it gave. The pipe ends without a report when the program
    /// is executed.
    pub fn read_child_setup_error(&mut self, reply: SysReply, bytes: &[u8]) -> (r: ReportStep)
        requires
            old(self).got@.len() < REPORT_LEN,
            reply.ret > 0 ==> bytes@.len() == reply.ret,
            reply.ret > 0 ==> old(self).got@.len() + bytes@.len() <= REPORT_LEN,
        ensures
            final(self).order == old(self).order,
            final(self).got@ == (if reply.ret > 0 {
                old(self).got@ + bytes@
            } else {
                old(self).got@
            }),
            r == (if reply.ret == 0 {
                ReportStep::Running
            } else if reply.ret < 0 && reply.errno == EINTR {
                ReportStep::More
            } else if reply.ret < 0 {
                ReportStep::Failed(
                    CoreError::Syscall { code: reply.errno, op: "read fork child setup error" },
                )
            } else if final(self).got@.len() < REPORT_LEN {
                ReportStep::More
            } else {
                ReportStep::Child(reported(old(self).order, final(self).got@))
            }),
    {
        if reply.ret == 0 {
            return ReportStep::Running;
        }
        if reply.ret < 0 {
            if reply.errno == EINTR {
                return ReportStep::More;
            }
            return ReportStep::Failed(CoreError::sys(reply.errno, "read fork child setup error"));
        }
        let mut i: usize = 0;
        while i < bytes.len()
            invariant
                i <= bytes.len(),
                self.order == old(self).order,
                self.got@ == old(self).got@ + bytes@.take(i as int),
            decreases bytes.len() - i,
        {
            self.got.push(bytes[i]);
            assert(self.got@ =~= old(self).got@ + bytes@.take(i + 1));
            i += 1;
        }
        assert(bytes@.take(bytes@.len() as int) =~= bytes@);
        if self.got.len() < REPORT_LEN {
            return ReportStep::More;
        }
        let word = read_word(self.order, self.got.as_slice(), 0);
        let code: i32 = #[verifier::truncate] (word as i32);
        ReportStep::Child(CoreError::sys(code, ChildSetupOp::from_u8(self.got[4]).as_str()))
    }
}

/// A report is read as what it tells of.
pub proof fn law_report_is_read_back(order: ByteOrder, op: ChildSetupOp, code: i32)
    ensures
        report(order, op, code).len() == REPORT_LEN,
        reported(order, report(order, op, code)) == (CoreError::Syscall {
            code,
            op: setup_name(op),
        }),
{
    let msg = report(order, op, code);
    assert(msg.subrange(0, 4) =~= byte_order::word_bytes(order, code as u32));
    byte_order::law_word_is_read_back(order, code as u32, msg, 0);
    assert((code as u32) as i32 == code) by (bit_vector);
}

// ---------------------------------------------------------------------------
// Descriptors to close
// ---------------------------------------------------------------------------

/// The descriptors that the names in `/proc/self/fd` stand for, but for that of
/// the directory itself.
pub open spec fn named_fds(names: Seq<Seq<u8>>, dir_fd: i32) -> Seq<i32>
    decreases names.len(),
{
    if names.len() == 0 {
        seq![]
    } else {
        let head = named_fds(names.drop_last(), dir_fd);
        let name = names.last();
        if vstd::utf8::valid_utf8(name) {
            match text::integer_i32(vstd::utf8::decode_utf8(name)) {
                Some(fd) => if fd != dir_fd {
                    head.push(fd)
                } else {
                    head
                },
                None => head,
            }
        } else {
            head
        }
    }
}

/// The bytes of the names.
pub open spec fn name_bytes(names: Seq<Vec<u8>>) -> Seq<Seq<u8>> {
    names.map_values(|n: Vec<u8>| n@)
}

/// The descriptors that are open, where the policy asks for them: from the names
/// in `/proc/self/fd`, which was opened as `dir_fd`.
pub fn collect_open_fds_for_child_policy(
    policy: &SpawnFdPolicy,
    names: &[Vec<u8>],
    dir_fd: i32,
) -> (r: Vec<i32>)
    ensures
        r@ == (if policy is CloexecOnly {
            Seq::<i32>::empty()
        } else {
            named_fds(name_bytes(names@), dir_fd)
        }),
{
    let mut out: Vec<i32> = Vec::new();
    if let SpawnFdPolicy::CloexecOnly = policy {
        return out;
    }
    let ghost ns = name_bytes(names@);
    let mut i: usize = 0;
    while i < names.len()
        invariant
            i <= names.len(),
            ns == name_bytes(names@),
            out@ == named_fds(ns.take(i as int), dir_fd),
        decreases names.len() - i,
    {
        proof {
            assert(ns.take(i + 1).drop_last() =~= ns.take(i as int));
            assert(ns.take(i + 1).last() == names@[i as int]@);
        }
        if let Some(name) = from_utf8(names[i].as_slice()) {
            let chars = chars_of(name);
            if let Some(fd) = parse_i32(chars.as_slice()) {
                if fd != dir_fd {
                    out.push(fd);
                }
            }
        }
        i += 1;
    }
    assert(ns.take(ns.len() as int) =~= ns);
    out
}

/// Whether the policy has a child close the descriptor.
pub open spec fn is_closed(policy: SpawnFdPolicy, required: Seq<i32>, fd: i32) -> bool {
    match policy {
        SpawnFdPolicy::CloexecOnly => false,
        SpawnFdPolicy::CloseFrom3 => fd > 2 && !required.contains(fd),
        SpawnFdPolicy::Allowlist(list) => fd > 2 && !required.contains(fd) && !list@.contains(fd),
    }
}

/// Those of the open descriptors that a child closes.
pub open spec fn closed_fds(policy: SpawnFdPolicy, required: Seq<i32>, open: Seq<i32>) -> Seq<i32> {
    open.filter(|fd: i32| is_closed(policy, required, fd))
}

fn holds(v: &[i32], fd: i32) -> (r: bool)
    ensures
        r == v@.contains(fd),
{
    let mut i: usize = 0;
    while i < v.len()
        invariant
            i <= v.len(),
            forall|j: int| 0 <= j < i ==> v@[j] != fd,
        decreases v.len() - i,
    {
        if v[i] == fd {
            assert(v@[i as int] == fd);
            return true;
        }
        i += 1;
    }
    false
}

/// The open descriptors that a child closes. `required` are the descriptors that
/// the setup itself needs.
pub fn close_child_fds_for_policy(policy: &SpawnFdPolicy, required: &[i32], open: &[i32]) -> (r: Vec<
    i32,
>)
    ensures
        r@ == closed_fds(*policy, required@, open@),
{
    let ghost wanted = |fd: i32| is_closed(*policy, required@, fd);
    let mut out: Vec<i32> = Vec::new();
    let mut i: usize = 0;
    proof {
        reveal(Seq::filter);
    }
    assert(open@.take(0).filter(wanted) =~= Seq::<i32>::empty());
    while i < open.len()
        invariant
            i <= open.len(),
            wanted == (|fd: i32| is_closed(*policy, required@, fd)),
            out@ == open@.take(i as int).filter(wanted),
        decreases open.len() - i,
    {
        let fd = open[i];
        proof {
            reveal(Seq::filter);
            assert(open@.take(i + 1).drop_last() =~= open@.take(i as int));
            assert(open@.take(i + 1).last() == fd);
        }
        let close = match policy {
            SpawnFdPolicy::CloexecOnly => false,
            SpawnFdPolicy::CloseFrom3 => fd > 2 && !holds(required, fd),
            SpawnFdPolicy::Allowlist(list) => fd > 2 && !holds(required, fd) && !holds(
                list.as_slice(),
                fd,
            ),
        };
        if close {
            out.push(fd);
        }
        i += 1;
    }
    assert(open@.take(open@.len() as int) =~= open@);
    out
}

// ---------------------------------------------------------------------------
// The setup
// ---------------------------------------------------------------------------

/// A step of a child between `fork` and its program.
#[derive(Debug, Clone, Copy)]
pub enum ChildStep {
    /// Close a descriptor.
    Close(i32),
    /// Make descriptor 0 a copy of this one.
    DupStdin(i32),
    /// Make descriptor 1 a copy of this one.
    DupStdout(i32),
    /// Make descriptor 2 a copy of this one.
    DupStderr(i32),
    /// Start a session.
    Setsid,
    /// Go to the working directory.
    Chdir,
    /// Join a process group.
    Setpgid(i32),
    /// Unblock all signals.
    UnblockSignals,
    /// Restore the default action for `SIGPIPE`.
    ResetSigpipe,
    /// Execute the program.
    Exec,
}

/// What is reported where a step fails; a close cannot.
pub open spec fn failure_of(step: ChildStep) -> Option<ChildSetupOp> {
    match step {
        ChildStep::Close(_) => None,
        ChildStep::DupStdin(_) => Some(ChildSetupOp::DupStdin),
        ChildStep::DupStdout(_) => Some(ChildSetupOp::DupStdout),
        ChildStep::DupStderr(_) => Some(ChildSetupOp::DupStderr),
        ChildStep::Setsid => Some(ChildSetupOp::Setsid),
        ChildStep::Chdir => Some(ChildSetupOp::Chdir),
        ChildStep::Setpgid(_) => Some(ChildSetupOp::Setpgid),
        ChildStep::UnblockSignals => Some(ChildSetupOp::SignalMask),
        ChildStep::ResetSigpipe => Some(ChildSetupOp::SignalMask),
        ChildStep::Exec => Some(ChildSetupOp::Execve),
    }
}

impl ChildStep {
    /// What is reported where the step fails.
    pub fn failure(&self) -> (r: Option<ChildSetupOp>)
        ensures
            r == failure_of(*self),
    {
        match self {
            ChildStep::Close(_) => None,
            ChildStep::DupStdin(_) => Some(ChildSetupOp::DupStdin),
            ChildStep::DupStdout(_) => Some(ChildSetupOp::DupStdout),
            ChildStep::DupStderr(_) => Some(ChildSetupOp::DupStderr),
            ChildStep::Setsid => Some(ChildSetupOp::Setsid),
            ChildStep::Chdir => Some(ChildSetupOp::Chdir),
            ChildStep::Setpgid(_) => Some(ChildSetupOp::Setpgid),
            ChildStep::UnblockSignals => Some(ChildSetupOp::SignalMask),
            ChildStep::ResetSigpipe => Some(ChildSetupOp::SignalMask),
            ChildStep::Exec => Some(ChildSetupOp::Execve),
        }
    }
}

/// The copies of the child's ends of the pipes.
pub open spec fn dup_steps(p: Pipes) -> Seq<ChildStep> {
    let a: Seq<ChildStep> = match p.stdin {
        Some((r, _)) => seq![ChildStep::DupStdin(r.0)],
        None => seq![],
    };
    let b: Seq<ChildStep> = match p.stdout {
        Some((_, w)) => seq![ChildStep::DupStdout(w.0)],
        None => seq![],
    };
    let c: Seq<ChildStep> = match p.stderr {
        Some((_, w)) => seq![ChildStep::DupStderr(w.0)],
        None => seq![],
    };
    a + b + c
}

pub open spec fn close_steps(fds: Seq<i32>) -> Seq<ChildStep> {
    fds.map_values(|fd: i32| ChildStep::Close(fd))
}

/// The steps after the descriptors: session, directory, group, signals, program.
pub open spec fn exec_steps(isolated: bool, has_cwd: bool, leader: Option<i32>) -> Seq<ChildStep> {
    let a: Seq<ChildStep> = if isolated {
        seq![ChildStep::Setsid]
    } else {
        seq![]
    };
    let b: Seq<ChildStep> = if has_cwd {
        seq![ChildStep::Chdir]
    } else {
        seq![]
    };
    let c: Seq<ChildStep> = match leader {
        Some(pg) => seq![ChildStep::Setpgid(pg)],
        None => seq![],
    };
    a + b + c + seq![ChildStep::UnblockSignals, ChildStep::ResetSigpipe, ChildStep::Exec]
}

/// What a child is to do.
#[derive(Debug)]
pub struct ForkRequest {
    pub pipes: Pipes,
    /// The ends of the pipe for the report.
    pub report_r: i32,
    pub report_w: i32,
    pub policy: SpawnFdPolicy,
    /// The descriptors that are open, where the policy asks for them.
    pub open_fds: Vec<i32>,
    pub isolated: bool,
    pub has_cwd: bool,
    pub leader: Option<i32>,
}

/// The descriptors that the setup needs.
pub open spec fn required_fds(q: ForkRequest) -> Seq<i32> {
    pipes::pipe_fds(q.pipes).push(q.report_w)
}

/// All steps of a child, in their order.
pub open spec fn child_steps(q: ForkRequest) -> Seq<ChildStep> {
    seq![ChildStep::Close(q.report_r)] + dup_steps(q.pipes) + close_steps(
        pipes::pipe_fds(q.pipes),
    ) + close_steps(closed_fds(q.policy, required_fds(q), q.open_fds@)) + exec_steps(
        q.isolated,
        q.has_cwd,
        q.leader,
    )
}

fn push_closes(steps: &mut Vec<ChildStep>, fds: &Vec<i32>)
    ensures
        final(steps)@ == old(steps)@ + close_steps(fds@),
{
    let ghost tail = close_steps(fds@);
    let mut i: usize = 0;
    assert(old(steps)@ + tail.take(0) =~= old(steps)@);
    while i < fds.len()
        invariant
            i <= fds.len(),
            tail == close_steps(fds@),
            steps@ == old(steps)@ + tail.take(i as int),
        decreases fds.len() - i,
    {
        steps.push(ChildStep::Close(fds[i]));
        assert(steps@ =~= old(steps)@ + tail.take(i + 1));
        i += 1;
    }
    assert(tail.take(tail.len() as int) =~= tail);
}

fn push_dups(steps: &mut Vec<ChildStep>, p: &Pipes)
    ensures
        final(steps)@ == old(steps)@ + dup_steps(*p),
{
    if let Some((r, _)) = &p.stdin {
        steps.push(ChildStep::DupStdin(r.raw()));
    }
    if let Some((_, w)) = &p.stdout {
        steps.push(ChildStep::DupStdout(w.raw()));
    }
    if let Some((_, w)) = &p.stderr {
        steps.push(ChildStep::DupStderr(w.raw()));
    }
    assert(steps@ =~= old(steps)@ + dup_steps(*p));
}

fn push_exec(steps: &mut Vec<ChildStep>, isolated: bool, has_cwd: bool, leader: Option<i32>)
    ensures
        final(steps)@ == old(steps)@ + exec_steps(isolated, has_cwd, leader),
{
    if isolated {
        steps.push(ChildStep::Setsid);
    }
    if has_cwd {
        steps.push(ChildStep::Chdir);
    }
    if let Some(pg) = leader {
        steps.push(ChildStep::Setpgid(pg));
    }
    steps.push(ChildStep::UnblockSignals);
    steps.push(ChildStep::ResetSigpipe);
    steps.push(ChildStep::Exec);
    assert(steps@ =~= old(steps)@ + exec_steps(isolated, has_cwd, leader));
}

/// The steps of a child between `fork` and its program.
pub fn spawn_fork_internal(q: &ForkRequest) -> (r: Vec<ChildStep>)
    ensures
        r@ == child_steps(*q),
{
    let pipe_fds = q.pipes.collect_required_pipe_fds();
    let mut required = q.pipes.collect_required_pipe_fds();
    required.push(q.report_w);
    let closing = close_child_fds_for_policy(&q.policy, required.as_slice(), q.open_fds.as_slice());
    let mut steps: Vec<ChildStep> = Vec::new();
    steps.push(ChildStep::Close(q.report_r));
    assert(steps@ =~= seq![ChildStep::Close(q.report_r)]);
    push_dups(&mut steps, &q.pipes);
    push_closes(&mut steps, &pipe_fds);
    push_closes(&mut steps, &closing);
    push_exec(&mut steps, q.isolated, q.has_cwd, q.leader);
    steps
}

// ---------------------------------------------------------------------------
// Laws
// ---------------------------------------------------------------------------

/// Of the open descriptors, a child closes those from 3 on that neither the
/// setup needs nor the policy allows, and no other.
pub proof fn law_policy_closes(policy: SpawnFdPolicy, required: Seq<i32>, open: Seq<i32>, fd: i32)
    ensures
        closed_fds(policy, required, open).contains(fd) <==> open.contains(fd) && is_closed(
            policy,
            required,
            fd,
        ),
    decreases open.len(),
{
    reveal(Seq::filter);
    let out = closed_fds(policy, required, open);
    if open.len() > 0 {
        let front = open.drop_last();
        let head = closed_fds(policy, required, front);
        law_policy_closes(policy, required, front, fd);
        assert(open[open.len() - 1] == open.last());
        if is_closed(policy, required, open.last()) {
            assert(out == head.push(open.last()));
            assert(out[out.len() - 1] == open.last());
        }
        if head.contains(fd) {
            let j = choose|j: int| 0 <= j < head.len() && head[j] == fd;
            assert(out[j] == fd);
        }
        if front.contains(fd) {
            let j = choose|j: int| 0 <= j < front.len() && front[j] == fd;
            assert(open[j] == fd);
        }
        if open.contains(fd) && fd != open.last() {
            let j = choose|j: int| 0 <= j < open.len() && open[j] == fd;
            assert(front[j] == fd);
        }
        if out.contains(fd) && fd != open.last() {
            let j = choose|j: int| 0 <= j < out.len() && out[j] == fd;
            assert(head[j] == fd);
        }
    }
}

/// The open files of a child, by descriptor, after one step.
pub open spec fn file_after(table: Map<i32, int>, step: ChildStep) -> Map<i32, int> {
    match step {
        ChildStep::Close(fd) => table.remove(fd),
        ChildStep::DupStdin(fd) => table.insert(0, table[fd]),
        ChildStep::DupStdout(fd) => table.insert(1, table[fd]),
        ChildStep::DupStderr(fd) => table.insert(2, table[fd]),
        _ => table,
    }
}

/// The open files of a child after the steps.
pub open spec fn files_after(table: Map<i32, int>, steps: Seq<ChildStep>) -> Map<i32, int>
    decreases steps.len(),
{
    if steps.len() == 0 {
        table
    } else {
        file_after(files_after(table, steps.drop_last()), steps.last())
    }
}

proof fn lemma_files_after_concat(table: Map<i32, int>, a: Seq<ChildStep>, b: Seq<ChildStep>)
    ensures
        files_after(table, a + b) == files_after(files_after(table, a), b),
    decreases b.len(),
{
    if b.len() == 0 {
        assert(a + b =~= a);
    } else {
        lemma_files_after_concat(table, a, b.drop_last());
        assert((a + b).drop_last() =~= a + b.drop_last());
        assert((a + b).last() == b.last());
    }
}

proof fn lemma_closes(table: Map<i32, int>, fds: Seq<i32>)
    ensures
        files_after(table, close_steps(fds)) == table.remove_keys(fds.to_set()),
    decreases fds.len(),
{
    let steps = close_steps(fds);
    if fds.len() == 0 {
        assert(table.remove_keys(fds.to_set()) =~= table);
    } else {
        lemma_closes(table, fds.drop_last());
        assert(steps.drop_last() =~= close_steps(fds.drop_last()));
        assert(steps.last() == ChildStep::Close(fds.last()));
        assert forall|x: i32| #[trigger] fds.contains(x) <==> fds.drop_last().contains(x) || x
            == fds.last() by {
            let front = fds.drop_last();
            assert(fds[fds.len() - 1] == fds.last());
            if front.contains(x) {
                let j = choose|j: int| 0 <= j < front.len() && front[j] == x;
                assert(fds[j] == x);
            }
            if fds.contains(x) && x != fds.last() {
                let j = choose|j: int| 0 <= j < fds.len() && fds[j] == x;
                assert(front[j] == x);
            }
        }
        assert(table.remove_keys(fds.to_set()) =~= table.remove_keys(
            fds.drop_last().to_set(),
        ).remove(fds.last()));
    }
}

proof fn lemma_exec_steps(table: Map<i32, int>, isolated: bool, has_cwd: bool, leader: Option<i32>)
    ensures
        files_after(table, exec_steps(isolated, has_cwd, leader)) == table,
{
    lemma_no_file_steps(table, exec_steps(isolated, has_cwd, leader));
}

proof fn lemma_no_file_steps(table: Map<i32, int>, steps: Seq<ChildStep>)
    requires
        forall|i: int|
            0 <= i < steps.len() ==> file_after(table, #[trigger] steps[i]) == table,
    ensures
        files_after(table, steps) == table,
    decreases steps.len(),
{
    if steps.len() > 0 {
        let front = steps.drop_last();
        assert forall|i: int| 0 <= i < front.len() implies file_after(table, #[trigger] front[i])
            == table by {
            assert(front[i] == steps[i]);
        }
        lemma_no_file_steps(table, front);
        assert(file_after(table, steps[steps.len() - 1]) == table);
    }
}

proof fn lemma_dups(table: Map<i32, int>, p: Pipes)
    requires
        forall|i: int| 0 <= i < pipes::pipe_fds(p).len() ==> #[trigger] pipes::pipe_fds(p)[i] > 2,
    ensures
        ({
            let after = files_after(table, dup_steps(p));
            &&& match p.stdin {
                Some((r, _)) => after.contains_pair(0, table[r.0]),
                None => after.contains_key(0) == table.contains_key(0) && after[0] == table[0],
            }
            &&& match p.stdout {
                Some((_, w)) => after.contains_pair(1, table[w.0]),
                None => after.contains_key(1) == table.contains_key(1) && after[1] == table[1],
            }
            &&& match p.stderr {
                Some((_, w)) => after.contains_pair(2, table[w.0]),
                None => after.contains_key(2) == table.contains_key(2) && after[2] == table[2],
            }
            &&& forall|fd: i32|
                fd > 2 ==> (#[trigger] after.contains_key(fd) == table.contains_key(fd)) && after[fd]
                    == table[fd]
        }),
{
    let fds = pipes::pipe_fds(p);
    let a = pipes::pair_fds(p.stdin);
    let b = pipes::pair_fds(p.stdout);
    let c = pipes::pair_fds(p.stderr);
    let na: int = a.len() as int;
    let nb: int = na + b.len();
    if let Some((r, w)) = p.stdin {
        assert(fds[0] == r.0);
    }
    if let Some((r, w)) = p.stdout {
        assert(b[1] == w.0);
        assert(fds[na + 1] == w.0);
    }
    if let Some((r, w)) = p.stderr {
        assert(c[1] == w.0);
        assert(fds[nb + 1] == w.0);
    }
    let s1: Seq<ChildStep> = match p.stdin {
        Some((r, _)) => seq![ChildStep::DupStdin(r.0)],
        None => seq![],
    };
    let s2: Seq<ChildStep> = match p.stdout {
        Some((_, w)) => seq![ChildStep::DupStdout(w.0)],
        None => seq![],
    };
    let s3: Seq<ChildStep> = match p.stderr {
        Some((_, w)) => seq![ChildStep::DupStderr(w.0)],
        None => seq![],
    };
    lemma_files_after_concat(table, s1 + s2, s3);
    lemma_files_after_concat(table, s1, s2);
    reveal_with_fuel(files_after, 2);
    if p.stdin is Some {
        assert(s1.drop_last() =~= Seq::<ChildStep>::empty());
    }
    if p.stdout is Some {
        assert(s2.drop_last() =~= Seq::<ChildStep>::empty());
    }
    if p.stderr is Some {
        assert(s3.drop_last() =~= Seq::<ChildStep>::empty());
    }
}

/// When a child executes its program, its ends of the pipes are its standard
/// streams, no other descriptor of a pipe is open, what the policy closes is
/// closed, and everything else is as it was.
pub proof fn law_child_sees_its_ends(table: Map<i32, int>, q: ForkRequest)
    requires
        forall|i: int|
            0 <= i < pipes::pipe_fds(q.pipes).len() ==> #[trigger] pipes::pipe_fds(q.pipes)[i] > 2,
        q.report_r > 2,
        !pipes::pipe_fds(q.pipes).contains(q.report_r),
    ensures
        ({
            let after = files_after(table, child_steps(q));
            let fds = pipes::pipe_fds(q.pipes);
            &&& match q.pipes.stdin {
                Some((r, _)) => after.contains_pair(0, table[r.0]),
                None => after.contains_key(0) == table.contains_key(0),
            }
            &&& match q.pipes.stdout {
                Some((_, w)) => after.contains_pair(1, table[w.0]),
                None => after.contains_key(1) == table.contains_key(1),
            }
            &&& match q.pipes.stderr {
                Some((_, w)) => after.contains_pair(2, table[w.0]),
                None => after.contains_key(2) == table.contains_key(2),
            }
            &&& forall|fd: i32|
                fd > 2 ==> (#[trigger] after.contains_key(fd) <==> table.contains_key(fd)
                    && !fds.contains(fd) && fd != q.report_r && !(q.open_fds@.contains(fd)
                    && is_closed(q.policy, required_fds(q), fd)))
            &&& forall|fd: i32|
                fd > 2 && #[trigger] after.contains_key(fd) ==> after[fd] == table[fd]
        }),
{
    let fds = pipes::pipe_fds(q.pipes);
    let gone = closed_fds(q.policy, required_fds(q), q.open_fds@);
    let s0 = seq![ChildStep::Close(q.report_r)];
    let s1 = dup_steps(q.pipes);
    let s2 = close_steps(fds);
    let s3 = close_steps(gone);
    let s4 = exec_steps(q.isolated, q.has_cwd, q.leader);
    lemma_files_after_concat(table, s0 + s1 + s2 + s3, s4);
    lemma_files_after_concat(table, s0 + s1 + s2, s3);
    lemma_files_after_concat(table, s0 + s1, s2);
    lemma_files_after_concat(table, s0, s1);
    reveal_with_fuel(files_after, 2);
    assert(s0.drop_last() =~= Seq::<ChildStep>::empty());
    let t0 = files_after(table, s0);
    assert(t0 == table.remove(q.report_r));
    lemma_dups(t0, q.pipes);
    let t1 = files_after(t0, s1);
    lemma_closes(t1, fds);
    let t2 = files_after(t1, s2);
    lemma_closes(t2, gone);
    let t3 = files_after(t2, s3);
    lemma_exec_steps(t3, q.isolated, q.has_cwd, q.leader);
    let after = files_after(table, child_steps(q));
    assert(after == t3);
    let a = pipes::pair_fds(q.pipes.stdin);
    let b = pipes::pair_fds(q.pipes.stdout);
    let c = pipes::pair_fds(q.pipes.stderr);
    let na: int = a.len() as int;
    let nb: int = na + b.len();
    if let Some((r, w)) = q.pipes.stdin {
        assert(fds[0] == r.0);
        assert(fds.contains(fds[0]));
    }
    if let Some((r, w)) = q.pipes.stdout {
        assert(b[1] == w.0);
        assert(fds[na + 1] == w.0);
        assert(fds.contains(fds[na + 1]));
    }
    if let Some((r, w)) = q.pipes.stderr {
        assert(c[1] == w.0);
        assert(fds[nb + 1] == w.0);
        assert(fds.contains(fds[nb + 1]));
    }
    assert forall|fd: i32| #[trigger] fds.contains(fd) implies fd > 2 by {
        let j = choose|j: int| 0 <= j < fds.len() && fds[j] == fd;
        assert(fds[j] > 2);
    }
    assert forall|fd: i32| #[trigger] gone.contains(fd) <==> q.open_fds@.contains(fd) && is_closed(
        q.policy,
        required_fds(q),
        fd,
    ) by {
        law_policy_closes(q.policy, required_fds(q), q.open_fds@, fd);
    }
    assert forall|fd: i32| fd > 2 implies (#[trigger] after.contains_key(fd) <==> table.contains_key(
        fd,
    ) && !fds.contains(fd) && fd != q.report_r && !(q.open_fds@.contains(fd) && is_closed(
        q.policy,
        required_fds(q),
        fd,
    ))) by {
        assert(t1.contains_key(fd) == t0.contains_key(fd));
        assert(gone.contains(fd) <==> q.open_fds@.contains(fd) && is_closed(
            q.policy,
            required_fds(q),
            fd,
        ));
    }
    assert forall|fd: i32| fd > 2 && #[trigger] after.contains_key(fd) implies after[fd]
        == table[fd] by {
        assert(t1.contains_key(fd));
    }
    assert(!gone.contains(0) && !gone.contains(1) && !gone.contains(2));
    assert(!fds.contains(0) && !fds.contains(1) && !fds.contains(2));
}

/// Which descriptors a policy has closed: none; all from 3 on; or all from 3 on
/// that are not listed. Those that the setup needs itself stay open.
pub proof fn law_policies(required: Seq<i32>, list: Vec<i32>, fd: i32)
    ensures
        !is_closed(SpawnFdPolicy::CloexecOnly, required, fd),
        is_closed(SpawnFdPolicy::CloseFrom3, required, fd) <==> fd >= 3 && !required.contains(fd),
        is_closed(SpawnFdPolicy::Allowlist(list), required, fd) <==> fd >= 3 && !required.contains(
            fd,
        ) && !list@.contains(fd),
{
}

/// A child closes neither its standard streams nor the pipe for its report before
/// the program is executed.
pub proof fn law_report_stays_open(q: ForkRequest)
    ensures
        !closed_fds(q.policy, required_fds(q), q.open_fds@).contains(q.report_w),
        forall|fd: i32|
            0 <= fd <= 2 ==> !(#[trigger] closed_fds(
                q.policy,
                required_fds(q),
                q.open_fds@,
            ).contains(fd)),
{
    let r = required_fds(q);
    assert(r[r.len() - 1] == q.report_w);
    assert(r.contains(q.report_w));
    law_policy_closes(q.policy, r, q.open_fds@, q.report_w);
    assert forall|fd: i32| 0 <= fd <= 2 implies !(#[trigger] closed_fds(
        q.policy,
        r,
        q.open_fds@,
    ).contains(fd)) by {
        law_policy_closes(q.policy, r, q.open_fds@, fd);
    }
}

/// After its descriptors a child starts a session, goes to its directory and joins
/// a group, where each is asked for and in this order; then it lets signals
/// through, restores the default for a broken pipe, and executes the program as
/// the last thing of all.
pub proof fn law_setup_order(q: ForkRequest, pg: i32)
    ensures
        child_steps(q).last() is Exec,
        child_steps(q).first() == ChildStep::Close(q.report_r),
        ({
            let tail = exec_steps(q.isolated, q.has_cwd, q.leader);
            let all = child_steps(q);
            let a: int = if q.isolated {
                1
            } else {
                0
            };
            let b: int = if q.has_cwd {
                1
            } else {
                0
            };
            let c: int = if q.leader is Some {
                1
            } else {
                0
            };
            &&& tail.len() == a + b + c + 3
            &&& all.skip(all.len() - tail.len()) == tail
            &&& q.isolated ==> tail[0] is Setsid
            &&& q.has_cwd ==> tail[a] is Chdir
            &&& q.leader == Some(pg) ==> tail[a + b] == ChildStep::Setpgid(pg)
            &&& tail[a + b + c] is UnblockSignals
            &&& tail[a + b + c + 1] is ResetSigpipe
            &&& tail[a + b + c + 2] is Exec
        }),
{
    let tail = exec_steps(q.isolated, q.has_cwd, q.leader);
    let all = child_steps(q);
    assert(all.skip(all.len() - tail.len()) =~= tail);
    assert(all.last() == tail.last());
}

/// Each step that fails is reported as itself.
pub proof fn law_failures(fd: i32)
    ensures
        failure_of(ChildStep::Close(fd)) is None,
        failure_of(ChildStep::DupStdin(fd)) == Some(ChildSetupOp::DupStdin),
        failure_of(ChildStep::DupStdout(fd)) == Some(ChildSetupOp::DupStdout),
        failure_of(ChildStep::DupStderr(fd)) == Some(ChildSetupOp::DupStderr),
        failure_of(ChildStep::Setsid) == Some(ChildSetupOp::Setsid),
        failure_of(ChildStep::Chdir) == Some(ChildSetupOp::Chdir),
        failure_of(ChildStep::Setpgid(fd)) == Some(ChildSetupOp::Setpgid),
        failure_of(ChildStep::UnblockSignals) == Some(ChildSetupOp::SignalMask),
        failure_of(ChildStep::ResetSigpipe) == Some(ChildSetupOp::SignalMask),
        failure_of(ChildStep::Exec) == Some(ChildSetupOp::Execve),
{
}

/// The steps have different numbers and different names in errors.
pub proof fn law_setup_names(a: ChildSetupOp, b: ChildSetupOp)
    ensures
        setup_numbered(setup_number(a)) == a,
        setup_number(a) == setup_number(b) ==> a == b,
        1 <= setup_number(a) <= 8,
        setup_name(ChildSetupOp::DupStdin) == "fork child dup2 stdin",
        setup_name(ChildSetupOp::DupStdout) == "fork child dup2 stdout",
        setup_name(ChildSetupOp::DupStderr) == "fork child dup2 stderr",
        setup_name(ChildSetupOp::Setsid) == "fork child setsid",
        setup_name(ChildSetupOp::Chdir) == "fork child chdir",
        setup_name(ChildSetupOp::Setpgid) == "fork child setpgid",
        setup_name(ChildSetupOp::SignalMask) == "fork child signal setup",
        setup_name(ChildSetupOp::Execve) == "fork child execve",
{
}

/// The open descriptors are the names that are decimal numbers, but for that of
/// the directory they were read from.
pub proof fn law_descriptor_names(names: Seq<Seq<u8>>, name: Seq<u8>, fd: i32, dir_fd: i32)
    ensures
        named_fds(Seq::<Seq<u8>>::empty(), dir_fd) == Seq::<i32>::empty(),
        vstd::utf8::valid_utf8(name) && vstd::utf8::decode_utf8(name) == text::dec_int(fd as int)
            ==> named_fds(names.push(name), dir_fd) == if fd == dir_fd {
            named_fds(names, dir_fd)
        } else {
            named_fds(names, dir_fd).push(fd)
        },
        !vstd::utf8::valid_utf8(name) || text::integer(vstd::utf8::decode_utf8(name)) is None
            ==> named_fds(names.push(name), dir_fd) == named_fds(names, dir_fd),
{
    assert(names.push(name).drop_last() =~= names);
    if fd >= 0 {
        text::law_numbers_are_read(fd as nat, 0, 0);
    } else {
        text::law_numbers_are_read((-(fd as int)) as nat, 0, 0);
    }
}

} // verus!
