//! What to spawn and how, and which requests are refused.

use vstd::prelude::*;

use crate::error::{CoreError, SysReply, EINVAL};
use crate::text;
use crate::text::chars_of;

verus! {

/// What to do about a process that runs out of time.
#[derive(Debug, Clone, Copy, PartialEq, Eq, Structural)]
pub enum CancelPolicy {
    /// Let it run to its end.
    NoAction,
    /// Ask it to end, and end it after a grace period.
    Graceful,
    /// End it at once.
    Kill,
}

impl Default for CancelPolicy {
    fn default() -> (r: Self)
        ensures
            r == CancelPolicy::NoAction,
    {
        CancelPolicy::NoAction
    }
}

/// The process group and the session of a process.
#[derive(Debug, Clone, Copy, PartialEq, Eq, Structural)]
pub struct ProcessGroup {
    /// The group to join.
    pub leader: Option<i32>,
    /// Whether it starts a session of its own.
    pub isolated: bool,
}

impl ProcessGroup {
    pub fn new(leader: Option<i32>, isolated: bool) -> (r: Self)
        ensures
            r.leader == leader,
            r.isolated == isolated,
    {
        Self { leader, isolated }
    }
}

impl Default for ProcessGroup {
    fn default() -> (r: Self)
        ensures
            r.leader is None,
            !r.isolated,
    {
        ProcessGroup { leader: None, isolated: false }
    }
}

/// How a process is started.
#[derive(Debug, Clone, Copy, PartialEq, Eq, Structural)]
pub enum SpawnBackend {
    /// By `posix_spawn`.
    PosixSpawn,
    /// By `fork` and `execve`.
    Fork,
}

/// Which descriptors a process inherits.
#[derive(Debug, Clone)]
pub enum SpawnFdPolicy {
    /// Those without the close-on-exec flag.
    CloexecOnly,
    /// Of those, only 0, 1 and 2. Of the fork backend only.
    CloseFrom3,
    /// Of those, only 0, 1, 2 and the listed ones. Of the fork backend only.
    Allowlist(Vec<i32>),
}

impl Default for SpawnFdPolicy {
    fn default() -> (r: Self)
        ensures
            r is CloexecOnly,
    {
        SpawnFdPolicy::CloexecOnly
    }
}

// ---------------------------------------------------------------------------
// Execution context
// ---------------------------------------------------------------------------

/// Whether a text cannot be handed to the kernel because a NUL would end it.
pub open spec fn has_nul(s: Seq<char>) -> bool {
    s.contains('\0')
}

/// Whether one of the texts has a NUL.
pub open spec fn some_nul(v: Seq<Seq<char>>) -> bool {
    exists|i: int| 0 <= i < v.len() && has_nul(#[trigger] v[i])
}

/// Why a request cannot be executed.
pub open spec fn exec_error(
    argv: Seq<Seq<char>>,
    env: Option<Seq<Seq<char>>>,
    cwd: Option<Seq<char>>,
) -> Option<CoreError> {
    if argv.len() == 0 {
        Some(CoreError::Syscall { code: EINVAL, op: "exec argv empty" })
    } else if some_nul(argv) {
        Some(CoreError::Syscall { code: EINVAL, op: "exec argv contains nul" })
    } else if env is Some && some_nul(env->0) {
        Some(CoreError::Syscall { code: EINVAL, op: "exec env contains nul" })
    } else if cwd is Some && has_nul(cwd->0) {
        Some(CoreError::Syscall { code: EINVAL, op: "exec cwd contains nul" })
    } else {
        None
    }
}

/// Arguments, environment and working directory that can be executed: there is
/// a program, and no text has a NUL.
#[derive(Debug, Clone)]
pub struct ExecContext {
    pub argv: Vec<String>,
    pub envp: Option<Vec<String>>,
    pub cwd: Option<String>,
}

/// The texts of an optional list.
pub open spec fn opt_texts(v: Option<Vec<String>>) -> Option<Seq<Seq<char>>> {
    match v {
        Some(v) => Some(text::texts(v@)),
        None => None,
    }
}

fn contains_nul(s: &str) -> (r: bool)
    ensures
        r == has_nul(s@),
{
    let chars = chars_of(s);
    let mut i: usize = 0;
    while i < chars.len()
        invariant
            i <= chars.len(),
            chars@ == s@,
            forall|j: int| 0 <= j < i ==> s@[j] != '\0',
        decreases chars.len() - i,
    {
        if chars[i] == '\0' {
            assert(s@[i as int] == '\0');
            return true;
        }
        i += 1;
    }
    false
}

fn any_contains_nul(v: &Vec<String>) -> (r: bool)
    ensures
        r == some_nul(text::texts(v@)),
{
    let ghost ts = text::texts(v@);
    let mut i: usize = 0;
    while i < v.len()
        invariant
            i <= v.len(),
            ts == text::texts(v@),
            forall|j: int| 0 <= j < i ==> !has_nul(#[trigger] ts[j]),
        decreases v.len() - i,
    {
        assert(ts[i as int] == v@[i as int]@);
        if contains_nul(v[i].as_str()) {
            return true;
        }
        i += 1;
    }
    false
}

impl ExecContext {
    /// Whether it can be executed.
    pub open spec fn wf(&self) -> bool {
        exec_error(text::texts(self.argv@), opt_texts(self.envp), text::opt_text(self.cwd)) is None
    }

    /// Check that a request can be executed.
    pub fn new(argv: Vec<String>, env: Option<Vec<String>>, cwd: Option<String>) -> (r: Result<
        Self,
        CoreError,
    >)
        ensures
            match exec_error(text::texts(argv@), opt_texts(env), text::opt_text(cwd)) {
                Some(e) => r == Err::<Self, CoreError>(e),
                None => r == Ok::<Self, CoreError>(ExecContext { argv, envp: env, cwd })
                    && r->Ok_0.wf(),
            },
    {
        if argv.len() == 0 {
            return Err(CoreError::sys(EINVAL, "exec argv empty"));
        }
        if any_contains_nul(&argv) {
            return Err(CoreError::sys(EINVAL, "exec argv contains nul"));
        }
        if let Some(vars) = &env {
            if any_contains_nul(vars) {
                return Err(CoreError::sys(EINVAL, "exec env contains nul"));
            }
        }
        if let Some(dir) = &cwd {
            if contains_nul(dir.as_str()) {
                return Err(CoreError::sys(EINVAL, "exec cwd contains nul"));
            }
        }
        Ok(Self { argv, envp: env, cwd })
    }
}

// ---------------------------------------------------------------------------
// Options
// ---------------------------------------------------------------------------

/// A checked request to spawn a process.
#[derive(Debug, Clone)]
pub struct SpawnOptions {
    pub ctx: ExecContext,
    pub stdin: Option<Vec<u8>>,
    pub capture_stdout: bool,
    pub capture_stderr: bool,
    pub wait: bool,
    pub pgroup: ProcessGroup,
    pub max_output: usize,
    pub timeout_ms: Option<u32>,
    pub kill_grace_ms: u32,
    pub cancel: CancelPolicy,
    pub backend: SpawnBackend,
    pub fd_policy: SpawnFdPolicy,
    pub early_exit: bool,
}

impl SpawnOptions {
    /// Begin a request.
    pub fn builder(argv: Vec<String>, backend: SpawnBackend) -> (r: SpawnOptionsBuilder)
        ensures
            is_default(r, argv, backend),
    {
        SpawnOptionsBuilder::new(argv, backend)
    }
}

/// A request in the making.
#[derive(Debug, Clone)]
pub struct SpawnOptionsBuilder {
    pub argv: Vec<String>,
    pub env: Option<Vec<String>>,
    pub cwd: Option<String>,
    pub stdin: Option<Vec<u8>>,
    pub capture_stdout: bool,
    pub capture_stderr: bool,
    pub wait: bool,
    pub pgroup: ProcessGroup,
    pub max_output: usize,
    pub timeout_ms: Option<u32>,
    pub kill_grace_ms: u32,
    pub cancel: CancelPolicy,
    pub backend: SpawnBackend,
    pub fd_policy: SpawnFdPolicy,
    pub early_exit: bool,
}

/// The request that a builder begins with: to wait, with no streams connected,
/// up to a mebibyte of output, no time limit, and two seconds of grace.
pub open spec fn is_default(
    b: SpawnOptionsBuilder,
    argv: Vec<String>,
    backend: SpawnBackend,
) -> bool {
    b == (SpawnOptionsBuilder {
        argv,
        env: None,
        cwd: None,
        stdin: None,
        capture_stdout: false,
        capture_stderr: false,
        wait: true,
        pgroup: ProcessGroup { leader: None, isolated: false },
        max_output: 1048576,
        timeout_ms: None,
        kill_grace_ms: 2000,
        cancel: CancelPolicy::Kill,
        backend,
        fd_policy: SpawnFdPolicy::CloexecOnly,
        early_exit: false,
    })
}

impl SpawnOptionsBuilder {
    /// Begin a request.
    pub fn new(argv: Vec<String>, backend: SpawnBackend) -> (r: Self)
        ensures
            is_default(r, argv, backend),
    {
        Self {
            argv,
            env: None,
            cwd: None,
            stdin: None,
            capture_stdout: false,
            capture_stderr: false,
            wait: true,
            pgroup: ProcessGroup { leader: None, isolated: false },
            max_output: 1048576,
            timeout_ms: None,
            kill_grace_ms: 2000,
            cancel: CancelPolicy::Kill,
            backend,
            fd_policy: SpawnFdPolicy::CloexecOnly,
            early_exit: false,
        }
    }

    /// Give the environment.
    pub fn env(self, env: Vec<String>) -> (r: Self)
        ensures
            r == (Self { env: Some(env), ..self }),
    {
        let mut b = self;
        b.env = Some(env);
        b
    }

    /// Give the working directory.
    pub fn cwd(self, cwd: String) -> (r: Self)
        ensures
            r == (Self { cwd: Some(cwd), ..self }),
    {
        let mut b = self;
        b.cwd = Some(cwd);
        b
    }

    /// Give the standard input.
    pub fn stdin(self, data: Vec<u8>) -> (r: Self)
        ensures
            r == (Self { stdin: Some(data), ..self }),
    {
        let mut b = self;
        b.stdin = Some(data);
        b
    }

    /// Keep the standard output.
    pub fn capture_stdout(self) -> (r: Self)
        ensures
            r == (Self { capture_stdout: true, ..self }),
    {
        let mut b = self;
        b.capture_stdout = true;
        b
    }

    /// Keep the standard error.
    pub fn capture_stderr(self) -> (r: Self)
        ensures
            r == (Self { capture_stderr: true, ..self }),
    {
        let mut b = self;
        b.capture_stderr = true;
        b
    }

    /// Wait for the end of the process, or do not.
    pub fn wait(self, wait: bool) -> (r: Self)
        ensures
            r == (Self { wait, ..self }),
    {
        let mut b = self;
        b.wait = wait;
        b
    }

    /// Choose the process group.
    pub fn pgroup(self, pgroup: ProcessGroup) -> (r: Self)
        ensures
            r == (Self { pgroup, ..self }),
    {
        let mut b = self;
        b.pgroup = pgroup;
        b
    }

    /// Limit the output, standard output and error together.
    pub fn max_output(self, max: usize) -> (r: Self)
        ensures
            r == (Self { max_output: max, ..self }),
    {
        let mut b = self;
        b.max_output = max;
        b
    }

    /// Limit the time.
    pub fn timeout_ms(self, ms: u32) -> (r: Self)
        ensures
            r == (Self { timeout_ms: Some(ms), ..self }),
    {
        let mut b = self;
        b.timeout_ms = Some(ms);
        b
    }

    /// Choose the grace period between `SIGTERM` and `SIGKILL`.
    pub fn kill_grace_ms(self, ms: u32) -> (r: Self)
        ensures
            r == (Self { kill_grace_ms: ms, ..self }),
    {
        let mut b = self;
        b.kill_grace_ms = ms;
        b
    }

    /// Choose what to do when the time is over.
    pub fn cancel(self, policy: CancelPolicy) -> (r: Self)
        ensures
            r == (Self { cancel: policy, ..self }),
    {
        let mut b = self;
        b.cancel = policy;
        b
    }

    /// Choose the descriptors that are inherited.
    pub fn fd_policy(self, policy: SpawnFdPolicy) -> (r: Self)
        ensures
            r == (Self { fd_policy: policy, ..self }),
    {
        let mut b = self;
        b.fd_policy = policy;
        b
    }

    /// Let what is read from standard output ask for it to be closed.
    pub fn early_exit(self) -> (r: Self)
        ensures
            r == (Self { early_exit: true, ..self }),
    {
        let mut b = self;
        b.early_exit = true;
        b
    }

    /// Check the request.
    pub fn build(self) -> (r: Result<SpawnOptions, CoreError>)
        ensures
            match exec_error(
                text::texts(self.argv@),
                opt_texts(self.env),
                text::opt_text(self.cwd),
            ) {
                Some(e) => r == Err::<SpawnOptions, CoreError>(e),
                None => r == Ok::<SpawnOptions, CoreError>(
                    SpawnOptions {
                        ctx: ExecContext { argv: self.argv, envp: self.env, cwd: self.cwd },
                        stdin: self.stdin,
                        capture_stdout: self.capture_stdout,
                        capture_stderr: self.capture_stderr,
                        wait: self.wait,
                        pgroup: self.pgroup,
                        max_output: self.max_output,
                        timeout_ms: self.timeout_ms,
                        kill_grace_ms: self.kill_grace_ms,
                        cancel: self.cancel,
                        backend: self.backend,
                        fd_policy: self.fd_policy,
                        early_exit: self.early_exit,
                    },
                ) && r->Ok_0.ctx.wf(),
            },
    {
        match ExecContext::new(self.argv, self.env, self.cwd) {
            Err(e) => Err(e),
            Ok(ctx) => Ok(
                SpawnOptions {
                    ctx,
                    stdin: self.stdin,
                    capture_stdout: self.capture_stdout,
                    capture_stderr: self.capture_stderr,
                    wait: self.wait,
                    pgroup: self.pgroup,
                    max_output: self.max_output,
                    timeout_ms: self.timeout_ms,
                    kill_grace_ms: self.kill_grace_ms,
                    cancel: self.cancel,
                    backend: self.backend,
                    fd_policy: self.fd_policy,
                    early_exit: self.early_exit,
                },
            ),
        }
    }
}

// ---------------------------------------------------------------------------
// Validation
// ---------------------------------------------------------------------------

/// What is wrong with the listed descriptor `fds[i]`, of which `F_GETFD` replied
/// `flags[i]`: it is negative, not open, or listed before.
pub open spec fn fd_fault(fds: Seq<i32>, flags: Seq<SysReply>, i: int) -> Option<CoreError> {
    if fds[i] < 0 {
        Some(CoreError::Syscall { code: EINVAL, op: "spawn fd allowlist invalid" })
    } else if flags[i].ret < 0 {
        Some(
            CoreError::Syscall { code: flags[i].errno, op: "spawn fd allowlist fcntl(F_GETFD)" },
        )
    } else if fds.take(i).contains(fds[i]) {
        Some(CoreError::Syscall { code: EINVAL, op: "spawn fd allowlist duplicate" })
    } else {
        None
    }
}

/// The first fault from the listed descriptor `k` on.
pub open spec fn first_fault(fds: Seq<i32>, flags: Seq<SysReply>, k: int) -> Option<CoreError>
    decreases fds.len() - k,
{
    if k < 0 || k >= fds.len() {
        None
    } else {
        match fd_fault(fds, flags, k) {
            Some(e) => Some(e),
            None => first_fault(fds, flags, k + 1),
        }
    }
}

/// What is wrong with a descriptor policy.
pub open spec fn policy_fault(policy: SpawnFdPolicy, flags: Seq<SysReply>) -> Option<CoreError> {
    match policy {
        SpawnFdPolicy::Allowlist(fds) => first_fault(fds@, flags, 0),
        _ => None,
    }
}

/// Whether there is a reply on each listed descriptor.
pub open spec fn probed(policy: SpawnFdPolicy, flags: Seq<SysReply>) -> bool {
    match policy {
        SpawnFdPolicy::Allowlist(fds) => flags.len() == fds@.len(),
        _ => true,
    }
}

fn listed_before(fds: &Vec<i32>, n: usize, fd: i32) -> (r: bool)
    requires
        n <= fds.len(),
    ensures
        r == fds@.take(n as int).contains(fd),
{
    let mut i: usize = 0;
    while i < n
        invariant
            i <= n <= fds.len(),
            forall|j: int| 0 <= j < i ==> fds@[j] != fd,
        decreases n - i,
    {
        if fds[i] == fd {
            assert(fds@.take(n as int)[i as int] == fd);
            return true;
        }
        i += 1;
    }
    false
}

/// Check a descriptor policy. `flags` are the replies of `F_GETFD` on the
/// listed descriptors, in their order.
pub fn validate_fd_policy(policy: &SpawnFdPolicy, flags: &[SysReply]) -> (r: Result<(), CoreError>)
    requires
        probed(*policy, flags@),
    ensures
        r == (match policy_fault(*policy, flags@) {
            Some(e) => Err::<(), CoreError>(e),
            None => Ok(()),
        }),
{
    if let SpawnFdPolicy::Allowlist(fds) = policy {
        let mut i: usize = 0;
        while i < fds.len()
            invariant
                i <= fds.len(),
                *policy == SpawnFdPolicy::Allowlist(*fds),
                flags@.len() == fds@.len(),
                first_fault(fds@, flags@, 0) == first_fault(fds@, flags@, i as int),
            decreases fds.len() - i,
        {
            let fd = fds[i];
            if fd < 0 {
                return Err(CoreError::sys(EINVAL, "spawn fd allowlist invalid"));
            }
            if flags[i].ret < 0 {
                return Err(CoreError::sys(flags[i].errno, "spawn fd allowlist fcntl(F_GETFD)"));
            }
            if listed_before(fds, i, fd) {
                return Err(CoreError::sys(EINVAL, "spawn fd allowlist duplicate"));
            }
            i += 1;
        }
    }
    Ok(())
}

/// What the backend of a request cannot do.
pub open spec fn backend_fault(opts: SpawnOptions, flags: Seq<SysReply>) -> Option<CoreError> {
    match policy_fault(opts.fd_policy, flags) {
        Some(e) => Some(e),
        None => if opts.backend == SpawnBackend::Fork {
            None
        } else if opts.ctx.cwd is Some {
            Some(CoreError::Syscall { code: EINVAL, op: "posix_spawn cwd unsupported" })
        } else if opts.pgroup.isolated {
            Some(CoreError::Syscall { code: EINVAL, op: "posix_spawn setsid unsupported" })
        } else if !(opts.fd_policy is CloexecOnly) {
            Some(CoreError::Syscall { code: EINVAL, op: "posix_spawn fd policy unsupported" })
        } else {
            None
        },
    }
}

/// Check that the backend can do what is asked for.
pub fn validate_backend(opts: &SpawnOptions, flags: &[SysReply]) -> (r: Result<(), CoreError>)
    requires
        probed(opts.fd_policy, flags@),
    ensures
        r == (match backend_fault(*opts, flags@) {
            Some(e) => Err::<(), CoreError>(e),
            None => Ok(()),
        }),
{
    match validate_fd_policy(&opts.fd_policy, flags) {
        Ok(()) => {},
        Err(e) => return Err(e),
    }
    match opts.backend {
        SpawnBackend::PosixSpawn => {
            if opts.ctx.cwd.is_some() {
                return Err(CoreError::sys(EINVAL, "posix_spawn cwd unsupported"));
            }
            if opts.pgroup.isolated {
                return Err(CoreError::sys(EINVAL, "posix_spawn setsid unsupported"));
            }
            match &opts.fd_policy {
                SpawnFdPolicy::CloexecOnly => Ok(()),
                _ => Err(CoreError::sys(EINVAL, "posix_spawn fd policy unsupported")),
            }
        },
        SpawnBackend::Fork => Ok(()),
    }
}

/// How to start: by which backend, and with which streams connected.
#[derive(Debug, Clone, Copy, PartialEq, Eq, Structural)]
pub struct Start {
    pub backend: SpawnBackend,
    pub stdin: bool,
    pub stdout: bool,
    pub stderr: bool,
}

/// Why a request is refused. Streams cannot be connected to a process that
/// nobody waits for.
pub open spec fn start_fault(opts: SpawnOptions, flags: Seq<SysReply>) -> Option<CoreError> {
    if !opts.wait && (opts.stdin is Some || opts.capture_stdout || opts.capture_stderr) {
        Some(
            CoreError::Syscall {
                code: EINVAL,
                op: "background I/O capture not supported (wait must be true)",
            },
        )
    } else {
        backend_fault(opts, flags)
    }
}

/// Check a request and tell how to start it.
pub fn spawn_start(opts: &SpawnOptions, flags: &[SysReply]) -> (r: Result<Start, CoreError>)
    requires
        probed(opts.fd_policy, flags@),
    ensures
        r == (match start_fault(*opts, flags@) {
            Some(e) => Err::<Start, CoreError>(e),
            None => Ok(
                Start {
                    backend: opts.backend,
                    stdin: opts.stdin is Some,
                    stdout: opts.capture_stdout,
                    stderr: opts.capture_stderr,
                },
            ),
        }),
{
    if !opts.wait && (opts.stdin.is_some() || opts.capture_stdout || opts.capture_stderr) {
        return Err(
            CoreError::sys(EINVAL, "background I/O capture not supported (wait must be true)"),
        );
    }
    match validate_backend(opts, flags) {
        Err(e) => Err(e),
        Ok(()) => Ok(
            Start {
                backend: opts.backend,
                stdin: opts.stdin.is_some(),
                stdout: opts.capture_stdout,
                stderr: opts.capture_stderr,
            },
        ),
    }
}

// ---------------------------------------------------------------------------
// Laws
// ---------------------------------------------------------------------------

/// An allowlist without a fault lists open descriptors, each once.
pub proof fn law_allowlist_is_clean(fds: Seq<i32>, flags: Seq<SysReply>)
    requires
        first_fault(fds, flags, 0) is None,
    ensures
        fds.no_duplicates(),
        forall|i: int| 0 <= i < fds.len() ==> #[trigger] fds[i] >= 0 && flags[i].ret >= 0,
{
    lemma_no_fault(fds, flags, 0);
    assert forall|i: int, j: int| 0 <= i < fds.len() && 0 <= j < fds.len() && i != j implies fds[i]
        != fds[j] by {
        if i < j {
            assert(fd_fault(fds, flags, j) is None);
            assert(fds.take(j)[i] == fds[i]);
        } else {
            assert(fd_fault(fds, flags, i) is None);
            assert(fds.take(i)[j] == fds[j]);
        }
    }
    assert forall|i: int| 0 <= i < fds.len() implies #[trigger] fds[i] >= 0 && flags[i].ret >= 0 by {
        assert(fd_fault(fds, flags, i) is None);
    }
}

proof fn lemma_no_fault(fds: Seq<i32>, flags: Seq<SysReply>, k: int)
    requires
        0 <= k <= fds.len(),
        first_fault(fds, flags, k) is None,
    ensures
        forall|i: int| k <= i < fds.len() ==> #[trigger] fd_fault(fds, flags, i) is None,
    decreases fds.len() - k,
{
    if k < fds.len() {
        lemma_no_fault(fds, flags, k + 1);
    }
}

/// A request that says no more than the program waits for it, connects no stream,
/// keeps a mebibyte of output, has no time limit, and kills with a grace of two
/// seconds.
pub proof fn law_request_defaults(b: SpawnOptionsBuilder, argv: Vec<String>, backend: SpawnBackend)
    requires
        is_default(b, argv, backend),
    ensures
        b.argv == argv && b.backend == backend,
        b.wait && b.stdin is None && !b.capture_stdout && !b.capture_stderr,
        b.env is None && b.cwd is None,
        b.pgroup.leader is None && !b.pgroup.isolated,
        b.max_output == 1024 * 1024,
        b.timeout_ms is None,
        b.kill_grace_ms == 2000,
        b.cancel == CancelPolicy::Kill,
        b.fd_policy is CloexecOnly,
        !b.early_exit,
{
}

/// A program can be executed exactly if it is named and none of its texts holds a
/// NUL.
pub proof fn law_executable(
    argv: Seq<Seq<char>>,
    env: Option<Seq<Seq<char>>>,
    cwd: Option<Seq<char>>,
    i: int,
)
    ensures
        exec_error(argv, env, cwd) is None ==> argv.len() > 0,
        exec_error(argv, env, cwd) is None && 0 <= i < argv.len() ==> !argv[i].contains('\0'),
        exec_error(argv, env, cwd) is None && env is Some && 0 <= i < env->0.len()
            ==> !env->0[i].contains('\0'),
        exec_error(argv, env, cwd) is None && cwd is Some ==> !cwd->0.contains('\0'),
        argv.len() > 0 && (forall|j: int| 0 <= j < argv.len() ==> !(#[trigger] argv[j]).contains('\0'))
            && (env is Some ==> forall|j: int|
            0 <= j < env->0.len() ==> !(#[trigger] env->0[j]).contains('\0')) && (cwd is Some
            ==> !cwd->0.contains('\0')) ==> exec_error(argv, env, cwd) is None,
        exec_error(argv, env, cwd) is Some ==> exec_error(argv, env, cwd)->0->code == 22,
        argv.len() == 0 ==> exec_error(argv, env, cwd) == Some(
            CoreError::Syscall { code: 22, op: "exec argv empty" },
        ),
        0 <= i < argv.len() && argv[i].contains('\0') ==> exec_error(argv, env, cwd) == Some(
            CoreError::Syscall { code: 22, op: "exec argv contains nul" },
        ),
{
    if 0 <= i < argv.len() && has_nul(argv[i]) {
        assert(some_nul(argv));
    }
    if env is Some && 0 <= i < env->0.len() && has_nul(env->0[i]) {
        assert(some_nul(env->0));
    }
}

/// An allowlist of open descriptors, each listed once, has no fault.
pub proof fn law_clean_allowlist_passes(fds: Seq<i32>, flags: Seq<SysReply>, k: int)
    requires
        0 <= k <= fds.len(),
        fds.no_duplicates(),
        forall|i: int| 0 <= i < fds.len() ==> #[trigger] fds[i] >= 0 && flags[i].ret >= 0,
    ensures
        first_fault(fds, flags, k) is None,
    decreases fds.len() - k,
{
    if k < fds.len() {
        assert(fds[k] >= 0);
        let head = fds.take(k);
        if head.contains(fds[k]) {
            let j = choose|j: int| 0 <= j < head.len() && head[j] == fds[k];
            assert(fds[j] == fds[k]);
        }
        law_clean_allowlist_passes(fds, flags, k + 1);
    }
}

/// A request is refused where streams are connected to a process that nobody
/// waits for, where the allowlist has a fault, and where `posix_spawn` is to do
/// what it cannot: change the directory, start a session, or close descriptors.
/// Otherwise it is not.
pub proof fn law_refusals(opts: SpawnOptions, flags: Seq<SysReply>)
    ensures
        !opts.wait && (opts.stdin is Some || opts.capture_stdout || opts.capture_stderr)
            ==> start_fault(opts, flags) is Some,
        opts.wait || (opts.stdin is None && !opts.capture_stdout && !opts.capture_stderr) ==> {
            let listed = match opts.fd_policy {
                SpawnFdPolicy::Allowlist(fds) => first_fault(fds@, flags, 0),
                _ => None,
            };
            &&& listed is Some ==> start_fault(opts, flags) == listed
            &&& listed is None && opts.backend == SpawnBackend::Fork ==> start_fault(
                opts,
                flags,
            ) is None
            &&& listed is None && opts.backend == SpawnBackend::PosixSpawn ==> (start_fault(
                opts,
                flags,
            ) is None <==> opts.ctx.cwd is None && !opts.pgroup.isolated
                && opts.fd_policy is CloexecOnly)
        },
{
}

} // verus!
