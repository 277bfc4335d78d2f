//! Unix domain stream sockets: addresses, and the outcome of each call.

use vstd::prelude::*;

use crate::error;
use crate::error::{
    io_error, syscall_ret, Attempt, CoreError, SysReply, EAGAIN, EALREADY, EEXIST, EINPROGRESS,
    EINTR, EINVAL, EISCONN, ENAMETOOLONG, ENOENT,
};
use crate::reactor;
use crate::reactor::Fd;

verus! {

// ---------------------------------------------------------------------------
// Addresses
// ---------------------------------------------------------------------------

/// The length of `sun_path`.
pub const SUN_PATH_LEN: usize = 108;

/// The offset of `sun_path` in an address.
pub const SUN_PATH_OFFSET: u32 = 2;

/// The address of a socket.
#[derive(Debug, Clone, Copy)]
pub enum UnixSocketAddr<'a> {
    /// A path in the file system, as bytes.
    Path(&'a [u8]),
    /// A name in the abstract namespace, without the leading NUL.
    Abstract(&'a [u8]),
}

/// An address as the kernel takes it.
#[derive(Debug)]
pub struct UnixSockAddr {
    /// The beginning of `sun_path`; the rest is zero.
    pub sun_path: Vec<u8>,
    /// The length of the address.
    pub len: u32,
}

/// Why an address cannot be used.
pub open spec fn addr_error(addr: UnixSocketAddr<'_>, op: &'static str) -> Option<CoreError> {
    match addr {
        UnixSocketAddr::Path(path) => if path@.len() == 0 || path@.contains(0) {
            Some(CoreError::Syscall { code: EINVAL, op })
        } else if path@.len() >= SUN_PATH_LEN {
            Some(CoreError::Syscall { code: ENAMETOOLONG, op })
        } else {
            None
        },
        UnixSocketAddr::Abstract(name) => if name@.len() == 0 {
            Some(CoreError::Syscall { code: EINVAL, op })
        } else if name@.len() + 1 > SUN_PATH_LEN {
            Some(CoreError::Syscall { code: ENAMETOOLONG, op })
        } else {
            None
        },
    }
}

/// What `sun_path` holds: a path with a NUL behind it, or a name with a NUL
/// before it.
pub open spec fn addr_path(addr: UnixSocketAddr<'_>) -> Seq<u8> {
    match addr {
        UnixSocketAddr::Path(path) => path@.push(0),
        UnixSocketAddr::Abstract(name) => seq![0u8] + name@,
    }
}

fn push_bytes(v: &mut Vec<u8>, bytes: &[u8])
    ensures
        final(v)@ == old(v)@ + bytes@,
{
    let mut i: usize = 0;
    while i < bytes.len()
        invariant
            i <= bytes.len(),
            v@ == old(v)@ + bytes@.take(i as int),
        decreases bytes.len() - i,
    {
        v.push(bytes[i]);
        assert(v@ =~= old(v)@ + bytes@.take(i + 1));
        i += 1;
    }
    assert(bytes@.take(bytes@.len() as int) =~= bytes@);
}

fn has_zero(bytes: &[u8]) -> (r: bool)
    ensures
        r == bytes@.contains(0),
{
    let mut i: usize = 0;
    while i < bytes.len()
        invariant
            i <= bytes.len(),
            forall|j: int| 0 <= j < i ==> bytes@[j] != 0,
        decreases bytes.len() - i,
    {
        if bytes[i] == 0 {
            assert(bytes@[i as int] == 0);
            return true;
        }
        i += 1;
    }
    false
}

impl UnixSockAddr {
    /// Encode an address.
    pub fn new(addr: UnixSocketAddr<'_>, op: &'static str) -> (r: Result<Self, CoreError>)
        ensures
            match addr_error(addr, op) {
                Some(e) => r == Err::<Self, CoreError>(e),
                None => r is Ok && r->Ok_0.sun_path@ == addr_path(addr) && r->Ok_0.sun_path@.len()
                    <= SUN_PATH_LEN && r->Ok_0.len == SUN_PATH_OFFSET + addr_path(addr).len(),
            },
    {
        let mut sun_path: Vec<u8> = Vec::new();
        match addr {
            UnixSocketAddr::Path(path) => {
                if path.len() == 0 {
                    return Err(CoreError::sys(EINVAL, op));
                }
                if has_zero(path) {
                    return Err(CoreError::sys(EINVAL, op));
                }
                if path.len() >= SUN_PATH_LEN {
                    return Err(CoreError::sys(ENAMETOOLONG, op));
                }
                push_bytes(&mut sun_path, path);
                sun_path.push(0);
                assert(sun_path@ =~= addr_path(addr));
            },
            UnixSocketAddr::Abstract(name) => {
                if name.len() == 0 {
                    return Err(CoreError::sys(EINVAL, op));
                }
                if name.len() > SUN_PATH_LEN - 1 {
                    return Err(CoreError::sys(ENAMETOOLONG, op));
                }
                sun_path.push(0);
                push_bytes(&mut sun_path, name);
                assert(sun_path@ =~= addr_path(addr));
            },
        }
        let len = SUN_PATH_OFFSET + sun_path.len() as u32;
        Ok(Self { sun_path, len })
    }
}

// ---------------------------------------------------------------------------
// Listening
// ---------------------------------------------------------------------------

/// What to do about a path that is there already.
#[derive(Debug, Clone, Copy, PartialEq, Eq, Structural)]
pub enum StaleSocketPolicy {
    /// Leave it, and let `bind` report it.
    Preserve,
    /// Remove it if it is a socket.
    UnlinkSocketOnly,
    /// Remove it whatever it is.
    UnlinkAnyPath,
}

impl Default for StaleSocketPolicy {
    fn default() -> (r: Self)
        ensures
            r == StaleSocketPolicy::Preserve,
    {
        StaleSocketPolicy::Preserve
    }
}

/// How to bind.
#[derive(Debug, Clone, Copy, PartialEq, Eq, Structural)]
pub struct UnixSocketBindOptions {
    pub stale_socket_policy: StaleSocketPolicy,
    /// The mode of the path, set after the bind.
    pub mode: Option<u32>,
}

impl Default for UnixSocketBindOptions {
    fn default() -> (r: Self)
        ensures
            r.stale_socket_policy == StaleSocketPolicy::Preserve,
            r.mode is None,
    {
        UnixSocketBindOptions { stale_socket_policy: StaleSocketPolicy::Preserve, mode: None }
    }
}

/// A bind that was checked.
#[derive(Debug)]
pub struct BindPlan {
    pub sockaddr: UnixSockAddr,
    /// What to do about a path that is there already; nothing for a name.
    pub stale: Option<StaleSocketPolicy>,
    /// The mode to set after the bind.
    pub mode: Option<u32>,
    /// Whether to remove the path if a call fails after the bind.
    pub cleanup: bool,
}

/// Why a bind is refused. Names have no path to remove or to set the mode of.
pub open spec fn bind_error(addr: UnixSocketAddr<'_>, opts: UnixSocketBindOptions) -> Option<
    CoreError,
> {
    match addr_error(addr, "unix bind address") {
        Some(e) => Some(e),
        None => if addr is Abstract && (opts.stale_socket_policy != StaleSocketPolicy::Preserve
            || opts.mode is Some) {
            Some(CoreError::Syscall { code: EINVAL, op: "abstract unix bind options" })
        } else {
            None
        },
    }
}

/// Check a bind.
pub fn bind_unix_listener(addr: UnixSocketAddr<'_>, opts: UnixSocketBindOptions) -> (r: Result<
    BindPlan,
    CoreError,
>)
    ensures
        match bind_error(addr, opts) {
            Some(e) => r == Err::<BindPlan, CoreError>(e),
            None => {
                &&& r is Ok
                &&& r->Ok_0.sockaddr.sun_path@ == addr_path(addr)
                &&& r->Ok_0.sockaddr.len == SUN_PATH_OFFSET + addr_path(addr).len()
                &&& r->Ok_0.stale == (if addr is Path {
                    Some(opts.stale_socket_policy)
                } else {
                    None
                })
                &&& r->Ok_0.mode == opts.mode
                &&& r->Ok_0.cleanup == (addr is Path)
            },
        },
{
    let sockaddr = match UnixSockAddr::new(addr, "unix bind address") {
        Ok(a) => a,
        Err(e) => return Err(e),
    };
    match addr {
        UnixSocketAddr::Path(_) => Ok(
            BindPlan {
                sockaddr,
                stale: Some(opts.stale_socket_policy),
                mode: opts.mode,
                cleanup: true,
            },
        ),
        UnixSocketAddr::Abstract(_) => {
            let preserve = opts.stale_socket_policy == StaleSocketPolicy::Preserve;
            if !preserve || opts.mode.is_some() {
                return Err(CoreError::sys(EINVAL, "abstract unix bind options"));
            }
            Ok(BindPlan { sockaddr, stale: None, mode: None, cleanup: false })
        },
    }
}

/// What to do about a path before a bind.
#[derive(Debug, Clone, Copy)]
pub enum StaleStep {
    /// Nothing.
    Keep,
    /// Remove it; the operation is named so in errors.
    Unlink(&'static str),
    /// Give up.
    Failed(CoreError),
}

/// What to do about a path, of which `lstat` tells whether it is a socket, or
/// the code with which it failed.
pub open spec fn stale_step(policy: StaleSocketPolicy, lstat: Result<bool, Option<i32>>) -> StaleStep {
    match policy {
        StaleSocketPolicy::Preserve => StaleStep::Keep,
        StaleSocketPolicy::UnlinkAnyPath => StaleStep::Unlink("unlink unix socket path"),
        StaleSocketPolicy::UnlinkSocketOnly => match lstat {
            Err(Some(code)) if code == ENOENT => StaleStep::Keep,
            Err(raw) => StaleStep::Failed(error::io_failure(raw, "lstat unix socket path")),
            Ok(is_socket) => if is_socket {
                StaleStep::Unlink("unlink stale unix socket")
            } else {
                StaleStep::Failed(
                    CoreError::Syscall { code: EEXIST, op: "stale unix socket path" },
                )
            },
        },
    }
}

/// Decide what to do about a path before a bind.
pub fn apply_stale_socket_policy(
    policy: StaleSocketPolicy,
    lstat: Result<bool, Option<i32>>,
) -> (r: StaleStep)
    ensures
        r == stale_step(policy, lstat),
{
    match policy {
        StaleSocketPolicy::Preserve => StaleStep::Keep,
        StaleSocketPolicy::UnlinkAnyPath => StaleStep::Unlink("unlink unix socket path"),
        StaleSocketPolicy::UnlinkSocketOnly => match lstat {
            Err(raw) => {
                if raw == Some(ENOENT) {
                    StaleStep::Keep
                } else {
                    StaleStep::Failed(io_error(raw, "lstat unix socket path"))
                }
            },
            Ok(is_socket) => {
                if is_socket {
                    StaleStep::Unlink("unlink stale unix socket")
                } else {
                    StaleStep::Failed(CoreError::sys(EEXIST, "stale unix socket path"))
                }
            },
        },
    }
}

/// The outcome of a removal. A path that is gone needs none.
pub fn unlink_path(removed: Result<(), Option<i32>>, op: &'static str) -> (r: Result<(), CoreError>)
    ensures
        r == (match removed {
            Err(Some(code)) if code == ENOENT => Ok(()),
            Err(raw) => Err(error::io_failure(raw, op)),
            Ok(()) => Ok(()),
        }),
{
    match removed {
        Ok(()) => Ok(()),
        Err(raw) => {
            if raw == Some(ENOENT) {
                Ok(())
            } else {
                Err(io_error(raw, op))
            }
        },
    }
}

/// The descriptor of a new socket.
pub fn new_unix_stream_socket(reply: SysReply) -> (r: Result<Fd, CoreError>)
    ensures
        r == reactor::opened(reply, "socket(AF_UNIX)"),
{
    Fd::new(reply, "socket(AF_UNIX)")
}

/// Why the mode of an address cannot be changed. `lstat` tells whether the path
/// is a socket, or the code with which it failed.
pub open spec fn chmod_error(addr: UnixSocketAddr<'_>, lstat: Result<bool, Option<i32>>) -> Option<
    CoreError,
> {
    match addr {
        UnixSocketAddr::Abstract(_) => Some(
            CoreError::Syscall { code: EINVAL, op: "chmod abstract socket" },
        ),
        UnixSocketAddr::Path(path) => match lstat {
            Err(raw) => Some(error::io_failure(raw, "lstat unix socket path")),
            Ok(is_socket) => if !is_socket || path@.contains(0) {
                Some(CoreError::Syscall { code: EINVAL, op: "chmod unix socket path" })
            } else {
                None
            },
        },
    }
}

/// The outcome of a change of mode, from the reply of `chmod`, which is made
/// only if the address allows it.
pub open spec fn chmod_result(
    addr: UnixSocketAddr<'_>,
    lstat: Result<bool, Option<i32>>,
    reply: SysReply,
) -> Result<(), CoreError> {
    match chmod_error(addr, lstat) {
        Some(e) => Err(e),
        None => error::ret_outcome(reply, "chmod"),
    }
}

/// Check that the mode of an address can be changed.
pub fn may_chmod(addr: UnixSocketAddr<'_>, lstat: Result<bool, Option<i32>>) -> (r: Result<
    (),
    CoreError,
>)
    ensures
        r == (match chmod_error(addr, lstat) {
            Some(e) => Err::<(), CoreError>(e),
            None => Ok(()),
        }),
{
    match addr {
        UnixSocketAddr::Abstract(_) => Err(CoreError::sys(EINVAL, "chmod abstract socket")),
        UnixSocketAddr::Path(path) => match lstat {
            Err(raw) => Err(io_error(raw, "lstat unix socket path")),
            Ok(is_socket) => {
                if !is_socket || has_zero(path) {
                    Err(CoreError::sys(EINVAL, "chmod unix socket path"))
                } else {
                    Ok(())
                }
            },
        },
    }
}

/// Change the mode of a socket: the outcome, from the reply of `chmod`.
pub fn chmod_unix_socket(
    addr: UnixSocketAddr<'_>,
    lstat: Result<bool, Option<i32>>,
    reply: SysReply,
) -> (r: Result<(), CoreError>)
    ensures
        r == chmod_result(addr, lstat, reply),
{
    match may_chmod(addr, lstat) {
        Err(e) => Err(e),
        Ok(()) => syscall_ret(reply, "chmod"),
    }
}

/// Change the mode of the socket at a path.
pub fn chmod_socket_path(path: &[u8], lstat: Result<bool, Option<i32>>, reply: SysReply) -> (r:
    Result<(), CoreError>)
    ensures
        r == chmod_result(UnixSocketAddr::Path(path), lstat, reply),
{
    chmod_unix_socket(UnixSocketAddr::Path(path), lstat, reply)
}

/// A listening socket.
#[derive(Debug)]
pub struct UnixListenerFd {
    pub fd: Fd,
}

/// The outcome of `accept4`: a connection, or none where none is waiting.
pub open spec fn accepted(reply: SysReply) -> Attempt<Result<Option<Fd>, CoreError>> {
    if reply.ret >= 0 {
        match reactor::opened(reply, "accept4") {
            Ok(fd) => Attempt::Done(Ok(Some(fd))),
            Err(e) => Attempt::Done(Err(e)),
        }
    } else if reply.errno == EINTR {
        Attempt::Retry
    } else if reply.errno == EAGAIN {
        Attempt::Done(Ok(None))
    } else {
        Attempt::Done(Err(CoreError::Syscall { code: reply.errno, op: "accept4" }))
    }
}

impl UnixListenerFd {
    /// One round of `accept4`.
    pub fn accept(reply: SysReply) -> (r: Attempt<Result<Option<UnixStreamFd>, CoreError>>)
        ensures
            accepted(reply) == match r {
                Attempt::Retry => Attempt::Retry,
                Attempt::Done(Ok(Some(stream))) => Attempt::Done(Ok(Some(stream.fd))),
                Attempt::Done(Ok(None)) => Attempt::Done(Ok(None)),
                Attempt::Done(Err(e)) => Attempt::Done(Err(e)),
            },
    {
        if reply.ret >= 0 {
            return match Fd::new(reply, "accept4") {
                Ok(fd) => Attempt::Done(Ok(Some(UnixStreamFd { fd }))),
                Err(e) => Attempt::Done(Err(e)),
            };
        }
        if reply.errno == EINTR {
            return Attempt::Retry;
        }
        if reply.errno == EAGAIN {
            return Attempt::Done(Ok(None));
        }
        Attempt::Done(Err(CoreError::sys(reply.errno, "accept4")))
    }
}

// ---------------------------------------------------------------------------
// Connecting
// ---------------------------------------------------------------------------

/// A connection.
#[derive(Debug)]
pub struct UnixStreamFd {
    pub fd: Fd,
}

/// A connection that was begun.
#[derive(Debug)]
pub enum UnixConnectResult {
    /// It is there.
    Connected(UnixStreamFd),
    /// It will be there, or have failed, when the socket can be written.
    InProgress(UnixStreamFd),
}

/// The credentials of the other end of a connection.
#[derive(Debug, Clone, Copy, PartialEq, Eq, Structural)]
pub struct PeerCred {
    pub pid: Option<i32>,
    pub uid: u32,
    pub gid: u32,
}

/// What a call of `connect` came to.
#[derive(Debug, Clone, Copy, PartialEq, Eq, Structural)]
pub enum ConnectState {
    Connected,
    InProgress,
}

/// The outcome of `connect`.
pub open spec fn connected(reply: SysReply) -> Attempt<Result<ConnectState, CoreError>> {
    if reply.ret == 0 {
        Attempt::Done(Ok(ConnectState::Connected))
    } else if reply.errno == EINTR {
        Attempt::Retry
    } else if reply.errno == EINPROGRESS || reply.errno == EALREADY {
        Attempt::Done(Ok(ConnectState::InProgress))
    } else if reply.errno == EISCONN {
        Attempt::Done(Ok(ConnectState::Connected))
    } else {
        Attempt::Done(Err(CoreError::Syscall { code: reply.errno, op: "connect" }))
    }
}

/// Encode the address to connect to.
pub fn connect_unix_stream(addr: UnixSocketAddr<'_>) -> (r: Result<UnixSockAddr, CoreError>)
    ensures
        match addr_error(addr, "unix connect address") {
            Some(e) => r == Err::<UnixSockAddr, CoreError>(e),
            None => r is Ok && r->Ok_0.sun_path@ == addr_path(addr) && r->Ok_0.len
                == SUN_PATH_OFFSET + addr_path(addr).len(),
        },
{
    UnixSockAddr::new(addr, "unix connect address")
}

/// One round of `connect`.
pub fn connect_step(reply: SysReply) -> (r: Attempt<Result<ConnectState, CoreError>>)
    ensures
        r == connected(reply),
{
    if reply.ret == 0 {
        return Attempt::Done(Ok(ConnectState::Connected));
    }
    if reply.errno == EINTR {
        return Attempt::Retry;
    }
    if reply.errno == EINPROGRESS || reply.errno == EALREADY {
        return Attempt::Done(Ok(ConnectState::InProgress));
    }
    if reply.errno == EISCONN {
        return Attempt::Done(Ok(ConnectState::Connected));
    }
    Attempt::Done(Err(CoreError::sys(reply.errno, "connect")))
}

impl UnixStreamFd {
    /// The credentials of the other end, from the reply of `SO_PEERCRED` and what
    /// it filled in.
    pub fn peer_cred(reply: SysReply, pid: i32, uid: u32, gid: u32) -> (r: Result<
        Option<PeerCred>,
        CoreError,
    >)
        ensures
            r == (if reply.ret == -1 {
                Err(CoreError::Syscall { code: reply.errno, op: "getsockopt(SO_PEERCRED)" })
            } else {
                Ok(Some(PeerCred { pid: Some(pid), uid, gid }))
            }),
    {
        syscall_ret(reply, "getsockopt(SO_PEERCRED)")?;
        Ok(Some(PeerCred { pid: Some(pid), uid, gid }))
    }

    /// The pending error of a connection, from the reply of `SO_ERROR` and the
    /// code it filled in.
    pub fn check_connect_error(reply: SysReply, code: i32) -> (r: Result<Option<i32>, CoreError>)
        ensures
            r == pending_error(reply, code),
    {
        syscall_ret(reply, "getsockopt(SO_ERROR)")?;
        if code == 0 {
            Ok(None)
        } else {
            Ok(Some(code))
        }
    }

    /// Finish a connection that was begun.
    pub fn finish_connect(self, reply: SysReply, code: i32) -> (r: Result<Self, CoreError>)
        ensures
            r == (match pending_error(reply, code) {
                Err(e) => Err(e),
                Ok(None) => Ok(self),
                Ok(Some(code)) => Err(CoreError::Syscall { code, op: "connect(SO_ERROR)" }),
            }),
    {
        match Self::check_connect_error(reply, code) {
            Err(e) => Err(e),
            Ok(None) => Ok(self),
            Ok(Some(code)) => Err(CoreError::sys(code, "connect(SO_ERROR)")),
        }
    }
}

/// The pending error of a connection.
pub open spec fn pending_error(reply: SysReply, code: i32) -> Result<Option<i32>, CoreError> {
    if reply.ret == -1 {
        Err(CoreError::Syscall { code: reply.errno, op: "getsockopt(SO_ERROR)" })
    } else if code == 0 {
        Ok(None)
    } else {
        Ok(Some(code))
    }
}

/// Two addresses that can be used and are encoded alike are the same.
pub proof fn law_addresses_differ(
    a: UnixSocketAddr<'_>,
    b: UnixSocketAddr<'_>,
    op: &'static str,
)
    requires
        addr_error(a, op) is None,
        addr_error(b, op) is None,
        addr_path(a) == addr_path(b),
    ensures
        match (a, b) {
            (UnixSocketAddr::Path(p), UnixSocketAddr::Path(q)) => p@ == q@,
            (UnixSocketAddr::Abstract(m), UnixSocketAddr::Abstract(n)) => m@ == n@,
            _ => false,
        },
{
    match (a, b) {
        (UnixSocketAddr::Path(p), UnixSocketAddr::Path(q)) => {
            assert(p@ =~= addr_path(a).drop_last());
            assert(q@ =~= addr_path(b).drop_last());
        },
        (UnixSocketAddr::Abstract(m), UnixSocketAddr::Abstract(n)) => {
            assert(m@ =~= addr_path(a).skip(1));
            assert(n@ =~= addr_path(b).skip(1));
        },
        (UnixSocketAddr::Path(p), UnixSocketAddr::Abstract(n)) => {
            assert(addr_path(a)[0] == p@[0]);
            assert(addr_path(b)[0] == 0);
            assert(p@.contains(p@[0]));
        },
        (UnixSocketAddr::Abstract(m), UnixSocketAddr::Path(q)) => {
            assert(addr_path(b)[0] == q@[0]);
            assert(addr_path(a)[0] == 0);
            assert(q@.contains(q@[0]));
        },
    }
}

/// Which addresses can be used: a path of 1 to 107 bytes without a NUL, and a name
/// of 1 to 107 bytes.
pub proof fn law_addresses(p: &[u8], op: &'static str)
    ensures
        addr_error(UnixSocketAddr::Path(p), op) is None <==> 1 <= p@.len() <= 107 && !p@.contains(
            0u8,
        ),
        addr_error(UnixSocketAddr::Abstract(p), op) is None <==> 1 <= p@.len() <= 107,
        p@.len() == 0 ==> addr_error(UnixSocketAddr::Path(p), op) == Some(
            CoreError::Syscall { code: 22, op },
        ) && addr_error(UnixSocketAddr::Abstract(p), op) == Some(
            CoreError::Syscall { code: 22, op },
        ),
        p@.contains(0u8) ==> addr_error(UnixSocketAddr::Path(p), op) == Some(
            CoreError::Syscall { code: 22, op },
        ),
        p@.len() >= 108 && !p@.contains(0u8) ==> addr_error(UnixSocketAddr::Path(p), op) == Some(
            CoreError::Syscall { code: 36, op },
        ),
        p@.len() >= 108 ==> addr_error(UnixSocketAddr::Abstract(p), op) == Some(
            CoreError::Syscall { code: 36, op },
        ),
        addr_path(UnixSocketAddr::Path(p)) == p@ + seq![0u8],
        addr_path(UnixSocketAddr::Abstract(p)) == seq![0u8] + p@,
{
    assert(p@.push(0u8) =~= p@ + seq![0u8]);
}

/// Options for what is on the file system make no sense for a name; with none, a
/// name can be bound exactly if it can be used, and so can a path in any case.
pub proof fn law_binds(p: &[u8], opts: UnixSocketBindOptions)
    ensures
        bind_error(UnixSocketAddr::Path(p), opts) is None <==> 1 <= p@.len() <= 107
            && !p@.contains(0u8),
        bind_error(UnixSocketAddr::Abstract(p), opts) is None <==> 1 <= p@.len() <= 107
            && opts.stale_socket_policy == StaleSocketPolicy::Preserve && opts.mode is None,
        1 <= p@.len() <= 107 && (opts.mode is Some || opts.stale_socket_policy
            != StaleSocketPolicy::Preserve) ==> bind_error(UnixSocketAddr::Abstract(p), opts)
            == Some(CoreError::Syscall { code: 22, op: "abstract unix bind options" }),
{
    law_addresses(p, "unix bind address");
}

/// What is done about a path that is there: nothing at all; its removal, whatever
/// it is; or its removal if it is a socket and a refusal if it is not.
pub proof fn law_stale_paths(lstat: Result<bool, Option<i32>>, code: i32)
    ensures
        stale_step(StaleSocketPolicy::Preserve, lstat) is Keep,
        stale_step(StaleSocketPolicy::UnlinkAnyPath, lstat) is Unlink,
        stale_step(StaleSocketPolicy::UnlinkSocketOnly, Ok(true)) is Unlink,
        stale_step(StaleSocketPolicy::UnlinkSocketOnly, Ok(false)) == StaleStep::Failed(
            CoreError::Syscall { code: 17, op: "stale unix socket path" },
        ),
        stale_step(StaleSocketPolicy::UnlinkSocketOnly, Err(Some(2i32))) is Keep,
        code != 2 ==> stale_step(StaleSocketPolicy::UnlinkSocketOnly, Err(Some(code)))
            == StaleStep::Failed(CoreError::Syscall { code, op: "lstat unix socket path" }),
        stale_step(StaleSocketPolicy::UnlinkSocketOnly, Err(None)) == StaleStep::Failed(
            CoreError::Syscall { code: 5, op: "lstat unix socket path" },
        ),
{
}

/// Only a path that is a socket has its mode changed; the call then decides.
pub proof fn law_modes_of_sockets(p: &[u8], reply: SysReply, lstat: Result<bool, Option<i32>>)
    ensures
        chmod_result(UnixSocketAddr::Abstract(p), lstat, reply) == Err::<(), CoreError>(
            CoreError::Syscall { code: 22, op: "chmod abstract socket" },
        ),
        chmod_result(UnixSocketAddr::Path(p), Ok(false), reply) == Err::<(), CoreError>(
            CoreError::Syscall { code: 22, op: "chmod unix socket path" },
        ),
        p@.contains(0u8) ==> chmod_result(UnixSocketAddr::Path(p), lstat, reply) is Err,
        !p@.contains(0u8) ==> (chmod_result(UnixSocketAddr::Path(p), Ok(true), reply) is Ok
            <==> reply.ret != -1),
        !p@.contains(0u8) && reply.ret == -1 ==> chmod_result(
            UnixSocketAddr::Path(p),
            Ok(true),
            reply,
        ) == Err::<(), CoreError>(CoreError::Syscall { code: reply.errno, op: "chmod" }),
{
}

/// An accept gives a connection or none for now, is made again after an interrupt,
/// or fails with the code that was left.
pub proof fn law_accepts(reply: SysReply)
    ensures
        0 <= reply.ret <= 0x7fff_ffff ==> (accepted(reply) matches Attempt::Done(Ok(Some(fd)))
            && fd.0 == reply.ret),
        reply.ret < 0 && reply.errno == 4 ==> accepted(reply) is Retry,
        reply.ret < 0 && reply.errno == 11 ==> (accepted(reply) matches Attempt::Done(Ok(None))),
        reply.ret < 0 && reply.errno != 4 && reply.errno != 11 ==> (accepted(
            reply,
        ) matches Attempt::Done(Err(e)) && e == (CoreError::Syscall {
            code: reply.errno,
            op: "accept4",
        })),
{
    reactor::law_opening(reply, "accept4");
}

/// A connection is there, is on its way, or failed. A socket that is connected
/// already counts as connected.
pub proof fn law_connects(reply: SysReply)
    ensures
        reply.ret == 0 || (reply.errno == 106) ==> (connected(reply) matches Attempt::Done(
            Ok(state),
        ) && state is Connected),
        reply.ret != 0 && reply.errno == 4 ==> connected(reply) is Retry,
        reply.ret != 0 && (reply.errno == 115 || reply.errno == 114) ==> (connected(
            reply,
        ) matches Attempt::Done(Ok(state)) && state is InProgress),
        reply.ret != 0 && reply.errno != 4 && reply.errno != 106 && reply.errno != 114
            && reply.errno != 115 ==> (connected(reply) matches Attempt::Done(Err(e)) && e == (
        CoreError::Syscall { code: reply.errno, op: "connect" })),
{
}

/// The pending error of a socket is told with its code, and zero is none.
pub proof fn law_pending_errors(reply: SysReply, code: i32)
    ensures
        reply.ret == -1 ==> pending_error(reply, code) is Err && pending_error(
            reply,
            code,
        )->Err_0->code == reply.errno,
        reply.ret != -1 ==> pending_error(reply, code) is Ok,
        reply.ret != -1 && code != 0 ==> pending_error(reply, code)->Ok_0 == Some(code),
        reply.ret != -1 && code == 0 ==> pending_error(reply, code)->Ok_0 is None,
{
}

} // verus!
