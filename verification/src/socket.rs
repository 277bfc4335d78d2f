//! The protocol of the daemon: requests and replies are lines of text.

use vstd::prelude::*;

use crate::error::CoreError;
use crate::text;
use crate::text::{chars_of, from_utf8, is_text, push_dec, push_text, string_of, trimmed};
use crate::unix_socket::PeerCred;

verus! {

/// The name of the abstract socket on which changes of the foreground are told.
pub const FG_SOCKET: &'static str = "coreshift";

/// The name of the socket of the watchdog that subscribes.
pub const WD_CONSUMER: &'static str = "coreshift_wd_consumer";

/// The name of the socket of the preloader that subscribes.
pub const PM_CONSUMER: &'static str = "coreshift_pm_consumer";

/// The most bytes that are read of a request.
pub const REQUEST_LEN: usize = 64;

/// What a client asks for.
#[derive(Debug, Clone, Copy, PartialEq, Eq, Structural)]
pub enum Command {
    /// The foreground package and the size of the cache.
    Status,
    /// The foreground package now and after each change.
    Watch,
    /// Something else.
    Unknown,
}

/// The command that a text is.
pub open spec fn command_named(name: Seq<char>) -> Command {
    if name == "status"@ {
        Command::Status
    } else if name == "watch"@ {
        Command::Watch
    } else {
        Command::Unknown
    }
}

/// The command in a request.
pub open spec fn requested(read: Result<Option<&[u8]>, CoreError>) -> Command {
    match read {
        Ok(Some(bytes)) => if vstd::utf8::valid_utf8(bytes@) {
            command_named(text::trim(vstd::utf8::decode_utf8(bytes@)))
        } else {
            Command::Unknown
        },
        _ => Command::Unknown,
    }
}

/// The caller's UID, zero where it cannot be told.
pub open spec fn caller(peer: Result<Option<PeerCred>, CoreError>) -> u32 {
    match peer {
        Ok(Some(cred)) => cred.uid,
        _ => 0,
    }
}

/// The command of a request and the UID of its caller, which the kernel tells,
/// not the caller.
pub fn parse_command(
    peer: Result<Option<PeerCred>, CoreError>,
    read: Result<Option<&[u8]>, CoreError>,
) -> (r: (Command, u32))
    ensures
        r.0 == requested(read),
        r.1 == caller(peer),
{
    let uid = match peer {
        Ok(Some(cred)) => cred.uid,
        _ => 0,
    };
    let command = match read {
        Ok(Some(bytes)) => match from_utf8(bytes) {
            Some(request) => {
                let chars = chars_of(request);
                let name = trimmed(chars.as_slice());
                if is_text(name, "status") {
                    Command::Status
                } else if is_text(name, "watch") {
                    Command::Watch
                } else {
                    Command::Unknown
                }
            },
            None => Command::Unknown,
        },
        _ => Command::Unknown,
    };
    (command, uid)
}

/// The reply to a status request.
pub open spec fn status_text(package: Option<Seq<char>>, entries: nat) -> Seq<char> {
    match package {
        Some(p) => "foreground: "@ + p + "\ncache_entries: "@ + text::dec(entries) + "\n"@,
        None => "foreground: unknown\ncache_entries: 0\n"@,
    }
}

/// The line that tells a watcher of a package.
pub open spec fn watch_text(package: Seq<char>) -> Seq<char> {
    package.push('\n')
}

/// The reply to a request that is no command.
pub const UNKNOWN_REPLY: &'static str = "unknown command\n";

/// The reply to a status request.
pub fn status_reply(package: Option<&str>, entries: usize) -> (r: String)
    ensures
        r@ == status_text(text::opt_str(package), entries as nat),
{
    let mut out: Vec<char> = Vec::new();
    match package {
        Some(p) => {
            push_text(&mut out, "foreground: ");
            push_text(&mut out, p);
            push_text(&mut out, "\ncache_entries: ");
            push_dec(&mut out, entries as u128);
            push_text(&mut out, "\n");
        },
        None => {
            push_text(&mut out, "foreground: unknown\ncache_entries: 0\n");
        },
    }
    assert(out@ =~= status_text(text::opt_str(package), entries as nat));
    string_of(out.as_slice())
}

/// The line that tells a watcher of a package.
pub fn watch_line(package: &str) -> (r: String)
    ensures
        r@ == watch_text(package@),
{
    let mut out = chars_of(package);
    out.push('\n');
    string_of(out.as_slice())
}

// ---------------------------------------------------------------------------
// Laws
// ---------------------------------------------------------------------------

/// A request is its command with white space around it; any other text is no
/// command, nor is what is not text or could not be read.
pub proof fn law_requests(bytes: &[u8], before: Seq<char>, name: Seq<char>, after: Seq<char>, e: CoreError)
    requires
        vstd::utf8::valid_utf8(bytes@),
        vstd::utf8::decode_utf8(bytes@) == before + name + after,
        text::is_blank(before),
        text::is_blank(after),
        name.len() > 0 ==> !text::is_space(name.first()) && !text::is_space(name.last()),
    ensures
        name == "status"@ ==> requested(Ok(Some(bytes))) == Command::Status,
        name == "watch"@ ==> requested(Ok(Some(bytes))) == Command::Watch,
        name != "status"@ && name != "watch"@ ==> requested(Ok(Some(bytes))) == Command::Unknown,
        requested(Ok(None)) == Command::Unknown,
        requested(Err(e)) == Command::Unknown,
{
    text::law_trim(before, name, after);
    reveal_strlit("status");
    reveal_strlit("watch");
    assert("status"@.len() == 6 && "watch"@.len() == 5);
}

/// Bytes that are not text are no command.
pub proof fn law_other_bytes(bytes: &[u8])
    requires
        !vstd::utf8::valid_utf8(bytes@),
    ensures
        requested(Ok(Some(bytes))) == Command::Unknown,
{
}

/// The caller is who the kernel says, and the superuser where it says nothing.
pub proof fn law_caller(cred: PeerCred, e: CoreError)
    ensures
        caller(Ok(Some(cred))) == cred.uid,
        caller(Ok(None)) == 0,
        caller(Err(e)) == 0,
{
}

/// A status is two lines: the package and the number of packages known. A watcher
/// is told the package on a line of its own.
pub proof fn law_replies(package: Seq<char>, entries: nat)
    requires
        !package.contains('\n'),
        package.len() > 0 && package.last() != '\r',
    ensures
        text::lines(status_text(Some(package), entries)) == seq![
            "foreground: "@ + package,
            "cache_entries: "@ + text::dec(entries),
        ],
        status_text(Some(package), entries).last() == '\n',
        text::lines(watch_text(package)) == seq![package],
        watch_text(package).last() == '\n',
        watch_text(package).len() == package.len() + 1,
{
    reveal_strlit("foreground: ");
    reveal_strlit("\ncache_entries: ");
    reveal_strlit("cache_entries: ");
    reveal_strlit("\n");
    let none = Seq::<char>::empty();
    let a = "foreground: "@ + package;
    let b = "cache_entries: "@ + text::dec(entries);
    text::lemma_dec_no_space(entries);
    assert(!a.contains('\n')) by {
        if a.contains('\n') {
            let i = choose|i: int| 0 <= i < a.len() && a[i] == '\n';
            assert(i >= 12);
            assert(a[i] == package[i - 12]);
            assert(package.contains(package[i - 12]));
        }
    }
    assert(!b.contains('\n')) by {
        if b.contains('\n') {
            let i = choose|i: int| 0 <= i < b.len() && b[i] == '\n';
            assert(i >= 15);
            assert(b[i] == text::dec(entries)[i - 15]);
        }
    }
    assert(a.last() == package.last());
    assert(b.last() == text::dec(entries)[text::dec(entries).len() - 1]);
    assert(!text::is_space(b.last()));
    let tail = b + seq!['\n'] + none;
    assert(status_text(Some(package), entries) =~= a + seq!['\n'] + tail);
    text::law_lines(a, tail);
    text::law_lines(b, none);
    assert(text::lines(status_text(Some(package), entries)) =~= seq![a, b]);
    assert(watch_text(package) =~= package + seq!['\n'] + none);
    text::law_lines(package, none);
    assert(text::lines(watch_text(package)) =~= seq![package]);
}

/// Where the foreground is unknown, so is the size of the cache told as none.
pub proof fn law_unknown_foreground(entries: nat)
    ensures
        text::lines(status_text(None, entries)) == seq!["foreground: unknown"@, "cache_entries: 0"@],
        status_text(None, entries).last() == '\n',
{
    reveal_strlit("foreground: unknown\ncache_entries: 0\n");
    reveal_strlit("foreground: unknown");
    reveal_strlit("cache_entries: 0");
    let parts = seq!["foreground: unknown"@, "cache_entries: 0"@];
    let none = Seq::<Seq<char>>::empty();
    text::law_unlines(none, parts[0]);
    text::law_unlines(none.push(parts[0]), parts[1]);
    assert(none.push(parts[0]).push(parts[1]) =~= parts);
    assert(status_text(None, entries) =~= text::unlines(parts) + Seq::<char>::empty());
    assert forall|i: int| 0 <= i < parts.len() implies text::plain_line(#[trigger] parts[i]) by {}
    text::lemma_lines_unlines(parts, seq![]);
    assert(parts + text::lines(Seq::<char>::empty()) =~= parts);
}

} // verus!
