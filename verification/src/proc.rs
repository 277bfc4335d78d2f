//! Process information from procfs.

use vstd::prelude::*;
use vstd::slice::slice_subrange;

use crate::error;
use crate::error::{io_error, CoreError, EINVAL};
use crate::path;
use crate::path::join_path;
use crate::text;
use crate::text::{
    chars_of, from_utf8_lossy, lines_of, parse_u32, push_int, starts_with_text, string_of, trimmed,
    words_of,
};

verus! {

/// What `/proc/<pid>/status` tells of a process.
#[derive(Debug, Clone, PartialEq, Eq)]
pub struct ProcStatus {
    /// The name of its command.
    pub name: String,
    /// Its real UID.
    pub uid: u32,
}

/// The path of a file of a process.
pub open spec fn proc_path(root: Seq<char>, pid: i32, file: Seq<char>) -> Seq<char> {
    path::join(path::join(root, text::dec_int(pid as int)), file)
}

/// The path of a file of a process, below the mount point of procfs.
pub fn proc_file(root: &str, pid: i32, file: &str) -> (r: String)
    ensures
        r@ == proc_path(root@, pid, file@),
{
    let mut digits: Vec<char> = Vec::new();
    push_int(&mut digits, pid);
    assert(digits@ =~= text::dec_int(pid as int));
    let name = string_of(digits.as_slice());
    let dir = join_path(root, name.as_str());
    join_path(dir.as_str(), file)
}

// ---------------------------------------------------------------------------
// Status
// ---------------------------------------------------------------------------

/// What the lines tell: the name and the UID. Each line for one of them replaces
/// what an earlier one told, until both are known.
pub open spec fn scanned(ls: Seq<Seq<char>>) -> (Option<Seq<char>>, Option<u32>)
    decreases ls.len(),
{
    if ls.len() == 0 {
        (None, None)
    } else {
        let (name, uid) = scanned(ls.drop_last());
        let line = ls.last();
        if name is Some && uid is Some {
            (name, uid)
        } else if "Name:"@.is_prefix_of(line) {
            (Some(text::trim(line.skip(5))), uid)
        } else if "Uid:"@.is_prefix_of(line) {
            (name, first_uid(line.skip(4)))
        } else {
            (name, uid)
        }
    }
}

/// The number that the first word is.
pub open spec fn first_uid(s: Seq<char>) -> Option<u32> {
    let ws = text::words(s);
    if ws.len() == 0 {
        None
    } else {
        match text::natural_upto(ws[0], u32::MAX as nat) {
            Some(v) => Some(v as u32),
            None => None,
        }
    }
}

fn parse_first_uid(s: &[char]) -> (r: Option<u32>)
    ensures
        r == first_uid(s@),
{
    let ws = words_of(s);
    let ghost words = text::rows(ws@);
    if ws.len() == 0 {
        return None;
    }
    assert(words[0] == ws@[0]@);
    parse_u32(ws[0])
}

/// Read the content of `/proc/<pid>/status`.
pub fn parse_proc_status(content: &str) -> (r: Result<ProcStatus, CoreError>)
    ensures
        match scanned(text::lines(content@)) {
            (Some(name), Some(uid)) => r is Ok && r->Ok_0.name@ == name && r->Ok_0.uid == uid,
            _ => r == Err::<ProcStatus, CoreError>(
                CoreError::Syscall { code: EINVAL, op: "parse_proc_status" },
            ),
        },
{
    let chars = chars_of(content);
    let ls = lines_of(chars.as_slice());
    let ghost rows = text::rows(ls@);
    let mut name: Option<String> = None;
    let mut uid: Option<u32> = None;
    let mut i: usize = 0;
    proof {
        reveal_strlit("Name:");
        reveal_strlit("Uid:");
    }
    while i < ls.len()
        invariant
            i <= ls.len(),
            rows == text::rows(ls@),
            "Name:"@.len() == 5,
            "Uid:"@.len() == 4,
            (text::opt_text(name), uid) == scanned(rows.take(i as int)),
        decreases ls.len() - i,
    {
        proof {
            assert(rows.take(i + 1).drop_last() =~= rows.take(i as int));
            assert(rows.take(i + 1).last() == ls@[i as int]@);
        }
        let line = ls[i];
        if name.is_none() || uid.is_none() {
            if starts_with_text(line, "Name:") {
                let rest = slice_subrange(line, 5, line.len());
                assert(rest@ =~= line@.skip(5));
                name = Some(string_of(trimmed(rest)));
            } else if starts_with_text(line, "Uid:") {
                let rest = slice_subrange(line, 4, line.len());
                assert(rest@ =~= line@.skip(4));
                uid = parse_first_uid(rest);
            }
        }
        i += 1;
    }
    assert(rows.take(rows.len() as int) =~= rows);
    match (name, uid) {
        (Some(name), Some(uid)) => Ok(ProcStatus { name, uid }),
        _ => Err(CoreError::sys(EINVAL, "parse_proc_status")),
    }
}

/// The status of a process, from the content of its file, or the OS code of the
/// attempt to read it.
pub fn read_proc_status(read: Result<&str, Option<i32>>) -> (r: Result<ProcStatus, CoreError>)
    ensures
        match read {
            Ok(content) => match scanned(text::lines(content@)) {
                (Some(name), Some(uid)) => r is Ok && r->Ok_0.name@ == name && r->Ok_0.uid == uid,
                _ => r == Err::<ProcStatus, CoreError>(
                    CoreError::Syscall { code: EINVAL, op: "parse_proc_status" },
                ),
            },
            Err(raw) => r == Err::<ProcStatus, CoreError>(
                error::io_failure(raw, "read_proc_status"),
            ),
        },
{
    match read {
        Ok(content) => parse_proc_status(content),
        Err(raw) => Err(io_error(raw, "read_proc_status")),
    }
}

// ---------------------------------------------------------------------------
// Command line
// ---------------------------------------------------------------------------

/// `s` without the NULs at its end.
pub open spec fn without_end_nuls(s: Seq<char>) -> Seq<char>
    decreases s.len(),
{
    if s.len() > 0 && s.last() == '\0' {
        without_end_nuls(s.drop_last())
    } else {
        s
    }
}

/// `s` with blanks in place of its NULs.
pub open spec fn blanked(s: Seq<char>) -> Seq<char> {
    s.map_values(
        |c: char|
            if c == '\0' {
                ' '
            } else {
                c
            },
    )
}

/// A command line with blanks between its arguments.
pub open spec fn cmdline_text(bytes: Seq<u8>) -> Seq<char> {
    blanked(without_end_nuls(text::lossy(bytes)))
}

/// Put blanks between the arguments of a command line.
pub fn parse_proc_cmdline_bytes(bytes: &[u8]) -> (r: String)
    ensures
        r@ == cmdline_text(bytes@),
{
    let lossy = from_utf8_lossy(bytes);
    let chars = chars_of(lossy.as_str());
    spaced_arguments(chars.as_slice())
}

/// Put blanks between the arguments of a decoded command line.
pub fn spaced_arguments(chars: &[char]) -> (r: String)
    ensures
        r@ == blanked(without_end_nuls(chars@)),
{
    let mut n = chars.len();
    assert(chars@.take(n as int) =~= chars@);
    while n > 0 && chars[n - 1] == '\0'
        invariant
            n <= chars.len(),
            without_end_nuls(chars@) == without_end_nuls(chars@.take(n as int)),
        decreases n,
    {
        assert(chars@.take(n as int).drop_last() =~= chars@.take(n - 1));
        n -= 1;
    }
    let ghost kept = chars@.take(n as int);
    assert(without_end_nuls(kept) == kept);
    let mut out: Vec<char> = Vec::new();
    let mut i: usize = 0;
    while i < n
        invariant
            i <= n <= chars.len(),
            kept == chars@.take(n as int),
            out@ == blanked(kept).take(i as int),
        decreases n - i,
    {
        let c = chars[i];
        out.push(
            if c == '\0' {
                ' '
            } else {
                c
            },
        );
        assert(out@ =~= blanked(kept).take(i + 1));
        i += 1;
    }
    assert(blanked(kept).take(n as int) =~= blanked(kept));
    string_of(out.as_slice())
}

/// The command line of a process, from the content of its file, or the OS code
/// of the attempt to read it.
pub fn read_proc_cmdline(read: Result<&[u8], Option<i32>>) -> (r: Result<String, CoreError>)
    ensures
        match read {
            Ok(bytes) => r is Ok && r->Ok_0@ == cmdline_text(bytes@),
            Err(raw) => r == Err::<String, CoreError>(error::io_failure(raw, "read_proc_cmdline")),
        },
{
    match read {
        Ok(bytes) => Ok(parse_proc_cmdline_bytes(bytes)),
        Err(raw) => Err(io_error(raw, "read_proc_cmdline")),
    }
}

/// A command line without NULs is shown as it is, and no NUL is ever shown.
pub proof fn law_cmdline_has_no_nul(s: Seq<char>)
    ensures
        !blanked(without_end_nuls(s)).contains('\0'),
        !s.contains('\0') ==> blanked(without_end_nuls(s)) == s,
{
    let t = without_end_nuls(s);
    let b = blanked(t);
    assert forall|i: int| 0 <= i < b.len() implies b[i] != '\0' by {}
    if !s.contains('\0') {
        if s.len() > 0 {
            assert(s.contains(s[s.len() - 1]));
        }
        assert(t == s);
        assert forall|i: int| 0 <= i < s.len() implies b[i] == s[i] by {
            assert(s.contains(s[i]));
        }
        assert(b =~= s);
    }
}

/// The clock ticks per second, from what `sysconf` replied, and the OS code it
/// left, if any.
pub fn clock_ticks_per_second(ticks: i64, raw: Option<i32>) -> (r: Result<u64, CoreError>)
    ensures
        r == (if ticks > 0 {
            Ok(ticks as u64)
        } else {
            Err(
                CoreError::Syscall {
                    code: match raw {
                        Some(code) => code,
                        None => EINVAL,
                    },
                    op: "sysconf(_SC_CLK_TCK)",
                },
            )
        }),
{
    if ticks > 0 {
        Ok(ticks as u64)
    } else {
        match raw {
            Some(code) => Err(CoreError::sys(code, "sysconf(_SC_CLK_TCK)")),
            None => Err(CoreError::sys(EINVAL, "sysconf(_SC_CLK_TCK)")),
        }
    }
}

// ---------------------------------------------------------------------------
// Laws
// ---------------------------------------------------------------------------

/// The file of a process stands in the directory that its number names.
pub proof fn law_files_of_processes(root: Seq<char>, pid: i32, file: Seq<char>)
    requires
        root.len() > 0,
        root.last() != '/',
        file.len() > 0,
        file[0] != '/',
    ensures
        proc_path(root, pid, file) == root + "/"@ + text::dec_int(pid as int) + "/"@ + file,
{
    reveal_strlit("/");
    assert("/"@ =~= seq!['/']);
    let n = text::dec_int(pid as int);
    let size = if pid < 0 {
        (-(pid as int)) as nat
    } else {
        pid as nat
    };
    text::lemma_dec_digits(size);
    assert(text::is_digit(text::dec(size)[0]));
    assert(text::is_digit(text::dec(size)[text::dec(size).len() - 1]));
    path::law_join(root, n);
    let dir = root + "/"@ + n;
    assert(dir.last() == n.last());
    path::law_join(dir, file);
}

/// A status tells of the process in the line of its name and in that of its UIDs,
/// of which the first is the real one, wherever the two stand among other lines.
/// Without one of them it tells of none.
pub proof fn law_status(
    ls: Seq<Seq<char>>,
    i: int,
    k: int,
    name: Seq<char>,
    space: Seq<char>,
    uid: u32,
    rest: Seq<char>,
)
    requires
        forall|j: int| 0 <= j < ls.len() && j != i ==> !"Name:"@.is_prefix_of(#[trigger] ls[j]),
        forall|j: int| 0 <= j < ls.len() && j != k ==> !"Uid:"@.is_prefix_of(#[trigger] ls[j]),
        0 <= i < ls.len() ==> ls[i] == "Name:"@ + name,
        0 <= k < ls.len() ==> ls[k] == "Uid:"@ + space + text::dec(uid as nat) + seq!['\t'] + rest,
        text::is_blank(space),
    ensures
        scanned(ls).0 == if 0 <= i < ls.len() {
            Some(text::trim(name))
        } else {
            None
        },
        scanned(ls).1 == if 0 <= k < ls.len() {
            Some(uid)
        } else {
            None
        },
    decreases ls.len(),
{
    reveal_strlit("Name:");
    reveal_strlit("Uid:");
    assert("Name:"@.len() == 5 && "Uid:"@.len() == 4);
    assert("Name:"@[0] == 'N' && "Uid:"@[0] == 'U');
    if ls.len() > 0 {
        let init = ls.drop_last();
        let m = ls.len() - 1;
        let line = ls.last();
        assert(line == ls[m]);
        assert forall|j: int| 0 <= j < init.len() && j != i implies !"Name:"@.is_prefix_of(
            #[trigger] init[j],
        ) by {
            assert(init[j] == ls[j]);
        }
        assert forall|j: int| 0 <= j < init.len() && j != k implies !"Uid:"@.is_prefix_of(
            #[trigger] init[j],
        ) by {
            assert(init[j] == ls[j]);
        }
        law_status(init, i, k, name, space, uid, rest);
        if i == m {
            assert(line == "Name:"@ + name);
            assert("Name:"@.is_prefix_of(line)) by {
                assert(line.take(5) =~= "Name:"@);
            }
            assert(line.skip(5) =~= name);
        }
        if k == m {
            let digits = text::dec(uid as nat);
            let tail = space + digits + seq!['\t'] + rest;
            assert(line =~= "Uid:"@ + tail);
            assert("Uid:"@.is_prefix_of(line)) by {
                assert(line.take(4) =~= "Uid:"@);
            }
            assert(line.skip(4) =~= tail);
            text::lemma_dec_no_space(uid as nat);
            text::law_white_space('\t');
            text::law_words(space, digits, '\t', rest);
            text::law_numbers_are_read(uid as nat, 0, u32::MAX as nat);
            assert(text::zeros(0) + digits =~= digits);
            assert(text::words(tail)[0] == digits);
        }
        if i == m && k == m {
            assert(line[0] == 'N');
        }
    }
}

/// Once the name and the UID are known, no later line changes them. Until then the
/// last line of its sort decides, and a line of UIDs without a number leaves none.
pub proof fn law_status_is_settled(ls: Seq<Seq<char>>, more: Seq<Seq<char>>, rest: Seq<char>)
    ensures
        scanned(ls).0 is Some && scanned(ls).1 is Some ==> scanned(ls + more) == scanned(ls),
        scanned(ls).0 is None || scanned(ls).1 is None ==> {
            &&& scanned(ls.push("Name:"@ + rest)) == (Some(text::trim(rest)), scanned(ls).1)
            &&& text::is_blank(rest) ==> scanned(ls.push("Uid:"@ + rest)) == (
                scanned(ls).0,
                None::<u32>,
            )
        },
    decreases more.len(),
{
    reveal_strlit("Name:");
    reveal_strlit("Uid:");
    let name = "Name:"@ + rest;
    let uid = "Uid:"@ + rest;
    assert("Name:"@[0] == 'N' && "Uid:"@[0] == 'U');
    assert("Name:"@.is_prefix_of(name)) by {
        assert(name.take(5) =~= "Name:"@);
    }
    assert("Uid:"@.is_prefix_of(uid)) by {
        assert(uid.take(4) =~= "Uid:"@);
    }
    assert(uid[0] == 'U');
    assert(name.skip(5) =~= rest && uid.skip(4) =~= rest);
    assert(ls.push(name).drop_last() =~= ls && ls.push(uid).drop_last() =~= ls);
    if text::is_blank(rest) {
        text::law_white_space(' ');
        text::law_words(rest, seq!['0'], ' ', rest);
    }
    if more.len() == 0 {
        assert(ls + more =~= ls);
    } else {
        law_status_is_settled(ls, more.drop_last(), rest);
        assert((ls + more).drop_last() =~= ls + more.drop_last());
    }
}

/// A command line shows the words of a process with a space for each NUL between
/// them, and none for those at its end.
pub proof fn law_command_line(bytes: Seq<u8>, words: Seq<char>, n: nat)
    requires
        vstd::utf8::valid_utf8(bytes),
        vstd::utf8::decode_utf8(bytes) == words + Seq::new(n, |i: int| '\0'),
        words.len() > 0 ==> words.last() != '\0',
    ensures
        cmdline_text(bytes).len() == words.len(),
        forall|i: int|
            0 <= i < words.len() ==> #[trigger] cmdline_text(bytes)[i] == if words[i] == '\0' {
                ' '
            } else {
                words[i]
            },
{
    lemma_end_nuls(words, n);
}

proof fn lemma_end_nuls(words: Seq<char>, n: nat)
    requires
        words.len() > 0 ==> words.last() != '\0',
    ensures
        without_end_nuls(words + Seq::new(n, |i: int| '\0')) == words,
    decreases n,
{
    let nuls = Seq::new(n, |i: int| '\0');
    if n == 0 {
        assert(words + nuls =~= words);
    } else {
        let fewer = Seq::new((n - 1) as nat, |i: int| '\0');
        lemma_end_nuls(words, (n - 1) as nat);
        assert((words + nuls).drop_last() =~= words + fewer);
        assert((words + nuls).last() == '\0');
    }
}

} // verus!
