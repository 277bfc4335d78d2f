//! Collection of process output under a limit.

use vstd::prelude::*;

use crate::error::CoreError;

verus! {

/// The most bytes that one read asks for.
pub const READ_CHUNK: usize = 65536;

/// The most bytes that one read asks for where they are thrown away.
pub const DISCARD_CHUNK: usize = 8192;

/// The standard output and error of a process, up to a combined limit.
#[derive(Debug)]
pub struct BufferState {
    pub stdout: Vec<u8>,
    pub stderr: Vec<u8>,
    /// The most bytes that are kept of both.
    pub limit: usize,
    /// Whether bytes were thrown away.
    pub output_limit_exceeded: bool,
    /// Whether standard output was closed on request.
    pub stdout_early_exited: bool,
}

/// How a drain attempt ended.
#[derive(Debug, Clone, Copy, PartialEq, Eq, Structural)]
pub enum ReadState {
    /// The descriptor would block before its end.
    Open,
    /// The descriptor is at its end.
    Eof,
    /// What was read asked for standard output to be closed.
    EarlyExit,
}

/// How a drain attempt goes on after one read.
#[derive(Debug, Clone, Copy)]
pub enum ReadStep {
    /// Read again.
    More,
    /// The attempt is over.
    Ended(ReadState),
    /// The read failed.
    Failed(CoreError),
}

/// What is kept, for contracts.
#[verifier::ext_equal]
pub struct Kept {
    pub stdout: Seq<u8>,
    pub stderr: Seq<u8>,
    pub limit: nat,
    pub exceeded: bool,
    pub early: bool,
}

/// How many bytes there is room for.
pub open spec fn room(k: Kept) -> nat {
    if k.stdout.len() + k.stderr.len() < k.limit {
        (k.limit - k.stdout.len() - k.stderr.len()) as nat
    } else {
        0
    }
}

/// How many bytes the next read asks for.
pub open spec fn asks(k: Kept) -> nat {
    if room(k) == 0 {
        DISCARD_CHUNK as nat
    } else if room(k) < READ_CHUNK {
        room(k)
    } else {
        READ_CHUNK as nat
    }
}

/// What is kept after a read, and how the attempt goes on. `matched` tells
/// whether the bytes ask for standard output to be closed.
pub open spec fn taken(
    k: Kept,
    is_stdout: bool,
    read: Result<Option<Seq<u8>>, CoreError>,
    matched: bool,
) -> (Kept, ReadStep) {
    match read {
        Err(e) => (k, ReadStep::Failed(e)),
        Ok(None) => (k, ReadStep::Ended(ReadState::Open)),
        Ok(Some(bytes)) => if bytes.len() == 0 {
            (k, ReadStep::Ended(ReadState::Eof))
        } else if room(k) == 0 {
            (Kept { exceeded: true, ..k }, ReadStep::More)
        } else if is_stdout {
            let next = Kept { stdout: k.stdout + bytes, ..k };
            if matched {
                (Kept { early: true, ..next }, ReadStep::Ended(ReadState::EarlyExit))
            } else {
                (next, ReadStep::More)
            }
        } else {
            (Kept { stderr: k.stderr + bytes, ..k }, ReadStep::More)
        },
    }
}

/// The bytes that a read gave.
pub open spec fn read_bytes(read: Result<Option<&[u8]>, CoreError>) -> Result<
    Option<Seq<u8>>,
    CoreError,
> {
    match read {
        Ok(Some(b)) => Ok(Some(b@)),
        Ok(None) => Ok(None),
        Err(e) => Err(e),
    }
}

fn append(v: &mut Vec<u8>, bytes: &[u8])
    ensures
        final(v)@ == old(v)@ + bytes@,
{
    let mut i: usize = 0;
    while i < bytes.len()
        invariant
            i <= bytes.len(),
            v@ == old(v)@ + bytes@.take(i as int),
        decreases bytes.len() - i,
    {
        v.push(bytes[i]);
        assert(v@ =~= old(v)@ + bytes@.take(i + 1));
        i += 1;
    }
    assert(bytes@.take(bytes@.len() as int) =~= bytes@);
}

impl View for BufferState {
    type V = Kept;

    open spec fn view(&self) -> Kept {
        Kept {
            stdout: self.stdout@,
            stderr: self.stderr@,
            limit: self.limit as nat,
            exceeded: self.output_limit_exceeded,
            early: self.stdout_early_exited,
        }
    }
}

impl BufferState {
    /// An empty buffer.
    pub fn new(limit: usize) -> (r: Self)
        ensures
            r@ == (Kept {
                stdout: seq![],
                stderr: seq![],
                limit: limit as nat,
                exceeded: false,
                early: false,
            }),
    {
        Self {
            stdout: Vec::new(),
            stderr: Vec::new(),
            limit,
            output_limit_exceeded: false,
            stdout_early_exited: false,
        }
    }

    fn remaining(&self) -> (r: usize)
        ensures
            r == room(self@),
    {
        let left = if self.stdout.len() < self.limit {
            self.limit - self.stdout.len()
        } else {
            0
        };
        if self.stderr.len() < left {
            left - self.stderr.len()
        } else {
            0
        }
    }

    /// How many bytes the next read is to ask for.
    pub fn to_read(&self) -> (r: usize)
        ensures
            r == asks(self@),
            r > 0,
    {
        let remaining = self.remaining();
        if remaining == 0 {
            DISCARD_CHUNK
        } else if remaining < READ_CHUNK {
            remaining
        } else {
            READ_CHUNK
        }
    }

    /// Whether it matters if the bytes that a read gives ask for standard output
    /// to be closed: they are of standard output, and there is room for them.
    pub fn heeds_match(&self, is_stdout: bool) -> (r: bool)
        ensures
            r == (is_stdout && room(self@) > 0),
            !r ==> forall|read: Result<Option<Seq<u8>>, CoreError>| #[trigger]
                taken(self@, is_stdout, read, true) == taken(self@, is_stdout, read, false),
    {
        is_stdout && self.remaining() > 0
    }

    /// Take in what a read of standard output or error gave. Where there is no
    /// room left the bytes are thrown away.
    pub fn read_from_fd(
        &mut self,
        is_stdout: bool,
        read: Result<Option<&[u8]>, CoreError>,
        matched: bool,
    ) -> (r: ReadStep)
        ensures
            (final(self)@, r) == taken(old(self)@, is_stdout, read_bytes(read), matched),
    {
        match read {
            Err(e) => ReadStep::Failed(e),
            Ok(None) => ReadStep::Ended(ReadState::Open),
            Ok(Some(bytes)) => {
                if bytes.len() == 0 {
                    return ReadStep::Ended(ReadState::Eof);
                }
                if self.remaining() == 0 {
                    self.output_limit_exceeded = true;
                    return ReadStep::More;
                }
                if is_stdout {
                    append(&mut self.stdout, bytes);
                    if matched {
                        self.stdout_early_exited = true;
                        return ReadStep::Ended(ReadState::EarlyExit);
                    }
                } else {
                    append(&mut self.stderr, bytes);
                }
                ReadStep::More
            },
        }
    }

    /// Whether bytes were thrown away.
    pub fn output_limit_exceeded(&self) -> (r: bool)
        ensures
            r == self@.exceeded,
    {
        self.output_limit_exceeded
    }

    /// Whether standard output was closed on request.
    pub fn stdout_early_exited(&self) -> (r: bool)
        ensures
            r == self@.early,
    {
        self.stdout_early_exited
    }

    /// The output, whether bytes were thrown away, and whether standard output
    /// was closed on request.
    pub fn into_parts(self) -> (r: (Vec<u8>, Vec<u8>, bool, bool))
        ensures
            r.0@ == self@.stdout,
            r.1@ == self@.stderr,
            r.2 == self@.exceeded,
            r.3 == self@.early,
    {
        (self.stdout, self.stderr, self.output_limit_exceeded, self.stdout_early_exited)
    }
}

// ---------------------------------------------------------------------------
// Laws
// ---------------------------------------------------------------------------

/// Whether no more is kept than the limit allows, and nothing was thrown away
/// before the limit was reached.
pub open spec fn within(k: Kept) -> bool {
    &&& k.stdout.len() + k.stderr.len() <= k.limit
    &&& k.exceeded ==> k.stdout.len() + k.stderr.len() == k.limit
}

/// Reads that give no more than was asked for keep the buffer within its limit.
pub proof fn law_limit_is_kept(
    k: Kept,
    is_stdout: bool,
    read: Result<Option<Seq<u8>>, CoreError>,
    matched: bool,
)
    requires
        within(k),
        match read {
            Ok(Some(bytes)) => bytes.len() <= asks(k),
            _ => true,
        },
    ensures
        within(taken(k, is_stdout, read, matched).0),
        taken(k, is_stdout, read, matched).0.limit == k.limit,
{
}

/// What is kept after the reads of `chunks` from one stream, each as long as
/// the attempt goes on.
pub open spec fn after_chunks(k: Kept, is_stdout: bool, chunks: Seq<Seq<u8>>) -> Kept
    decreases chunks.len(),
{
    if chunks.len() == 0 {
        k
    } else {
        let mid = after_chunks(k, is_stdout, chunks.drop_last());
        taken(mid, is_stdout, Ok(Some(chunks.last())), false).0
    }
}

/// Whether each of `chunks` gives something, and no more than was asked for.
pub open spec fn as_asked(k: Kept, is_stdout: bool, chunks: Seq<Seq<u8>>) -> bool {
    forall|i: int|
        0 <= i < chunks.len() ==> 0 < (#[trigger] chunks[i]).len() <= asks(
            after_chunks(k, is_stdout, chunks.take(i)),
        )
}

/// The chunks one after the other.
pub open spec fn joined(chunks: Seq<Seq<u8>>) -> Seq<u8>
    decreases chunks.len(),
{
    if chunks.len() == 0 {
        seq![]
    } else {
        joined(chunks.drop_last()) + chunks.last()
    }
}

/// What is kept of one stream.
pub open spec fn kept_of(k: Kept, is_stdout: bool) -> Seq<u8> {
    if is_stdout {
        k.stdout
    } else {
        k.stderr
    }
}

/// One more chunk keeps what is kept the beginning of what came.
proof fn lemma_step_keeps_beginning(
    k: Kept,
    mid: Kept,
    is_stdout: bool,
    came: Seq<u8>,
    last: Seq<u8>,
)
    requires
        last.len() > 0,
        kept_of(mid, is_stdout).is_prefix_of(came),
        mid.exceeded <==> k.exceeded || kept_of(mid, is_stdout).len() < came.len(),
        room(mid) > 0 ==> kept_of(mid, is_stdout) == came,
    ensures
        ({
            let after = taken(mid, is_stdout, Ok(Some(last)), false).0;
            &&& kept_of(after, is_stdout).is_prefix_of(came + last)
            &&& after.exceeded <==> k.exceeded || kept_of(after, is_stdout).len() < (came
                + last).len()
            &&& room(after) > 0 ==> kept_of(after, is_stdout) == came + last
        }),
{
    if room(mid) == 0 {
        assert(kept_of(mid, is_stdout).is_prefix_of(came + last));
    }
}

/// What is kept of a stream, output or error, is the beginning of what came, and
/// the other stream stays as it is; bytes were thrown away exactly if they were
/// before, or if what is kept is not all that came.
pub proof fn law_beginning_is_kept(k: Kept, is_stdout: bool, chunks: Seq<Seq<u8>>)
    requires
        as_asked(k, is_stdout, chunks),
    ensures
        ({
            let after = after_chunks(k, is_stdout, chunks);
            let came = kept_of(k, is_stdout) + joined(chunks);
            &&& within(k) ==> within(after)
            &&& kept_of(after, is_stdout).is_prefix_of(came)
            &&& kept_of(after, !is_stdout) == kept_of(k, !is_stdout)
            &&& after.limit == k.limit
            &&& after.early == k.early
            &&& after.exceeded <==> k.exceeded || kept_of(after, is_stdout).len() < came.len()
            &&& room(after) > 0 ==> kept_of(after, is_stdout) == came
        }),
    decreases chunks.len(),
{
    let start = kept_of(k, is_stdout);
    if chunks.len() > 0 {
        let front = chunks.drop_last();
        let mid = after_chunks(k, is_stdout, front);
        assert(chunks.take(chunks.len() - 1) =~= front);
        assert forall|i: int| 0 <= i < front.len() implies 0 < (#[trigger] front[i]).len() <= asks(
            after_chunks(k, is_stdout, front.take(i)),
        ) by {
            assert(front[i] == chunks[i]);
            assert(front.take(i) =~= chunks.take(i));
        }
        law_beginning_is_kept(k, is_stdout, front);
        let last = chunks[chunks.len() - 1];
        assert(0 < last.len() <= asks(mid));
        lemma_step_keeps_beginning(k, mid, is_stdout, start + joined(front), last);
        assert(start + joined(chunks) =~= (start + joined(front)) + last);
    } else {
        assert(start + joined(chunks) =~= start);
    }
}

/// What a read comes to. Bytes are kept while there is room for any, of output and
/// error together, and thrown away after that; an empty read is the end, and one
/// that would block is the end for now. Output that asks for it ends the attempt
/// at once, with the bytes kept.
pub proof fn law_reads(k: Kept, is_stdout: bool, bytes: Seq<u8>, matched: bool, e: CoreError)
    requires
        bytes.len() > 0,
    ensures
        taken(k, is_stdout, Err(e), matched) == (k, ReadStep::Failed(e)),
        taken(k, is_stdout, Ok(None), matched) == (k, ReadStep::Ended(ReadState::Open)),
        taken(k, is_stdout, Ok(Some(Seq::<u8>::empty())), matched) == (
            k,
            ReadStep::Ended(ReadState::Eof),
        ),
        k.stdout.len() + k.stderr.len() >= k.limit ==> taken(k, is_stdout, Ok(Some(bytes)), matched)
            == (Kept { exceeded: true, ..k }, ReadStep::More),
        k.stdout.len() + k.stderr.len() < k.limit ==> {
            &&& taken(k, true, Ok(Some(bytes)), false) == (
                Kept { stdout: k.stdout + bytes, ..k },
                ReadStep::More,
            )
            &&& taken(k, true, Ok(Some(bytes)), true) == (
                Kept { stdout: k.stdout + bytes, early: true, ..k },
                ReadStep::Ended(ReadState::EarlyExit),
            )
            &&& taken(k, false, Ok(Some(bytes)), matched) == (
                Kept { stderr: k.stderr + bytes, ..k },
                ReadStep::More,
            )
        },
{
}

/// A read never asks for more than there is room for, while there is any, and
/// always for something.
pub proof fn law_reads_fit(k: Kept)
    ensures
        asks(k) > 0,
        k.stdout.len() + k.stderr.len() < k.limit ==> asks(k) + k.stdout.len() + k.stderr.len()
            <= k.limit,
        k.stdout.len() + k.stderr.len() + 65536 <= k.limit ==> asks(k) == 65536,
        k.stdout.len() + k.stderr.len() >= k.limit ==> asks(k) == 8192,
{
}

} // verus!
