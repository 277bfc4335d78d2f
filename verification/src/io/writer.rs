//! Delivery of input to a process.

use vstd::prelude::*;
use vstd::slice::slice_subrange;

use crate::error::{CoreError, EPIPE};

verus! {

/// How a delivery goes on after one write.
#[derive(Debug, Clone, Copy)]
pub enum WriteStep {
    /// Write again.
    More,
    /// Wait until the descriptor can be written.
    Blocked,
    /// Nothing is left to write.
    Finished,
    /// The write failed.
    Failed(CoreError),
}

/// The input of a process and how much of it was delivered.
#[derive(Debug)]
pub struct WriterState {
    /// The input, unless there is nothing left to deliver.
    pub buf: Option<Vec<u8>>,
    pub offset: usize,
}

impl WriterState {
    /// Whether no more was delivered than there is.
    pub open spec fn wf(&self) -> bool {
        self.buf is Some ==> self.offset <= self.buf->0@.len()
    }

    /// What is left to deliver.
    pub open spec fn left(&self) -> Seq<u8> {
        match self.buf {
            Some(b) => b@.skip(self.offset as int),
            None => seq![],
        }
    }

    /// A delivery of `buf` that has not begun.
    pub fn new(buf: Option<Vec<u8>>) -> (r: Self)
        ensures
            r.wf(),
            r.buf == buf,
            r.offset == 0,
            r.left() == match buf {
                Some(b) => b@,
                None => seq![],
            },
    {
        let r = Self { buf, offset: 0 };
        proof {
            if r.buf is Some {
                assert(r.buf->0@.skip(0) =~= r.buf->0@);
            }
        }
        r
    }

    /// What the next write is to offer, or nothing if the delivery is over.
    pub fn pending(&self) -> (r: Option<&[u8]>)
        requires
            self.wf(),
        ensures
            match r {
                Some(bytes) => bytes@ == self.left() && bytes@.len() > 0,
                None => self.left().len() == 0,
            },
    {
        match &self.buf {
            Some(b) => {
                if self.offset < b.len() {
                    let s = slice_subrange(b.as_slice(), self.offset, b.len());
                    assert(s@ =~= self.left());
                    Some(s)
                } else {
                    None
                }
            },
            None => None,
        }
    }

    /// Go on after a write. A reader that is gone ends the delivery; so does a
    /// delivery that has nothing left.
    pub fn write_to_fd(&mut self, wrote: Result<Option<usize>, CoreError>) -> (r: WriteStep)
        requires
            old(self).wf(),
            match wrote {
                Ok(Some(n)) => n <= old(self).left().len(),
                _ => true,
            },
        ensures
            final(self).wf(),
            match wrote {
                Ok(Some(n)) => {
                    &&& final(self).left() == old(self).left().skip(n as int)
                    &&& n == old(self).left().len() ==> r == WriteStep::Finished && final(self).buf is None
                    &&& n < old(self).left().len() ==> r == WriteStep::More
                },
                Ok(None) => *final(self) == *old(self) && r == WriteStep::Blocked,
                Err(e) => if e->code == EPIPE {
                    final(self).buf is None && r == WriteStep::Finished
                } else {
                    *final(self) == *old(self) && r == WriteStep::Failed(e)
                },
            },
    {
        match wrote {
            Ok(Some(n)) => {
                let len = match &self.buf {
                    Some(b) => b.len(),
                    None => 0,
                };
                if self.buf.is_none() {
                    assert(self.left().skip(n as int) =~= Seq::<u8>::empty());
                    return WriteStep::Finished;
                }
                let ghost was = self.left();
                if len - self.offset == n {
                    self.buf = None;
                    assert(was.skip(n as int) =~= Seq::<u8>::empty());
                    WriteStep::Finished
                } else {
                    self.offset = self.offset + n;
                    assert(self.left() =~= was.skip(n as int));
                    WriteStep::More
                }
            },
            Ok(None) => WriteStep::Blocked,
            Err(e) => {
                if e.raw_os_error() == Some(EPIPE) {
                    self.buf = None;
                    WriteStep::Finished
                } else {
                    WriteStep::Failed(e)
                }
            },
        }
    }
}

/// What is left to write is the input without the bytes that were written.
pub proof fn law_rest(w: WriterState)
    requires
        w.wf(),
    ensures
        w.buf is None ==> w.left().len() == 0,
        w.buf is Some ==> w.buf->0@ == w.buf->0@.take(w.offset as int) + w.left(),
        w.buf is Some ==> w.left().len() + w.offset == w.buf->0@.len(),
{
    if w.buf is Some {
        let b = w.buf->0@;
        assert(b =~= b.take(w.offset as int) + b.skip(w.offset as int));
    }
}

} // verus!
