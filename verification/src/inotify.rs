//! Records of file changes.

use vstd::prelude::*;
use vstd::slice::slice_subrange;

use crate::byte_order;
use crate::byte_order::{read_word, ByteOrder};
use crate::error::{CoreError, EINVAL};

verus! {

/// The changes that are watched for: a file was written to.
pub const MODIFY_MASK: u32 = 0x2;

/// The length of a record without its name.
pub const HEADER_LEN: usize = 16;

/// A change of a watched file.
#[derive(Debug, Clone, PartialEq, Eq)]
pub struct InotifyEvent {
    /// The watch.
    pub wd: i32,
    /// The sort of change.
    pub mask: u32,
    /// The file in a watched directory.
    pub name: Option<Vec<u8>>,
}

/// A change, with the bytes of the name.
#[verifier::ext_equal]
pub struct Change {
    pub wd: i32,
    pub mask: u32,
    pub name: Option<Seq<u8>>,
}

impl View for InotifyEvent {
    type V = Change;

    open spec fn view(&self) -> Change {
        Change {
            wd: self.wd,
            mask: self.mask,
            name: match self.name {
                Some(n) => Some(n@),
                None => None,
            },
        }
    }
}

/// What stands before the first NUL.
pub open spec fn before_nul(s: Seq<u8>) -> Seq<u8>
    decreases s.len(),
{
    if s.len() == 0 || s[0] == 0 {
        seq![]
    } else {
        seq![s[0]] + before_nul(s.drop_first())
    }
}

/// The change that the record at the start of `b` tells of, whose name field is
/// `n` bytes long.
pub open spec fn first_change(order: ByteOrder, b: Seq<u8>, n: int) -> Change {
    Change {
        wd: byte_order::word(order, b, 0) as i32,
        mask: byte_order::word(order, b, 4),
        name: if n == 0 {
            None
        } else {
            Some(before_nul(b.subrange(16, 16 + n)))
        },
    }
}

/// The changes that the records tell of, or nothing if one of them is cut off.
pub open spec fn decoded(order: ByteOrder, b: Seq<u8>) -> Option<Seq<Change>>
    decreases b.len(),
{
    if b.len() == 0 {
        Some(seq![])
    } else if b.len() < 16 || b.len() < 16 + byte_order::word(order, b, 12) {
        None
    } else {
        let n = byte_order::word(order, b, 12) as int;
        match decoded(order, b.skip(16 + n)) {
            Some(rest) => Some(seq![first_change(order, b, n)] + rest),
            None => None,
        }
    }
}

/// The changes of the events.
pub open spec fn changes(v: Seq<InotifyEvent>) -> Seq<Change> {
    v.map_values(|e: InotifyEvent| e@)
}

fn copy_before_nul(s: &[u8]) -> (r: Vec<u8>)
    ensures
        r@ == before_nul(s@),
{
    let mut out: Vec<u8> = Vec::new();
    let mut i: usize = 0;
    assert(s@.skip(0) =~= s@);
    assert(out@ + before_nul(s@) =~= before_nul(s@));
    while i < s.len() && s[i] != 0
        invariant
            i <= s.len(),
            out@ + before_nul(s@.skip(i as int)) == before_nul(s@),
        decreases s.len() - i,
    {
        let ghost rest = s@.skip(i as int);
        assert(rest.drop_first() =~= s@.skip(i + 1));
        let ghost was = out@;
        out.push(s[i]);
        assert(out@ + before_nul(s@.skip(i + 1)) =~= was + (seq![s@[i as int]] + before_nul(
            s@.skip(i + 1),
        )));
        i += 1;
    }
    assert(before_nul(s@.skip(i as int)) =~= Seq::<u8>::empty());
    assert(out@ + Seq::<u8>::empty() =~= out@);
    out
}

/// Read the records of file changes, whose numbers the kernel writes in the order
/// of the machine.
pub fn decode_events(buf: &[u8], order: ByteOrder) -> (r: Result<Vec<InotifyEvent>, CoreError>)
    ensures
        match decoded(order, buf@) {
            Some(cs) => r is Ok && changes(r->Ok_0@) == cs,
            None => r == Err::<Vec<InotifyEvent>, CoreError>(
                CoreError::Syscall { code: EINVAL, op: "decode_events" },
            ),
        },
{
    let mut out: Vec<InotifyEvent> = Vec::new();
    let mut at: usize = 0;
    assert(buf@.skip(0) =~= buf@);
    assert(changes(out@) =~= Seq::<Change>::empty());
    proof {
        if let Some(cs) = decoded(order, buf@) {
            assert(changes(out@) + cs =~= cs);
        }
    }
    while at < buf.len()
        invariant
            at <= buf.len(),
            match decoded(order, buf@.skip(at as int)) {
                Some(rest) => decoded(order, buf@) == Some(changes(out@) + rest),
                None => decoded(order, buf@) is None,
            },
        decreases buf.len() - at,
    {
        let ghost b = buf@.skip(at as int);
        if buf.len() - at < HEADER_LEN {
            return Err(CoreError::sys(EINVAL, "decode_events"));
        }
        let record = slice_subrange(buf, at, buf.len());
        assert(record@ =~= b);
        let n32 = read_word(order, record, 12);
        if n32 as u64 > (record.len() - HEADER_LEN) as u64 {
            return Err(CoreError::sys(EINVAL, "decode_events"));
        }
        let n = n32 as usize;
        let name = if n == 0 {
            None
        } else {
            let field = slice_subrange(record, HEADER_LEN, HEADER_LEN + n);
            assert(field@ =~= b.subrange(16, 16 + n));
            Some(copy_before_nul(field))
        };
        let wd: i32 = #[verifier::truncate] (read_word(order, record, 0) as i32);
        let event = InotifyEvent { wd, mask: read_word(order, record, 4), name };
        let ghost was = changes(out@);
        assert(event@ =~= first_change(order, b, n as int));
        out.push(event);
        proof {
            assert(b.skip(16 + n) =~= buf@.skip(at + 16 + n));
            assert(changes(out@) =~= was.push(event@));
            if let Some(rest) = decoded(order, b.skip(16 + n)) {
                assert(was + (seq![event@] + rest) =~= changes(out@) + rest);
            }
        }
        at = at + HEADER_LEN + n;
    }
    assert(buf@.skip(at as int) =~= Seq::<u8>::empty());
    proof {
        assert(decoded(order, buf@.skip(at as int)) == Some(Seq::<Change>::empty()));
        assert(changes(out@) + Seq::<Change>::empty() =~= changes(out@));
    }
    Ok(out)
}

/// Records are read one by one: a whole record in front of others tells of its
/// change first.
pub proof fn law_records_are_read_in_order(order: ByteOrder, record: Seq<u8>, rest: Seq<u8>)
    requires
        record.len() >= 16,
        record.len() == 16 + byte_order::word(order, record, 12),
        decoded(order, rest) is Some,
    ensures
        decoded(order, record + rest) == Some(
            seq![first_change(order, record, byte_order::word(order, record, 12) as int)] + decoded(
                order,
                rest,
            )->0,
        ),
{
    let b = record + rest;
    let n = byte_order::word(order, record, 12) as int;
    assert(byte_order::word(order, b, 12) == byte_order::word(order, record, 12));
    assert(byte_order::word(order, b, 0) == byte_order::word(order, record, 0));
    assert(byte_order::word(order, b, 4) == byte_order::word(order, record, 4));
    assert(b.skip(16 + n) =~= rest);
    assert(b.subrange(16, 16 + n) =~= record.subrange(16, 16 + n));
}

/// A record tells of the watch and the sort of change in its first two numbers,
/// and of the name in what follows its head, without the NULs that pad it. One
/// without a name tells of none.
pub proof fn law_record(
    order: ByteOrder,
    wd: i32,
    mask: u32,
    cookie: Seq<u8>,
    name: Seq<u8>,
    pad: nat,
    rest: Seq<u8>,
)
    requires
        cookie.len() == 4,
        !name.contains(0u8),
        0 < name.len() + pad <= u32::MAX,
        decoded(order, rest) is Some,
    ensures
        ({
            let nuls = Seq::new(pad, |i: int| 0u8);
            let head = byte_order::word_bytes(order, wd as u32) + byte_order::word_bytes(order, mask)
                + cookie;
            let named = head + byte_order::word_bytes(order, (name.len() + pad) as u32) + name
                + nuls;
            let bare = head + byte_order::word_bytes(order, 0);
            &&& decoded(order, named + rest) == Some(
                seq![Change { wd, mask, name: Some(name) }] + decoded(order, rest)->0,
            )
            &&& decoded(order, bare + rest) == Some(
                seq![Change { wd, mask, name: None }] + decoded(order, rest)->0,
            )
        }),
{
    let nuls = Seq::new(pad, |i: int| 0u8);
    let n: u32 = (name.len() + pad) as u32;
    let head = byte_order::word_bytes(order, wd as u32) + byte_order::word_bytes(order, mask)
        + cookie;
    let named = head + byte_order::word_bytes(order, n) + name + nuls;
    let bare = head + byte_order::word_bytes(order, 0);
    assert(named.take(16) =~= head + byte_order::word_bytes(order, n));
    lemma_head(order, wd, mask, cookie, n, named);
    assert(bare.take(16) =~= bare);
    lemma_head(order, wd, mask, cookie, 0, bare);
    assert(named.subrange(16, 16 + n) =~= name + nuls);
    lemma_before_nul(name, pad);
    law_records_are_read_in_order(order, named, rest);
    law_records_are_read_in_order(order, bare, rest);
}

proof fn lemma_head(
    order: ByteOrder,
    wd: i32,
    mask: u32,
    cookie: Seq<u8>,
    n: u32,
    s: Seq<u8>,
)
    requires
        cookie.len() == 4,
        s.len() >= 16,
        s.take(16) == byte_order::word_bytes(order, wd as u32) + byte_order::word_bytes(order, mask)
            + cookie + byte_order::word_bytes(order, n),
    ensures
        byte_order::word(order, s, 0) as i32 == wd,
        byte_order::word(order, s, 4) == mask,
        byte_order::word(order, s, 12) == n,
{
    let w: u32 = wd as u32;
    assert(s.subrange(0, 4) =~= s.take(16).subrange(0, 4));
    assert(s.subrange(4, 8) =~= s.take(16).subrange(4, 8));
    assert(s.subrange(12, 16) =~= s.take(16).subrange(12, 16));
    assert(s.subrange(0, 4) =~= byte_order::word_bytes(order, w));
    assert(s.subrange(4, 8) =~= byte_order::word_bytes(order, mask));
    assert(s.subrange(12, 16) =~= byte_order::word_bytes(order, n));
    byte_order::law_word_is_read_back(order, w, s, 0);
    byte_order::law_word_is_read_back(order, mask, s, 4);
    byte_order::law_word_is_read_back(order, n, s, 12);
    assert((wd as u32) as i32 == wd) by (bit_vector);
}

proof fn lemma_before_nul(name: Seq<u8>, pad: nat)
    requires
        !name.contains(0u8),
    ensures
        before_nul(name + Seq::new(pad, |i: int| 0u8)) == name,
    decreases name.len(),
{
    let nuls = Seq::new(pad, |i: int| 0u8);
    let s = name + nuls;
    if name.len() == 0 {
        if pad > 0 {
            assert(s[0] == 0);
        }
        assert(before_nul(s) =~= name);
    } else {
        let tail = name.drop_first();
        assert(name.contains(name[0]));
        if tail.contains(0u8) {
            let j = choose|j: int| 0 <= j < tail.len() && tail[j] == 0u8;
            assert(name[j + 1] == 0u8);
        }
        lemma_before_nul(tail, pad);
        assert(s.drop_first() =~= tail + nuls);
        assert(seq![name[0]] + tail =~= name);
    }
}

} // verus!
