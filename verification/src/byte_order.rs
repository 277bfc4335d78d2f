//! The order of the bytes of a number in memory.

use vstd::prelude::*;

verus! {

/// Which byte of a number comes first.
#[derive(Debug, Clone, Copy, PartialEq, Eq, Structural)]
pub enum ByteOrder {
    /// The least one.
    Little,
    /// The greatest one.
    Big,
}

/// `u16::to_be`: on a machine whose numbers have their greatest byte first the
/// number itself, on another the number with its two bytes swapped. Which of the
/// two the machine is stays unsaid.
pub assume_specification[ u16::to_be ](x: u16) -> (r: u16)
    ensures
        r == x || r == 256 * (x % 256) + x / 256,
;

impl ByteOrder {
    /// The order of the machine: `Big` where the number 1 needs no change to have
    /// its greatest byte first.
    pub fn native() -> (r: Self)
        ensures
            exists|n: u16| #[trigger]
                call_ensures(u16::to_be, (1u16,), n) && (n == 1 || n == 256) && r == (if n == 1 {
                    ByteOrder::Big
                } else {
                    ByteOrder::Little
                }),
    {
        let n: u16 = u16::to_be(1u16);
        if n == 1 {
            ByteOrder::Big
        } else {
            ByteOrder::Little
        }
    }
}

// ---------------------------------------------------------------------------
// Four bytes
// ---------------------------------------------------------------------------

/// The number in four bytes, the least of them first.
pub open spec fn word_of(a: u8, b: u8, c: u8, d: u8) -> u32 {
    (a as u32) | ((b as u32) << 8u32) | ((c as u32) << 16u32) | ((d as u32) << 24u32)
}

/// The number in the four bytes of `s` at `at`.
pub open spec fn word(order: ByteOrder, s: Seq<u8>, at: int) -> u32 {
    match order {
        ByteOrder::Little => word_of(s[at], s[at + 1], s[at + 2], s[at + 3]),
        ByteOrder::Big => word_of(s[at + 3], s[at + 2], s[at + 1], s[at]),
    }
}

/// The byte of a number that stands `shift` bits above its least one.
pub open spec fn byte_at(value: u32, shift: u32) -> u8 {
    ((value >> shift) & 0xff) as u8
}

/// The four bytes of a number.
pub open spec fn word_bytes(order: ByteOrder, value: u32) -> Seq<u8> {
    match order {
        ByteOrder::Little => seq![
            byte_at(value, 0),
            byte_at(value, 8),
            byte_at(value, 16),
            byte_at(value, 24),
        ],
        ByteOrder::Big => seq![
            byte_at(value, 24),
            byte_at(value, 16),
            byte_at(value, 8),
            byte_at(value, 0),
        ],
    }
}

/// Read the number in the four bytes of `s` at `at`.
pub fn read_word(order: ByteOrder, s: &[u8], at: usize) -> (r: u32)
    requires
        at + 4 <= s@.len(),
    ensures
        r == word(order, s@, at as int),
{
    let len: usize = s.len();
    assert(at + 4 <= len);
    let (a, b, c, d) = match order {
        ByteOrder::Little => (s[at], s[at + 1], s[at + 2], s[at + 3]),
        ByteOrder::Big => (s[at + 3], s[at + 2], s[at + 1], s[at]),
    };
    (a as u32) | ((b as u32) << 8u32) | ((c as u32) << 16u32) | ((d as u32) << 24u32)
}

/// Append the four bytes of a number.
pub fn push_word(out: &mut Vec<u8>, order: ByteOrder, value: u32)
    ensures
        final(out)@ == old(out)@ + word_bytes(order, value),
{
    let a: u8 = #[verifier::truncate] (((value >> 0u32) & 0xff) as u8);
    let b: u8 = #[verifier::truncate] (((value >> 8u32) & 0xff) as u8);
    let c: u8 = #[verifier::truncate] (((value >> 16u32) & 0xff) as u8);
    let d: u8 = #[verifier::truncate] (((value >> 24u32) & 0xff) as u8);
    match order {
        ByteOrder::Little => {
            out.push(a);
            out.push(b);
            out.push(c);
            out.push(d);
        },
        ByteOrder::Big => {
            out.push(d);
            out.push(c);
            out.push(b);
            out.push(a);
        },
    }
    assert(out@ =~= old(out)@ + word_bytes(order, value));
}

// ---------------------------------------------------------------------------
// Eight bytes
// ---------------------------------------------------------------------------

/// The number in the first eight bytes of `s`.
pub open spec fn long(order: ByteOrder, s: Seq<u8>) -> u64 {
    let (low, high) = match order {
        ByteOrder::Little => (word(order, s, 0), word(order, s, 4)),
        ByteOrder::Big => (word(order, s, 4), word(order, s, 0)),
    };
    (low as u64) | ((high as u64) << 32u64)
}

/// The lower half of a number.
pub open spec fn low_half(value: u64) -> u32 {
    (value & 0xffff_ffff) as u32
}

/// The upper half of a number.
pub open spec fn high_half(value: u64) -> u32 {
    (value >> 32u64) as u32
}

/// The eight bytes of a number.
pub open spec fn long_bytes(order: ByteOrder, value: u64) -> Seq<u8> {
    match order {
        ByteOrder::Little => word_bytes(order, low_half(value)) + word_bytes(
            order,
            high_half(value),
        ),
        ByteOrder::Big => word_bytes(order, high_half(value)) + word_bytes(order, low_half(value)),
    }
}

/// Read the number in eight bytes.
pub fn read_long(order: ByteOrder, s: &[u8]) -> (r: u64)
    requires
        s@.len() == 8,
    ensures
        r == long(order, s@),
{
    let (low, high) = match order {
        ByteOrder::Little => (read_word(order, s, 0), read_word(order, s, 4)),
        ByteOrder::Big => (read_word(order, s, 4), read_word(order, s, 0)),
    };
    (low as u64) | ((high as u64) << 32u64)
}

/// The eight bytes of a number.
pub fn bytes_of_long(order: ByteOrder, value: u64) -> (r: Vec<u8>)
    ensures
        r@ == long_bytes(order, value),
{
    let low: u32 = #[verifier::truncate] ((value & 0xffff_ffff) as u32);
    let high: u32 = #[verifier::truncate] ((value >> 32u64) as u32);
    let mut out: Vec<u8> = Vec::new();
    match order {
        ByteOrder::Little => {
            push_word(&mut out, order, low);
            push_word(&mut out, order, high);
        },
        ByteOrder::Big => {
            push_word(&mut out, order, high);
            push_word(&mut out, order, low);
        },
    }
    assert(out@ =~= long_bytes(order, value));
    out
}

// ---------------------------------------------------------------------------
// Laws
// ---------------------------------------------------------------------------

/// A number of four bytes is read as it was written, wherever it stands.
pub proof fn law_word_is_read_back(order: ByteOrder, value: u32, s: Seq<u8>, at: int)
    requires
        0 <= at,
        at + 4 <= s.len(),
        s.subrange(at, at + 4) == word_bytes(order, value),
    ensures
        word(order, s, at) == value,
{
    let part = s.subrange(at, at + 4);
    assert(s[at] == part[0] && s[at + 1] == part[1] && s[at + 2] == part[2] && s[at + 3] == part[3]);
    assert((((((value >> 0u32) & 0xff) as u8) as u32) | (((((value >> 8u32) & 0xff) as u8) as u32)
        << 8u32) | (((((value >> 16u32) & 0xff) as u8) as u32) << 16u32) | (((((value >> 24u32)
        & 0xff) as u8) as u32) << 24u32)) == value) by (bit_vector);
}

/// A number of eight bytes is read as it was written.
pub proof fn law_long_is_read_back(order: ByteOrder, value: u64)
    ensures
        long_bytes(order, value).len() == 8,
        long(order, long_bytes(order, value)) == value,
{
    let s = long_bytes(order, value);
    let (first, second) = match order {
        ByteOrder::Little => (low_half(value), high_half(value)),
        ByteOrder::Big => (high_half(value), low_half(value)),
    };
    assert(s.subrange(0, 4) =~= word_bytes(order, first));
    assert(s.subrange(4, 8) =~= word_bytes(order, second));
    law_word_is_read_back(order, first, s, 0);
    law_word_is_read_back(order, second, s, 4);
    assert((((value & 0xffff_ffff) as u32) as u64) | ((((value >> 32u64) as u32) as u64) << 32u64)
        == value) by (bit_vector);
}

/// The value of four bytes: each counts 256 times as much as the one before it
/// where the least comes first, and as the one after it where the greatest does.
pub proof fn law_word_value(s: Seq<u8>, at: int)
    ensures
        word(ByteOrder::Little, s, at) == s[at] + 256 * s[at + 1] + 65536 * s[at + 2] + 16777216
            * s[at + 3],
        word(ByteOrder::Big, s, at) == 16777216 * s[at] + 65536 * s[at + 1] + 256 * s[at + 2]
            + s[at + 3],
{
    lemma_word_of(s[at], s[at + 1], s[at + 2], s[at + 3]);
    lemma_word_of(s[at + 3], s[at + 2], s[at + 1], s[at]);
}

proof fn lemma_word_of(a: u8, b: u8, c: u8, d: u8)
    ensures
        word_of(a, b, c, d) == a + 256 * b + 65536 * c + 16777216 * d,
{
    assert(((a as u32) | ((b as u32) << 8u32) | ((c as u32) << 16u32) | ((d as u32) << 24u32)) == a
        + 256 * b + 65536 * c + 16777216 * d) by (bit_vector);
}

} // verus!
