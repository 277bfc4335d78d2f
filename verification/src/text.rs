//! Text primitives over sequences of characters.
//!
//! Every parser of this crate works on `&[char]`; this module says once what
//! trimming, splitting, and reading or writing a decimal number mean.

use vstd::prelude::*;
use vstd::slice::slice_subrange;

verus! {

/// The text that `String::from_utf8_lossy` makes of bytes that are not UTF-8:
/// their decoding, with the replacement character in place of what cannot be
/// decoded.
pub uninterp spec fn utf8_lossy(bytes: Seq<u8>) -> Seq<char>;

/// `String::from_utf8_lossy` gives the decoding of valid UTF-8. Of other bytes it
/// makes what `utf8_lossy` names; where the replacement characters stand is not
/// stated.
#[verifier::external_body]
fn decode_lossy(bytes: &[u8]) -> (r: String)
    ensures
        vstd::utf8::valid_utf8(bytes@) ==> r@ == vstd::utf8::decode_utf8(bytes@),
        !vstd::utf8::valid_utf8(bytes@) ==> r@ == utf8_lossy(bytes@),
{
    String::from_utf8_lossy(bytes).into_owned()
}

/// The text that bytes are read as.
pub open spec fn lossy(bytes: Seq<u8>) -> Seq<char> {
    if vstd::utf8::valid_utf8(bytes) {
        vstd::utf8::decode_utf8(bytes)
    } else {
        utf8_lossy(bytes)
    }
}

/// Read bytes as text, whether they are UTF-8 or not.
pub fn from_utf8_lossy(bytes: &[u8]) -> (r: String)
    ensures
        r@ == lossy(bytes@),
{
    decode_lossy(bytes)
}

/// The text that `{:?}` gives for a string: `str`'s `Debug`, which puts it in
/// double quotes and escapes some of its characters.
pub uninterp spec fn quoted(s: Seq<char>) -> Seq<char>;

/// Format a string with `{:?}`. The result is a function of the string alone;
/// which characters are escaped, and how, is not stated.
#[verifier::external_body]
pub(crate) fn quote(s: &str) -> (r: String)
    ensures
        r@ == quoted(s@),
{
    format!("{:?}", s)
}

/// `std::str::from_utf8` accepts exactly the valid UTF-8 sequences and then
/// gives their decoding.
#[verifier::external_body]
pub(crate) fn from_utf8(bytes: &[u8]) -> (r: Option<&str>)
    ensures
        r is Some <==> vstd::utf8::valid_utf8(bytes@),
        r is Some ==> r->0@ == vstd::utf8::decode_utf8(bytes@),
{
    std::str::from_utf8(bytes).ok()
}

/// `String::push` appends the given character to the end of the string.
pub assume_specification[ String::push ](s: &mut String, ch: char)
    ensures
        final(s)@ == old(s)@.push(ch),
;

// ---------------------------------------------------------------------------
// Model
// ---------------------------------------------------------------------------

/// The characters with the Unicode `White_Space` property.
pub open spec fn is_space(c: char) -> bool {
    ||| '\u{9}' <= c <= '\u{d}'
    ||| c == ' '
    ||| c == '\u{85}'
    ||| c == '\u{a0}'
    ||| c == '\u{1680}'
    ||| '\u{2000}' <= c <= '\u{200a}'
    ||| c == '\u{2028}'
    ||| c == '\u{2029}'
    ||| c == '\u{202f}'
    ||| c == '\u{205f}'
    ||| c == '\u{3000}'
}

/// `s` without its leading white space.
pub open spec fn trim_start(s: Seq<char>) -> Seq<char>
    decreases s.len(),
{
    if s.len() > 0 && is_space(s.first()) {
        trim_start(s.drop_first())
    } else {
        s
    }
}

/// `s` without its trailing white space.
pub open spec fn trim_end(s: Seq<char>) -> Seq<char>
    decreases s.len(),
{
    if s.len() > 0 && is_space(s.last()) {
        trim_end(s.drop_last())
    } else {
        s
    }
}

/// `s` without leading and trailing white space.
pub open spec fn trim(s: Seq<char>) -> Seq<char> {
    trim_end(trim_start(s))
}

/// Position of the first `c` in `s`, or the length of `s` if there is none.
pub open spec fn find(s: Seq<char>, c: char) -> int
    decreases s.len(),
{
    if s.len() == 0 || s.first() == c {
        0
    } else {
        1 + find(s.drop_first(), c)
    }
}

/// Position of the first white space in `s`, or the length of `s`.
pub open spec fn find_space(s: Seq<char>) -> int
    decreases s.len(),
{
    if s.len() == 0 || is_space(s.first()) {
        0
    } else {
        1 + find_space(s.drop_first())
    }
}

/// The pieces of `s` between occurrences of `c`: one more than there are `c`s.
pub open spec fn split(s: Seq<char>, c: char) -> Seq<Seq<char>>
    decreases s.len(),
    via split_decreases
{
    let k = find(s, c);
    if k >= s.len() {
        seq![s]
    } else {
        seq![s.take(k)] + split(s.skip(k + 1), c)
    }
}

#[via_fn]
proof fn split_decreases(s: Seq<char>, c: char) {
    lemma_find(s, c);
}

/// `s` without one carriage return at its end.
pub open spec fn strip_cr(s: Seq<char>) -> Seq<char> {
    if s.len() > 0 && s.last() == '\r' {
        s.drop_last()
    } else {
        s
    }
}

/// The lines of `s`: each ends in `\n` or `\r\n`, the last one optionally.
pub open spec fn lines(s: Seq<char>) -> Seq<Seq<char>>
    decreases s.len(),
    via lines_decreases
{
    if s.len() == 0 {
        seq![]
    } else {
        let k = find(s, '\n');
        if k >= s.len() {
            seq![s]
        } else {
            seq![strip_cr(s.take(k))] + lines(s.skip(k + 1))
        }
    }
}

#[via_fn]
proof fn lines_decreases(s: Seq<char>) {
    lemma_find(s, '\n');
}

/// The maximal runs of characters that are not white space.
pub open spec fn words(s: Seq<char>) -> Seq<Seq<char>>
    decreases s.len(),
    via words_decreases
{
    let t = trim_start(s);
    if t.len() == 0 {
        seq![]
    } else {
        let k = find_space(t);
        seq![t.take(k)] + words(t.skip(k))
    }
}

#[via_fn]
proof fn words_decreases(s: Seq<char>) {
    lemma_trim_start(s);
    lemma_find_space(trim_start(s));
}

/// Whether `p` occurs in `s` at position `i`.
pub open spec fn occurs_at(s: Seq<char>, p: Seq<char>, i: int) -> bool {
    0 <= i && i + p.len() <= s.len() && s.subrange(i, i + p.len()) == p
}

/// Whether `p` occurs anywhere in `s`.
pub open spec fn contains(s: Seq<char>, p: Seq<char>) -> bool {
    exists|i: int| occurs_at(s, p, i)
}

/// The decimal digits, each with its value.
pub open spec fn is_digit(c: char) -> bool {
    '0' <= c <= '9'
}

pub open spec fn digit_value(c: char) -> nat {
    (c as int - '0' as int) as nat
}

pub open spec fn digit_char(d: nat) -> char {
    ('0' as int + d) as char
}

/// The number that a run of decimal digits denotes; `None` if `s` holds
/// anything else. The empty run denotes zero.
pub open spec fn digits(s: Seq<char>) -> Option<nat>
    decreases s.len(),
{
    if s.len() == 0 {
        Some(0)
    } else {
        match digits(s.drop_last()) {
            Some(v) if is_digit(s.last()) => Some(v * 10 + digit_value(s.last())),
            _ => None,
        }
    }
}

/// The number that `s` denotes: at least one digit, after an optional `+`.
pub open spec fn natural(s: Seq<char>) -> Option<nat> {
    let d = if s.len() > 0 && s.first() == '+' {
        s.drop_first()
    } else {
        s
    };
    if d.len() == 0 {
        None
    } else {
        digits(d)
    }
}

/// The number that `s` denotes if it is at most `max`.
pub open spec fn natural_upto(s: Seq<char>, max: nat) -> Option<nat> {
    match natural(s) {
        Some(v) if v <= max => Some(v),
        _ => None,
    }
}

/// The integer that `s` denotes: an optional sign and at least one digit.
pub open spec fn integer(s: Seq<char>) -> Option<int> {
    if s.len() > 0 && s.first() == '-' {
        let d = s.drop_first();
        if d.len() == 0 {
            None
        } else {
            match digits(d) {
                Some(v) => Some(-(v as int)),
                None => None,
            }
        }
    } else {
        match natural(s) {
            Some(v) => Some(v as int),
            None => None,
        }
    }
}

/// The integer that `s` denotes if it fits an `i32`.
pub open spec fn integer_i32(s: Seq<char>) -> Option<i32> {
    match integer(s) {
        Some(v) if i32::MIN <= v <= i32::MAX => Some(v as i32),
        _ => None,
    }
}

/// The decimal digits of `n`, without leading zeros.
pub open spec fn dec(n: nat) -> Seq<char>
    decreases n,
{
    if n < 10 {
        seq![digit_char(n)]
    } else {
        dec(n / 10).push(digit_char(n % 10))
    }
}

/// The decimal digits of `v`, after a `-` if it is negative.
pub open spec fn dec_int(v: int) -> Seq<char> {
    if v < 0 {
        seq!['-'] + dec((-v) as nat)
    } else {
        dec(v as nat)
    }
}

/// The contents of a list of slices.
pub open spec fn rows(v: Seq<&[char]>) -> Seq<Seq<char>> {
    Seq::new(v.len(), |i: int| v[i]@)
}

/// The contents of a list of strings.
pub open spec fn texts(v: Seq<String>) -> Seq<Seq<char>> {
    Seq::new(v.len(), |i: int| v[i]@)
}

/// The content of an optional string.
pub open spec fn opt_text(o: Option<String>) -> Option<Seq<char>> {
    match o {
        Some(s) => Some(s@),
        None => None,
    }
}

/// The content of an optional string slice.
pub open spec fn opt_str(o: Option<&str>) -> Option<Seq<char>> {
    match o {
        Some(s) => Some(s@),
        None => None,
    }
}

/// The bytes of an optional slice.
pub open spec fn opt_bytes(b: Option<&[u8]>) -> Option<Seq<u8>> {
    match b {
        Some(s) => Some(s@),
        None => None,
    }
}

/// The concatenation of `parts`, each followed by a newline.
pub open spec fn unlines(parts: Seq<Seq<char>>) -> Seq<char>
    decreases parts.len(),
{
    if parts.len() == 0 {
        seq![]
    } else {
        unlines(parts.drop_last()) + parts.last().push('\n')
    }
}

// ---------------------------------------------------------------------------
// Facts about the model
// ---------------------------------------------------------------------------

pub proof fn lemma_find(s: Seq<char>, c: char)
    ensures
        0 <= find(s, c) <= s.len(),
        find(s, c) < s.len() ==> s[find(s, c)] == c,
        forall|i: int| 0 <= i < find(s, c) ==> s[i] != c,
    decreases s.len(),
{
    if s.len() > 0 && s.first() != c {
        lemma_find(s.drop_first(), c);
        assert forall|i: int| 0 <= i < find(s, c) implies s[i] != c by {
            if i > 0 {
                assert(s.drop_first()[i - 1] == s[i]);
            }
        }
    }
}

pub proof fn lemma_find_is(s: Seq<char>, c: char, k: int)
    requires
        0 <= k <= s.len(),
        k < s.len() ==> s[k] == c,
        forall|i: int| 0 <= i < k ==> s[i] != c,
    ensures
        find(s, c) == k,
{
    lemma_find(s, c);
}

pub proof fn lemma_find_space(s: Seq<char>)
    ensures
        0 <= find_space(s) <= s.len(),
        find_space(s) < s.len() ==> is_space(s[find_space(s)]),
        forall|i: int| 0 <= i < find_space(s) ==> !is_space(s[i]),
        s.len() > 0 && !is_space(s.first()) ==> find_space(s) > 0,
    decreases s.len(),
{
    if s.len() > 0 && !is_space(s.first()) {
        lemma_find_space(s.drop_first());
        assert forall|i: int| 0 <= i < find_space(s) implies !is_space(s[i]) by {
            if i > 0 {
                assert(s.drop_first()[i - 1] == s[i]);
            }
        }
    }
}

pub proof fn lemma_find_space_is(s: Seq<char>, k: int)
    requires
        0 <= k <= s.len(),
        k < s.len() ==> is_space(s[k]),
        forall|i: int| 0 <= i < k ==> !is_space(s[i]),
    ensures
        find_space(s) == k,
{
    lemma_find_space(s);
}

pub proof fn lemma_trim_start(s: Seq<char>)
    ensures
        trim_start(s).len() <= s.len(),
        trim_start(s) == s.skip(s.len() - trim_start(s).len()),
        trim_start(s).len() > 0 ==> !is_space(trim_start(s).first()),
        forall|i: int| 0 <= i < s.len() - trim_start(s).len() ==> is_space(s[i]),
    decreases s.len(),
{
    if s.len() > 0 && is_space(s.first()) {
        lemma_trim_start(s.drop_first());
        assert(s.drop_first().skip(s.len() - 1 - trim_start(s).len()) =~= s.skip(
            s.len() - trim_start(s).len(),
        ));
        assert forall|i: int| 0 <= i < s.len() - trim_start(s).len() implies is_space(s[i]) by {
            if i > 0 {
                assert(s.drop_first()[i - 1] == s[i]);
            }
        }
    } else {
        assert(s.skip(0) =~= s);
    }
}

/// Trimming the start drops exactly a run of `k` white space characters.
pub proof fn lemma_trim_start_is(s: Seq<char>, k: int)
    requires
        0 <= k <= s.len(),
        forall|i: int| 0 <= i < k ==> is_space(s[i]),
        k < s.len() ==> !is_space(s[k]),
    ensures
        trim_start(s) == s.skip(k),
{
    lemma_trim_start(s);
    let m = s.len() - trim_start(s).len();
    if m < k {
        assert(trim_start(s).first() == s[m]);
    }
}

pub proof fn lemma_trim_end(s: Seq<char>)
    ensures
        trim_end(s).len() <= s.len(),
        trim_end(s) == s.take(trim_end(s).len() as int),
        trim_end(s).len() > 0 ==> !is_space(trim_end(s).last()),
        forall|i: int| trim_end(s).len() <= i < s.len() ==> is_space(s[i]),
    decreases s.len(),
{
    if s.len() > 0 && is_space(s.last()) {
        lemma_trim_end(s.drop_last());
        assert(s.drop_last().take(trim_end(s).len() as int) =~= s.take(trim_end(s).len() as int));
        assert forall|i: int| trim_end(s).len() <= i < s.len() implies is_space(s[i]) by {
            if i < s.len() - 1 {
                assert(s.drop_last()[i] == s[i]);
            }
        }
    } else {
        assert(s.take(s.len() as int) =~= s);
    }
}

/// Trimming the end keeps exactly the first `k` characters if only white
/// space follows them.
pub proof fn lemma_trim_end_is(s: Seq<char>, k: int)
    requires
        0 <= k <= s.len(),
        forall|i: int| k <= i < s.len() ==> is_space(s[i]),
        k > 0 ==> !is_space(s[k - 1]),
    ensures
        trim_end(s) == s.take(k),
{
    lemma_trim_end(s);
    let m = trim_end(s).len() as int;
    if m > k {
        assert(trim_end(s).last() == s[m - 1]);
    }
}

/// A text that neither starts nor ends in white space is its own trim.
pub proof fn lemma_trim_fixed(s: Seq<char>)
    requires
        s.len() > 0 ==> !is_space(s.first()) && !is_space(s.last()),
    ensures
        trim(s) == s,
{
    lemma_trim_start_is(s, 0);
    assert(s.skip(0) =~= s);
    lemma_trim_end_is(s, s.len() as int);
    assert(s.take(s.len() as int) =~= s);
}

/// What is left after trimming neither starts nor ends in white space, and holds
/// no other characters than before.
pub proof fn lemma_trim(s: Seq<char>)
    ensures
        trim(s).len() <= s.len(),
        trim(s).len() > 0 ==> !is_space(trim(s).first()) && !is_space(trim(s).last()),
        forall|i: int| 0 <= i < trim(s).len() ==> s.contains(#[trigger] trim(s)[i]),
{
    lemma_trim_start(s);
    lemma_trim_end(trim_start(s));
    let t = trim_start(s);
    if trim(s).len() > 0 {
        assert(trim(s).first() == t.first());
    }
    assert forall|i: int| 0 <= i < trim(s).len() implies s.contains(#[trigger] trim(s)[i]) by {
        assert(trim(s)[i] == t[i]);
        assert(t[i] == s[i + s.len() - t.len()]);
    }
}

/// No line holds a line feed.
pub proof fn lemma_lines_hold_no_feed(s: Seq<char>)
    ensures
        forall|i: int| 0 <= i < lines(s).len() ==> !(#[trigger] lines(s)[i]).contains('\n'),
    decreases s.len(),
{
    if s.len() > 0 {
        let k = find(s, '\n');
        lemma_find(s, '\n');
        if k < s.len() {
            let head = strip_cr(s.take(k));
            let rest = s.skip(k + 1);
            lemma_lines_hold_no_feed(rest);
            assert forall|i: int| 0 <= i < lines(s).len() implies !(#[trigger] lines(
                s,
            )[i]).contains('\n') by {
                if i == 0 {
                    assert(lines(s)[0] == head);
                    if head.contains('\n') {
                        let j = choose|j: int| 0 <= j < head.len() && head[j] == '\n';
                        assert(s[j] == '\n');
                    }
                } else {
                    assert(lines(s)[i] == lines(rest)[i - 1]);
                }
            }
        } else {
            assert forall|i: int| 0 <= i < lines(s).len() implies !(#[trigger] lines(
                s,
            )[i]).contains('\n') by {
                assert(lines(s)[i] == s);
            }
        }
    }
}

/// The digits of a prefix denote at most what the whole run denotes.
pub proof fn lemma_digits_prefix(s: Seq<char>, k: int)
    requires
        0 <= k <= s.len(),
        digits(s) is Some,
    ensures
        digits(s.take(k)) is Some,
        digits(s.take(k))->0 <= digits(s)->0,
    decreases s.len(),
{
    if k == s.len() {
        assert(s.take(k) =~= s);
    } else {
        lemma_digits_prefix(s.drop_last(), k);
        assert(s.drop_last().take(k) =~= s.take(k));
    }
}

/// Writing a number down and reading it back gives the number.
pub proof fn lemma_dec_digits(n: nat)
    ensures
        dec(n).len() > 0,
        digits(dec(n)) == Some(n),
        forall|i: int| 0 <= i < dec(n).len() ==> is_digit(#[trigger] dec(n)[i]),
    decreases n,
{
    if n < 10 {
        let s = seq![digit_char(n)];
        assert(s.drop_last() =~= Seq::<char>::empty());
        assert(digits(s.drop_last()) == Some(0nat));
    } else {
        lemma_dec_digits(n / 10);
        assert(dec(n).drop_last() =~= dec(n / 10));
        assert forall|i: int| 0 <= i < dec(n).len() implies is_digit(#[trigger] dec(n)[i]) by {
            if i < dec(n).len() - 1 {
                assert(dec(n)[i] == dec(n / 10)[i]);
            }
        }
    }
}

/// The decimal form of a number parses as that number.
pub proof fn lemma_dec_natural(n: nat)
    ensures
        natural(dec(n)) == Some(n),
{
    lemma_dec_digits(n);
    assert(is_digit(dec(n)[0]));
}

/// The decimal form of a number holds no white space.
pub proof fn lemma_dec_no_space(n: nat)
    ensures
        dec(n).len() > 0,
        forall|i: int| 0 <= i < dec(n).len() ==> !is_space(#[trigger] dec(n)[i]),
        forall|i: int| 0 <= i < dec(n).len() ==> (#[trigger] dec(n)[i]) != '\n',
{
    lemma_dec_digits(n);
}

/// A text that can stand on a line of its own and be read back unchanged.
pub open spec fn plain_line(p: Seq<char>) -> bool {
    &&& forall|i: int| 0 <= i < p.len() ==> p[i] != '\n'
    &&& p.len() > 0 ==> p.last() != '\r'
}

/// A plain line in front of a text is the first of its lines.
pub proof fn lemma_lines_first(p: Seq<char>, rest: Seq<char>)
    requires
        plain_line(p),
    ensures
        lines(p.push('\n') + rest) == seq![p] + lines(rest),
{
    let s = p.push('\n') + rest;
    assert forall|i: int| 0 <= i < p.len() implies s[i] != '\n' by {
        assert(s[i] == p[i]);
    }
    lemma_find_is(s, '\n', p.len() as int);
    assert(s.take(p.len() as int) =~= p);
    assert(s.skip(p.len() as int + 1) =~= rest);
    assert(strip_cr(p) == p);
}

/// Lines written one after another are read back as they are.
pub proof fn lemma_lines_unlines(parts: Seq<Seq<char>>, rest: Seq<char>)
    requires
        forall|i: int| 0 <= i < parts.len() ==> plain_line(#[trigger] parts[i]),
    ensures
        lines(unlines(parts) + rest) == parts + lines(rest),
    decreases parts.len(),
{
    if parts.len() == 0 {
        assert(unlines(parts) + rest =~= rest);
        assert(parts + lines(rest) =~= lines(rest));
    } else {
        let p = parts.last();
        let init = parts.drop_last();
        assert(plain_line(parts[parts.len() - 1]));
        assert forall|i: int| 0 <= i < init.len() implies plain_line(#[trigger] init[i]) by {
            assert(plain_line(parts[i]));
        }
        lemma_lines_unlines(init, p.push('\n') + rest);
        lemma_lines_first(p, rest);
        assert(unlines(parts) + rest =~= unlines(init) + (p.push('\n') + rest));
        assert(init + (seq![p] + lines(rest)) =~= parts + lines(rest));
    }
}

/// A text without white space that is not empty.
pub open spec fn is_word(w: Seq<char>) -> bool {
    w.len() > 0 && forall|i: int| 0 <= i < w.len() ==> !is_space(#[trigger] w[i])
}

/// Leading white space does not change the words.
pub proof fn lemma_words_skip_space(c: char, s: Seq<char>)
    requires
        is_space(c),
    ensures
        words(seq![c] + s) == words(s),
{
    let t = seq![c] + s;
    assert(t.drop_first() =~= s);
    assert(trim_start(t) == trim_start(s));
}

/// A word in front of white space, or of nothing, is the first word.
pub proof fn lemma_words_first(w: Seq<char>, rest: Seq<char>)
    requires
        is_word(w),
        rest.len() > 0 ==> is_space(rest.first()),
    ensures
        words(w + rest) == seq![w] + words(rest),
{
    let s = w + rest;
    assert(!is_space(w[0]));
    assert(s.first() == w[0]);
    assert(trim_start(s) == s);
    assert forall|i: int| 0 <= i < w.len() implies !is_space(s[i]) by {
        assert(s[i] == w[i]);
    }
    lemma_find_space_is(s, w.len() as int);
    assert(s.take(w.len() as int) =~= w);
    assert(s.skip(w.len() as int) =~= rest);
}

/// The words of a text are words.
pub proof fn lemma_words_are_words(s: Seq<char>)
    ensures
        forall|i: int| 0 <= i < words(s).len() ==> is_word(#[trigger] words(s)[i]),
    decreases s.len(),
{
    let t = trim_start(s);
    lemma_trim_start(s);
    if t.len() > 0 {
        lemma_find_space(t);
        let k = find_space(t);
        let rest = t.skip(k);
        lemma_words_are_words(rest);
        let first = t.take(k);
        assert(is_word(first));
        assert(words(s) == seq![first] + words(rest));
        assert forall|i: int| 0 <= i < words(s).len() implies is_word(#[trigger] words(s)[i]) by {
            if i > 0 {
                assert(words(s)[i] == words(rest)[i - 1]);
            }
        }
    }
}

// ---------------------------------------------------------------------------
// Executable forms
// ---------------------------------------------------------------------------

/// The characters of a string slice.
pub fn chars_of(s: &str) -> (v: Vec<char>)
    ensures
        v@ == s@,
{
    let mut v: Vec<char> = Vec::new();
    for c in it: s.chars()
        invariant
            v@ == it.seq().take(it.index() as int),
            it.seq() == s@,
    {
        v.push(c);
        assert(it.seq().take(it.index() + 1) =~= it.seq().take(it.index() as int).push(c));
    }
    assert(s@.take(s@.len() as int) =~= s@);
    v
}

/// The string made of the given characters.
pub fn string_of(s: &[char]) -> (r: String)
    ensures
        r@ == s@,
{
    let mut r = String::new();
    let mut i: usize = 0;
    while i < s.len()
        invariant
            i <= s.len(),
            r@ == s@.take(i as int),
        decreases s.len() - i,
    {
        assert(s@.take(i + 1) =~= s@.take(i as int).push(s@[i as int]));
        r.push(s[i]);
        i += 1;
    }
    assert(s@.take(s@.len() as int) =~= s@);
    r
}

/// Append `t` to `v`.
pub fn push_all(v: &mut Vec<char>, t: &[char])
    ensures
        final(v)@ == old(v)@ + t@,
{
    let mut i: usize = 0;
    while i < t.len()
        invariant
            i <= t.len(),
            v@ == old(v)@ + t@.take(i as int),
        decreases t.len() - i,
    {
        assert(t@.take(i + 1) =~= t@.take(i as int).push(t@[i as int]));
        v.push(t[i]);
        i += 1;
    }
    assert(t@.take(t@.len() as int) =~= t@);
}

/// Append the characters of `t` to `v`.
pub fn push_text(v: &mut Vec<char>, t: &str)
    ensures
        final(v)@ == old(v)@ + t@,
{
    let c = chars_of(t);
    push_all(v, c.as_slice());
}

/// Whether two slices hold the same characters.
pub fn same(a: &[char], b: &[char]) -> (r: bool)
    ensures
        r == (a@ == b@),
{
    if a.len() != b.len() {
        return false;
    }
    let mut i: usize = 0;
    while i < a.len()
        invariant
            i <= a.len(),
            a.len() == b.len(),
            forall|j: int| 0 <= j < i ==> a@[j] == b@[j],
        decreases a.len() - i,
    {
        if a[i] != b[i] {
            return false;
        }
        i += 1;
    }
    assert(a@ =~= b@);
    true
}

/// Whether a slice holds exactly the given text.
pub fn is_text(a: &[char], t: &str) -> (r: bool)
    ensures
        r == (a@ == t@),
{
    let c = chars_of(t);
    same(a, c.as_slice())
}

/// Whether two strings hold the same characters.
pub fn same_str(a: &str, b: &str) -> (r: bool)
    ensures
        r == (a@ == b@),
{
    let x = chars_of(a);
    let y = chars_of(b);
    same(x.as_slice(), y.as_slice())
}

/// An owned copy of a string slice.
pub fn copy_str(s: &str) -> (r: String)
    ensures
        r@ == s@,
{
    let v = chars_of(s);
    string_of(v.as_slice())
}

/// Whether `s` begins with `p`.
pub fn starts_with(s: &[char], p: &[char]) -> (r: bool)
    ensures
        r == p@.is_prefix_of(s@),
{
    if s.len() < p.len() {
        return false;
    }
    let h = slice_subrange(s, 0, p.len());
    let r = same(h, p);
    assert(s@.subrange(0, p@.len() as int) == h@);
    r
}

/// Whether `s` begins with the text `p`.
pub fn starts_with_text(s: &[char], p: &str) -> (r: bool)
    ensures
        r == p@.is_prefix_of(s@),
{
    let c = chars_of(p);
    starts_with(s, c.as_slice())
}

/// Whether the text `p` occurs in `s`.
pub fn contains_text(s: &[char], p: &str) -> (r: bool)
    ensures
        r == contains(s@, p@),
{
    let c = chars_of(p);
    let n = c.len();
    if s.len() < n {
        return false;
    }
    let last = s.len() - n;
    let mut i: usize = 0;
    while i <= last
        invariant
            i <= last + 1,
            last + n == s.len(),
            n == c.len(),
            c@ == p@,
            forall|j: int| 0 <= j < i ==> !occurs_at(s@, p@, j),
        decreases last + 1 - i,
    {
        let h = slice_subrange(s, i, i + n);
        if same(h, c.as_slice()) {
            assert(occurs_at(s@, p@, i as int));
            return true;
        }
        if i == last {
            return false;
        }
        i += 1;
    }
    false
}

pub fn is_whitespace(c: char) -> (r: bool)
    ensures
        r == is_space(c),
{
    ('\u{9}' <= c && c <= '\u{d}') || c == ' ' || c == '\u{85}' || c == '\u{a0}' || c == '\u{1680}'
        || ('\u{2000}' <= c && c <= '\u{200a}') || c == '\u{2028}' || c == '\u{2029}' || c
        == '\u{202f}' || c == '\u{205f}' || c == '\u{3000}'
}

/// `s` without leading and trailing white space.
pub fn trimmed<'a>(s: &'a [char]) -> (r: &'a [char])
    ensures
        r@ == trim(s@),
{
    let n = s.len();
    let mut i: usize = 0;
    while i < n && is_whitespace(s[i])
        invariant
            i <= n == s.len(),
            forall|j: int| 0 <= j < i ==> is_space(s@[j]),
        decreases n - i,
    {
        i += 1;
    }
    proof {
        lemma_trim_start_is(s@, i as int);
    }
    let mut k = n;
    while k > i && is_whitespace(s[k - 1])
        invariant
            i <= k <= n == s.len(),
            forall|j: int| k <= j < n ==> is_space(s@[j]),
        decreases k,
    {
        k -= 1;
    }
    proof {
        lemma_trim_end_is(s@.skip(i as int), k - i);
        assert(s@.skip(i as int).take(k - i) =~= s@.subrange(i as int, k as int));
    }
    slice_subrange(s, i, k)
}

/// The lines of `s`.
pub fn lines_of<'a>(s: &'a [char]) -> (r: Vec<&'a [char]>)
    ensures
        rows(r@) == lines(s@),
{
    let n = s.len();
    let mut out: Vec<&'a [char]> = Vec::new();
    let mut start: usize = 0;
    assert(s@.skip(0) =~= s@);
    assert(rows(out@) + lines(s@) =~= lines(s@));
    while start < n
        invariant
            start <= n == s.len(),
            rows(out@) + lines(s@.skip(start as int)) == lines(s@),
        decreases n - start,
    {
        let mut k = start;
        while k < n && s[k] != '\n'
            invariant
                start <= k <= n == s.len(),
                forall|j: int| start <= j < k ==> s@[j] != '\n',
            decreases n - k,
        {
            k += 1;
        }
        let ghost rest = s@.skip(start as int);
        let ghost before = rows(out@);
        proof {
            lemma_find_is(rest, '\n', k - start);
            assert(rest.take(k - start) =~= s@.subrange(start as int, k as int));
        }
        if k == n {
            let piece = slice_subrange(s, start, n);
            out.push(piece);
            proof {
                assert(rest =~= s@.subrange(start as int, n as int));
                assert(rows(out@) =~= before.push(piece@));
                assert(lines(s@.skip(n as int)) =~= Seq::<Seq<char>>::empty());
                assert(rows(out@) + lines(s@.skip(n as int)) =~= before + lines(rest));
            }
            start = n;
        } else {
            let end = if k > start && s[k - 1] == '\r' {
                k - 1
            } else {
                k
            };
            let piece = slice_subrange(s, start, end);
            out.push(piece);
            proof {
                let whole = s@.subrange(start as int, k as int);
                assert(strip_cr(whole) =~= piece@);
                assert(rest.skip(k - start + 1) =~= s@.skip(k + 1));
                assert(rows(out@) =~= before.push(piece@));
                assert(rows(out@) + lines(s@.skip(k + 1)) =~= before + lines(rest));
            }
            start = k + 1;
        }
    }
    assert(lines(s@.skip(n as int)) =~= Seq::<Seq<char>>::empty());
    assert(rows(out@) + lines(s@.skip(n as int)) =~= rows(out@));
    out
}

/// The pieces of `s` between occurrences of `c`.
pub fn split_of<'a>(s: &'a [char], c: char) -> (r: Vec<&'a [char]>)
    ensures
        rows(r@) == split(s@, c),
        r.len() > 0,
{
    let n = s.len();
    let mut out: Vec<&'a [char]> = Vec::new();
    let mut start: usize = 0;
    assert(s@.skip(0) =~= s@);
    assert(rows(out@) + split(s@, c) =~= split(s@, c));
    loop
        invariant
            start <= n == s.len(),
            rows(out@) + split(s@.skip(start as int), c) == split(s@, c),
        decreases n - start,
    {
        let mut k = start;
        while k < n && s[k] != c
            invariant
                start <= k <= n == s.len(),
                forall|j: int| start <= j < k ==> s@[j] != c,
            decreases n - k,
        {
            k += 1;
        }
        let ghost rest = s@.skip(start as int);
        let ghost before = rows(out@);
        proof {
            lemma_find_is(rest, c, k - start);
            assert(rest.take(k - start) =~= s@.subrange(start as int, k as int));
        }
        let piece = slice_subrange(s, start, k);
        out.push(piece);
        assert(rows(out@) =~= before.push(piece@));
        if k == n {
            proof {
                assert(rest =~= piece@);
                assert(rows(out@) =~= before + split(rest, c));
            }
            return out;
        }
        proof {
            assert(rest.skip(k - start + 1) =~= s@.skip(k + 1));
            assert(rows(out@) + split(s@.skip(k + 1), c) =~= before + split(rest, c));
        }
        start = k + 1;
    }
}

/// The maximal runs of characters that are not white space.
pub fn words_of<'a>(s: &'a [char]) -> (r: Vec<&'a [char]>)
    ensures
        rows(r@) == words(s@),
{
    let n = s.len();
    let mut out: Vec<&'a [char]> = Vec::new();
    let mut start: usize = 0;
    assert(s@.skip(0) =~= s@);
    assert(rows(out@) + words(s@) =~= words(s@));
    loop
        invariant
            start <= n == s.len(),
            rows(out@) + words(s@.skip(start as int)) == words(s@),
        decreases n - start,
    {
        let ghost rest = s@.skip(start as int);
        let ghost before = rows(out@);
        let mut i = start;
        while i < n && is_whitespace(s[i])
            invariant
                start <= i <= n == s.len(),
                forall|j: int| start <= j < i ==> is_space(s@[j]),
            decreases n - i,
        {
            i += 1;
        }
        proof {
            lemma_trim_start_is(rest, i - start);
            assert(rest.skip(i - start) =~= s@.skip(i as int));
        }
        if i == n {
            assert(words(rest) =~= Seq::<Seq<char>>::empty());
            assert(before + words(rest) =~= before);
            return out;
        }
        let mut k = i;
        while k < n && !is_whitespace(s[k])
            invariant
                i <= k <= n == s.len(),
                forall|j: int| i <= j < k ==> !is_space(s@[j]),
            decreases n - k,
        {
            k += 1;
        }
        let piece = slice_subrange(s, i, k);
        out.push(piece);
        proof {
            let t = s@.skip(i as int);
            lemma_find_space_is(t, k - i);
            assert(t.take(k - i) =~= piece@);
            assert(t.skip(k - i) =~= s@.skip(k as int));
            assert(rows(out@) =~= before.push(piece@));
            assert(rows(out@) + words(s@.skip(k as int)) =~= before + words(rest));
        }
        assert(k > start) by {
            if k == i {
                assert(is_space(s@[i as int]));
            }
        }
        start = k;
    }
}

/// The number that a run of digits denotes if it is at most `max`.
fn digits_upto(s: &[char], max: u128) -> (r: Option<u128>)
    ensures
        r == (match digits(s@) {
            Some(v) if v <= max => Some(v as u128),
            _ => None,
        }),
{
    let mut v: u128 = 0;
    let mut i: usize = 0;
    assert(s@.take(0) =~= Seq::<char>::empty());
    while i < s.len()
        invariant
            i <= s.len(),
            v <= max,
            digits(s@.take(i as int)) == Some(v as nat),
        decreases s.len() - i,
    {
        let c = s[i];
        let ghost head = s@.take(i + 1);
        assert(head.drop_last() =~= s@.take(i as int));
        if !('0' <= c && c <= '9') {
            proof {
                if digits(s@) is Some {
                    lemma_digits_prefix(s@, i + 1);
                }
            }
            return None;
        }
        let d: u128 = (c as u32 - '0' as u32) as u128;
        if d > max || v > (max - d) / 10 {
            proof {
                if digits(s@) is Some {
                    lemma_digits_prefix(s@, i + 1);
                }
            }
            return None;
        }
        v = v * 10 + d;
        i += 1;
    }
    assert(s@.take(s@.len() as int) =~= s@);
    Some(v)
}

fn natural_of(s: &[char], max: u128) -> (r: Option<u128>)
    ensures
        r == (match natural_upto(s@, max as nat) {
            Some(v) => Some(v as u128),
            None => None,
        }),
{
    let d = if s.len() > 0 && s[0] == '+' {
        let t = slice_subrange(s, 1, s.len());
        assert(t@ =~= s@.drop_first());
        t
    } else {
        s
    };
    if d.len() == 0 {
        None
    } else {
        digits_upto(d, max)
    }
}

/// Read a `u32` as `str::parse` does.
pub fn parse_u32(s: &[char]) -> (r: Option<u32>)
    ensures
        r == (match natural_upto(s@, u32::MAX as nat) {
            Some(v) => Some(v as u32),
            None => None,
        }),
{
    match natural_of(s, u32::MAX as u128) {
        Some(v) => Some(v as u32),
        None => None,
    }
}

/// Read a `u64` as `str::parse` does.
pub fn parse_u64(s: &[char]) -> (r: Option<u64>)
    ensures
        r == (match natural_upto(s@, u64::MAX as nat) {
            Some(v) => Some(v as u64),
            None => None,
        }),
{
    match natural_of(s, u64::MAX as u128) {
        Some(v) => Some(v as u64),
        None => None,
    }
}

/// Read a `u128` as `str::parse` does.
pub fn parse_u128(s: &[char]) -> (r: Option<u128>)
    ensures
        r == (match natural_upto(s@, u128::MAX as nat) {
            Some(v) => Some(v as u128),
            None => None,
        }),
{
    natural_of(s, u128::MAX)
}

/// Read an `i32` as `str::parse` does.
pub fn parse_i32(s: &[char]) -> (r: Option<i32>)
    ensures
        r == integer_i32(s@),
{
    if s.len() > 0 && s[0] == '-' {
        let t = slice_subrange(s, 1, s.len());
        assert(t@ =~= s@.drop_first());
        if t.len() == 0 {
            return None;
        }
        match digits_upto(t, 2147483648) {
            Some(v) => Some((-(v as i64)) as i32),
            None => None,
        }
    } else {
        match natural_of(s, i32::MAX as u128) {
            Some(v) => Some(v as i32),
            None => None,
        }
    }
}

/// Append the decimal digits of `n` to `v`.
pub fn push_dec(v: &mut Vec<char>, n: u128)
    ensures
        final(v)@ == old(v)@ + dec(n as nat),
    decreases n,
{
    let ghost start = v@;
    if n >= 10 {
        push_dec(v, n / 10);
    }
    let d = (n % 10) as u8;
    let c = (48u8 + d) as char;
    v.push(c);
    proof {
        assert(c == digit_char((n % 10) as nat));
        if n >= 10 {
            assert(v@ =~= start + dec((n / 10) as nat).push(c));
        } else {
            assert(v@ =~= start + seq![c]);
        }
    }
}

/// Append the decimal form of `n` to `v`.
pub fn push_int(v: &mut Vec<char>, n: i32)
    ensures
        final(v)@ == old(v)@ + dec_int(n as int),
{
    if n < 0 {
        v.push('-');
        let m = (-(n as i64)) as u128;
        push_dec(v, m);
        assert(v@ =~= old(v)@ + dec_int(n as int));
    } else {
        push_dec(v, n as u128);
    }
}

// ---------------------------------------------------------------------------
// Laws
// ---------------------------------------------------------------------------

/// White space is what Unicode gives that property: five control characters and
/// the blank, the next-line control, and the blanks of other scripts.
pub proof fn law_white_space(c: char)
    ensures
        is_space(c) <==> {
            let n = c as u32;
            9 <= n <= 13 || n == 32 || n == 133 || n == 160 || n == 5760 || 8192 <= n <= 8202 || n
                == 8232 || n == 8233 || n == 8239 || n == 8287 || n == 12288
        },
{
}

/// Whether a text is white space alone.
pub open spec fn is_blank(s: Seq<char>) -> bool {
    forall|i: int| 0 <= i < s.len() ==> is_space(#[trigger] s[i])
}

/// Trimming takes off exactly the white space around a text.
pub proof fn law_trim(before: Seq<char>, t: Seq<char>, after: Seq<char>)
    requires
        is_blank(before),
        is_blank(after),
        t.len() > 0 ==> !is_space(t.first()) && !is_space(t.last()),
    ensures
        trim(before + t + after) == t,
{
    let s = before + t + after;
    let n = before.len() as int;
    if t.len() > 0 {
        assert forall|i: int| 0 <= i < n implies is_space(s[i]) by {
            assert(s[i] == before[i]);
        }
        assert(s[n] == t.first());
        lemma_trim_start_is(s, n);
        let u = s.skip(n);
        assert(u =~= t + after);
        assert forall|i: int| t.len() <= i < u.len() implies is_space(u[i]) by {
            assert(u[i] == after[i - t.len()]);
        }
        assert(u[t.len() - 1] == t.last());
        lemma_trim_end_is(u, t.len() as int);
        assert(u.take(t.len() as int) =~= t);
    } else {
        assert forall|i: int| 0 <= i < s.len() implies is_space(s[i]) by {
            if i < n {
                assert(s[i] == before[i]);
            } else {
                assert(s[i] == after[i - n]);
            }
        }
        lemma_trim_start_is(s, s.len() as int);
        assert(s.skip(s.len() as int) =~= t);
        assert(trim_end(t) == t);
    }
}

/// Every text is a trimmed one with white space around it.
pub proof fn law_trimmed_is_inside(s: Seq<char>)
    ensures
        exists|before: Seq<char>, after: Seq<char>|
            is_blank(before) && is_blank(after) && s == #[trigger] (before + trim(s) + after),
{
    lemma_trim_start(s);
    let u = trim_start(s);
    lemma_trim_end(u);
    let t = trim_end(u);
    let before = s.take(s.len() - u.len());
    let after = u.skip(t.len() as int);
    assert forall|i: int| 0 <= i < before.len() implies is_space(#[trigger] before[i]) by {
        assert(before[i] == s[i]);
    }
    assert forall|i: int| 0 <= i < after.len() implies is_space(#[trigger] after[i]) by {
        assert(after[i] == u[i + t.len()]);
    }
    assert(u =~= t + after);
    assert(s =~= before + u);
    assert(s =~= before + trim(s) + after);
}

/// Lines end in a line feed, with or without a carriage return before it; the
/// last one need not end in anything.
pub proof fn law_lines(p: Seq<char>, rest: Seq<char>)
    requires
        !p.contains('\n'),
    ensures
        lines(Seq::<char>::empty()) == Seq::<Seq<char>>::empty(),
        p.len() > 0 ==> lines(p) == seq![p],
        p.len() == 0 || p.last() != '\r' ==> lines(p + seq!['\n'] + rest) == seq![p] + lines(rest),
        lines(p + seq!['\r', '\n'] + rest) == seq![p] + lines(rest),
{
    assert forall|i: int| 0 <= i < p.len() implies p[i] != '\n' by {
        if p[i] == '\n' {
            assert(p.contains(p[i]));
        }
    }
    lemma_find_is(p, '\n', p.len() as int);
    if p.len() == 0 || p.last() != '\r' {
        lemma_lines_first(p, rest);
        assert(p.push('\n') + rest =~= p + seq!['\n'] + rest);
    }
    let q = p.push('\r');
    let s = p + seq!['\r', '\n'] + rest;
    assert forall|i: int| 0 <= i < q.len() implies s[i] != '\n' by {
        if i < p.len() {
            assert(s[i] == p[i]);
        }
    }
    assert(s[q.len() as int] == '\n');
    lemma_find_is(s, '\n', q.len() as int);
    assert(s.take(q.len() as int) =~= q);
    assert(strip_cr(q) =~= p);
    assert(s.skip(q.len() as int + 1) =~= rest);
}

/// A text is split at each separator and nowhere else.
pub proof fn law_split(p: Seq<char>, c: char, rest: Seq<char>)
    requires
        !p.contains(c),
    ensures
        split(p, c) == seq![p],
        split(p + seq![c] + rest, c) == seq![p] + split(rest, c),
{
    assert forall|i: int| 0 <= i < p.len() implies p[i] != c by {
        if p[i] == c {
            assert(p.contains(p[i]));
        }
    }
    lemma_find_is(p, c, p.len() as int);
    let s = p + seq![c] + rest;
    assert forall|i: int| 0 <= i < p.len() implies s[i] != c by {
        assert(s[i] == p[i]);
    }
    assert(s[p.len() as int] == c);
    lemma_find_is(s, c, p.len() as int);
    assert(s.take(p.len() as int) =~= p);
    assert(s.skip(p.len() as int + 1) =~= rest);
}

/// Words are what stands between white space: blank text has none, and a word
/// with white space around it comes before those that follow.
pub proof fn law_words(before: Seq<char>, w: Seq<char>, c: char, rest: Seq<char>)
    requires
        is_blank(before),
        is_word(w),
        is_space(c),
    ensures
        words(before) == Seq::<Seq<char>>::empty(),
        words(before + w) == seq![w],
        words(before + w + seq![c] + rest) == seq![w] + words(rest),
    decreases before.len(),
{
    let blank = Seq::<char>::empty();
    if before.len() == 0 {
        assert(trim_start(before) == before);
        assert(before + w =~= w + blank);
        lemma_words_first(w, blank);
        assert(trim_start(blank) == blank);
        assert(words(blank) =~= Seq::<Seq<char>>::empty());
        assert(seq![w] + words(blank) =~= seq![w]);
        assert(before + w + seq![c] + rest =~= w + (seq![c] + rest));
        lemma_words_first(w, seq![c] + rest);
        lemma_words_skip_space(c, rest);
    } else {
        let tail = before.drop_first();
        assert forall|i: int| 0 <= i < tail.len() implies is_space(#[trigger] tail[i]) by {
            assert(tail[i] == before[i + 1]);
        }
        law_words(tail, w, c, rest);
        assert(is_space(before[0]));
        let head = seq![before[0]];
        assert(before =~= head + tail);
        lemma_words_skip_space(before[0], tail);
        assert(before + w =~= head + (tail + w));
        lemma_words_skip_space(before[0], tail + w);
        assert(before + w + seq![c] + rest =~= head + (tail + w + seq![c] + rest));
        lemma_words_skip_space(before[0], tail + w + seq![c] + rest);
    }
}

/// A text contains another exactly if that stands somewhere in it.
pub proof fn law_contains(s: Seq<char>, before: Seq<char>, p: Seq<char>, after: Seq<char>)
    ensures
        contains(before + p + after, p),
        contains(s, p) ==> exists|a: Seq<char>, b: Seq<char>| s == #[trigger] (a + p + b),
{
    let t = before + p + after;
    assert(t.subrange(before.len() as int, before.len() as int + p.len()) =~= p);
    assert(occurs_at(t, p, before.len() as int));
    if contains(s, p) {
        let i = choose|i: int| occurs_at(s, p, i);
        let a = s.take(i);
        let b = s.skip(i + p.len());
        assert(s =~= a + s.subrange(i, i + p.len()) + b);
        assert(s == a + p + b);
    }
}

/// Numbers are written in decimal: the last digit is the remainder by ten, and
/// the others write the quotient.
pub proof fn law_decimal(q: nat, d: nat)
    requires
        d < 10,
    ensures
        dec(d) == seq![(48 + d) as char],
        q > 0 ==> dec(10 * q + d) == dec(q).push((48 + d) as char),
        dec_int(-(q as int)) == if q == 0 {
            seq!['0']
        } else {
            seq!['-'] + dec(q)
        },
        dec_int(q as int) == dec(q),
{
    if q > 0 {
        let n = 10 * q + d;
        assert(n / 10 == q && n % 10 == d);
    }
    assert(dec(0) =~= seq!['0']);
}

/// `k` zeros.
pub open spec fn zeros(k: nat) -> Seq<char> {
    Seq::new(k, |i: int| '0')
}

/// A decimal text is read as its number, with or without a `+` and leading zeros;
/// with a `-` before it, as the negative one. One out of range is refused.
pub proof fn law_numbers_are_read(n: nat, k: nat, max: nat)
    ensures
        natural(zeros(k) + dec(n)) == Some(n),
        natural(seq!['+'] + zeros(k) + dec(n)) == Some(n),
        natural_upto(zeros(k) + dec(n), max) == if n <= max {
            Some(n)
        } else {
            None
        },
        integer(zeros(k) + dec(n)) == Some(n as int),
        integer(seq!['+'] + zeros(k) + dec(n)) == Some(n as int),
        integer(seq!['-'] + zeros(k) + dec(n)) == Some(-(n as int)),
        integer(dec_int(n as int)) == Some(n as int),
        integer(dec_int(-(n as int))) == Some(-(n as int)),
        integer_i32(dec_int(n as int)) == if n <= 0x7fff_ffff {
            Some(n as i32)
        } else {
            None
        },
        integer_i32(dec_int(-(n as int))) == if n <= 0x8000_0000 {
            Some((-(n as int)) as i32)
        } else {
            None
        },
{
    let w = zeros(k) + dec(n);
    lemma_zeros(n, k);
    lemma_dec_digits(n);
    assert(is_digit(dec(n)[0]));
    assert(w[0] != '+' && w[0] != '-') by {
        if k > 0 {
            assert(w[0] == '0');
        } else {
            assert(w[0] == dec(n)[0]);
        }
    }
    let p = seq!['+'] + zeros(k) + dec(n);
    assert(p.drop_first() =~= w);
    let m = seq!['-'] + zeros(k) + dec(n);
    assert(m.drop_first() =~= w);
    assert(dec(n).first() == dec(n)[0]);
    assert((seq!['-'] + dec(n)).drop_first() =~= dec(n));
    if n == 0 {
        assert(dec_int(-(n as int)) == dec(0));
    }
}

proof fn lemma_zeros(n: nat, k: nat)
    ensures
        digits(zeros(k) + dec(n)) == Some(n),
        (zeros(k) + dec(n)).len() > 0,
    decreases n,
{
    let w = zeros(k) + dec(n);
    lemma_dec_digits(n);
    if n < 10 {
        lemma_only_zeros(k);
        assert(w.drop_last() =~= zeros(k));
        assert(w.last() == digit_char(n));
    } else {
        lemma_zeros(n / 10, k);
        assert(w.drop_last() =~= zeros(k) + dec(n / 10));
        assert(w.last() == digit_char(n % 10));
    }
}

proof fn lemma_only_zeros(k: nat)
    ensures
        digits(zeros(k)) == Some(0nat),
    decreases k,
{
    if k > 0 {
        lemma_only_zeros((k - 1) as nat);
        assert(zeros(k).drop_last() =~= zeros((k - 1) as nat));
        assert(zeros(k).last() == '0');
    }
}

/// What is not a decimal number is refused: an empty text, a sign alone, and a
/// text with a character that is no digit, but for a sign at its start.
pub proof fn law_other_texts_are_refused(s: Seq<char>, i: int)
    requires
        s.len() == 0 || s == seq!['+'] || s == seq!['-'] || (0 <= i < s.len() && !('0' <= s[i] <= '9')
            && !(i == 0 && (s[0] == '+' || s[0] == '-'))),
    ensures
        natural(s) is None,
        integer(s) is None,
        integer_i32(s) is None,
{
    if s == seq!['+'] || s == seq!['-'] {
        assert(s.drop_first() =~= Seq::<char>::empty());
        assert(digits(s) is None) by {
            assert(s.drop_last() =~= Seq::<char>::empty());
        }
    } else if s.len() > 0 {
        if s[0] == '+' || s[0] == '-' {
            let d = s.drop_first();
            assert(d[i - 1] == s[i]);
            lemma_not_digits(d, i - 1);
            lemma_not_digits(s, 0);
        } else {
            lemma_not_digits(s, i);
        }
    }
}

/// A minus is no part of a natural number.
pub proof fn law_naturals_have_no_minus(s: Seq<char>)
    requires
        s.len() > 0,
        s[0] == '-',
    ensures
        natural(s) is None,
{
    lemma_not_digits(s, 0);
}

proof fn lemma_not_digits(s: Seq<char>, i: int)
    requires
        0 <= i < s.len(),
        !is_digit(s[i]),
    ensures
        digits(s) is None,
    decreases s.len(),
{
    if i < s.len() - 1 {
        assert(s.drop_last()[i] == s[i]);
        lemma_not_digits(s.drop_last(), i);
    }
}

/// Lines are written one after another, each with a line feed.
pub proof fn law_unlines(parts: Seq<Seq<char>>, p: Seq<char>)
    ensures
        unlines(Seq::<Seq<char>>::empty()) == Seq::<char>::empty(),
        unlines(parts.push(p)) == unlines(parts) + p + seq!['\n'],
{
    assert(parts.push(p).drop_last() =~= parts);
    assert(unlines(parts.push(p)) =~= unlines(parts) + p + seq!['\n']);
}

} // verus!
