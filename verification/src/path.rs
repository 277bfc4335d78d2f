//! Joining of paths.

use vstd::prelude::*;

use crate::text::{chars_of, push_all, string_of};

verus! {

/// `base` extended by `rel`, as `Path::join` extends it: an absolute `rel`
/// stands for itself, and a separator is put in where `base` lacks one.
pub open spec fn join(base: Seq<char>, rel: Seq<char>) -> Seq<char> {
    if rel.len() > 0 && rel.first() == '/' {
        rel
    } else if base.len() == 0 || base.last() == '/' {
        base + rel
    } else {
        base.push('/') + rel
    }
}

/// Extend the path `base` by `rel`.
pub fn join_path(base: &str, rel: &str) -> (r: String)
    ensures
        r@ == join(base@, rel@),
{
    let rel_chars = chars_of(rel);
    let mut out = chars_of(base);
    if rel_chars.len() > 0 && rel_chars[0] == '/' {
        return string_of(rel_chars.as_slice());
    }
    if out.len() > 0 && out[out.len() - 1] != '/' {
        out.push('/');
    }
    push_all(&mut out, rel_chars.as_slice());
    string_of(out.as_slice())
}

/// A relative path is put below the base, with one separator between them; an
/// absolute one stands for itself.
pub proof fn law_join(base: Seq<char>, rel: Seq<char>)
    requires
        rel.len() == 0 || rel.first() != '/',
    ensures
        base.len() > 0 && base.last() != '/' ==> join(base, rel) == base + seq!['/'] + rel,
        join(base + seq!['/'], rel) == base + seq!['/'] + rel,
        join(Seq::<char>::empty(), rel) == rel,
        join(base, seq!['/'] + rel) == seq!['/'] + rel,
{
    assert(base.push('/') + rel =~= base + seq!['/'] + rel);
    assert(Seq::<char>::empty() + rel =~= rel);
    assert((base + seq!['/']).last() == '/');
    assert((seq!['/'] + rel).first() == '/');
}

} // verus!
