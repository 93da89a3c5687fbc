//! Small operations on byte strings.

use vstd::prelude::*;

verus! {

/// Adds `bytes` at the end of `out`.
pub(crate) fn append(out: &mut Vec<u8>, bytes: &[u8])
    ensures
        final(out)@ == old(out)@ + bytes@,
{
    let mut at: usize = 0;
    while at < bytes.len()
        invariant
            at <= bytes.len(),
            out@ == old(out)@ + bytes@.take(at as int),
        decreases bytes.len() - at,
    {
        out.push(bytes[at]);
        assert(bytes@.take(at as int).push(bytes@[at as int]) =~= bytes@.take(at + 1));
        assert(out@ =~= old(out)@ + bytes@.take(at + 1));
        at += 1;
    }
    assert(bytes@.take(at as int) =~= bytes@);
}

/// Whether `text` begins with `prefix`.
pub(crate) fn has_prefix(text: &[u8], prefix: &[u8]) -> (out: bool)
    ensures
        out == prefix@.is_prefix_of(text@),
{
    if prefix.len() > text.len() {
        return false;
    }
    let mut at: usize = 0;
    while at < prefix.len()
        invariant
            at <= prefix.len() <= text.len(),
            prefix@.take(at as int) =~= text@.take(at as int),
        decreases prefix.len() - at,
    {
        if prefix[at] != text[at] {
            assert(prefix@[at as int] != text@.subrange(0, prefix@.len() as int)[at as int]);
            return false;
        }
        assert(prefix@.take(at + 1) =~= prefix@.take(at as int).push(prefix@[at as int]));
        assert(text@.take(at + 1) =~= text@.take(at as int).push(text@[at as int]));
        at += 1;
    }
    assert(prefix@.take(at as int) =~= prefix@);
    true
}

/// Whether `text` is `other`, byte for byte.
pub(crate) fn same_bytes(text: &[u8], other: &[u8]) -> (out: bool)
    ensures
        out == (text@ == other@),
{
    if text.len() != other.len() {
        return false;
    }
    let equal = has_prefix(text, other);
    assert(text@.subrange(0, text@.len() as int) =~= text@);
    equal
}

} // verus!
