//! Byte ranges within one source text, and helpers on byte strings.

use vstd::prelude::*;

verus! {

/// A half-open byte range `[start, end)` within one source text.
#[derive(Clone, Copy, PartialEq, Eq, Structural, Debug)]
pub struct Span {
    pub start: usize,
    pub end: usize,
}

/// The span is a well-formed range within a text of length `len`.
pub open spec fn span_wf(s: Span, len: nat) -> bool {
    s.start <= s.end && s.end <= len
}

/// `inner` lies entirely within `outer`.
pub open spec fn span_in(inner: Span, outer: Span) -> bool {
    outer.start <= inner.start && inner.end <= outer.end
}

/// `name` occurs as a contiguous run of bytes of `text` inside `sp`.
pub open spec fn occurs_within(text: Seq<u8>, sp: Span, name: Seq<u8>) -> bool {
    exists|i: int|
        sp.start <= i && i + name.len() <= sp.end && #[trigger] text.subrange(
            i,
            i + name.len() as int,
        ) == name
}

/// Byte-for-byte equality of two byte strings.
pub fn bytes_eq(a: &[u8], b: &[u8]) -> (r: bool)
    ensures
        r == (a@ == b@),
{
    if a.len() != b.len() {
        assert(a@.len() != b@.len());
        return false;
    }
    let mut i: usize = 0;
    while i < a.len()
        invariant
            i <= a@.len(),
            a@.len() == b@.len(),
            forall|j: int| 0 <= j < i ==> a@[j] == b@[j],
        decreases a@.len() - i,
    {
        if a[i] != b[i] {
            return false;
        }
        i = i + 1;
    }
    assert(a@ =~= b@);
    true
}

/// Copy of the bytes of `text` covered by `[start, end)`.
pub fn slice_bytes(text: &[u8], start: usize, end: usize) -> (r: Vec<u8>)
    requires
        start <= end,
        end <= text@.len(),
    ensures
        r@ == text@.subrange(start as int, end as int),
{
    let mut out: Vec<u8> = Vec::new();
    let mut i: usize = start;
    while i < end
        invariant
            start <= i <= end,
            end <= text@.len(),
            out@ == text@.subrange(start as int, i as int),
        decreases end - i,
    {
        out.push(text[i]);
        assert(out@ =~= text@.subrange(start as int, i + 1 as int));
        i = i + 1;
    }
    out
}

} // verus!
