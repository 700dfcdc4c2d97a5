//! Small verified operations on byte sequences.

use vstd::prelude::*;

verus! {

/// A copy of `v[start..end]`.
pub fn copy_range(v: &[u8], start: usize, end: usize) -> (r: Vec<u8>)
    requires
        start <= end <= v@.len(),
    ensures
        r@ == v@.subrange(start as int, end as int),
{
    let mut r: Vec<u8> = Vec::with_capacity(end - start);
    let mut i: usize = start;
    while i < end
        invariant
            start <= i <= end <= v@.len(),
            r@ == v@.subrange(start as int, i as int),
        decreases end - i,
    {
        r.push(v[i]);
        i = i + 1;
    }
    r
}

/// Appends the bytes of `tail` to `v`.
pub fn append_bytes(v: &mut Vec<u8>, tail: &[u8])
    ensures
        final(v)@ == old(v)@ + tail@,
{
    let mut i: usize = 0;
    while i < tail.len()
        invariant
            i <= tail@.len(),
            v@ == old(v)@ + tail@.subrange(0, i as int),
        decreases tail@.len() - i,
    {
        v.push(tail[i]);
        i = i + 1;
    }
    assert(tail@.subrange(0, tail@.len() as int) == tail@);
}

/// Whether `v` holds the bytes of `part` from position `pos` on.
pub fn holds_at(v: &[u8], pos: usize, part: &[u8]) -> (r: bool)
    requires
        pos <= v@.len(),
    ensures
        r == (part@.len() <= v@.len() - pos && v@.subrange(pos as int, pos + part@.len()) == part@),
{
    let n = v.len();
    if part.len() > n - pos {
        return false;
    }
    let mut i: usize = 0;
    while i < part.len()
        invariant
            n == v@.len(),
            pos + part@.len() <= v@.len(),
            i <= part@.len(),
            v@.subrange(pos as int, pos + i) == part@.subrange(0, i as int),
        decreases part@.len() - i,
    {
        if v[pos + i] != part[i] {
            assert(v@.subrange(pos as int, pos + part@.len())[i as int] != part@[i as int]);
            return false;
        }
        assert(v@.subrange(pos as int, pos + i + 1) == v@.subrange(pos as int, pos + i).push(v@[pos + i]));
        assert(part@.subrange(0, i + 1) == part@.subrange(0, i as int).push(part@[i as int]));
        i = i + 1;
    }
    assert(part@.subrange(0, part@.len() as int) == part@);
    true
}

/// Whether all bytes of `v[start..end]` are zero.
pub fn all_zero(v: &[u8], start: usize, end: usize) -> (r: bool)
    requires
        start <= end <= v@.len(),
    ensures
        r == (forall|i: int| start <= i < end ==> v@[i] == 0),
{
    let mut i: usize = start;
    while i < end
        invariant
            start <= i <= end <= v@.len(),
            forall|j: int| start <= j < i ==> v@[j] == 0,
        decreases end - i,
    {
        if v[i] != 0 {
            return false;
        }
        i = i + 1;
    }
    true
}

} // verus!
