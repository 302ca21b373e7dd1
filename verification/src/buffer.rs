//! Copying bytes between buffers.

use vstd::prelude::*;

verus! {

/// Appends every byte of `src` to `out`, in order.
pub fn append(out: &mut Vec<u8>, src: &[u8])
    ensures
        final(out)@ == old(out)@ + src@,
{
    let mut i: usize = 0;
    while i < src.len()
        invariant
            i <= src@.len(),
            out@ == old(out)@ + src@.subrange(0, i as int),
        decreases src@.len() - i,
    {
        out.push(src[i]);
        assert(out@ =~= old(out)@ + src@.subrange(0, i + 1));
        i = i + 1;
    }
    assert(src@.subrange(0, i as int) =~= src@);
}

/// Copies the bytes of `src` from index `from` up to, not including, `to`.
pub fn copy_range(src: &[u8], from: usize, to: usize) -> (copy: Vec<u8>)
    requires
        from <= to <= src@.len(),
    ensures
        copy@ == src@.subrange(from as int, to as int),
{
    let mut copy: Vec<u8> = Vec::new();
    let mut i: usize = from;
    while i < to
        invariant
            from <= i <= to <= src@.len(),
            copy@ == src@.subrange(from as int, i as int),
        decreases to - i,
    {
        copy.push(src[i]);
        assert(copy@ =~= src@.subrange(from as int, i + 1));
        i = i + 1;
    }
    copy
}

} // verus!
