//! A primitive that copies a contiguous run of bytes from a source buffer
//! into a destination buffer; the building block of the mock read path.

use vstd::prelude::*;

verus! {

/// Copies `count` bytes from `src`, starting at `src_start`, into `dst`,
/// starting at `dst_start`. The destination keeps its length; bytes outside
/// the written run are untouched.
pub fn copy_memory(src: &Vec<u8>, src_start: usize, dst: &mut Vec<u8>, dst_start: usize, count: usize)
    requires
        src_start + count <= src.len(),
        dst_start + count <= old(dst).len(),
    ensures
        final(dst)@.len() == old(dst)@.len(),
        final(dst)@ == (old(dst)@.subrange(0, dst_start as int)
            + src@.subrange(src_start as int, src_start + count)
            + old(dst)@.subrange(dst_start + count, old(dst)@.len() as int)),
{
    let mut i: usize = 0;
    while i < count
        invariant
            src_start + count <= src.len(),
            dst_start + count <= dst.len(),
            i <= count,
            dst@.len() == old(dst)@.len(),
            forall|k: int| 0 <= k < i ==> #[trigger] dst@[dst_start + k] == src@[src_start + k],
            forall|k: int|
                0 <= k < dst@.len() && !(dst_start <= k < dst_start + i) ==> #[trigger] dst@[k]
                    == old(dst)@[k],
        decreases count - i,
    {
        let b = src[src_start + i];
        dst[dst_start + i] = b;
        i = i + 1;
    }
    proof {
        let full = old(dst)@.subrange(0, dst_start as int) + src@.subrange(
            src_start as int,
            src_start + count,
        ) + old(dst)@.subrange(dst_start + count, old(dst)@.len() as int);
        assert forall|j: int| 0 <= j < dst@.len() implies dst@[j] == full[j] by {
            if dst_start <= j < dst_start + count {
                assert(dst@[dst_start + (j - dst_start)] == src@[src_start + (j - dst_start)]);
            }
        }
        assert(dst@ =~= full);
    }
}

} // verus!
