//! Blocks of the image and where they start.

use crate::superblock::Superblock;
use vstd::prelude::*;

verus! {

/// Block `p` is one of the blocks that the superblock counts, and the image
/// holds all of its bytes.
pub open spec fn block_in_image(img: Seq<u8>, sb: Superblock, p: u64) -> bool {
    p < sb.blocks_count && (p + 1) * sb.block_size <= img.len()
}

/// The position in the image of the first byte of block `p`.
pub open spec fn block_start(sb: Superblock, p: u64) -> int {
    p * sb.block_size
}

/// The start of block `p`, if the block lies within the image.
pub fn locate_block(image: &[u8], sb: &Superblock, p: u64) -> (r: Option<usize>)
    requires
        sb.wf(),
    ensures
        r is Some <==> block_in_image(image@, *sb, p),
        r is Some ==> r->Some_0 == block_start(*sb, p),
        r is Some ==> r->Some_0 + sb.block_size <= image@.len(),
{
    if p >= sb.blocks_count {
        return None;
    }
    let bs: usize = sb.block_size as usize;
    let whole: usize = image.len() / bs;
    proof {
        lemma_whole_blocks(image@.len() as int, bs as int, p as int);
    }
    if p >= whole as u64 {
        return None;
    }
    assert((p + 1) * bs == p * bs + bs) by (nonlinear_arith);
    Some((p as usize) * bs)
}

/// A sequence of `len` bytes holds all of block `p`, where blocks have
/// `bs` bytes, exactly when `p` is less than the number of whole blocks.
pub proof fn lemma_whole_blocks(len: int, bs: int, p: int)
    requires
        len >= 0,
        bs > 0,
        p >= 0,
    ensures
        p < len / bs <==> (p + 1) * bs <= len,
{
    assert(p < len / bs <==> (p + 1) * bs <= len) by (nonlinear_arith)
        requires
            len >= 0,
            bs > 0,
            p >= 0,
    ;
}

} // verus!
