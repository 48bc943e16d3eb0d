//! The block mapper: from a logical block of a file to the block of the
//! image that holds it.

use crate::block::block_in_image;
use crate::error::Ext4Error;
use crate::bytes::le32;
use crate::extent::{lemma_walk_extents, lookup_extents, map_extents, node_depth};
use crate::indirect::{lemma_chase, lookup_pointers, map_pointers, pointers_per_block};
use crate::inode::{Inode, PAYLOAD_SIZE};
use crate::superblock::Superblock;
use vstd::prelude::*;

verus! {

/// The block of the image that holds logical block `lblock` of `inode`, or
/// none where the block is a hole. A flag of the inode says whether an
/// extent tree or block pointers map its blocks.
pub open spec fn map_block(img: Seq<u8>, sb: Superblock, inode: Inode, lblock: u64) -> Result<
    Option<u64>,
    Ext4Error,
> {
    if inode.spec_uses_extents() {
        map_extents(img, sb, inode, lblock)
    } else {
        map_pointers(img, sb, inode, lblock)
    }
}

/// Every block that the mapper gives lies within the image: a pointer to
/// a block outside it is never followed, and never given. The only error of
/// the mapper is `Corrupt`.
pub proof fn lemma_map_block(img: Seq<u8>, sb: Superblock, inode: Inode, lblock: u64)
    ensures
        map_block(img, sb, inode, lblock) matches Ok(Some(p)) ==> block_in_image(img, sb, p),
        map_block(img, sb, inode, lblock) matches Err(e) ==> e == Ext4Error::Corrupt,
{
    if inode.spec_uses_extents() {
        if lblock <= u32::MAX {
            lemma_walk_extents(
                img,
                sb,
                inode.payload(),
                PAYLOAD_SIZE as int,
                node_depth(img, inode.payload()) as nat,
                lblock as u32,
            );
        }
    } else {
        let n = pointers_per_block(sb);
        let root = inode.payload();
        lemma_chase(img, sb, le32(img, root + 4 * lblock), 0, 0);
        lemma_chase(img, sb, le32(img, root + 48), 1, lblock - 12);
        lemma_chase(img, sb, le32(img, root + 52), 2, lblock - 12 - n);
        lemma_chase(img, sb, le32(img, root + 56), 3, lblock - 12 - n - n * n);
    }
}

/// Finds the block of the image that holds a logical block of a file.
///
/// A block that is found lies within the image, and the only error is
/// `Corrupt`.
pub fn lookup_block(image: &[u8], sb: &Superblock, inode: &Inode, lblock: u64) -> (r: Result<
    Option<u64>,
    Ext4Error,
>)
    requires
        sb.wf(),
        inode.in_image(image@),
    ensures
        r == map_block(image@, *sb, *inode, lblock),
        r matches Ok(Some(p)) ==> block_in_image(image@, *sb, p),
        r is Err ==> r == Err::<Option<u64>, Ext4Error>(Ext4Error::Corrupt),
{
    if inode.uses_extents() {
        lookup_extents(image, sb, inode, lblock)
    } else {
        lookup_pointers(image, sb, inode, lblock)
    }
}

} // verus!
