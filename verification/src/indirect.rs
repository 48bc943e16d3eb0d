//! Block pointers: the mapping of a file that has no extent tree.
//!
//! The inode record holds fifteen 32-bit pointers. The first twelve name
//! the first twelve blocks of the file. The next three name a block of
//! pointers each, which are followed through one, two and three levels. A
//! pointer that is zero stands for blocks that were never allocated.

use crate::block::{block_in_image, block_start, locate_block};
use crate::bytes::{le32, lemma_len_fits, read_u32};
use crate::error::Ext4Error;
use crate::inode::{Inode, PAYLOAD_OFFSET};
use crate::superblock::Superblock;
use vstd::prelude::*;

verus! {

/// The number of pointers of the inode record that name a block of the
/// file each.
pub const DIRECT_POINTERS: u64 = 12;

/// The number of pointers that one block holds.
pub open spec fn pointers_per_block(sb: Superblock) -> int {
    sb.block_size as int / 4
}

/// The number of blocks of a file that one pointer stands for, `levels`
/// levels of pointer blocks above the blocks of the file.
pub open spec fn reach(n: int, levels: nat) -> int
    decreases levels,
{
    if levels == 0 {
        1
    } else {
        n * reach(n, (levels - 1) as nat)
    }
}

/// Where pointer `ptr` leads for the block with number `index` among those
/// that it stands for, `levels` levels above the blocks of the file.
///
/// A zero pointer leads nowhere, on any level. A pointer to a block outside
/// the image is `Corrupt`.
pub open spec fn chase(img: Seq<u8>, sb: Superblock, ptr: u32, levels: nat, index: int) -> Result<
    Option<u64>,
    Ext4Error,
>
    decreases levels,
{
    if ptr == 0 {
        Ok(None)
    } else if !block_in_image(img, sb, ptr as u64) {
        Err(Ext4Error::Corrupt)
    } else if levels == 0 {
        Ok(Some(ptr as u64))
    } else {
        let below = reach(pointers_per_block(sb), (levels - 1) as nat);
        chase(
            img,
            sb,
            le32(img, block_start(sb, ptr as u64) + 4 * (index / below)),
            (levels - 1) as nat,
            index % below,
        )
    }
}

/// A block that a pointer leads to lies within the image, and the only
/// error is `Corrupt`.
pub proof fn lemma_chase(img: Seq<u8>, sb: Superblock, ptr: u32, levels: nat, index: int)
    ensures
        chase(img, sb, ptr, levels, index) matches Ok(Some(p)) ==> block_in_image(img, sb, p),
        chase(img, sb, ptr, levels, index) matches Err(e) ==> e == Ext4Error::Corrupt,
    decreases levels,
{
    if ptr != 0 && block_in_image(img, sb, ptr as u64) && levels > 0 {
        let below = reach(pointers_per_block(sb), (levels - 1) as nat);
        lemma_chase(
            img,
            sb,
            le32(img, block_start(sb, ptr as u64) + 4 * (index / below)),
            (levels - 1) as nat,
            index % below,
        );
    }
}

/// What the block pointers of `inode` say of logical block `lblock`. A
/// block beyond those that three levels reach is held by nothing.
pub open spec fn map_pointers(img: Seq<u8>, sb: Superblock, inode: Inode, lblock: u64) -> Result<
    Option<u64>,
    Ext4Error,
> {
    let n = pointers_per_block(sb);
    let root = inode.payload();
    if lblock < DIRECT_POINTERS {
        chase(img, sb, le32(img, root + 4 * lblock), 0, 0)
    } else if lblock - 12 < n {
        chase(img, sb, le32(img, root + 48), 1, lblock - 12)
    } else if lblock - 12 - n < n * n {
        chase(img, sb, le32(img, root + 52), 2, lblock - 12 - n)
    } else if lblock - 12 - n - n * n < n * n * n {
        chase(img, sb, le32(img, root + 56), 3, lblock - 12 - n - n * n)
    } else {
        Ok(None)
    }
}

/// The reach of a pointer on the first three levels.
pub proof fn lemma_reach(n: int)
    ensures
        reach(n, 0) == 1,
        reach(n, 1) == n,
        reach(n, 2) == n * n,
        reach(n, 3) == n * n * n,
{
    reveal_with_fuel(reach, 4);
    assert(n * (n * n) == n * n * n) by (nonlinear_arith);
}

/// Dividing a number below `n * below` by `below` gives a number below
/// `n`, and the remainder is below `below`.
pub proof fn lemma_slot(index: int, n: int, below: int)
    requires
        0 <= index < n * below,
        below > 0,
    ensures
        0 <= index / below < n,
        0 <= index % below < below,
{
    assert(0 <= index / below < n && 0 <= index % below < below) by (nonlinear_arith)
        requires
            0 <= index < n * below,
            below > 0,
    ;
}

/// Finds the block of the image that holds a logical block of a file
/// whose blocks are mapped by block pointers.
pub fn lookup_pointers(image: &[u8], sb: &Superblock, inode: &Inode, lblock: u64) -> (r: Result<
    Option<u64>,
    Ext4Error,
>)
    requires
        sb.wf(),
        inode.in_image(image@),
    ensures
        r == map_pointers(image@, *sb, *inode, lblock),
        r matches Ok(Some(p)) ==> block_in_image(image@, *sb, p),
        r is Err ==> r == Err::<Option<u64>, Ext4Error>(Ext4Error::Corrupt),
{
    proof {
        lemma_len_fits(image);
        sb.lemma_bounds();
        lemma_reach(pointers_per_block(*sb));
    }
    let n: u64 = (sb.block_size / 4) as u64;
    assert(n * n <= 0x4000 * 0x4000 && n * n * n <= 0x4000 * 0x4000 * 0x4000) by (nonlinear_arith)
        requires
            0 <= n <= 0x4000,
    ;
    let root: usize = inode.offset + PAYLOAD_OFFSET;
    let mut slot: usize = 0;
    let mut levels: u8 = 0;
    let mut index: u64 = 0;
    if lblock < DIRECT_POINTERS {
        slot = lblock as usize;
    } else if lblock - 12 < n {
        slot = 12;
        levels = 1;
        index = lblock - 12;
    } else if lblock - 12 - n < n * n {
        slot = 13;
        levels = 2;
        index = lblock - 12 - n;
    } else if lblock - 12 - n - n * n < n * n * n {
        slot = 14;
        levels = 3;
        index = lblock - 12 - n - n * n;
    } else {
        return Ok(None);
    }
    let mut ptr: u32 = read_u32(image, root + 4 * slot);
    loop
        invariant
            sb.wf(),
            image@.len() <= usize::MAX,
            n == pointers_per_block(*sb),
            256 <= n <= 0x4000,
            levels <= 3,
            0 <= index < reach(n as int, levels as nat),
            map_pointers(image@, *sb, *inode, lblock) == chase(
                image@,
                *sb,
                ptr,
                levels as nat,
                index as int,
            ),
        decreases levels,
    {
        if ptr == 0 {
            return Ok(None);
        }
        let start: usize = match locate_block(image, sb, ptr as u64) {
            Some(s) => s,
            None => {
                return Err(Ext4Error::Corrupt);
            },
        };
        if levels == 0 {
            return Ok(Some(ptr as u64));
        }
        proof {
            lemma_reach(n as int);
        }
        let below: u64 = if levels == 1 {
            1
        } else if levels == 2 {
            n
        } else {
            assert(n * n <= 0x4000 * 0x4000) by (nonlinear_arith)
                requires
                    0 <= n <= 0x4000,
            ;
            n * n
        };
        assert(below == reach(n as int, (levels - 1) as nat));
        proof {
            lemma_slot(index as int, n as int, below as int);
        }
        let at: u64 = index / below;
        ptr = read_u32(image, start + 4 * (at as usize));
        index = index % below;
        levels = levels - 1;
    }
}

} // verus!
