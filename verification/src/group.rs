//! The table of block group descriptors, which follows the superblock.

use crate::bytes::{join32, join_u32, le16, le32, lemma_len_fits, read_u16, read_u32};
use crate::error::Ext4Error;
use crate::superblock::{div_ceil, Superblock};
use vstd::prelude::*;

verus! {

/// Where one block group keeps its bitmaps and its inode table.
#[derive(Clone, Copy, Debug, PartialEq, Eq)]
pub struct GroupDescriptor {
    /// The block that holds the bitmap of used blocks.
    pub block_bitmap: u64,
    /// The block that holds the bitmap of used inodes.
    pub inode_bitmap: u64,
    /// The first block of the inode table.
    pub inode_table: u64,
    /// The number of free blocks.
    pub free_blocks_count: u32,
    /// The number of free inodes.
    pub free_inodes_count: u32,
}

/// The position in the image of the descriptor of `group`.
pub open spec fn descriptor_offset(sb: Superblock, group: u32) -> int {
    sb.descriptor_table_block() * sb.block_size + group * sb.desc_size
}

/// The 32-bit halves at `lo` and `hi` of the descriptor at `off`, the high
/// half counting only where block numbers have 64 bits.
pub open spec fn descriptor_location(img: Seq<u8>, sb: Superblock, off: int, lo: int, hi: int) -> u64 {
    if sb.has_64bit() {
        join32(le32(img, off + lo), le32(img, off + hi))
    } else {
        le32(img, off + lo) as u64
    }
}

/// The 16-bit halves at `lo` and `hi` of the descriptor at `off`, as one
/// count.
pub open spec fn descriptor_count(img: Seq<u8>, sb: Superblock, off: int, lo: int, hi: int) -> u32 {
    if sb.has_64bit() {
        (le16(img, off + lo) as int + 0x1_0000 * (le16(img, off + hi) as int)) as u32
    } else {
        le16(img, off + lo) as u32
    }
}

/// The fields of the descriptor of `group` as the image holds them.
pub open spec fn raw_descriptor(img: Seq<u8>, sb: Superblock, group: u32) -> GroupDescriptor {
    let off = descriptor_offset(sb, group);
    GroupDescriptor {
        block_bitmap: descriptor_location(img, sb, off, 0x0, 0x20),
        inode_bitmap: descriptor_location(img, sb, off, 0x4, 0x24),
        inode_table: descriptor_location(img, sb, off, 0x8, 0x28),
        free_blocks_count: descriptor_count(img, sb, off, 0xc, 0x2c),
        free_inodes_count: descriptor_count(img, sb, off, 0xe, 0x2e),
    }
}

/// The number of blocks that the inode table of one group takes.
pub open spec fn inode_table_blocks(sb: Superblock) -> int {
    div_ceil(sb.inodes_per_group * sb.inode_size, sb.block_size as int)
}

/// What decoding the descriptor of `group` gives.
///
/// A group that the image does not have is `NotFound`. A descriptor that
/// the image is too short to hold, or that places a bitmap or any block of
/// the inode table outside the blocks of the image, is `Corrupt`.
pub open spec fn decode_descriptor(img: Seq<u8>, sb: Superblock, group: u32) -> Result<
    GroupDescriptor,
    Ext4Error,
> {
    let d = raw_descriptor(img, sb, group);
    if group >= sb.group_count {
        Err(Ext4Error::NotFound)
    } else if descriptor_offset(sb, group) + sb.desc_size > img.len() {
        Err(Ext4Error::Corrupt)
    } else if d.block_bitmap >= sb.blocks_count || d.inode_bitmap >= sb.blocks_count
        || d.inode_table + inode_table_blocks(sb) > sb.blocks_count {
        Err(Ext4Error::Corrupt)
    } else {
        Ok(d)
    }
}

fn read_location(image: &[u8], sb: &Superblock, off: usize, lo: usize, hi: usize) -> (r: u64)
    requires
        sb.wf(),
        lo + 4 <= 32,
        hi + 4 <= 64,
        off + sb.desc_size <= image@.len(),
    ensures
        r == descriptor_location(image@, *sb, off as int, lo as int, hi as int),
{
    proof {
        sb.lemma_bounds();
        lemma_len_fits(image);
    }
    let low: u32 = read_u32(image, off + lo);
    if (sb.feature_incompat & crate::superblock::INCOMPAT_64BIT) != 0 {
        join_u32(low, read_u32(image, off + hi))
    } else {
        low as u64
    }
}

fn read_count(image: &[u8], sb: &Superblock, off: usize, lo: usize, hi: usize) -> (r: u32)
    requires
        sb.wf(),
        lo + 2 <= 32,
        hi + 2 <= 64,
        off + sb.desc_size <= image@.len(),
    ensures
        r == descriptor_count(image@, *sb, off as int, lo as int, hi as int),
{
    proof {
        sb.lemma_bounds();
        lemma_len_fits(image);
    }
    let low: u16 = read_u16(image, off + lo);
    if (sb.feature_incompat & crate::superblock::INCOMPAT_64BIT) != 0 {
        let high: u16 = read_u16(image, off + hi);
        low as u32 + 0x1_0000 * (high as u32)
    } else {
        low as u32
    }
}

/// Decodes and validates the descriptor of one block group.
pub fn read_descriptor(image: &[u8], sb: &Superblock, group: u32) -> (r: Result<
    GroupDescriptor,
    Ext4Error,
>)
    requires
        sb.wf(),
    ensures
        r == decode_descriptor(image@, *sb, group),
{
    if group >= sb.group_count {
        return Err(Ext4Error::NotFound);
    }
    let bs: u64 = sb.block_size as u64;
    proof {
        sb.lemma_bounds();
    }
    assert((sb.first_data_block + 1) * bs <= 0x1_0000_0000 * 0x1_0000) by (nonlinear_arith)
        requires
            sb.first_data_block <= 0xffff_ffff,
            bs <= 0x1_0000,
    ;
    assert(group * sb.desc_size <= 0x1_0000_0000 * 1024) by (nonlinear_arith)
        requires
            group <= 0xffff_ffff,
            sb.desc_size <= 1024,
    ;
    let table: u64 = (sb.first_data_block as u64 + 1) * bs;
    let off: u64 = table + (group as u64) * (sb.desc_size as u64);
    assert(off == descriptor_offset(*sb, group));
    if off + sb.desc_size as u64 > image.len() as u64 {
        return Err(Ext4Error::Corrupt);
    }
    let at: usize = off as usize;
    let d = GroupDescriptor {
        block_bitmap: read_location(image, sb, at, 0x0, 0x20),
        inode_bitmap: read_location(image, sb, at, 0x4, 0x24),
        inode_table: read_location(image, sb, at, 0x8, 0x28),
        free_blocks_count: read_count(image, sb, at, 0xc, 0x2c),
        free_inodes_count: read_count(image, sb, at, 0xe, 0x2e),
    };
    assert(sb.inodes_per_group * sb.inode_size <= 0x8_0000 * 0x1_0000) by (nonlinear_arith)
        requires
            sb.inodes_per_group <= 0x8_0000,
            sb.inode_size <= 0x1_0000,
    ;
    let table_bytes: u64 = (sb.inodes_per_group as u64) * (sb.inode_size as u64);
    let table_blocks: u64 = (table_bytes + (bs - 1)) / bs;
    assert(table_blocks == inode_table_blocks(*sb));
    assert(table_blocks >= 1) by (nonlinear_arith)
        requires
            table_blocks == (table_bytes + (bs - 1)) / (bs as int),
            table_bytes == sb.inodes_per_group * sb.inode_size,
            sb.inodes_per_group >= 1,
            sb.inode_size >= 1,
            bs >= 1,
    ;
    if d.block_bitmap >= sb.blocks_count || d.inode_bitmap >= sb.blocks_count || d.inode_table
        >= sb.blocks_count || table_blocks > sb.blocks_count - d.inode_table {
        return Err(Ext4Error::Corrupt);
    }
    Ok(d)
}

} // verus!
