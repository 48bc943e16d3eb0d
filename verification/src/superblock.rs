//! The superblock: the header of the image, 1024 bytes from its start.

use crate::bytes::{join32, join_u32, le16, le32, read_u16, read_u32};
use crate::error::Ext4Error;
use vstd::prelude::*;

verus! {

/// Where the superblock starts in the image.
pub const SUPERBLOCK_OFFSET: usize = 1024;

/// The length of the superblock.
pub const SUPERBLOCK_SIZE: usize = 1024;

/// The magic number of the format.
pub const MAGIC: u16 = 0xef53;

/// The inode number of the root directory.
pub const ROOT_INODE: u32 = 2;

/// Incompatible feature: directory entries carry a file type.
pub const INCOMPAT_FILETYPE: u32 = 0x2;

/// Incompatible feature: files may be mapped by extent trees.
pub const INCOMPAT_EXTENTS: u32 = 0x40;

/// Incompatible feature: block numbers have 64 bits.
pub const INCOMPAT_64BIT: u32 = 0x80;

/// Incompatible feature: the metadata of a group may lie in another group.
pub const INCOMPAT_FLEX_BG: u32 = 0x200;

/// The incompatible features that the decoder reads.
pub const INCOMPAT_SUPPORTED: u32 = 0x2c2;

/// The length of a group descriptor where block numbers have 32 bits.
pub const DESC_SIZE_32: u16 = 32;

/// The layout parameters of an image.
#[derive(Clone, Copy, Debug, PartialEq, Eq)]
pub struct Superblock {
    /// The number of inodes.
    pub inodes_count: u32,
    /// The number of blocks.
    pub blocks_count: u64,
    /// The block that holds the superblock.
    pub first_data_block: u32,
    /// The length of a block in bytes.
    pub block_size: u32,
    /// The number of blocks in a group.
    pub blocks_per_group: u32,
    /// The number of inodes in a group.
    pub inodes_per_group: u32,
    /// The length of an inode record in bytes.
    pub inode_size: u16,
    /// The length of a group descriptor in bytes.
    pub desc_size: u16,
    /// The compatible features.
    pub feature_compat: u32,
    /// The incompatible features.
    pub feature_incompat: u32,
    /// The read-only compatible features.
    pub feature_ro_compat: u32,
    /// The number of block groups.
    pub group_count: u32,
}

/// `x` is a power of two from `lo` to `hi`, themselves powers of two.
pub open spec fn is_power_of_two_between(x: int, lo: int, hi: int) -> bool {
    lo <= x <= hi && (x == 32 || x == 64 || x == 128 || x == 256 || x == 512 || x == 1024 || x
        == 2048 || x == 4096 || x == 8192 || x == 16384 || x == 32768 || x == 65536)
}

/// The block size that the field `log` of the superblock stands for.
pub open spec fn block_size_of(log: u32) -> u32
    recommends
        log <= 6,
{
    if log == 0 {
        1024
    } else if log == 1 {
        2048
    } else if log == 2 {
        4096
    } else if log == 3 {
        8192
    } else if log == 4 {
        16384
    } else if log == 5 {
        32768
    } else {
        65536
    }
}

/// The least number of parts of `unit` that hold `total`.
pub open spec fn div_ceil(total: int, unit: int) -> int
    recommends
        unit > 0,
{
    (total + unit - 1) / unit
}

impl Superblock {
    /// The fields agree with each other: the sizes are powers of two in
    /// range, the counts of groups and inodes fit the number of blocks, and
    /// the table of group descriptors lies within the blocks.
    pub open spec fn wf(self) -> bool {
        &&& is_power_of_two_between(self.block_size as int, 1024, 65536)
        &&& is_power_of_two_between(self.inode_size as int, 128, self.block_size as int)
        &&& 0 < self.blocks_per_group <= 8 * self.block_size
        &&& 0 < self.inodes_per_group <= 8 * self.block_size
        &&& self.first_data_block < self.blocks_count
        &&& (self.feature_incompat & !INCOMPAT_SUPPORTED) == 0
        &&& (self.feature_incompat & INCOMPAT_FILETYPE) != 0
        &&& if self.has_64bit() {
            is_power_of_two_between(self.desc_size as int, 64, 1024)
        } else {
            self.desc_size == DESC_SIZE_32
        }
        &&& self.group_count == div_ceil(
            self.blocks_count - self.first_data_block,
            self.blocks_per_group as int,
        )
        &&& self.inodes_count == self.group_count * self.inodes_per_group
        &&& self.first_data_block + 1 + self.descriptor_blocks() <= self.blocks_count
    }

    /// Block numbers have 64 bits.
    pub open spec fn has_64bit(self) -> bool {
        (self.feature_incompat & INCOMPAT_64BIT) != 0
    }

    /// The number of blocks that the table of group descriptors takes.
    pub open spec fn descriptor_blocks(self) -> int {
        div_ceil(self.group_count * self.desc_size, self.block_size as int)
    }

    /// The block where the table of group descriptors starts.
    pub open spec fn descriptor_table_block(self) -> int {
        self.first_data_block + 1
    }

    /// The bounds on the sizes that follow from the fields agreeing.
    pub proof fn lemma_bounds(self)
        requires
            self.wf(),
        ensures
            1024 <= self.block_size <= 65536,
            128 <= self.inode_size <= self.block_size,
            32 <= self.desc_size <= 1024,
            self.has_64bit() ==> 64 <= self.desc_size,
            self.block_size as int / self.inode_size as int >= 1,
            self.block_size as int % 4 == 0,
    {
        assert(self.block_size as int / self.inode_size as int >= 1) by (nonlinear_arith)
            requires
                0 < self.inode_size <= self.block_size,
        ;
    }

    /// The inode number of the root directory.
    pub fn root_inode(&self) -> (r: u32)
        ensures
            r == ROOT_INODE,
    {
        ROOT_INODE
    }
}

/// The field of the superblock that starts `field` bytes into it.
pub open spec fn field32(img: Seq<u8>, field: int) -> u32 {
    le32(img, SUPERBLOCK_OFFSET + field)
}

/// The fields of the superblock as the image holds them, before they are
/// held against each other.
pub open spec fn raw_superblock(img: Seq<u8>) -> Superblock {
    let incompat = field32(img, 0x60);
    let wide = (incompat & INCOMPAT_64BIT) != 0;
    let blocks_count = if wide {
        join32(field32(img, 0x4), field32(img, 0x150))
    } else {
        field32(img, 0x4) as u64
    };
    let first_data_block = field32(img, 0x14);
    let blocks_per_group = field32(img, 0x20);
    Superblock {
        inodes_count: field32(img, 0x0),
        blocks_count,
        first_data_block,
        block_size: block_size_of(field32(img, 0x18)),
        blocks_per_group,
        inodes_per_group: field32(img, 0x28),
        inode_size: le16(img, SUPERBLOCK_OFFSET + 0x58),
        desc_size: if wide {
            le16(img, SUPERBLOCK_OFFSET + 0xfe)
        } else {
            DESC_SIZE_32
        },
        feature_compat: field32(img, 0x5c),
        feature_incompat: incompat,
        feature_ro_compat: field32(img, 0x64),
        group_count: if blocks_per_group > 0 && first_data_block < blocks_count {
            div_ceil(blocks_count - first_data_block, blocks_per_group as int) as u32
        } else {
            0
        },
    }
}

/// What decoding the superblock of `img` gives.
///
/// An image too short to hold a superblock, a wrong magic number, a block
/// size out of range and fields that disagree are `Corrupt`. The first
/// revision of the format, an incompatible feature outside the supported
/// ones and directory entries without a file type are `Unsupported`.
pub open spec fn decode_superblock(img: Seq<u8>) -> Result<Superblock, Ext4Error> {
    if img.len() < SUPERBLOCK_OFFSET + SUPERBLOCK_SIZE {
        Err(Ext4Error::Corrupt)
    } else if le16(img, SUPERBLOCK_OFFSET + 0x38) != MAGIC {
        Err(Ext4Error::Corrupt)
    } else if field32(img, 0x4c) == 0 {
        Err(Ext4Error::Unsupported)
    } else if (field32(img, 0x60) & !INCOMPAT_SUPPORTED) != 0 {
        Err(Ext4Error::Unsupported)
    } else if (field32(img, 0x60) & INCOMPAT_FILETYPE) == 0 {
        Err(Ext4Error::Unsupported)
    } else if field32(img, 0x18) > 6 {
        Err(Ext4Error::Corrupt)
    } else if !raw_superblock(img).wf() {
        Err(Ext4Error::Corrupt)
    } else {
        Ok(raw_superblock(img))
    }
}

/// Whether `x` is a power of two from `lo` to `hi`.
pub fn power_of_two_between(x: u32, lo: u32, hi: u32) -> (r: bool)
    ensures
        r == is_power_of_two_between(x as int, lo as int, hi as int),
{
    lo <= x && x <= hi && (x == 32 || x == 64 || x == 128 || x == 256 || x == 512 || x == 1024
        || x == 2048 || x == 4096 || x == 8192 || x == 16384 || x == 32768 || x == 65536)
}

/// The block size for a value of the field of the superblock.
pub fn block_size_from_log(log: u32) -> (r: u32)
    requires
        log <= 6,
    ensures
        r == block_size_of(log),
        is_power_of_two_between(r as int, 1024, 65536),
{
    if log == 0 {
        1024
    } else if log == 1 {
        2048
    } else if log == 2 {
        4096
    } else if log == 3 {
        8192
    } else if log == 4 {
        16384
    } else if log == 5 {
        32768
    } else {
        65536
    }
}

/// Decodes and validates the superblock of an image.
pub fn parse_superblock(image: &[u8]) -> (r: Result<Superblock, Ext4Error>)
    ensures
        r == decode_superblock(image@),
        r is Ok ==> r->Ok_0.wf(),
{
    if image.len() < SUPERBLOCK_OFFSET + SUPERBLOCK_SIZE {
        return Err(Ext4Error::Corrupt);
    }
    let base: usize = SUPERBLOCK_OFFSET;
    if read_u16(image, base + 0x38) != MAGIC {
        return Err(Ext4Error::Corrupt);
    }
    if read_u32(image, base + 0x4c) == 0 {
        return Err(Ext4Error::Unsupported);
    }
    let incompat: u32 = read_u32(image, base + 0x60);
    if (incompat & !INCOMPAT_SUPPORTED) != 0 {
        return Err(Ext4Error::Unsupported);
    }
    if (incompat & INCOMPAT_FILETYPE) == 0 {
        return Err(Ext4Error::Unsupported);
    }
    let log: u32 = read_u32(image, base + 0x18);
    if log > 6 {
        return Err(Ext4Error::Corrupt);
    }
    let block_size: u32 = block_size_from_log(log);
    let wide: bool = (incompat & INCOMPAT_64BIT) != 0;
    let blocks_lo: u32 = read_u32(image, base + 0x4);
    let blocks_count: u64 = if wide {
        join_u32(blocks_lo, read_u32(image, base + 0x150))
    } else {
        blocks_lo as u64
    };
    let first_data_block: u32 = read_u32(image, base + 0x14);
    let blocks_per_group: u32 = read_u32(image, base + 0x20);
    let inodes_per_group: u32 = read_u32(image, base + 0x28);
    let inodes_count: u32 = read_u32(image, base + 0x0);
    let inode_size: u16 = read_u16(image, base + 0x58);
    let desc_size: u16 = if wide {
        read_u16(image, base + 0xfe)
    } else {
        DESC_SIZE_32
    };
    let feature_compat: u32 = read_u32(image, base + 0x5c);
    let feature_ro_compat: u32 = read_u32(image, base + 0x64);
    let ghost raw = raw_superblock(image@);
    if !power_of_two_between(inode_size as u32, 128, block_size) {
        return Err(Ext4Error::Corrupt);
    }
    if blocks_per_group == 0 || blocks_per_group as u64 > 8 * (block_size as u64) {
        return Err(Ext4Error::Corrupt);
    }
    if inodes_per_group == 0 || inodes_per_group as u64 > 8 * (block_size as u64) {
        return Err(Ext4Error::Corrupt);
    }
    if first_data_block as u64 >= blocks_count {
        return Err(Ext4Error::Corrupt);
    }
    if wide {
        if !power_of_two_between(desc_size as u32, 64, 1024) {
            return Err(Ext4Error::Corrupt);
        }
    }
    let span: u64 = blocks_count - first_data_block as u64;
    let groups: u64 = (span - 1) / (blocks_per_group as u64) + 1;
    assert(groups == div_ceil(span as int, blocks_per_group as int)) by {
        lemma_div_ceil(span as int, blocks_per_group as int);
    }
    if groups > u32::MAX as u64 {
        return Err(Ext4Error::Corrupt);
    }
    assert(groups * (inodes_per_group as u64) <= 0xffff_ffff * 0xffff_ffff) by (nonlinear_arith)
        requires
            groups <= 0xffff_ffff,
            inodes_per_group <= 0xffff_ffff,
    ;
    if groups * (inodes_per_group as u64) != inodes_count as u64 {
        return Err(Ext4Error::Corrupt);
    }
    assert(groups * (desc_size as u64) <= 0xffff_ffff * 0xffff) by (nonlinear_arith)
        requires
            groups <= 0xffff_ffff,
            desc_size <= 0xffff,
    ;
    let table_bytes: u64 = groups * (desc_size as u64);
    let table_blocks: u64 = (table_bytes + (block_size as u64 - 1)) / (block_size as u64);
    if first_data_block as u64 + 1 + table_blocks > blocks_count {
        return Err(Ext4Error::Corrupt);
    }
    let sb = Superblock {
        inodes_count,
        blocks_count,
        first_data_block,
        block_size,
        blocks_per_group,
        inodes_per_group,
        inode_size,
        desc_size,
        feature_compat,
        feature_incompat: incompat,
        feature_ro_compat,
        group_count: groups as u32,
    };
    assert(sb == raw);
    Ok(sb)
}

/// Rounding up by adding the divisor less one is rounding down the
/// predecessor and adding one.
pub proof fn lemma_div_ceil(total: int, unit: int)
    requires
        total > 0,
        unit > 0,
    ensures
        div_ceil(total, unit) == (total - 1) / unit + 1,
{
    assert((total + unit - 1) / unit == (total - 1) / unit + 1) by (nonlinear_arith)
        requires
            total > 0,
            unit > 0,
    ;
}

} // verus!
