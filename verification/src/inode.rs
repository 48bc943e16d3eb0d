//! Inode records: the metadata of one file, directory or link.

use crate::block::{block_in_image, block_start, locate_block};
use crate::bytes::{join32, join_u32, le16, le32, lemma_len_fits, read_u16, read_u32};
use crate::error::Ext4Error;
use crate::group::{decode_descriptor, read_descriptor};
use crate::superblock::Superblock;
use vstd::prelude::*;

verus! {

/// The bits of the mode that give the type of the file.
pub const MODE_TYPE_MASK: u16 = 0xf000;

/// The type bits of a directory.
pub const MODE_DIRECTORY: u16 = 0x4000;

/// The type bits of a regular file.
pub const MODE_REGULAR: u16 = 0x8000;

/// The type bits of a symbolic link.
pub const MODE_SYMLINK: u16 = 0xa000;

/// Inode flag: the blocks of the file are mapped by an extent tree.
pub const FLAG_EXTENTS: u32 = 0x8_0000;

/// Where the block mapping starts within an inode record.
pub const PAYLOAD_OFFSET: usize = 0x28;

/// The length of the block mapping of an inode record.
pub const PAYLOAD_SIZE: usize = 60;

/// The decoded fields of an inode record.
#[derive(Clone, Copy, Debug, PartialEq, Eq)]
pub struct Inode {
    /// The number of the inode, counted from 1.
    pub number: u32,
    /// The type and permission bits.
    pub mode: u16,
    /// The length of the content in bytes.
    pub size: u64,
    /// The number of directory entries that name the inode.
    pub links_count: u16,
    /// The flags.
    pub flags: u32,
    /// The position in the image of the record.
    pub offset: usize,
}

impl Inode {
    /// The inode is a directory.
    pub open spec fn spec_is_dir(&self) -> bool {
        (self.mode & MODE_TYPE_MASK) == MODE_DIRECTORY
    }

    /// The inode is a regular file.
    pub open spec fn spec_is_regular(&self) -> bool {
        (self.mode & MODE_TYPE_MASK) == MODE_REGULAR
    }

    /// The inode is a symbolic link.
    pub open spec fn spec_is_symlink(&self) -> bool {
        (self.mode & MODE_TYPE_MASK) == MODE_SYMLINK
    }

    /// The blocks are mapped by an extent tree, not by block pointers.
    pub open spec fn spec_uses_extents(&self) -> bool {
        (self.flags & FLAG_EXTENTS) != 0
    }

    /// The position in the image of the block mapping.
    pub open spec fn payload(self) -> int {
        self.offset + PAYLOAD_OFFSET
    }

    /// The image holds the whole record at the place that the inode names.
    pub open spec fn in_image(self, img: Seq<u8>) -> bool {
        self.offset + 128 <= img.len()
    }

    /// Whether the inode is a directory.
    #[verifier::when_used_as_spec(spec_is_dir)]
    pub fn is_dir(&self) -> (r: bool)
        ensures
            r == self.spec_is_dir(),
    {
        (self.mode & MODE_TYPE_MASK) == MODE_DIRECTORY
    }

    /// Whether the inode is a regular file.
    #[verifier::when_used_as_spec(spec_is_regular)]
    pub fn is_regular(&self) -> (r: bool)
        ensures
            r == self.spec_is_regular(),
    {
        (self.mode & MODE_TYPE_MASK) == MODE_REGULAR
    }

    /// Whether the inode is a symbolic link.
    #[verifier::when_used_as_spec(spec_is_symlink)]
    pub fn is_symlink(&self) -> (r: bool)
        ensures
            r == self.spec_is_symlink(),
    {
        (self.mode & MODE_TYPE_MASK) == MODE_SYMLINK
    }

    /// Whether the blocks are mapped by an extent tree.
    #[verifier::when_used_as_spec(spec_uses_extents)]
    pub fn uses_extents(&self) -> (r: bool)
        ensures
            r == self.spec_uses_extents(),
    {
        (self.flags & FLAG_EXTENTS) != 0
    }
}

/// The number of inode records in one block.
pub open spec fn inodes_per_block(sb: Superblock) -> int {
    sb.block_size as int / sb.inode_size as int
}

/// The block of the inode table of its group that holds inode `ino`.
pub open spec fn inode_block(sb: Superblock, table: u64, ino: u32) -> int {
    table + ((ino - 1) % sb.inodes_per_group as int) / inodes_per_block(sb)
}

/// The position of the record of inode `ino` within its block.
pub open spec fn inode_offset_in_block(sb: Superblock, ino: u32) -> int {
    (((ino - 1) % sb.inodes_per_group as int) % inodes_per_block(sb)) * sb.inode_size
}

/// The fields of the inode record at `off`.
pub open spec fn inode_at(img: Seq<u8>, number: u32, off: int) -> Inode {
    Inode {
        number,
        mode: le16(img, off),
        size: join32(le32(img, off + 0x4), le32(img, off + 0x6c)),
        links_count: le16(img, off + 0x1a),
        flags: le32(img, off + 0x20),
        offset: off as usize,
    }
}

/// What decoding inode `ino` gives.
///
/// The number zero and a number greater than the count of the superblock
/// are `NotFound`. A descriptor that fails to decode gives its error. A
/// record outside the blocks of the image is `Corrupt`.
pub open spec fn decode_inode(img: Seq<u8>, sb: Superblock, ino: u32) -> Result<Inode, Ext4Error> {
    if ino == 0 || ino > sb.inodes_count {
        Err(Ext4Error::NotFound)
    } else {
        match decode_descriptor(img, sb, ((ino - 1) / sb.inodes_per_group as int) as u32) {
            Err(e) => Err(e),
            Ok(d) => {
                let blk = inode_block(sb, d.inode_table, ino);
                if blk > u64::MAX || !block_in_image(img, sb, blk as u64) {
                    Err(Ext4Error::Corrupt)
                } else {
                    Ok(
                        inode_at(
                            img,
                            ino,
                            block_start(sb, blk as u64) + inode_offset_in_block(sb, ino),
                        ),
                    )
                }
            },
        }
    }
}

/// Decodes the record of one inode.
pub fn read_inode(image: &[u8], sb: &Superblock, ino: u32) -> (r: Result<Inode, Ext4Error>)
    requires
        sb.wf(),
    ensures
        r == decode_inode(image@, *sb, ino),
        r is Ok ==> r->Ok_0.in_image(image@) && r->Ok_0.number == ino,
{
    if ino == 0 || ino > sb.inodes_count {
        return Err(Ext4Error::NotFound);
    }
    let group: u32 = (ino - 1) / sb.inodes_per_group;
    let index: u32 = (ino - 1) % sb.inodes_per_group;
    let d = read_descriptor(image, sb, group)?;
    proof {
        sb.lemma_bounds();
        lemma_len_fits(image);
    }
    let per_block: u32 = sb.block_size / (sb.inode_size as u32);
    let ahead: u64 = (index / per_block) as u64;
    if d.inode_table > u64::MAX - ahead {
        return Err(Ext4Error::Corrupt);
    }
    let blk: u64 = d.inode_table + ahead;
    let start: usize = match locate_block(image, sb, blk) {
        Some(s) => s,
        None => {
            return Err(Ext4Error::Corrupt);
        },
    };
    let slot: u32 = index % per_block;
    assert(slot * sb.inode_size + sb.inode_size <= sb.block_size) by (nonlinear_arith)
        requires
            slot <= per_block - 1,
            per_block == sb.block_size as int / sb.inode_size as int,
            sb.inode_size > 0,
    ;
    let within: usize = (slot as usize) * (sb.inode_size as usize);
    let off: usize = start + within;
    Ok(
        Inode {
            number: ino,
            mode: read_u16(image, off),
            size: join_u32(read_u32(image, off + 0x4), read_u32(image, off + 0x6c)),
            links_count: read_u16(image, off + 0x1a),
            flags: read_u32(image, off + 0x20),
            offset: off,
        },
    )
}

} // verus!
