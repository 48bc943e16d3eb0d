//! Extent trees: the mapping from the logical blocks of a file to the
//! blocks of the image, as a tree of sorted nodes.
//!
//! A node is a header of 12 bytes followed by entries of 12 bytes. The root
//! lies in the inode record and every other node takes one block. The
//! entries of a leaf are extents, runs of blocks; those of any other node
//! name a child node each.

use crate::block::{block_in_image, block_start, locate_block};
use crate::bytes::{le16, le32, lemma_len_fits, read_u16, read_u32};
use crate::error::Ext4Error;
use crate::inode::{Inode, PAYLOAD_OFFSET, PAYLOAD_SIZE};
use crate::superblock::Superblock;
use vstd::prelude::*;

verus! {

/// The magic number of a node.
pub const EXTENT_MAGIC: u16 = 0xf30a;

/// The greatest depth of a tree.
pub const MAX_DEPTH: u16 = 5;

/// The length of the header of a node, and of each of its entries.
pub const NODE_UNIT: usize = 12;

/// The greatest length of an extent that has been written. A greater
/// length field, less this number, is the length of an extent that was
/// allocated and never written.
pub const MAX_WRITTEN_LEN: u16 = 32768;

/// A run of logical blocks and the blocks of the image that hold them.
#[derive(Clone, Copy, Debug, PartialEq, Eq)]
pub struct Extent {
    /// The first logical block of the run.
    pub first: u32,
    /// The number of blocks of the run.
    pub len: u16,
    /// The run has been written; otherwise it reads as zeros.
    pub written: bool,
    /// The block of the image that holds the first block of the run.
    pub start: u64,
}

/// The entry of an inner node: the child that holds the logical blocks from
/// `first` on.
#[derive(Clone, Copy, Debug, PartialEq, Eq)]
pub struct IndexEntry {
    /// The first logical block that the child may hold.
    pub first: u32,
    /// The block of the image that holds the child.
    pub child: u64,
}

impl Extent {
    /// The logical block after the last one of the run.
    pub open spec fn end(self) -> int {
        self.first + self.len
    }

    /// The run holds logical block `lblock`.
    pub open spec fn covers(self, lblock: u32) -> bool {
        self.first <= lblock < self.end()
    }
}

/// The number of entries that the node at `off` holds.
pub open spec fn node_entries(img: Seq<u8>, off: int) -> u16 {
    le16(img, off + 2)
}

/// The number of entries that the node at `off` has room for.
pub open spec fn node_capacity(img: Seq<u8>, off: int) -> u16 {
    le16(img, off + 4)
}

/// The depth of the node at `off`: zero for a leaf.
pub open spec fn node_depth(img: Seq<u8>, off: int) -> u16 {
    le16(img, off + 6)
}

/// The header of the node at `off` is that of a node of depth `depth`
/// which, with all the entries it has room for, takes at most `room` bytes.
pub open spec fn node_ok(img: Seq<u8>, off: int, room: int, depth: int) -> bool {
    &&& le16(img, off) == EXTENT_MAGIC
    &&& node_entries(img, off) <= node_capacity(img, off)
    &&& NODE_UNIT + NODE_UNIT * node_capacity(img, off) <= room
    &&& node_depth(img, off) == depth
}

/// The position of entry `i` of the node at `off`.
pub open spec fn entry_pos(off: int, i: int) -> int {
    off + NODE_UNIT + NODE_UNIT * i
}

/// The extent that the 12 bytes at `pos` hold.
pub open spec fn extent_at(img: Seq<u8>, pos: int) -> Extent {
    let raw = le16(img, pos + 4);
    Extent {
        first: le32(img, pos),
        len: if raw > MAX_WRITTEN_LEN {
            (raw - MAX_WRITTEN_LEN) as u16
        } else {
            raw
        },
        written: raw <= MAX_WRITTEN_LEN,
        start: (le32(img, pos + 8) as int + 0x1_0000_0000 * (le16(img, pos + 6) as int)) as u64,
    }
}

/// The index entry that the 12 bytes at `pos` hold.
pub open spec fn index_at(img: Seq<u8>, pos: int) -> IndexEntry {
    IndexEntry {
        first: le32(img, pos),
        child: (le32(img, pos + 4) as int + 0x1_0000_0000 * (le16(img, pos + 8) as int)) as u64,
    }
}

/// Extent `i` of the leaf at `off` is not empty, ends within the logical
/// blocks that 32 bits number, and starts where the extent before it ends
/// or later.
pub open spec fn extent_in_order(img: Seq<u8>, off: int, i: int) -> bool {
    let e = extent_at(img, entry_pos(off, i));
    &&& e.len > 0
    &&& e.end() <= 0x1_0000_0000
    &&& i > 0 ==> extent_at(img, entry_pos(off, i - 1)).end() <= e.first
}

/// The first `n` extents of the leaf at `off` are sorted and do not
/// overlap.
pub open spec fn leaf_ordered(img: Seq<u8>, off: int, n: int) -> bool {
    forall|i: int| 0 <= i < n ==> #[trigger] extent_in_order(img, off, i)
}

/// Index entry `i` of the node at `off` starts after the entry before it.
pub open spec fn index_in_order(img: Seq<u8>, off: int, i: int) -> bool {
    i > 0 ==> index_at(img, entry_pos(off, i - 1)).first < index_at(img, entry_pos(off, i)).first
}

/// The first `n` index entries of the node at `off` are sorted.
pub open spec fn index_ordered(img: Seq<u8>, off: int, n: int) -> bool {
    forall|i: int| 0 <= i < n ==> #[trigger] index_in_order(img, off, i)
}

/// The first of the first `n` extents of the leaf at `off` that holds
/// `lblock`.
pub open spec fn leaf_find(img: Seq<u8>, off: int, n: int, lblock: u32) -> Option<Extent>
    decreases n,
{
    if n <= 0 {
        None
    } else {
        match leaf_find(img, off, n - 1, lblock) {
            Some(e) => Some(e),
            None => {
                let e = extent_at(img, entry_pos(off, n - 1));
                if e.covers(lblock) {
                    Some(e)
                } else {
                    None
                }
            },
        }
    }
}

/// The last of the first `n` index entries of the node at `off` that
/// starts at `lblock` or before it.
pub open spec fn index_find(img: Seq<u8>, off: int, n: int, lblock: u32) -> Option<IndexEntry>
    decreases n,
{
    if n <= 0 {
        None
    } else {
        let e = index_at(img, entry_pos(off, n - 1));
        if e.first <= lblock {
            Some(e)
        } else {
            index_find(img, off, n - 1, lblock)
        }
    }
}

/// In a leaf whose extents are in order, an extent ends where each later
/// one starts, or before.
pub proof fn lemma_leaf_sorted(img: Seq<u8>, off: int, n: int, i: int, j: int)
    requires
        leaf_ordered(img, off, n),
        0 <= i < j < n,
    ensures
        extent_at(img, entry_pos(off, i)).end() <= extent_at(img, entry_pos(off, j)).first,
    decreases j - i,
{
    assert(extent_in_order(img, off, j));
    if i < j - 1 {
        lemma_leaf_sorted(img, off, n, i, j - 1);
        assert(extent_in_order(img, off, j - 1));
    }
}

/// In a leaf whose extents are in order, the search finds the one extent
/// that holds the block, and finds none where no extent holds it.
pub proof fn lemma_leaf_find(img: Seq<u8>, off: int, n: int, lblock: u32)
    requires
        leaf_ordered(img, off, n),
    ensures
        match leaf_find(img, off, n, lblock) {
            None => forall|i: int|
                0 <= i < n ==> !(#[trigger] extent_at(img, entry_pos(off, i))).covers(lblock),
            Some(e) => exists|i: int|
                0 <= i < n && e == extent_at(img, entry_pos(off, i)) && e.covers(lblock)
                    && forall|j: int|
                    0 <= j < n && j != i ==> !(#[trigger] extent_at(img, entry_pos(off, j))).covers(
                        lblock,
                    ),
        },
    decreases n,
{
    if n > 0 {
        assert(leaf_ordered(img, off, n - 1));
        lemma_leaf_find(img, off, n - 1, lblock);
        let last = extent_at(img, entry_pos(off, n - 1));
        match leaf_find(img, off, n - 1, lblock) {
            Some(e) => {
                let i = choose|i: int|
                    0 <= i < n - 1 && e == extent_at(img, entry_pos(off, i)) && e.covers(lblock)
                        && forall|j: int|
                        0 <= j < n - 1 && j != i ==> !(#[trigger] extent_at(
                            img,
                            entry_pos(off, j),
                        )).covers(lblock);
                lemma_leaf_sorted(img, off, n, i, n - 1);
                assert forall|j: int| 0 <= j < n && j != i implies !(#[trigger] extent_at(
                    img,
                    entry_pos(off, j),
                )).covers(lblock) by {
                    if j == n - 1 {
                        assert(!last.covers(lblock));
                    }
                }
            },
            None => {
                if last.covers(lblock) {
                    assert forall|j: int| 0 <= j < n && j != n - 1 implies !(#[trigger] extent_at(
                        img,
                        entry_pos(off, j),
                    )).covers(lblock) by {}
                }
            },
        }
    }
}

/// In a node whose entries are in order, each entry starts before each
/// later one.
pub proof fn lemma_index_sorted(img: Seq<u8>, off: int, n: int, i: int, j: int)
    requires
        index_ordered(img, off, n),
        0 <= i < j < n,
    ensures
        index_at(img, entry_pos(off, i)).first < index_at(img, entry_pos(off, j)).first,
    decreases j - i,
{
    assert(index_in_order(img, off, j));
    if i < j - 1 {
        lemma_index_sorted(img, off, n, i, j - 1);
    }
}

/// In a node whose entries are in order, the search finds the entry with
/// the greatest start at or before the block, and finds none where every
/// entry starts after the block.
pub proof fn lemma_index_find(img: Seq<u8>, off: int, n: int, lblock: u32)
    requires
        index_ordered(img, off, n),
    ensures
        match index_find(img, off, n, lblock) {
            None => forall|i: int|
                0 <= i < n ==> (#[trigger] index_at(img, entry_pos(off, i))).first > lblock,
            Some(e) => exists|i: int|
                0 <= i < n && e == index_at(img, entry_pos(off, i)) && e.first <= lblock
                    && forall|j: int|
                    0 <= j < n && (#[trigger] index_at(img, entry_pos(off, j))).first <= lblock
                        ==> index_at(img, entry_pos(off, j)).first <= e.first,
        },
    decreases n,
{
    if n > 0 {
        let last = index_at(img, entry_pos(off, n - 1));
        if last.first <= lblock {
            assert forall|j: int|
                0 <= j < n && (#[trigger] index_at(img, entry_pos(off, j))).first
                    <= lblock implies index_at(img, entry_pos(off, j)).first <= last.first by {
                if j < n - 1 {
                    lemma_index_sorted(img, off, n, j, n - 1);
                }
            }
        } else {
            assert(index_ordered(img, off, n - 1));
            lemma_index_find(img, off, n - 1, lblock);
        }
    }
}

/// The extent that is found holds the block that was looked for, and
/// starts at a block that 48 bits number.
pub proof fn lemma_leaf_find_covers(img: Seq<u8>, off: int, n: int, lblock: u32)
    ensures
        leaf_find(img, off, n, lblock) matches Some(e) ==> e.covers(lblock) && e.start
            < 0x1_0000_0000_0000,
    decreases n,
{
    if n > 0 {
        lemma_leaf_find_covers(img, off, n - 1, lblock);
    }
}

/// What an extent says of logical block `lblock`, which it holds: nothing
/// where it was never written, else the block of the image, which must lie
/// within the image.
pub open spec fn extent_target(img: Seq<u8>, sb: Superblock, e: Extent, lblock: u32) -> Result<
    Option<u64>,
    Ext4Error,
> {
    let p = e.start + (lblock - e.first);
    if !e.written {
        Ok(None)
    } else if p <= u64::MAX && block_in_image(img, sb, p as u64) {
        Ok(Some(p as u64))
    } else {
        Err(Ext4Error::Corrupt)
    }
}

/// What the subtree whose root is the node at `off` says of logical block
/// `lblock`: the block of the image that holds it, or none where no
/// written extent holds it.
///
/// A node with a wrong header or with entries out of order, and a block
/// number outside the image, are `Corrupt`.
pub open spec fn walk_extents(
    img: Seq<u8>,
    sb: Superblock,
    off: int,
    room: int,
    depth: nat,
    lblock: u32,
) -> Result<Option<u64>, Ext4Error>
    decreases depth,
{
    let n = node_entries(img, off) as int;
    if !node_ok(img, off, room, depth as int) {
        Err(Ext4Error::Corrupt)
    } else if depth == 0 {
        if !leaf_ordered(img, off, n) {
            Err(Ext4Error::Corrupt)
        } else {
            match leaf_find(img, off, n, lblock) {
                None => Ok(None),
                Some(e) => extent_target(img, sb, e, lblock),
            }
        }
    } else {
        if !index_ordered(img, off, n) {
            Err(Ext4Error::Corrupt)
        } else {
            match index_find(img, off, n, lblock) {
                None => Ok(None),
                Some(e) => if !block_in_image(img, sb, e.child) {
                    Err(Ext4Error::Corrupt)
                } else {
                    walk_extents(
                        img,
                        sb,
                        block_start(sb, e.child),
                        sb.block_size as int,
                        (depth - 1) as nat,
                        lblock,
                    )
                },
            }
        }
    }
}

/// A block that the tree gives lies within the image, and the only error
/// is `Corrupt`.
pub proof fn lemma_walk_extents(
    img: Seq<u8>,
    sb: Superblock,
    off: int,
    room: int,
    depth: nat,
    lblock: u32,
)
    ensures
        walk_extents(img, sb, off, room, depth, lblock) matches Ok(Some(p)) ==> block_in_image(
            img,
            sb,
            p,
        ),
        walk_extents(img, sb, off, room, depth, lblock) matches Err(e) ==> e == Ext4Error::Corrupt,
    decreases depth,
{
    if depth > 0 {
        let n = node_entries(img, off) as int;
        if let Some(e) = index_find(img, off, n, lblock) {
            lemma_walk_extents(
                img,
                sb,
                block_start(sb, e.child),
                sb.block_size as int,
                (depth - 1) as nat,
                lblock,
            );
        }
    }
}

/// What the extent tree of `inode` says of logical block `lblock`.
///
/// A logical block that 32 bits do not number is held by no extent. A tree
/// deeper than five levels is `Corrupt`.
pub open spec fn map_extents(img: Seq<u8>, sb: Superblock, inode: Inode, lblock: u64) -> Result<
    Option<u64>,
    Ext4Error,
> {
    if lblock > u32::MAX {
        Ok(None)
    } else if node_depth(img, inode.payload()) > MAX_DEPTH {
        Err(Ext4Error::Corrupt)
    } else {
        walk_extents(
            img,
            sb,
            inode.payload(),
            PAYLOAD_SIZE as int,
            node_depth(img, inode.payload()) as nat,
            lblock as u32,
        )
    }
}

/// Decodes the extent at `pos`.
pub fn read_extent(image: &[u8], pos: usize) -> (r: Extent)
    requires
        pos + NODE_UNIT <= image@.len(),
    ensures
        r == extent_at(image@, pos as int),
{
    proof {
        lemma_len_fits(image);
    }
    let raw: u16 = read_u16(image, pos + 4);
    let hi: u16 = read_u16(image, pos + 6);
    let lo: u32 = read_u32(image, pos + 8);
    Extent {
        first: read_u32(image, pos),
        len: if raw > MAX_WRITTEN_LEN {
            raw - MAX_WRITTEN_LEN
        } else {
            raw
        },
        written: raw <= MAX_WRITTEN_LEN,
        start: lo as u64 + 0x1_0000_0000 * (hi as u64),
    }
}

/// Decodes the index entry at `pos`.
pub fn read_index_entry(image: &[u8], pos: usize) -> (r: IndexEntry)
    requires
        pos + NODE_UNIT <= image@.len(),
    ensures
        r == index_at(image@, pos as int),
{
    proof {
        lemma_len_fits(image);
    }
    let lo: u32 = read_u32(image, pos + 4);
    let hi: u16 = read_u16(image, pos + 8);
    IndexEntry { first: read_u32(image, pos), child: lo as u64 + 0x1_0000_0000 * (hi as u64) }
}

/// Checks the order of the extents of a leaf and finds the one that holds
/// `lblock`.
pub fn search_leaf(image: &[u8], off: usize, n: u16, lblock: u32) -> (r: Result<
    Option<Extent>,
    Ext4Error,
>)
    requires
        off + NODE_UNIT + NODE_UNIT * n <= image@.len(),
    ensures
        r == if leaf_ordered(image@, off as int, n as int) {
            Ok(leaf_find(image@, off as int, n as int, lblock))
        } else {
            Err(Ext4Error::Corrupt)
        },
{
    proof {
        lemma_len_fits(image);
    }
    let mut found: Option<Extent> = None;
    let mut last_end: u64 = 0;
    let mut i: u16 = 0;
    while i < n
        invariant
            i <= n,
            off + NODE_UNIT + NODE_UNIT * n <= image@.len(),
            image@.len() <= usize::MAX,
            leaf_ordered(image@, off as int, i as int),
            found == leaf_find(image@, off as int, i as int, lblock),
            i > 0 ==> last_end == extent_at(image@, entry_pos(off as int, i - 1)).end(),
            i == 0 ==> last_end == 0,
        decreases n - i,
    {
        let e = read_extent(image, off + NODE_UNIT + NODE_UNIT * (i as usize));
        let end: u64 = e.first as u64 + e.len as u64;
        if e.len == 0 || end > 0x1_0000_0000 || last_end > e.first as u64 {
            assert(!extent_in_order(image@, off as int, i as int));
            return Err(Ext4Error::Corrupt);
        }
        assert(extent_in_order(image@, off as int, i as int));
        if found.is_none() && e.first <= lblock && (lblock as u64) < end {
            found = Some(e);
        }
        last_end = end;
        i += 1;
    }
    Ok(found)
}

/// Checks the order of the entries of an inner node and finds the one
/// whose child may hold `lblock`.
pub fn search_index(image: &[u8], off: usize, n: u16, lblock: u32) -> (r: Result<
    Option<IndexEntry>,
    Ext4Error,
>)
    requires
        off + NODE_UNIT + NODE_UNIT * n <= image@.len(),
    ensures
        r == if index_ordered(image@, off as int, n as int) {
            Ok(index_find(image@, off as int, n as int, lblock))
        } else {
            Err(Ext4Error::Corrupt)
        },
{
    proof {
        lemma_len_fits(image);
    }
    let mut found: Option<IndexEntry> = None;
    let mut last_first: u32 = 0;
    let mut i: u16 = 0;
    while i < n
        invariant
            i <= n,
            off + NODE_UNIT + NODE_UNIT * n <= image@.len(),
            image@.len() <= usize::MAX,
            index_ordered(image@, off as int, i as int),
            found == index_find(image@, off as int, i as int, lblock),
            i > 0 ==> last_first == index_at(image@, entry_pos(off as int, i - 1)).first,
        decreases n - i,
    {
        let e = read_index_entry(image, off + NODE_UNIT + NODE_UNIT * (i as usize));
        if i > 0 && last_first >= e.first {
            assert(!index_in_order(image@, off as int, i as int));
            return Err(Ext4Error::Corrupt);
        }
        assert(index_in_order(image@, off as int, i as int));
        if e.first <= lblock {
            found = Some(e);
        }
        last_first = e.first;
        i += 1;
    }
    Ok(found)
}

/// Checks the header of the node at `off` and gives the number of its
/// entries.
pub fn check_node(image: &[u8], off: usize, room: usize, depth: u16) -> (r: Option<u16>)
    requires
        NODE_UNIT <= room,
        off + room <= image@.len(),
    ensures
        r is Some <==> node_ok(image@, off as int, room as int, depth as int),
        r is Some ==> r->Some_0 == node_entries(image@, off as int),
{
    proof {
        lemma_len_fits(image);
    }
    let magic: u16 = read_u16(image, off);
    let entries: u16 = read_u16(image, off + 2);
    let capacity: u16 = read_u16(image, off + 4);
    let found_depth: u16 = read_u16(image, off + 6);
    if magic == EXTENT_MAGIC && entries <= capacity && NODE_UNIT + NODE_UNIT * (capacity as usize)
        <= room && found_depth == depth {
        Some(entries)
    } else {
        None
    }
}

/// Finds the block of the image that holds a logical block of a file
/// whose blocks are mapped by an extent tree.
pub fn lookup_extents(image: &[u8], sb: &Superblock, inode: &Inode, lblock: u64) -> (r: Result<
    Option<u64>,
    Ext4Error,
>)
    requires
        sb.wf(),
        inode.in_image(image@),
    ensures
        r == map_extents(image@, *sb, *inode, lblock),
        r matches Ok(Some(p)) ==> block_in_image(image@, *sb, p),
        r is Err ==> r == Err::<Option<u64>, Ext4Error>(Ext4Error::Corrupt),
{
    proof {
        lemma_len_fits(image);
        sb.lemma_bounds();
    }
    if lblock > u32::MAX as u64 {
        return Ok(None);
    }
    let target: u32 = lblock as u32;
    let root: usize = inode.offset + PAYLOAD_OFFSET;
    let mut depth: u16 = read_u16(image, root + 6);
    if depth > MAX_DEPTH {
        return Err(Ext4Error::Corrupt);
    }
    let mut off: usize = root;
    let mut room: usize = PAYLOAD_SIZE;
    loop
        invariant
            sb.wf(),
            NODE_UNIT <= room,
            off + room <= image@.len(),
            image@.len() <= usize::MAX,
            lblock <= u32::MAX,
            target == lblock,
            map_extents(image@, *sb, *inode, lblock) == walk_extents(
                image@,
                *sb,
                off as int,
                room as int,
                depth as nat,
                target,
            ),
        decreases depth,
    {
        let n: u16 = match check_node(image, off, room, depth) {
            Some(n) => n,
            None => {
                return Err(Ext4Error::Corrupt);
            },
        };
        if depth == 0 {
            return match search_leaf(image, off, n, target)? {
                None => Ok(None),
                Some(e) => {
                    proof {
                        lemma_leaf_find_covers(image@, off as int, n as int, target);
                    }
                    if !e.written {
                        Ok(None)
                    } else {
                        let p: u64 = e.start + (target - e.first) as u64;
                        match locate_block(image, sb, p) {
                            Some(_) => Ok(Some(p)),
                            None => Err(Ext4Error::Corrupt),
                        }
                    }
                },
            };
        }
        match search_index(image, off, n, target)? {
            None => {
                return Ok(None);
            },
            Some(e) => {
                match locate_block(image, sb, e.child) {
                    None => {
                        return Err(Ext4Error::Corrupt);
                    },
                    Some(start) => {
                        off = start;
                        room = sb.block_size as usize;
                        depth = depth - 1;
                    },
                }
            },
        }
    }
}

} // verus!
