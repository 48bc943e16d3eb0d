//! Directory entries: the records that the blocks of a directory hold.
//!
//! A record is a header of 8 bytes (inode number, record length, name
//! length, file type) followed by the name. The records of a block follow
//! each other and fill it. A record with inode number zero is unused. The
//! entries `.` and `..` are records like any other.

use crate::block::{block_start, locate_block};
use crate::bytes::{le16, le32, lemma_len_fits, read_u16, read_u32};
use crate::error::Ext4Error;
use crate::inode::Inode;
use crate::mapper::{lookup_block, map_block};
use crate::path::{is_component, SEPARATOR};
use crate::superblock::Superblock;
use vstd::prelude::*;

verus! {

/// The length of the header of a record.
pub const ENTRY_HEADER: u32 = 8;

/// What kind of file a directory entry names, as the entry says it.
#[derive(Clone, Copy, Debug, PartialEq, Eq, Structural)]
pub enum FileType {
    /// The entry does not say.
    Unknown,
    /// A regular file.
    Regular,
    /// A directory.
    Directory,
    /// A character device.
    CharDevice,
    /// A block device.
    BlockDevice,
    /// A named pipe.
    Fifo,
    /// A socket.
    Socket,
    /// A symbolic link.
    Symlink,
}

/// One entry of a directory, as a value.
pub struct EntryView {
    /// The inode that the entry names.
    pub inode: u32,
    /// The kind of file.
    pub file_type: FileType,
    /// The name.
    pub name: Seq<u8>,
}

/// A place in the entries of a directory: a logical block and a position
/// within it.
#[derive(Clone, Copy, Debug, PartialEq, Eq)]
pub struct DirPos {
    /// The logical block.
    pub lblock: u64,
    /// The position within the block.
    pub off: u32,
}

/// An entry found in the image: where its name lies, and the place after
/// the entry.
#[derive(Clone, Copy, Debug, PartialEq, Eq)]
pub struct Slot {
    /// The inode that the entry names.
    pub inode: u32,
    /// The kind of file.
    pub file_type: FileType,
    /// The position in the image of the name.
    pub name_at: usize,
    /// The length of the name.
    pub name_len: u8,
    /// The place after the entry.
    pub next: DirPos,
}

impl Slot {
    /// The entry as a value, its name taken from `img`.
    pub open spec fn entry(self, img: Seq<u8>) -> EntryView {
        EntryView {
            inode: self.inode,
            file_type: self.file_type,
            name: img.subrange(self.name_at as int, self.name_at + self.name_len),
        }
    }
}

/// The kind of file that the tag of a record stands for.
pub open spec fn file_type_of(tag: u8) -> FileType {
    if tag == 1 {
        FileType::Regular
    } else if tag == 2 {
        FileType::Directory
    } else if tag == 3 {
        FileType::CharDevice
    } else if tag == 4 {
        FileType::BlockDevice
    } else if tag == 5 {
        FileType::Fifo
    } else if tag == 6 {
        FileType::Socket
    } else if tag == 7 {
        FileType::Symlink
    } else {
        FileType::Unknown
    }
}

/// `n` rounded up to a multiple of four.
pub open spec fn pad4(n: int) -> int {
    (n + 3) / 4 * 4
}

/// The length of a record whose length field holds `raw`. Blocks of 64 KiB
/// need one bit more than the field has: there the two lowest bits of the
/// field stand above the others, and the values 0 and 65535 stand for a
/// whole block.
pub open spec fn record_length(raw: u16, bs: int) -> int {
    if bs < 0x1_0000 {
        raw as int
    } else if raw == 0 || raw == 0xffff {
        0x1_0000
    } else {
        (raw as int / 4) * 4 + (raw as int % 4) * 0x1_0000
    }
}

/// The inode number of the record at `pos`.
pub open spec fn record_inode(img: Seq<u8>, pos: int) -> u32 {
    le32(img, pos)
}

/// The length of the name of the record at `pos`.
pub open spec fn record_name_len(img: Seq<u8>, pos: int) -> u8 {
    img[pos + 6]
}

/// The name of the record at `pos`.
pub open spec fn record_name(img: Seq<u8>, pos: int) -> Seq<u8> {
    img.subrange(pos + 8, pos + 8 + record_name_len(img, pos))
}

/// The entry that the record at `pos` holds.
pub open spec fn entry_at(img: Seq<u8>, pos: int) -> EntryView {
    EntryView {
        inode: record_inode(img, pos),
        file_type: file_type_of(img[pos + 7]),
        name: record_name(img, pos),
    }
}

/// The length of the record at `pos`, in a block of `bs` bytes.
pub open spec fn record_len_at(img: Seq<u8>, pos: int, bs: int) -> int {
    record_length(le16(img, pos + 4), bs)
}

/// The record at `off` of the block at `base` obeys the rules: its header
/// lies within the block, its length holds the header and the padded name
/// and does not reach past the end of the block, and, where it is in use,
/// its name is one.
pub open spec fn record_ok(img: Seq<u8>, base: int, bs: int, off: int) -> bool {
    let pos = base + off;
    let len = record_len_at(img, pos, bs);
    &&& off + ENTRY_HEADER <= bs
    &&& ENTRY_HEADER + pad4(record_name_len(img, pos) as int) <= len
    &&& off + len <= bs
    &&& record_inode(img, pos) != 0 ==> is_component(record_name(img, pos))
}

/// The number of blocks of a directory.
pub open spec fn dir_blocks(sb: Superblock, dir: Inode) -> int {
    dir.size as int / sb.block_size as int
}

/// The first entry in use at or after the place `(lblock, off)` of the
/// directory `dir`, with the place after it; none at the end of the
/// directory.
///
/// Blocks that are holes hold no entries. A record that breaks the rules
/// is `Corrupt`, as is a block whose mapping fails.
pub open spec fn first_entry(img: Seq<u8>, sb: Superblock, dir: Inode, lblock: int, off: int) -> Result<
    Option<(EntryView, DirPos)>,
    Ext4Error,
>
    decreases dir_blocks(sb, dir) - lblock, sb.block_size - off,
{
    let bs = sb.block_size as int;
    if lblock < 0 || off < 0 || lblock >= dir_blocks(sb, dir) {
        Ok(None)
    } else if off >= bs {
        first_entry(img, sb, dir, lblock + 1, 0)
    } else {
        match map_block(img, sb, dir, lblock as u64) {
            Err(e) => Err(e),
            Ok(None) => first_entry(img, sb, dir, lblock + 1, 0),
            Ok(Some(p)) => {
                let base = block_start(sb, p);
                let len = record_len_at(img, base + off, bs);
                if !record_ok(img, base, bs, off) {
                    Err(Ext4Error::Corrupt)
                } else if record_inode(img, base + off) == 0 {
                    first_entry(img, sb, dir, lblock, off + len)
                } else {
                    Ok(
                        Some(
                            (
                                entry_at(img, base + off),
                                DirPos { lblock: lblock as u64, off: (off + len) as u32 },
                            ),
                        ),
                    )
                }
            },
        }
    }
}

/// The entries in use from the place `(lblock, off)` of `dir` on, in the
/// order in which the directory holds them.
pub open spec fn entries_from(img: Seq<u8>, sb: Superblock, dir: Inode, lblock: int, off: int) -> Result<
    Seq<EntryView>,
    Ext4Error,
>
    decreases dir_blocks(sb, dir) - lblock, sb.block_size - off,
{
    match first_entry(img, sb, dir, lblock, off) {
        Err(e) => Err(e),
        Ok(None) => Ok(Seq::empty()),
        Ok(Some((e, next))) => {
            if advances(sb, dir, lblock, off, next) {
                match entries_from(img, sb, dir, next.lblock as int, next.off as int) {
                    Err(e) => Err(e),
                    Ok(rest) => Ok(seq![e] + rest),
                }
            } else {
                Ok(Seq::empty())
            }
        },
    }
}

/// The inode of the first entry named `name` from the place
/// `(lblock, off)` of `dir` on. No such entry is `NotFound`. A record that
/// breaks the rules before the entry is found is `Corrupt`.
pub open spec fn lookup_from(
    img: Seq<u8>,
    sb: Superblock,
    dir: Inode,
    name: Seq<u8>,
    lblock: int,
    off: int,
) -> Result<u32, Ext4Error>
    decreases dir_blocks(sb, dir) - lblock, sb.block_size - off,
{
    match first_entry(img, sb, dir, lblock, off) {
        Err(e) => Err(e),
        Ok(None) => Err(Ext4Error::NotFound),
        Ok(Some((e, next))) => {
            if e.name == name {
                Ok(e.inode)
            } else if advances(sb, dir, lblock, off, next) {
                lookup_from(img, sb, dir, name, next.lblock as int, next.off as int)
            } else {
                Err(Ext4Error::NotFound)
            }
        },
    }
}

/// The place `next` comes after the place `(lblock, off)`.
pub open spec fn after(lblock: int, off: int, next: DirPos) -> bool {
    next.lblock > lblock || (next.lblock == lblock && next.off > off)
}

/// The place `next` lies in the directory and comes after the place
/// `(lblock, off)`. Every place that `first_entry` gives does.
pub open spec fn advances(sb: Superblock, dir: Inode, lblock: int, off: int, next: DirPos) -> bool {
    &&& after(lblock, off, next)
    &&& next.lblock < dir_blocks(sb, dir)
    &&& next.off <= sb.block_size
}

/// The inode is one whose entries can be read: a directory whose length is
/// a whole number of blocks. Anything but a directory is `NotADirectory`,
/// and a length that is no whole number of blocks is `Corrupt`.
pub open spec fn check_dir(sb: Superblock, dir: Inode) -> Result<(), Ext4Error> {
    if !dir.spec_is_dir() {
        Err(Ext4Error::NotADirectory)
    } else if dir.size as int % sb.block_size as int != 0 {
        Err(Ext4Error::Corrupt)
    } else {
        Ok(())
    }
}

/// All the entries in use of the directory `dir`.
pub open spec fn dir_entries(img: Seq<u8>, sb: Superblock, dir: Inode) -> Result<
    Seq<EntryView>,
    Ext4Error,
> {
    match check_dir(sb, dir) {
        Err(e) => Err(e),
        Ok(()) => entries_from(img, sb, dir, 0, 0),
    }
}

/// The inode that the directory `dir` holds under `name`.
pub open spec fn dir_lookup(img: Seq<u8>, sb: Superblock, dir: Inode, name: Seq<u8>) -> Result<
    u32,
    Ext4Error,
> {
    match check_dir(sb, dir) {
        Err(e) => Err(e),
        Ok(()) => lookup_from(img, sb, dir, name, 0, 0),
    }
}

/// Entry `i` of `entries` is the first that is named `name`.
pub open spec fn first_named(entries: Seq<EntryView>, name: Seq<u8>, i: int) -> bool {
    &&& 0 <= i < entries.len()
    &&& entries[i].name == name
    &&& forall|j: int| 0 <= j < i ==> entries[j].name != name
}

/// The entry that is found has a name that is a component of a path, and
/// the place after it lies in the directory, after the place where the
/// search started.
pub proof fn lemma_first_entry(img: Seq<u8>, sb: Superblock, dir: Inode, lblock: int, off: int)
    requires
        0 <= lblock,
        0 <= off,
    ensures
        first_entry(img, sb, dir, lblock, off) matches Ok(Some((e, next))) ==> is_component(e.name)
            && e.inode != 0 && advances(sb, dir, lblock, off, next),
    decreases dir_blocks(sb, dir) - lblock, sb.block_size - off,
{
    let bs = sb.block_size as int;
    if lblock >= dir_blocks(sb, dir) {
    } else if off >= bs {
        lemma_first_entry(img, sb, dir, lblock + 1, 0);
    } else {
        match map_block(img, sb, dir, lblock as u64) {
            Err(e) => {},
            Ok(None) => {
                lemma_first_entry(img, sb, dir, lblock + 1, 0);
            },
            Ok(Some(p)) => {
                let base = block_start(sb, p);
                let len = record_len_at(img, base + off, bs);
                if record_ok(img, base, bs, off) && record_inode(img, base + off) == 0 {
                    lemma_first_entry(img, sb, dir, lblock, off + len);
                }
            },
        }
    }
}

/// Every name of a listing is a component of a path.
pub proof fn lemma_listed_names(img: Seq<u8>, sb: Superblock, dir: Inode, lblock: int, off: int)
    requires
        0 <= lblock,
        0 <= off,
    ensures
        entries_from(img, sb, dir, lblock, off) matches Ok(es) ==> forall|i: int|
            0 <= i < es.len() ==> is_component(#[trigger] es[i].name),
    decreases dir_blocks(sb, dir) - lblock, sb.block_size - off,
{
    lemma_first_entry(img, sb, dir, lblock, off);
    if let Ok(Some((e, next))) = first_entry(img, sb, dir, lblock, off) {
        lemma_listed_names(img, sb, dir, next.lblock as int, next.off as int);
    }
}

/// Looking a name up finds the first entry of the listing with that name,
/// and fails with `NotFound` where the listing has none.
pub proof fn lemma_lookup_in_listing(
    img: Seq<u8>,
    sb: Superblock,
    dir: Inode,
    name: Seq<u8>,
    lblock: int,
    off: int,
)
    requires
        0 <= lblock,
        0 <= off,
        entries_from(img, sb, dir, lblock, off) is Ok,
    ensures
        ({
            let es = entries_from(img, sb, dir, lblock, off)->Ok_0;
            match lookup_from(img, sb, dir, name, lblock, off) {
                Ok(inode) => exists|i: int| first_named(es, name, i) && es[i].inode == inode,
                Err(e) => e == Ext4Error::NotFound && forall|i: int|
                    0 <= i < es.len() ==> (#[trigger] es[i]).name != name,
            }
        }),
    decreases dir_blocks(sb, dir) - lblock, sb.block_size - off,
{
    lemma_first_entry(img, sb, dir, lblock, off);
    let es = entries_from(img, sb, dir, lblock, off)->Ok_0;
    if let Ok(Some((e, next))) = first_entry(img, sb, dir, lblock, off) {
        let rest = entries_from(img, sb, dir, next.lblock as int, next.off as int)->Ok_0;
        assert(es == seq![e] + rest);
        assert(es[0] == e);
        assert(forall|i: int| 0 <= i < rest.len() ==> rest[i] == es[i + 1]);
        if e.name == name {
            assert(first_named(es, name, 0));
        } else {
            lemma_lookup_in_listing(img, sb, dir, name, next.lblock as int, next.off as int);
            match lookup_from(img, sb, dir, name, next.lblock as int, next.off as int) {
                Ok(inode) => {
                    let i = choose|i: int| first_named(rest, name, i) && rest[i].inode == inode;
                    assert forall|j: int| 0 <= j < i + 1 implies es[j].name != name by {
                        if j > 0 {
                            assert(es[j] == rest[j - 1]);
                        }
                    }
                    assert(first_named(es, name, i + 1));
                },
                Err(_) => {
                    assert forall|i: int| 0 <= i < es.len() implies (#[trigger] es[i]).name
                        != name by {
                        if i > 0 {
                            assert(es[i] == rest[i - 1]);
                        }
                    }
                },
            }
        }
    }
}

/// The first entry of a listing with a given name is the one that looking
/// the name up finds.
pub proof fn lemma_listed_is_found(img: Seq<u8>, sb: Superblock, dir: Inode, i: int)
    requires
        dir_entries(img, sb, dir) is Ok,
        first_named(dir_entries(img, sb, dir)->Ok_0, dir_entries(img, sb, dir)->Ok_0[i].name, i),
    ensures
        dir_lookup(img, sb, dir, dir_entries(img, sb, dir)->Ok_0[i].name) == Ok::<u32, Ext4Error>(
            dir_entries(img, sb, dir)->Ok_0[i].inode,
        ),
{
    let es = dir_entries(img, sb, dir)->Ok_0;
    let name = es[i].name;
    lemma_lookup_in_listing(img, sb, dir, name, 0, 0);
    match lookup_from(img, sb, dir, name, 0, 0) {
        Ok(inode) => {
            let k = choose|k: int| first_named(es, name, k) && es[k].inode == inode;
            assert(k == i) by {
                if k < i {
                    assert(es[k].name != name);
                }
                if i < k {
                    assert(es[i].name != name);
                }
            }
        },
        Err(_) => {
            assert(es[i].name != name);
        },
    }
}

/// Going from record to record from the place `(lblock, off)` of the
/// directory comes to the place `(at_block, at_off)`.
pub open spec fn scan_reaches(
    img: Seq<u8>,
    sb: Superblock,
    dir: Inode,
    lblock: int,
    off: int,
    at_block: int,
    at_off: int,
) -> bool
    decreases dir_blocks(sb, dir) - lblock, sb.block_size - off,
{
    let bs = sb.block_size as int;
    if lblock == at_block && off == at_off {
        true
    } else if lblock < 0 || off < 0 || lblock >= dir_blocks(sb, dir) {
        false
    } else if off >= bs {
        scan_reaches(img, sb, dir, lblock + 1, 0, at_block, at_off)
    } else {
        match map_block(img, sb, dir, lblock as u64) {
            Err(_) => false,
            Ok(None) => scan_reaches(img, sb, dir, lblock + 1, 0, at_block, at_off),
            Ok(Some(p)) => {
                let len = record_len_at(img, block_start(sb, p) + off, bs);
                record_ok(img, block_start(sb, p), bs, off) && scan_reaches(
                    img,
                    sb,
                    dir,
                    lblock,
                    off + len,
                    at_block,
                    at_off,
                )
            },
        }
    }
}

/// The record at `off` of logical block `lblock` of the directory breaks
/// the rules.
pub open spec fn bad_record(img: Seq<u8>, sb: Superblock, dir: Inode, lblock: int, off: int) -> bool {
    &&& 0 <= lblock < dir_blocks(sb, dir)
    &&& 0 <= off < sb.block_size
    &&& map_block(img, sb, dir, lblock as u64) matches Ok(Some(p))
    &&& !record_ok(img, block_start(sb, p), sb.block_size as int, off)
}

/// A record whose length reaches past the end of its block breaks the
/// rules.
pub proof fn lemma_overrun_is_bad(img: Seq<u8>, sb: Superblock, dir: Inode, lblock: int, off: int)
    requires
        0 <= lblock < dir_blocks(sb, dir),
        0 <= off < sb.block_size,
        map_block(img, sb, dir, lblock as u64) matches Ok(Some(p)) && off + record_len_at(
            img,
            block_start(sb, p) + off,
            sb.block_size as int,
        ) > sb.block_size,
    ensures
        bad_record(img, sb, dir, lblock, off),
{
}

/// A record that breaks the rules makes the listing `Corrupt` from every
/// place from which the records lead to it.
pub proof fn lemma_bad_record_is_corrupt(
    img: Seq<u8>,
    sb: Superblock,
    dir: Inode,
    lblock: int,
    off: int,
    at_block: int,
    at_off: int,
)
    requires
        0 <= lblock,
        0 <= off,
        scan_reaches(img, sb, dir, lblock, off, at_block, at_off),
        bad_record(img, sb, dir, at_block, at_off),
    ensures
        entries_from(img, sb, dir, lblock, off) == Err::<Seq<EntryView>, Ext4Error>(
            Ext4Error::Corrupt,
        ),
    decreases dir_blocks(sb, dir) - lblock, sb.block_size - off,
{
    let bs = sb.block_size as int;
    if lblock == at_block && off == at_off {
    } else if off >= bs {
        lemma_bad_record_is_corrupt(img, sb, dir, lblock + 1, 0, at_block, at_off);
    } else {
        match map_block(img, sb, dir, lblock as u64) {
            Err(_) => {},
            Ok(None) => {
                lemma_bad_record_is_corrupt(img, sb, dir, lblock + 1, 0, at_block, at_off);
            },
            Ok(Some(p)) => {
                let len = record_len_at(img, block_start(sb, p) + off, bs);
                lemma_bad_record_is_corrupt(img, sb, dir, lblock, off + len, at_block, at_off);
                lemma_first_entry(img, sb, dir, lblock, off);
            },
        }
    }
}

/// The kind of file for the tag of a record.
pub fn file_type_from_tag(tag: u8) -> (r: FileType)
    ensures
        r == file_type_of(tag),
{
    if tag == 1 {
        FileType::Regular
    } else if tag == 2 {
        FileType::Directory
    } else if tag == 3 {
        FileType::CharDevice
    } else if tag == 4 {
        FileType::BlockDevice
    } else if tag == 5 {
        FileType::Fifo
    } else if tag == 6 {
        FileType::Socket
    } else if tag == 7 {
        FileType::Symlink
    } else {
        FileType::Unknown
    }
}

/// The length of a record for the value of its length field.
pub fn decode_record_length(raw: u16, bs: u32) -> (r: u32)
    ensures
        r == record_length(raw, bs as int),
        r <= 0x4_0000,
{
    if bs < 0x1_0000 {
        raw as u32
    } else if raw == 0 || raw == 0xffff {
        0x1_0000
    } else {
        (raw as u32 / 4) * 4 + (raw as u32 % 4) * 0x1_0000
    }
}

/// Whether the `len` bytes at `at` are the name of an entry.
pub fn check_name(image: &[u8], at: usize, len: u8) -> (r: bool)
    requires
        at + len <= image@.len(),
    ensures
        r == is_component(image@.subrange(at as int, at + len)),
{
    proof {
        lemma_len_fits(image);
    }
    if len == 0 {
        return false;
    }
    let ghost name = image@.subrange(at as int, at + len);
    let mut k: usize = 0;
    while k < len as usize
        invariant
            k <= len,
            at + len <= image@.len(),
            image@.len() <= usize::MAX,
            name == image@.subrange(at as int, at + len),
            forall|j: int| 0 <= j < k ==> name[j] != 0u8 && name[j] != SEPARATOR,
        decreases len - k,
    {
        let b: u8 = image[at + k];
        assert(b == name[k as int]);
        if b == 0 || b == SEPARATOR {
            return false;
        }
        k += 1;
    }
    true
}

/// Whether the `len` bytes at `at` are the bytes of `name`.
pub fn name_matches(image: &[u8], at: usize, len: u8, name: &[u8]) -> (r: bool)
    requires
        at + len <= image@.len(),
    ensures
        r == (image@.subrange(at as int, at + len) == name@),
{
    proof {
        lemma_len_fits(image);
    }
    if name.len() != len as usize {
        return false;
    }
    let ghost held = image@.subrange(at as int, at + len);
    let mut k: usize = 0;
    while k < len as usize
        invariant
            k <= len,
            len == name@.len(),
            at + len <= image@.len(),
            image@.len() <= usize::MAX,
            held == image@.subrange(at as int, at + len),
            forall|j: int| 0 <= j < k ==> held[j] == name@[j],
        decreases len - k,
    {
        if image[at + k] != name[k] {
            assert(held[k as int] != name@[k as int]);
            return false;
        }
        k += 1;
    }
    assert(held =~= name@);
    true
}

/// Finds the first entry in use at or after a place of a directory.
///
/// The place after the entry that is found comes after the place that was
/// given, and lies in one of the blocks of the directory.
pub fn find_entry(image: &[u8], sb: &Superblock, dir: &Inode, from: DirPos) -> (r: Result<
    Option<Slot>,
    Ext4Error,
>)
    requires
        sb.wf(),
        dir.in_image(image@),
    ensures
        match r {
            Err(e) => first_entry(image@, *sb, *dir, from.lblock as int, from.off as int) == Err::<
                Option<(EntryView, DirPos)>,
                Ext4Error,
            >(e),
            Ok(None) => first_entry(image@, *sb, *dir, from.lblock as int, from.off as int) == Ok::<
                Option<(EntryView, DirPos)>,
                Ext4Error,
            >(None),
            Ok(Some(s)) => first_entry(image@, *sb, *dir, from.lblock as int, from.off as int)
                == Ok::<Option<(EntryView, DirPos)>, Ext4Error>(Some((s.entry(image@), s.next)))
                && after(from.lblock as int, from.off as int, s.next) && s.next.lblock
                < dir_blocks(*sb, *dir) && s.next.off <= sb.block_size && s.name_at + s.name_len
                <= image@.len() && is_component(s.entry(image@).name),
        },
        r is Err ==> r == Err::<Option<Slot>, Ext4Error>(Ext4Error::Corrupt),
{
    proof {
        lemma_len_fits(image);
        sb.lemma_bounds();
    }
    let bs: u32 = sb.block_size;
    let blocks: u64 = dir.size / (bs as u64);
    let mut lblock: u64 = from.lblock;
    let mut off: u32 = from.off;
    loop
        invariant
            sb.wf(),
            dir.in_image(image@),
            image@.len() <= usize::MAX,
            bs == sb.block_size,
            1024 <= bs <= 65536,
            blocks == dir_blocks(*sb, *dir),
            lblock > from.lblock || (lblock == from.lblock && off >= from.off),
            lblock > from.lblock ==> off <= bs,
            first_entry(image@, *sb, *dir, from.lblock as int, from.off as int) == first_entry(
                image@,
                *sb,
                *dir,
                lblock as int,
                off as int,
            ),
        decreases blocks - lblock, bs - off,
    {
        if lblock >= blocks {
            return Ok(None);
        }
        if off >= bs {
            lblock = lblock + 1;
            off = 0;
        } else {
            match lookup_block(image, sb, dir, lblock)? {
                None => {
                    lblock = lblock + 1;
                    off = 0;
                },
                Some(p) => {
                    let base: usize = match locate_block(image, sb, p) {
                        Some(s) => s,
                        None => {
                            return Err(Ext4Error::Corrupt);
                        },
                    };
                    if bs - off < ENTRY_HEADER {
                        return Err(Ext4Error::Corrupt);
                    }
                    let pos: usize = base + off as usize;
                    let inode: u32 = read_u32(image, pos);
                    let len: u32 = decode_record_length(read_u16(image, pos + 4), bs);
                    let name_len: u8 = image[pos + 6];
                    let tag: u8 = image[pos + 7];
                    let padded: u32 = (name_len as u32 + 3) / 4 * 4;
                    if len < ENTRY_HEADER + padded || len > bs - off {
                        return Err(Ext4Error::Corrupt);
                    }
                    if inode != 0 && !check_name(image, pos + 8, name_len) {
                        return Err(Ext4Error::Corrupt);
                    }
                    if inode != 0 {
                        return Ok(
                            Some(
                                Slot {
                                    inode,
                                    file_type: file_type_from_tag(tag),
                                    name_at: pos + 8,
                                    name_len,
                                    next: DirPos { lblock, off: off + len },
                                },
                            ),
                        );
                    }
                    off = off + len;
                },
            }
        }
    }
}

/// Looks a name up among the entries of a directory.
pub fn lookup_name(image: &[u8], sb: &Superblock, dir: &Inode, name: &[u8]) -> (r: Result<
    u32,
    Ext4Error,
>)
    requires
        sb.wf(),
        dir.in_image(image@),
    ensures
        r == dir_lookup(image@, *sb, *dir, name@),
{
    proof {
        sb.lemma_bounds();
    }
    if !dir.is_dir() {
        return Err(Ext4Error::NotADirectory);
    }
    if dir.size % (sb.block_size as u64) != 0 {
        return Err(Ext4Error::Corrupt);
    }
    let mut at = DirPos { lblock: 0, off: 0 };
    loop
        invariant
            sb.wf(),
            dir.in_image(image@),
            at.off <= sb.block_size,
            dir_lookup(image@, *sb, *dir, name@) == lookup_from(
                image@,
                *sb,
                *dir,
                name@,
                at.lblock as int,
                at.off as int,
            ),
        decreases dir_blocks(*sb, *dir) - at.lblock, sb.block_size - at.off,
    {
        match find_entry(image, sb, dir, at)? {
            None => {
                return Err(Ext4Error::NotFound);
            },
            Some(slot) => {
                if name_matches(image, slot.name_at, slot.name_len, name) {
                    return Ok(slot.inode);
                }
                at = slot.next;
            },
        }
    }
}

} // verus!
