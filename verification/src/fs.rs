//! The handle of an opened image and the operations by path: reading a
//! file, reading it as text, and listing a directory.

use crate::dir::{
    advances,
    check_dir,
    entries_from,
    find_entry,
    first_entry,
    DirPos,
    EntryView,
    FileType,
};
use crate::bytes::lemma_len_fits;
use crate::error::Ext4Error;
use crate::file::{file_content, is_hole, read_file};
use crate::inode::{decode_inode, read_inode, Inode};
use crate::path::{is_path, join, text_of, Path, PathBuf};
use crate::resolve::{resolve, resolve_path};
use crate::superblock::{decode_superblock, parse_superblock, Superblock};
use vstd::prelude::*;
use vstd::slice::{slice_subrange, slice_to_vec};
use vstd::utf8::{decode_utf8, valid_utf8};

verus! {

/// The inode that `path` names, decoded.
pub open spec fn inode_at(img: Seq<u8>, sb: Superblock, path: Seq<u8>) -> Result<Inode, Ext4Error> {
    match resolve_path(img, sb, path) {
        Err(e) => Err(e),
        Ok(number) => decode_inode(img, sb, number),
    }
}

/// The content of the file that `path` names.
///
/// Bytes that are no path are `MalformedPath`. A path that fails to
/// resolve gives the error of the resolution. A directory is
/// `IsADirectory`, and what is neither a directory nor a regular file is
/// `Corrupt`.
pub open spec fn read_at(img: Seq<u8>, sb: Superblock, path: Seq<u8>) -> Result<Seq<u8>, Ext4Error> {
    if !is_path(path) {
        Err(Ext4Error::MalformedPath)
    } else {
        match inode_at(img, sb, path) {
            Err(e) => Err(e),
            Ok(inode) => if inode.spec_is_dir() {
                Err(Ext4Error::IsADirectory)
            } else if !inode.spec_is_regular() {
                Err(Ext4Error::Corrupt)
            } else {
                file_content(img, sb, inode)
            },
        }
    }
}

/// The content of the file that `path` names, as text. Content that is
/// not valid UTF-8 is `NotUtf8`.
pub open spec fn text_at(img: Seq<u8>, sb: Superblock, path: Seq<u8>) -> Result<
    Seq<char>,
    Ext4Error,
> {
    match read_at(img, sb, path) {
        Err(e) => Err(e),
        Ok(bytes) => if valid_utf8(bytes) {
            Ok(decode_utf8(bytes))
        } else {
            Err(Ext4Error::NotUtf8)
        },
    }
}

/// The directory that `path` names. What is no directory is
/// `NotADirectory`.
pub open spec fn dir_at(img: Seq<u8>, sb: Superblock, path: Seq<u8>) -> Result<Inode, Ext4Error> {
    if !is_path(path) {
        Err(Ext4Error::MalformedPath)
    } else {
        match inode_at(img, sb, path) {
            Err(e) => Err(e),
            Ok(inode) => match check_dir(sb, inode) {
                Err(e) => Err(e),
                Ok(()) => Ok(inode),
            },
        }
    }
}

/// The entries of the directory that `path` names.
pub open spec fn list_at(img: Seq<u8>, sb: Superblock, path: Seq<u8>) -> Result<
    Seq<EntryView>,
    Ext4Error,
> {
    match dir_at(img, sb, path) {
        Err(e) => Err(e),
        Ok(dir) => entries_from(img, sb, dir, 0, 0),
    }
}

/// The result of reading, with the bytes as a value.
pub open spec fn bytes_result(r: Result<Vec<u8>, Ext4Error>) -> Result<Seq<u8>, Ext4Error> {
    match r {
        Ok(v) => Ok(v@),
        Err(e) => Err(e),
    }
}

/// An opened image.
#[derive(Debug)]
pub struct Ext4 {
    image: Vec<u8>,
    sb: Superblock,
}

impl View for Ext4 {
    type V = Seq<u8>;

    /// The bytes of the image.
    closed spec fn view(&self) -> Seq<u8> {
        self.image@
    }
}

/// One entry of a directory listing.
#[derive(Debug)]
pub struct DirEntry {
    inode: u32,
    file_type: FileType,
    name: Vec<u8>,
    path: PathBuf,
}

impl View for DirEntry {
    type V = EntryView;

    closed spec fn view(&self) -> EntryView {
        EntryView { inode: self.inode, file_type: self.file_type, name: self.name@ }
    }
}

impl DirEntry {
    /// The path of the entry: that of the directory with the name of the
    /// entry after it.
    pub closed spec fn spec_path(&self) -> Seq<u8> {
        self.path@
    }

    /// The name of the entry, as the directory holds it.
    pub fn file_name(&self) -> (r: &[u8])
        ensures
            r@ == self@.name,
    {
        self.name.as_slice()
    }

    /// The kind of file, as the directory says it.
    pub fn file_type(&self) -> (r: FileType)
        ensures
            r == self@.file_type,
    {
        self.file_type
    }

    /// The number of the inode that the entry names.
    pub fn inode(&self) -> (r: u32)
        ensures
            r == self@.inode,
    {
        self.inode
    }

    /// The path of the entry.
    pub fn path(&self) -> (r: PathBuf)
        ensures
            r@ == self.spec_path(),
    {
        self.path.clone()
    }
}

/// The entries of a directory, read one at a time.
#[derive(Debug)]
pub struct ReadDir<'a> {
    fs: &'a Ext4,
    dir: Inode,
    parent: PathBuf,
    at: DirPos,
    done: bool,
}

/// The values of the entries of a listing.
pub open spec fn entry_views(entries: Seq<DirEntry>) -> Seq<EntryView> {
    entries.map_values(|e: DirEntry| e@)
}

impl<'a> ReadDir<'a> {
    #[verifier::type_invariant]
    spec fn inv(self) -> bool {
        &&& self.fs.inv()
        &&& self.dir.in_image(self.fs.image@)
    }

    /// The bytes of the image that holds the directory.
    pub closed spec fn image(&self) -> Seq<u8> {
        self.fs.image@
    }

    /// The superblock of the image.
    pub closed spec fn superblock(&self) -> Superblock {
        self.fs.sb
    }

    /// The inode of the directory.
    pub closed spec fn dir(&self) -> Inode {
        self.dir
    }

    /// The path by which the directory was opened.
    pub closed spec fn parent(&self) -> Seq<u8> {
        self.parent@
    }

    /// The place of the directory that is read next.
    pub closed spec fn place(&self) -> DirPos {
        self.at
    }

    /// The end of the directory was reached, or reading failed.
    pub closed spec fn finished(&self) -> bool {
        self.done
    }

    /// The entry that is read next, with the place after it.
    pub open spec fn pending(&self) -> Result<Option<(EntryView, DirPos)>, Ext4Error> {
        if self.finished() {
            Ok(None)
        } else {
            first_entry(
                self.image(),
                self.superblock(),
                self.dir(),
                self.place().lblock as int,
                self.place().off as int,
            )
        }
    }

    /// The entries that are still to be read.
    pub open spec fn remaining(&self) -> Result<Seq<EntryView>, Ext4Error> {
        if self.finished() {
            Ok(Seq::empty())
        } else {
            entries_from(
                self.image(),
                self.superblock(),
                self.dir(),
                self.place().lblock as int,
                self.place().off as int,
            )
        }
    }

    /// `other` reads the same directory of the same image.
    pub open spec fn same_directory(&self, other: &Self) -> bool {
        &&& self.image() == other.image()
        &&& self.superblock() == other.superblock()
        &&& self.dir() == other.dir()
        &&& self.parent() == other.parent()
    }

    /// Reads the next entry: none at the end of the directory, and an
    /// error, once, where a record breaks the rules.
    pub fn next_entry(&mut self) -> (r: Option<Result<DirEntry, Ext4Error>>)
        ensures
            final(self).same_directory(old(self)),
            match old(self).pending() {
                Err(e) => r == Some(Err::<DirEntry, Ext4Error>(e)) && final(self).finished(),
                Ok(None) => r is None && final(self).finished(),
                Ok(Some((e, next))) => {
                    &&& r matches Some(Ok(d))
                    &&& d@ == e
                    &&& d.spec_path() == join(old(self).parent(), e.name)
                    &&& final(self).place() == next
                    &&& !final(self).finished()
                    &&& advances(
                        old(self).superblock(),
                        old(self).dir(),
                        old(self).place().lblock as int,
                        old(self).place().off as int,
                        next,
                    )
                },
            },
    {
        proof {
            use_type_invariant(&*self);
        }
        if self.done {
            return None;
        }
        let image: &[u8] = self.fs.image.as_slice();
        proof {
            lemma_len_fits(image);
        }
        match find_entry(image, &self.fs.sb, &self.dir, self.at) {
            Err(e) => {
                self.done = true;
                Some(Err(e))
            },
            Ok(None) => {
                self.done = true;
                None
            },
            Ok(Some(slot)) => {
                let name: Vec<u8> = slice_to_vec(
                    slice_subrange(image, slot.name_at, slot.name_at + slot.name_len as usize),
                );
                let path: PathBuf = self.parent.as_path().join(name.as_slice());
                self.at = slot.next;
                Some(Ok(DirEntry { inode: slot.inode, file_type: slot.file_type, name, path }))
            },
        }
    }

    /// Reads all the entries that are still to be read.
    #[verifier::loop_isolation(false)]
    pub fn collect(self) -> (r: Result<Vec<DirEntry>, Ext4Error>)
        ensures
            match r {
                Ok(v) => self.remaining() == Ok::<Seq<EntryView>, Ext4Error>(entry_views(v@))
                    && forall|i: int|
                    0 <= i < v@.len() ==> (#[trigger] v@[i]).spec_path() == join(
                        self.parent(),
                        v@[i]@.name,
                    ),
                Err(e) => self.remaining() == Err::<Seq<EntryView>, Ext4Error>(e),
            },
    {
        let ghost start = self;
        let ghost mut got: Seq<EntryView> = Seq::empty();
        let mut reader = self;
        let mut out: Vec<DirEntry> = Vec::new();
        loop
            invariant
                reader.same_directory(&start),
                got.len() == out@.len(),
                forall|i: int| 0 <= i < out@.len() ==> got[i] == (#[trigger] out@[i])@,
                forall|i: int|
                    0 <= i < out@.len() ==> (#[trigger] out@[i]).spec_path() == join(
                        start.parent(),
                        out@[i]@.name,
                    ),
                match reader.remaining() {
                    Err(e) => start.remaining() == Err::<Seq<EntryView>, Ext4Error>(e),
                    Ok(rest) => start.remaining() == Ok::<Seq<EntryView>, Ext4Error>(got + rest),
                },
            decreases
                    if reader.finished() {
                        0int
                    } else {
                        1int
                    },
                    crate::dir::dir_blocks(reader.superblock(), reader.dir())
                        - reader.place().lblock,
                    reader.superblock().block_size - reader.place().off,
        {
            let ghost before = reader;
            match reader.next_entry() {
                None => {
                    assert(got + Seq::<EntryView>::empty() =~= got);
                    assert(entry_views(out@) =~= got);
                    return Ok(out);
                },
                Some(Err(e)) => {
                    return Err(e);
                },
                Some(Ok(d)) => {
                    proof {
                        let rest = reader.remaining();
                        assert(before.remaining() == match rest {
                            Err(e) => Err::<Seq<EntryView>, Ext4Error>(e),
                            Ok(more) => Ok(seq![d@] + more),
                        });
                        if rest is Ok {
                            assert(got + (seq![d@] + rest->Ok_0) =~= got.push(d@) + rest->Ok_0);
                        }
                        got = got.push(d@);
                    }
                    out.push(d);
                },
            }
        }
    }
}

impl Ext4 {
    #[verifier::type_invariant]
    spec fn inv(self) -> bool {
        decode_superblock(self.image@) == Ok::<Superblock, Ext4Error>(self.sb)
    }

    /// The superblock of the image.
    pub closed spec fn spec_superblock(&self) -> Superblock {
        self.sb
    }

    /// Opens an image: decodes and validates its superblock.
    pub fn load(image: Vec<u8>) -> (r: Result<Ext4, Ext4Error>)
        ensures
            match r {
                Ok(fs) => fs@ == image@ && decode_superblock(image@) == Ok::<
                    Superblock,
                    Ext4Error,
                >(fs.spec_superblock()),
                Err(e) => decode_superblock(image@) == Err::<Superblock, Ext4Error>(e),
            },
    {
        match parse_superblock(image.as_slice()) {
            Ok(sb) => Ok(Ext4 { image, sb }),
            Err(e) => Err(e),
        }
    }

    /// The superblock of the image.
    #[verifier::when_used_as_spec(spec_superblock)]
    pub fn superblock(&self) -> (r: Superblock)
        ensures
            r == self.spec_superblock(),
            decode_superblock(self@) == Ok::<Superblock, Ext4Error>(r),
            r.wf(),
    {
        proof {
            use_type_invariant(self);
        }
        self.sb
    }

    /// The bytes of the image.
    pub fn image(&self) -> (r: &[u8])
        ensures
            r@ == self@,
    {
        self.image.as_slice()
    }

    /// Resolves a path and decodes the inode that it names.
    pub fn resolve(&self, path: Path<'_>) -> (r: Result<Inode, Ext4Error>)
        ensures
            r == inode_at(self@, self.spec_superblock(), path@),
            r matches Ok(inode) ==> inode.in_image(self@),
    {
        proof {
            use_type_invariant(self);
        }
        let image: &[u8] = self.image.as_slice();
        let number: u32 = resolve(image, &self.sb, path.as_bytes())?;
        read_inode(image, &self.sb, number)
    }

    /// Reads the whole content of the file that a path names.
    ///
    /// The result has exactly the length that the inode of the file
    /// declares.
    pub fn read(&self, path: &[u8]) -> (r: Result<Vec<u8>, Ext4Error>)
        ensures
            bytes_result(r) == read_at(self@, self.spec_superblock(), path@),
            r matches Ok(v) ==> inode_at(self@, self.spec_superblock(), path@) matches Ok(inode)
                && v@.len() == inode.size && forall|i: int|
                0 <= i < v@.len() && is_hole(
                    self@,
                    self.spec_superblock(),
                    inode,
                    i / (self.spec_superblock().block_size as int),
                ) ==> #[trigger] v@[i] == 0,
    {
        proof {
            use_type_invariant(self);
        }
        let checked: Path<'_> = match Path::try_from(path) {
            Ok(p) => p,
            Err(_) => {
                return Err(Ext4Error::MalformedPath);
            },
        };
        let inode = self.resolve(checked)?;
        if inode.is_dir() {
            return Err(Ext4Error::IsADirectory);
        }
        if !inode.is_regular() {
            return Err(Ext4Error::Corrupt);
        }
        read_file(self.image.as_slice(), &self.sb, &inode)
    }

    /// Reads the content of the file that a path names as text.
    pub fn read_to_string(&self, path: &[u8]) -> (r: Result<String, Ext4Error>)
        ensures
            match r {
                Ok(s) => text_at(self@, self.spec_superblock(), path@) == Ok::<
                    Seq<char>,
                    Ext4Error,
                >(s@),
                Err(e) => text_at(self@, self.spec_superblock(), path@) == Err::<
                    Seq<char>,
                    Ext4Error,
                >(e),
            },
    {
        let bytes: Vec<u8> = self.read(path)?;
        match text_of(bytes.as_slice()) {
            Some(s) => Ok(s.to_owned()),
            None => Err(Ext4Error::NotUtf8),
        }
    }

    /// Opens the directory that a path names, to read its entries.
    pub fn read_dir(&self, path: &[u8]) -> (r: Result<ReadDir<'_>, Ext4Error>)
        ensures
            match r {
                Ok(reader) => {
                    &&& dir_at(self@, self.spec_superblock(), path@) == Ok::<Inode, Ext4Error>(
                        reader.dir(),
                    )
                    &&& reader.image() == self@
                    &&& reader.superblock() == self.spec_superblock()
                    &&& reader.parent() == path@
                    &&& reader.place() == (DirPos { lblock: 0, off: 0 })
                    &&& !reader.finished()
                    &&& reader.remaining() == list_at(self@, self.spec_superblock(), path@)
                },
                Err(e) => dir_at(self@, self.spec_superblock(), path@) == Err::<Inode, Ext4Error>(
                    e,
                ),
            },
    {
        proof {
            use_type_invariant(self);
        }
        let checked: Path<'_> = match Path::try_from(path) {
            Ok(p) => p,
            Err(_) => {
                return Err(Ext4Error::MalformedPath);
            },
        };
        let dir = self.resolve(checked)?;
        if !dir.is_dir() {
            return Err(Ext4Error::NotADirectory);
        }
        if dir.size % (self.sb.block_size as u64) != 0 {
            return Err(Ext4Error::Corrupt);
        }
        Ok(
            ReadDir {
                fs: self,
                dir,
                parent: checked.to_path_buf(),
                at: DirPos { lblock: 0, off: 0 },
                done: false,
            },
        )
    }
}

} // verus!
