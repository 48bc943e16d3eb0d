//! What holds of the operations by path on every image.

use crate::dir::{
    dir_entries,
    dir_lookup,
    first_named,
    lemma_listed_is_found,
    lemma_listed_names,
    lemma_lookup_in_listing,
};
use crate::error::Ext4Error;
use crate::fs::{bytes_result, dir_at, inode_at, list_at, read_at};
use crate::inode::decode_inode;
use crate::path::{is_component, is_path, join, lemma_join_is_path, SEPARATOR};
use crate::resolve::{
    follows_link,
    lemma_link_cycle,
    lemma_resolve_child,
    lemma_resolved_child_is_held,
    resolve_path,
};
use crate::superblock::{Superblock, ROOT_INODE};
use vstd::prelude::*;

verus! {

/// The name of the entry by which a directory names itself.
pub open spec fn dot() -> Seq<u8> {
    seq![0x2eu8]
}

/// The name of the entry by which a directory names its parent.
pub open spec fn dot_dot() -> Seq<u8> {
    seq![0x2eu8, 0x2eu8]
}

/// Reading is a function of the image and the path: two results of
/// reading the same path of the same image hold the same bytes, or are the
/// same error.
pub proof fn lemma_read_repeats(
    img: Seq<u8>,
    sb: Superblock,
    path: Seq<u8>,
    first: Result<Vec<u8>, Ext4Error>,
    second: Result<Vec<u8>, Ext4Error>,
)
    requires
        bytes_result(first) == read_at(img, sb, path),
        bytes_result(second) == read_at(img, sb, path),
    ensures
        match (first, second) {
            (Ok(a), Ok(b)) => a@ == b@,
            (Err(a), Err(b)) => a == b,
            _ => false,
        },
{
}

/// Where a path with one more component resolves, the listing of the
/// directory that the path names holds an entry with that component as its
/// name.
pub proof fn lemma_resolved_name_is_listed(
    img: Seq<u8>,
    sb: Superblock,
    parent: Seq<u8>,
    name: Seq<u8>,
)
    requires
        is_component(name),
        list_at(img, sb, parent) is Ok,
        resolve_path(img, sb, join(parent, name)) is Ok,
    ensures
        exists|i: int| first_named(list_at(img, sb, parent)->Ok_0, name, i),
{
    lemma_resolved_child_is_held(img, sb, parent, name);
    let dir = dir_at(img, sb, parent)->Ok_0;
    lemma_lookup_in_listing(img, sb, dir, name, 0, 0);
}

/// The path of a listed entry is a path, and it resolves to the inode that
/// the entry names. This holds of an entry that is the first of its name
/// in the listing and that names no symbolic link; where the inode that
/// the entry names fails to decode, resolving the path gives that error.
pub proof fn lemma_listed_entry_resolves(img: Seq<u8>, sb: Superblock, parent: Seq<u8>, i: int)
    requires
        list_at(img, sb, parent) is Ok,
        first_named(list_at(img, sb, parent)->Ok_0, list_at(img, sb, parent)->Ok_0[i].name, i),
    ensures
        ({
            let entry = list_at(img, sb, parent)->Ok_0[i];
            let path = join(parent, entry.name);
            &&& is_path(path)
            &&& match decode_inode(img, sb, entry.inode) {
                Err(e) => inode_at(img, sb, path) == Err::<crate::inode::Inode, Ext4Error>(e),
                Ok(found) => found.number == entry.inode && (!found.spec_is_symlink() ==> inode_at(
                    img,
                    sb,
                    path,
                ) == Ok::<crate::inode::Inode, Ext4Error>(found)),
            }
        }),
{
    let dir = dir_at(img, sb, parent)->Ok_0;
    let entry = list_at(img, sb, parent)->Ok_0[i];
    assert(dir_entries(img, sb, dir) == list_at(img, sb, parent));
    lemma_listed_names(img, sb, dir, 0, 0);
    lemma_join_is_path(parent, entry.name);
    lemma_listed_is_found(img, sb, dir, i);
    lemma_resolve_child(img, sb, parent, entry.name);
}

/// The entry `.` resolves to the directory itself, in a directory that
/// holds its own inode number under that name.
pub proof fn lemma_dot_resolves_to_directory(img: Seq<u8>, sb: Superblock, path: Seq<u8>)
    requires
        dir_at(img, sb, path) matches Ok(dir) && dir_lookup(img, sb, dir, dot()) == Ok::<
            u32,
            Ext4Error,
        >(dir.number),
    ensures
        is_path(join(path, dot())),
        resolve_path(img, sb, join(path, dot())) == resolve_path(img, sb, path),
        inode_at(img, sb, join(path, dot())) == inode_at(img, sb, path),
{
    lemma_join_is_path(path, dot());
    lemma_resolve_child(img, sb, path, dot());
}

/// The entry `..` resolves to the parent, in a directory that holds the
/// inode number of the parent under that name. The root directory is its
/// own parent.
pub proof fn lemma_dot_dot_resolves_to_parent(
    img: Seq<u8>,
    sb: Superblock,
    parent: Seq<u8>,
    path: Seq<u8>,
)
    requires
        dir_at(img, sb, parent) is Ok,
        dir_at(img, sb, path) matches Ok(dir) && dir_lookup(img, sb, dir, dot_dot()) == Ok::<
            u32,
            Ext4Error,
        >(dir_at(img, sb, parent)->Ok_0.number),
    ensures
        is_path(join(path, dot_dot())),
        resolve_path(img, sb, join(path, dot_dot())) == resolve_path(img, sb, parent),
        inode_at(img, sb, join(path, dot_dot())) == inode_at(img, sb, parent),
{
    lemma_join_is_path(path, dot_dot());
    lemma_resolve_child(img, sb, path, dot_dot());
}

/// A path whose resolution runs into a cycle of symbolic links does not
/// resolve: reading it fails with `TooManySymlinks`.
///
/// `dirs` and `paths` are the places that resolution comes through, as in
/// `lemma_link_cycle`, and `path` is the one of them that is resolved from
/// the root.
pub proof fn lemma_cycle_fails(
    img: Seq<u8>,
    sb: Superblock,
    dirs: Seq<u32>,
    paths: Seq<Seq<u8>>,
    i: int,
)
    requires
        dirs.len() == paths.len(),
        0 <= i < dirs.len(),
        dirs[i] == ROOT_INODE,
        is_path(paths[i]),
        paths[i].len() > 0 && paths[i][0] == SEPARATOR,
        forall|j: int|
            0 <= j < dirs.len() ==> #[trigger] follows_link(
                img,
                sb,
                dirs[j],
                paths[j],
                dirs[(j + 1) % (dirs.len() as int)],
                paths[(j + 1) % (dirs.len() as int)],
            ),
    ensures
        resolve_path(img, sb, paths[i]) == Err::<u32, Ext4Error>(Ext4Error::TooManySymlinks),
        read_at(img, sb, paths[i]) == Err::<Seq<u8>, Ext4Error>(Ext4Error::TooManySymlinks),
        list_at(img, sb, paths[i]) == Err::<Seq<crate::dir::EntryView>, Ext4Error>(
            Ext4Error::TooManySymlinks,
        ),
{
    lemma_link_cycle(img, sb, dirs, paths, i, 0);
}

} // verus!
