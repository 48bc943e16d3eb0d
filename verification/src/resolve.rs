//! Path resolution: from the root directory, component by component,
//! through symbolic links, to an inode.

use crate::bytes::lemma_len_fits;
use crate::dir::{dir_lookup, lookup_name};
use crate::error::Ext4Error;
use crate::file::{file_content, read_file};
use crate::inode::{decode_inode, read_inode, Inode, PAYLOAD_OFFSET};
use crate::path::{check_bytes, is_component, is_path, join, SEPARATOR};
use crate::superblock::{Superblock, ROOT_INODE};
use vstd::prelude::*;
use vstd::slice::{slice_subrange, slice_to_vec};

verus! {

/// The number of symbolic links that one resolution follows at most.
pub const MAX_SYMLINKS: u32 = 40;

/// The greatest length of a link target that the inode record holds
/// itself. A longer target is the content of the link.
pub const MAX_INLINE_TARGET: u64 = 59;

/// The end of the component of `path` that `from` lies in: the position of
/// the next separator at or after `from`, or the end of the path.
pub open spec fn component_end(path: Seq<u8>, from: int) -> int
    decreases path.len() - from,
{
    if from < 0 || from >= path.len() || path[from] == SEPARATOR {
        from
    } else {
        component_end(path, from + 1)
    }
}

/// The end of a component lies at or after each of its positions and
/// within the path, no separator lies before it, and a separator or the
/// end of the path lies at it.
pub proof fn lemma_component_end(path: Seq<u8>, from: int)
    requires
        0 <= from <= path.len(),
    ensures
        from <= component_end(path, from) <= path.len(),
        from < path.len() && path[from] != SEPARATOR ==> from < component_end(path, from),
        forall|k: int| from <= k < component_end(path, from) ==> path[k] != SEPARATOR,
        component_end(path, from) < path.len() ==> path[component_end(path, from)] == SEPARATOR,
    decreases path.len() - from,
{
    if from < path.len() && path[from] != SEPARATOR {
        lemma_component_end(path, from + 1);
    }
}

/// The target of the symbolic link `inode`.
///
/// A target of at most 59 bytes lies in the inode record; a longer one is
/// the content of the link. An empty target, one longer than a block and
/// one that is no path are `Corrupt`.
pub open spec fn symlink_target(img: Seq<u8>, sb: Superblock, inode: Inode) -> Result<
    Seq<u8>,
    Ext4Error,
> {
    if inode.size == 0 || inode.size > sb.block_size {
        Err(Ext4Error::Corrupt)
    } else if inode.size <= MAX_INLINE_TARGET {
        let target = img.subrange(inode.payload(), inode.payload() + inode.size);
        if is_path(target) {
            Ok(target)
        } else {
            Err(Ext4Error::Corrupt)
        }
    } else {
        match file_content(img, sb, inode) {
            Err(e) => Err(e),
            Ok(target) => if is_path(target) {
                Ok(target)
            } else {
                Err(Ext4Error::Corrupt)
            },
        }
    }
}

/// The inode that the rest of `path` from `pos` on leads to, from the
/// directory `cur`, after `links` symbolic links have been followed.
///
/// Separators are skipped, so empty components count for nothing. Each
/// other component is looked up by its exact bytes in the directory
/// reached so far: what is no directory there is `NotADirectory`, and a
/// name that the directory does not hold is `NotFound`. Where the inode
/// found is a symbolic link, its target takes the place of the component:
/// resolution goes on with the target followed by the rest of the path,
/// from the root where the target starts with a separator, else from the
/// directory that holds the link. The link that would be the 41st is
/// `TooManySymlinks`.
pub open spec fn walk(
    img: Seq<u8>,
    sb: Superblock,
    cur: u32,
    path: Seq<u8>,
    pos: int,
    links: nat,
) -> Result<u32, Ext4Error>
    decreases MAX_SYMLINKS - links, path.len() - pos,
{
    if pos < 0 || pos >= path.len() {
        Ok(cur)
    } else if path[pos] == SEPARATOR {
        walk(img, sb, cur, path, pos + 1, links)
    } else {
        let end = component_end(path, pos);
        match decode_inode(img, sb, cur) {
            Err(e) => Err(e),
            Ok(dir) => match dir_lookup(img, sb, dir, path.subrange(pos, end)) {
                Err(e) => Err(e),
                Ok(child) => match decode_inode(img, sb, child) {
                    Err(e) => Err(e),
                    Ok(found) => if !found.spec_is_symlink() {
                        proof {
                            lemma_component_end(path, pos);
                        }
                        walk(img, sb, child, path, end, links)
                    } else if links >= MAX_SYMLINKS {
                        Err(Ext4Error::TooManySymlinks)
                    } else {
                        match symlink_target(img, sb, found) {
                            Err(e) => Err(e),
                            Ok(target) => walk(
                                img,
                                sb,
                                link_start(cur, target),
                                target + path.subrange(end, path.len() as int),
                                0,
                                links + 1,
                            ),
                        }
                    },
                },
            },
        }
    }
}

/// The directory from which the target of a link found in the directory
/// `cur` is resolved.
pub open spec fn link_start(cur: u32, target: Seq<u8>) -> u32 {
    if target.len() > 0 && target[0] == SEPARATOR {
        ROOT_INODE
    } else {
        cur
    }
}

/// The inode that `path` names. A path that does not start with a
/// separator is `NotAbsolute`.
pub open spec fn resolve_path(img: Seq<u8>, sb: Superblock, path: Seq<u8>) -> Result<
    u32,
    Ext4Error,
> {
    if path.len() == 0 || path[0] != SEPARATOR {
        Err(Ext4Error::NotAbsolute)
    } else {
        walk(img, sb, ROOT_INODE, path, 0, 0)
    }
}

/// The end of a component is where the first separator or the end of the
/// path is found.
pub proof fn lemma_component_end_is(path: Seq<u8>, from: int, end: int)
    requires
        0 <= from <= end <= path.len(),
        forall|k: int| from <= k < end ==> path[k] != SEPARATOR,
        end == path.len() || path[end] == SEPARATOR,
    ensures
        component_end(path, from) == end,
    decreases end - from,
{
    if from < end {
        lemma_component_end_is(path, from + 1, end);
    }
}

/// Bytes put after the path `p` leave its components as they are: they
/// are none, or start with a separator, or `p` ends with one.
pub open spec fn splits_after(p: Seq<u8>, s: Seq<u8>) -> bool {
    s.len() == 0 || s[0] == SEPARATOR || (p.len() > 0 && p.last() == SEPARATOR)
}

/// A component of `p` ends at the same place in `p + s`.
pub proof fn lemma_component_end_append(p: Seq<u8>, s: Seq<u8>, pos: int)
    requires
        0 <= pos < p.len(),
        splits_after(p, s),
    ensures
        component_end(p + s, pos) == component_end(p, pos),
        p.len() > 0 && p.last() == SEPARATOR ==> component_end(p, pos) < p.len(),
{
    lemma_component_end(p, pos);
    let end = component_end(p, pos);
    if p.last() == SEPARATOR && end == p.len() {
        assert(p[p.len() - 1] != SEPARATOR);
    }
    assert forall|k: int| pos <= k < end implies (p + s)[k] != SEPARATOR by {
        assert((p + s)[k] == p[k]);
    }
    if end < p.len() {
        assert((p + s)[end] == p[end]);
    } else if s.len() > 0 {
        assert((p + s)[end] == s[0]);
    }
    lemma_component_end_is(p + s, pos, end);
}

/// Resolution depends on the rest of the path alone, not on what lies
/// before the position.
pub proof fn lemma_walk_rest(
    img: Seq<u8>,
    sb: Superblock,
    cur: u32,
    path: Seq<u8>,
    pos: int,
    links: nat,
)
    requires
        0 <= pos <= path.len(),
    ensures
        walk(img, sb, cur, path, pos, links) == walk(
            img,
            sb,
            cur,
            path.subrange(pos, path.len() as int),
            0,
            links,
        ),
    decreases MAX_SYMLINKS - links, path.len() - pos,
{
    let len = path.len() as int;
    let rest = path.subrange(pos, len);
    if pos >= len {
    } else if path[pos] == SEPARATOR {
        assert(rest[0] == SEPARATOR);
        lemma_walk_rest(img, sb, cur, path, pos + 1, links);
        lemma_walk_rest(img, sb, cur, rest, 1, links);
        assert(rest.subrange(1, rest.len() as int) =~= path.subrange(pos + 1, len));
    } else {
        assert(rest[0] == path[pos]);
        lemma_component_end(path, pos);
        let end = component_end(path, pos);
        assert forall|k: int| 0 <= k < end - pos implies rest[k] != SEPARATOR by {
            assert(rest[k] == path[pos + k]);
        }
        if end < len {
            assert(rest[end - pos] == path[end]);
        }
        lemma_component_end_is(rest, 0, end - pos);
        assert(rest.subrange(0, end - pos) =~= path.subrange(pos, end));
        assert(rest.subrange(end - pos, rest.len() as int) =~= path.subrange(end, len));
        match decode_inode(img, sb, cur) {
            Err(_) => {},
            Ok(dir) => match dir_lookup(img, sb, dir, path.subrange(pos, end)) {
                Err(_) => {},
                Ok(child) => match decode_inode(img, sb, child) {
                    Err(_) => {},
                    Ok(found) => {
                        if !found.spec_is_symlink() {
                            lemma_walk_rest(img, sb, child, path, end, links);
                            lemma_walk_rest(img, sb, child, rest, end - pos, links);
                        }
                    },
                },
            },
        }
    }
}

/// Resolving a path that was made longer is resolving the path and going
/// on with what was put after it. The result is the number of links that
/// have been followed when the path is used up.
pub proof fn lemma_walk_append(
    img: Seq<u8>,
    sb: Superblock,
    cur: u32,
    p: Seq<u8>,
    pos: int,
    links: nat,
    s: Seq<u8>,
) -> (k: nat)
    requires
        0 <= pos <= p.len(),
        links <= MAX_SYMLINKS,
        walk(img, sb, cur, p, pos, links) is Ok,
        splits_after(p, s),
    ensures
        links <= k <= MAX_SYMLINKS,
        walk(img, sb, cur, p + s, pos, links) == walk(
            img,
            sb,
            walk(img, sb, cur, p, pos, links)->Ok_0,
            s,
            0,
            k,
        ),
    decreases MAX_SYMLINKS - links, p.len() - pos,
{
    let len = p.len() as int;
    let whole = p + s;
    if pos >= len {
        lemma_walk_rest(img, sb, cur, whole, pos, links);
        assert(whole.subrange(pos, whole.len() as int) =~= s);
        links
    } else if p[pos] == SEPARATOR {
        assert(whole[pos] == p[pos]);
        lemma_walk_append(img, sb, cur, p, pos + 1, links, s)
    } else {
        assert(whole[pos] == p[pos]);
        lemma_component_end(p, pos);
        lemma_component_end_append(p, s, pos);
        let end = component_end(p, pos);
        assert(whole.subrange(pos, end) =~= p.subrange(pos, end));
        let dir = decode_inode(img, sb, cur)->Ok_0;
        let child = dir_lookup(img, sb, dir, p.subrange(pos, end))->Ok_0;
        let found = decode_inode(img, sb, child)->Ok_0;
        if !found.spec_is_symlink() {
            lemma_walk_append(img, sb, child, p, end, links, s)
        } else {
            let target = symlink_target(img, sb, found)->Ok_0;
            let next = target + p.subrange(end, len);
            assert(target + whole.subrange(end, whole.len() as int) =~= next + s);
            if !(s.len() == 0 || s[0] == SEPARATOR) {
                assert(end < len);
                assert(next.last() == p.last());
            }
            lemma_walk_append(img, sb, link_start(cur, target), next, 0, links + 1, s)
        }
    }
}

/// What is put after the path of a directory to name one of its entries.
pub open spec fn child_suffix(parent: Seq<u8>, name: Seq<u8>) -> Seq<u8> {
    if parent.len() > 0 && parent.last() == SEPARATOR {
        name
    } else {
        seq![SEPARATOR] + name
    }
}

/// From a directory, a name that the directory holds leads to the inode
/// that it holds under the name, unless that is a symbolic link.
pub proof fn lemma_walk_child(
    img: Seq<u8>,
    sb: Superblock,
    dir: u32,
    parent: Seq<u8>,
    name: Seq<u8>,
    links: nat,
)
    requires
        is_component(name),
        decode_inode(img, sb, dir) is Ok,
        dir_lookup(img, sb, decode_inode(img, sb, dir)->Ok_0, name) is Ok,
    ensures
        ({
            let child = dir_lookup(img, sb, decode_inode(img, sb, dir)->Ok_0, name)->Ok_0;
            match decode_inode(img, sb, child) {
                Err(e) => walk(img, sb, dir, child_suffix(parent, name), 0, links) == Err::<
                    u32,
                    Ext4Error,
                >(e),
                Ok(found) => !found.spec_is_symlink() ==> walk(
                    img,
                    sb,
                    dir,
                    child_suffix(parent, name),
                    0,
                    links,
                ) == Ok::<u32, Ext4Error>(child),
            }
        }),
{
    let s = child_suffix(parent, name);
    let from: int = if parent.len() > 0 && parent.last() == SEPARATOR {
        0
    } else {
        1
    };
    assert forall|k: int| from <= k < s.len() implies s[k] != SEPARATOR by {
        assert(s[k] == name[k - from]);
    }
    assert(s[from] == name[0]);
    lemma_component_end_is(s, from, s.len() as int);
    assert(s.subrange(from, s.len() as int) =~= name);
    if from == 1 {
        assert(s[0] == SEPARATOR);
        assert(walk(img, sb, dir, s, 0, links) == walk(img, sb, dir, s, 1, links));
    }
    let child = dir_lookup(img, sb, decode_inode(img, sb, dir)->Ok_0, name)->Ok_0;
    assert(walk(img, sb, child, s, s.len() as int, links) == Ok::<u32, Ext4Error>(child));
}

/// A path with one more component resolves to what the directory that the
/// path names holds under that component, unless that is a symbolic link.
pub proof fn lemma_resolve_child(img: Seq<u8>, sb: Superblock, parent: Seq<u8>, name: Seq<u8>)
    requires
        is_component(name),
        resolve_path(img, sb, parent) is Ok,
        decode_inode(img, sb, resolve_path(img, sb, parent)->Ok_0) is Ok,
        dir_lookup(
            img,
            sb,
            decode_inode(img, sb, resolve_path(img, sb, parent)->Ok_0)->Ok_0,
            name,
        ) is Ok,
    ensures
        ({
            let dir = decode_inode(img, sb, resolve_path(img, sb, parent)->Ok_0)->Ok_0;
            let child = dir_lookup(img, sb, dir, name)->Ok_0;
            match decode_inode(img, sb, child) {
                Err(e) => resolve_path(img, sb, join(parent, name)) == Err::<u32, Ext4Error>(e),
                Ok(found) => !found.spec_is_symlink() ==> resolve_path(
                    img,
                    sb,
                    join(parent, name),
                ) == Ok::<u32, Ext4Error>(child),
            }
        }),
{
    let s = child_suffix(parent, name);
    assert(join(parent, name) =~= parent + s);
    assert((parent + s)[0] == parent[0]);
    let k = lemma_walk_append(img, sb, ROOT_INODE, parent, 0, 0, s);
    lemma_walk_child(img, sb, resolve_path(img, sb, parent)->Ok_0, parent, name, k);
}

/// Where a path with one more component resolves, the directory that the
/// path names holds that component.
pub proof fn lemma_resolved_child_is_held(
    img: Seq<u8>,
    sb: Superblock,
    parent: Seq<u8>,
    name: Seq<u8>,
)
    requires
        is_component(name),
        resolve_path(img, sb, parent) is Ok,
        resolve_path(img, sb, join(parent, name)) is Ok,
    ensures
        decode_inode(img, sb, resolve_path(img, sb, parent)->Ok_0) is Ok,
        dir_lookup(
            img,
            sb,
            decode_inode(img, sb, resolve_path(img, sb, parent)->Ok_0)->Ok_0,
            name,
        ) is Ok,
{
    let s = child_suffix(parent, name);
    assert(join(parent, name) =~= parent + s);
    assert((parent + s)[0] == parent[0]);
    let k = lemma_walk_append(img, sb, ROOT_INODE, parent, 0, 0, s);
    let dir = resolve_path(img, sb, parent)->Ok_0;
    let from: int = if parent.len() > 0 && parent.last() == SEPARATOR {
        0
    } else {
        1
    };
    assert forall|j: int| from <= j < s.len() implies s[j] != SEPARATOR by {
        assert(s[j] == name[j - from]);
    }
    assert(s[from] == name[0]);
    lemma_component_end_is(s, from, s.len() as int);
    assert(s.subrange(from, s.len() as int) =~= name);
    if from == 1 {
        assert(s[0] == SEPARATOR);
        assert(walk(img, sb, dir, s, 0, k) == walk(img, sb, dir, s, 1, k));
    }
}

/// The position of the first byte of `path` at or after `pos` that is no
/// separator.
pub open spec fn skip_separators(path: Seq<u8>, pos: int) -> int
    decreases path.len() - pos,
{
    if 0 <= pos < path.len() && path[pos] == SEPARATOR {
        skip_separators(path, pos + 1)
    } else {
        pos
    }
}

/// Resolution of `path` from the directory `cur` starts by following a
/// symbolic link, and goes on with `next` from the directory `start`.
pub open spec fn follows_link(
    img: Seq<u8>,
    sb: Superblock,
    cur: u32,
    path: Seq<u8>,
    start: u32,
    next: Seq<u8>,
) -> bool {
    let pos = skip_separators(path, 0);
    let end = component_end(path, pos);
    &&& pos < path.len()
    &&& decode_inode(img, sb, cur) matches Ok(dir)
    &&& dir_lookup(img, sb, dir, path.subrange(pos, end)) matches Ok(child)
    &&& decode_inode(img, sb, child) matches Ok(found)
    &&& found.spec_is_symlink()
    &&& symlink_target(img, sb, found) matches Ok(target)
    &&& start == link_start(cur, target)
    &&& next == target + path.subrange(end, path.len() as int)
}

/// Separators at the start of what is left of a path count for nothing.
pub proof fn lemma_walk_skips(
    img: Seq<u8>,
    sb: Superblock,
    cur: u32,
    path: Seq<u8>,
    pos: int,
    links: nat,
)
    requires
        0 <= pos <= path.len(),
    ensures
        pos <= skip_separators(path, pos) <= path.len(),
        skip_separators(path, pos) < path.len() ==> path[skip_separators(path, pos)]
            != SEPARATOR,
        walk(img, sb, cur, path, pos, links) == walk(
            img,
            sb,
            cur,
            path,
            skip_separators(path, pos),
            links,
        ),
    decreases path.len() - pos,
{
    if pos < path.len() && path[pos] == SEPARATOR {
        lemma_walk_skips(img, sb, cur, path, pos + 1, links);
    }
}

/// Following a link takes one of the links that the limit allows: where
/// none is left, resolution fails with `TooManySymlinks`, and else it goes
/// on from the target.
pub proof fn lemma_follows_link(
    img: Seq<u8>,
    sb: Superblock,
    cur: u32,
    path: Seq<u8>,
    start: u32,
    next: Seq<u8>,
    links: nat,
)
    requires
        follows_link(img, sb, cur, path, start, next),
    ensures
        walk(img, sb, cur, path, 0, links) == if links >= MAX_SYMLINKS {
            Err::<u32, Ext4Error>(Ext4Error::TooManySymlinks)
        } else {
            walk(img, sb, start, next, 0, links + 1)
        },
{
    lemma_walk_skips(img, sb, cur, path, 0, links);
}

/// A cycle of symbolic links fails with the limit on links.
///
/// `dirs` and `paths` are the places that resolution comes through: from
/// each of them it follows a link to the next, and from the last to the
/// first. Then resolution from any of them, after any number of links,
/// fails with `TooManySymlinks`.
pub proof fn lemma_link_cycle(
    img: Seq<u8>,
    sb: Superblock,
    dirs: Seq<u32>,
    paths: Seq<Seq<u8>>,
    i: int,
    links: nat,
)
    requires
        dirs.len() == paths.len(),
        0 <= i < dirs.len(),
        links <= MAX_SYMLINKS,
        forall|j: int|
            0 <= j < dirs.len() ==> #[trigger] follows_link(
                img,
                sb,
                dirs[j],
                paths[j],
                dirs[(j + 1) % (dirs.len() as int)],
                paths[(j + 1) % (dirs.len() as int)],
            ),
    ensures
        walk(img, sb, dirs[i], paths[i], 0, links) == Err::<u32, Ext4Error>(
            Ext4Error::TooManySymlinks,
        ),
    decreases MAX_SYMLINKS - links,
{
    let n = dirs.len() as int;
    let j = (i + 1) % n;
    assert(follows_link(img, sb, dirs[i], paths[i], dirs[j], paths[j]));
    lemma_walk_skips(img, sb, dirs[i], paths[i], 0, links);
    if links < MAX_SYMLINKS {
        lemma_link_cycle(img, sb, dirs, paths, j, links + 1);
    }
}

/// Finds the end of the component that starts at `from`.
pub fn find_component_end(path: &[u8], from: usize) -> (r: usize)
    requires
        from <= path@.len(),
    ensures
        r == component_end(path@, from as int),
        from <= r <= path@.len(),
{
    let mut end: usize = from;
    while end < path.len() && path[end] != SEPARATOR
        invariant
            from <= end <= path@.len(),
            component_end(path@, from as int) == component_end(path@, end as int),
        decreases path@.len() - end,
    {
        end += 1;
    }
    end
}

/// Reads the target of a symbolic link.
pub fn read_link(image: &[u8], sb: &Superblock, inode: &Inode) -> (r: Result<Vec<u8>, Ext4Error>)
    requires
        sb.wf(),
        inode.in_image(image@),
    ensures
        match r {
            Ok(t) => symlink_target(image@, *sb, *inode) == Ok::<Seq<u8>, Ext4Error>(t@),
            Err(e) => symlink_target(image@, *sb, *inode) == Err::<Seq<u8>, Ext4Error>(e),
        },
{
    proof {
        lemma_len_fits(image);
    }
    if inode.size == 0 || inode.size > sb.block_size as u64 {
        return Err(Ext4Error::Corrupt);
    }
    let target: Vec<u8> = if inode.size <= MAX_INLINE_TARGET {
        let at: usize = inode.offset + PAYLOAD_OFFSET;
        slice_to_vec(slice_subrange(image, at, at + inode.size as usize))
    } else {
        read_file(image, sb, inode)?
    };
    match check_bytes(target.as_slice()) {
        Ok(()) => Ok(target),
        Err(_) => Err(Ext4Error::Corrupt),
    }
}

/// Resolves a path to the number of the inode that it names.
pub fn resolve(image: &[u8], sb: &Superblock, path: &[u8]) -> (r: Result<u32, Ext4Error>)
    requires
        sb.wf(),
    ensures
        r == resolve_path(image@, *sb, path@),
{
    if path.len() == 0 || path[0] != SEPARATOR {
        return Err(Ext4Error::NotAbsolute);
    }
    let mut buf: Vec<u8> = slice_to_vec(path);
    let mut cur: u32 = ROOT_INODE;
    let mut pos: usize = 0;
    let mut links: u32 = 0;
    loop
        invariant
            sb.wf(),
            pos <= buf@.len(),
            links <= MAX_SYMLINKS,
            resolve_path(image@, *sb, path@) == walk(
                image@,
                *sb,
                cur,
                buf@,
                pos as int,
                links as nat,
            ),
        decreases MAX_SYMLINKS - links, buf@.len() - pos,
    {
        if pos >= buf.len() {
            return Ok(cur);
        }
        if buf[pos] == SEPARATOR {
            pos += 1;
        } else {
            let end: usize = find_component_end(buf.as_slice(), pos);
            proof {
                lemma_component_end(buf@, pos as int);
            }
            let dir = read_inode(image, sb, cur)?;
            let child: u32 = lookup_name(
                image,
                sb,
                &dir,
                slice_subrange(buf.as_slice(), pos, end),
            )?;
            let found = read_inode(image, sb, child)?;
            if !found.is_symlink() {
                cur = child;
                pos = end;
            } else {
                if links >= MAX_SYMLINKS {
                    return Err(Ext4Error::TooManySymlinks);
                }
                let mut next: Vec<u8> = read_link(image, sb, &found)?;
                let ghost target = next@;
                if next.len() > 0 && next[0] == SEPARATOR {
                    cur = ROOT_INODE;
                }
                next.extend_from_slice(slice_subrange(buf.as_slice(), end, buf.len()));
                assert(next@ =~= target + buf@.subrange(end as int, buf@.len() as int));
                buf = next;
                pos = 0;
                links += 1;
            }
        }
    }
}

} // verus!
