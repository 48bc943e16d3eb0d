//! The content of a file: its blocks in logical order, holes read as
//! zeros, cut to the length that the inode declares.

use crate::block::{block_start, locate_block};
use crate::bytes::lemma_len_fits;
use crate::error::Ext4Error;
use crate::inode::Inode;
use crate::mapper::{lookup_block, map_block};
use crate::superblock::{div_ceil, Superblock};
use vstd::prelude::*;
use vstd::slice::slice_subrange;

verus! {

/// The number of blocks that hold `size` bytes.
pub open spec fn block_count(sb: Superblock, size: u64) -> int {
    div_ceil(size as int, sb.block_size as int)
}

/// Logical block `lblock` of `inode` is a hole: no block of the image
/// holds it.
pub open spec fn is_hole(img: Seq<u8>, sb: Superblock, inode: Inode, lblock: int) -> bool {
    map_block(img, sb, inode, lblock as u64) == Ok::<Option<u64>, Ext4Error>(None)
}

/// Byte `i` of the content of `inode`: zero in a hole, else the byte at
/// the same place of the block of the image that holds its logical block.
pub open spec fn file_byte(img: Seq<u8>, sb: Superblock, inode: Inode, i: int) -> u8 {
    match map_block(img, sb, inode, (i / sb.block_size as int) as u64) {
        Ok(Some(p)) => img[block_start(sb, p) + i % (sb.block_size as int)],
        _ => 0,
    }
}

/// Each of the first `n` logical blocks of `inode` is a hole or is held
/// by a block of the image.
pub open spec fn blocks_mapped(img: Seq<u8>, sb: Superblock, inode: Inode, n: int) -> bool {
    forall|lblock: int| 0 <= lblock < n ==> (#[trigger] map_block(img, sb, inode, lblock as u64)) is Ok
}

/// The content of `inode`: as many bytes as the inode declares.
///
/// A length that no buffer of this machine can have is `Unsupported`. A
/// logical block below the length whose mapping fails makes the whole
/// content `Corrupt`.
pub open spec fn file_content(img: Seq<u8>, sb: Superblock, inode: Inode) -> Result<
    Seq<u8>,
    Ext4Error,
> {
    if inode.size > usize::MAX {
        Err(Ext4Error::Unsupported)
    } else if !blocks_mapped(img, sb, inode, block_count(sb, inode.size)) {
        Err(Ext4Error::Corrupt)
    } else {
        Ok(Seq::new(inode.size as nat, |i: int| file_byte(img, sb, inode, i)))
    }
}

/// The content has exactly the length that the inode declares. Each of
/// its bytes that lies in a hole is zero, and each byte is what
/// `file_byte` says: outside a hole, the byte at the same place of the
/// block of the image that holds it.
pub proof fn lemma_content(img: Seq<u8>, sb: Superblock, inode: Inode)
    requires
        file_content(img, sb, inode) is Ok,
    ensures
        file_content(img, sb, inode)->Ok_0.len() == inode.size,
        forall|i: int|
            0 <= i < inode.size && is_hole(img, sb, inode, i / (sb.block_size as int))
                ==> #[trigger] file_content(img, sb, inode)->Ok_0[i] == 0,
        forall|i: int|
            0 <= i < inode.size ==> #[trigger] file_content(img, sb, inode)->Ok_0[i] == file_byte(
                img,
                sb,
                inode,
                i,
            ),
{
}

/// A position within block `lblock` divides into that block and the
/// distance from its start.
pub proof fn lemma_position(i: int, lblock: int, bs: int)
    requires
        bs > 0,
        lblock >= 0,
        lblock * bs <= i < lblock * bs + bs,
    ensures
        i / bs == lblock,
        i % bs == i - lblock * bs,
{
    vstd::arithmetic::div_mod::lemma_fundamental_div_mod_converse(i, bs, lblock, i - lblock * bs);
}

/// The blocks that hold `size` bytes are those that start below `size`.
pub proof fn lemma_block_count(size: int, lblock: int, bs: int)
    requires
        bs > 0,
        lblock >= 0,
        size >= 0,
    ensures
        lblock < div_ceil(size, bs) <==> lblock * bs < size,
{
    assert(lblock < (size + bs - 1) / bs <==> lblock * bs < size) by (nonlinear_arith)
        requires
            bs > 0,
            lblock >= 0,
            size >= 0,
    ;
}

/// Reads the whole content of an inode.
///
/// The result has exactly the length that the inode declares, and a byte
/// in a hole is zero.
pub fn read_file(image: &[u8], sb: &Superblock, inode: &Inode) -> (r: Result<Vec<u8>, Ext4Error>)
    requires
        sb.wf(),
        inode.in_image(image@),
    ensures
        match r {
            Ok(v) => file_content(image@, *sb, *inode) == Ok::<Seq<u8>, Ext4Error>(v@),
            Err(e) => file_content(image@, *sb, *inode) == Err::<Seq<u8>, Ext4Error>(e),
        },
        r matches Ok(v) ==> v@.len() == inode.size && forall|i: int|
            0 <= i < v@.len() && is_hole(image@, *sb, *inode, i / (sb.block_size as int))
                ==> #[trigger] v@[i] == 0,
{
    proof {
        lemma_len_fits(image);
        sb.lemma_bounds();
    }
    if inode.size > usize::MAX as u64 {
        return Err(Ext4Error::Unsupported);
    }
    let size: usize = inode.size as usize;
    let bs: usize = sb.block_size as usize;
    let mut out: Vec<u8> = Vec::new();
    let mut lblock: u64 = 0;
    while out.len() < size
        invariant
            sb.wf(),
            inode.in_image(image@),
            image@.len() <= usize::MAX,
            size == inode.size,
            bs == sb.block_size,
            1024 <= bs <= 65536,
            out@.len() <= size,
            out@.len() == lblock * bs || out@.len() == size,
            lblock * bs >= out@.len(),
            blocks_mapped(image@, *sb, *inode, lblock as int),
            forall|i: int| 0 <= i < out@.len() ==> out@[i] == file_byte(image@, *sb, *inode, i),
        decreases size - out@.len(),
    {
        let done: usize = out.len();
        let want: usize = if size - done < bs {
            size - done
        } else {
            bs
        };
        let ghost before = out@;
        proof {
            lemma_block_count(size as int, lblock as int, bs as int);
            assert(lblock < size) by (nonlinear_arith)
                requires
                    lblock * bs < size,
                    bs >= 1,
                    lblock >= 0,
            ;
        }
        match lookup_block(image, sb, inode, lblock) {
            Err(e) => {
                assert(map_block(image@, *sb, *inode, (lblock as int) as u64) is Err);
                return Err(e);
            },
            Ok(Some(p)) => {
                let start: usize = match locate_block(image, sb, p) {
                    Some(s) => s,
                    None => {
                        return Err(Ext4Error::Corrupt);
                    },
                };
                out.extend_from_slice(slice_subrange(image, start, start + want));
            },
            Ok(None) => {
                out.resize(done + want, 0u8);
            },
        }
        assert((lblock + 1) * bs == lblock * bs + bs) by (nonlinear_arith);
        assert forall|i: int| 0 <= i < out@.len() implies out@[i] == file_byte(
            image@,
            *sb,
            *inode,
            i,
        ) by {
            if i >= done {
                lemma_position(i, lblock as int, bs as int);
            } else {
                assert(out@[i] == before[i]);
            }
        }
        lblock = lblock + 1;
    }
    proof {
        lemma_block_count(size as int, lblock as int, bs as int);
        assert forall|l: int| 0 <= l < block_count(*sb, inode.size) implies (#[trigger] map_block(
            image@,
            *sb,
            *inode,
            l as u64,
        )) is Ok by {
            lemma_block_count(size as int, l, bs as int);
            assert(l * bs < lblock * bs);
            assert(l < lblock) by (nonlinear_arith)
                requires
                    l * bs < lblock * bs,
                    bs > 0,
            ;
        }
        assert(out@ =~= Seq::new(inode.size as nat, |i: int| file_byte(image@, *sb, *inode, i)));
    }
    Ok(out)
}

} // verus!
