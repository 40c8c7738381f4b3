//! How many disk blocks an inode of a given size occupies in easy-fs: its data blocks,
//! plus the index blocks that point at them.
use vstd::prelude::*;
use crate::vfs::{DiskInodeType, DiskInodeView};

verus! {

/// Bytes in a disk block.
pub const BLOCK_SZ: u64 = 512;
/// Data blocks an inode points at directly.
pub const INODE_DIRECT_COUNT: u64 = 28;
/// Block pointers in one index block.
pub const INODE_INDIRECT1_COUNT: u64 = 128;
/// Data blocks reachable without the doubly indirect block.
pub const INDIRECT1_BOUND: u64 = 156;

/// Data blocks that `size` bytes take.
pub open spec fn data_blocks(size: int) -> int {
    (size + 511) / 512
}

/// Blocks that an inode of `size` bytes occupies: its data blocks, the indirect block
/// once it has more than the direct pointers hold, and the doubly indirect block with
/// its second-level index blocks once it has more than that.
pub open spec fn total_blocks(size: int) -> int {
    let d = data_blocks(size);
    d + (if d > 28 { 1int } else { 0int }) + (if d > 156 { 1 + (d - 156 + 127) / 128 } else { 0int })
}

/// The size in bytes of an inode on disk: a directory holds one entry per slot.
pub open spec fn inode_size(d: DiskInodeView) -> int {
    if d.kind == DiskInodeType::Directory {
        (d.entries.len() * 32) as int
    } else {
        d.data.len() as int
    }
}

/// Blocks that the inodes of `fs` occupy, all sizes counted.
pub open spec fn blocks_of(fs: Seq<DiskInodeView>) -> int
    decreases fs.len(),
{
    if fs.len() == 0 {
        0
    } else {
        blocks_of(fs.drop_last()) + total_blocks(inode_size(fs.last()))
    }
}

/// A larger size never takes fewer blocks.
pub proof fn lemma_total_blocks_monotone(a: int, b: int)
    requires
        0 <= a <= b,
    ensures
        0 <= total_blocks(a) <= total_blocks(b),
{
    vstd::arithmetic::div_mod::lemma_div_is_ordered(a + 511, b + 511, 512);
    let da = data_blocks(a);
    let db = data_blocks(b);
    if da > 156 {
        vstd::arithmetic::div_mod::lemma_div_is_ordered(da - 156 + 127, db - 156 + 127, 128);
    }
    assert(da >= 0);
}

/// The blocks of `fs` after inode `i` is replaced by `d`.
pub proof fn lemma_blocks_update(fs: Seq<DiskInodeView>, i: int, d: DiskInodeView)
    requires
        0 <= i < fs.len(),
    ensures
        blocks_of(fs.update(i, d)) == blocks_of(fs) - total_blocks(inode_size(fs[i])) + total_blocks(inode_size(d)),
    decreases fs.len(),
{
    let u = fs.update(i, d);
    if i == fs.len() - 1 {
        assert(u.drop_last() =~= fs.drop_last());
    } else {
        assert(u.drop_last() =~= fs.drop_last().update(i, d));
        lemma_blocks_update(fs.drop_last(), i, d);
    }
}

/// The blocks of `fs` with `d` added at the end.
pub proof fn lemma_blocks_push(fs: Seq<DiskInodeView>, d: DiskInodeView)
    ensures
        blocks_of(fs.push(d)) == blocks_of(fs) + total_blocks(inode_size(d)),
{
    assert(fs.push(d).drop_last() =~= fs);
}

/// No inode takes more blocks than all of them together.
pub proof fn lemma_blocks_at_least(fs: Seq<DiskInodeView>, i: int)
    requires
        0 <= i < fs.len(),
    ensures
        total_blocks(inode_size(fs[i])) <= blocks_of(fs),
        0 <= blocks_of(fs),
    decreases fs.len(),
{
    lemma_total_blocks_monotone(0, inode_size(fs.last()));
    if i < fs.len() - 1 {
        lemma_blocks_at_least(fs.drop_last(), i);
        assert(fs.drop_last()[i] == fs[i]);
    } else if fs.len() > 1 {
        lemma_blocks_at_least(fs.drop_last(), 0);
    } else {
        assert(fs.drop_last().len() == 0);
    }
}

/// Blocks that an inode of `size` bytes occupies.
pub fn total_blocks_of(size: u32) -> (n: u32)
    ensures
        n == total_blocks(size as int),
{
    let data: u64 = (size as u64 + (BLOCK_SZ - 1)) / BLOCK_SZ;
    let mut total: u64 = data;
    if data > INODE_DIRECT_COUNT {
        total = total + 1;
    }
    if data > INDIRECT1_BOUND {
        total = total + 1;
        total = total + (data - INDIRECT1_BOUND + INODE_INDIRECT1_COUNT - 1) / INODE_INDIRECT1_COUNT;
    }
    total as u32
}

} // verus!
