//! Block and segment addressing: where a segment's blocks lie on the device, and which
//! pointer of an inode holds a given logical block of a file.

use vstd::prelude::*;
use crate::error::FsError;
use crate::layout::{
    BLKN_SEGMENT, BLKSIZE, BLK_NENTRY, MAX_FILE_SIZE, MAX_NBLOCK_DIRECT,
    MAX_NBLOCK_DOUBLE_INDIRECT, MAX_NBLOCK_INDIRECT, SEGMENT_BLKS,
};

verus! {

/// Block id of block `off` of segment `seg`.
pub open spec fn seg_block_spec(seg: int, off: int) -> int {
    BLKN_SEGMENT + seg * SEGMENT_BLKS + off
}

/// Block id of block `off` of segment `seg`.
pub fn seg_block(seg: usize, off: usize) -> (r: usize)
    requires
        off < SEGMENT_BLKS,
        seg_block_spec(seg as int, off as int) <= usize::MAX,
    ensures
        r == seg_block_spec(seg as int, off as int),
{
    BLKN_SEGMENT + seg * SEGMENT_BLKS + off
}

/// The segment and the offset within it of a block, or `None` for a block before the
/// segment area.
pub fn block_seg(b: usize) -> (r: Option<(usize, usize)>)
    ensures
        r is None <==> b < BLKN_SEGMENT,
        r matches Some((s, o)) ==> o < SEGMENT_BLKS && seg_block_spec(s as int, o as int) == b,
{
    if b < BLKN_SEGMENT {
        None
    } else {
        let d = b - BLKN_SEGMENT;
        Some((d / SEGMENT_BLKS, d % SEGMENT_BLKS))
    }
}

/// A block id maps back to the segment and offset it was made from.
pub proof fn lemma_seg_block_round_trip(seg: nat, off: nat)
    requires
        off < SEGMENT_BLKS,
    ensures
        (seg_block_spec(seg as int, off as int) - BLKN_SEGMENT) / (SEGMENT_BLKS as int) == seg,
        (seg_block_spec(seg as int, off as int) - BLKN_SEGMENT) % (SEGMENT_BLKS as int) == off,
{
    let d = seg * 1024 + off;
    assert(d / 1024 == seg && d % 1024 == off) by (nonlinear_arith)
        requires
            d == seg * 1024 + off,
            off < 1024,
    ;
}

/// Which pointer of an inode holds a logical block.
#[derive(Debug, PartialEq, Eq, Structural, Copy, Clone)]
pub enum BlockSlot {
    /// direct pointer `i`
    Direct(usize),
    /// entry `i` of the indirect block
    Indirect(usize),
    /// entry `j` of the indirect block that entry `i` of the double-indirect block points to
    DoubleIndirect(usize, usize),
}

/// The logical block index that a slot stands for.
pub open spec fn slot_index(s: BlockSlot) -> int {
    match s {
        BlockSlot::Direct(i) => i as int,
        BlockSlot::Indirect(i) => MAX_NBLOCK_DIRECT + i,
        BlockSlot::DoubleIndirect(i, j) => MAX_NBLOCK_INDIRECT + i * BLK_NENTRY + j,
    }
}

/// Whether the indices of a slot are within the pointer blocks they name.
pub open spec fn slot_valid(s: BlockSlot) -> bool {
    match s {
        BlockSlot::Direct(i) => i < MAX_NBLOCK_DIRECT,
        BlockSlot::Indirect(i) => i < BLK_NENTRY,
        BlockSlot::DoubleIndirect(i, j) => i < BLK_NENTRY && j < BLK_NENTRY,
    }
}

/// The pointer that holds logical block `idx`, or `FileTooLarge` past the double-indirect
/// range.
pub fn locate(idx: usize) -> (r: Result<BlockSlot, FsError>)
    ensures
        r is Err <==> idx >= MAX_NBLOCK_DOUBLE_INDIRECT,
        r matches Err(e) ==> e == FsError::FileTooLarge,
        r matches Ok(s) ==> slot_valid(s) && slot_index(s) == idx,
{
    if idx < MAX_NBLOCK_DIRECT {
        Ok(BlockSlot::Direct(idx))
    } else if idx < MAX_NBLOCK_INDIRECT {
        Ok(BlockSlot::Indirect(idx - MAX_NBLOCK_DIRECT))
    } else if idx < MAX_NBLOCK_DOUBLE_INDIRECT {
        let d = idx - MAX_NBLOCK_INDIRECT;
        let i = d / BLK_NENTRY;
        let j = d % BLK_NENTRY;
        assert(i * 1024 + j == d && i < 1024) by (nonlinear_arith)
            requires
                i == d / 1024,
                j == d % 1024,
                d < 1048576,
        ;
        Ok(BlockSlot::DoubleIndirect(i, j))
    } else {
        Err(FsError::FileTooLarge)
    }
}

/// Every valid slot is what `locate` gives for its index: slots and indices correspond one
/// to one.
pub proof fn lemma_slot_unique(a: BlockSlot, b: BlockSlot)
    requires
        slot_valid(a),
        slot_valid(b),
        slot_index(a) == slot_index(b),
    ensures
        a == b,
{
    match (a, b) {
        (BlockSlot::DoubleIndirect(i1, j1), BlockSlot::DoubleIndirect(i2, j2)) => {
            let x1 = i1 as int;
            let x2 = i2 as int;
            let y1 = j1 as int;
            let y2 = j2 as int;
            assert(x1 == x2 && y1 == y2) by (nonlinear_arith)
                requires
                    x1 * 1024 + y1 == x2 * 1024 + y2,
                    0 <= y1 < 1024,
                    0 <= y2 < 1024,
                    0 <= x1,
                    0 <= x2,
            ;
        },
        (BlockSlot::DoubleIndirect(i1, j1), _) => {
            assert(i1 * 1024 + j1 >= 0) by (nonlinear_arith);
        },
        (_, BlockSlot::DoubleIndirect(i2, j2)) => {
            assert(i2 * 1024 + j2 >= 0) by (nonlinear_arith);
        },
        _ => {},
    }
}

/// Logical block index that holds byte `offset` of a file, or `FileTooLarge` where the
/// offset is past the 32-bit size field.
pub fn block_index(offset: usize) -> (r: Result<usize, FsError>)
    ensures
        r is Err <==> offset > MAX_FILE_SIZE,
        r matches Err(e) ==> e == FsError::FileTooLarge,
        r matches Ok(i) ==> i == offset as int / BLKSIZE as int,
{
    if offset > MAX_FILE_SIZE {
        Err(FsError::FileTooLarge)
    } else {
        Ok(offset / BLKSIZE)
    }
}

/// Number of blocks that a file of `size` bytes takes: the size divided by the block size,
/// rounded up.
pub fn blocks_for_size(size: u32) -> (r: usize)
    ensures
        r == (size as int + BLKSIZE - 1) / BLKSIZE as int,
{
    ((size as u64 + 4095) / 4096) as usize
}

/// Number of whole segments that fit on a device of `bytes` bytes after the area reserved
/// for the superblock and the checkpoint region.
pub open spec fn capacity_segments(bytes: int) -> int {
    if bytes / (BLKSIZE as int) < BLKN_SEGMENT {
        0
    } else {
        (bytes / (BLKSIZE as int) - BLKN_SEGMENT) / (SEGMENT_BLKS as int)
    }
}

/// Number of whole segments that fit on a device of `bytes` bytes after the area reserved
/// for the superblock and the checkpoint region.
pub fn segments_for_capacity(bytes: usize) -> (r: usize)
    ensures
        r == capacity_segments(bytes as int),
{
    let blocks = bytes / BLKSIZE;
    if blocks < BLKN_SEGMENT {
        0
    } else {
        (blocks - BLKN_SEGMENT) / SEGMENT_BLKS
    }
}

} // verus!
