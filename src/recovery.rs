//! Checkpoint and recovery: rebuilding the global inode directory from the checkpoint and
//! the segments sealed after it.

use vstd::prelude::*;
use crate::imap::InodeDir;
use crate::layout::{SegmentMeta, INVALID_BLKID, MAGIC};

verus! {

/// Word that the `unused` field of a segment's metadata holds once the segment is sealed.
/// A metadata block that was never written, or written only in part, lacks it.
pub const SEAL_MARK: u32 = MAGIC;

/// What recovery reads of one segment: its metadata and its inode map, as pairs of
/// inode id and block id. A block id of `INVALID_BLKID` records that the inode was removed.
pub struct Segment {
    pub meta: SegmentMeta,
    pub seg_imap: Vec<(u32, u32)>,
}

/// A segment counts as sealed when its metadata carries the seal mark and the inode count
/// that the metadata records matches its inode map.
pub open spec fn sealed(s: Segment) -> bool {
    s.meta.unused == SEAL_MARK && s.meta.inodes_num == s.seg_imap@.len()
}

impl Segment {
    /// A sealed segment with `live` live data blocks and the given inode map: its metadata
    /// records the inode count and carries the seal mark.
    pub fn seal(live: u32, seg_imap: Vec<(u32, u32)>) -> (r: Segment)
        requires
            seg_imap@.len() <= u32::MAX,
        ensures
            sealed(r),
            r.meta.size == live,
            r.seg_imap@ == seg_imap@,
    {
        let n = seg_imap.len() as u32;
        Segment { meta: SegmentMeta { size: live, inodes_num: n, unused: SEAL_MARK }, seg_imap }
    }
}

/// Whether a segment was completely sealed.
pub fn is_sealed(s: &Segment) -> (r: bool)
    ensures
        r == sealed(*s),
{
    s.meta.unused == SEAL_MARK && s.meta.inodes_num as usize == s.seg_imap.len()
}

/// One entry of a segment's inode map applied to the directory.
pub open spec fn apply_entry(m: Map<int, int>, e: (u32, u32)) -> Map<int, int> {
    if e.1 == INVALID_BLKID {
        m.remove(e.0 as int)
    } else {
        m.insert(e.0 as int, e.1 as int)
    }
}

/// A segment's inode map applied in order: the last entry for an inode wins.
pub open spec fn apply_entries(m: Map<int, int>, es: Seq<(u32, u32)>) -> Map<int, int>
    decreases es.len(),
{
    if es.len() == 0 {
        m
    } else {
        apply_entry(apply_entries(m, es.drop_last()), es.last())
    }
}

/// The directory after the inode maps of segments `start .. end` were applied in log order.
pub open spec fn replay(m: Map<int, int>, segs: Seq<Segment>, start: int, end: int) -> Map<
    int,
    int,
>
    decreases end - start,
{
    if end <= start {
        m
    } else {
        apply_entries(replay(m, segs, start, end - 1), segs[end - 1].seg_imap@)
    }
}

/// Index of the first segment from `start` on that is not sealed, or the number of segments.
pub open spec fn tail_end(segs: Seq<Segment>, start: int) -> int
    decreases segs.len() - start,
{
    if start >= segs.len() || !sealed(segs[start]) {
        start
    } else {
        tail_end(segs, start + 1)
    }
}

proof fn lemma_tail_end(segs: Seq<Segment>, start: int, k: int)
    requires
        0 <= start <= k <= segs.len(),
        forall|i: int| start <= i < k ==> sealed(#[trigger] segs[i]),
        k == segs.len() || !sealed(segs[k]),
    ensures
        tail_end(segs, start) == k,
    decreases k - start,
{
    if start < k {
        lemma_tail_end(segs, start + 1, k);
    }
}

proof fn lemma_replay_prefix(m: Map<int, int>, a: Seq<Segment>, b: Seq<Segment>, start: int, end: int)
    requires
        0 <= start,
        end <= a.len(),
        end <= b.len(),
        forall|i: int| start <= i < end ==> #[trigger] a[i] == b[i],
    ensures
        replay(m, a, start, end) == replay(m, b, start, end),
    decreases end - start,
{
    if end > start {
        lemma_replay_prefix(m, a, b, start, end - 1);
    }
}

/// Recovery after a crash: where segment `k` was left unsealed (its metadata block not, or
/// not completely, written), recovery takes in every sealed segment from `start` up to `k`,
/// excludes segment `k`, and is not affected by anything found after it.
pub proof fn lemma_recovery_excludes_torn_segment(
    m: Map<int, int>,
    segs: Seq<Segment>,
    other: Seq<Segment>,
    start: int,
    k: int,
)
    requires
        0 <= start <= k < segs.len(),
        forall|i: int| start <= i < k ==> sealed(#[trigger] segs[i]),
        !sealed(segs[k]),
        k < other.len(),
        forall|i: int| 0 <= i <= k ==> #[trigger] other[i] == segs[i],
    ensures
        tail_end(segs, start) == k,
        tail_end(other, start) == k,
        replay(m, other, start, tail_end(other, start)) == replay(m, segs, start, k),
{
    lemma_tail_end(segs, start, k);
    assert forall|i: int| start <= i < k implies sealed(#[trigger] other[i]) by {
        assert(other[i] == segs[i]);
    }
    assert(other[k] == segs[k]);
    lemma_tail_end(other, start, k);
    lemma_replay_prefix(m, other, segs, start, k);
}

/// A metadata block that was never written reads as zeros, which is not sealed.
pub proof fn lemma_zeroed_meta_not_sealed(imap: Vec<(u32, u32)>)
    ensures
        !sealed(Segment { meta: SegmentMeta { size: 0, inodes_num: 0, unused: 0 }, seg_imap: imap }),
{
}

/// Applies the inode map of one segment to the directory.
pub fn apply_segment(dir: &mut InodeDir, imap: &Vec<(u32, u32)>)
    ensures
        final(dir)@ == apply_entries(old(dir)@, imap@),
{
    let mut j: usize = 0;
    while j < imap.len()
        invariant
            j <= imap@.len(),
            dir@ == apply_entries(old(dir)@, imap@.subrange(0, j as int)),
        decreases imap@.len() - j,
    {
        let (ino, blk) = imap[j];
        assert(imap@.subrange(0, j + 1).drop_last() =~= imap@.subrange(0, j as int));
        if blk as usize == INVALID_BLKID {
            dir.remove(ino as usize);
        } else {
            dir.update(ino as usize, blk as usize);
        }
        j = j + 1;
    }
    assert(imap@.subrange(0, imap@.len() as int) =~= imap@);
}

/// Roll-forward: applies the inode maps of the segments sealed after the checkpoint, in log
/// order from segment `start`, and stops at the first segment that is not sealed. Returns
/// that segment's index, where the log resumes.
pub fn roll_forward(dir: &mut InodeDir, segs: &Vec<Segment>, start: usize) -> (r: usize)
    requires
        start <= segs@.len(),
    ensures
        r == tail_end(segs@, start as int),
        final(dir)@ == replay(old(dir)@, segs@, start as int, r as int),
{
    let mut i: usize = start;
    while i < segs.len() && is_sealed(&segs[i])
        invariant
            start <= i <= segs@.len(),
            forall|k: int| start <= k < i ==> sealed(#[trigger] segs@[k]),
            dir@ == replay(old(dir)@, segs@, start as int, i as int),
        decreases segs@.len() - i,
    {
        apply_segment(dir, &segs[i].seg_imap);
        i = i + 1;
    }
    proof {
        lemma_tail_end(segs@, start as int, i as int);
    }
    i
}

} // verus!
