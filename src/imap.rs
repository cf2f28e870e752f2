//! The global inode directory: where the current record of each inode lies.

use vstd::prelude::*;
use crate::layout::{BlockId, INodeId, INVALID_BLKID};
use crate::recovery::apply_entries;

verus! {

/// Map from inode id to the block that holds the inode's current record. Slot `i` of
/// `locs` belongs to inode `i`; `INVALID_BLKID` marks an inode without a record.
pub struct InodeDir {
    locs: Vec<BlockId>,
}

/// The map that a slot table stands for.
pub open spec fn locs_map(s: Seq<usize>) -> Map<int, int> {
    Map::new(|i: int| 0 <= i < s.len() && s[i] != INVALID_BLKID, |i: int| s[i] as int)
}

impl View for InodeDir {
    type V = Map<int, int>;

    closed spec fn view(&self) -> Map<int, int> {
        locs_map(self.locs@)
    }
}

impl InodeDir {
    /// The empty directory.
    pub fn new() -> (r: Self)
        ensures
            r@ == Map::<int, int>::empty(),
    {
        let r = InodeDir { locs: Vec::new() };
        assert(r@ =~= Map::<int, int>::empty());
        r
    }

    /// The block of inode `ino`'s current record, if it has one.
    pub fn lookup(&self, ino: INodeId) -> (r: Option<BlockId>)
        ensures
            r is Some <==> self@.contains_key(ino as int),
            r matches Some(b) ==> self@[ino as int] == b && b != INVALID_BLKID,
    {
        if ino < self.locs.len() && self.locs[ino] != INVALID_BLKID {
            Some(self.locs[ino])
        } else {
            None
        }
    }

    /// Records that inode `ino` now lies in block `blk`.
    pub fn update(&mut self, ino: INodeId, blk: BlockId)
        requires
            blk != INVALID_BLKID,
        ensures
            final(self)@ == old(self)@.insert(ino as int, blk as int),
    {
        while self.locs.len() <= ino
            invariant
                locs_map(self.locs@) == locs_map(old(self).locs@),
            decreases ino + 1 - self.locs@.len(),
        {
            let ghost before = self.locs@;
            self.locs.push(INVALID_BLKID);
            assert(locs_map(self.locs@) =~= locs_map(before));
        }
        let ghost before = self.locs@;
        self.locs.set(ino, blk);
        assert(locs_map(self.locs@) =~= locs_map(before).insert(ino as int, blk as int));
    }

    /// Forgets inode `ino`.
    pub fn remove(&mut self, ino: INodeId)
        ensures
            final(self)@ == old(self)@.remove(ino as int),
    {
        if ino < self.locs.len() {
            let ghost before = self.locs@;
            self.locs.set(ino, INVALID_BLKID);
            assert(locs_map(self.locs@) =~= locs_map(before).remove(ino as int));
        } else {
            assert(locs_map(self.locs@) =~= locs_map(self.locs@).remove(ino as int));
        }
    }

    /// Number of slots: one past the largest inode id ever recorded.
    pub fn capacity(&self) -> (r: usize)
        ensures
            forall|i: int| self@.contains_key(i) ==> 0 <= i < r,
    {
        self.locs.len()
    }

    /// Whether every inode id and block id fits the 32-bit fields of the on-disk inode map.
    pub closed spec fn fits_disk(&self) -> bool {
        &&& self.locs@.len() <= u32::MAX + 1
        &&& forall|i: int| 0 <= i < self.locs@.len() ==> #[trigger] self.locs@[i] <= u32::MAX
    }

    /// The directory as inode-map entries in increasing inode order, for a checkpoint.
    /// Replaying them onto an empty directory gives this directory back.
    pub fn snapshot(&self) -> (r: Vec<(u32, u32)>)
        requires
            self.fits_disk(),
        ensures
            apply_entries(Map::<int, int>::empty(), r@) == self@,
    {
        let mut r: Vec<(u32, u32)> = Vec::new();
        let mut i: usize = 0;
        while i < self.locs.len()
            invariant
                self.fits_disk(),
                i <= self.locs@.len(),
                apply_entries(Map::<int, int>::empty(), r@) == locs_map(self.locs@.subrange(0, i as int)),
            decreases self.locs@.len() - i,
        {
            let b = self.locs[i];
            let ghost before = r@;
            if b != INVALID_BLKID {
                r.push((i as u32, b as u32));
                assert(r@.drop_last() == before);
            }
            assert(locs_map(self.locs@.subrange(0, i + 1)) =~= if b != INVALID_BLKID {
                locs_map(self.locs@.subrange(0, i as int)).insert(i as int, b as int)
            } else {
                locs_map(self.locs@.subrange(0, i as int))
            });
            i = i + 1;
        }
        assert(self.locs@.subrange(0, self.locs@.len() as int) =~= self.locs@);
        r
    }

    /// A directory that fits the on-disk fields: every block id below 2^32 and fewer than
    /// 2^32 inode slots. Holds of every directory that recovery built from on-disk entries.
    pub fn check_fits_disk(&self) -> (r: bool)
        ensures
            r == self.fits_disk(),
    {
        if self.locs.len() as u64 > 0x1_0000_0000u64 {
            return false;
        }
        let mut i: usize = 0;
        while i < self.locs.len()
            invariant
                i <= self.locs@.len(),
                forall|q: int| 0 <= q < i ==> #[trigger] self.locs@[q] <= u32::MAX,
            decreases self.locs@.len() - i,
        {
            if self.locs[i] as u64 > 0xffff_ffffu64 {
                return false;
            }
            i = i + 1;
        }
        true
    }
}

} // verus!
