//! The log: segments of data blocks written append-only, the summary that names the owner
//! of each data block, the block pointers of each inode, and the cleaner that reclaims
//! segments.

use vstd::prelude::*;
use crate::error::FsError;
use crate::layout::{
    SummaryEntry, BLKSIZE, ENTRY_GARBAGE, INVALID_INO, MAX_NBLOCK_DOUBLE_INDIRECT,
};

verus! {

/// Data blocks in one segment: the blocks after the inode map, the summary and the metadata.
pub const DATA_BLKS: usize = 1019;

/// The summary entry of a superseded block.
pub open spec fn garbage_entry() -> SummaryEntry {
    SummaryEntry { inode_id: INVALID_INO, entry_id: ENTRY_GARBAGE }
}

pub open spec fn is_garbage(e: SummaryEntry) -> bool {
    e.entry_id == ENTRY_GARBAGE
}

/// Largest number of inodes: an inode id has to fit the summary's 32-bit signed field.
pub const MAX_INODES: usize = 0x7fff_ffff;

/// The log. Data slot `g` is data block `g % DATA_BLKS` of segment `g / DATA_BLKS`.
/// `ptrs[ino][l]` is one more than the slot that holds logical block `l` of inode `ino`,
/// or zero for a hole.
pub struct Log {
    summary: Vec<SummaryEntry>,
    data: Vec<Vec<u8>>,
    used: Vec<usize>,
    live: Vec<u32>,
    free: Vec<bool>,
    current: usize,
    ptrs: Vec<Vec<usize>>,
}

proof fn lemma_slot(s: int, k: int)
    requires
        0 <= s,
        0 <= k < DATA_BLKS,
    ensures
        (s * DATA_BLKS + k) / (DATA_BLKS as int) == s,
        (s * DATA_BLKS + k) % (DATA_BLKS as int) == k,
{
    assert((s * 1019 + k) / 1019 == s && (s * 1019 + k) % 1019 == k) by (nonlinear_arith)
        requires
            0 <= s,
            0 <= k < 1019,
    ;
}

proof fn lemma_slot_bound(g: int, n: int)
    requires
        0 <= g < n * DATA_BLKS,
    ensures
        0 <= g / (DATA_BLKS as int) < n,
{
    assert(0 <= g / 1019 < n) by (nonlinear_arith)
        requires
            0 <= g < n * 1019,
    ;
}

impl Log {
    pub closed spec fn nseg(&self) -> int {
        self.used@.len() as int
    }

    pub closed spec fn current_spec(&self) -> int {
        self.current as int
    }

    pub closed spec fn n_inodes(&self) -> int {
        self.ptrs@.len() as int
    }

    pub closed spec fn free_spec(&self, s: int) -> bool {
        self.free@[s]
    }

    pub closed spec fn live_spec(&self, s: int) -> int {
        self.live@[s] as int
    }

    pub closed spec fn used_spec(&self, s: int) -> int {
        self.used@[s] as int
    }

    /// Summary entry of data slot `g`.
    pub closed spec fn entry(&self, g: int) -> SummaryEntry {
        self.summary@[g]
    }

    pub closed spec fn n_slots(&self) -> int {
        self.summary@.len() as int
    }

    /// Slot (plus one) that logical block `l` of inode `ino` points to; zero for a hole.
    pub closed spec fn ptr(&self, ino: int, l: int) -> int {
        if 0 <= ino < self.ptrs@.len() && 0 <= l < self.ptrs@[ino]@.len() {
            self.ptrs@[ino]@[l] as int
        } else {
            0
        }
    }

    /// Content of logical block `l` of inode `ino`, or `None` for a hole.
    pub closed spec fn block(&self, ino: int, l: int) -> Option<Seq<u8>> {
        let p = self.ptr(ino, l);
        if p == 0 {
            None
        } else {
            Some(self.data@[p - 1]@)
        }
    }

    /// The log's invariant. Its last two clauses tie the summary to the block pointers: a
    /// summary entry is live exactly when the pointer of the block it names leads back to it.
    pub closed spec fn wf(&self) -> bool {
        let n = self.used@.len() as int;
        &&& n > 0
        &&& self.live@.len() == n
        &&& self.free@.len() == n
        &&& self.summary@.len() == n * DATA_BLKS
        &&& self.data@.len() == n * DATA_BLKS
        &&& self.current < n
        &&& !self.free@[self.current as int]
        &&& self.ptrs@.len() <= MAX_INODES
        &&& forall|s: int| 0 <= s < n ==> #[trigger] self.used@[s] <= DATA_BLKS
        &&& forall|ino: int| 0 <= ino < self.ptrs@.len() ==> #[trigger] self.ptrs@[ino]@.len() <= MAX_NBLOCK_DOUBLE_INDIRECT
        &&& forall|s: int| 0 <= s < n && #[trigger] self.free@[s] ==> self.used@[s] == 0
        &&& forall|g: int|
            0 <= g < self.summary@.len() && g % (DATA_BLKS as int) >= self.used@[g / (
            DATA_BLKS as int)] ==> is_garbage(#[trigger] self.summary@[g])
        &&& forall|ino: int, l: int|
            0 <= ino < self.ptrs@.len() && 0 <= l < self.ptrs@[ino]@.len() && #[trigger] self.ptrs@[ino]@[l] != 0
                ==> {
                let g = self.ptrs@[ino]@[l] - 1;
                &&& g < self.summary@.len()
                &&& self.summary@[g] == SummaryEntry { inode_id: ino as i32, entry_id: l as i32 }
                &&& self.data@[g]@.len() == BLKSIZE
            }
        &&& forall|g: int|
            0 <= g < self.summary@.len() && !is_garbage(#[trigger] self.summary@[g]) ==> {
                let e = self.summary@[g];
                &&& 0 <= e.inode_id < self.ptrs@.len()
                &&& 0 <= e.entry_id < self.ptrs@[e.inode_id as int]@.len()
                &&& self.ptrs@[e.inode_id as int]@[e.entry_id as int] == g + 1
            }
    }

    /// A log of `nseg` empty segments, with segment 0 open, and no inodes.
    pub fn new(nseg: usize) -> (r: Self)
        requires
            0 < nseg,
            nseg * DATA_BLKS <= usize::MAX,
        ensures
            r.wf(),
            r.nseg() == nseg,
            r.n_inodes() == 0,
            r.current_spec() == 0,
            forall|s: int| 0 < s < nseg ==> r.free_spec(s),
            forall|s: int| 0 <= s < nseg ==> #[trigger] r.used_spec(s) == 0,
    {
        let total = nseg * DATA_BLKS;
        let mut summary: Vec<SummaryEntry> = Vec::new();
        let mut data: Vec<Vec<u8>> = Vec::new();
        let mut i: usize = 0;
        while i < total
            invariant
                i <= total,
                summary@.len() == i,
                data@.len() == i,
                forall|g: int| 0 <= g < i ==> #[trigger] summary@[g] == garbage_entry(),
            decreases total - i,
        {
            summary.push(SummaryEntry { inode_id: INVALID_INO, entry_id: ENTRY_GARBAGE });
            data.push(Vec::new());
            i = i + 1;
        }
        let mut used: Vec<usize> = Vec::new();
        let mut live: Vec<u32> = Vec::new();
        let mut free: Vec<bool> = Vec::new();
        let mut s: usize = 0;
        while s < nseg
            invariant
                s <= nseg,
                used@.len() == s,
                live@.len() == s,
                free@.len() == s,
                forall|t: int| 0 <= t < s ==> #[trigger] used@[t] == 0,
                forall|t: int| 0 <= t < s ==> #[trigger] free@[t] == (t != 0),
            decreases nseg - s,
        {
            used.push(0);
            live.push(0);
            free.push(s != 0);
            s = s + 1;
        }
        Log { summary, data, used, live, free, current: 0, ptrs: Vec::new() }
    }

    /// Number of segments.
    pub fn nseg_exec(&self) -> (r: usize)
        requires
            self.wf(),
        ensures
            r == self.nseg(),
    {
        self.used.len()
    }

    /// The segment open for writing.
    pub fn current(&self) -> (r: usize)
        requires
            self.wf(),
        ensures
            r < self.nseg(),
            r == self.current_spec(),
    {
        self.current
    }

    /// Number of inodes.
    pub fn inode_count(&self) -> (r: usize)
        requires
            self.wf(),
        ensures
            r <= MAX_INODES,
            r == self.n_inodes(),
    {
        self.ptrs.len()
    }

    /// Whether segment `s` is free.
    pub fn is_free(&self, s: usize) -> (r: bool)
        requires
            self.wf(),
            s < self.nseg(),
        ensures
            r == self.free_spec(s as int),
    {
        self.free[s]
    }

    /// Live data blocks recorded for segment `s`.
    pub fn live_blocks(&self, s: usize) -> (r: u32)
        requires
            self.wf(),
            s < self.nseg(),
        ensures
            r == self.live_spec(s as int),
    {
        self.live[s]
    }

    /// Summary entry of data slot `g`.
    pub fn summary_entry(&self, g: usize) -> (r: SummaryEntry)
        requires
            self.wf(),
            g < self.n_slots(),
        ensures
            r == self.entry(g as int),
    {
        self.summary[g]
    }

    /// A new inode with no blocks; `OutOfSpace` once the inode ids are used up.
    pub fn new_inode(&mut self) -> (r: Result<usize, FsError>)
        requires
            old(self).wf(),
        ensures
            final(self).wf(),
            r is Err <==> old(self).n_inodes() == MAX_INODES,
            r matches Err(e) ==> e == FsError::OutOfSpace && *final(self) == *old(self),
            r matches Ok(ino) ==> ino == old(self).n_inodes() && final(self).n_inodes() == ino + 1
                && ino < MAX_INODES
                && final(self).nseg() == old(self).nseg()
                && final(self).current_spec() == old(self).current_spec()
                && final(self).n_slots() == old(self).n_slots()
                && (forall|s: int| #[trigger] final(self).free_spec(s) == old(self).free_spec(s))
                && (forall|s: int| #[trigger] final(self).used_spec(s) == old(self).used_spec(s))
                && (forall|g: int| #[trigger] final(self).entry(g) == old(self).entry(g))
                && (forall|i: int, l: int| 0 <= i < ino ==> #[trigger] final(self).block(i, l)
                    == old(self).block(i, l))
                && (forall|l: int| #[trigger] final(self).block(ino as int, l) is None),
    {
        if self.ptrs.len() >= MAX_INODES {
            return Err(FsError::OutOfSpace);
        }
        let ino = self.ptrs.len();
        self.ptrs.push(Vec::new());
        proof {
            assert forall|i: int, l: int| 0 <= i < ino implies #[trigger] self.block(i, l) == old(self).block(i, l) by {
                assert(self.ptrs@[i] == old(self).ptrs@[i]);
            }
        }
        Ok(ino)
    }

    /// Whether the open segment is full and no segment can be opened: none is free, or,
    /// where one segment is kept in reserve for the cleaner, fewer than two are free.
    pub closed spec fn out_of_room(&self, keep_reserve: bool) -> bool {
        &&& self.used@[self.current as int] == DATA_BLKS
        &&& if keep_reserve {
            forall|s: int, t: int| 0 <= s < t < self.used@.len() ==> !(self.free@[s] && self.free@[t])
        } else {
            forall|s: int| 0 <= s < self.used@.len() ==> !self.free@[s]
        }
    }

    /// Makes room for one data block: where the open segment is full, seals it and opens
    /// the first free segment, leaving another free one where `keep_reserve` asks for it.
    fn ensure_room(&mut self, keep_reserve: bool) -> (r: Result<(), FsError>)
        requires
            old(self).wf(),
        ensures
            final(self).wf(),
            r is Err <==> old(self).out_of_room(keep_reserve),
            r is Err ==> *final(self) == *old(self),
            r matches Err(e) ==> e == FsError::OutOfSpace,
            r is Ok ==> final(self).used_spec(final(self).current_spec()) < DATA_BLKS,
            final(self).current_spec() == old(self).current_spec() || old(self).free_spec(
                final(self).current_spec(),
            ),
            final(self).summary == old(self).summary,
            final(self).data == old(self).data,
            final(self).ptrs == old(self).ptrs,
            final(self).used == old(self).used,
            final(self).live == old(self).live,
            forall|s: int| 0 <= s < old(self).nseg() && s != final(self).current_spec() ==> #[trigger] final(self).free@[s] == old(self).free@[s],
    {
        if self.used[self.current] < DATA_BLKS {
            return Ok(());
        }
        let mut s: usize = 0;
        while s < self.free.len() && !self.free[s]
            invariant
                self == old(self),
                self.wf(),
                s <= self.free@.len(),
                forall|t: int| 0 <= t < s ==> !#[trigger] self.free@[t],
            decreases self.free@.len() - s,
        {
            s = s + 1;
        }
        if s == self.free.len() {
            return Err(FsError::OutOfSpace);
        }
        if keep_reserve {
            let mut t: usize = s + 1;
            while t < self.free.len() && !self.free[t]
                invariant
                    self == old(self),
                    self.wf(),
                    s < t <= self.free@.len(),
                    forall|q: int| s < q < t ==> !#[trigger] self.free@[q],
                decreases self.free@.len() - t,
            {
                t = t + 1;
            }
            if t == self.free.len() {
                assert forall|a: int, b: int| 0 <= a < b < self.used@.len() implies !(self.free@[a] && self.free@[b]) by {
                    if self.free@[a] && self.free@[b] {
                        assert(a >= s);
                        assert(b > s);
                    }
                }
                return Err(FsError::OutOfSpace);
            }
            assert(self.free@[s as int] && self.free@[t as int]);
        }
        assert(old(self).free_spec(s as int));
        self.free.set(s, false);
        self.current = s;
        Ok(())
    }

    /// Writes logical block `l` of inode `ino`, copy-on-write: the content goes to a new data
    /// slot of the open segment, named in the summary as `(ino, l)`, and the summary entry of
    /// the block it replaces becomes garbage. `OutOfSpace` where the open segment is full
    /// and opening another would take the segment kept in reserve for the cleaner.
    pub fn write_block(&mut self, ino: usize, l: usize, content: Vec<u8>) -> (r: Result<(), FsError>)
        requires
            old(self).wf(),
            ino < old(self).n_inodes(),
            l < MAX_NBLOCK_DOUBLE_INDIRECT,
            content@.len() == BLKSIZE,
        ensures
            final(self).wf(),
            r is Err <==> old(self).out_of_room(true),
            r is Err ==> *final(self) == *old(self),
            r matches Err(e) ==> e == FsError::OutOfSpace,
            r is Ok ==> final(self).block(ino as int, l as int) == Some(content@),
            r is Ok ==> forall|i: int, m: int| (i, m) != (ino as int, l as int) ==> #[trigger] final(self).block(i, m)
                == old(self).block(i, m),
            final(self).n_inodes() == old(self).n_inodes(),
            final(self).nseg() == old(self).nseg(),
    {
        self.put_block(ino, l, content, true)
    }

    /// `write_block`, where `keep_reserve` says whether the segment kept for the cleaner
    /// must stay free.
    #[verifier::rlimit(40)]
    fn put_block(&mut self, ino: usize, l: usize, content: Vec<u8>, keep_reserve: bool) -> (r: Result<(), FsError>)
        requires
            old(self).wf(),
            ino < old(self).n_inodes(),
            l < MAX_NBLOCK_DOUBLE_INDIRECT,
            content@.len() == BLKSIZE,
        ensures
            final(self).wf(),
            r is Err <==> old(self).out_of_room(keep_reserve),
            r is Err ==> *final(self) == *old(self),
            r matches Err(e) ==> e == FsError::OutOfSpace,
            r is Ok ==> final(self).block(ino as int, l as int) == Some(content@),
            r is Ok && old(self).ptr(ino as int, l as int) != 0 ==> is_garbage(
                final(self).entry(old(self).ptr(ino as int, l as int) - 1),
            ),
            r is Ok ==> forall|i: int, m: int| (i, m) != (ino as int, l as int) ==> #[trigger] final(self).block(i, m)
                == old(self).block(i, m),
            final(self).n_inodes() == old(self).n_inodes(),
            final(self).nseg() == old(self).nseg(),
            final(self).current_spec() == old(self).current_spec() || old(self).free_spec(
                final(self).current_spec(),
            ),
            forall|s: int| 0 <= s < old(self).nseg() && s != final(self).current_spec() ==> #[trigger] final(self).free_spec(s) == old(self).free_spec(s),
            forall|s: int| 0 <= s < old(self).nseg() && s != final(self).current_spec() ==> #[trigger] final(self).used_spec(s) == old(self).used_spec(s),
            forall|g: int|
                0 <= g < old(self).n_slots() && is_garbage(old(self).entry(g)) && g / (DATA_BLKS as int)
                    != final(self).current_spec() ==> is_garbage(#[trigger] final(self).entry(g)),
    {
        self.ensure_room(keep_reserve)?;
        let cur = self.current;
        let k = self.used[cur];
        let total = self.summary.len();
        proof {
            lemma_slot(cur as int, k as int);
            assert(cur * DATA_BLKS + k < total) by (nonlinear_arith)
                requires
                    cur < self.used@.len(),
                    k < DATA_BLKS,
                    total == self.used@.len() * DATA_BLKS,
            ;
        }
        let g = cur * DATA_BLKS + k;
        assert(is_garbage(self.summary@[g as int]));
        let ghost pre = *self;
        self.ptrs.push(Vec::new());
        let mut f = self.ptrs.swap_remove(ino);
        assert(f@ == pre.ptrs@[ino as int]@);
        assert(self.ptrs@.len() == pre.ptrs@.len());
        assert(forall|i: int| 0 <= i < pre.ptrs@.len() && i != ino ==> self.ptrs@[i] == pre.ptrs@[i]);
        assert(pre.ptrs@[ino as int]@.len() <= MAX_NBLOCK_DOUBLE_INDIRECT);
        while f.len() <= l
            invariant
                l < MAX_NBLOCK_DOUBLE_INDIRECT,
                ino < pre.ptrs@.len(),
                f@.len() <= MAX_NBLOCK_DOUBLE_INDIRECT,
                f@.len() >= pre.ptrs@[ino as int]@.len(),
                forall|m: int| 0 <= m < pre.ptrs@[ino as int]@.len() ==> #[trigger] f@[m] == pre.ptrs@[ino as int]@[m],
                forall|m: int| pre.ptrs@[ino as int]@.len() <= m < f@.len() ==> #[trigger] f@[m] == 0,
            decreases l + 1 - f@.len(),
        {
            f.push(0);
        }
        let prev = f[l];
        if prev != 0 {
            let h = prev - 1;
            self.summary.set(h, SummaryEntry { inode_id: INVALID_INO, entry_id: ENTRY_GARBAGE });
            proof {
                lemma_slot_bound(h as int, pre.used@.len() as int);
            }
            let hs = h / DATA_BLKS;
            if self.live[hs] > 0 {
                let v = self.live[hs] - 1;
                self.live.set(hs, v);
            }
        }
        self.summary.set(g, SummaryEntry { inode_id: ino as i32, entry_id: l as i32 });
        self.data.set(g, content);
        self.used.set(cur, k + 1);
        if self.live[cur] < u32::MAX {
            let v = self.live[cur] + 1;
            self.live.set(cur, v);
        }
        f.set(l, g + 1);
        let ghost fv = f;
        self.ptrs.set(ino, f);
        assert(self.ptrs@ =~= pre.ptrs@.update(ino as int, fv));
        proof {
            let fi = self.ptrs@[ino as int]@;
            assert forall|t: int| 0 <= t < old(self).nseg() && t != cur as int implies #[trigger] self.used_spec(t) == old(self).used_spec(t) by {
                assert(self.used@[t] == pre.used@[t]);
            }
            assert forall|i: int, m: int| 0 <= i < self.ptrs@.len() && 0 <= m < self.ptrs@[i]@.len()
                && #[trigger] self.ptrs@[i]@[m] != 0 implies {
                let q = self.ptrs@[i]@[m] - 1;
                &&& q < self.summary@.len()
                &&& self.summary@[q] == SummaryEntry { inode_id: i as i32, entry_id: m as i32 }
                &&& self.data@[q]@.len() == BLKSIZE
            } by {
                if i == ino && m == l {
                } else if i == ino {
                    assert(self.ptrs@[i]@[m] == fi[m]);
                    if m < pre.ptrs@[ino as int]@.len() {
                        assert(pre.ptrs@[ino as int]@[m] != 0);
                        let q = pre.ptrs@[ino as int]@[m] - 1;
                        assert(pre.summary@[q] == SummaryEntry { inode_id: i as i32, entry_id: m as i32 });
                    }
                } else {
                    assert(self.ptrs@[i] == pre.ptrs@[i]);
                    assert(pre.ptrs@[i]@[m] != 0);
                    let q = pre.ptrs@[i]@[m] - 1;
                    assert(pre.summary@[q] == SummaryEntry { inode_id: i as i32, entry_id: m as i32 });
                }
            }
            assert forall|q: int| 0 <= q < self.summary@.len() && !is_garbage(#[trigger] self.summary@[q]) implies {
                let e = self.summary@[q];
                &&& 0 <= e.inode_id < self.ptrs@.len()
                &&& 0 <= e.entry_id < self.ptrs@[e.inode_id as int]@.len()
                &&& self.ptrs@[e.inode_id as int]@[e.entry_id as int] == q + 1
            } by {
                if q != g as int {
                    assert(self.summary@[q] == pre.summary@[q]);
                    let e = pre.summary@[q];
                    if e.inode_id == ino as i32 {
                        assert(self.ptrs@[ino as int]@[e.entry_id as int] == fi[e.entry_id as int]);
                    } else {
                        assert(self.ptrs@[e.inode_id as int] == pre.ptrs@[e.inode_id as int]);
                    }
                }
            }
            assert forall|q: int| 0 <= q < self.summary@.len() && q % (DATA_BLKS as int) >= self.used@[q / (
                DATA_BLKS as int)] implies is_garbage(#[trigger] self.summary@[q]) by {
                if q != g as int && (prev == 0 || q != prev - 1) {
                    assert(self.summary@[q] == pre.summary@[q]);
                    if q / (DATA_BLKS as int) == cur as int {
                    }
                }
            }
            assert forall|i: int| 0 <= i < self.ptrs@.len() implies #[trigger] self.ptrs@[i]@.len() <= MAX_NBLOCK_DOUBLE_INDIRECT by {
                if i == ino {
                    assert(self.ptrs@[i] == fv);
                } else {
                    assert(self.ptrs@[i] == pre.ptrs@[i]);
                }
            }
            assert forall|i: int, m: int| (i, m) != (ino as int, l as int) implies #[trigger] self.block(i, m)
                == old(self).block(i, m) by {
                if i == ino as int && 0 <= m < fi.len() {
                    if m < pre.ptrs@[ino as int]@.len() && pre.ptrs@[ino as int]@[m] != 0 {
                        let q = pre.ptrs@[ino as int]@[m] - 1;
                        assert(pre.summary@[q] == SummaryEntry { inode_id: i as i32, entry_id: m as i32 });
                    }
                } else if 0 <= i < self.ptrs@.len() && i != ino as int {
                    assert(self.ptrs@[i] == pre.ptrs@[i]);
                    if 0 <= m < pre.ptrs@[i]@.len() && pre.ptrs@[i]@[m] != 0 {
                        let q = pre.ptrs@[i]@[m] - 1;
                        assert(pre.summary@[q] == SummaryEntry { inode_id: i as i32, entry_id: m as i32 });
                    }
                }
            }
        }
        Ok(())
    }

    /// Content of logical block `l` of inode `ino`; `None` for a hole.
    pub fn read_block(&self, ino: usize, l: usize) -> (r: Option<Vec<u8>>)
        requires
            self.wf(),
        ensures
            r is None <==> self.block(ino as int, l as int) is None,
            r matches Some(v) ==> self.block(ino as int, l as int) == Some(v@),
            r matches Some(v) ==> v@.len() == BLKSIZE,
    {
        if ino >= self.ptrs.len() || l >= self.ptrs[ino].len() || self.ptrs[ino][l] == 0 {
            return None;
        }
        let g = self.ptrs[ino][l] - 1;
        let src = &self.data[g];
        let mut v: Vec<u8> = Vec::new();
        let mut i: usize = 0;
        while i < src.len()
            invariant
                i <= src@.len(),
                v@ == src@.subrange(0, i as int),
            decreases src@.len() - i,
        {
            v.push(src[i]);
            i = i + 1;
            assert(v@ =~= src@.subrange(0, i as int));
        }
        assert(v@ =~= src@);
        Some(v)
    }

    /// Number of logical block pointers that inode `ino` has room for.
    pub fn ptr_count(&self, ino: usize) -> (r: usize)
        requires
            self.wf(),
            ino < self.n_inodes(),
        ensures
            forall|l: int| l >= r ==> #[trigger] self.block(ino as int, l) is None,
    {
        self.ptrs[ino].len()
    }

    /// Drops every block of inode `ino`: their summary entries become garbage and the inode
    /// is left with no blocks. Nothing is erased; the cleaner reclaims the space.
    pub fn release(&mut self, ino: usize)
        requires
            old(self).wf(),
            ino < old(self).n_inodes(),
        ensures
            final(self).wf(),
            forall|l: int| #[trigger] final(self).block(ino as int, l) is None,
            forall|i: int, l: int| i != ino ==> #[trigger] final(self).block(i, l) == old(self).block(i, l),
            final(self).n_inodes() == old(self).n_inodes(),
            final(self).nseg() == old(self).nseg(),
            final(self).current_spec() == old(self).current_spec(),
            forall|s: int| #[trigger] final(self).free_spec(s) == old(self).free_spec(s),
            forall|s: int| #[trigger] final(self).used_spec(s) == old(self).used_spec(s),
            forall|g: int| 0 <= g < old(self).n_slots() && is_garbage(old(self).entry(g)) ==> is_garbage(#[trigger] final(self).entry(g)),
    {
        let ghost pre = *self;
        self.ptrs.push(Vec::new());
        let f = self.ptrs.swap_remove(ino);
        assert(f@ == pre.ptrs@[ino as int]@);
        let mut j: usize = 0;
        while j < f.len()
            invariant
                0 <= ino < pre.ptrs@.len(),
                f@ == pre.ptrs@[ino as int]@,
                j <= f@.len(),
                self.ptrs@.len() == pre.ptrs@.len(),
                forall|i: int| 0 <= i < pre.ptrs@.len() && i != ino ==> self.ptrs@[i] == pre.ptrs@[i],
                self.used == pre.used,
                self.free == pre.free,
                self.current == pre.current,
                self.data == pre.data,
                self.live@.len() == pre.live@.len(),
                self.summary@.len() == pre.summary@.len(),
                pre.wf(),
                forall|g: int| 0 <= g < self.summary@.len() ==> #[trigger] self.summary@[g] == pre.summary@[g]
                    || (is_garbage(self.summary@[g]) && pre.summary@[g].inode_id == ino as i32),
                forall|m: int| 0 <= m < j && f@[m] != 0 ==> is_garbage(#[trigger] self.summary@[f@[m] - 1]),
            decreases f@.len() - j,
        {
            let p = f[j];
            if p != 0 {
                let h = p - 1;
                assert(pre.ptrs@[ino as int]@[j as int] != 0);
                self.summary.set(h, SummaryEntry { inode_id: INVALID_INO, entry_id: ENTRY_GARBAGE });
                proof {
                    lemma_slot_bound(h as int, pre.used@.len() as int);
                }
                let hs = h / DATA_BLKS;
                if self.live[hs] > 0 {
                    let v = self.live[hs] - 1;
                    self.live.set(hs, v);
                }
            }
            j = j + 1;
        }
        self.ptrs.set(ino, Vec::new());
        proof {
            assert(self.ptrs@[ino as int]@.len() == 0);
            assert forall|q: int| 0 <= q < self.summary@.len() && !is_garbage(#[trigger] self.summary@[q]) implies {
                let e = self.summary@[q];
                &&& 0 <= e.inode_id < self.ptrs@.len()
                &&& 0 <= e.entry_id < self.ptrs@[e.inode_id as int]@.len()
                &&& self.ptrs@[e.inode_id as int]@[e.entry_id as int] == q + 1
            } by {
                let e = pre.summary@[q];
                assert(self.summary@[q] == e);
                if e.inode_id == ino as i32 {
                    assert(f@[e.entry_id as int] == q + 1);
                }
            }
            assert forall|i: int, m: int| 0 <= i < self.ptrs@.len() && 0 <= m < self.ptrs@[i]@.len()
                && #[trigger] self.ptrs@[i]@[m] != 0 implies {
                let q = self.ptrs@[i]@[m] - 1;
                &&& q < self.summary@.len()
                &&& self.summary@[q] == SummaryEntry { inode_id: i as i32, entry_id: m as i32 }
                &&& self.data@[q]@.len() == BLKSIZE
            } by {
                assert(self.ptrs@[i] == pre.ptrs@[i]);
                let q = pre.ptrs@[i]@[m] - 1;
                assert(pre.summary@[q] == SummaryEntry { inode_id: i as i32, entry_id: m as i32 });
            }
            assert forall|i: int| 0 <= i < self.ptrs@.len() implies #[trigger] self.ptrs@[i]@.len() <= MAX_NBLOCK_DOUBLE_INDIRECT by {
                if i != ino {
                    assert(self.ptrs@[i] == pre.ptrs@[i]);
                }
            }
            assert forall|i: int, l: int| i != ino implies #[trigger] self.block(i, l) == old(self).block(i, l) by {
                if 0 <= i < self.ptrs@.len() {
                    assert(self.ptrs@[i] == pre.ptrs@[i]);
                }
            }
        }
    }

    /// The segment to clean: among the sealed segments that are not open, one with the
    /// fewest live blocks (the first such), or `None` where there is none.
    pub fn select_victim(&self) -> (r: Option<usize>)
        requires
            self.wf(),
        ensures
            r is None <==> forall|s: int| 0 <= s < self.nseg() ==> self.free_spec(s) || s == self.current_spec(),
            r matches Some(v) ==> v < self.nseg() && !self.free_spec(v as int) && v != self.current_spec()
                && forall|s: int| 0 <= s < self.nseg() && !self.free_spec(s) && s != self.current_spec()
                    ==> self.live_spec(v as int) <= #[trigger] self.live_spec(s),
    {
        let mut best: Option<usize> = None;
        let mut s: usize = 0;
        while s < self.used.len()
            invariant
                self.wf(),
                s <= self.nseg(),
                best is None ==> forall|t: int| 0 <= t < s ==> self.free_spec(t) || t == self.current_spec(),
                best matches Some(v) ==> v < s && !self.free_spec(v as int) && v != self.current_spec()
                    && forall|t: int| 0 <= t < s && !self.free_spec(t) && t != self.current_spec()
                        ==> self.live_spec(v as int) <= #[trigger] self.live_spec(t),
            decreases self.nseg() - s,
        {
            if !self.free[s] && s != self.current {
                match best {
                    None => {
                        best = Some(s);
                    },
                    Some(v) => {
                        if self.live[s] < self.live[v] {
                            best = Some(s);
                        }
                    },
                }
            }
            s = s + 1;
        }
        best
    }

    /// Cleans segment `victim`: walks its summary, copies each live block forward into the
    /// open segment, drops the garbage, and frees the segment. The content of every inode is
    /// kept. `OutOfSpace` where a live block finds no room; the blocks copied so far stay
    /// copied, and the victim stays in use.
    pub fn clean(&mut self, victim: usize) -> (r: Result<(), FsError>)
        requires
            old(self).wf(),
            victim < old(self).nseg(),
            victim != old(self).current_spec(),
            !old(self).free_spec(victim as int),
        ensures
            final(self).wf(),
            final(self).nseg() == old(self).nseg(),
            final(self).n_inodes() == old(self).n_inodes(),
            forall|i: int, l: int| #[trigger] final(self).block(i, l) == old(self).block(i, l),
            r is Ok ==> final(self).free_spec(victim as int) && final(self).live_spec(victim as int) == 0,
            r matches Err(e) ==> e == FsError::OutOfSpace && final(self).out_of_room(false),
    {
        let n = self.used[victim];
        let total = self.summary.len();
        let mut k: usize = 0;
        while k < n
            invariant
                self.wf(),
                total == self.summary@.len(),
                self.nseg() == old(self).nseg(),
                self.n_inodes() == old(self).n_inodes(),
                victim < self.nseg(),
                victim != self.current_spec(),
                !self.free_spec(victim as int),
                n == self.used_spec(victim as int),
                k <= n,
                forall|i: int, l: int| #[trigger] self.block(i, l) == old(self).block(i, l),
                forall|j: int| 0 <= j < k ==> is_garbage(#[trigger] self.summary@[victim * DATA_BLKS + j]),
            decreases n - k,
        {
            proof {
                lemma_slot(victim as int, k as int);
                assert(victim * DATA_BLKS + k < total) by (nonlinear_arith)
                    requires
                        victim < self.used@.len(),
                        k < DATA_BLKS,
                        total == self.used@.len() * DATA_BLKS,
                ;
            }
            let g = victim * DATA_BLKS + k;
            let e = self.summary[g];
            if e.entry_id != ENTRY_GARBAGE {
                let ino = e.inode_id as usize;
                let l = e.entry_id as usize;
                let content = match self.read_block(ino, l) {
                    Some(c) => c,
                    None => {
                        assert(false);
                        Vec::new()
                    },
                };
                let ghost mid = *self;
                let res = self.put_block(ino, l, content, false);
                match res {
                    Ok(()) => {},
                    Err(err) => {
                        return Err(err);
                    },
                }
                proof {
                    assert(mid.ptr(ino as int, l as int) == g + 1);
                    assert(is_garbage(self.entry(g as int)));
                    assert(self.current_spec() != victim);
                    assert forall|j: int| 0 <= j < k + 1 implies is_garbage(#[trigger] self.summary@[victim * DATA_BLKS + j]) by {
                        if j < k {
                            lemma_slot(victim as int, j);
                            assert(victim * DATA_BLKS + j < total) by (nonlinear_arith)
                                requires
                                    victim < self.used@.len(),
                                    0 <= j < DATA_BLKS,
                                    total == self.used@.len() * DATA_BLKS,
                            ;
                            assert(is_garbage(mid.entry(victim * DATA_BLKS + j)));
                            assert(is_garbage(self.entry(victim * DATA_BLKS + j)));
                        }
                    }
                    assert forall|i: int, m: int| #[trigger] self.block(i, m) == old(self).block(i, m) by {
                        if (i, m) != (ino as int, l as int) {
                            assert(self.block(i, m) == mid.block(i, m));
                        }
                    }
                }
            }
            k = k + 1;
        }
        let ghost pre = *self;
        self.used.set(victim, 0);
        self.live.set(victim, 0);
        self.free.set(victim, true);
        proof {
            assert forall|i: int, l: int| #[trigger] self.block(i, l) == old(self).block(i, l) by {
                assert(self.block(i, l) == pre.block(i, l));
            }
            assert forall|g: int| 0 <= g < self.summary@.len() && g % (DATA_BLKS as int) >= self.used@[g / (
                DATA_BLKS as int)] implies is_garbage(#[trigger] self.summary@[g]) by {
                lemma_slot_bound(g, self.used@.len() as int);
                let s = g / (DATA_BLKS as int);
                let j = g % (DATA_BLKS as int);
                if s == victim as int {
                    assert(g == victim * DATA_BLKS + j);
                    if j >= n {
                        assert(is_garbage(pre.summary@[g]));
                    }
                } else {
                    assert(is_garbage(pre.summary@[g]));
                }
            }
            assert forall|t: int| 0 <= t < self.used@.len() && #[trigger] self.free@[t] implies self.used@[t] == 0 by {
                if t != victim as int {
                    assert(pre.free@[t]);
                }
            }
            assert forall|t: int| 0 <= t < self.used@.len() implies #[trigger] self.used@[t] <= DATA_BLKS by {
                if t != victim as int {
                    assert(pre.used@[t] <= DATA_BLKS);
                }
            }
        }
        Ok(())
    }
}

/// Each logical block of an inode has at most one live summary entry in the whole log, and
/// that entry sits in the slot the block's pointer leads to; every other entry for it is
/// garbage.
pub proof fn lemma_one_live_entry(log: &Log, g1: int, g2: int)
    requires
        log.wf(),
        0 <= g1 < log.n_slots(),
        0 <= g2 < log.n_slots(),
        !is_garbage(log.entry(g1)),
        !is_garbage(log.entry(g2)),
        log.entry(g1) == log.entry(g2),
    ensures
        g1 == g2,
        log.ptr(log.entry(g1).inode_id as int, log.entry(g1).entry_id as int) == g1 + 1,
{
}

/// A block that the log holds is named, live, by the summary entry of the slot it lies in.
pub proof fn lemma_block_has_live_entry(log: &Log, ino: int, l: int)
    requires
        log.wf(),
        log.block(ino, l) is Some,
    ensures
        0 <= log.ptr(ino, l) - 1 < log.n_slots(),
        log.entry(log.ptr(ino, l) - 1) == (SummaryEntry { inode_id: ino as i32, entry_id: l as i32 }),
        !is_garbage(log.entry(log.ptr(ino, l) - 1)),
{
}

} // verus!
