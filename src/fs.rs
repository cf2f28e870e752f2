//! Inode operations over the log: a root directory of named inodes, each with a type and a
//! size, read and written through the log.

use vstd::prelude::*;
use crate::addr::{capacity_segments, segments_for_capacity};
use crate::dir::{add_entry, find_entry, free_entry, live_entries, readdir, slot_id, slot_name};
use crate::error::FsError;
use crate::file::{bytes_at, read_at, write_at};
use crate::layout::{
    fits_field, CheckRegion, FileType, Str32, SuperBlock, BLKN_SEGMENT, BLK_DATA_BEGIN, INO_ROOT, MAGIC,
    MAX_FILE_SIZE, SEGMENT_BLKS,
};
use crate::log::{Log, DATA_BLKS, MAX_INODES};

verus! {

/// Most entry slots of a directory: each slot ends within the 32-bit size field.
pub const MAX_DIR_SLOTS: usize = 16519103;

/// A file system on the log: inode `INO_ROOT` is the root directory, whose first `slots`
/// entry slots are in use or freed; `sizes` and `types` hold each inode's size and type.
pub struct LogFileSystem {
    log: Log,
    sizes: Vec<u32>,
    types: Vec<FileType>,
    slots: usize,
}

impl LogFileSystem {
    pub closed spec fn log_view(&self) -> Log {
        self.log
    }

    pub closed spec fn size_of(&self, ino: int) -> int {
        self.sizes@[ino] as int
    }

    pub closed spec fn type_of(&self, ino: int) -> FileType {
        self.types@[ino]
    }

    pub closed spec fn n_inodes(&self) -> int {
        self.sizes@.len() as int
    }

    pub closed spec fn slots_spec(&self) -> int {
        self.slots as int
    }

    /// The root directory's entries in use: inode id and name, in slot order.
    pub open spec fn entries(&self) -> Seq<(u32, Seq<u8>)> {
        live_entries(self.log_view(), INO_ROOT as int, self.slots_spec())
    }

    pub closed spec fn wf(&self) -> bool {
        &&& self.log.wf()
        &&& self.sizes@.len() == self.log.n_inodes()
        &&& self.types@.len() == self.log.n_inodes()
        &&& self.log.n_inodes() > INO_ROOT
        &&& self.types@[INO_ROOT as int] == FileType::Dir
        &&& self.slots <= MAX_DIR_SLOTS
    }

    /// A new file system on a device of `capacity` bytes: an empty root directory. `OutOfSpace`
    /// where fewer than two segments fit, one of them being the cleaner's reserve.
    pub fn create(capacity: usize) -> (r: Result<Self, FsError>)
        ensures
            r is Err <==> capacity_segments(capacity as int) < 2,
            r matches Err(e) ==> e == FsError::OutOfSpace,
            r matches Ok(fs) ==> fs.wf() && fs.entries().len() == 0 && fs.n_inodes() == 1
                && fs.log_view().nseg() == capacity_segments(capacity as int)
                && fs.log_view().current_spec() == 0
                && (forall|s: int| 0 < s < fs.log_view().nseg() ==> #[trigger] fs.log_view().free_spec(s))
                && (forall|s: int| 0 <= s < fs.log_view().nseg() ==> #[trigger] fs.log_view().used_spec(s) == 0),
    {
        let n = segments_for_capacity(capacity);
        if n < 2 {
            return Err(FsError::OutOfSpace);
        }
        proof {
            assert(n * DATA_BLKS <= usize::MAX) by (nonlinear_arith)
                requires
                    n <= capacity / 4194304,
                    capacity <= usize::MAX,
            ;
        }
        let mut log = Log::new(n);
        match log.new_inode() {
            Ok(_) => {},
            Err(e) => {
                return Err(e);
            },
        }
        let mut sizes: Vec<u32> = Vec::new();
        let mut types: Vec<FileType> = Vec::new();
        sizes.push(0);
        types.push(FileType::Dir);
        let fs = LogFileSystem { log, sizes, types, slots: 0 };
        Ok(fs)
    }

    /// Inode of the root entry named `name`; `NotFound` where there is none.
    pub fn lookup(&self, name: &[u8]) -> (r: Result<usize, FsError>)
        requires
            self.wf(),
        ensures
            r matches Ok(ino) ==> exists|k: int|
                0 <= k < self.slots_spec() && slot_id(self.log_view(), INO_ROOT as int, k) == ino
                    && ino != 0 && #[trigger] slot_name(self.log_view(), INO_ROOT as int, k) == name@,
            r is Err <==> forall|k: int|
                0 <= k < self.slots_spec() ==> slot_id(self.log_view(), INO_ROOT as int, k) == 0
                    || #[trigger] slot_name(self.log_view(), INO_ROOT as int, k) != name@,
            r matches Err(e) ==> e == FsError::NotFound,
    {
        match find_entry(&self.log, INO_ROOT, self.slots, name) {
            Some(k) => {
                let (id, _n) = crate::dir::read_entry(&self.log, INO_ROOT, k);
                assert(slot_name(self.log_view(), INO_ROOT as int, k as int) == name@);
                Ok(id as usize)
            },
            None => Err(FsError::NotFound),
        }
    }

    /// Creates an empty inode of type `t` named `name` in the root directory. `EntryExist`
    /// where the name is taken, `InvalidName` where it cannot be stored, `OutOfSpace` where
    /// the log or the inode ids are used up, `FileTooLarge` where the root directory is full.
    pub fn create_inode(&mut self, name: &[u8], t: FileType) -> (r: Result<usize, FsError>)
        requires
            old(self).wf(),
        ensures
            final(self).wf(),
            (r matches Err(e) && e == FsError::EntryExist) <==> exists|k: int|
                0 <= k < old(self).slots_spec() && slot_id(old(self).log_view(), INO_ROOT as int, k) != 0
                    && #[trigger] slot_name(old(self).log_view(), INO_ROOT as int, k) == name@,
            r matches Err(e) ==> e == FsError::EntryExist || e == FsError::InvalidName || e == FsError::FileTooLarge
                || e == FsError::OutOfSpace,
            (forall|k: int|
                0 <= k < old(self).slots_spec() ==> slot_id(old(self).log_view(), INO_ROOT as int, k) == 0
                    || #[trigger] slot_name(old(self).log_view(), INO_ROOT as int, k) != name@) ==> ((r matches Err(e)
                && e == FsError::InvalidName) <==> (name@.len() == 0 || !fits_field(name@, 256))),
            (r matches Err(e) && e == FsError::FileTooLarge) ==> old(self).slots_spec() >= MAX_DIR_SLOTS,
            r matches Err(e) && e == FsError::OutOfSpace ==> old(self).n_inodes() == MAX_INODES
                || final(self).log_view().out_of_room(true),
            r matches Ok(ino) ==> ino == old(self).n_inodes() && final(self).n_inodes() == ino + 1
                && final(self).size_of(ino as int) == 0 && final(self).type_of(ino as int) == t
                && final(self).entries() == old(self).entries().push((ino as u32, name@)),
    {
        match find_entry(&self.log, INO_ROOT, self.slots, name) {
            Some(k) => {
                assert(slot_name(self.log_view(), INO_ROOT as int, k as int) == name@);
                return Err(FsError::EntryExist);
            },
            None => {},
        }
        if name.len() == 0 || crate::layout::Str256::from_bytes(name).is_none() {
            return Err(FsError::InvalidName);
        }
        if self.slots >= MAX_DIR_SLOTS {
            return Err(FsError::FileTooLarge);
        }
        let ghost pre = self.log;
        let ino = self.log.new_inode()?;
        let ghost mid = self.log;
        proof {
            assert forall|l: int| #[trigger] mid.block(INO_ROOT as int, l) == pre.block(INO_ROOT as int, l) by {
                assert(mid.block(INO_ROOT as int, l) == pre.block(INO_ROOT as int, l));
            }
            crate::dir::lemma_inode_frame(pre, mid, INO_ROOT as int, self.slots as int);
            assert forall|k: int| 0 <= k < self.slots implies #[trigger] slot_name(mid, INO_ROOT as int, k)
                == slot_name(pre, INO_ROOT as int, k) && slot_id(mid, INO_ROOT as int, k) == slot_id(pre, INO_ROOT as int, k) by {
                crate::dir::lemma_block_frame(pre, mid, INO_ROOT as int, k);
            }
        }
        let res = add_entry(&mut self.log, INO_ROOT, self.slots, ino as u32, name);
        let m = match res {
            Ok(m) => m,
            Err(e) => {
                assert(fits_field(name@, 256));
                assert(e != FsError::InvalidName);
                assert(e != FsError::EntryExist);
                self.sizes.push(0);
                self.types.push(t);
                return Err(e);
            },
        };
        self.sizes.push(0);
        self.types.push(t);
        self.slots = m;
        Ok(ino)
    }

    /// Writes `buf` into inode `ino` from byte `off`, and grows its size to cover the write.
    /// `IsADirectory` for the root directory; otherwise what the log's write returns.
    pub fn write(&mut self, ino: usize, off: usize, buf: &[u8]) -> (r: Result<(), FsError>)
        requires
            old(self).wf(),
            ino < old(self).n_inodes(),
        ensures
            final(self).wf(),
            final(self).n_inodes() == old(self).n_inodes(),
            final(self).entries() == old(self).entries() || ino == INO_ROOT,
            (r matches Err(e) && e == FsError::IsADirectory) <==> old(self).type_of(ino as int) == FileType::Dir,
            r matches Err(e) ==> e == FsError::IsADirectory || e == FsError::FileTooLarge || e == FsError::OutOfSpace,
            (r matches Err(e) && e == FsError::FileTooLarge) <==> (old(self).type_of(ino as int) != FileType::Dir
                && off + buf@.len() > MAX_FILE_SIZE),
            r matches Err(e) && e == FsError::OutOfSpace ==> final(self).log_view().out_of_room(true),
            r is Ok ==> final(self).size_of(ino as int) == if off + buf@.len() > old(self).size_of(ino as int) {
                off + buf@.len()
            } else {
                old(self).size_of(ino as int)
            },
            r is Ok ==> bytes_at(final(self).log_view(), ino as int, off as int, buf@.len() as int) == buf@,
            forall|j: int, l: int| j != ino ==> #[trigger] final(self).log_view().block(j, l)
                == old(self).log_view().block(j, l),
            forall|j: int| 0 <= j < old(self).n_inodes() && j != ino ==> #[trigger] final(self).size_of(j)
                == old(self).size_of(j),
    {
        if self.types[ino] == FileType::Dir {
            return Err(FsError::IsADirectory);
        }
        let ghost pre = self.log;
        let res = write_at(&mut self.log, ino, off, buf);
        proof {
            lemma_entries_frame(pre, self.log, self.slots as int, ino as int);
        }
        match res {
            Ok(()) => {},
            Err(e) => {
                return Err(e);
            },
        }
        proof {
            crate::file::lemma_write_read_round_trip(pre, self.log, ino as int, off as int, buf@);
        }
        let end = off + buf.len();
        if end > self.sizes[ino] as usize {
            self.sizes.set(ino, end as u32);
        }
        Ok(())
    }

    /// Reads up to `n` bytes of inode `ino` from byte `off`: none past its size.
    pub fn read(&self, ino: usize, off: usize, n: usize) -> (r: Vec<u8>)
        requires
            self.wf(),
            ino < self.n_inodes(),
        ensures
            off >= self.size_of(ino as int) ==> r@.len() == 0,
            off < self.size_of(ino as int) ==> r@ == bytes_at(
                self.log_view(),
                ino as int,
                off as int,
                if n < self.size_of(ino as int) - off { n as int } else { self.size_of(ino as int) - off },
            ),
    {
        let size = self.sizes[ino] as usize;
        if off >= size {
            return Vec::new();
        }
        let m = if n < size - off { n } else { size - off };
        read_at(&self.log, ino, off, m)
    }

    /// Size of inode `ino` in bytes.
    pub fn size(&self, ino: usize) -> (r: u32)
        requires
            self.wf(),
            ino < self.n_inodes(),
        ensures
            r == self.size_of(ino as int),
    {
        self.sizes[ino]
    }

    /// Type of inode `ino`.
    pub fn file_type(&self, ino: usize) -> (r: FileType)
        requires
            self.wf(),
            ino < self.n_inodes(),
        ensures
            r == self.type_of(ino as int),
    {
        self.types[ino]
    }

    /// The root directory's entries in use, in slot order.
    pub fn list(&self) -> (r: Vec<(u32, Vec<u8>)>)
        requires
            self.wf(),
        ensures
            r@.len() == self.entries().len(),
            forall|i: int| 0 <= i < r@.len() ==> (#[trigger] r@[i]).0 == self.entries()[i].0 && r@[i].1@
                == self.entries()[i].1,
    {
        readdir(&self.log, INO_ROOT, self.slots)
    }

    /// Cleans one segment: the sealed segment with the fewest live blocks, if there is one
    /// besides the open segment, which is then free again. Every inode reads as before.
    /// `OutOfSpace` where the live blocks of the victim find no room.
    pub fn reclaim(&mut self) -> (r: Result<Option<usize>, FsError>)
        requires
            old(self).wf(),
        ensures
            final(self).wf(),
            final(self).n_inodes() == old(self).n_inodes(),
            final(self).entries() == old(self).entries(),
            forall|i: int| #[trigger] final(self).size_of(i) == old(self).size_of(i),
            forall|i: int, l: int| #[trigger] final(self).log_view().block(i, l) == old(self).log_view().block(i, l),
            r matches Ok(None) ==> forall|s: int| 0 <= s < old(self).log_view().nseg() ==> old(self).log_view().free_spec(s)
                || s == old(self).log_view().current_spec(),
            r matches Ok(Some(v)) ==> final(self).log_view().free_spec(v as int) && final(self).log_view().live_spec(v as int) == 0,
            r matches Err(e) ==> e == FsError::OutOfSpace,
            r is Err ==> final(self).log_view().out_of_room(false),
    {
        let v = match self.log.select_victim() {
            Some(v) => v,
            None => {
                return Ok(None);
            },
        };
        let ghost pre = self.log;
        let res = self.log.clean(v);
        proof {
            crate::dir::lemma_inode_frame(pre, self.log, INO_ROOT as int, self.slots as int);
        }
        match res {
            Ok(()) => Ok(Some(v)),
            Err(e) => Err(e),
        }
    }

    /// The superblock and checkpoint region that describe the file system now: the open
    /// segment, the next inode id, the segment count, and the blocks without live data.
    /// `FileTooLarge` where the device's block count does not fit the 32-bit field.
    pub fn checkpoint(&self) -> (r: Result<(SuperBlock, CheckRegion), FsError>)
        requires
            self.wf(),
        ensures
            r is Err <==> device_blocks(self.log_view().nseg()) > u32::MAX,
            r matches Err(e) ==> e == FsError::FileTooLarge,
            r matches Ok((sb, cr)) ==> {
                &&& sb.magic == MAGIC
                &&& sb.blocks == device_blocks(self.log_view().nseg())
                &&& sb.unused_blocks == unused_blocks_of(self.log_view())
                &&& sb.current_seg_id == self.log_view().current_spec()
                &&& sb.next_ino_number == self.n_inodes()
                &&& sb.n_segment == self.log_view().nseg()
                &&& cr.inodes_num == self.n_inodes()
            },
    {
        let n = self.log.nseg_exec();
        proof {
            assert(n > 4194303 <==> device_blocks(n as int) > u32::MAX) by (nonlinear_arith)
                requires
                    n >= 0,
            ;
        }
        if n > 4194303 {
            return Err(FsError::FileTooLarge);
        }
        let mut sum: u64 = 0;
        let mut s: usize = 0;
        while s < n
            invariant
                self.wf(),
                n == self.log_view().nseg(),
                n <= 4194303,
                s <= n,
                sum == live_sum(self.log_view(), s as int),
                sum <= s * 0xffff_ffff,
            decreases n - s,
        {
            sum = sum + self.log.live_blocks(s) as u64;
            s = s + 1;
        }
        proof {
            assert(n * 1019 <= 4194303 * 1019 && n * 1024 <= 4194303 * 1024) by (nonlinear_arith)
                requires
                    n <= 4194303,
            ;
        }
        let avail = (n as u64) * ((SEGMENT_BLKS - BLK_DATA_BEGIN) as u64);
        let unused: u64 = if sum > avail { 0 } else { avail - sum };
        let blocks = (BLKN_SEGMENT + n * SEGMENT_BLKS) as u32;
        let count = self.log.inode_count() as u32;
        let sb = SuperBlock {
            magic: MAGIC,
            blocks,
            unused_blocks: unused as u32,
            info: default_info(),
            current_seg_id: self.log.current() as u32,
            next_ino_number: count,
            n_segment: n as u32,
        };
        Ok((sb, CheckRegion { inodes_num: count }))
    }

    /// Removes the root entry named `name`: its slot is freed, and the blocks of its inode are
    /// dropped for the cleaner to reclaim. `NotFound` where there is no such entry.
    pub fn unlink(&mut self, name: &[u8]) -> (r: Result<(), FsError>)
        requires
            old(self).wf(),
        ensures
            final(self).wf(),
            final(self).n_inodes() == old(self).n_inodes(),
            (r matches Err(e) && e == FsError::NotFound) <==> forall|k: int|
                0 <= k < old(self).slots_spec() ==> slot_id(old(self).log_view(), INO_ROOT as int, k) == 0
                    || #[trigger] slot_name(old(self).log_view(), INO_ROOT as int, k) != name@,
            r matches Err(e) ==> e == FsError::NotFound || e == FsError::OutOfSpace,
            r matches Err(e) && e == FsError::OutOfSpace ==> final(self).log_view().out_of_room(true),
            r is Ok ==> exists|k: int|
                0 <= k < old(self).slots_spec() && slot_id(old(self).log_view(), INO_ROOT as int, k) != 0
                    && #[trigger] slot_name(old(self).log_view(), INO_ROOT as int, k) == name@
                    && slot_id(final(self).log_view(), INO_ROOT as int, k) == 0
                    && (slot_id(old(self).log_view(), INO_ROOT as int, k) < old(self).n_inodes() ==> forall|l: int|
                    #[trigger] final(self).log_view().block(slot_id(old(self).log_view(), INO_ROOT as int, k) as int, l)
                        is None),
    {
        let k = match find_entry(&self.log, INO_ROOT, self.slots, name) {
            Some(k) => k,
            None => {
                return Err(FsError::NotFound);
            },
        };
        let (id, _text) = crate::dir::read_entry(&self.log, INO_ROOT, k);
        let ghost pre = self.log;
        assert(slot_name(old(self).log_view(), INO_ROOT as int, k as int) == name@);
        assert(slot_id(old(self).log_view(), INO_ROOT as int, k as int) != 0);
        let res = free_entry(&mut self.log, INO_ROOT, k);
        match res {
            Ok(()) => {},
            Err(e) => {
                return Err(e);
            },
        }
        assert(slot_id(self.log, INO_ROOT as int, k as int) == 0);
        let ino = id as usize;
        if ino != INO_ROOT && ino < self.sizes.len() {
            let ghost mid = self.log;
            self.log.release(ino);
            self.sizes.set(ino, 0);
            proof {
                crate::dir::lemma_slot_frame(mid, self.log, INO_ROOT as int, k as int, ino as int);
            }
        }
        assert(slot_id(self.log_view(), INO_ROOT as int, k as int) == 0);
        assert(slot_name(old(self).log_view(), INO_ROOT as int, k as int) == name@);
        Ok(())
    }
}

/// Sum of the live block counts of segments `0 .. n`.
pub open spec fn live_sum(log: Log, n: int) -> int
    decreases n,
{
    if n <= 0 {
        0
    } else {
        live_sum(log, n - 1) + log.live_spec(n - 1)
    }
}

/// Blocks of a device with `nseg` segments.
pub open spec fn device_blocks(nseg: int) -> int {
    BLKN_SEGMENT + nseg * SEGMENT_BLKS
}

/// Blocks that hold no live data: all but the reserved area, the metadata blocks of each
/// segment, and the live data blocks; zero where the live counts exceed the rest.
pub open spec fn unused_blocks_of(log: Log) -> int {
    let rest = log.nseg() * (SEGMENT_BLKS - BLK_DATA_BEGIN) - live_sum(log, log.nseg());
    if rest < 0 {
        0
    } else {
        rest
    }
}

/// The default information string, "log file system".
fn default_info() -> (r: Str32)
    ensures
        r.0@ == seq![
            108u8, 111, 103, 32, 102, 105, 108, 101, 32, 115, 121, 115, 116, 101, 109, 0, 0, 0, 0, 0,
            0, 0, 0, 0, 0, 0, 0, 0, 0, 0, 0, 0,
        ],
{
    let r = Str32(
        [
            108u8, 111, 103, 32, 102, 105, 108, 101, 32, 115, 121, 115, 116, 101, 109, 0, 0, 0, 0, 0,
            0, 0, 0, 0, 0, 0, 0, 0, 0, 0, 0, 0,
        ],
    );
    assert(r.0@ =~= seq![
        108u8, 111, 103, 32, 102, 105, 108, 101, 32, 115, 121, 115, 116, 101, 109, 0, 0, 0, 0, 0,
        0, 0, 0, 0, 0, 0, 0, 0, 0, 0, 0, 0,
    ]);
    r
}

proof fn lemma_entries_frame(a: Log, b: Log, n: int, ino: int)
    requires
        forall|j: int, l: int| j != ino ==> #[trigger] b.block(j, l) == a.block(j, l),
    ensures
        ino != INO_ROOT ==> live_entries(b, INO_ROOT as int, n) == live_entries(a, INO_ROOT as int, n),
{
    if ino != INO_ROOT {
        crate::dir::lemma_inode_frame(a, b, INO_ROOT as int, n);
    }
}

} // verus!
