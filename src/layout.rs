//! On-disk record shapes and the fixed geometry of the image.

use vstd::prelude::*;

verus! {

pub type BlockId = usize;

pub type SegmentId = usize;

pub type INodeId = usize;

/// Device id of an inode that is not a device node.
pub const NODEVICE: usize = 100;

/// Magic number of a log-structured file system image.
pub const MAGIC: u32 = 0x2f8dbe2c;

/// Size of a block in bytes.
pub const BLKSIZE: usize = 4096;

/// log2 of the block size.
pub const BLKSIZE_LOG2: u8 = 12;

/// Number of direct block pointers in an inode.
pub const NDIRECT: usize = 12;

/// Longest information string kept in the superblock.
pub const MAX_INFO_LEN: usize = 31;

/// Longest file name kept in a directory entry.
pub const MAX_FNAME_LEN: usize = 255;

/// Largest file size: the size field of an inode has 32 bits.
pub const MAX_FILE_SIZE: usize = 0xffffffff;

/// Block of the superblock.
pub const BLKN_SUPER: BlockId = 0;

/// Block of the checkpoint region.
pub const BLKN_CR: BlockId = 1;

/// First block of the segment area.
pub const BLKN_SEGMENT: BlockId = 0x100;

/// Inode id of the root directory.
pub const INO_ROOT: INodeId = 0;

/// Size of one block pointer.
pub const ENTRY_SIZE: usize = 4;

/// Number of block pointers in an indirect block.
pub const BLK_NENTRY: usize = 1024;

/// Size of a directory entry on disk: the inode id and the name field.
pub const DIRENT_SIZE: usize = 260;

/// Blocks reachable through the direct pointers.
pub const MAX_NBLOCK_DIRECT: usize = 12;

/// Blocks reachable through the direct and indirect pointers.
pub const MAX_NBLOCK_INDIRECT: usize = 1036;

/// Blocks reachable through all pointers of an inode.
pub const MAX_NBLOCK_DOUBLE_INDIRECT: usize = 1049612;

/// Blocks in one segment.
pub const SEGMENT_BLKS: usize = 1024;

/// Bytes in one segment.
pub const SEGMENT_SIZE: usize = 4194304;

/// Bytes of the per-segment inode map (blocks 0 and 1 of a segment).
pub const IMAP_PER_SEGMENT_SIZE: usize = 8192;

/// Bytes of the segment summary (blocks 2 and 3 of a segment).
pub const SS_PER_SEGMENT_SIZE: usize = 8192;

/// Bytes of the segment metadata (block 4 of a segment).
pub const SEGMENT_META_SIZE: usize = 4096;

/// First data block within a segment.
pub const BLK_DATA_BEGIN: usize = 5;

/// Segment that holds the root directory after creation.
pub const SEGN_ROOT: usize = 1;

/// Summary entry of a block that holds block pointers, not file data.
pub const ENTRY_SPECIALBLOCK: i32 = -1;

/// Summary entry of a superseded block.
pub const ENTRY_GARBAGE: i32 = -2;

/// Inode id of a summary entry that belongs to no inode.
pub const INVALID_INO: i32 = -1;

/// Block id that stands for "no block".
pub const INVALID_BLKID: usize = 0;

/// File types, with their on-disk codes 0 to 5 in this order.
#[derive(Debug, PartialEq, Eq, Structural, Copy, Clone)]
pub enum FileType {
    Invalid,
    File,
    Dir,
    SymLink,
    CharDevice,
    BlockDevice,
}

pub open spec fn file_type_code(t: FileType) -> u16 {
    match t {
        FileType::Invalid => 0,
        FileType::File => 1,
        FileType::Dir => 2,
        FileType::SymLink => 3,
        FileType::CharDevice => 4,
        FileType::BlockDevice => 5,
    }
}

impl FileType {
    /// The on-disk code of the type.
    pub fn code(&self) -> (r: u16)
        ensures
            r == file_type_code(*self),
    {
        match self {
            FileType::Invalid => 0,
            FileType::File => 1,
            FileType::Dir => 2,
            FileType::SymLink => 3,
            FileType::CharDevice => 4,
            FileType::BlockDevice => 5,
        }
    }

    /// The type with the given on-disk code, if any.
    pub fn from_code(c: u16) -> (r: Option<FileType>)
        ensures
            r is Some <==> c <= 5,
            r matches Some(t) ==> file_type_code(t) == c,
    {
        match c {
            0 => Some(FileType::Invalid),
            1 => Some(FileType::File),
            2 => Some(FileType::Dir),
            3 => Some(FileType::SymLink),
            4 => Some(FileType::CharDevice),
            5 => Some(FileType::BlockDevice),
            _ => None,
        }
    }
}

/// A NUL-padded string of at most 255 bytes.
pub struct Str256(pub [u8; 256]);

/// A NUL-padded string of at most 31 bytes.
pub struct Str32(pub [u8; 32]);

/// Whether `t` fills a NUL-padded field of `n` bytes: it leaves at least one terminating zero,
/// and holds no zero itself.
pub open spec fn fits_field(t: Seq<u8>, n: int) -> bool {
    t.len() < n && !t.contains(0u8)
}

/// The field of `n` bytes that holds `t` followed by zeros.
pub open spec fn padded(t: Seq<u8>, n: int) -> Seq<u8> {
    t + Seq::new((n - t.len()) as nat, |_i: int| 0u8)
}

/// Index of the first zero byte of `s`, or its length where it holds none.
fn first_nul(s: &[u8]) -> (r: usize)
    ensures
        r <= s@.len(),
        forall|i: int| 0 <= i < r ==> s@[i] != 0,
        r < s@.len() ==> s@[r as int] == 0,
{
    let mut i: usize = 0;
    while i < s.len()
        invariant
            i <= s@.len(),
            forall|k: int| 0 <= k < i ==> s@[k] != 0,
        decreases s@.len() - i,
    {
        if s[i] == 0 {
            return i;
        }
        i = i + 1;
    }
    i
}

/// Copies `t` into a zeroed array of 32 bytes.
fn fill32(t: &[u8]) -> (r: [u8; 32])
    requires
        t@.len() <= 32,
    ensures
        r@ == padded(t@, 32),
{
    let mut a: [u8; 32] = [0u8; 32];
    let mut i: usize = 0;
    while i < t.len()
        invariant
            t@.len() <= 32,
            i <= t@.len(),
            forall|k: int| 0 <= k < i ==> a@[k] == t@[k],
            forall|k: int| i <= k < 32 ==> a@[k] == 0,
        decreases t@.len() - i,
    {
        a[i] = t[i];
        i = i + 1;
    }
    assert(a@ =~= padded(t@, 32));
    a
}

/// Copies `t` into a zeroed array of 256 bytes.
fn fill256(t: &[u8]) -> (r: [u8; 256])
    requires
        t@.len() <= 256,
    ensures
        r@ == padded(t@, 256),
{
    let mut a: [u8; 256] = [0u8; 256];
    let mut i: usize = 0;
    while i < t.len()
        invariant
            t@.len() <= 256,
            i <= t@.len(),
            forall|k: int| 0 <= k < i ==> a@[k] == t@[k],
            forall|k: int| i <= k < 256 ==> a@[k] == 0,
        decreases t@.len() - i,
    {
        a[i] = t[i];
        i = i + 1;
    }
    assert(a@ =~= padded(t@, 256));
    a
}

impl Str32 {
    /// The field holding `t`, or `None` where `t` does not fit (31 bytes at most, no zero byte).
    pub fn from_bytes(t: &[u8]) -> (r: Option<Str32>)
        ensures
            r is Some <==> fits_field(t@, 32),
            r matches Some(s) ==> s.0@ == padded(t@, 32),
    {
        if t.len() >= 32 {
            return None;
        }
        let n = first_nul(t);
        if n < t.len() {
            assert(t@.contains(0u8));
            return None;
        }
        Some(Str32(fill32(t)))
    }

    /// The text of the field: its bytes up to the first zero.
    pub fn text(&self) -> (r: Vec<u8>)
        ensures
            r@.len() <= 32,
            !r@.contains(0u8),
            r@ == self.0@.subrange(0, r@.len() as int),
            r@.len() < 32 ==> self.0@[r@.len() as int] == 0,
    {
        let n = first_nul(self.0.as_slice());
        let mut r: Vec<u8> = Vec::new();
        let mut i: usize = 0;
        while i < n
            invariant
                n <= 32,
                i <= n,
                self.0@.len() == 32,
                forall|k: int| 0 <= k < n ==> self.0@[k] != 0,
                r@ == self.0@.subrange(0, i as int),
            decreases n - i,
        {
            r.push(self.0[i]);
            i = i + 1;
            assert(r@ =~= self.0@.subrange(0, i as int));
        }
        r
    }
}

impl Str256 {
    /// The field holding `t`, or `None` where `t` does not fit (255 bytes at most, no zero byte).
    pub fn from_bytes(t: &[u8]) -> (r: Option<Str256>)
        ensures
            r is Some <==> fits_field(t@, 256),
            r matches Some(s) ==> s.0@ == padded(t@, 256),
    {
        if t.len() >= 256 {
            return None;
        }
        let n = first_nul(t);
        if n < t.len() {
            assert(t@.contains(0u8));
            return None;
        }
        Some(Str256(fill256(t)))
    }

    /// The text of the field: its bytes up to the first zero.
    pub fn text(&self) -> (r: Vec<u8>)
        ensures
            r@.len() <= 256,
            !r@.contains(0u8),
            r@ == self.0@.subrange(0, r@.len() as int),
            r@.len() < 256 ==> self.0@[r@.len() as int] == 0,
    {
        let n = first_nul(self.0.as_slice());
        let mut r: Vec<u8> = Vec::new();
        let mut i: usize = 0;
        while i < n
            invariant
                n <= 256,
                i <= n,
                self.0@.len() == 256,
                forall|k: int| 0 <= k < n ==> self.0@[k] != 0,
                r@ == self.0@.subrange(0, i as int),
            decreases n - i,
        {
            r.push(self.0[i]);
            i = i + 1;
            assert(r@ =~= self.0@.subrange(0, i as int));
        }
        r
    }
}

/// On-disk superblock.
pub struct SuperBlock {
    /// magic number, equal to `MAGIC` on a valid image
    pub magic: u32,
    /// number of blocks in the file system
    pub blocks: u32,
    /// number of unused blocks in the file system
    pub unused_blocks: u32,
    /// information string
    pub info: Str32,
    /// segment that is open for writing
    pub current_seg_id: u32,
    /// next inode id to hand out
    pub next_ino_number: u32,
    /// number of segments
    pub n_segment: u32,
}

impl SuperBlock {
    /// Whether the magic number marks a valid image.
    pub fn check(&self) -> (r: bool)
        ensures
            r == (self.magic == MAGIC),
    {
        self.magic == MAGIC
    }
}

/// Inode (on disk).
pub struct DiskINode {
    /// size of the file in bytes
    pub size: u32,
    pub type_: FileType,
    /// number of hard links to this inode
    pub nlinks: u16,
    /// number of blocks
    pub blocks: u32,
    /// direct block pointers
    pub direct: [u32; 12],
    /// block of single-indirect pointers
    pub indirect: u32,
    /// block of double-indirect pointers
    pub db_indirect: u32,
    /// device id of a device node; `NODEVICE` otherwise
    pub device_inode_id: usize,
}

/// An inode of the given type, empty: no size, no links, no blocks.
pub open spec fn is_empty_inode(n: DiskINode, t: FileType, dev: usize) -> bool {
    &&& n.size == 0
    &&& n.type_ == t
    &&& n.nlinks == 0
    &&& n.blocks == 0
    &&& forall|i: int| 0 <= i < 12 ==> n.direct@[i] == 0
    &&& n.indirect == 0
    &&& n.db_indirect == 0
    &&& n.device_inode_id == dev
}

impl DiskINode {
    fn new_empty(type_: FileType, device_inode_id: usize) -> (r: Self)
        ensures
            is_empty_inode(r, type_, device_inode_id),
    {
        DiskINode {
            size: 0,
            type_,
            nlinks: 0,
            blocks: 0,
            direct: [0u32; 12],
            indirect: 0,
            db_indirect: 0,
            device_inode_id,
        }
    }

    /// An empty regular file.
    pub fn new_file() -> (r: Self)
        ensures
            is_empty_inode(r, FileType::File, NODEVICE),
    {
        Self::new_empty(FileType::File, NODEVICE)
    }

    /// An empty symbolic link.
    pub fn new_symlink() -> (r: Self)
        ensures
            is_empty_inode(r, FileType::SymLink, NODEVICE),
    {
        Self::new_empty(FileType::SymLink, NODEVICE)
    }

    /// An empty directory.
    pub fn new_dir() -> (r: Self)
        ensures
            is_empty_inode(r, FileType::Dir, NODEVICE),
    {
        Self::new_empty(FileType::Dir, NODEVICE)
    }

    /// A character device node for the given device.
    pub fn new_chardevice(device_inode_id: usize) -> (r: Self)
        ensures
            is_empty_inode(r, FileType::CharDevice, device_inode_id),
    {
        Self::new_empty(FileType::CharDevice, device_inode_id)
    }
}

/// A block of block pointers.
pub struct IndirectBlock {
    pub entries: [u32; 1024],
}

/// Directory entry (on disk).
pub struct DiskEntry {
    /// inode number; zero marks a free slot
    pub id: u32,
    /// file name
    pub name: Str256,
}

/// Checkpoint region: the number of inodes known at the checkpoint.
pub struct CheckRegion {
    pub inodes_num: u32,
}

/// Owner of a block in a segment: an inode and the logical index of the block in it,
/// or a sentinel in `entry_id` (`ENTRY_SPECIALBLOCK`, `ENTRY_GARBAGE`).
#[derive(Debug, PartialEq, Eq, Structural, Copy, Clone)]
pub struct SummaryEntry {
    pub inode_id: i32,
    pub entry_id: i32,
}

/// Segment metadata: live blocks, inodes written, and an unused word.
#[derive(Debug, PartialEq, Eq, Structural, Copy, Clone)]
pub struct SegmentMeta {
    pub size: u32,
    pub inodes_num: u32,
    pub unused: u32,
}

} // verus!
