//! Binary encoding of the on-disk records: fixed-width little-endian integers and
//! NUL-padded byte arrays, field by field in declaration order.

use vstd::prelude::*;
use crate::error::FsError;
use crate::layout::{
    file_type_code, Str256, CheckRegion, DiskEntry, DiskINode, FileType, SegmentMeta, Str32, SummaryEntry,
    SuperBlock,
};

verus! {

/// The four little-endian bytes of `v`.
pub open spec fn u32_le(v: u32) -> Seq<u8> {
    seq![(v & 0xff) as u8, ((v >> 8u32) & 0xff) as u8, ((v >> 16u32) & 0xff) as u8, ((v >> 24u32) & 0xff) as u8]
}

/// The number whose little-endian bytes are `b[i .. i + 4]`.
pub open spec fn le_u32(b: Seq<u8>, i: int) -> u32 {
    (b[i] as u32) | ((b[i + 1] as u32) << 8u32) | ((b[i + 2] as u32) << 16u32) | ((b[i + 3] as u32) << 24u32)
}

/// Decoding the bytes of a number gives the number back.
pub proof fn lemma_u32_round_trip(v: u32)
    ensures
        le_u32(u32_le(v), 0) == v,
{
    let b0 = (v & 0xff) as u8;
    let b1 = ((v >> 8u32) & 0xff) as u8;
    let b2 = ((v >> 16u32) & 0xff) as u8;
    let b3 = ((v >> 24u32) & 0xff) as u8;
    assert((b0 as u32) | ((b1 as u32) << 8u32) | ((b2 as u32) << 16u32) | ((b3 as u32) << 24u32) == v) by (bit_vector)
        requires
            b0 == (v & 0xff) as u8,
            b1 == ((v >> 8u32) & 0xff) as u8,
            b2 == ((v >> 16u32) & 0xff) as u8,
            b3 == ((v >> 24u32) & 0xff) as u8,
    ;
}

/// Encoding the number that four bytes hold gives the same four bytes.
pub proof fn lemma_le_u32_bytes(b: Seq<u8>, i: int)
    requires
        0 <= i,
        i + 4 <= b.len(),
    ensures
        u32_le(le_u32(b, i)) == b.subrange(i, i + 4),
{
    let b0 = b[i];
    let b1 = b[i + 1];
    let b2 = b[i + 2];
    let b3 = b[i + 3];
    let v = le_u32(b, i);
    assert(v == (b0 as u32) | ((b1 as u32) << 8u32) | ((b2 as u32) << 16u32) | ((b3 as u32) << 24u32));
    assert((v & 0xff) as u8 == b0 && ((v >> 8u32) & 0xff) as u8 == b1 && ((v >> 16u32) & 0xff) as u8 == b2
        && ((v >> 24u32) & 0xff) as u8 == b3) by (bit_vector)
        requires
            v == (b0 as u32) | ((b1 as u32) << 8u32) | ((b2 as u32) << 16u32) | ((b3 as u32) << 24u32),
    ;
    assert(u32_le(v) =~= b.subrange(i, i + 4));
}

/// `le_u32` reads only the four bytes it starts at.
proof fn lemma_le_u32_at(b: Seq<u8>, i: int, v: u32)
    requires
        0 <= i,
        i + 4 <= b.len(),
        b.subrange(i, i + 4) == u32_le(v),
    ensures
        le_u32(b, i) == v,
{
    lemma_u32_round_trip(v);
    assert(b[i] == u32_le(v)[0]);
    assert(b[i + 1] == u32_le(v)[1]);
    assert(b[i + 2] == u32_le(v)[2]);
    assert(b[i + 3] == u32_le(v)[3]);
}

/// Appends the little-endian bytes of `v`.
pub fn put_u32(buf: &mut Vec<u8>, v: u32)
    ensures
        final(buf)@ == old(buf)@ + u32_le(v),
{
    buf.push((v & 0xff) as u8);
    buf.push(((v >> 8u32) & 0xff) as u8);
    buf.push(((v >> 16u32) & 0xff) as u8);
    buf.push(((v >> 24u32) & 0xff) as u8);
    assert(buf@ =~= old(buf)@ + u32_le(v));
}

/// The number whose little-endian bytes start at `i`.
pub fn get_u32(b: &[u8], i: usize) -> (r: u32)
    requires
        i + 4 <= b@.len(),
    ensures
        r == le_u32(b@, i as int),
{
    (b[i] as u32) | ((b[i + 1] as u32) << 8u32) | ((b[i + 2] as u32) << 16u32) | ((b[i + 3] as u32) << 24u32)
}

/// Bytes of segment metadata: live blocks, inode count, the seal word.
pub open spec fn meta_bytes(m: SegmentMeta) -> Seq<u8> {
    u32_le(m.size) + u32_le(m.inodes_num) + u32_le(m.unused)
}

/// Bytes of a summary entry: the inode id and the entry, each as a 32-bit two's complement.
pub open spec fn summary_bytes(e: SummaryEntry) -> Seq<u8> {
    u32_le(e.inode_id as u32) + u32_le(e.entry_id as u32)
}

/// Bytes of the checkpoint region's header: the inode count.
pub open spec fn check_region_bytes(c: CheckRegion) -> Seq<u8> {
    u32_le(c.inodes_num)
}

/// Bytes of the superblock.
pub open spec fn super_bytes(s: SuperBlock) -> Seq<u8> {
    u32_le(s.magic) + u32_le(s.blocks) + u32_le(s.unused_blocks) + s.info.0@ + u32_le(s.current_seg_id)
        + u32_le(s.next_ino_number) + u32_le(s.n_segment)
}

/// Size of an encoded segment metadata record.
pub const META_BYTES: usize = 12;

/// Size of an encoded summary entry.
pub const SUMMARY_BYTES: usize = 8;

/// Size of an encoded superblock.
pub const SUPER_BYTES: usize = 56;

/// Records that are written to disk as bytes.
pub trait AsBuf {
    spec fn buf_spec(&self) -> Seq<u8>;

    /// The record's bytes.
    fn as_buf(&self) -> (r: Vec<u8>)
        ensures
            r@ == self.buf_spec(),
    ;
}

impl AsBuf for SegmentMeta {
    open spec fn buf_spec(&self) -> Seq<u8> {
        meta_bytes(*self)
    }

    fn as_buf(&self) -> (r: Vec<u8>) {
        let mut r: Vec<u8> = Vec::new();
        put_u32(&mut r, self.size);
        put_u32(&mut r, self.inodes_num);
        put_u32(&mut r, self.unused);
        assert(r@ =~= meta_bytes(*self));
        r
    }
}

impl AsBuf for SummaryEntry {
    open spec fn buf_spec(&self) -> Seq<u8> {
        summary_bytes(*self)
    }

    fn as_buf(&self) -> (r: Vec<u8>) {
        let mut r: Vec<u8> = Vec::new();
        put_u32(&mut r, self.inode_id as u32);
        put_u32(&mut r, self.entry_id as u32);
        assert(r@ =~= summary_bytes(*self));
        r
    }
}

impl AsBuf for CheckRegion {
    open spec fn buf_spec(&self) -> Seq<u8> {
        check_region_bytes(*self)
    }

    fn as_buf(&self) -> (r: Vec<u8>) {
        let mut r: Vec<u8> = Vec::new();
        put_u32(&mut r, self.inodes_num);
        r
    }
}

impl AsBuf for SuperBlock {
    open spec fn buf_spec(&self) -> Seq<u8> {
        super_bytes(*self)
    }

    fn as_buf(&self) -> (r: Vec<u8>) {
        let mut r: Vec<u8> = Vec::new();
        put_u32(&mut r, self.magic);
        put_u32(&mut r, self.blocks);
        put_u32(&mut r, self.unused_blocks);
        let mut i: usize = 0;
        let ghost start = r@;
        while i < 32
            invariant
                i <= 32,
                self.info.0@.len() == 32,
                r@ == start + self.info.0@.subrange(0, i as int),
            decreases 32 - i,
        {
            r.push(self.info.0[i]);
            i = i + 1;
            assert(r@ =~= start + self.info.0@.subrange(0, i as int));
        }
        assert(self.info.0@.subrange(0, 32) =~= self.info.0@);
        put_u32(&mut r, self.current_seg_id);
        put_u32(&mut r, self.next_ino_number);
        put_u32(&mut r, self.n_segment);
        assert(r@ =~= super_bytes(*self));
        r
    }
}

impl AsBuf for DiskEntry {
    open spec fn buf_spec(&self) -> Seq<u8> {
        entry_record_bytes(*self)
    }

    fn as_buf(&self) -> (r: Vec<u8>) {
        let mut r: Vec<u8> = Vec::new();
        put_u32(&mut r, self.id);
        let ghost start = r@;
        let mut i: usize = 0;
        while i < 256
            invariant
                i <= 256,
                self.name.0@.len() == 256,
                r@ == start + self.name.0@.subrange(0, i as int),
            decreases 256 - i,
        {
            r.push(self.name.0[i]);
            i = i + 1;
            assert(r@ =~= start + self.name.0@.subrange(0, i as int));
        }
        assert(self.name.0@.subrange(0, 256) =~= self.name.0@);
        r
    }
}

/// Segment metadata read from the first 12 bytes of `b`; `CorruptedLayout` where `b` is
/// shorter.
pub fn decode_meta(b: &[u8]) -> (r: Result<SegmentMeta, FsError>)
    ensures
        r is Err <==> b@.len() < META_BYTES,
        r matches Err(e) ==> e == FsError::CorruptedLayout,
        r matches Ok(m) ==> m == meta_of(b@) && meta_bytes(m) == b@.subrange(0, META_BYTES as int),
{
    if b.len() < META_BYTES {
        return Err(FsError::CorruptedLayout);
    }
    let m = SegmentMeta { size: get_u32(b, 0), inodes_num: get_u32(b, 4), unused: get_u32(b, 8) };
    proof {
        lemma_le_u32_bytes(b@, 0);
        lemma_le_u32_bytes(b@, 4);
        lemma_le_u32_bytes(b@, 8);
        assert(meta_bytes(m) =~= b@.subrange(0, 12));
    }
    Ok(m)
}

/// Summary entry read from the first 8 bytes of `b`; `CorruptedLayout` where `b` is
/// shorter.
pub fn decode_summary(b: &[u8]) -> (r: Result<SummaryEntry, FsError>)
    ensures
        r is Err <==> b@.len() < SUMMARY_BYTES,
        r matches Err(e) ==> e == FsError::CorruptedLayout,
        r matches Ok(e) ==> e == summary_of(b@) && summary_bytes(e) == b@.subrange(0, SUMMARY_BYTES as int),
{
    if b.len() < SUMMARY_BYTES {
        return Err(FsError::CorruptedLayout);
    }
    let x = get_u32(b, 0);
    let y = get_u32(b, 4);
    let e = SummaryEntry { inode_id: x as i32, entry_id: y as i32 };
    proof {
        lemma_le_u32_bytes(b@, 0);
        lemma_le_u32_bytes(b@, 4);
        assert((x as i32) as u32 == x) by (bit_vector);
        assert((y as i32) as u32 == y) by (bit_vector);
        assert(summary_bytes(e) =~= b@.subrange(0, 8));
    }
    Ok(e)
}

/// Superblock read from the first 56 bytes of `b`. `CorruptedLayout` where `b` is shorter;
/// `CorruptedSuperblock` where the magic number is wrong.
pub fn decode_super(b: &[u8]) -> (r: Result<SuperBlock, FsError>)
    ensures
        b@.len() < SUPER_BYTES ==> r == Err::<SuperBlock, FsError>(FsError::CorruptedLayout),
        b@.len() >= SUPER_BYTES ==> (r is Err <==> le_u32(b@, 0) != crate::layout::MAGIC),
        b@.len() >= SUPER_BYTES && r is Err ==> r == Err::<SuperBlock, FsError>(FsError::CorruptedSuperblock),
        r matches Ok(s) ==> super_bytes(s) == b@.subrange(0, SUPER_BYTES as int) && s.magic
            == crate::layout::MAGIC,
{
    if b.len() < SUPER_BYTES {
        return Err(FsError::CorruptedLayout);
    }
    let magic = get_u32(b, 0);
    if magic != crate::layout::MAGIC {
        return Err(FsError::CorruptedSuperblock);
    }
    let mut info: [u8; 32] = [0u8; 32];
    let mut i: usize = 0;
    while i < 32
        invariant
            i <= 32,
            b@.len() >= 56,
            forall|k: int| 0 <= k < i ==> info@[k] == b@[12 + k],
        decreases 32 - i,
    {
        info[i] = b[12 + i];
        i = i + 1;
    }
    let s = SuperBlock {
        magic,
        blocks: get_u32(b, 4),
        unused_blocks: get_u32(b, 8),
        info: Str32(info),
        current_seg_id: get_u32(b, 44),
        next_ino_number: get_u32(b, 48),
        n_segment: get_u32(b, 52),
    };
    proof {
        lemma_le_u32_bytes(b@, 0);
        lemma_le_u32_bytes(b@, 4);
        lemma_le_u32_bytes(b@, 8);
        lemma_le_u32_bytes(b@, 44);
        lemma_le_u32_bytes(b@, 48);
        lemma_le_u32_bytes(b@, 52);
        assert(info@ =~= b@.subrange(12, 44));
        assert(super_bytes(s) =~= b@.subrange(0, 56));
    }
    Ok(s)
}

/// Segment metadata read from `b[0 .. 12]`.
pub open spec fn meta_of(b: Seq<u8>) -> SegmentMeta {
    SegmentMeta { size: le_u32(b, 0), inodes_num: le_u32(b, 4), unused: le_u32(b, 8) }
}

/// Summary entry read from `b[0 .. 8]`.
pub open spec fn summary_of(b: Seq<u8>) -> SummaryEntry {
    SummaryEntry { inode_id: le_u32(b, 0) as i32, entry_id: le_u32(b, 4) as i32 }
}

/// Checkpoint region header read from `b[0 .. 4]`.
pub open spec fn check_region_of(b: Seq<u8>) -> CheckRegion {
    CheckRegion { inodes_num: le_u32(b, 0) }
}

/// Encoding segment metadata and decoding the bytes gives the same metadata.
pub proof fn lemma_meta_round_trip(m: SegmentMeta)
    ensures
        meta_bytes(m).len() == META_BYTES,
        meta_of(meta_bytes(m)) == m,
{
    let b = meta_bytes(m);
    assert(b.subrange(0, 4) =~= u32_le(m.size));
    assert(b.subrange(4, 8) =~= u32_le(m.inodes_num));
    assert(b.subrange(8, 12) =~= u32_le(m.unused));
    lemma_le_u32_at(b, 0, m.size);
    lemma_le_u32_at(b, 4, m.inodes_num);
    lemma_le_u32_at(b, 8, m.unused);
}

/// Decoding segment metadata and encoding the result gives back the very same bytes: what
/// a mount only reads, it would write back unchanged.
pub proof fn lemma_decode_encode_identity(b: Seq<u8>)
    requires
        b.len() >= META_BYTES,
    ensures
        meta_bytes(meta_of(b)) == b.subrange(0, META_BYTES as int),
{
    lemma_le_u32_bytes(b, 0);
    lemma_le_u32_bytes(b, 4);
    lemma_le_u32_bytes(b, 8);
    assert(meta_bytes(meta_of(b)) =~= b.subrange(0, 12));
}

/// Two segment metadata records with the same bytes are the same record.
pub proof fn lemma_meta_injective(x: SegmentMeta, y: SegmentMeta)
    requires
        meta_bytes(x) == meta_bytes(y),
    ensures
        x == y,
{
    lemma_meta_round_trip(x);
    lemma_meta_round_trip(y);
}

/// Encoding a summary entry and decoding the bytes gives the same entry.
pub proof fn lemma_summary_round_trip(e: SummaryEntry)
    ensures
        summary_bytes(e).len() == SUMMARY_BYTES,
        summary_of(summary_bytes(e)) == e,
{
    let b = summary_bytes(e);
    let x = e.inode_id;
    let y = e.entry_id;
    assert(b.subrange(0, 4) =~= u32_le(x as u32));
    assert(b.subrange(4, 8) =~= u32_le(y as u32));
    lemma_le_u32_at(b, 0, x as u32);
    lemma_le_u32_at(b, 4, y as u32);
    assert((x as u32) as i32 == x) by (bit_vector);
    assert((y as u32) as i32 == y) by (bit_vector);
}

/// Decoding a summary entry and encoding the result gives back the same bytes.
pub proof fn lemma_summary_bytes_of(b: Seq<u8>)
    requires
        b.len() >= SUMMARY_BYTES,
    ensures
        summary_bytes(summary_of(b)) == b.subrange(0, SUMMARY_BYTES as int),
{
    let x = le_u32(b, 0);
    let y = le_u32(b, 4);
    lemma_le_u32_bytes(b, 0);
    lemma_le_u32_bytes(b, 4);
    assert((x as i32) as u32 == x) by (bit_vector);
    assert((y as i32) as u32 == y) by (bit_vector);
    assert(summary_bytes(summary_of(b)) =~= b.subrange(0, 8));
}

/// Two summary entries with the same bytes are the same entry.
pub proof fn lemma_summary_injective(x: SummaryEntry, y: SummaryEntry)
    requires
        summary_bytes(x) == summary_bytes(y),
    ensures
        x == y,
{
    lemma_summary_round_trip(x);
    lemma_summary_round_trip(y);
}

/// Encoding a checkpoint region header and decoding the bytes gives the same header.
pub proof fn lemma_check_region_round_trip(c: CheckRegion)
    ensures
        check_region_bytes(c).len() == 4,
        check_region_of(check_region_bytes(c)) == c,
{
    lemma_u32_round_trip(c.inodes_num);
}

/// Decoding a checkpoint region header and encoding the result gives back the same bytes.
pub proof fn lemma_check_region_bytes_of(b: Seq<u8>)
    requires
        b.len() >= 4,
    ensures
        check_region_bytes(check_region_of(b)) == b.subrange(0, 4),
{
    lemma_le_u32_bytes(b, 0);
}

/// Two checkpoint region headers with the same bytes are the same header.
pub proof fn lemma_check_region_injective(x: CheckRegion, y: CheckRegion)
    requires
        check_region_bytes(x) == check_region_bytes(y),
    ensures
        x == y,
{
    lemma_check_region_round_trip(x);
    lemma_check_region_round_trip(y);
}

/// Two superblocks with the same bytes are the same superblock.
pub proof fn lemma_super_injective(x: SuperBlock, y: SuperBlock)
    requires
        super_bytes(x) == super_bytes(y),
    ensures
        x == y,
{
    let b = super_bytes(x);
    assert(b.subrange(0, 4) =~= u32_le(x.magic));
    assert(b.subrange(4, 8) =~= u32_le(x.blocks));
    assert(b.subrange(8, 12) =~= u32_le(x.unused_blocks));
    assert(b.subrange(12, 44) =~= x.info.0@);
    assert(b.subrange(44, 48) =~= u32_le(x.current_seg_id));
    assert(b.subrange(48, 52) =~= u32_le(x.next_ino_number));
    assert(b.subrange(52, 56) =~= u32_le(x.n_segment));
    assert(b.subrange(0, 4) =~= u32_le(y.magic));
    assert(b.subrange(4, 8) =~= u32_le(y.blocks));
    assert(b.subrange(8, 12) =~= u32_le(y.unused_blocks));
    assert(b.subrange(12, 44) =~= y.info.0@);
    assert(b.subrange(44, 48) =~= u32_le(y.current_seg_id));
    assert(b.subrange(48, 52) =~= u32_le(y.next_ino_number));
    assert(b.subrange(52, 56) =~= u32_le(y.n_segment));
    lemma_le_u32_at(b, 0, x.magic);
    lemma_le_u32_at(b, 0, y.magic);
    lemma_le_u32_at(b, 4, x.blocks);
    lemma_le_u32_at(b, 4, y.blocks);
    lemma_le_u32_at(b, 8, x.unused_blocks);
    lemma_le_u32_at(b, 8, y.unused_blocks);
    lemma_le_u32_at(b, 44, x.current_seg_id);
    lemma_le_u32_at(b, 44, y.current_seg_id);
    lemma_le_u32_at(b, 48, x.next_ino_number);
    lemma_le_u32_at(b, 48, y.next_ino_number);
    lemma_le_u32_at(b, 52, x.n_segment);
    lemma_le_u32_at(b, 52, y.n_segment);
    assert(x.info.0 =~= y.info.0);
}

/// Bytes of a directory entry: the inode id and the 256-byte name field.
pub open spec fn entry_record_bytes(e: DiskEntry) -> Seq<u8> {
    u32_le(e.id) + e.name.0@
}

/// Size of an encoded directory entry.
pub const ENTRY_BYTES: usize = 260;

/// Two directory entries with the same bytes are the same entry.
pub proof fn lemma_entry_injective(x: DiskEntry, y: DiskEntry)
    requires
        entry_record_bytes(x) == entry_record_bytes(y),
    ensures
        x == y,
{
    let b = entry_record_bytes(x);
    assert(b.subrange(0, 4) =~= u32_le(x.id));
    assert(b.subrange(0, 4) =~= u32_le(y.id));
    assert(b.subrange(4, 260) =~= x.name.0@);
    assert(b.subrange(4, 260) =~= y.name.0@);
    lemma_le_u32_at(b, 0, x.id);
    lemma_le_u32_at(b, 0, y.id);
    assert(x.name.0 =~= y.name.0);
}

/// Directory entry read from the first 260 bytes of `b`; `CorruptedLayout` where `b` is
/// shorter.
pub fn decode_entry(b: &[u8]) -> (r: Result<DiskEntry, FsError>)
    ensures
        r is Err <==> b@.len() < ENTRY_BYTES,
        r matches Err(e) ==> e == FsError::CorruptedLayout,
        r matches Ok(e) ==> entry_record_bytes(e) == b@.subrange(0, ENTRY_BYTES as int),
{
    if b.len() < ENTRY_BYTES {
        return Err(FsError::CorruptedLayout);
    }
    let mut name: [u8; 256] = [0u8; 256];
    let mut i: usize = 0;
    while i < 256
        invariant
            i <= 256,
            b@.len() >= 260,
            forall|k: int| 0 <= k < i ==> name@[k] == b@[4 + k],
        decreases 256 - i,
    {
        name[i] = b[4 + i];
        i = i + 1;
    }
    let e = DiskEntry { id: get_u32(b, 0), name: Str256(name) };
    proof {
        lemma_le_u32_bytes(b@, 0);
        assert(name@ =~= b@.subrange(4, 260));
        assert(entry_record_bytes(e) =~= b@.subrange(0, 260));
    }
    Ok(e)
}

/// Checkpoint region header read from the first 4 bytes of `b`; `CorruptedLayout` where
/// `b` is shorter.
pub fn decode_check_region(b: &[u8]) -> (r: Result<CheckRegion, FsError>)
    ensures
        r is Err <==> b@.len() < 4,
        r matches Err(e) ==> e == FsError::CorruptedLayout,
        r matches Ok(c) ==> c == check_region_of(b@) && check_region_bytes(c) == b@.subrange(0, 4),
{
    if b.len() < 4 {
        return Err(FsError::CorruptedLayout);
    }
    proof {
        lemma_check_region_bytes_of(b@);
    }
    Ok(CheckRegion { inodes_num: get_u32(b, 0) })
}

/// The two little-endian bytes of `v`.
pub open spec fn u16_le(v: u16) -> Seq<u8> {
    seq![(v & 0xff) as u8, ((v >> 8u16) & 0xff) as u8]
}

/// The number whose little-endian bytes are `b[i .. i + 2]`.
pub open spec fn le_u16(b: Seq<u8>, i: int) -> u16 {
    (b[i] as u16) | ((b[i + 1] as u16) << 8u16)
}

/// The bytes of a sequence of 32-bit words, each little-endian.
pub open spec fn words_le(w: Seq<u32>) -> Seq<u8>
    decreases w.len(),
{
    if w.len() == 0 {
        Seq::empty()
    } else {
        words_le(w.drop_last()) + u32_le(w.last())
    }
}

/// Bytes of an inode record: size, type code, link count, block count, the twelve direct
/// pointers, the indirect and double-indirect pointers, and the device id as 64 bits.
pub open spec fn inode_bytes(n: DiskINode) -> Seq<u8> {
    u32_le(n.size) + u16_le(file_type_code(n.type_)) + u16_le(n.nlinks) + u32_le(n.blocks) + words_le(
        n.direct@,
    ) + u32_le(n.indirect) + u32_le(n.db_indirect) + u32_le((n.device_inode_id as u64 & 0xffff_ffff) as u32)
        + u32_le((n.device_inode_id as u64 >> 32u64) as u32)
}

/// Size of an encoded inode record.
pub const INODE_BYTES: usize = 76;

fn put_u16(buf: &mut Vec<u8>, v: u16)
    ensures
        final(buf)@ == old(buf)@ + u16_le(v),
{
    buf.push((v & 0xff) as u8);
    buf.push(((v >> 8u16) & 0xff) as u8);
    assert(buf@ =~= old(buf)@ + u16_le(v));
}

fn get_u16(b: &[u8], i: usize) -> (r: u16)
    requires
        i + 2 <= b@.len(),
    ensures
        r == le_u16(b@, i as int),
{
    (b[i] as u16) | ((b[i + 1] as u16) << 8u16)
}

proof fn lemma_le_u16_bytes(b: Seq<u8>, i: int)
    requires
        0 <= i,
        i + 2 <= b.len(),
    ensures
        u16_le(le_u16(b, i)) == b.subrange(i, i + 2),
{
    let b0 = b[i];
    let b1 = b[i + 1];
    let v = le_u16(b, i);
    assert((v & 0xff) as u8 == b0 && ((v >> 8u16) & 0xff) as u8 == b1) by (bit_vector)
        requires
            v == (b0 as u16) | ((b1 as u16) << 8u16),
    ;
    assert(u16_le(v) =~= b.subrange(i, i + 2));
}

proof fn lemma_words_from_bytes(w: Seq<u32>, b: Seq<u8>, off: int)
    requires
        0 <= off,
        off + 4 * w.len() <= b.len(),
        forall|q: int| 0 <= q < w.len() ==> #[trigger] w[q] == le_u32(b, off + 4 * q),
    ensures
        words_le(w) == b.subrange(off, off + 4 * w.len()),
    decreases w.len(),
{
    if w.len() > 0 {
        let n = w.len() - 1;
        lemma_words_from_bytes(w.drop_last(), b, off);
        assert(w.last() == le_u32(b, off + 4 * n));
        lemma_le_u32_bytes(b, off + 4 * n);
        assert(b.subrange(off, off + 4 * w.len()) =~= b.subrange(off, off + 4 * n) + b.subrange(off + 4 * n, off + 4 * n + 4));
    }
}

impl AsBuf for DiskINode {
    open spec fn buf_spec(&self) -> Seq<u8> {
        inode_bytes(*self)
    }

    fn as_buf(&self) -> (r: Vec<u8>) {
        let mut r: Vec<u8> = Vec::new();
        put_u32(&mut r, self.size);
        put_u16(&mut r, self.type_.code());
        put_u16(&mut r, self.nlinks);
        put_u32(&mut r, self.blocks);
        let ghost start = r@;
        let mut i: usize = 0;
        while i < 12
            invariant
                i <= 12,
                self.direct@.len() == 12,
                r@ == start + words_le(self.direct@.subrange(0, i as int)),
            decreases 12 - i,
        {
            put_u32(&mut r, self.direct[i]);
            proof {
                assert(self.direct@.subrange(0, i + 1).drop_last() =~= self.direct@.subrange(0, i as int));
            }
            i = i + 1;
        }
        assert(self.direct@.subrange(0, 12) =~= self.direct@);
        put_u32(&mut r, self.indirect);
        put_u32(&mut r, self.db_indirect);
        let dev = self.device_inode_id as u64;
        put_u32(&mut r, (dev & 0xffff_ffff) as u32);
        put_u32(&mut r, (dev >> 32u64) as u32);
        assert(r@ =~= inode_bytes(*self));
        r
    }
}

/// Inode record read from the first 76 bytes of `b`. `CorruptedLayout` where `b` is
/// shorter, its type code is not one of the six types, or its device id does not fit a
/// `usize`.
pub fn decode_inode(b: &[u8]) -> (r: Result<DiskINode, FsError>)
    ensures
        b@.len() < INODE_BYTES ==> r is Err,
        b@.len() >= INODE_BYTES ==> (r is Err <==> (le_u16(b@, 4) > 5 || (le_u32(b@, 68) as u64 | ((le_u32(b@, 72) as u64) << 32u64)) > usize::MAX)),
        r matches Err(e) ==> e == FsError::CorruptedLayout,
        r matches Ok(n) ==> inode_bytes(n) == b@.subrange(0, INODE_BYTES as int),
{
    if b.len() < INODE_BYTES {
        return Err(FsError::CorruptedLayout);
    }
    let code = get_u16(b, 4);
    let type_: FileType = match FileType::from_code(code) {
        Some(t) => t,
        None => {
            return Err(FsError::CorruptedLayout);
        },
    };
    let lo = get_u32(b, 68);
    let hi = get_u32(b, 72);
    let dev: u64 = (lo as u64) | ((hi as u64) << 32u64);
    if dev > usize::MAX as u64 {
        return Err(FsError::CorruptedLayout);
    }
    let mut direct: [u32; 12] = [0u32; 12];
    let mut i: usize = 0;
    while i < 12
        invariant
            i <= 12,
            b@.len() >= 76,
            forall|q: int| 0 <= q < i ==> #[trigger] direct@[q] == le_u32(b@, 12 + 4 * q),
        decreases 12 - i,
    {
        direct[i] = get_u32(b, 12 + 4 * i);
        i = i + 1;
    }
    let n = DiskINode {
        size: get_u32(b, 0),
        type_,
        nlinks: get_u16(b, 6),
        blocks: get_u32(b, 8),
        direct,
        indirect: get_u32(b, 60),
        db_indirect: get_u32(b, 64),
        device_inode_id: dev as usize,
    };
    proof {
        lemma_le_u32_bytes(b@, 0);
        lemma_le_u16_bytes(b@, 4);
        lemma_le_u16_bytes(b@, 6);
        lemma_le_u32_bytes(b@, 8);
        lemma_words_from_bytes(direct@, b@, 12);
        lemma_le_u32_bytes(b@, 60);
        lemma_le_u32_bytes(b@, 64);
        lemma_le_u32_bytes(b@, 68);
        lemma_le_u32_bytes(b@, 72);
        assert((dev & 0xffff_ffff) as u32 == lo && (dev >> 32u64) as u32 == hi) by (bit_vector)
            requires
                dev == (lo as u64) | ((hi as u64) << 32u64),
        ;
        assert(inode_bytes(n) =~= b@.subrange(0, 76));
    }
    Ok(n)
}

proof fn lemma_words_le_at(w: Seq<u32>, q: int)
    requires
        0 <= q < w.len(),
    ensures
        words_le(w).len() == 4 * w.len(),
        words_le(w).subrange(4 * q, 4 * q + 4) == u32_le(w[q]),
    decreases w.len(),
{
    let p = w.drop_last();
    if q == w.len() - 1 {
        if p.len() > 0 {
            lemma_words_le_at(p, 0);
        }
        assert(words_le(w).subrange(4 * q, 4 * q + 4) =~= u32_le(w[q]));
    } else {
        lemma_words_le_at(p, q);
        assert(words_le(w).subrange(4 * q, 4 * q + 4) =~= words_le(p).subrange(4 * q, 4 * q + 4));
    }
}

proof fn lemma_u16_round_trip(v: u16)
    ensures
        le_u16(u16_le(v), 0) == v,
{
    let b0 = (v & 0xff) as u8;
    let b1 = ((v >> 8u16) & 0xff) as u8;
    assert((b0 as u16) | ((b1 as u16) << 8u16) == v) by (bit_vector)
        requires
            b0 == (v & 0xff) as u8,
            b1 == ((v >> 8u16) & 0xff) as u8,
    ;
}

/// The fields of an inode record, read back from its bytes.
proof fn lemma_inode_fields(x: DiskINode)
    ensures
        inode_bytes(x).len() == INODE_BYTES,
        le_u32(inode_bytes(x), 0) == x.size,
        le_u16(inode_bytes(x), 4) == file_type_code(x.type_),
        le_u16(inode_bytes(x), 6) == x.nlinks,
        le_u32(inode_bytes(x), 8) == x.blocks,
        forall|q: int| 0 <= q < 12 ==> le_u32(inode_bytes(x), 12 + 4 * q) == #[trigger] x.direct@[q],
        le_u32(inode_bytes(x), 60) == x.indirect,
        le_u32(inode_bytes(x), 64) == x.db_indirect,
        le_u32(inode_bytes(x), 68) == (x.device_inode_id as u64 & 0xffff_ffff) as u32,
        le_u32(inode_bytes(x), 72) == (x.device_inode_id as u64 >> 32u64) as u32,
{
    let b = inode_bytes(x);
    let w = x.direct@;
    lemma_words_le_at(w, 0);
    let lo = (x.device_inode_id as u64 & 0xffff_ffff) as u32;
    let hi = (x.device_inode_id as u64 >> 32u64) as u32;
    assert(b.subrange(0, 4) =~= u32_le(x.size));
    assert(b.subrange(4, 6) =~= u16_le(file_type_code(x.type_)));
    assert(b.subrange(6, 8) =~= u16_le(x.nlinks));
    assert(b.subrange(8, 12) =~= u32_le(x.blocks));
    assert(b.subrange(12, 60) =~= words_le(w));
    assert(b.subrange(60, 64) =~= u32_le(x.indirect));
    assert(b.subrange(64, 68) =~= u32_le(x.db_indirect));
    assert(b.subrange(68, 72) =~= u32_le(lo));
    assert(b.subrange(72, 76) =~= u32_le(hi));
    lemma_le_u32_at(b, 0, x.size);
    lemma_u16_round_trip(file_type_code(x.type_));
    lemma_u16_round_trip(x.nlinks);
    assert(b[4] == u16_le(file_type_code(x.type_))[0] && b[5] == u16_le(file_type_code(x.type_))[1]);
    assert(b[6] == u16_le(x.nlinks)[0] && b[7] == u16_le(x.nlinks)[1]);
    lemma_le_u32_at(b, 8, x.blocks);
    lemma_le_u32_at(b, 60, x.indirect);
    lemma_le_u32_at(b, 64, x.db_indirect);
    lemma_le_u32_at(b, 68, lo);
    lemma_le_u32_at(b, 72, hi);
    assert forall|q: int| 0 <= q < 12 implies le_u32(b, 12 + 4 * q) == #[trigger] x.direct@[q] by {
        lemma_words_le_at(w, q);
        assert(b.subrange(12 + 4 * q, 16 + 4 * q) =~= words_le(w).subrange(4 * q, 4 * q + 4));
        lemma_le_u32_at(b, 12 + 4 * q, w[q]);
    }
}

/// Two inode records with the same bytes are the same record.
pub proof fn lemma_inode_injective(x: DiskINode, y: DiskINode)
    requires
        inode_bytes(x) == inode_bytes(y),
    ensures
        x == y,
{
    lemma_inode_fields(x);
    lemma_inode_fields(y);
    assert(x.direct =~= y.direct) by {
        assert forall|q: int| 0 <= q < 12 implies x.direct@[q] == y.direct@[q] by {
            assert(x.direct@[q] == le_u32(inode_bytes(x), 12 + 4 * q));
            assert(y.direct@[q] == le_u32(inode_bytes(y), 12 + 4 * q));
        }
    }
    let dx = x.device_inode_id as u64;
    let dy = y.device_inode_id as u64;
    assert(dx == dy) by (bit_vector)
        requires
            (dx & 0xffff_ffff) as u32 == (dy & 0xffff_ffff) as u32,
            (dx >> 32u64) as u32 == (dy >> 32u64) as u32,
    ;
    assert(x.type_ == y.type_);
}

} // verus!
