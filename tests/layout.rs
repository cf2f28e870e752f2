use lfs::addr::{block_index, block_seg, blocks_for_size, locate, seg_block, BlockSlot};
use lfs::codec::{
    decode_check_region, decode_entry, decode_inode, decode_meta, decode_summary, decode_super, AsBuf,
};
use lfs::dirty::Dirty;
use lfs::error::FsError;
use lfs::layout::{
    CheckRegion, DiskEntry, DiskINode, FileType, SegmentMeta, Str256, Str32, SummaryEntry, SuperBlock, MAGIC, NODEVICE,
};

fn superblock(magic: u32) -> SuperBlock {
    SuperBlock {
        magic,
        blocks: 32768,
        unused_blocks: 30000,
        info: Str32::from_bytes(b"log file system").unwrap(),
        current_seg_id: 3,
        next_ino_number: 17,
        n_segment: 31,
    }
}

#[test]
fn superblock_check_tests_magic() {
    assert!(superblock(MAGIC).check());
    assert!(!superblock(0).check());
}

#[test]
fn new_inodes_are_empty() {
    let f = DiskINode::new_file();
    assert_eq!(f.type_, FileType::File);
    assert_eq!((f.size, f.nlinks, f.blocks, f.indirect, f.db_indirect), (0, 0, 0, 0, 0));
    assert_eq!(f.direct, [0u32; 12]);
    assert_eq!(f.device_inode_id, NODEVICE);
    assert_eq!(DiskINode::new_dir().type_, FileType::Dir);
    assert_eq!(DiskINode::new_symlink().type_, FileType::SymLink);
    let c = DiskINode::new_chardevice(7);
    assert_eq!(c.type_, FileType::CharDevice);
    assert_eq!(c.device_inode_id, 7);
}

#[test]
fn file_type_codes() {
    assert_eq!(FileType::BlockDevice.code(), 5);
    assert_eq!(FileType::from_code(2), Some(FileType::Dir));
    assert_eq!(FileType::from_code(6), None);
}

#[test]
fn padded_strings() {
    let s = Str32::from_bytes(b"log file system").unwrap();
    assert_eq!(s.text(), b"log file system".to_vec());
    assert_eq!(s.0[15], 0);
    assert!(Str32::from_bytes(&[b'a'; 31]).is_some());
    assert!(Str32::from_bytes(&[b'a'; 32]).is_none());
    assert!(Str32::from_bytes(b"a\0b").is_none());
    let n = Str256::from_bytes(&[b'x'; 255]).unwrap();
    assert_eq!(n.text().len(), 255);
    assert!(Str256::from_bytes(&[b'x'; 256]).is_none());
}

#[test]
fn segment_block_addresses() {
    assert_eq!(seg_block(0, 0), 256);
    assert_eq!(seg_block(2, 5), 256 + 2048 + 5);
    assert_eq!(block_seg(256 + 2048 + 5), Some((2, 5)));
    assert_eq!(block_seg(255), None);
}

#[test]
fn pointer_slots_of_logical_blocks() {
    assert_eq!(locate(11), Ok(BlockSlot::Direct(11)));
    assert_eq!(locate(12), Ok(BlockSlot::Indirect(0)));
    assert_eq!(locate(1035), Ok(BlockSlot::Indirect(1023)));
    assert_eq!(locate(1036), Ok(BlockSlot::DoubleIndirect(0, 0)));
    assert_eq!(locate(1036 + 1024 * 3 + 5), Ok(BlockSlot::DoubleIndirect(3, 5)));
    assert_eq!(locate(1049611), Ok(BlockSlot::DoubleIndirect(1023, 1023)));
    assert_eq!(locate(1049612), Err(FsError::FileTooLarge));
}

#[test]
fn byte_offsets_to_blocks() {
    assert_eq!(block_index(4095), Ok(0));
    assert_eq!(block_index(4096), Ok(1));
    assert_eq!(block_index(0xffff_ffff), Ok(0xfffff));
    assert_eq!(block_index(0x1_0000_0000), Err(FsError::FileTooLarge));
    assert_eq!(blocks_for_size(0), 0);
    assert_eq!(blocks_for_size(1), 1);
    assert_eq!(blocks_for_size(8192), 2);
    assert_eq!(blocks_for_size(u32::MAX), 1 << 20);
}

#[test]
fn meta_encoding_round_trips() {
    let m = SegmentMeta { size: 0x01020304, inodes_num: 9, unused: MAGIC };
    let b = m.as_buf();
    assert_eq!(b[..4], [4, 3, 2, 1]);
    assert_eq!(decode_meta(&b), Ok(m));
    assert_eq!(decode_meta(&b[..11]), Err(FsError::CorruptedLayout));
}

#[test]
fn summary_encoding_keeps_sentinels() {
    let e = SummaryEntry { inode_id: -1, entry_id: -2 };
    let b = e.as_buf();
    assert_eq!(b, vec![0xff, 0xff, 0xff, 0xff, 0xfe, 0xff, 0xff, 0xff]);
    assert_eq!(decode_summary(&b), Ok(e));
}

#[test]
fn superblock_encoding_round_trips() {
    let s = superblock(MAGIC);
    let b = s.as_buf();
    assert_eq!(b.len(), 56);
    let d = decode_super(&b).unwrap();
    assert_eq!(d.as_buf(), b);
    assert_eq!(d.next_ino_number, 17);
    assert_eq!(d.info.text(), b"log file system".to_vec());
    let mut bad = b.clone();
    bad[0] ^= 1;
    assert!(matches!(decode_super(&bad), Err(FsError::CorruptedSuperblock)));
    assert!(matches!(decode_super(&b[..55]), Err(FsError::CorruptedLayout)));
}

#[test]
fn dirty_flag_follows_changes() {
    let mut d = Dirty::new(5u32);
    assert!(!d.is_dirty());
    d.set(6);
    assert!(d.is_dirty());
    assert_eq!(*d.get(), 6);
    d.mark_clean();
    assert!(!d.is_dirty());
    d.mark_dirty();
    assert!(d.is_dirty());
    assert!(Dirty::new_dirty(1u8).is_dirty());
}

#[test]
fn directory_entry_and_checkpoint_encoding() {
    let e = DiskEntry { id: 0x0a0b0c0d, name: Str256::from_bytes(b"hello").unwrap() };
    let b = e.as_buf();
    assert_eq!(b.len(), 260);
    assert_eq!(b[..9], [0x0d, 0x0c, 0x0b, 0x0a, b'h', b'e', b'l', b'l', b'o']);
    assert!(b[9..].iter().all(|&x| x == 0));
    assert_eq!(CheckRegion { inodes_num: 258 }.as_buf(), vec![2, 1, 0, 0]);
}

#[test]
fn inode_encoding_round_trips() {
    let mut n = DiskINode::new_chardevice(0x1_0000_0002);
    n.size = 5000;
    n.nlinks = 2;
    n.blocks = 2;
    n.direct[0] = 261;
    n.direct[11] = 9999;
    n.indirect = 300;
    let b = n.as_buf();
    assert_eq!(b.len(), 76);
    assert_eq!(b[4..6], [4, 0]);
    let d = decode_inode(&b).unwrap();
    assert_eq!(d.as_buf(), b);
    assert_eq!(d.type_, FileType::CharDevice);
    assert_eq!(d.device_inode_id, 0x1_0000_0002);
    assert_eq!(d.direct[11], 9999);
    let mut bad = b.clone();
    bad[4] = 6;
    assert!(matches!(decode_inode(&bad), Err(FsError::CorruptedLayout)));
    assert!(matches!(decode_inode(&b[..75]), Err(FsError::CorruptedLayout)));
}

#[test]
fn entry_and_checkpoint_decoding() {
    let e = DiskEntry { id: 42, name: Str256::from_bytes(b"notes.txt").unwrap() };
    let b = e.as_buf();
    let d = decode_entry(&b).unwrap();
    assert_eq!(d.id, 42);
    assert_eq!(d.name.text(), b"notes.txt".to_vec());
    assert_eq!(d.as_buf(), b);
    assert!(matches!(decode_entry(&b[..259]), Err(FsError::CorruptedLayout)));
    let c = decode_check_region(&[2, 1, 0, 0, 9]).unwrap();
    assert_eq!(c.inodes_num, 258);
    assert!(matches!(decode_check_region(&[1, 2, 3]), Err(FsError::CorruptedLayout)));
}
