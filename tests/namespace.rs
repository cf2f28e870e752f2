use lfs::dir::{add_entry, find_entry, readdir, write_entry};
use lfs::error::FsError;
use lfs::imap::InodeDir;
use lfs::log::Log;
use lfs::recovery::{roll_forward, Segment};
use lfs::layout::SegmentMeta;

#[test]
fn directory_of_1100_entries() {
    let mut log = Log::new(4);
    let dir = log.new_inode().unwrap();
    let mut n = 0usize;
    for i in 0..1100u32 {
        let ino = log.new_inode().unwrap();
        let name = format!("file{}", i);
        n = add_entry(&mut log, dir, n, ino as u32, name.as_bytes()).unwrap();
    }
    assert_eq!(n, 1100);
    assert!(n * 260 > 12 * 4096);
    let entries = readdir(&log, dir, n);
    assert_eq!(entries.len(), 1100);
    let mut names: Vec<Vec<u8>> = entries.iter().map(|e| e.1.clone()).collect();
    names.sort();
    names.dedup();
    assert_eq!(names.len(), 1100);
    assert_eq!(entries[1099].1, b"file1099".to_vec());
    assert_eq!(find_entry(&log, dir, n, b"file77"), Some(77));
}

#[test]
fn duplicate_and_bad_names() {
    let mut log = Log::new(1);
    let dir = log.new_inode().unwrap();
    let n = add_entry(&mut log, dir, 0, 5, b"a").unwrap();
    assert_eq!(add_entry(&mut log, dir, n, 6, b"a"), Err(FsError::EntryExist));
    assert_eq!(add_entry(&mut log, dir, n, 6, b""), Err(FsError::InvalidName));
    assert_eq!(add_entry(&mut log, dir, n, 6, &[b'x'; 256]), Err(FsError::InvalidName));
}

#[test]
fn freed_slots_are_skipped() {
    let mut log = Log::new(1);
    let dir = log.new_inode().unwrap();
    let mut n = 0;
    for (i, name) in [b"a", b"b", b"c"].iter().enumerate() {
        n = add_entry(&mut log, dir, n, i as u32 + 1, *name).unwrap();
    }
    write_entry(&mut log, dir, 1, 0, b"b").unwrap();
    let names: Vec<Vec<u8>> = readdir(&log, dir, n).into_iter().map(|e| e.1).collect();
    assert_eq!(names, vec![b"a".to_vec(), b"c".to_vec()]);
    assert_eq!(find_entry(&log, dir, n, b"b"), None);
}

#[test]
fn inode_directory_updates() {
    let mut d = InodeDir::new();
    assert_eq!(d.lookup(3), None);
    d.update(3, 300);
    d.update(3, 301);
    d.update(0, 256);
    assert_eq!(d.lookup(3), Some(301));
    assert_eq!(d.lookup(0), Some(256));
    d.remove(3);
    assert_eq!(d.lookup(3), None);
    assert!(d.capacity() >= 4);
}

fn torn(imap: Vec<(u32, u32)>) -> Segment {
    Segment { meta: SegmentMeta { size: 0, inodes_num: 0, unused: 0 }, seg_imap: imap }
}

#[test]
fn recovery_replays_sealed_segments_in_order() {
    let mut d = InodeDir::new();
    d.update(1, 100);
    let segs = vec![
        Segment::seal(3, vec![(1, 300), (2, 301)]),
        Segment::seal(1, vec![(2, 400), (3, 401), (1, 0)]),
        torn(vec![(2, 999)]),
        Segment::seal(1, vec![(4, 500)]),
    ];
    let resume = roll_forward(&mut d, &segs, 0);
    assert_eq!(resume, 2);
    assert_eq!(d.lookup(1), None);
    assert_eq!(d.lookup(2), Some(400));
    assert_eq!(d.lookup(3), Some(401));
    assert_eq!(d.lookup(4), None);
}

#[test]
fn recovery_rejects_metadata_with_wrong_inode_count() {
    let mut d = InodeDir::new();
    let mut s = Segment::seal(1, vec![(7, 700)]);
    s.meta.inodes_num = 2;
    let resume = roll_forward(&mut d, &vec![Segment::seal(0, vec![(6, 600)]), s], 0);
    assert_eq!(resume, 1);
    assert_eq!(d.lookup(6), Some(600));
    assert_eq!(d.lookup(7), None);
}

#[test]
fn recovery_from_a_later_checkpoint_segment() {
    let mut d = InodeDir::new();
    let segs = vec![Segment::seal(1, vec![(1, 1)]), Segment::seal(1, vec![(2, 2)])];
    assert_eq!(roll_forward(&mut d, &segs, 1), 2);
    assert_eq!(d.lookup(1), None);
    assert_eq!(d.lookup(2), Some(2));
    assert_eq!(roll_forward(&mut d, &segs, 2), 2);
}

#[test]
fn checkpoint_then_roll_forward() {
    let mut d = InodeDir::new();
    d.update(0, 261);
    d.update(4, 300);
    d.update(9, 777);
    assert!(d.check_fits_disk());
    let snap = d.snapshot();
    assert_eq!(snap, vec![(0, 261), (4, 300), (9, 777)]);
    let mut recovered = InodeDir::new();
    let segs = vec![Segment::seal(2, snap), Segment::seal(1, vec![(4, 1300)]), torn(vec![(9, 1)])];
    assert_eq!(roll_forward(&mut recovered, &segs, 0), 2);
    assert_eq!(recovered.lookup(0), Some(261));
    assert_eq!(recovered.lookup(4), Some(1300));
    assert_eq!(recovered.lookup(9), Some(777));
}

#[test]
fn oversized_block_ids_do_not_fit_a_checkpoint() {
    let mut d = InodeDir::new();
    d.update(1, 0x1_0000_0000);
    assert!(!d.check_fits_disk());
}
