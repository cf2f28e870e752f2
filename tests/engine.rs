use lfs::addr::segments_for_capacity;
use lfs::error::FsError;
use lfs::file::{read_at, write_at};
use lfs::log::Log;

fn pattern(n: usize, seed: u8) -> Vec<u8> {
    (0..n).map(|i| (i as u8).wrapping_mul(31).wrapping_add(seed) | 1).collect()
}

#[test]
fn capacity_of_128_mib() {
    assert_eq!(segments_for_capacity(128 * 1024 * 1024), 31);
    assert_eq!(segments_for_capacity(4096 * 255), 0);
}

#[test]
fn overlapping_writes_resolve_by_offset() {
    let mut log = Log::new(segments_for_capacity(128 * 1024 * 1024));
    let ino = log.new_inode().unwrap();
    let first = pattern(5000, 7);
    let second = pattern(10, 200);
    write_at(&mut log, ino, 0, &first).unwrap();
    write_at(&mut log, ino, 4090, &second).unwrap();
    let got = read_at(&log, ino, 0, 5010);
    let mut expected = first.clone();
    expected.extend_from_slice(&[0u8; 10]);
    expected[4090..4100].copy_from_slice(&second);
    assert_eq!(got.len(), 5010);
    assert_eq!(got, expected);
    assert_eq!(&got[5000..5006], &expected[5000..5006]);
}

#[test]
fn round_trip_across_indirect_boundaries() {
    let mut log = Log::new(4);
    let ino = log.new_inode().unwrap();
    let a = pattern(8192, 3);
    write_at(&mut log, ino, 11 * 4096 + 100, &a).unwrap();
    assert_eq!(read_at(&log, ino, 11 * 4096 + 100, 8192), a);
    let b = pattern(6000, 9);
    write_at(&mut log, ino, 1035 * 4096 + 1000, &b).unwrap();
    assert_eq!(read_at(&log, ino, 1035 * 4096 + 1000, 6000), b);
    assert_eq!(read_at(&log, ino, 11 * 4096 + 100, 8192), a);
}

#[test]
fn holes_read_as_zeros() {
    let mut log = Log::new(1);
    let ino = log.new_inode().unwrap();
    write_at(&mut log, ino, 10000, &[9u8, 8, 7]).unwrap();
    assert_eq!(read_at(&log, ino, 9998, 5), vec![0, 0, 9, 8, 7]);
}

#[test]
fn write_past_size_field_is_too_large() {
    let mut log = Log::new(1);
    let ino = log.new_inode().unwrap();
    assert_eq!(write_at(&mut log, ino, 0xffff_fffe, &[1, 2]), Err(FsError::FileTooLarge));
    assert_eq!(write_at(&mut log, ino, 0xffff_fffd, &[1, 2]), Ok(()));
}

#[test]
fn rewriting_a_block_leaves_one_live_entry() {
    let mut log = Log::new(2);
    let ino = log.new_inode().unwrap();
    for round in 0..5u8 {
        log.write_block(ino, 3, vec![round; 4096]).unwrap();
    }
    let live: Vec<usize> = (0..2 * 1019)
        .filter(|&g| {
            let e = log.summary_entry(g);
            e.entry_id >= 0 && e.inode_id == ino as i32 && e.entry_id == 3
        })
        .collect();
    assert_eq!(live.len(), 1);
    assert_eq!(live[0], 4);
    assert_eq!(log.read_block(ino, 3), Some(vec![4u8; 4096]));
    assert_eq!(log.live_blocks(0), 1);
}

#[test]
fn exhaust_clean_and_reuse() {
    let mut log = Log::new(3);
    let mut files = Vec::new();
    let err = loop {
        let ino = log.new_inode().unwrap();
        match log.write_block(ino, 0, vec![ino as u8; 4096]) {
            Ok(()) => files.push(ino),
            Err(e) => break e,
        }
    };
    assert_eq!(err, FsError::OutOfSpace);
    assert_eq!(files.len(), 2 * 1019);
    for ino in files.iter().filter(|&&i| i % 2 == 0) {
        log.release(*ino);
    }
    let victim = log.select_victim().unwrap();
    assert_ne!(victim, log.current());
    log.clean(victim).unwrap();
    assert!(log.is_free(victim));
    assert_eq!(log.live_blocks(victim), 0);
    for ino in files.iter() {
        let expect = if ino % 2 == 0 { None } else { Some(vec![*ino as u8; 4096]) };
        assert_eq!(log.read_block(*ino, 0), expect);
    }
    let fresh = log.new_inode().unwrap();
    assert_eq!(log.write_block(fresh, 0, vec![1u8; 4096]), Ok(()));
    assert_eq!(log.read_block(fresh, 0), Some(vec![1u8; 4096]));
}
