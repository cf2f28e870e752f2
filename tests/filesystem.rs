use lfs::error::FsError;
use lfs::fs::LogFileSystem;
use lfs::layout::FileType;

fn pattern(n: usize, seed: u8) -> Vec<u8> {
    (0..n).map(|i| (i as u8).wrapping_mul(13).wrapping_add(seed)).collect()
}

#[test]
fn write_5000_then_10_across_a_block_boundary() {
    let mut fs = LogFileSystem::create(128 * 1024 * 1024).unwrap();
    let a = fs.create_inode(b"a", FileType::File).unwrap();
    let first = pattern(5000, 1);
    let second = pattern(10, 77);
    fs.write(a, 0, &first).unwrap();
    fs.write(a, 4090, &second).unwrap();
    assert_eq!(fs.size(a), 5000);
    let got = fs.read(a, 0, 5010);
    assert_eq!(got.len(), 5000);
    let mut expected = first.clone();
    expected[4090..4100].copy_from_slice(&second);
    assert_eq!(got, expected);
    fs.write(a, 4996, &second).unwrap();
    assert_eq!(fs.size(a), 5006);
    let got = fs.read(a, 0, 5010);
    assert_eq!(got.len(), 5006);
    expected.truncate(4996);
    expected.extend_from_slice(&second);
    assert_eq!(got, expected);
    assert_eq!(&got[5000..5006], &second[4..10]);
}

#[test]
fn readdir_after_1100_one_byte_files() {
    let mut fs = LogFileSystem::create(128 * 1024 * 1024).unwrap();
    for i in 0..1100 {
        let name = format!("f{}", i);
        let ino = fs.create_inode(name.as_bytes(), FileType::File).unwrap();
        fs.write(ino, 0, &[i as u8]).unwrap();
    }
    let list = fs.list();
    assert_eq!(list.len(), 1100);
    let mut names: Vec<Vec<u8>> = list.iter().map(|e| e.1.clone()).collect();
    names.sort();
    names.dedup();
    assert_eq!(names.len(), 1100);
    let ino = fs.lookup(b"f1050").unwrap();
    assert_eq!(fs.read(ino, 0, 10), vec![(1050 % 256) as u8]);
}

#[test]
fn lookup_and_unlink() {
    let mut fs = LogFileSystem::create(16 * 1024 * 1024).unwrap();
    let x = fs.create_inode(b"x", FileType::File).unwrap();
    fs.write(x, 0, b"hello").unwrap();
    assert_eq!(fs.lookup(b"x"), Ok(x));
    assert_eq!(fs.create_inode(b"x", FileType::File), Err(FsError::EntryExist));
    assert_eq!(fs.lookup(b"y"), Err(FsError::NotFound));
    assert_eq!(fs.unlink(b"y"), Err(FsError::NotFound));
    fs.unlink(b"x").unwrap();
    assert_eq!(fs.lookup(b"x"), Err(FsError::NotFound));
    assert_eq!(fs.read(x, 0, 5), Vec::<u8>::new());
    assert!(fs.list().is_empty());
    assert_eq!(fs.write(0, 0, b"no"), Err(FsError::IsADirectory));
}

#[test]
fn too_small_for_a_file_system() {
    assert!(matches!(LogFileSystem::create(4 * 1024 * 1024), Err(FsError::OutOfSpace)));
    assert!(LogFileSystem::create((256 + 2 * 1024) * 4096).is_ok());
}

#[test]
fn fill_delete_half_clean_and_write_again() {
    let mut fs = LogFileSystem::create((256 + 3 * 1024) * 4096).unwrap();
    let mut names = Vec::new();
    let block = vec![5u8; 4096];
    let err = loop {
        let name = format!("n{}", names.len());
        let ino = match fs.create_inode(name.as_bytes(), FileType::File) {
            Ok(i) => i,
            Err(e) => break e,
        };
        if let Err(e) = fs.write(ino, 0, &block) {
            break e;
        }
        names.push(name);
    };
    assert_eq!(err, FsError::OutOfSpace);
    assert!(names.len() > 500);
    for name in names.iter().step_by(2) {
        if let Err(e) = fs.unlink(name.as_bytes()) {
            assert_eq!(e, FsError::OutOfSpace);
            assert!(matches!(fs.reclaim(), Ok(Some(_))));
            fs.unlink(name.as_bytes()).unwrap();
        }
    }
    let mut cleaned = 0;
    while let Ok(Some(_)) = fs.reclaim() {
        cleaned += 1;
        if cleaned == 2 {
            break;
        }
    }
    assert!(cleaned >= 1);
    for name in names.iter().skip(1).step_by(2).take(50) {
        let ino = fs.lookup(name.as_bytes()).unwrap();
        assert_eq!(fs.read(ino, 0, 4096), block);
    }
    let fresh = fs.create_inode(b"fresh", FileType::File).unwrap();
    fs.write(fresh, 0, b"new data").unwrap();
    assert_eq!(fs.read(fresh, 0, 100), b"new data".to_vec());
}

#[test]
fn checkpoint_counters() {
    let mut fs = LogFileSystem::create(128 * 1024 * 1024).unwrap();
    let a = fs.create_inode(b"a", FileType::File).unwrap();
    fs.write(a, 0, &pattern(5000, 3)).unwrap();
    let (sb, cr) = fs.checkpoint().unwrap();
    assert!(sb.check());
    assert_eq!(sb.blocks, 256 + 31 * 1024);
    assert_eq!(sb.n_segment, 31);
    assert_eq!(sb.current_seg_id, 0);
    assert_eq!(sb.next_ino_number, 2);
    assert_eq!(sb.unused_blocks, 31 * 1019 - 3);
    assert_eq!(sb.info.text(), b"log file system".to_vec());
    assert_eq!(cr.inodes_num, 2);
    let bytes = lfs::codec::AsBuf::as_buf(&sb);
    let back = lfs::codec::decode_super(&bytes).unwrap();
    assert_eq!(back.unused_blocks, sb.unused_blocks);
}
