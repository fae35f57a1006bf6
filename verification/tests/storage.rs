use rexfs::bytecopy::copy_memory;
use rexfs::filesystem::{FileSystem, StorageError};
use rexfs::mock_filesystem::{MockFile, MockFileSystem};

fn read_exact(h: &mut MockFile, fs: &MockFileSystem, request: usize) -> (usize, Vec<u8>) {
    let mut buf = vec![0u8; request];
    let n = h.read(fs, &mut buf).unwrap();
    buf.truncate(n);
    (n, buf)
}

#[test]
fn open_on_missing_path_is_not_found() {
    let fs = MockFileSystem::new();
    assert_eq!(fs.open("nope").err().unwrap(), StorageError::NotFound);
}

#[test]
fn put_then_open_then_full_read_yields_seeded_bytes() {
    let mut fs = MockFileSystem::new();
    fs.put("fixture", vec![7, 8, 9, 10]);
    let mut h = fs.open("fixture").unwrap();
    let (n, bytes) = read_exact(&mut h, &fs, 4);
    assert_eq!(n, 4);
    assert_eq!(bytes, vec![7, 8, 9, 10]);
    let (n2, _) = read_exact(&mut h, &fs, 4);
    assert_eq!(n2, 0);
}

#[test]
fn save_succeeds_exactly_once_before_extraction() {
    let mut fs = MockFileSystem::new();
    assert!(fs.save("a").is_ok());
    assert_eq!(fs.save("a").err().unwrap(), StorageError::AlreadyExists);
    assert_eq!(fs.save("a").err().unwrap(), StorageError::AlreadyExists);
    fs.get_inner("a").unwrap();
    assert!(fs.save("a").is_ok());
}

#[test]
fn write_write_extract_round_trips_in_order() {
    let mut fs = MockFileSystem::new();
    let mut h = fs.save("round").unwrap();
    assert_eq!(h.write(&mut fs, &[1, 2, 3]), 3);
    assert_eq!(h.write(&mut fs, &[4, 5]), 2);
    h.flush();
    assert_eq!(fs.get_inner("round").unwrap(), vec![1, 2, 3, 4, 5]);
}

#[test]
fn scenario_create_a_write_then_extract() {
    let mut fs = MockFileSystem::new();
    let mut h = fs.save("a").unwrap();
    h.write(&mut fs, &[1, 2, 3]);
    h.write(&mut fs, &[4, 5]);
    assert_eq!(fs.get_inner("a").unwrap(), vec![1, 2, 3, 4, 5]);
}

#[test]
fn scenario_seed_b_read_in_chunks() {
    let mut fs = MockFileSystem::new();
    fs.put("b", vec![10, 20, 30]);
    let mut h = fs.open("b").unwrap();
    let (n, bytes) = read_exact(&mut h, &fs, 2);
    assert_eq!(n, 2);
    assert_eq!(bytes, vec![10, 20]);
    let (n, bytes) = read_exact(&mut h, &fs, 10);
    assert_eq!(n, 1);
    assert_eq!(bytes, vec![30]);
    let (n, _) = read_exact(&mut h, &fs, 1);
    assert_eq!(n, 0);
}

#[test]
fn partial_reads_return_request_then_remainder_then_zero() {
    let mut fs = MockFileSystem::new();
    fs.put("p", vec![0, 1, 2, 3, 4, 5, 6, 7, 8, 9]);
    let mut h = fs.open("p").unwrap();
    let (n, bytes) = read_exact(&mut h, &fs, 4);
    assert_eq!((n, bytes), (4, vec![0, 1, 2, 3]));
    let (n, bytes) = read_exact(&mut h, &fs, 4);
    assert_eq!((n, bytes), (4, vec![4, 5, 6, 7]));
    let (n, bytes) = read_exact(&mut h, &fs, 4);
    assert_eq!((n, bytes), (2, vec![8, 9]));
    let (n, bytes) = read_exact(&mut h, &fs, 4);
    assert_eq!((n, bytes), (0, vec![]));
}

#[test]
fn empty_request_reads_zero_bytes() {
    let mut fs = MockFileSystem::new();
    fs.put("e", vec![1, 2]);
    let mut h = fs.open("e").unwrap();
    let (n, _) = read_exact(&mut h, &fs, 0);
    assert_eq!(n, 0);
    let (n, bytes) = read_exact(&mut h, &fs, 2);
    assert_eq!((n, bytes), (2, vec![1, 2]));
}

#[test]
fn writes_appended_after_open_are_visible_to_the_reader() {
    let mut fs = MockFileSystem::new();
    let mut w = fs.save("shared").unwrap();
    w.write(&mut fs, &[1]);
    let mut r = fs.open("shared").unwrap();
    let (n, bytes) = read_exact(&mut r, &fs, 8);
    assert_eq!((n, bytes), (1, vec![1]));
    w.write(&mut fs, &[2, 3]);
    let (n, bytes) = read_exact(&mut r, &fs, 8);
    assert_eq!((n, bytes), (2, vec![2, 3]));
}

#[test]
fn writing_an_empty_slice_accepts_zero_bytes() {
    let mut fs = MockFileSystem::new();
    let mut h = fs.save("empty").unwrap();
    assert_eq!(h.write(&mut fs, &[]), 0);
    assert_eq!(fs.get_inner("empty").unwrap(), Vec::<u8>::new());
}

#[test]
fn put_replaces_an_existing_buffer() {
    let mut fs = MockFileSystem::new();
    fs.put("a", vec![1]);
    fs.put("a", vec![2, 3]);
    let mut h = fs.open("a").unwrap();
    let (n, bytes) = read_exact(&mut h, &fs, 8);
    assert_eq!((n, bytes), (2, vec![2, 3]));
}

#[test]
fn extracting_a_missing_path_is_not_found() {
    let mut fs = MockFileSystem::new();
    assert_eq!(fs.get_inner("gone").err().unwrap(), StorageError::NotFound);
}

#[test]
fn reading_through_a_handle_after_extraction_is_not_found() {
    let mut fs = MockFileSystem::new();
    fs.put("x", vec![1, 2]);
    let mut h = fs.open("x").unwrap();
    fs.get_inner("x").unwrap();
    let mut buf = vec![0u8; 2];
    assert_eq!(h.read(&fs, &mut buf).err().unwrap(), StorageError::NotFound);
}

#[test]
fn a_cursor_beyond_the_buffer_is_fatal() {
    let mut fs = MockFileSystem::new();
    fs.put("x", vec![1, 2, 3]);
    let mut h = fs.open("x").unwrap();
    let (n, _) = read_exact(&mut h, &fs, 3);
    assert_eq!(n, 3);
    fs.get_inner("x").unwrap();
    fs.put("x", vec![9]);
    let mut buf = vec![0u8; 1];
    assert_eq!(h.read(&fs, &mut buf).err().unwrap(), StorageError::Fatal);
}

#[test]
fn distinct_paths_keep_distinct_buffers() {
    let mut fs = MockFileSystem::new();
    let mut a = fs.save("a").unwrap();
    let mut b = fs.save("b").unwrap();
    a.write(&mut fs, &[1]);
    b.write(&mut fs, &[2]);
    a.write(&mut fs, &[3]);
    assert_eq!(fs.get_inner("a").unwrap(), vec![1, 3]);
    assert_eq!(fs.get_inner("b").unwrap(), vec![2]);
}

#[test]
fn copy_memory_copies_a_run_and_leaves_the_rest() {
    let src = vec![1u8, 2, 3, 4, 5];
    let mut dst = vec![0u8; 6];
    copy_memory(&src, 1, &mut dst, 2, 3);
    assert_eq!(dst, vec![0, 0, 2, 3, 4, 0]);
    let mut all = vec![9u8; 5];
    copy_memory(&src, 0, &mut all, 0, 5);
    assert_eq!(all, src);
}

fn open_through_interface<FS: FileSystem>(fs: &FS, path: &str) -> Result<FS::FSRead, StorageError> {
    fs.open(path)
}

#[test]
fn the_capability_interface_reaches_the_mock_backend() {
    let mut fs = MockFileSystem::new();
    fs.put("via-trait", vec![42]);
    assert!(open_through_interface(&fs, "via-trait").is_ok());
    assert!(matches!(
        open_through_interface(&fs, "absent"),
        Err(StorageError::NotFound)
    ));
}
