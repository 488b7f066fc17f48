use uv_wasm::error::ErrorKind;
use uv_wasm::file::{File, OpenOptions, SeekFrom, TryLockError};
use uv_wasm::fs::{
    canonicalize, copy, create_dir_all, hard_link, metadata, read, read_dir, read_link,
    read_to_string, remove_dir_all, remove_file, rename, symlink, symlink_metadata,
};
use uv_wasm::locks::AdvisoryLocks;
use uv_wasm::memory::MemoryFs;

fn fresh() -> (MemoryFs, AdvisoryLocks) {
    let mut fs = MemoryFs::new();
    create_dir_all(&mut fs, "/work").expect("create root");
    (fs, AdvisoryLocks::new())
}

#[test]
fn writes_and_reads_bytes() {
    let (mut fs, _) = fresh();
    uv_wasm::fs::write(&mut fs, "/work/a.txt", b"hello").expect("write");
    assert_eq!(read(&fs, "/work/a.txt").expect("read"), b"hello");
}

#[test]
fn tests_reads_text() {
    let (mut fs, _) = fresh();
    uv_wasm::fs::write(&mut fs, "/work/a.txt", "hello".as_bytes()).expect("write");
    assert_eq!(read_to_string(&fs, "/work/a.txt").expect("read"), "hello");
}

#[test]
fn copies_a_file_and_reports_the_size() {
    let (mut fs, _) = fresh();
    uv_wasm::fs::write(&mut fs, "/work/a.txt", b"hello").expect("write");
    assert_eq!(copy(&mut fs, "/work/a.txt", "/work/b.txt").expect("copy"), 5);
    assert_eq!(read(&fs, "/work/b.txt").expect("read"), b"hello");
}

#[test]
fn renames_a_file() {
    let (mut fs, _) = fresh();
    uv_wasm::fs::write(&mut fs, "/work/a.txt", b"hello").expect("write");
    rename(&mut fs, "/work/a.txt", "/work/b.txt").expect("rename");
    assert!(read(&fs, "/work/a.txt").is_err());
    assert_eq!(read(&fs, "/work/b.txt").expect("read"), b"hello");
}

#[test]
fn removes_a_file() {
    let (mut fs, _) = fresh();
    uv_wasm::fs::write(&mut fs, "/work/a.txt", b"hello").expect("write");
    remove_file(&mut fs, "/work/a.txt").expect("remove");
    assert!(read(&fs, "/work/a.txt").is_err());
}

#[test]
fn removes_a_tree() {
    let (mut fs, _) = fresh();
    create_dir_all(&mut fs, "/work/nested/deep").expect("create");
    uv_wasm::fs::write(&mut fs, "/work/nested/deep/a.txt", b"x").expect("write");
    remove_dir_all(&mut fs, "/work/nested").expect("remove");
    assert!(metadata(&fs, "/work/nested").is_err());
}

#[test]
fn reports_metadata() {
    let (mut fs, _) = fresh();
    uv_wasm::fs::write(&mut fs, "/work/a.txt", b"hello").expect("write");
    let info = metadata(&fs, "/work/a.txt").expect("metadata");
    assert!(info.is_file());
    assert!(!info.is_dir());
    assert_eq!(info.len(), 5);
    assert!(!info.is_empty());
    assert!(info.modified().is_ok());
    assert!(info.file_type().is_file());
    assert!(!info.permissions().readonly());
}

#[test]
fn an_empty_file_reports_itself_as_empty() {
    let (mut fs, _) = fresh();
    uv_wasm::fs::write(&mut fs, "/work/a.txt", b"").expect("write");
    assert!(metadata(&fs, "/work/a.txt").expect("metadata").is_empty());
}

#[test]
fn lists_a_directory() {
    let (mut fs, _) = fresh();
    uv_wasm::fs::write(&mut fs, "/work/a.txt", b"x").expect("write");
    uv_wasm::fs::write(&mut fs, "/work/b.txt", b"y").expect("write");
    let mut listing = read_dir(&fs, "/work").expect("read_dir");
    let mut names: Vec<String> = Vec::new();
    while let Some(entry) = listing.next() {
        names.push(entry.expect("entry").file_name());
    }
    names.sort();
    assert_eq!(names, vec!["a.txt", "b.txt"]);
}

#[test]
fn directory_entries_carry_their_path_and_kind() {
    let (mut fs, _) = fresh();
    uv_wasm::fs::write(&mut fs, "/work/a.txt", b"x").expect("write");
    let entry = read_dir(&fs, "/work").expect("read_dir").next().expect("one entry").expect("ok");
    assert_eq!(entry.path(), "/work/a.txt");
    assert!(entry.file_type().expect("file type").is_file());
    assert_eq!(entry.metadata(&fs).expect("metadata").len(), 1);
}

#[test]
fn symlinks_round_trip() {
    let (mut fs, _) = fresh();
    uv_wasm::fs::write(&mut fs, "/work/a.txt", b"hello").expect("write");
    symlink(&mut fs, "/work/a.txt", "/work/link").expect("symlink");
    assert_eq!(read(&fs, "/work/link").expect("read"), b"hello");
    assert_eq!(read_link(&fs, "/work/link").expect("read_link"), "/work/a.txt");
    assert!(symlink_metadata(&fs, "/work/link").expect("metadata").is_symlink());
}

#[test]
fn canonicalize_normalises_an_existing_path() {
    let (mut fs, _) = fresh();
    uv_wasm::fs::write(&mut fs, "/work/a.txt", b"x").expect("write");
    assert_eq!(canonicalize(&fs, "/work/./a.txt").expect("canonicalize"), "/work/a.txt");
}

#[test]
fn canonicalize_rejects_a_missing_path() {
    let (fs, _) = fresh();
    assert!(canonicalize(&fs, "/work/missing").is_err());
}

#[test]
fn hard_links_are_reported_as_unsupported() {
    let (mut fs, _) = fresh();
    uv_wasm::fs::write(&mut fs, "/work/a.txt", b"x").expect("write");
    let error = hard_link(&fs, "/work/a.txt", "/work/b.txt").expect_err("should fail");
    assert_eq!(error.kind(), ErrorKind::Unsupported);
}

#[test]
fn creating_a_file_truncates_an_existing_one() {
    let (mut fs, mut locks) = fresh();
    uv_wasm::fs::write(&mut fs, "/work/a.txt", b"original").expect("write");
    {
        let mut file = File::create(&mut fs, "/work/a.txt").expect("create");
        file.write_all(b"new").expect("write");
        file.close(&mut fs, &mut locks);
    }
    assert_eq!(read(&fs, "/work/a.txt").expect("read"), b"new");
}

#[test]
fn opening_a_missing_file_for_reading_fails() {
    let (mut fs, _) = fresh();
    assert!(File::open(&mut fs, "/work/missing").is_err());
}

#[test]
fn a_file_reads_back_through_the_reader() {
    let (mut fs, _) = fresh();
    uv_wasm::fs::write(&mut fs, "/work/a.txt", b"hello world").expect("write");
    let mut file = File::open(&mut fs, "/work/a.txt").expect("open");
    let text = file.read_to_string().expect("read");
    assert_eq!(text, "hello world");
}

#[test]
fn seeking_moves_the_cursor() {
    let (mut fs, _) = fresh();
    uv_wasm::fs::write(&mut fs, "/work/a.txt", b"hello world").expect("write");
    let mut file = File::open(&mut fs, "/work/a.txt").expect("open");
    file.seek(SeekFrom::Start(6)).expect("seek");
    let text = file.read_to_string().expect("read");
    assert_eq!(text, "world");
}

#[test]
fn seeking_from_the_end_works() {
    let (mut fs, _) = fresh();
    uv_wasm::fs::write(&mut fs, "/work/a.txt", b"hello").expect("write");
    let mut file = File::open(&mut fs, "/work/a.txt").expect("open");
    assert_eq!(file.seek(SeekFrom::End(-2)).expect("seek"), 3);
}

#[test]
fn seeking_before_the_start_fails() {
    let (mut fs, _) = fresh();
    uv_wasm::fs::write(&mut fs, "/work/a.txt", b"hello").expect("write");
    let mut file = File::open(&mut fs, "/work/a.txt").expect("open");
    assert!(file.seek(SeekFrom::Current(-10)).is_err());
}

#[test]
fn writing_to_a_read_only_handle_fails() {
    let (mut fs, _) = fresh();
    uv_wasm::fs::write(&mut fs, "/work/a.txt", b"hello").expect("write");
    let mut file = File::open(&mut fs, "/work/a.txt").expect("open");
    assert!(file.write_all(b"x").is_err());
}

#[test]
fn append_mode_starts_at_the_end() {
    let (mut fs, mut locks) = fresh();
    uv_wasm::fs::write(&mut fs, "/work/a.txt", b"hello").expect("write");
    {
        let mut file =
            OpenOptions::new().append(true).open(&mut fs, "/work/a.txt").expect("open for append");
        file.write_all(b" world").expect("append");
        file.close(&mut fs, &mut locks);
    }
    assert_eq!(read_to_string(&fs, "/work/a.txt").expect("read"), "hello world");
}

#[test]
fn create_new_refuses_an_existing_file() {
    let (mut fs, _) = fresh();
    uv_wasm::fs::write(&mut fs, "/work/a.txt", b"hello").expect("write");
    let error =
        OpenOptions::new().create_new(true).open(&mut fs, "/work/a.txt").expect_err("should fail");
    assert_eq!(error.kind(), ErrorKind::AlreadyExists);
}

#[test]
fn truncating_discards_previous_contents() {
    let (mut fs, mut locks) = fresh();
    uv_wasm::fs::write(&mut fs, "/work/a.txt", b"hello").expect("write");
    {
        let file =
            OpenOptions::new().write(true).truncate(true).open(&mut fs, "/work/a.txt").expect("open");
        file.close(&mut fs, &mut locks);
    }
    assert_eq!(read(&fs, "/work/a.txt").expect("read"), b"");
}

#[test]
fn set_len_resizes_the_file() {
    let (mut fs, mut locks) = fresh();
    uv_wasm::fs::write(&mut fs, "/work/a.txt", b"hello").expect("write");
    let mut file = OpenOptions::new().write(true).open(&mut fs, "/work/a.txt").expect("open");
    file.set_len(&mut fs, 2).expect("set_len");
    file.close(&mut fs, &mut locks);
    assert_eq!(read(&fs, "/work/a.txt").expect("read"), b"he");
}

#[test]
fn a_file_knows_its_own_path_and_metadata() {
    let (mut fs, _) = fresh();
    uv_wasm::fs::write(&mut fs, "/work/a.txt", b"hello").expect("write");
    let file = File::open(&mut fs, "/work/a.txt").expect("open");
    assert_eq!(file.path(), "/work/a.txt");
    assert_eq!(file.metadata(&fs).expect("metadata").len(), 5);
}

#[test]
fn dropping_a_writer_flushes_it() {
    let (mut fs, mut locks) = fresh();
    {
        let mut file = File::create(&mut fs, "/work/a.txt").expect("create");
        file.write_all(b"flushed").expect("write");
        file.close(&mut fs, &mut locks);
    }
    assert_eq!(read(&fs, "/work/a.txt").expect("read"), b"flushed");
}

#[test]
fn syncing_persists_without_dropping() {
    let (mut fs, _) = fresh();
    let mut file = File::create(&mut fs, "/work/a.txt").expect("create");
    file.write_all(b"synced").expect("write");
    file.sync_all(&mut fs).expect("sync");
    assert_eq!(read(&fs, "/work/a.txt").expect("read"), b"synced");
}

#[test]
fn a_files_permissions_report_a_posix_mode() {
    let (mut fs, _) = fresh();
    uv_wasm::fs::write(&mut fs, "/work/a.txt", b"hello").expect("write");
    assert_eq!(metadata(&fs, "/work/a.txt").expect("metadata").permissions().mode(), 0o644);
}

#[test]
fn a_directorys_permissions_report_a_traversable_mode() {
    let (fs, _) = fresh();
    assert_eq!(metadata(&fs, "/work").expect("metadata").permissions().mode(), 0o755);
}

#[test]
fn setting_a_mode_is_remembered_by_the_handle() {
    let (fs, _) = fresh();
    let mut permissions = metadata(&fs, "/work").expect("metadata").permissions();
    permissions.set_mode(0o700);
    assert_eq!(permissions.mode(), 0o700);
}

#[test]
fn an_exclusive_lock_is_available_on_an_unlocked_file() {
    let (mut fs, mut locks) = fresh();
    let mut file = File::create(&mut fs, "/work/a.txt").expect("create");
    assert!(file.try_lock(&mut locks).is_ok());
}

#[test]
fn an_exclusive_lock_excludes_a_second_handle() {
    let (mut fs, mut locks) = fresh();
    let mut held = File::create(&mut fs, "/work/a.txt").expect("create");
    held.try_lock(&mut locks).expect("first lock");
    let mut other = File::open(&mut fs, "/work/a.txt").expect("open");
    assert!(matches!(other.try_lock(&mut locks), Err(TryLockError::WouldBlock)));
}

#[test]
fn shared_locks_coexist_across_handles() {
    let (mut fs, mut locks) = fresh();
    let mut first = File::create(&mut fs, "/work/a.txt").expect("create");
    first.try_lock_shared(&mut locks).expect("first lock");
    let mut second = File::open(&mut fs, "/work/a.txt").expect("open");
    assert!(second.try_lock_shared(&mut locks).is_ok());
}

#[test]
fn a_shared_lock_excludes_an_exclusive_lock() {
    let (mut fs, mut locks) = fresh();
    let mut reader = File::create(&mut fs, "/work/a.txt").expect("create");
    reader.try_lock_shared(&mut locks).expect("shared lock");
    let mut writer = File::open(&mut fs, "/work/a.txt").expect("open");
    assert!(matches!(writer.try_lock(&mut locks), Err(TryLockError::WouldBlock)));
}

#[test]
fn an_exclusive_lock_excludes_a_shared_lock() {
    let (mut fs, mut locks) = fresh();
    let mut writer = File::create(&mut fs, "/work/a.txt").expect("create");
    writer.try_lock(&mut locks).expect("exclusive lock");
    let mut reader = File::open(&mut fs, "/work/a.txt").expect("open");
    assert!(matches!(reader.try_lock_shared(&mut locks), Err(TryLockError::WouldBlock)));
}

#[test]
fn unlocking_releases_the_lock_for_another_handle() {
    let (mut fs, mut locks) = fresh();
    let mut held = File::create(&mut fs, "/work/a.txt").expect("create");
    held.try_lock(&mut locks).expect("first lock");
    held.unlock(&mut locks).expect("unlock");
    let mut other = File::open(&mut fs, "/work/a.txt").expect("open");
    assert!(other.try_lock(&mut locks).is_ok());
}

#[test]
fn dropping_a_handle_releases_its_lock() {
    let (mut fs, mut locks) = fresh();
    let mut held = File::create(&mut fs, "/work/a.txt").expect("create");
    held.try_lock(&mut locks).expect("first lock");
    held.close(&mut fs, &mut locks);
    let mut other = File::open(&mut fs, "/work/a.txt").expect("open");
    assert!(other.try_lock(&mut locks).is_ok());
}

#[test]
fn releasing_one_shared_holder_keeps_the_lock_for_the_rest() {
    let (mut fs, mut locks) = fresh();
    let mut first = File::create(&mut fs, "/work/a.txt").expect("create");
    first.try_lock_shared(&mut locks).expect("first lock");
    let mut second = File::open(&mut fs, "/work/a.txt").expect("open");
    second.try_lock_shared(&mut locks).expect("second lock");
    first.close(&mut fs, &mut locks);
    let mut writer = File::open(&mut fs, "/work/a.txt").expect("open");
    assert!(matches!(writer.try_lock(&mut locks), Err(TryLockError::WouldBlock)));
}

#[test]
fn locks_on_different_paths_do_not_contend() {
    let (mut fs, mut locks) = fresh();
    let mut first = File::create(&mut fs, "/work/a.txt").expect("create");
    first.try_lock(&mut locks).expect("first lock");
    let mut second = File::create(&mut fs, "/work/b.txt").expect("create");
    assert!(second.try_lock(&mut locks).is_ok());
}

#[test]
fn relocking_the_same_handle_converts_the_lock() {
    let (mut fs, mut locks) = fresh();
    let mut file = File::create(&mut fs, "/work/a.txt").expect("create");
    file.try_lock_shared(&mut locks).expect("shared lock");
    file.try_lock(&mut locks).expect("conversion to exclusive");
    let mut other = File::open(&mut fs, "/work/a.txt").expect("open");
    assert!(matches!(other.try_lock_shared(&mut locks), Err(TryLockError::WouldBlock)));
}

#[test]
fn unlocking_an_unlocked_handle_succeeds() {
    let (mut fs, mut locks) = fresh();
    let mut file = File::create(&mut fs, "/work/a.txt").expect("create");
    assert!(file.unlock(&mut locks).is_ok());
}

#[test]
fn a_blocking_lock_succeeds_when_uncontended() {
    let (mut fs, mut locks) = fresh();
    let mut file = File::create(&mut fs, "/work/a.txt").expect("create");
    assert!(file.lock(&mut locks).is_ok());
    file.unlock(&mut locks).expect("unlock");
    assert!(file.lock_shared(&mut locks).is_ok());
}

#[test]
fn a_blocking_lock_reports_contention_rather_than_hanging() {
    let (mut fs, mut locks) = fresh();
    let mut held = File::create(&mut fs, "/work/a.txt").expect("create");
    held.try_lock(&mut locks).expect("first lock");
    let mut other = File::open(&mut fs, "/work/a.txt").expect("open");
    let error = other.lock(&mut locks).expect_err("the second lock cannot be waited for");
    assert_eq!(error.kind(), ErrorKind::WouldBlock);
}

#[test]
fn writing_past_the_end_fills_the_gap_with_zeros() {
    let (mut fs, mut locks) = fresh();
    let mut file = File::create(&mut fs, "/work/a.txt").expect("create");
    file.seek(SeekFrom::Start(3)).expect("seek");
    file.write_all(b"x").expect("write");
    file.close(&mut fs, &mut locks);
    assert_eq!(read(&fs, "/work/a.txt").expect("read"), vec![0, 0, 0, b'x']);
}

#[test]
fn a_write_is_read_back_after_a_flush() {
    let (mut fs, _) = fresh();
    let mut file = File::create(&mut fs, "/work/a.txt").expect("create");
    file.write_all(b"abc").expect("write");
    assert_eq!(read(&fs, "/work/a.txt").expect("read"), b"");
    file.flush(&mut fs).expect("flush");
    assert_eq!(read(&fs, "/work/a.txt").expect("read"), b"abc");
}

#[test]
fn a_failed_try_lock_gives_up_the_lock_held_before() {
    let (mut fs, mut locks) = fresh();
    let mut reader = File::create(&mut fs, "/work/a.txt").expect("create");
    reader.try_lock_shared(&mut locks).expect("shared");
    let mut other = File::open(&mut fs, "/work/a.txt").expect("open");
    other.try_lock_shared(&mut locks).expect("shared");
    assert!(reader.try_lock(&mut locks).is_err());
    other.unlock(&mut locks).expect("unlock");
    let mut writer = File::open(&mut fs, "/work/a.txt").expect("open");
    assert!(writer.try_lock(&mut locks).is_ok());
}
