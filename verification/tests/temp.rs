use uv_wasm::file::SeekFrom;
use uv_wasm::fs::read;
use uv_wasm::locks::AdvisoryLocks;
use uv_wasm::memory::MemoryFs;
use uv_wasm::temp::{
    tempdir, tempdir_in, tempfile, tempfile_in, Builder, NamedTempFile, TempDir, TempNames,
    TEMP_ROOT,
};

fn fresh() -> (MemoryFs, TempNames, AdvisoryLocks) {
    (MemoryFs::new(), TempNames::new(), AdvisoryLocks::new())
}

fn file_name(path: &str) -> &str {
    path.rsplit('/').next().unwrap_or(path)
}

#[test]
fn a_temporary_directory_lives_under_the_temp_root() {
    let (mut fs, mut names, _) = fresh();
    let dir = tempdir(&mut fs, &mut names).expect("tempdir");
    assert!(dir.path().starts_with(TEMP_ROOT));
}

#[test]
fn a_temporary_directory_exists_while_held() {
    let (mut fs, mut names, _) = fresh();
    let dir = tempdir(&mut fs, &mut names).expect("tempdir");
    assert!(fs.exists_path(dir.path()));
}

#[test]
fn a_temporary_directory_is_removed_on_drop() {
    let (mut fs, mut names, _) = fresh();
    let path = {
        let dir = tempdir(&mut fs, &mut names).expect("tempdir");
        let path = dir.path().to_owned();
        dir.release(&mut fs);
        path
    };
    assert!(!fs.exists_path(&path));
}

#[test]
fn keeping_a_directory_survives_the_drop() {
    let (mut fs, mut names, _) = fresh();
    let path = tempdir(&mut fs, &mut names).expect("tempdir").keep();
    assert!(fs.exists_path(&path));
}

#[test]
fn closing_a_directory_removes_it() {
    let (mut fs, mut names, _) = fresh();
    let dir = tempdir(&mut fs, &mut names).expect("tempdir");
    let path = dir.path().to_owned();
    dir.close(&mut fs).expect("close");
    assert!(!fs.exists_path(&path));
}

#[test]
fn temporary_directories_do_not_collide() {
    let (mut fs, mut names, _) = fresh();
    let first = tempdir(&mut fs, &mut names).expect("first");
    let second = tempdir(&mut fs, &mut names).expect("second");
    assert_ne!(first.path(), second.path());
}

#[test]
fn a_directory_can_be_created_somewhere_specific() {
    let (mut fs, mut names, _) = fresh();
    fs.create_dir_all("/work").expect("create");
    let dir = tempdir_in(&mut fs, &mut names, "/work").expect("tempdir_in");
    assert!(dir.path().starts_with("/work"));
}

#[test]
fn a_directory_honours_a_prefix_and_suffix() {
    let (mut fs, mut names, _) = fresh();
    let dir =
        Builder::new().prefix("build-").suffix(".d").tempdir(&mut fs, &mut names).expect("tempdir");
    let name = file_name(dir.path()).to_owned();
    assert!(name.starts_with("build-"));
    assert!(name.ends_with(".d"));
}

#[test]
fn a_directory_reference_borrows_its_path() {
    let (mut fs, mut names, _) = fresh();
    let dir = tempdir(&mut fs, &mut names).expect("tempdir");
    let borrowed: &str = dir.as_ref();
    assert_eq!(borrowed, dir.path());
}

#[test]
fn a_named_file_is_writable_and_readable() {
    let (mut fs, mut names, _) = fresh();
    let mut file = NamedTempFile::new(&mut fs, &mut names).expect("tempfile");
    file.as_file_mut().write_all(b"hello").expect("write");
    file.as_file_mut().flush(&mut fs).expect("flush");
    file.as_file_mut().seek(SeekFrom::Start(0)).expect("seek");
    let text = file.as_file_mut().read_to_string().expect("read");
    assert_eq!(text, "hello");
}

#[test]
fn a_named_file_is_removed_on_drop() {
    let (mut fs, mut names, mut locks) = fresh();
    let path = {
        let file = NamedTempFile::new(&mut fs, &mut names).expect("tempfile");
        let path = file.path().to_owned();
        file.release(&mut fs, &mut locks);
        path
    };
    assert!(!fs.exists_path(&path));
}

#[test]
fn persisting_moves_the_file_to_its_destination() {
    let (mut fs, mut names, mut locks) = fresh();
    fs.create_dir_all("/work").expect("create");
    let mut file = NamedTempFile::new(&mut fs, &mut names).expect("tempfile");
    file.as_file_mut().write_all(b"payload").expect("write");
    let temp_path = file.path().to_owned();
    file.persist(&mut fs, &mut locks, "/work/final.txt").expect("persist");
    assert!(!fs.exists_path(&temp_path));
    assert_eq!(fs.read("/work/final.txt").expect("read"), b"payload");
}

#[test]
fn a_temp_path_removes_its_file_on_drop() {
    let (mut fs, mut names, mut locks) = fresh();
    let path = {
        let handle =
            NamedTempFile::new(&mut fs, &mut names).expect("tempfile").into_temp_path(&mut fs, &mut locks);
        let path = handle.path().to_owned();
        handle.release(&mut fs);
        path
    };
    assert!(!fs.exists_path(&path));
}

#[test]
fn keeping_a_temp_path_survives_the_drop() {
    let (mut fs, mut names, mut locks) = fresh();
    let handle =
        NamedTempFile::new(&mut fs, &mut names).expect("tempfile").into_temp_path(&mut fs, &mut locks);
    let path = handle.keep().expect("keep");
    assert!(fs.exists_path(&path));
}

#[test]
fn keeping_a_named_file_returns_its_handle_and_path() {
    let (mut fs, mut names, _) = fresh();
    let file = NamedTempFile::new(&mut fs, &mut names).expect("tempfile");
    let (_handle, path) = file.keep().expect("keep");
    assert!(fs.exists_path(&path));
}

#[test]
fn a_named_file_exposes_its_underlying_handle() {
    let (mut fs, mut names, _) = fresh();
    let mut file = NamedTempFile::new(&mut fs, &mut names).expect("tempfile");
    file.as_file_mut().write_all(b"x").expect("write");
    assert_eq!(file.as_file().path(), file.path());
}

#[test]
fn an_anonymous_file_can_be_created() {
    let (mut fs, mut names, _) = fresh();
    let mut file = tempfile(&mut fs, &mut names).expect("tempfile");
    file.write_all(b"anonymous").expect("write");
    file.flush(&mut fs).expect("flush");
}

#[test]
fn an_anonymous_file_can_be_placed_somewhere_specific() {
    let (mut fs, mut names, _) = fresh();
    fs.create_dir_all("/work").expect("create");
    let file = tempfile_in(&mut fs, &mut names, "/work").expect("tempfile_in");
    assert!(file.path().starts_with("/work"));
}

#[test]
fn the_builder_can_place_a_file_somewhere_specific() {
    let (mut fs, mut names, _) = fresh();
    fs.create_dir_all("/work").expect("create");
    let file =
        Builder::new().prefix("wheel-").tempfile_in(&mut fs, &mut names, "/work").expect("tempfile_in");
    let name = file_name(file.path()).to_owned();
    assert!(name.starts_with("wheel-"));
}

#[test]
fn a_directory_can_be_constructed_directly() {
    let (mut fs, mut names, _) = fresh();
    let dir = TempDir::new(&mut fs, &mut names).expect("new");
    assert!(fs.exists_path(dir.path()));
}

#[test]
fn a_named_temporary_file_borrows_as_its_path() {
    let (mut fs, mut names, _) = fresh();
    fs.create_dir_all("/work").expect("create");
    let file = Builder::new().tempfile_in(&mut fs, &mut names, "/work").expect("tempfile_in");
    let borrowed: &str = file.as_ref();
    assert_eq!(borrowed, file.path());
}

#[test]
fn a_named_temporary_file_can_be_passed_to_path_taking_apis() {
    let (mut fs, mut names, _) = fresh();
    fs.create_dir_all("/work").expect("create");
    let file = Builder::new().tempfile_in(&mut fs, &mut names, "/work").expect("tempfile_in");
    uv_wasm::fs::write(&mut fs, file.as_ref(), b"payload").expect("write");
    assert_eq!(read(&fs, file.path()).expect("read"), b"payload");
}

#[test]
fn names_carry_sixteen_hex_digits_of_the_counter() {
    let (mut fs, mut names, _) = fresh();
    let first = tempdir(&mut fs, &mut names).expect("first");
    let second = tempdir(&mut fs, &mut names).expect("second");
    assert_eq!(first.path(), "/tmp/.tmp0000000000000000");
    assert_eq!(second.path(), "/tmp/.tmp0000000000000001");
}
