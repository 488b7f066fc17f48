use uv_wasm::error::ErrorKind;
use uv_wasm::memory::{MemoryFs, VfsKind, VfsMetadata};
use web_time::{Duration, SystemTime};

fn populated() -> MemoryFs {
    let mut fs = MemoryFs::new();
    fs.create_dir_all("/work/project").expect("create");
    fs.write("/work/project/pyproject.toml", b"[project]").expect("write");
    fs
}

fn metadata(kind: VfsKind) -> VfsMetadata {
    VfsMetadata { kind, len: 0, modified: SystemTime::UNIX_EPOCH }
}

#[test]
fn classifies_files() {
    let subject = metadata(VfsKind::File);
    assert!(subject.is_file());
    assert!(!subject.is_dir());
    assert!(!subject.is_symlink());
}

#[test]
fn classifies_directories() {
    assert!(metadata(VfsKind::Directory).is_dir());
}

#[test]
fn classifies_symlinks() {
    assert!(metadata(VfsKind::Symlink).is_symlink());
}

#[test]
fn not_found_names_the_path() {
    let error = uv_wasm::error::not_found("/missing");
    assert_eq!(error.kind(), ErrorKind::NotFound);
    assert!(error.message().contains("/missing"));
}

#[test]
fn unsupported_names_the_operation() {
    let error = uv_wasm::error::unsupported("hard link", "/a");
    assert_eq!(error.kind(), ErrorKind::Unsupported);
    assert!(error.message().contains("hard link"));
}

#[test]
fn exists_reflects_presence() {
    let mut fs = MemoryFs::new();
    fs.write("/a", b"x").expect("write");
    assert!(fs.exists_path("/a"));
    assert!(!fs.exists_path("/b"));
}

#[test]
fn lib_reads_text() {
    let mut fs = MemoryFs::new();
    fs.write("/a", b"hello").expect("write");
    assert_eq!(fs.read_to_string("/a").expect("read"), "hello");
}

#[test]
fn rejects_invalid_utf8() {
    let mut fs = MemoryFs::new();
    fs.write("/a", &[0xff, 0xfe]).expect("write");
    let error = fs.read_to_string("/a").expect_err("should fail");
    assert_eq!(error.kind(), ErrorKind::InvalidData);
}

#[test]
fn reads_back_what_was_written() {
    let fs = populated();
    assert_eq!(fs.read("/work/project/pyproject.toml").expect("read"), b"[project]");
}

#[test]
fn reports_file_metadata() {
    let fs = populated();
    let metadata = fs.metadata("/work/project/pyproject.toml").expect("metadata");
    assert_eq!(metadata.kind, VfsKind::File);
    assert_eq!(metadata.len, 9);
}

#[test]
fn missing_paths_report_not_found() {
    let fs = MemoryFs::new();
    let error = fs.read("/nope").expect_err("should fail");
    assert_eq!(error.kind(), ErrorKind::NotFound);
}

#[test]
fn writing_without_a_parent_directory_fails() {
    let mut fs = MemoryFs::new();
    let error = fs.write("/missing/file", b"x").expect_err("should fail");
    assert_eq!(error.kind(), ErrorKind::NotFound);
}

#[test]
fn creating_directories_is_idempotent() {
    let mut fs = populated();
    assert!(fs.create_dir_all("/work/project").is_ok());
}

#[test]
fn a_directory_cannot_replace_a_file() {
    let mut fs = populated();
    let error = fs.create_dir_all("/work/project/pyproject.toml/inner").expect_err("should fail");
    assert_eq!(error.kind(), ErrorKind::AlreadyExists);
}

#[test]
fn lists_immediate_children_in_name_order() {
    let mut fs = populated();
    fs.write("/work/project/README.md", b"docs").expect("write");
    let entries = fs.read_dir("/work/project").expect("read_dir");
    let names: Vec<&str> = entries.iter().map(|entry| entry.name.as_str()).collect();
    assert_eq!(names, vec!["README.md", "pyproject.toml"]);
}

#[test]
fn a_fresh_filesystem_has_a_temp_directory() {
    let fs = MemoryFs::new();
    let metadata = fs.metadata("/tmp").expect("temp directory");
    assert!(metadata.is_dir());
}

#[test]
fn an_empty_path_is_not_the_root() {
    let mut fs = populated();
    assert_eq!(fs.metadata("").unwrap_err().kind(), ErrorKind::NotFound);
    assert_eq!(fs.read_dir("").unwrap_err().kind(), ErrorKind::NotFound);
    assert_eq!(fs.create_dir_all("").unwrap_err().kind(), ErrorKind::NotFound);
    assert_eq!(fs.write("", b"x").unwrap_err().kind(), ErrorKind::NotFound);
}

#[test]
fn listing_a_file_fails() {
    let fs = populated();
    let error = fs.read_dir("/work/project/pyproject.toml").expect_err("should fail");
    assert_eq!(error.kind(), ErrorKind::NotADirectory);
}

#[test]
fn removes_a_subtree() {
    let mut fs = populated();
    fs.remove_dir_all("/work").expect("remove");
    assert!(fs.metadata("/work/project/pyproject.toml").is_err());
    assert!(fs.metadata("/").is_ok());
}

#[test]
fn removing_a_directory_as_a_file_fails() {
    let mut fs = populated();
    let error = fs.remove_file("/work").expect_err("should fail");
    assert_eq!(error.kind(), ErrorKind::IsADirectory);
}

#[test]
fn renames_a_subtree() {
    let mut fs = populated();
    fs.create_dir_all("/other").expect("create");
    fs.rename("/work/project", "/other/moved").expect("rename");
    assert_eq!(fs.read("/other/moved/pyproject.toml").expect("read"), b"[project]");
    assert!(fs.metadata("/work/project").is_err());
}

#[test]
fn renaming_a_missing_path_fails() {
    let mut fs = MemoryFs::new();
    let error = fs.rename("/a", "/b").expect_err("should fail");
    assert_eq!(error.kind(), ErrorKind::NotFound);
}

#[test]
fn follows_symlinks_when_reading() {
    let mut fs = populated();
    fs.symlink("/work/project/pyproject.toml", "/work/link").expect("link");
    assert_eq!(fs.read("/work/link").expect("read"), b"[project]");
}

#[test]
fn symlink_metadata_does_not_follow() {
    let mut fs = populated();
    fs.symlink("/work/project/pyproject.toml", "/work/link").expect("link");
    assert_eq!(fs.symlink_metadata("/work/link").expect("metadata").kind, VfsKind::Symlink);
}

#[test]
fn reports_the_symlink_target() {
    let mut fs = populated();
    fs.symlink("/work/project", "/work/link").expect("link");
    assert_eq!(fs.read_link("/work/link").expect("read_link"), "/work/project");
}

#[test]
fn reading_a_link_that_is_not_one_fails() {
    let fs = populated();
    let error = fs.read_link("/work/project").expect_err("should fail");
    assert_eq!(error.kind(), ErrorKind::InvalidInput);
}

#[test]
fn breaks_out_of_a_symlink_cycle() {
    let mut fs = MemoryFs::new();
    fs.symlink("/b", "/a").expect("link");
    fs.symlink("/a", "/b").expect("link");
    let error = fs.metadata("/a").expect_err("should fail");
    assert_eq!(error.kind(), ErrorKind::InvalidData);
}

#[test]
fn records_an_explicit_modification_time() {
    let mut fs = populated();
    let stamp = SystemTime::UNIX_EPOCH + Duration::from_secs(1_700_000_000);
    fs.set_modified("/work/project/pyproject.toml", stamp).expect("set");
    assert_eq!(fs.metadata("/work/project/pyproject.toml").expect("metadata").modified, stamp);
}

#[test]
fn hard_links_are_unsupported() {
    let fs = populated();
    let error = fs.hard_link("/work/project/pyproject.toml", "/work/copy").expect_err("should fail");
    assert_eq!(error.kind(), ErrorKind::Unsupported);
}

#[test]
fn a_link_records_its_target_length() {
    let mut fs = populated();
    fs.symlink("/work/project", "/work/link").expect("link");
    assert_eq!(fs.symlink_metadata("/work/link").expect("metadata").len, 13);
}

#[test]
fn a_rename_onto_an_existing_tree_replaces_it() {
    let mut fs = populated();
    fs.create_dir_all("/other/old").expect("create");
    fs.write("/other/old/stale.txt", b"stale").expect("write");
    fs.rename("/work/project", "/other").expect("rename");
    assert!(fs.metadata("/other/old/stale.txt").is_err());
    assert_eq!(fs.read("/other/pyproject.toml").expect("read"), b"[project]");
}

#[test]
fn a_directory_cannot_be_overwritten_by_a_file() {
    let mut fs = populated();
    let error = fs.write("/work/project", b"x").expect_err("should fail");
    assert_eq!(error.kind(), ErrorKind::IsADirectory);
}

#[test]
fn a_rename_into_its_own_subtree_leaves_nothing_behind_outside_the_destination() {
    let mut fs = populated();
    fs.write("/work/project/notes.txt", b"n").expect("write");
    fs.rename("/work/project", "/work/project/inner").expect("rename");
    assert!(!fs.exists_path("/work/project/pyproject.toml"));
    assert!(!fs.exists_path("/work/project/notes.txt"));
    assert!(!fs.exists_path("/work/project"));
    assert!(fs.exists_path("/work"));
}
