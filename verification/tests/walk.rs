use uv_wasm::error::VfsError;
use uv_wasm::fs::{create_dir_all, symlink};
use uv_wasm::memory::MemoryFs;
use uv_wasm::walk::{DirEntry, Error, WalkDir};

fn fresh() -> MemoryFs {
    let mut fs = MemoryFs::new();
    create_dir_all(&mut fs, "/work").expect("create root");
    fs
}

fn tree() -> MemoryFs {
    let mut fs = fresh();
    create_dir_all(&mut fs, "/work/a/inner").expect("create a/inner");
    create_dir_all(&mut fs, "/work/b").expect("create b");
    uv_wasm::fs::write(&mut fs, "/work/top.txt", b"top").expect("write top");
    uv_wasm::fs::write(&mut fs, "/work/a/one.txt", b"one").expect("write one");
    uv_wasm::fs::write(&mut fs, "/work/a/inner/deep.txt", b"deep").expect("write deep");
    uv_wasm::fs::write(&mut fs, "/work/b/two.txt", b"two").expect("write two");
    fs
}

fn all(walk: WalkDir, fs: &MemoryFs) -> Vec<Result<DirEntry, Error>> {
    let mut it = walk.into_iter(fs);
    let mut out = Vec::new();
    while let Some(item) = it.next() {
        out.push(item);
    }
    out
}

fn walked(walk: WalkDir, fs: &MemoryFs) -> Vec<String> {
    all(walk, fs).into_iter().map(|entry| entry.expect("entry").path().to_owned()).collect()
}

#[test]
fn a_walk_yields_the_root_first() {
    let fs = tree();
    let seen = walked(WalkDir::new("/work").sort_by_file_name(), &fs);
    assert_eq!(seen.first().map(String::as_str), Some("/work"));
}

#[test]
fn a_walk_reaches_every_entry() {
    let fs = tree();
    let seen = walked(WalkDir::new("/work").sort_by_file_name(), &fs);
    assert_eq!(
        seen,
        vec![
            "/work",
            "/work/a",
            "/work/a/inner",
            "/work/a/inner/deep.txt",
            "/work/a/one.txt",
            "/work/b",
            "/work/b/two.txt",
            "/work/top.txt",
        ]
    );
}

#[test]
fn contents_first_yields_a_directory_after_its_children() {
    let fs = tree();
    let seen = walked(WalkDir::new("/work").sort_by_file_name().contents_first(true), &fs);
    assert_eq!(
        seen,
        vec![
            "/work/a/inner/deep.txt",
            "/work/a/inner",
            "/work/a/one.txt",
            "/work/a",
            "/work/b/two.txt",
            "/work/b",
            "/work/top.txt",
            "/work",
        ]
    );
}

#[test]
fn min_depth_drops_the_root() {
    let fs = tree();
    let seen = walked(WalkDir::new("/work").sort_by_file_name().min_depth(1), &fs);
    assert!(!seen.contains(&"/work".to_owned()));
    assert!(seen.contains(&"/work/a".to_owned()));
}

#[test]
fn min_depth_drops_every_shallower_entry() {
    let fs = tree();
    let seen = walked(WalkDir::new("/work").sort_by_file_name().min_depth(2), &fs);
    assert_eq!(
        seen,
        vec!["/work/a/inner", "/work/a/inner/deep.txt", "/work/a/one.txt", "/work/b/two.txt"]
    );
}

#[test]
fn entries_report_their_depth_and_file_name() {
    let fs = tree();
    let entry = all(WalkDir::new("/work").sort_by_file_name(), &fs)
        .into_iter()
        .filter_map(Result::ok)
        .find(|entry| entry.file_name() == "deep.txt")
        .expect("deep.txt");
    assert_eq!(entry.depth(), 3);
    assert!(entry.file_type().is_file());
    assert_eq!(entry.metadata(&fs).expect("metadata").len(), 4);
}

#[test]
fn a_symlink_is_reported_without_being_followed() {
    let mut fs = fresh();
    create_dir_all(&mut fs, "/work/target").expect("create target");
    uv_wasm::fs::write(&mut fs, "/work/target/inside.txt", b"x").expect("write inside");
    symlink(&mut fs, "/work/target", "/work/link").expect("symlink");
    let entries: Vec<DirEntry> =
        all(WalkDir::new("/work").sort_by_file_name(), &fs).into_iter().filter_map(Result::ok).collect();
    let link = entries.iter().find(|entry| entry.file_name() == "link").expect("link");
    assert!(link.path_is_symlink());
    assert!(!entries.iter().any(|entry| entry.path().starts_with("/work/link/")));
}

#[test]
fn a_file_root_yields_only_itself() {
    let mut fs = fresh();
    uv_wasm::fs::write(&mut fs, "/work/only.txt", b"x").expect("write");
    assert_eq!(walked(WalkDir::new("/work/only.txt"), &fs), vec!["/work/only.txt"]);
}

#[test]
fn a_missing_root_yields_one_error() {
    let fs = fresh();
    let outcomes = all(WalkDir::new("/work/missing"), &fs);
    assert_eq!(outcomes.len(), 1);
    let error = outcomes.into_iter().next().expect("outcome").expect_err("should fail");
    assert_eq!(error.path(), Some("/work/missing"));
    assert!(error.io_error().is_some());
}

#[test]
fn an_unreadable_directory_reports_the_path_it_failed_on() {
    let error = Error::new("/work/a", VfsError::Other("denied".to_owned()));
    assert!(error.message().contains("/work/a"));
    assert!(error.message().contains("denied"));
}

#[test]
fn an_error_converts_back_to_io() {
    let error = Error::new("/work", VfsError::Other("boom".to_owned()));
    let io_error = error.into_inner();
    assert_eq!(io_error.message(), "boom");
}

#[test]
fn the_root_of_the_filesystem_is_walked_by_name() {
    let fs = MemoryFs::new();
    let seen = walked(WalkDir::new("/"), &fs);
    assert_eq!(seen, vec!["/", "/tmp"]);
}

#[test]
fn filter_entry_prunes_the_subtree_it_rejects() {
    let fs = tree();
    let mut it = WalkDir::new("/work")
        .sort_by_file_name()
        .filter_entry(&fs, |entry: &DirEntry| entry.file_name() != "a");
    let mut seen = Vec::new();
    while let Some(item) = it.next() {
        seen.push(item.expect("entry").path().to_owned());
    }
    assert_eq!(seen, vec!["/work", "/work/b", "/work/b/two.txt", "/work/top.txt"]);
}

#[test]
fn filter_entry_rejecting_the_root_yields_nothing() {
    let fs = tree();
    let mut it = WalkDir::new("/work").filter_entry(&fs, |_: &DirEntry| false);
    let mut seen = Vec::new();
    while let Some(item) = it.next() {
        seen.push(item.expect("entry").path().to_owned());
    }
    assert!(seen.is_empty());
}

#[test]
fn a_rejected_entry_below_the_minimum_depth_still_prunes_its_subtree() {
    let fs = tree();
    let mut it = WalkDir::new("/work")
        .min_depth(2)
        .sort_by_file_name()
        .filter_entry(&fs, |entry: &DirEntry| entry.file_name() != "a");
    let mut seen = Vec::new();
    while let Some(item) = it.next() {
        seen.push(item.expect("entry").path().to_owned());
    }
    assert_eq!(seen, vec!["/work/b/two.txt"]);
}
