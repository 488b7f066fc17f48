use uv_wasm::cache::{
    cache_size_line, cache_total_bytes, checked_cache_total_bytes, human_readable, CacheSizeOutputFormat,
    SizeLine,
};
use uv_wasm::fs::{create_dir_all, symlink};
use uv_wasm::memory::MemoryFs;
use uv_wasm::which::{is_executable, which, which_all, which_in_global, WhichError};

fn cache() -> MemoryFs {
    let mut fs = MemoryFs::new();
    create_dir_all(&mut fs, "/cache/wheels/a").expect("create");
    uv_wasm::fs::write(&mut fs, "/cache/wheels/a/one.whl", b"12345").expect("write");
    uv_wasm::fs::write(&mut fs, "/cache/wheels/two.whl", b"678").expect("write");
    uv_wasm::fs::write(&mut fs, "/cache/CACHEDIR.TAG", b"").expect("write");
    fs
}

#[test]
fn the_total_counts_every_file_below_the_root() {
    let fs = cache();
    assert_eq!(cache_total_bytes(&fs, "/cache"), 8);
    assert_eq!(cache_total_bytes(&fs, "/cache/wheels/a"), 5);
}

#[test]
fn links_are_not_counted_twice() {
    let mut fs = cache();
    symlink(&mut fs, "/cache/wheels/two.whl", "/cache/link").expect("link");
    assert_eq!(cache_total_bytes(&fs, "/cache"), 8);
}

#[test]
fn a_missing_root_reports_zero() {
    let fs = MemoryFs::new();
    assert_eq!(cache_size_line(&fs, "/cache", true), Some(SizeLine::Text("0B".to_string())));
    assert_eq!(cache_size_line(&fs, "/cache", false), Some(SizeLine::Text("0".to_string())));
}

#[test]
fn an_existing_root_reports_its_total() {
    let fs = cache();
    assert_eq!(cache_size_line(&fs, "/cache", false), Some(SizeLine::Text("8".to_string())));
    assert_eq!(cache_size_line(&fs, "/cache", true), Some(SizeLine::HumanBytes(8)));
    assert_eq!(checked_cache_total_bytes(&fs, "/cache"), Some(8));
}

#[test]
fn the_output_format_decides_on_units() {
    assert!(human_readable(CacheSizeOutputFormat::Human, false));
    assert!(!human_readable(CacheSizeOutputFormat::Machine, true));
    assert!(human_readable(CacheSizeOutputFormat::Auto, true));
    assert!(!human_readable(CacheSizeOutputFormat::Auto, false));
}

#[test]
fn no_program_is_ever_found() {
    assert_eq!(which("python"), Err(WhichError::CannotFindBinaryPath));
    assert!(which_all("python").expect("search").is_empty());
    assert!(which_in_global("python", Some("/usr/bin")).expect("search").is_empty());
}

#[test]
fn no_file_is_executable() {
    let fs = cache();
    assert!(!is_executable(&fs, "/cache/wheels/two.whl"));
    assert!(!is_executable(&fs, "/cache/wheels"));
    assert!(!is_executable(&fs, "/missing"));
}
