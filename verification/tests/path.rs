use uv_wasm::path::{
    is_within, join, normalize, parent_of, resolve, set_working_directory, working_directory,
    WorkingDirectory,
};

#[test]
fn makes_relative_paths_absolute() {
    assert_eq!(normalize("work/project"), "/work/project");
}

#[test]
fn joins_with_posix_separators_on_every_host() {
    assert_eq!(normalize("/work/a/b"), "/work/a/b");
}

#[test]
fn rewrites_a_host_separator_into_a_posix_one() {
    assert_eq!(join(&normalize("/work"), "a"), "/work/a");
    assert_eq!(normalize(&join("/work", "a")), "/work/a");
}

#[test]
fn collapses_current_directory_segments() {
    assert_eq!(normalize("/work/./project"), "/work/project");
}

#[test]
fn resolves_parent_segments() {
    assert_eq!(normalize("/work/project/../other"), "/work/other");
}

#[test]
fn cannot_escape_the_root() {
    assert_eq!(normalize("/../../etc"), "/etc");
}

#[test]
fn root_has_no_parent() {
    assert_eq!(parent_of("/"), None);
}

#[test]
fn reports_the_containing_directory() {
    assert_eq!(parent_of("/work/project"), Some("/work".to_owned()));
}

#[test]
fn recognises_descendants() {
    assert!(is_within("/work", "/work/project"));
}

#[test]
fn a_directory_does_not_contain_itself() {
    assert!(!is_within("/work", "/work"));
}

#[test]
fn rejects_unrelated_paths() {
    assert!(!is_within("/work", "/cache"));
}

#[test]
fn a_relative_path_resolves_against_the_working_directory() {
    let mut cwd = WorkingDirectory::new();
    set_working_directory(&mut cwd, "/work");
    assert_eq!(resolve(&cwd, "requirements.in"), "/work/requirements.in");
    assert_eq!(resolve(&cwd, "./sub/file"), "/work/sub/file");
    set_working_directory(&mut cwd, "/");
}

#[test]
fn an_absolute_path_ignores_the_working_directory() {
    let mut cwd = WorkingDirectory::new();
    set_working_directory(&mut cwd, "/work");
    assert_eq!(resolve(&cwd, "/etc/hosts"), "/etc/hosts");
    set_working_directory(&mut cwd, "/");
}

#[test]
fn the_root_working_directory_leaves_resolution_as_normalization() {
    let mut cwd = WorkingDirectory::new();
    set_working_directory(&mut cwd, "/");
    for path in ["requirements.in", "/abs/path", "./rel", "a/../b"] {
        assert_eq!(resolve(&cwd, path), normalize(path));
    }
}

#[test]
fn changing_directory_is_itself_relative_to_the_current_one() {
    let mut cwd = WorkingDirectory::new();
    set_working_directory(&mut cwd, "/");
    set_working_directory(&mut cwd, "work");
    assert_eq!(working_directory(&cwd), "/work");
    set_working_directory(&mut cwd, "sub");
    assert_eq!(working_directory(&cwd), "/work/sub");
    set_working_directory(&mut cwd, "..");
    assert_eq!(working_directory(&cwd), "/work");
    set_working_directory(&mut cwd, "/");
}

#[test]
fn normalizing_twice_changes_nothing() {
    for path in ["", "/", "a/./b/../c", "//x//y/", "/../.."] {
        let once = normalize(path);
        assert_eq!(normalize(&once), once);
    }
}

#[test]
fn the_temp_directory_is_the_normalised_temp_root() {
    assert_eq!(uv_wasm::path::temp_dir(), "/tmp");
}

#[test]
fn current_dir_reports_the_working_directory() {
    let mut cwd = WorkingDirectory::new();
    uv_wasm::path::set_current_dir(&mut cwd, "/work/./x").expect("set");
    assert_eq!(uv_wasm::path::current_dir(&cwd).expect("current"), "/work/x");
    assert_eq!(uv_wasm::path::absolute(&cwd, "y").expect("absolute"), "/work/x/y");
}

#[test]
fn absoluteness_matches_the_inherent_method() {
    let mut fs = uv_wasm::memory::MemoryFs::new();
    let mut names = uv_wasm::temp::TempNames::new();
    let dir = uv_wasm::temp::tempdir(&mut fs, &mut names).expect("tempdir");
    let path = std::path::Path::new(dir.path());
    assert_eq!(uv_wasm::path::vfs_is_absolute(dir.path()), path.is_absolute());
    assert_eq!(uv_wasm::path::vfs_is_relative(dir.path()), path.is_relative());

    let relative = "a/b.txt";
    assert!(!uv_wasm::path::vfs_is_absolute(relative));
    assert!(uv_wasm::path::vfs_is_relative(relative));
}
