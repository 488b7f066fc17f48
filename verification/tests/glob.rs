use uv_wasm::fs::create_dir_all;
use uv_wasm::glob::{glob, literal_root, path_less};
use uv_wasm::memory::MemoryFs;

const TREE: &[&str] = &[
    "packages/alpha/pyproject.toml",
    "packages/alpha/src/alpha/__init__.py",
    "packages/beta/pyproject.toml",
    "packages/beta/src/beta/__init__.py",
    "packages/.hidden/pyproject.toml",
    "vendor/gamma/pyproject.toml",
    "pyproject.toml",
    "README.md",
];

fn seeded(root: &str) -> MemoryFs {
    let mut fs = MemoryFs::new();
    for entry in TREE {
        let path = format!("{root}/{entry}");
        let parent = &path[..path.rfind('/').expect("has a parent")];
        create_dir_all(&mut fs, parent).expect("create parent");
        uv_wasm::fs::write(&mut fs, &path, b"").expect("write file");
    }
    fs
}

fn found(fs: &MemoryFs, pattern: &str) -> Vec<String> {
    let mut paths = glob(fs, pattern).expect("pattern");
    let mut out = Vec::new();
    while let Some(item) = paths.next() {
        if let Ok(path) = item {
            out.push(path);
        }
    }
    out
}

#[test]
fn an_invalid_pattern_is_rejected_the_way_the_crate_rejects_it() {
    let fs = seeded("/ws");
    assert!(glob(&fs, "/ws/[").is_err());
    assert!(::glob::glob("/ws/[").is_err());
}

#[test]
fn a_pattern_with_no_wildcards_yields_the_path_when_it_exists() {
    let fs = seeded("/lit");
    let found_paths = found(&fs, "/lit/pyproject.toml");
    assert_eq!(found_paths, vec!["/lit/pyproject.toml".to_string()]);

    let missing = found(&fs, "/lit/absent.toml");
    assert!(missing.is_empty());
}

#[test]
fn a_star_matches_every_child_in_path_order() {
    let fs = seeded("/ws");
    assert_eq!(
        found(&fs, "/ws/packages/*"),
        vec!["/ws/packages/.hidden", "/ws/packages/alpha", "/ws/packages/beta"]
    );
}

#[test]
fn a_trailing_slash_keeps_only_directories() {
    let fs = seeded("/ws");
    assert_eq!(
        found(&fs, "/ws/packages/*/"),
        vec!["/ws/packages/.hidden", "/ws/packages/alpha", "/ws/packages/beta"]
    );
    assert!(found(&fs, "/ws/*.md/").is_empty());
    assert_eq!(found(&fs, "/ws/*.md"), vec!["/ws/README.md"]);
}

#[test]
fn a_star_does_not_cross_a_separator() {
    let fs = seeded("/ws");
    assert_eq!(found(&fs, "/ws/*/pyproject.toml"), Vec::<String>::new());
    assert_eq!(
        found(&fs, "/ws/packages/*/pyproject.toml"),
        vec![
            "/ws/packages/.hidden/pyproject.toml",
            "/ws/packages/alpha/pyproject.toml",
            "/ws/packages/beta/pyproject.toml",
        ]
    );
}

#[test]
fn a_double_star_descends_any_depth() {
    let fs = seeded("/ws");
    assert_eq!(
        found(&fs, "/ws/**/pyproject.toml"),
        vec![
            "/ws/packages/.hidden/pyproject.toml",
            "/ws/packages/alpha/pyproject.toml",
            "/ws/packages/beta/pyproject.toml",
            "/ws/pyproject.toml",
            "/ws/vendor/gamma/pyproject.toml",
        ]
    );
    assert_eq!(
        found(&fs, "/ws/**/*.py"),
        vec![
            "/ws/packages/alpha/src/alpha/__init__.py",
            "/ws/packages/beta/src/beta/__init__.py",
        ]
    );
}

#[test]
fn classes_and_single_characters_match() {
    let fs = seeded("/ws");
    assert_eq!(
        found(&fs, "/ws/packages/[ab]*"),
        vec!["/ws/packages/alpha", "/ws/packages/beta"]
    );
    assert_eq!(
        found(&fs, "/ws/?ackages/*"),
        vec!["/ws/packages/.hidden", "/ws/packages/alpha", "/ws/packages/beta"]
    );
    assert!(found(&fs, "/ws/packages/nothing/*").is_empty());
    assert_eq!(found(&fs, "/ws/packages/alpha"), vec!["/ws/packages/alpha"]);
}

#[test]
fn the_walk_starts_below_the_literal_prefix() {
    assert_eq!(literal_root("/ws/packages/*/pyproject.toml"), "/ws/packages");
    assert_eq!(literal_root("/ws/./a/../b/[x]/c"), "/ws/b");
    assert_eq!(literal_root("*.md"), "/");
    assert_eq!(literal_root("/ws/plain"), "/ws/plain");
}

#[test]
fn paths_sort_component_by_component() {
    assert!(path_less("/ws/a", "/ws/a/b"));
    assert!(path_less("/ws/a/z", "/ws/ab"));
    assert!(!path_less("/ws/ab", "/ws/a/z"));
    assert!(!path_less("/ws/a", "/ws/a/"));
    assert!(path_less("/ws/.hidden", "/ws/alpha"));
}
