use uv_wasm::env::{Environment, VarError};
use uv_wasm::path::{split_paths, split_posix_path_list};

fn pairs(items: &[(&str, &str)]) -> Vec<(String, String)> {
    items.iter().map(|(k, v)| (k.to_string(), v.to_string())).collect()
}

#[test]
fn reads_back_what_the_host_installed() {
    let mut env = Environment::new();
    env.replace(pairs(&[("HOME", "/home/browser")]));
    assert_eq!(env.var("HOME").as_deref(), Ok("/home/browser"));
    assert_eq!(env.var_os("HOME"), Some("/home/browser".to_string()));
}

#[test]
fn reports_an_absent_variable_the_way_std_does() {
    let mut env = Environment::new();
    env.replace(Vec::new());
    assert!(matches!(env.var("NOPE"), Err(VarError::NotPresent)));
    assert_eq!(env.var_os("NOPE"), None);
}

#[test]
fn replace_drops_what_came_before() {
    let mut env = Environment::new();
    env.replace(pairs(&[("A", "1")]));
    env.replace(pairs(&[("B", "2")]));
    assert_eq!(env.var_os("A"), None);
    assert_eq!(env.var_os("B"), Some("2".to_string()));
}

#[test]
fn set_and_unset_move_one_key_at_a_time() {
    let mut env = Environment::new();
    env.replace(Vec::new());
    env.set("UV_CACHE_DIR", "/cache");
    env.set("VIRTUAL_ENV", "/work/.venv");
    assert_eq!(env.snapshot().len(), 2);
    env.unset("VIRTUAL_ENV");
    assert_eq!(env.var_os("VIRTUAL_ENV"), None);
    assert_eq!(env.var_os("UV_CACHE_DIR"), Some("/cache".to_string()));
}

#[test]
fn snapshot_is_ordered_so_the_host_sees_a_stable_list() {
    let mut env = Environment::new();
    env.replace(Vec::new());
    env.set("B", "2");
    env.set("A", "1");
    let keys: Vec<_> = env.snapshot().into_iter().map(|(key, _)| key).collect();
    assert_eq!(keys, vec!["A", "B"]);
}

#[test]
fn setting_a_key_again_overwrites_its_value() {
    let mut env = Environment::new();
    env.set("PATH", "/usr/bin");
    env.set("PATH", "/work/.venv/bin");
    assert_eq!(env.var_os("PATH"), Some("/work/.venv/bin".to_string()));
    assert_eq!(env.snapshot().len(), 1);
}

#[test]
fn replace_keeps_the_last_value_of_a_repeated_key() {
    let mut env = Environment::new();
    env.replace(pairs(&[("A", "1"), ("B", "2"), ("A", "3")]));
    assert_eq!(env.var_os("A"), Some("3".to_string()));
    assert_eq!(env.snapshot(), pairs(&[("A", "3"), ("B", "2")]));
}

#[test]
fn unsetting_an_absent_key_changes_nothing() {
    let mut env = Environment::new();
    env.set("A", "1");
    env.unset("Z");
    assert_eq!(env.snapshot(), pairs(&[("A", "1")]));
}

#[test]
fn the_home_directory_is_the_home_variable() {
    let mut env = Environment::new();
    assert_eq!(env.home_dir(), None);
    env.set("HOME", "/home/browser");
    assert_eq!(env.home_dir(), Some("/home/browser".to_string()));
}

#[test]
fn splits_a_path_list_on_colons() {
    assert_eq!(
        split_posix_path_list("/usr/bin:/work/.venv/bin"),
        vec!["/usr/bin".to_string(), "/work/.venv/bin".to_string()]
    );
}

#[test]
fn a_path_list_keeps_its_empty_entries() {
    assert_eq!(split_paths(""), vec!["".to_string()]);
    assert_eq!(split_paths("a::b:"), vec!["a", "", "b", ""]);
}
