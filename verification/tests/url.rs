use uv_wasm::file_url::{FileUrl, UrlFilePathExt};

fn to_url(path: &str) -> FileUrl {
    <FileUrl as UrlFilePathExt>::from_file_path(path).expect("path should convert")
}

#[test]
fn converts_an_absolute_path() {
    assert_eq!(to_url("/work/project").as_str(), "file:///work/project");
}

#[test]
fn percent_encodes_reserved_characters() {
    assert_eq!(to_url("/work/a b").as_str(), "file:///work/a%20b");
}

#[test]
fn marks_directories_with_a_trailing_slash() {
    let url = <FileUrl as UrlFilePathExt>::from_directory_path("/work/project")
        .expect("path should convert");
    assert_eq!(url.as_str(), "file:///work/project/");
}

#[test]
fn round_trips_a_simple_path() {
    let url = to_url("/work/project/pyproject.toml");
    assert_eq!(
        UrlFilePathExt::to_file_path(&url),
        Ok("/work/project/pyproject.toml".to_string())
    );
}

#[test]
fn round_trips_an_encoded_path() {
    let url = to_url("/work/a b/c+d");
    assert_eq!(UrlFilePathExt::to_file_path(&url), Ok("/work/a b/c+d".to_string()));
}

#[test]
fn rejects_a_non_file_scheme() {
    let url = FileUrl::parse("https://example.com/x").expect("valid url");
    assert_eq!(UrlFilePathExt::to_file_path(&url), Err(()));
}

#[test]
fn accepts_a_localhost_host() {
    let url = FileUrl::parse("file://localhost/work/project").expect("valid url");
    assert_eq!(UrlFilePathExt::to_file_path(&url), Ok("/work/project".to_string()));
}

#[test]
fn rejects_a_remote_host() {
    let url = FileUrl::parse("file://example.com/work").expect("valid url");
    assert_eq!(UrlFilePathExt::to_file_path(&url), Err(()));
}

#[test]
fn normalises_relative_input() {
    assert_eq!(to_url("work/./project").as_str(), "file:///work/project");
}

#[test]
fn the_root_converts_to_the_bare_file_url() {
    assert_eq!(to_url("/").as_str(), "file:///");
    assert_eq!(UrlFilePathExt::to_file_path(&to_url("/")), Ok("/".to_string()));
}

#[test]
fn dot_dot_components_are_resolved_before_conversion() {
    assert_eq!(to_url("/work/a/../b").as_str(), "file:///work/b");
}

#[test]
fn an_encoded_slash_decodes_to_an_absolute_segment() {
    let url = FileUrl::parse("file:///work/%2Fetc").expect("valid url");
    assert_eq!(UrlFilePathExt::to_file_path(&url), Ok("/etc".to_string()));
}

#[test]
fn a_segment_that_is_not_utf8_is_refused() {
    let url = FileUrl::parse("file:///work/%FF").expect("valid url");
    assert_eq!(UrlFilePathExt::to_file_path(&url), Err(()));
}

#[test]
fn an_unparsable_url_is_refused() {
    assert!(FileUrl::parse("not a url").is_err());
}
