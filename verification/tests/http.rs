use uv_wasm::head::{restore_head_response, rewrite_head_as_range};
use uv_wasm::headers::{self, contains, get, remove, strip_browser_controlled, Headers};
use uv_wasm::http::{Method, TransportError, TransportRequest, TransportResponse};
use uv_wasm::range::{parse_content_range, probe_range_header, ContentRange};

fn sample() -> Headers {
    vec![
        ("Accept".to_owned(), "application/json".to_owned()),
        ("User-Agent".to_owned(), "uv/0.12.3".to_owned()),
    ]
}

#[test]
fn lookup_ignores_case() {
    assert_eq!(get(&sample(), "accept"), Some("application/json"));
}

#[test]
fn lookup_reports_absence() {
    assert_eq!(get(&sample(), "range"), None);
}

#[test]
fn setting_replaces_an_existing_value() {
    let mut headers = sample();
    headers::set(&mut headers, "ACCEPT", "text/html");
    assert_eq!(get(&headers, "accept"), Some("text/html"));
    assert_eq!(headers.len(), 2);
}

#[test]
fn setting_appends_a_new_value() {
    let mut headers = sample();
    headers::set(&mut headers, "range", "bytes=0-0");
    assert_eq!(get(&headers, "Range"), Some("bytes=0-0"));
}

#[test]
fn removal_ignores_case() {
    let mut headers = sample();
    remove(&mut headers, "user-agent");
    assert!(!contains(&headers, "User-Agent"));
}

#[test]
fn strips_headers_the_browser_owns() {
    let mut headers = sample();
    headers::set(&mut headers, "content-length", "10");
    strip_browser_controlled(&mut headers);
    assert!(!contains(&headers, "user-agent"));
    assert!(!contains(&headers, "content-length"));
    assert!(contains(&headers, "accept"));
}

#[test]
fn keeps_headers_the_index_needs() {
    let mut headers = vec![
        ("accept".to_owned(), "application/vnd.pypi.simple.v1+json".to_owned()),
        ("authorization".to_owned(), "Bearer token".to_owned()),
        ("range".to_owned(), "bytes=0-1023".to_owned()),
    ];
    strip_browser_controlled(&mut headers);
    assert_eq!(headers.len(), 3);
}

#[test]
fn a_set_header_is_stored_lowercase_at_the_end() {
    let mut headers = sample();
    headers::set(&mut headers, "X-Trace", "1");
    assert_eq!(headers.last(), Some(&("x-trace".to_owned(), "1".to_owned())));
}

fn range(first: u64, last: u64, complete_length: Option<u64>) -> Option<(u64, u64, Option<u64>)> {
    Some((first, last, complete_length))
}

fn parsed(value: &str) -> Option<(u64, u64, Option<u64>)> {
    parse_content_range(value).map(|r: ContentRange| (r.first, r.last, r.complete_length))
}

#[test]
fn parses_a_complete_range() {
    assert_eq!(parsed("bytes 0-0/11050"), range(0, 0, Some(11050)));
}

#[test]
fn parses_a_mid_file_range() {
    assert_eq!(parsed("bytes 200-1023/4096"), range(200, 1023, Some(4096)));
}

#[test]
fn accepts_an_unknown_total_length() {
    assert_eq!(parsed("bytes 0-99/*"), range(0, 99, None));
}

#[test]
fn tolerates_surrounding_whitespace() {
    assert_eq!(parsed("  bytes 0-0/10  "), range(0, 0, Some(10)));
}

#[test]
fn rejects_a_missing_unit() {
    assert_eq!(parsed("0-0/10"), None);
}

#[test]
fn rejects_a_missing_total() {
    assert_eq!(parsed("bytes 0-0"), None);
}

#[test]
fn rejects_an_inverted_span() {
    assert_eq!(parsed("bytes 10-0/100"), None);
}

#[test]
fn rejects_a_non_numeric_span() {
    assert_eq!(parsed("bytes a-b/100"), None);
}

#[test]
fn rejects_a_non_numeric_total() {
    assert_eq!(parsed("bytes 0-0/many"), None);
}

#[test]
fn the_probe_asks_for_a_single_byte() {
    assert_eq!(probe_range_header(), ("range", "bytes=0-0"));
}

#[test]
fn a_range_past_u64_is_rejected() {
    assert_eq!(parsed("bytes 0-18446744073709551616/*"), None);
    assert_eq!(parsed("bytes 0-18446744073709551615/+7"), range(0, u64::MAX, Some(7)));
}

fn head_request() -> TransportRequest {
    TransportRequest {
        method: Method::Head,
        url: "https://files.pythonhosted.org/packages/x/rich.whl".to_owned(),
        headers: vec![("accept".to_owned(), "*/*".to_owned())],
        body: None,
    }
}

fn response(status: u16, headers: Vec<(String, String)>) -> TransportResponse {
    TransportResponse { status, headers, body: b"partial".to_vec() }
}

#[test]
fn a_head_becomes_a_single_byte_get() {
    let rewritten = rewrite_head_as_range(&head_request()).expect("should rewrite");
    assert_eq!(rewritten.method, Method::Get);
    assert_eq!(get(&rewritten.headers, "range"), Some("bytes=0-0"));
}

#[test]
fn the_rewrite_keeps_the_url_and_other_headers() {
    let rewritten = rewrite_head_as_range(&head_request()).expect("should rewrite");
    assert_eq!(rewritten.url, head_request().url);
    assert_eq!(get(&rewritten.headers, "accept"), Some("*/*"));
}

#[test]
fn a_get_is_left_alone() {
    let mut request = head_request();
    request.method = Method::Get;
    assert!(rewrite_head_as_range(&request).is_none());
}

#[test]
fn an_existing_range_header_is_replaced() {
    let mut request = head_request();
    headers::set(&mut request.headers, "range", "bytes=100-200");
    let rewritten = rewrite_head_as_range(&request).expect("should rewrite");
    assert_eq!(get(&rewritten.headers, "range"), Some("bytes=0-0"));
}

#[test]
fn a_partial_response_becomes_a_head_response() {
    let restored = restore_head_response(response(
        206,
        vec![("content-range".to_owned(), "bytes 0-0/11050".to_owned())],
    ));
    assert_eq!(restored.status, 200);
    assert!(restored.body.is_empty());
    assert_eq!(get(&restored.headers, "content-length"), Some("11050"));
}

#[test]
fn an_unknown_total_length_drops_content_length() {
    let restored = restore_head_response(response(
        206,
        vec![
            ("content-range".to_owned(), "bytes 0-0/*".to_owned()),
            ("content-length".to_owned(), "1".to_owned()),
        ],
    ));
    assert_eq!(get(&restored.headers, "content-length"), None);
}

#[test]
fn a_server_that_ignored_the_range_still_yields_a_head_response() {
    let restored =
        restore_head_response(response(200, vec![("content-length".to_owned(), "11050".to_owned())]));
    assert_eq!(restored.status, 200);
    assert!(restored.body.is_empty());
    assert_eq!(get(&restored.headers, "content-length"), None);
}

#[test]
fn an_error_status_passes_through() {
    let restored = restore_head_response(response(404, Vec::new()));
    assert_eq!(restored.status, 404);
    assert!(restored.body.is_empty());
}

#[test]
fn a_malformed_content_range_drops_content_length() {
    let restored = restore_head_response(response(
        206,
        vec![("content-range".to_owned(), "garbage".to_owned())],
    ));
    assert_eq!(restored.status, 200);
    assert_eq!(get(&restored.headers, "content-length"), None);
}

#[test]
fn accept_ranges_survives_the_restore() {
    let restored = restore_head_response(response(
        206,
        vec![
            ("content-range".to_owned(), "bytes 0-0/10".to_owned()),
            ("accept-ranges".to_owned(), "bytes".to_owned()),
        ],
    ));
    assert_eq!(get(&restored.headers, "accept-ranges"), Some("bytes"));
}

#[test]
fn a_restored_answer_announces_the_complete_length() {
    let restored = restore_head_response(response(
        206,
        vec![("Content-Range".to_owned(), "bytes 0-0/18446744073709551615".to_owned())],
    ));
    assert_eq!(restored.content_length(), Some(u64::MAX));
}

#[test]
fn methods_render_as_uppercase() {
    assert_eq!(Method::Get.as_str(), "GET");
    assert_eq!(Method::Head.as_str(), "HEAD");
    assert_eq!(Method::Post.as_str(), "POST");
    assert_eq!(Method::Put.as_str(), "PUT");
}

#[test]
fn requests_build_fluently() {
    let request = TransportRequest::get("https://pypi.org/simple/rich/")
        .with_header("accept", "application/vnd.pypi.simple.v1+json");
    assert_eq!(request.method, Method::Get);
    assert_eq!(get(&request.headers, "Accept"), Some("application/vnd.pypi.simple.v1+json"));
}

#[test]
fn success_covers_the_two_hundreds() {
    let ok = TransportResponse { status: 204, headers: Vec::new(), body: Vec::new() };
    assert!(ok.is_success());
    let missing = TransportResponse { status: 404, headers: Vec::new(), body: Vec::new() };
    assert!(!missing.is_success());
}

#[test]
fn content_length_is_parsed() {
    let response = TransportResponse {
        status: 200,
        headers: vec![("content-length".to_owned(), " 4096 ".to_owned())],
        body: Vec::new(),
    };
    assert_eq!(response.content_length(), Some(4096));
}

#[test]
fn a_missing_content_length_is_absent() {
    let response = TransportResponse { status: 200, headers: Vec::new(), body: Vec::new() };
    assert_eq!(response.content_length(), None);
}

#[test]
fn range_support_is_detected_from_accept_ranges() {
    let response = TransportResponse {
        status: 200,
        headers: vec![("accept-ranges".to_owned(), "Bytes".to_owned())],
        body: Vec::new(),
    };
    assert!(response.supports_ranges());
}

#[test]
fn a_partial_response_implies_range_support() {
    let response = TransportResponse { status: 206, headers: Vec::new(), body: Vec::new() };
    assert!(response.supports_ranges());
}

#[test]
fn errors_describe_themselves() {
    assert!(TransportError::Network("offline".to_owned()).message().contains("offline"));
    assert_eq!(TransportError::Cancelled.message(), "the request was cancelled");
    assert!(TransportError::Unsupported("streams".to_owned()).message().contains("streams"));
}

#[test]
fn a_head_request_builds_without_headers() {
    let request = TransportRequest::head("https://example.invalid/a");
    assert_eq!(request.method, Method::Head);
    assert!(request.headers.is_empty());
    assert!(request.body.is_none());
}

#[test]
fn a_head_send_is_planned_as_a_ranged_get_and_restored() {
    let plan = uv_wasm::head::plan_send(TransportRequest::head("https://files.example/a.whl"));
    assert!(plan.restore);
    assert_eq!(plan.request.method, Method::Get);
    assert_eq!(get(&plan.request.headers, "range"), Some("bytes=0-0"));

    let answer = TransportResponse {
        status: 206,
        headers: vec![
            ("Content-Range".to_owned(), "bytes 0-0/4096".to_owned()),
            ("Content-Length".to_owned(), "1".to_owned()),
        ],
        body: b"x".to_vec(),
    };
    let restored = uv_wasm::head::finish_send(plan.restore, Ok(answer)).expect("answer");
    assert_eq!(restored.status, 200);
    assert!(restored.body.is_empty());
    assert_eq!(get(&restored.headers, "content-length"), Some("4096"));
}

#[test]
fn any_other_send_goes_out_and_comes_back_as_it_is() {
    let plan = uv_wasm::head::plan_send(TransportRequest::get("https://files.example/a.whl"));
    assert!(!plan.restore);
    assert_eq!(plan.request.method, Method::Get);
    assert_eq!(plan.request.url, "https://files.example/a.whl");
    assert!(plan.request.headers.is_empty());

    let answer = TransportResponse { status: 206, headers: Vec::new(), body: b"x".to_vec() };
    let passed = uv_wasm::head::finish_send(false, Ok(answer)).expect("answer");
    assert_eq!(passed.status, 206);
    assert_eq!(passed.body, b"x".to_vec());
}

#[test]
fn a_failed_send_passes_its_error_through() {
    let restored = uv_wasm::head::finish_send(true, Err(TransportError::Cancelled));
    assert!(matches!(restored, Err(TransportError::Cancelled)));
    let passed = uv_wasm::head::finish_send(false, Err(TransportError::Cancelled));
    assert!(matches!(passed, Err(TransportError::Cancelled)));
}
