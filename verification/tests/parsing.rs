use todos::parse::parse_form;
use todos::parse::parse_index;
use todos::parse::parse_request;
use todos::parse::split_segments;
use todos::parse::truncate_at_nul;
use todos::router::route;
use todos::router::Route;

#[test]
fn truncates_at_first_nul() {
    let buf = b"GET / HTTP/1.1\0\0\0junk";
    assert_eq!(truncate_at_nul(buf), b"GET / HTTP/1.1".to_vec());
}

#[test]
fn truncate_without_nul_keeps_all() {
    let buf = b"abc";
    assert_eq!(truncate_at_nul(buf), b"abc".to_vec());
}

#[test]
fn request_line_splits_method_and_path() {
    let req = parse_request(b"POST /create HTTP/1.1\r\nHost: x\r\n\r\n").unwrap();
    assert_eq!(req.method, b"POST".to_vec());
    assert_eq!(req.path, b"/create".to_vec());
    assert_eq!(req.segments, vec![b"create".to_vec()]);
}

#[test]
fn root_path_has_no_segments() {
    let req = parse_request(b"GET / HTTP/1.1\r\n\r\n").unwrap();
    assert_eq!(req.method, b"GET".to_vec());
    assert_eq!(req.segments.len(), 0);
}

#[test]
fn missing_path_token_is_malformed() {
    assert!(parse_request(b"GET").is_none());
    assert!(parse_request(b"").is_none());
    assert!(parse_request(b"   \r\n").is_none());
}

#[test]
fn empty_segments_are_discarded() {
    let segs = split_segments(b"//a//b/");
    assert_eq!(segs, vec![b"a".to_vec(), b"b".to_vec()]);
    assert_eq!(split_segments(b"/").len(), 0);
}

#[test]
fn form_values_come_in_field_order() {
    let vals = parse_form(b"POST /update HTTP/1.1\r\n\r\nupdate=milk&index=2").unwrap();
    assert_eq!(vals, vec![b"milk".to_vec(), b"2".to_vec()]);
}

#[test]
fn form_value_is_all_after_first_equals() {
    let vals = parse_form(b"X\r\n\r\nk=v=w").unwrap();
    assert_eq!(vals, vec![b"v=w".to_vec()]);
}

#[test]
fn form_pair_without_equals_is_dropped() {
    let vals = parse_form(b"X\r\n\r\ntodo").unwrap();
    assert_eq!(vals.len(), 0);
    let vals = parse_form(b"X\r\n\r\na&b=c").unwrap();
    assert_eq!(vals, vec![b"c".to_vec()]);
}

#[test]
fn empty_body_decodes_to_no_values() {
    let vals = parse_form(b"X\r\n\r\n").unwrap();
    assert_eq!(vals.len(), 0);
}

#[test]
fn absent_separator_means_no_body() {
    assert!(parse_form(b"POST /create HTTP/1.1\r\nHost: x").is_none());
}

#[test]
fn index_parses_decimal_digits() {
    assert_eq!(parse_index(b"0"), Some(0));
    assert_eq!(parse_index(b"42"), Some(42));
    assert_eq!(parse_index(b"007"), Some(7));
}

#[test]
fn index_rejects_non_numeric() {
    assert_eq!(parse_index(b""), None);
    assert_eq!(parse_index(b"4x"), None);
    assert_eq!(parse_index(b"-1"), None);
    assert_eq!(parse_index(b"99999999999999999999999999"), None);
}

#[test]
fn routing_table_is_exact() {
    let none: Vec<Vec<u8>> = vec![];
    let seg = |s: &str| vec![s.as_bytes().to_vec()];
    assert_eq!(route(b"GET", &none), Route::ViewAll);
    assert_eq!(route(b"GET", &seg("active")), Route::ViewActive);
    assert_eq!(route(b"GET", &seg("completed")), Route::ViewCompleted);
    assert_eq!(route(b"POST", &seg("create")), Route::Create);
    assert_eq!(route(b"POST", &seg("update")), Route::Update);
    assert_eq!(route(b"POST", &seg("delete")), Route::Delete);
    assert_eq!(route(b"POST", &seg("mark")), Route::Mark);
}

#[test]
fn routing_is_case_sensitive_and_exact() {
    let seg = |s: &str| vec![s.as_bytes().to_vec()];
    assert_eq!(route(b"get", &vec![]), Route::Unmatched);
    assert_eq!(route(b"GET", &seg("Active")), Route::Unmatched);
    assert_eq!(route(b"POST", &vec![]), Route::Unmatched);
    assert_eq!(route(b"GET", &seg("create")), Route::Unmatched);
    assert_eq!(
        route(b"POST", &vec![b"create".to_vec(), b"x".to_vec()]),
        Route::Unmatched
    );
}
