use todos::render::index;
use todos::render::respond;
use todos::server::handle;
use todos::store::Filter;
use todos::store::Todo;

fn count_of(haystack: &[u8], needle: &[u8]) -> usize {
    if needle.is_empty() || haystack.len() < needle.len() {
        return 0;
    }
    (0..=haystack.len() - needle.len())
        .filter(|&i| &haystack[i..i + needle.len()] == needle)
        .count()
}

// A request as the fixed-size read buffer hands it over: the text,
// then NUL padding.
fn buffer(text: &str) -> Vec<u8> {
    let mut b = text.as_bytes().to_vec();
    while b.len() < 1024 {
        b.push(0);
    }
    b
}

#[test]
fn get_on_empty_store_renders_no_items() {
    let mut todos: Vec<Todo> = Vec::new();
    let resp = handle(&mut todos, &buffer("GET / HTTP/1.1\r\n\r\n")).unwrap();
    assert!(resp.starts_with(b"HTTP/1.1 200 OK\r\nContent-Length: "));
    assert_eq!(count_of(&resp, b"<li>"), 0);
}

#[test]
fn create_then_mark_then_filtered_views() {
    let mut todos: Vec<Todo> = Vec::new();
    let resp = handle(
        &mut todos,
        &buffer("POST /create HTTP/1.1\r\n\r\ntodo=walk+dog"),
    )
    .unwrap();
    // the plus stays as received: no form decoding of + or %
    assert_eq!(count_of(&resp, b"walk+dog"), 1);
    assert_eq!(count_of(&resp, b"<li>"), 1);

    let resp = handle(&mut todos, &buffer("POST /mark HTTP/1.1\r\n\r\nindex=0")).unwrap();
    assert_eq!(count_of(&resp, b"class=\"marked\""), 1);

    let resp = handle(&mut todos, &buffer("GET /active HTTP/1.1\r\n\r\n")).unwrap();
    assert_eq!(count_of(&resp, b"<li>"), 0);

    let resp = handle(&mut todos, &buffer("GET /completed HTTP/1.1\r\n\r\n")).unwrap();
    assert_eq!(count_of(&resp, b"<li>"), 1);
    assert_eq!(count_of(&resp, b"walk+dog"), 1);
}

#[test]
fn create_then_update_shows_new_message_once() {
    let mut todos: Vec<Todo> = Vec::new();
    handle(
        &mut todos,
        &buffer("POST /create HTTP/1.1\r\n\r\ntodo=buy milk"),
    )
    .unwrap();
    handle(
        &mut todos,
        &buffer("POST /update HTTP/1.1\r\n\r\nupdate=buy oat milk&index=0"),
    )
    .unwrap();
    let resp = handle(&mut todos, &buffer("GET / HTTP/1.1\r\n\r\n")).unwrap();
    assert_eq!(count_of(&resp, b"buy oat milk"), 1);
    assert_eq!(count_of(&resp, b"buy milk"), 0);
    assert_eq!(count_of(&resp, b"<li>"), 1);
}

#[test]
fn creates_render_in_insertion_order() {
    let mut todos: Vec<Todo> = Vec::new();
    for m in ["one", "two", "three"] {
        let body = format!("POST /create HTTP/1.1\r\n\r\ntodo={}", m);
        handle(&mut todos, &buffer(&body)).unwrap();
    }
    let resp = handle(&mut todos, &buffer("GET / HTTP/1.1\r\n\r\n")).unwrap();
    let pos = |needle: &[u8]| {
        resp.windows(needle.len())
            .position(|w| w == needle)
            .unwrap()
    };
    assert!(pos(b"one") < pos(b"two"));
    assert!(pos(b"two") < pos(b"three"));
}

#[test]
fn body_without_equals_is_noop_rerender() {
    let mut todos: Vec<Todo> = Vec::new();
    handle(&mut todos, &buffer("POST /create HTTP/1.1\r\n\r\ntodo=a")).unwrap();
    let resp = handle(&mut todos, &buffer("POST /mark HTTP/1.1\r\n\r\nindex")).unwrap();
    assert_eq!(todos.len(), 1);
    assert!(!todos[0].marked);
    let unchanged = respond(&index(&todos, Filter::All));
    assert_eq!(resp, unchanged);
}

#[test]
fn create_with_empty_message_keeps_store() {
    let mut todos: Vec<Todo> = Vec::new();
    let resp = handle(&mut todos, &buffer("POST /create HTTP/1.1\r\n\r\ntodo=")).unwrap();
    assert_eq!(todos.len(), 0);
    assert_eq!(count_of(&resp, b"<li>"), 0);
}

#[test]
fn delete_renumbers_following_items() {
    let mut todos: Vec<Todo> = Vec::new();
    for m in ["a", "b", "c"] {
        let body = format!("POST /create HTTP/1.1\r\n\r\ntodo={}", m);
        handle(&mut todos, &buffer(&body)).unwrap();
    }
    handle(&mut todos, &buffer("POST /delete HTTP/1.1\r\n\r\nindex=1")).unwrap();
    assert_eq!(todos.len(), 2);
    assert_eq!(todos[0].message, b"a".to_vec());
    assert_eq!(todos[1].message, b"c".to_vec());
}

#[test]
fn delete_out_of_range_keeps_state_and_responds() {
    let mut todos: Vec<Todo> = Vec::new();
    handle(&mut todos, &buffer("POST /create HTTP/1.1\r\n\r\ntodo=a")).unwrap();
    let resp = handle(&mut todos, &buffer("POST /delete HTTP/1.1\r\n\r\nindex=9")).unwrap();
    assert_eq!(todos.len(), 1);
    assert_eq!(resp, respond(&index(&todos, Filter::All)));
}

#[test]
fn non_numeric_index_aborts_without_response() {
    let mut todos: Vec<Todo> = Vec::new();
    handle(&mut todos, &buffer("POST /create HTTP/1.1\r\n\r\ntodo=a")).unwrap();
    let resp = handle(&mut todos, &buffer("POST /mark HTTP/1.1\r\n\r\nindex=abc"));
    assert!(resp.is_none());
    assert_eq!(todos.len(), 1);
    assert!(!todos[0].marked);
}

#[test]
fn post_without_body_separator_gets_no_response() {
    let mut todos: Vec<Todo> = Vec::new();
    let mut raw = b"POST /create HTTP/1.1".to_vec();
    raw.push(0);
    assert!(handle(&mut todos, &raw).is_none());
}

#[test]
fn malformed_request_line_gets_no_response() {
    let mut todos: Vec<Todo> = Vec::new();
    assert!(handle(&mut todos, &buffer("GET")).is_none());
    assert!(handle(&mut todos, &buffer("")).is_none());
}

#[test]
fn invalid_utf8_aborts_handling() {
    let mut todos: Vec<Todo> = Vec::new();
    let mut raw = b"GET / HTTP/1.1\r\n\r\n".to_vec();
    raw.push(0xff);
    raw.push(0xfe);
    assert!(handle(&mut todos, &raw).is_none());
    // the same request without the stray bytes is served
    raw.truncate(raw.len() - 2);
    assert!(handle(&mut todos, &raw).is_some());
}

#[test]
fn unmatched_route_echoes_request() {
    let mut todos: Vec<Todo> = Vec::new();
    let resp = handle(&mut todos, &buffer("PUT /x HTTP/1.1\r\n\r\n")).unwrap();
    assert!(resp.starts_with(b"HTTP/1.1 200 OK\r\n"));
    assert_eq!(count_of(&resp, b"PUT /x"), 2);
    assert_eq!(count_of(&resp, b"\r\nData: "), 1);
}

#[test]
fn nul_padding_is_ignored() {
    let mut todos: Vec<Todo> = Vec::new();
    let padded = buffer("POST /create HTTP/1.1\r\n\r\ntodo=x");
    let resp_padded = handle(&mut todos, &padded).unwrap();
    let mut todos2: Vec<Todo> = Vec::new();
    let bare = b"POST /create HTTP/1.1\r\n\r\ntodo=x".to_vec();
    let resp_bare = handle(&mut todos2, &bare).unwrap();
    assert_eq!(resp_padded, resp_bare);
    assert_eq!(todos[0].message, todos2[0].message);
}
