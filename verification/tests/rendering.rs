use todos::render::dec_bytes;
use todos::render::echo;
use todos::render::index;
use todos::render::menu;
use todos::render::respond;
use todos::store::create;
use todos::store::toggle_mark;
use todos::store::Filter;
use todos::store::Todo;

fn count_of(haystack: &[u8], needle: &[u8]) -> usize {
    if needle.is_empty() || haystack.len() < needle.len() {
        return 0;
    }
    (0..=haystack.len() - needle.len())
        .filter(|&i| &haystack[i..i + needle.len()] == needle)
        .count()
}

#[test]
fn decimal_digits_are_exact() {
    assert_eq!(dec_bytes(0), b"0".to_vec());
    assert_eq!(dec_bytes(7), b"7".to_vec());
    assert_eq!(dec_bytes(42), b"42".to_vec());
    assert_eq!(dec_bytes(1000), b"1000".to_vec());
}

#[test]
fn response_frame_is_exact() {
    assert_eq!(
        respond(b"hello"),
        b"HTTP/1.1 200 OK\r\nContent-Length: 5\r\n\r\nhello".to_vec()
    );
    assert_eq!(
        respond(b""),
        b"HTTP/1.1 200 OK\r\nContent-Length: 0\r\n\r\n".to_vec()
    );
}

#[test]
fn shown_item_carries_message_index_and_class() {
    let t = Todo { message: b"walk dog".to_vec(), marked: false };
    let li = t.show(3);
    assert_eq!(count_of(&li, b"walk dog"), 1);
    assert_eq!(count_of(&li, b"value=\"3\""), 3);
    assert_eq!(count_of(&li, b"class=\"not-marked\""), 1);
    let t = Todo { message: b"walk dog".to_vec(), marked: true };
    let li = t.show(0);
    assert_eq!(count_of(&li, b"class=\"marked\""), 1);
}

#[test]
fn menu_is_empty_without_items() {
    let todos: Vec<Todo> = Vec::new();
    assert_eq!(menu(&todos).len(), 0);
}

#[test]
fn menu_counts_items_left() {
    let mut todos: Vec<Todo> = Vec::new();
    create(&mut todos, b"a".to_vec());
    create(&mut todos, b"b".to_vec());
    toggle_mark(&mut todos, 0);
    let m = menu(&todos);
    assert_eq!(count_of(&m, b"Items left: 1"), 1);
}

#[test]
fn page_lists_items_in_insertion_order() {
    let mut todos: Vec<Todo> = Vec::new();
    create(&mut todos, b"first".to_vec());
    create(&mut todos, b"second".to_vec());
    let page = index(&todos, Filter::All);
    assert_eq!(count_of(&page, b"<li>"), 2);
    let a = page.windows(5).position(|w| w == b"first").unwrap();
    let b = page.windows(6).position(|w| w == b"second").unwrap();
    assert!(a < b);
}

#[test]
fn page_of_empty_store_has_no_items() {
    let todos: Vec<Todo> = Vec::new();
    let page = index(&todos, Filter::All);
    assert_eq!(count_of(&page, b"<li>"), 0);
}

#[test]
fn filtered_page_numbers_items_within_the_view() {
    let mut todos: Vec<Todo> = Vec::new();
    create(&mut todos, b"a".to_vec());
    create(&mut todos, b"b".to_vec());
    create(&mut todos, b"c".to_vec());
    toggle_mark(&mut todos, 0);
    toggle_mark(&mut todos, 2);
    let page = index(&todos, Filter::Completed);
    assert_eq!(count_of(&page, b"<li>"), 2);
    // the two completed items get the view-local indices 0 and 1
    assert_eq!(count_of(&page, b"value=\"0\""), 3);
    assert_eq!(count_of(&page, b"value=\"1\""), 3);
    assert_eq!(count_of(&page, b"value=\"2\""), 0);
}

#[test]
fn echo_carries_method_path_and_buffer() {
    let out = echo(b"PUT", b"/x", b"PUT /x HTTP/1.1");
    assert_eq!(out, b"PUT /x\r\nData: PUT /x HTTP/1.1".to_vec());
}
