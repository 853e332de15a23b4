//! The renderer and response writer: the HTML page for a store state
//! and filter, the item and status-line templates, and the framing of a
//! body into a minimal HTTP response.  Everything is built as bytes;
//! each template piece is pinned in the contracts to the literal that
//! the code writes.

use vstd::prelude::*;
use vstd::string::StringSliceAdditionalSpecFns;
use crate::store::Filter;
use crate::store::Todo;
use crate::store::TodoView;
use crate::store::count_active;
use crate::store::filtered;
use crate::store::filtered_todos;

verus! {

/// The decimal digits of `n`, most significant first.
pub open spec fn dec_rep(n: nat) -> Seq<u8>
    decreases n,
{
    if n < 10 {
        seq![(48 + n) as u8]
    } else {
        dec_rep(n / 10).push((48 + n % 10) as u8)
    }
}

/// Writes `n` in decimal: digits that read back to `n` itself.
pub fn dec_bytes(n: usize) -> (r: Vec<u8>)
    ensures
        r@ == dec_rep(n as nat),
        crate::parse::all_digits(r@),
        crate::parse::digits_val(r@) == n as nat,
    decreases n,
{
    if n < 10 {
        let mut r: Vec<u8> = Vec::new();
        r.push(48 + n as u8);
        proof {
            assert(r@ =~= seq![(48 + n as nat) as u8]);
            assert(r@.drop_last() =~= Seq::<u8>::empty());
            assert(crate::parse::digits_val(Seq::<u8>::empty()) == 0);
        }
        r
    } else {
        let mut r = dec_bytes(n / 10);
        let ghost prefix = r@;
        r.push(48 + (n % 10) as u8);
        proof {
            assert(r@.drop_last() =~= prefix);
        }
        r
    }
}

/// Appends a byte slice to the output being built.
fn append(out: &mut Vec<u8>, piece: &[u8])
    ensures
        final(out)@ == old(out)@ + piece@,
{
    out.extend_from_slice(piece);
    proof {
        assert(out@ =~= old(out)@ + piece@);
    }
}

/// The CSS class that styles an item: struck through once marked.
pub open spec fn class_of(marked: bool) -> Seq<u8> {
    if marked {
        ("marked").spec_bytes()
    } else {
        ("not-marked").spec_bytes()
    }
}

/// The rendering of one item at view-local position `i`: the mark,
/// update and delete forms around its message, addressed by `i`.
pub open spec fn show_spec(t: TodoView, i: nat) -> Seq<u8> {
    ("\n<li>\n<form action=\"/mark\" method=\"post\">\n    <input type=\"hidden\" name=\"index\" value=\"").spec_bytes() + dec_rep(i) + ("\">\n    <input type=\"submit\" id=\"mark\" value=\"Mark\">\n</form>\n<form action=\"/update\" method=\"post\">\n  <input type=\"text\" class=\"").spec_bytes() + class_of(t.marked) + (
    "\" name=\"update\" value=\"").spec_bytes() + t.message + ("\" autocomplete=\"off\">\n  <input type=\"hidden\" name=\"index\" value=\"").spec_bytes() + dec_rep(i) + (
    "\">\n</form>\n<form action=\"/delete\" method=\"post\">\n  <input type=\"hidden\" name=\"index\" value=\"").spec_bytes() + dec_rep(i) + ("\">\n  <input type=\"submit\" id=\"delete\" value=\"Delete\">\n</form>\n</li>\n").spec_bytes()
}

impl Todo {
    /// Renders this item as a list entry addressed by `index`.
    pub fn show(&self, index: usize) -> (r: Vec<u8>)
        ensures
            r@ == show_spec(self@, index as nat),
    {
        let idx = dec_bytes(index);
        let mut r: Vec<u8> = Vec::new();
        append(&mut r, ("\n<li>\n<form action=\"/mark\" method=\"post\">\n    <input type=\"hidden\" name=\"index\" value=\"").as_bytes());
        append(&mut r, idx.as_slice());
        append(&mut r, ("\">\n    <input type=\"submit\" id=\"mark\" value=\"Mark\">\n</form>\n<form action=\"/update\" method=\"post\">\n  <input type=\"text\" class=\"").as_bytes());
        if self.marked {
            append(&mut r, ("marked").as_bytes());
        } else {
            append(&mut r, ("not-marked").as_bytes());
        }
        append(&mut r, ("\" name=\"update\" value=\"").as_bytes());
        append(&mut r, self.message.as_slice());
        append(&mut r, ("\" autocomplete=\"off\">\n  <input type=\"hidden\" name=\"index\" value=\"").as_bytes());
        append(&mut r, idx.as_slice());
        append(&mut r, ("\">\n</form>\n<form action=\"/delete\" method=\"post\">\n  <input type=\"hidden\" name=\"index\" value=\"").as_bytes());
        append(&mut r, idx.as_slice());
        append(&mut r, ("\">\n  <input type=\"submit\" id=\"delete\" value=\"Delete\">\n</form>\n</li>\n").as_bytes());
        r
    }
}

/// The renderings of the items of `s`, each addressed by its position
/// in `s` itself: the view-local index.
pub open spec fn items_spec(s: Seq<TodoView>) -> Seq<u8>
    decreases s.len(),
{
    if s.len() == 0 {
        Seq::empty()
    } else {
        items_spec(s.drop_last()) + show_spec(s.last(), (s.len() - 1) as nat)
    }
}

/// Renders a list of items, numbering them from zero.
fn render_items(items: &[Todo]) -> (r: Vec<u8>)
    ensures
        r@ == items_spec(items.deep_view()),
{
    let ghost s = items.deep_view();
    let mut r: Vec<u8> = Vec::new();
    let mut i: usize = 0;
    proof {
        assert(r@ =~= items_spec(s.subrange(0, 0)));
    }
    while i < items.len()
        invariant
            i <= items@.len(),
            s == items.deep_view(),
            s.len() == items@.len(),
            r@ == items_spec(s.subrange(0, i as int)),
        decreases items@.len() - i,
    {
        let piece = items[i].show(i);
        append(&mut r, piece.as_slice());
        proof {
            assert(s.subrange(0, i as int + 1).drop_last() =~= s.subrange(0, i as int));
            assert(s.subrange(0, i as int + 1).last() == s[i as int]);
        }
        i = i + 1;
    }
    proof {
        assert(s.subrange(0, s.len() as int) =~= s);
    }
    r
}

/// The status line under the list: how many items are left, with the
/// three view links.  An empty store renders no status line.
pub open spec fn menu_spec(s: Seq<TodoView>) -> Seq<u8> {
    if s.len() > 0 {
        ("\n                <p>\n                Items left: ").spec_bytes() + dec_rep(filtered(s, Filter::Active).len()) + (
        "\n                <a href=\"\\#\">All</a>, \n                <a href=\"/active\">Active</a>,\n                <a href=\"/completed\">Completed</a>\n                </p>\n                ").spec_bytes()
    } else {
        Seq::empty()
    }
}

/// Renders the status line: the count of unmarked items and the view
/// links, or nothing when the store is empty.
pub fn menu(todos: &[Todo]) -> (r: Vec<u8>)
    ensures
        r@ == menu_spec(todos.deep_view()),
{
    if todos.len() > 0 {
        let left = count_active(todos);
        let digits = dec_bytes(left);
        let mut r: Vec<u8> = Vec::new();
        append(&mut r, ("\n                <p>\n                Items left: ").as_bytes());
        append(&mut r, digits.as_slice());
        append(&mut r, ("\n                <a href=\"\\#\">All</a>, \n                <a href=\"/active\">Active</a>,\n                <a href=\"/completed\">Completed</a>\n                </p>\n                ").as_bytes());
        r
    } else {
        let r: Vec<u8> = Vec::new();
        proof {
            assert(r@ =~= Seq::<u8>::empty());
        }
        r
    }
}

/// The whole page for a store state and filter: the style block and
/// create form, the filtered items, and the status line.
pub open spec fn page_spec(s: Seq<TodoView>, f: Filter) -> Seq<u8> {
    ("\n<style>\nbody { max-width: 800px; margin: 0 auto; font-size: 28px; font-family: \"Helvetica\", \"Arial\", sans-serif; }\na { color: #e81c4f; }\nh1 { text-align: center; margin: 0; }\nform { display: inline; }\nul { margin: 10px 0; padding: 0; }\nli { list-style-type: none; position: relative; margin: 10px 0; }\ninput[type=text] { font-size: 19px; padding: 0.5em; width: 100%; }\ninput[type=submit] { font-size: 20px; height: 45px; position: absolute; }\n#delete { right: 0px; }\n#mark { right: 73px; }\n.marked { color: grey; text-decoration: line-through; }\np { margin: 0; }\n</style>\n<h1>todos</h1>\n<form action=\"/create\" method=\"post\">\n  <input type=\"text\" name=\"todo\" placeholder=\"What needs to be done?\" autocomplete=\"off\">\n</form>\n").spec_bytes() + items_spec(filtered(s, f)) + ("<ul>").spec_bytes() + menu_spec(s) + (
    "</ul>").spec_bytes()
}

/// Renders the page: every item the filter keeps, numbered within the
/// view, then the status line.
pub fn index(todos: &[Todo], filter: Filter) -> (r: Vec<u8>)
    ensures
        r@ == page_spec(todos.deep_view(), filter),
{
    let shown = filtered_todos(todos, filter);
    let shown_items: &[Todo] = shown.as_slice();
    proof {
        assert(shown_items.deep_view() =~= shown.deep_view());
    }
    let items = render_items(shown_items);
    let status = menu(todos);
    let mut r: Vec<u8> = Vec::new();
    append(&mut r, ("\n<style>\nbody { max-width: 800px; margin: 0 auto; font-size: 28px; font-family: \"Helvetica\", \"Arial\", sans-serif; }\na { color: #e81c4f; }\nh1 { text-align: center; margin: 0; }\nform { display: inline; }\nul { margin: 10px 0; padding: 0; }\nli { list-style-type: none; position: relative; margin: 10px 0; }\ninput[type=text] { font-size: 19px; padding: 0.5em; width: 100%; }\ninput[type=submit] { font-size: 20px; height: 45px; position: absolute; }\n#delete { right: 0px; }\n#mark { right: 73px; }\n.marked { color: grey; text-decoration: line-through; }\np { margin: 0; }\n</style>\n<h1>todos</h1>\n<form action=\"/create\" method=\"post\">\n  <input type=\"text\" name=\"todo\" placeholder=\"What needs to be done?\" autocomplete=\"off\">\n</form>\n").as_bytes());
    append(&mut r, items.as_slice());
    append(&mut r, ("<ul>").as_bytes());
    append(&mut r, status.as_slice());
    append(&mut r, ("</ul>").as_bytes());
    r
}

/// A minimal HTTP response around `body`: always status 200, with the
/// body's byte length as its content length.
pub open spec fn respond_spec(body: Seq<u8>) -> Seq<u8> {
    ("HTTP/1.1 200 OK\r\nContent-Length: ").spec_bytes() + dec_rep(body.len()) + ("\r\n\r\n").spec_bytes() + body
}

/// Frames a rendered body into the one response this server ever
/// sends: `200 OK` with the right content length.
pub fn respond(message: &[u8]) -> (r: Vec<u8>)
    ensures
        r@ == respond_spec(message@),
{
    let len = dec_bytes(message.len());
    let mut r: Vec<u8> = Vec::new();
    append(&mut r, ("HTTP/1.1 200 OK\r\nContent-Length: ").as_bytes());
    append(&mut r, len.as_slice());
    append(&mut r, ("\r\n\r\n").as_bytes());
    append(&mut r, message);
    r
}

/// The diagnostic echo for an unmatched route: the method and path
/// tokens, then the raw buffer.
pub open spec fn echo_spec(m: Seq<u8>, p: Seq<u8>, raw: Seq<u8>) -> Seq<u8> {
    m + (" ").spec_bytes() + p + ("\r\nData: ").spec_bytes() + raw
}

/// Renders the diagnostic echo of an unmatched request.
pub fn echo(method: &[u8], path: &[u8], raw: &[u8]) -> (r: Vec<u8>)
    ensures
        r@ == echo_spec(method@, path@, raw@),
{
    let mut r: Vec<u8> = Vec::new();
    append(&mut r, method);
    append(&mut r, (" ").as_bytes());
    append(&mut r, path);
    append(&mut r, ("\r\nData: ").as_bytes());
    append(&mut r, raw);
    r
}

} // verus!
