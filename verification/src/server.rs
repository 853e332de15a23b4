//! The per-request step of the server: from the raw bytes of one
//! request to the new store state and the response bytes, if any are
//! owed.  `handle_spec` is the whole step as a mathematical function;
//! `handle` is its executable form.

use vstd::prelude::*;
use vstd::utf8::valid_utf8;
use crate::parse::ParsedRequest;
use crate::parse::all_digits;
use crate::parse::digits_val;
use crate::parse::form_values;
use crate::parse::is_valid_utf8;
use crate::parse::method_of;
use crate::parse::parse_form;
use crate::parse::parse_index;
use crate::parse::parse_request;
use crate::parse::path_of;
use crate::parse::request_ok;
use crate::parse::segments;
use crate::parse::truncate_at_nul;
use crate::parse::truncated_spec;
use crate::render::echo;
use crate::render::echo_spec;
use crate::render::index;
use crate::render::page_spec;
use crate::render::respond;
use crate::render::respond_spec;
use crate::router::Route;
use crate::router::route;
use crate::router::route_spec;
use crate::store::Filter;
use crate::store::Todo;
use crate::store::TodoView;
use crate::store::create;
use crate::store::create_spec;
use crate::store::delete;
use crate::store::delete_spec;
use crate::store::toggle_mark;
use crate::store::toggle_spec;
use crate::store::update;
use crate::store::update_spec;

verus! {

/// A form field parses as a store index when it is non-empty, all
/// digits, and its value fits the machine's word.
pub open spec fn index_ok(v: Seq<u8>) -> bool {
    v.len() > 0 && all_digits(v) && digits_val(v) <= usize::MAX as nat
}

/// How many positional form fields a mutating route reads.
pub open spec fn required_fields(r: Route) -> nat {
    match r {
        Route::Update => 2,
        Route::Create => 1,
        Route::Delete => 1,
        Route::Mark => 1,
        _ => 0,
    }
}

/// What one request does: the store afterwards, and the response bytes
/// owed, or `None` where handling is aborted with no response (a
/// buffer that is not UTF-8, a request line short of two tokens, a
/// POST without a body separator, or an index field that does not
/// parse).  A POST whose body decodes short of its required fields is
/// a no-op that re-renders the unchanged store.
pub open spec fn handle_spec(s: Seq<TodoView>, buf: Seq<u8>) -> (Seq<TodoView>, Option<Seq<u8>>) {
    if !valid_utf8(buf) {
        (s, None)
    } else {
        let raw = truncated_spec(buf);
        if !request_ok(raw) {
            (s, None)
        } else {
            let m = method_of(raw);
            let p = path_of(raw);
            match route_spec(m, segments(p)) {
                Route::ViewAll => (s, Some(respond_spec(page_spec(s, Filter::All)))),
                Route::ViewActive => (s, Some(respond_spec(page_spec(s, Filter::Active)))),
                Route::ViewCompleted => (s, Some(respond_spec(page_spec(s, Filter::Completed)))),
                Route::Create => match form_values(raw) {
                    None => (s, None),
                    Some(vals) => {
                        let s2 = if vals.len() >= 1 {
                            create_spec(s, vals[0])
                        } else {
                            s
                        };
                        (s2, Some(respond_spec(page_spec(s2, Filter::All))))
                    },
                },
                Route::Update => match form_values(raw) {
                    None => (s, None),
                    Some(vals) => if vals.len() >= 2 {
                        if index_ok(vals[1]) {
                            let s2 = update_spec(s, digits_val(vals[1]) as int, vals[0]);
                            (s2, Some(respond_spec(page_spec(s2, Filter::All))))
                        } else {
                            (s, None)
                        }
                    } else {
                        (s, Some(respond_spec(page_spec(s, Filter::All))))
                    },
                },
                Route::Delete => match form_values(raw) {
                    None => (s, None),
                    Some(vals) => if vals.len() >= 1 {
                        if index_ok(vals[0]) {
                            let s2 = delete_spec(s, digits_val(vals[0]) as int);
                            (s2, Some(respond_spec(page_spec(s2, Filter::All))))
                        } else {
                            (s, None)
                        }
                    } else {
                        (s, Some(respond_spec(page_spec(s, Filter::All))))
                    },
                },
                Route::Mark => match form_values(raw) {
                    None => (s, None),
                    Some(vals) => if vals.len() >= 1 {
                        if index_ok(vals[0]) {
                            let s2 = toggle_spec(s, digits_val(vals[0]) as int);
                            (s2, Some(respond_spec(page_spec(s2, Filter::All))))
                        } else {
                            (s, None)
                        }
                    } else {
                        (s, Some(respond_spec(page_spec(s, Filter::All))))
                    },
                },
                Route::Unmatched => (s, Some(respond_spec(echo_spec(m, p, raw)))),
            }
        }
    }
}

/// Renders the unfiltered page of the current store and frames it as a
/// response.
fn respond_with_all(todos: &Vec<Todo>) -> (r: Vec<u8>)
    ensures
        r@ == respond_spec(page_spec(todos.deep_view(), Filter::All)),
{
    let t: &[Todo] = todos.as_slice();
    proof {
        assert(t.deep_view() =~= todos.deep_view());
    }
    let page = index(t, Filter::All);
    respond(page.as_slice())
}

/// Handles one request: reads the buffer, routes it, applies the one
/// store mutation it asks for, and renders the response.  Returns
/// `None` exactly where handling of the connection is aborted with no
/// response written.
pub fn handle(todos: &mut Vec<Todo>, buf: &[u8]) -> (resp: Option<Vec<u8>>)
    ensures
        final(todos).deep_view() == handle_spec(old(todos).deep_view(), buf@).0,
        match resp {
            Some(v) => handle_spec(old(todos).deep_view(), buf@).1 == Some(v@),
            None => handle_spec(old(todos).deep_view(), buf@).1 is None,
        },
{
    let ghost s0 = todos.deep_view();
    if !is_valid_utf8(buf) {
        return None;
    }
    let raw = truncate_at_nul(buf);
    let raw_s: &[u8] = raw.as_slice();
    let req: ParsedRequest = match parse_request(raw_s) {
        None => {
            return None;
        },
        Some(r) => r,
    };
    let rt = route(req.method.as_slice(), &req.segments);
    match rt {
        Route::ViewAll => {
            let t: &[Todo] = todos.as_slice();
            proof {
                assert(t.deep_view() =~= todos.deep_view());
            }
            let page = index(t, Filter::All);
            Some(respond(page.as_slice()))
        },
        Route::ViewActive => {
            let t: &[Todo] = todos.as_slice();
            proof {
                assert(t.deep_view() =~= todos.deep_view());
            }
            let page = index(t, Filter::Active);
            Some(respond(page.as_slice()))
        },
        Route::ViewCompleted => {
            let t: &[Todo] = todos.as_slice();
            proof {
                assert(t.deep_view() =~= todos.deep_view());
            }
            let page = index(t, Filter::Completed);
            Some(respond(page.as_slice()))
        },
        Route::Create => {
            match parse_form(raw_s) {
                None => None,
                Some(vals) => {
                    if vals.len() >= 1 {
                        let msg = vals[0].clone();
                        proof {
                            assert(msg@ =~= vals.deep_view()[0]);
                        }
                        create(todos, msg);
                    }
                    Some(respond_with_all(todos))
                },
            }
        },
        Route::Update => {
            match parse_form(raw_s) {
                None => None,
                Some(vals) => {
                    if vals.len() >= 2 {
                        match parse_index(vals[1].as_slice()) {
                            None => {
                                proof {
                                    assert(vals.deep_view()[1] =~= vals@[1]@);
                                }
                                None
                            },
                            Some(i) => {
                                let msg = vals[0].clone();
                                proof {
                                    assert(msg@ =~= vals.deep_view()[0]);
                                    assert(vals.deep_view()[1] =~= vals@[1]@);
                                }
                                update(todos, i, msg);
                                Some(respond_with_all(todos))
                            },
                        }
                    } else {
                        Some(respond_with_all(todos))
                    }
                },
            }
        },
        Route::Delete => {
            match parse_form(raw_s) {
                None => None,
                Some(vals) => {
                    if vals.len() >= 1 {
                        match parse_index(vals[0].as_slice()) {
                            None => {
                                proof {
                                    assert(vals.deep_view()[0] =~= vals@[0]@);
                                }
                                None
                            },
                            Some(i) => {
                                proof {
                                    assert(vals.deep_view()[0] =~= vals@[0]@);
                                }
                                delete(todos, i);
                                Some(respond_with_all(todos))
                            },
                        }
                    } else {
                        Some(respond_with_all(todos))
                    }
                },
            }
        },
        Route::Mark => {
            match parse_form(raw_s) {
                None => None,
                Some(vals) => {
                    if vals.len() >= 1 {
                        match parse_index(vals[0].as_slice()) {
                            None => {
                                proof {
                                    assert(vals.deep_view()[0] =~= vals@[0]@);
                                }
                                None
                            },
                            Some(i) => {
                                proof {
                                    assert(vals.deep_view()[0] =~= vals@[0]@);
                                }
                                toggle_mark(todos, i);
                                Some(respond_with_all(todos))
                            },
                        }
                    } else {
                        Some(respond_with_all(todos))
                    }
                },
            }
        },
        Route::Unmatched => {
            let body = echo(req.method.as_slice(), req.path.as_slice(), raw_s);
            Some(respond(body.as_slice()))
        },
    }
}

/// A POST to a mutating route whose decoded body falls short of the
/// required field leaves the store unchanged and re-renders the
/// previous state; it never aborts handling.
pub proof fn lemma_missing_field_is_noop(s: Seq<TodoView>, buf: Seq<u8>)
    requires
        valid_utf8(buf),
        request_ok(truncated_spec(buf)),
        ({
            let raw = truncated_spec(buf);
            let rt = route_spec(method_of(raw), segments(path_of(raw)));
            &&& (rt == Route::Create || rt == Route::Update || rt == Route::Delete || rt
                == Route::Mark)
            &&& match form_values(raw) {
                Some(vals) => vals.len() < required_fields(rt),
                None => false,
            }
        }),
    ensures
        handle_spec(s, buf).0 == s,
        handle_spec(s, buf).1 == Some(respond_spec(page_spec(s, Filter::All))),
{
}

} // verus!
