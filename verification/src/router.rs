//! The router: maps the method and path segments of a parsed request
//! to exactly one handler.  Matching is exact and case-sensitive; any
//! pair outside the table falls through to the diagnostic echo.

use vstd::prelude::*;
use vstd::string::StringSliceAdditionalSpecFns;

verus! {

/// The handler a request is dispatched to.
#[derive(Clone, Copy, Debug, PartialEq, Eq, Structural)]
pub enum Route {
    ViewAll,
    ViewActive,
    ViewCompleted,
    Create,
    Update,
    Delete,
    Mark,
    Unmatched,
}

/// `segs` is the single segment `name`.
pub open spec fn seg1(segs: Seq<Seq<u8>>, name: Seq<u8>) -> bool {
    segs.len() == 1 && segs[0] == name
}

/// The routing table of the server, over the method token and the
/// path's segments.
pub open spec fn route_spec(m: Seq<u8>, segs: Seq<Seq<u8>>) -> Route {
    if m == "GET".spec_bytes() && segs.len() == 0 {
        Route::ViewAll
    } else if m == "GET".spec_bytes() && seg1(segs, "active".spec_bytes()) {
        Route::ViewActive
    } else if m == "GET".spec_bytes() && seg1(segs, "completed".spec_bytes()) {
        Route::ViewCompleted
    } else if m == "POST".spec_bytes() && seg1(segs, "create".spec_bytes()) {
        Route::Create
    } else if m == "POST".spec_bytes() && seg1(segs, "update".spec_bytes()) {
        Route::Update
    } else if m == "POST".spec_bytes() && seg1(segs, "delete".spec_bytes()) {
        Route::Delete
    } else if m == "POST".spec_bytes() && seg1(segs, "mark".spec_bytes()) {
        Route::Mark
    } else {
        Route::Unmatched
    }
}

/// Byte-for-byte equality of two slices.
pub fn bytes_eq(a: &[u8], b: &[u8]) -> (r: bool)
    ensures
        r == (a@ == b@),
{
    if a.len() != b.len() {
        return false;
    }
    let mut i: usize = 0;
    while i < a.len()
        invariant
            i <= a@.len(),
            a@.len() == b@.len(),
            forall|j: int| 0 <= j < i ==> a@[j] == b@[j],
        decreases a@.len() - i,
    {
        if a[i] != b[i] {
            return false;
        }
        i = i + 1;
    }
    proof {
        assert(a@ =~= b@);
    }
    true
}

/// Whether the segment list is exactly the one given name.
fn seg_is(segments: &Vec<Vec<u8>>, name: &[u8]) -> (r: bool)
    ensures
        r == seg1(segments.deep_view(), name@),
{
    if segments.len() != 1 {
        return false;
    }
    let r = bytes_eq(segments[0].as_slice(), name);
    proof {
        assert(segments.deep_view()[0] == segments@[0]@);
    }
    r
}

/// Selects the handler for a method and path-segment pair.
pub fn route(method: &[u8], segments: &Vec<Vec<u8>>) -> (r: Route)
    ensures
        r == route_spec(method@, segments.deep_view()),
{
    let get = bytes_eq(method, "GET".as_bytes());
    let post = bytes_eq(method, "POST".as_bytes());
    if get && segments.len() == 0 {
        Route::ViewAll
    } else if get && seg_is(segments, "active".as_bytes()) {
        Route::ViewActive
    } else if get && seg_is(segments, "completed".as_bytes()) {
        Route::ViewCompleted
    } else if post && seg_is(segments, "create".as_bytes()) {
        Route::Create
    } else if post && seg_is(segments, "update".as_bytes()) {
        Route::Update
    } else if post && seg_is(segments, "delete".as_bytes()) {
        Route::Delete
    } else if post && seg_is(segments, "mark".as_bytes()) {
        Route::Mark
    } else {
        Route::Unmatched
    }
}

} // verus!
