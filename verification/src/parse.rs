//! The request parser and form decoder: everything that turns the raw
//! bytes of one request into a method, path segments, and positional
//! form values, plus the decimal index parser.
//!
//! All of it works on bytes.  Multi-byte UTF-8 sequences never collide
//! with the ASCII delimiters used here, so byte-level splitting agrees
//! with text-level splitting on any buffer that passed the UTF-8 check.

use vstd::prelude::*;

verus! {

/// ASCII whitespace, the token separator of the request line.
pub open spec fn is_ws(b: u8) -> bool {
    b == 32 || b == 9 || b == 10 || b == 13 || b == 11 || b == 12
}

/// A decimal digit byte.
pub open spec fn is_digit(b: u8) -> bool {
    48 <= b <= 57
}

/// Every byte of `s` is a decimal digit.
pub open spec fn all_digits(s: Seq<u8>) -> bool {
    forall|i: int| 0 <= i < s.len() ==> is_digit(s[i])
}

/// The number that the digit string `s` denotes in base ten.
pub open spec fn digits_val(s: Seq<u8>) -> nat
    decreases s.len(),
{
    if s.len() == 0 {
        0
    } else {
        digits_val(s.drop_last()) * 10 + (s.last() - 48) as nat
    }
}

/// The first position at or after `i` holding the byte `b`, or the
/// length of `s` when no position does.
pub open spec fn byte_end(s: Seq<u8>, b: u8, i: int) -> int
    decreases s.len() - i,
{
    if !(0 <= i < s.len()) {
        s.len() as int
    } else if s[i] == b {
        i
    } else {
        byte_end(s, b, i + 1)
    }
}

/// The first position at or after `i` holding a byte that is not
/// ASCII whitespace, or the length of `s` when every later byte is.
pub open spec fn ws_end(s: Seq<u8>, i: int) -> int
    decreases s.len() - i,
{
    if !(0 <= i < s.len()) {
        s.len() as int
    } else if is_ws(s[i]) {
        ws_end(s, i + 1)
    } else {
        i
    }
}

/// The first position at or after `i` holding ASCII whitespace, or the
/// length of `s` when no later byte is whitespace.
pub open spec fn tok_end(s: Seq<u8>, i: int) -> int
    decreases s.len() - i,
{
    if !(0 <= i < s.len()) {
        s.len() as int
    } else if is_ws(s[i]) {
        i
    } else {
        tok_end(s, i + 1)
    }
}

/// `byte_end` never moves backwards and never leaves the sequence.
pub proof fn lemma_byte_end_bounds(s: Seq<u8>, b: u8, i: int)
    requires
        0 <= i <= s.len(),
    ensures
        i <= byte_end(s, b, i) <= s.len(),
    decreases s.len() - i,
{
    if i < s.len() && s[i] != b {
        lemma_byte_end_bounds(s, b, i + 1);
    }
}

/// Finds the first occurrence of `b` at or after `from`.
fn scan_byte(s: &[u8], b: u8, from: usize) -> (r: usize)
    requires
        from <= s@.len(),
    ensures
        r == byte_end(s@, b, from as int),
        from <= r <= s@.len(),
{
    let mut i = from;
    while i < s.len()
        invariant
            from <= i <= s@.len(),
            byte_end(s@, b, from as int) == byte_end(s@, b, i as int),
        decreases s@.len() - i,
    {
        if s[i] == b {
            return i;
        }
        i = i + 1;
    }
    i
}

/// Finds the first byte at or after `from` that is not ASCII whitespace.
fn scan_ws(s: &[u8], from: usize) -> (r: usize)
    requires
        from <= s@.len(),
    ensures
        r == ws_end(s@, from as int),
        from <= r <= s@.len(),
{
    let mut i = from;
    while i < s.len()
        invariant
            from <= i <= s@.len(),
            ws_end(s@, from as int) == ws_end(s@, i as int),
        decreases s@.len() - i,
    {
        let c = s[i];
        if !(c == 32 || c == 9 || c == 10 || c == 13 || c == 11 || c == 12) {
            return i;
        }
        i = i + 1;
    }
    i
}

/// Finds the first ASCII whitespace byte at or after `from`.
fn scan_tok(s: &[u8], from: usize) -> (r: usize)
    requires
        from <= s@.len(),
    ensures
        r == tok_end(s@, from as int),
        from <= r <= s@.len(),
{
    let mut i = from;
    while i < s.len()
        invariant
            from <= i <= s@.len(),
            tok_end(s@, from as int) == tok_end(s@, i as int),
        decreases s@.len() - i,
    {
        let c = s[i];
        if c == 32 || c == 9 || c == 10 || c == 13 || c == 11 || c == 12 {
            return i;
        }
        i = i + 1;
    }
    i
}

/// Copies `s[from..to]` into a fresh vector.
fn copy_range(s: &[u8], from: usize, to: usize) -> (r: Vec<u8>)
    requires
        from <= to <= s@.len(),
    ensures
        r@ == s@.subrange(from as int, to as int),
{
    let mut r: Vec<u8> = Vec::new();
    let mut i = from;
    while i < to
        invariant
            from <= i <= to <= s@.len(),
            r@ == s@.subrange(from as int, i as int),
        decreases to - i,
    {
        r.push(s[i]);
        proof {
            assert(r@ =~= s@.subrange(from as int, i as int + 1));
        }
        i = i + 1;
    }
    r
}

/// Relies on `core::str::from_utf8`: it returns `Ok` exactly on byte
/// sequences that are well-formed UTF-8, which is what
/// `vstd::utf8::valid_utf8` states of a byte sequence.
#[verifier::external_body]
pub fn is_valid_utf8(bytes: &[u8]) -> (r: bool)
    ensures
        r == vstd::utf8::valid_utf8(bytes@),
{
    core::str::from_utf8(bytes).is_ok()
}

/// The unread tail of a fixed read buffer: everything from the first
/// NUL byte on is discarded.
pub open spec fn truncated_spec(s: Seq<u8>) -> Seq<u8> {
    s.subrange(0, byte_end(s, 0, 0))
}

/// Cuts the buffer at its first NUL byte, the padding left by a
/// fixed-size read.
pub fn truncate_at_nul(buf: &[u8]) -> (r: Vec<u8>)
    ensures
        r@ == truncated_spec(buf@),
{
    proof {
        lemma_byte_end_bounds(buf@, 0, 0);
    }
    let end = scan_byte(buf, 0, 0);
    copy_range(buf, 0, end)
}

/// The value of a digit-string prefix never exceeds the value of the
/// whole digit string.
proof fn lemma_digits_val_prefix(s: Seq<u8>, i: int)
    requires
        0 <= i <= s.len(),
        all_digits(s),
    ensures
        digits_val(s.subrange(0, i)) <= digits_val(s),
    decreases s.len() - i,
{
    if i < s.len() {
        assert(s.subrange(0, i + 1).drop_last() =~= s.subrange(0, i));
        assert(digits_val(s.subrange(0, i + 1)) == digits_val(s.subrange(0, i)) * 10 + (s[i]
            - 48));
        lemma_digits_val_prefix(s, i + 1);
    } else {
        assert(s.subrange(0, i) =~= s);
    }
}

/// Reads a store index from its decimal digits.  Succeeds exactly on a
/// non-empty all-digit string whose value fits in `usize`; anything
/// else is the index-parse failure that aborts one request.
pub fn parse_index(s: &[u8]) -> (r: Option<usize>)
    ensures
        match r {
            Some(n) => s@.len() > 0 && all_digits(s@) && n as nat == digits_val(s@),
            None => s@.len() == 0 || !all_digits(s@) || digits_val(s@) > usize::MAX as nat,
        },
{
    if s.len() == 0 {
        return None;
    }
    let mut val: usize = 0;
    let mut i: usize = 0;
    while i < s.len()
        invariant
            0 <= i <= s@.len(),
            all_digits(s@.subrange(0, i as int)),
            val as nat == digits_val(s@.subrange(0, i as int)),
        decreases s@.len() - i,
    {
        let c = s[i];
        if c < 48 || c > 57 {
            assert(!is_digit(s@[i as int]));
            return None;
        }
        let d = (c - 48) as usize;
        proof {
            assert(s@.subrange(0, i as int + 1).drop_last() =~= s@.subrange(0, i as int));
            assert(digits_val(s@.subrange(0, i as int + 1)) == digits_val(
                s@.subrange(0, i as int),
            ) * 10 + d);
        }
        if val > (usize::MAX - d) / 10 {
            proof {
                let m = usize::MAX as nat;
                let v = val as nat;
                assert(v * 10 + d > m) by (nonlinear_arith)
                    requires
                        v > (m - d) / 10,
                        d <= 9,
                        m >= 9,
                ;
                assert(all_digits(s@.subrange(0, i as int + 1)));
                if all_digits(s@) {
                    lemma_digits_val_prefix(s@, i as int + 1);
                }
            }
            return None;
        }
        proof {
            let m = usize::MAX as nat;
            let v = val as nat;
            assert(v * 10 + d <= m) by (nonlinear_arith)
                requires
                    v <= (m - d) / 10,
                    d <= 9,
                    m >= 9,
            ;
        }
        val = val * 10 + d;
        i = i + 1;
    }
    proof {
        assert(s@.subrange(0, s@.len() as int) =~= s@);
    }
    Some(val)
}

/// The first whitespace-separated token of the request line: the method.
pub open spec fn method_of(s: Seq<u8>) -> Seq<u8> {
    s.subrange(ws_end(s, 0), tok_end(s, ws_end(s, 0)))
}

/// Where the second token starts.
pub open spec fn path_start(s: Seq<u8>) -> int {
    ws_end(s, tok_end(s, ws_end(s, 0)))
}

/// The second whitespace-separated token of the request line: the path.
pub open spec fn path_of(s: Seq<u8>) -> Seq<u8> {
    s.subrange(path_start(s), tok_end(s, path_start(s)))
}

/// A request is well formed when both a method token and a path token
/// are present.
pub open spec fn request_ok(s: Seq<u8>) -> bool {
    method_of(s).len() > 0 && path_of(s).len() > 0
}

/// The path split on `/`, empty segments discarded, from position `i`.
pub open spec fn segments_from(p: Seq<u8>, i: int) -> Seq<Seq<u8>>
    decreases p.len() - i,
    via segments_from_dec
{
    if !(0 <= i < p.len()) {
        seq![]
    } else if p[i] == 47 {
        segments_from(p, i + 1)
    } else {
        seq![p.subrange(i, byte_end(p, 47, i))] + segments_from(p, byte_end(p, 47, i))
    }
}

#[via_fn]
proof fn segments_from_dec(p: Seq<u8>, i: int) {
    if 0 <= i < p.len() && p[i] != 47 {
        lemma_byte_end_bounds(p, 47, i + 1);
    }
}

/// The path split on `/`, empty segments discarded.
pub open spec fn segments(p: Seq<u8>) -> Seq<Seq<u8>> {
    segments_from(p, 0)
}

/// A parsed request line: method, raw path, and the path's segments.
pub struct ParsedRequest {
    pub method: Vec<u8>,
    pub path: Vec<u8>,
    pub segments: Vec<Vec<u8>>,
}

/// Splits a path on `/`, discarding empty segments.
pub fn split_segments(p: &[u8]) -> (r: Vec<Vec<u8>>)
    ensures
        r.deep_view() == segments(p@),
{
    let mut segs: Vec<Vec<u8>> = Vec::new();
    let mut i: usize = 0;
    proof {
        assert(segs.deep_view() + segments_from(p@, 0) =~~= segments_from(p@, 0));
    }
    while i < p.len()
        invariant
            i <= p@.len(),
            segments(p@) == segs.deep_view() + segments_from(p@, i as int),
        decreases p@.len() - i,
    {
        if p[i] == 47 {
            i = i + 1;
        } else {
            proof {
                lemma_byte_end_bounds(p@, 47, i as int + 1);
            }
            let e = scan_byte(p, 47, i);
            let piece = copy_range(p, i, e);
            let ghost pre = segs.deep_view();
            segs.push(piece);
            proof {
                assert(segs.deep_view() =~~= pre.push(p@.subrange(i as int, e as int)));
                assert(pre.push(p@.subrange(i as int, e as int)) + segments_from(p@, e as int)
                    =~~= pre + segments_from(p@, i as int));
            }
            i = e;
        }
    }
    proof {
        assert(segs.deep_view() + segments_from(p@, i as int) =~~= segs.deep_view());
    }
    segs
}

/// Splits the raw request into its method and path tokens and the
/// path's segments.  Fails exactly when one of the two tokens is
/// missing: the malformed request that gets no response.
pub fn parse_request(raw: &[u8]) -> (r: Option<ParsedRequest>)
    ensures
        match r {
            Some(req) => {
                &&& request_ok(raw@)
                &&& req.method@ == method_of(raw@)
                &&& req.path@ == path_of(raw@)
                &&& req.segments.deep_view() == segments(path_of(raw@))
            },
            None => !request_ok(raw@),
        },
{
    let m_start = scan_ws(raw, 0);
    let m_end = scan_tok(raw, m_start);
    if m_end == m_start {
        return None;
    }
    let p_start = scan_ws(raw, m_end);
    let p_end = scan_tok(raw, p_start);
    if p_end == p_start {
        return None;
    }
    let method = copy_range(raw, m_start, m_end);
    let path = copy_range(raw, p_start, p_end);
    let segs = split_segments(path.as_slice());
    Some(ParsedRequest { method, path, segments: segs })
}

/// The blank line `\r\n\r\n` separating headers from body starts at `j`.
pub open spec fn sep_at(s: Seq<u8>, j: int) -> bool {
    &&& j >= 0
    &&& j + 4 <= s.len()
    &&& s[j] == 13
    &&& s[j + 1] == 10
    &&& s[j + 2] == 13
    &&& s[j + 3] == 10
}

/// The first position at or after `i` where the blank-line separator
/// starts, or -1 when it never does.
pub open spec fn find_sep(s: Seq<u8>, i: int) -> int
    decreases s.len() - i,
{
    if !(0 <= i && i + 4 <= s.len()) {
        -1
    } else if sep_at(s, i) {
        i
    } else {
        find_sep(s, i + 1)
    }
}

/// The body: everything after the first blank-line separator, or
/// nothing when the buffer holds none.
pub open spec fn body_of(s: Seq<u8>) -> Option<Seq<u8>> {
    let j = find_sep(s, 0);
    if j < 0 {
        None
    } else {
        Some(s.subrange(j + 4, s.len() as int))
    }
}

/// Finds the first blank-line separator of the buffer.
fn scan_sep(s: &[u8]) -> (r: Option<usize>)
    ensures
        match r {
            Some(j) => j == find_sep(s@, 0) && j + 4 <= s@.len(),
            None => find_sep(s@, 0) == -1,
        },
{
    if s.len() < 4 {
        return None;
    }
    let stop = s.len() - 4;
    let mut i: usize = 0;
    while i <= stop
        invariant
            i <= stop + 1,
            stop == s@.len() - 4,
            find_sep(s@, 0) == find_sep(s@, i as int),
        decreases stop - i + 1,
    {
        if s[i] == 13 && s[i + 1] == 10 && s[i + 2] == 13 && s[i + 3] == 10 {
            return Some(i);
        }
        i = i + 1;
    }
    None
}

/// The value of one `&`-separated pair: the part after its first `=`,
/// or nothing when the pair holds no `=`.
pub open spec fn pair_value(p: Seq<u8>) -> Option<Seq<u8>> {
    let k = byte_end(p, 61, 0);
    if k < p.len() {
        Some(p.subrange(k + 1, p.len() as int))
    } else {
        None
    }
}

/// The positional values of the `&`-separated pairs of `b` from
/// position `i` on, in order; pairs without `=` contribute nothing.
pub open spec fn form_values_from(b: Seq<u8>, i: int) -> Seq<Seq<u8>>
    decreases b.len() - i,
    via form_values_from_dec
{
    if !(0 <= i <= b.len()) {
        seq![]
    } else {
        let e = byte_end(b, 38, i);
        let rest = if e < b.len() {
            form_values_from(b, e + 1)
        } else {
            seq![]
        };
        match pair_value(b.subrange(i, e)) {
            Some(v) => seq![v] + rest,
            None => rest,
        }
    }
}

#[via_fn]
proof fn form_values_from_dec(b: Seq<u8>, i: int) {
    if 0 <= i <= b.len() {
        lemma_byte_end_bounds(b, 38, i);
    }
}

/// The decoded form: the positional values of the body's pairs, or
/// nothing when the buffer holds no body.
pub open spec fn form_values(s: Seq<u8>) -> Option<Seq<Seq<u8>>> {
    match body_of(s) {
        None => None,
        Some(b) => Some(form_values_from(b, 0)),
    }
}

/// Searching a subrange finds the same byte, up to the offset.
proof fn lemma_byte_end_offset(b: Seq<u8>, c: u8, i: int, e: int, j: int)
    requires
        0 <= i <= j <= e <= b.len(),
    ensures
        byte_end(b.subrange(i, e), c, j - i) == (if byte_end(b, c, j) < e {
            byte_end(b, c, j) - i
        } else {
            e - i
        }),
    decreases e - j,
{
    let p = b.subrange(i, e);
    if j < e {
        if b[j] != c {
            lemma_byte_end_offset(b, c, i, e, j + 1);
        }
    } else {
        lemma_byte_end_bounds(b, c, e);
    }
}

/// Decodes the `&`-separated pairs of a body into their positional
/// values.
fn decode_pairs(b: &[u8]) -> (r: Vec<Vec<u8>>)
    ensures
        r.deep_view() == form_values_from(b@, 0),
{
    let mut vals: Vec<Vec<u8>> = Vec::new();
    let mut i: usize = 0;
    proof {
        assert(vals.deep_view() + form_values_from(b@, 0) =~~= form_values_from(b@, 0));
    }
    while i < b.len()
        invariant
            i <= b@.len(),
            form_values_from(b@, 0) == vals.deep_view() + form_values_from(b@, i as int),
        decreases b@.len() - i,
    {
        let e = scan_byte(b, 38, i);
        let k = scan_byte(b, 61, i);
        proof {
            lemma_byte_end_offset(b@, 61, i as int, e as int, i as int);
        }
        let ghost piece = b@.subrange(i as int, e as int);
        let ghost pre = vals.deep_view();
        if k < e {
            let value = copy_range(b, k + 1, e);
            proof {
                assert(piece.subrange(k - i + 1, piece.len() as int) =~= b@.subrange(
                    k as int + 1,
                    e as int,
                ));
                assert(pair_value(piece) == Some(value@));
            }
            vals.push(value);
            proof {
                assert(vals.deep_view() =~~= pre.push(value@));
            }
        } else {
            proof {
                assert(pair_value(piece) is None);
            }
        }
        proof {
            if e < b@.len() {
                assert(vals.deep_view() + form_values_from(b@, e as int + 1) =~~= pre
                    + form_values_from(b@, i as int));
            } else {
                assert(vals.deep_view() + form_values_from(b@, b@.len() as int) =~~= pre
                    + form_values_from(b@, i as int));
            }
        }
        if e < b.len() {
            i = e + 1;
        } else {
            i = b.len();
        }
    }
    proof {
        assert(vals.deep_view() + form_values_from(b@, i as int) =~~= vals.deep_view());
    }
    vals
}

/// Decodes the form body of a raw request: the positional values of
/// its `&`-separated pairs, each the part after the pair's first `=`.
/// Fails exactly when the buffer holds no blank-line separator, the
/// "no body" case that gets no response.
pub fn parse_form(input: &[u8]) -> (r: Option<Vec<Vec<u8>>>)
    ensures
        match r {
            Some(vals) => form_values(input@) == Some(vals.deep_view()),
            None => form_values(input@) is None,
        },
{
    match scan_sep(input) {
        None => None,
        Some(j) => {
            let n = input.len();
            let body = copy_range(input, j + 4, n);
            let vals = decode_pairs(body.as_slice());
            Some(vals)
        },
    }
}

} // verus!
