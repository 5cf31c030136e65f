//! Request handling of the panel's HTTP API: request parsing, routing
//! decisions, JSON error bodies and response heads. The caller owns the socket.

use vstd::prelude::*;
use crate::text::{
    ascii_lower, chars_of, dec, find, find_vec, is_ws, parse_int, push_dec, seq_ascii_lower,
    slice_vec, split_once, split_once_vec, starts_with, string_of, to_ascii_lower, trim, trim_vec,
    trim_start, is_whitespace, seq_eq, parse_u64,
};

verus! {

/// Largest request body accepted (bytes).
pub const MAX_REQUEST_BODY_BYTES: usize = 16777216;

// ── Lines and tokens ────────────────────────────────────────────────

/// A line without its `\r` before `\n`.
pub open spec fn strip_cr(x: Seq<char>) -> Seq<char> {
    if x.len() > 0 && x.last() == '\r' {
        x.drop_last()
    } else {
        x
    }
}

/// `str::lines`: pieces split at `\n` (a `\r` right before the `\n` goes
/// too); a final piece without `\n` is kept as it is; no empty last line.
pub open spec fn lines(s: Seq<char>) -> Seq<Seq<char>>
    decreases s.len(),
{
    if s.len() == 0 {
        Seq::empty()
    } else {
        match find(s, seq!['\n']) {
            Some(k) => if 0 <= k < s.len() {
                seq![strip_cr(s.subrange(0, k))] + lines(s.subrange(k + 1, s.len() as int))
            } else {
                seq![s]
            },
            None => seq![s],
        }
    }
}

/// Longest prefix without white space, and what follows it.
pub open spec fn take_token(s: Seq<char>) -> (Seq<char>, Seq<char>)
    decreases s.len(),
{
    if s.len() == 0 || is_ws(s[0]) {
        (Seq::empty(), s)
    } else {
        let (t, r) = take_token(s.drop_first());
        (seq![s[0]] + t, r)
    }
}

/// First two white-space separated words (as `split_whitespace` yields them).
pub open spec fn two_words(s: Seq<char>) -> (Seq<char>, Seq<char>) {
    let (w1, r1) = take_token(trim_start(s));
    let (w2, _) = take_token(trim_start(r1));
    (w1, w2)
}

/// Unicode upper-case mapping of a string (`str::to_uppercase`).
pub uninterp spec fn str_upper(s: Seq<char>) -> Seq<char>;

/// `str::to_uppercase` (full Unicode case mapping).
#[verifier::external_body]
fn to_uppercase(s: &str) -> (r: String)
    ensures
        r@ == str_upper(s@),
{
    s.to_uppercase()
}

/// A parsed HTTP request.
pub struct Request {
    pub method: String,
    pub path: String,
    pub query: String,
    pub body: String,
}

/// The request that `parse_request` reads from `raw`: the method (upper-cased)
/// and target from the request line, the target split at its first `?`, and
/// everything after the first blank line (`\r\n\r\n`) as the body, untrimmed.
pub open spec fn parse_request_spec(raw: Seq<char>) -> Option<(Seq<char>, Seq<char>, Seq<char>, Seq<char>)> {
    if lines(raw).len() == 0 {
        None
    } else {
        let (w1, w2) = two_words(lines(raw)[0]);
        if w1.len() == 0 || w2.len() == 0 {
            None
        } else {
            let (path, query) = match split_once(w2, seq!['?']) {
                Some((p, q)) => (p, q),
                None => (w2, Seq::empty()),
            };
            let body = match split_once(raw, "\r\n\r\n"@) {
                Some((_, b)) => b,
                None => Seq::empty(),
            };
            Some((str_upper(w1), path, query, body))
        }
    }
}

fn first_line(v: &Vec<char>) -> (r: Vec<char>)
    requires
        v.len() > 0,
    ensures
        lines(v@).len() > 0,
        r@ == lines(v@)[0],
{
    let mut nl: Vec<char> = Vec::new();
    nl.push('\n');
    assert(nl@ =~= seq!['\n']);
    match find_vec(v, &nl) {
        Some(k) => {
            let mut line = slice_vec(v, 0, k);
            if line.len() > 0 && line[line.len() - 1] == '\r' {
                line.pop();
            }
            assert(line@ =~= strip_cr(v@.subrange(0, k as int)));
            line
        },
        None => slice_vec(v, 0, v.len()),
    }
}

fn take_token_at(v: &Vec<char>, i: usize) -> (k: usize)
    requires
        i <= v.len(),
    ensures
        i <= k <= v.len(),
        take_token(v@.subrange(i as int, v.len() as int)) == (v@.subrange(i as int, k as int), v@.subrange(
            k as int,
            v.len() as int,
        )),
    decreases v.len() - i,
{
    if i == v.len() || is_whitespace(v[i]) {
        assert(v@.subrange(i as int, i as int) =~= Seq::<char>::empty());
        i
    } else {
        let k = take_token_at(v, i + 1);
        let ghost s = v@.subrange(i as int, v.len() as int);
        assert(s.drop_first() =~= v@.subrange(i + 1, v.len() as int));
        assert(seq![v@[i as int]] + v@.subrange(i + 1, k as int) =~= v@.subrange(i as int, k as int));
        k
    }
}

fn skip_ws_at(v: &Vec<char>, i: usize) -> (k: usize)
    requires
        i <= v.len(),
    ensures
        i <= k <= v.len(),
        trim_start(v@.subrange(i as int, v.len() as int)) == v@.subrange(k as int, v.len() as int),
    decreases v.len() - i,
{
    if i < v.len() && is_whitespace(v[i]) {
        let ghost s = v@.subrange(i as int, v.len() as int);
        assert(s.drop_first() =~= v@.subrange(i + 1, v.len() as int));
        skip_ws_at(v, i + 1)
    } else {
        i
    }
}

/// Parses the request line, target and body of a raw HTTP request; `None`
/// when the request line has fewer than two words.
pub fn parse_request(raw: &str) -> (r: Option<Request>)
    ensures
        match parse_request_spec(raw@) {
            Some((m, p, q, b)) => r matches Some(req) && req.method@ == m && req.path@ == p
                && req.query@ == q && req.body@ == b,
            None => r is None,
        },
{
    let v = chars_of(raw);
    if v.len() == 0 {
        return None;
    }
    let line = first_line(&v);
    let a = skip_ws_at(&line, 0);
    assert(line@.subrange(0, line.len() as int) =~= line@);
    let b = take_token_at(&line, a);
    let c = skip_ws_at(&line, b);
    let d = take_token_at(&line, c);
    if a == b || c == d {
        return None;
    }
    let w1 = slice_vec(&line, a, b);
    let w2 = slice_vec(&line, c, d);
    let method = to_uppercase(string_of(&w1).as_str());
    let mut qm: Vec<char> = Vec::new();
    qm.push('?');
    assert(qm@ =~= seq!['?']);
    let (path, query) = match split_once_vec(&w2, &qm) {
        Some((p, q)) => (p, q),
        None => (w2, Vec::new()),
    };
    let sep = chars_of("\r\n\r\n");
    let body = match split_once_vec(&v, &sep) {
        Some((_, bd)) => bd,
        None => Vec::new(),
    };
    Some(Request { method, path: string_of(&path), query: string_of(&query), body: string_of(&body) })
}

// ── Query strings ─────────────────────────────────────────────────

/// Value of the first `name=value` pair in an `&`-separated query whose
/// name is `name` (a pair without `=` has the empty value).
pub open spec fn query_lookup(q: Seq<char>, name: Seq<char>) -> Option<Seq<char>>
    decreases q.len(),
{
    let (pair, rest) = match split_once(q, seq!['&']) {
        Some((a, b)) => (a, Some(b)),
        None => (q, None),
    };
    let (k, val) = match split_once(pair, seq!['=']) {
        Some((a, b)) => (a, b),
        None => (pair, Seq::empty()),
    };
    if k == name {
        Some(val)
    } else {
        match rest {
            Some(r) => if r.len() < q.len() {
                query_lookup(r, name)
            } else {
                None
            },
            None => None,
        }
    }
}

/// Value of query parameter `name`, if present.
pub fn query_param(query: &str, name: &str) -> (r: Option<String>)
    ensures
        match query_lookup(query@, name@) {
            Some(v) => r matches Some(s) && s@ == v,
            None => r is None,
        },
{
    let q = chars_of(query);
    let n = chars_of(name);
    query_param_chars(q, &n)
}

fn query_param_chars(q: Vec<char>, name: &Vec<char>) -> (r: Option<String>)
    ensures
        match query_lookup(q@, name@) {
            Some(v) => r matches Some(s) && s@ == v,
            None => r is None,
        },
    decreases q.len(),
{
    let mut amp: Vec<char> = Vec::new();
    amp.push('&');
    assert(amp@ =~= seq!['&']);
    let mut eq: Vec<char> = Vec::new();
    eq.push('=');
    assert(eq@ =~= seq!['=']);
    let (pair, rest) = match split_once_vec(&q, &amp) {
        Some((a, b)) => (a, Some(b)),
        None => (slice_vec(&q, 0, q.len()), None),
    };
    assert(q@.subrange(0, q.len() as int) =~= q@);
    let (k, val) = match split_once_vec(&pair, &eq) {
        Some((a, b)) => (a, b),
        None => (pair, Vec::new()),
    };
    if seq_eq(&k, name) {
        Some(string_of(&val))
    } else {
        match rest {
            Some(r) => {
                if r.len() < q.len() {
                    query_param_chars(r, name)
                } else {
                    None
                }
            },
            None => None,
        }
    }
}

/// The round asked for by `?round=N`, when present and a number.
pub fn requested_round(query: &str) -> (r: Option<usize>)
    ensures
        match query_lookup(query@, "round"@) {
            Some(v) => match parse_int(v, false, 0, usize::MAX as int) {
                Some(n) => r == Some(n as usize),
                None => r is None,
            },
            None => r is None,
        },
{
    match query_param(query, "round") {
        Some(v) => {
            let c = chars_of(v.as_str());
            parse_usize(&c)
        },
        None => None,
    }
}

/// `str::parse::<usize>`.
pub fn parse_usize(v: &Vec<char>) -> (r: Option<usize>)
    ensures
        match parse_int(v@, false, 0, usize::MAX as int) {
            Some(x) => r == Some(x as usize),
            None => r is None,
        },
{
    match parse_u64(v) {
        Some(x) => {
            if x as u128 <= usize::MAX as u128 {
                Some(x as usize)
            } else {
                None
            }
        },
        None => None,
    }
}

// ── Header scanning ────────────────────────────────────────────────

pub open spec fn is_blank_line_at(buf: Seq<u8>, i: int) -> bool {
    buf[i] == 13 && buf[i + 1] == 10 && buf[i + 2] == 13 && buf[i + 3] == 10
}

/// Where the header of a raw request ends (just after its blank line).
pub fn find_header_end(buf: &[u8]) -> (r: Option<usize>)
    ensures
        match r {
            Some(e) => 4 <= e <= buf@.len() && is_blank_line_at(buf@, e - 4) && forall|j: int|
                0 <= j < e - 4 ==> !is_blank_line_at(buf@, j),
            None => forall|j: int| 0 <= j && j + 4 <= buf@.len() ==> !is_blank_line_at(buf@, j),
        },
{
    let n = buf.len();
    if n < 4 {
        return None;
    }
    let mut i: usize = 0;
    while i <= n - 4
        invariant
            n == buf@.len(),
            n >= 4,
            i <= n - 3,
            forall|j: int| 0 <= j < i ==> !is_blank_line_at(buf@, j),
        decreases n - i,
    {
        if buf[i] == 13 && buf[i + 1] == 10 && buf[i + 2] == 13 && buf[i + 3] == 10 {
            return Some(i + 4);
        }
        i += 1;
    }
    None
}

/// The first line that names `Content-Length` (compared case-insensitively).
pub open spec fn first_cl_line(ls: Seq<Seq<char>>) -> Option<Seq<char>>
    decreases ls.len(),
{
    if ls.len() == 0 {
        None
    } else if is_cl_line(ls[0]) {
        Some(ls[0])
    } else {
        first_cl_line(ls.drop_first())
    }
}

pub open spec fn is_cl_line(l: Seq<char>) -> bool {
    starts_with(seq_ascii_lower(l), "content-length:"@)
}

/// `Content-Length` of a request header: the value of the first line whose
/// lower-cased form starts with `content-length:`, after its first `:`,
/// trimmed and read as a number; `None` when there is no such line or its
/// value is not a number.
pub open spec fn content_length_spec(header: Seq<char>) -> Option<int> {
    match first_cl_line(lines(header)) {
        Some(l) => match split_once(l, seq![':']) {
            Some((_, v)) => parse_int(trim(v), false, 0, usize::MAX as int),
            None => None,
        },
        None => None,
    }
}

fn ascii_lower_vec(v: &Vec<char>) -> (r: Vec<char>)
    ensures
        r@ == seq_ascii_lower(v@),
{
    let mut r: Vec<char> = Vec::new();
    let n = v.len();
    for i in 0..n
        invariant
            n == v@.len(),
            r@ == seq_ascii_lower(v@.subrange(0, i as int)),
    {
        r.push(to_ascii_lower(v[i]));
        assert(seq_ascii_lower(v@.subrange(0, i + 1)) =~= seq_ascii_lower(v@.subrange(0, i as int)).push(
            ascii_lower(v@[i as int]),
        ));
    }
    assert(v@.subrange(0, n as int) =~= v@);
    r
}

/// The lines of `v` from position `pos` on.
fn lines_from(v: &Vec<char>, pos: usize) -> (r: Vec<Vec<char>>)
    requires
        pos <= v.len(),
    ensures
        r@.map_values(|l: Vec<char>| l@) == lines(v@.subrange(pos as int, v.len() as int)),
    decreases v.len() - pos,
{
    let rest = slice_vec(v, pos, v.len());
    if rest.len() == 0 {
        let r: Vec<Vec<char>> = Vec::new();
        assert(r@.map_values(|l: Vec<char>| l@) =~= Seq::<Seq<char>>::empty());
        return r;
    }
    let mut nl: Vec<char> = Vec::new();
    nl.push('\n');
    assert(nl@ =~= seq!['\n']);
    match find_vec(&rest, &nl) {
        Some(k) => {
            let mut line = slice_vec(&rest, 0, k);
            if line.len() > 0 && line[line.len() - 1] == '\r' {
                line.pop();
            }
            assert(line@ =~= strip_cr(rest@.subrange(0, k as int)));
            let tail = lines_from(v, pos + k + 1);
            assert(v@.subrange(pos + k + 1, v.len() as int) =~= rest@.subrange(k + 1, rest@.len() as int));
            let mut r: Vec<Vec<char>> = Vec::new();
            r.push(line);
            let ghost first = r@;
            let mut tail = tail;
            r.append(&mut tail);
            assert(r@.map_values(|l: Vec<char>| l@) =~= seq![line@] + lines(rest@.subrange(k + 1, rest@.len() as int)));
            r
        },
        None => {
            let mut r: Vec<Vec<char>> = Vec::new();
            r.push(rest);
            assert(r@.map_values(|l: Vec<char>| l@) =~= seq![v@.subrange(pos as int, v.len() as int)]);
            r
        },
    }
}

/// The `Content-Length` a request header declares.
pub fn extract_content_length(header: &str) -> (r: Option<usize>)
    ensures
        match content_length_spec(header@) {
            Some(n) => r == Some(n as usize),
            None => r is None,
        },
{
    let v = chars_of(header);
    let ls = lines_from(&v, 0);
    assert(v@.subrange(0, v.len() as int) =~= v@);
    let ghost lv = ls@.map_values(|l: Vec<char>| l@);
    let key = chars_of("content-length:");
    assert(lv.subrange(0, lv.len() as int) =~= lv);
    let mut i: usize = 0;
    while i < ls.len()
        invariant
            lv == ls@.map_values(|l: Vec<char>| l@),
            lv == lines(header@),
            i <= ls.len(),
            first_cl_line(lv) == first_cl_line(lv.subrange(i as int, lv.len() as int)),
            key@ == "content-length:"@,
        decreases ls.len() - i,
    {
        let ghost sub = lv.subrange(i as int, lv.len() as int);
        assert(sub[0] == ls@[i as int]@);
        let low = ascii_lower_vec(&ls[i]);
        if starts_with_vec_pub(&low, &key) {
            let mut colon: Vec<char> = Vec::new();
            colon.push(':');
            assert(colon@ =~= seq![':']);
            return match split_once_vec(&ls[i], &colon) {
                Some((_, val)) => {
                    let t = trim_vec(&val);
                    parse_usize(&t)
                },
                None => None,
            };
        }
        assert(sub.drop_first() =~= lv.subrange(i + 1, lv.len() as int));
        i += 1;
    }
    None
}

fn starts_with_vec_pub(v: &Vec<char>, p: &Vec<char>) -> (b: bool)
    ensures
        b == starts_with(v@, p@),
{
    crate::text::starts_with_vec(v, p)
}

// ── Responses ────────────────────────────────────────────────────

/// JSON string literal of `s` as serde_json writes it: quotes, `\"`, `\\`,
/// the short escapes `\b \f \n \r \t`, and `\u00XX` (lower-case hex) for
/// other characters below U+0020; everything else as it is.
pub open spec fn json_quote(s: Seq<char>) -> Seq<char> {
    seq!['"'] + json_escape(s) + seq!['"']
}

pub open spec fn lower_hex_digit(d: nat) -> char {
    if d < 10 {
        ((d + 48) as u32) as char
    } else {
        ((d + 87) as u32) as char
    }
}

pub open spec fn json_escape_char(c: char) -> Seq<char> {
    if c == '"' {
        seq!['\\', '"']
    } else if c == '\\' {
        seq!['\\', '\\']
    } else if c == '\u{8}' {
        seq!['\\', 'b']
    } else if c == '\t' {
        seq!['\\', 't']
    } else if c == '\n' {
        seq!['\\', 'n']
    } else if c == '\u{c}' {
        seq!['\\', 'f']
    } else if c == '\r' {
        seq!['\\', 'r']
    } else if (c as u32) < 0x20 {
        seq!['\\', 'u', '0', '0', lower_hex_digit(((c as u32) / 16) as nat), lower_hex_digit(((c as u32) % 16) as nat)]
    } else {
        seq![c]
    }
}

pub open spec fn json_escape(s: Seq<char>) -> Seq<char>
    decreases s.len(),
{
    if s.len() == 0 {
        Seq::empty()
    } else {
        json_escape(s.drop_last()) + json_escape_char(s.last())
    }
}

/// `serde_json::to_string` of a string: its JSON string literal.
#[verifier::external_body]
fn json_string(s: &str) -> (r: String)
    ensures
        r@ == json_quote(s@),
{
    serde_json::to_string(s).unwrap_or_default()
}

/// `{"error":<message>,"ok":false}`, the JSON error body (keys in the sorted
/// order serde_json's default map writes them in).
pub open spec fn json_error_spec(message: Seq<char>) -> Seq<char> {
    "{\"error\":"@ + json_quote(message) + ",\"ok\":false}"@
}

pub fn json_error(message: &str) -> (r: String)
    ensures
        r@ == json_error_spec(message@),
{
    let q = json_string(message);
    let mut v = chars_of("{\"error\":");
    let qv = chars_of(q.as_str());
    append_chars(&mut v, &qv);
    let tail = chars_of(",\"ok\":false}");
    append_chars(&mut v, &tail);
    string_of(&v)
}

pub(crate) fn append_chars(v: &mut Vec<char>, w: &Vec<char>)
    ensures
        final(v)@ == old(v)@ + w@,
{
    let ghost start = v@;
    let n = w.len();
    for k in 0..n
        invariant
            n == w@.len(),
            v@ == start + w@.subrange(0, k as int),
    {
        v.push(w[k]);
        assert(w@.subrange(0, k + 1) =~= w@.subrange(0, k as int).push(w@[k as int]));
    }
    assert(w@.subrange(0, n as int) =~= w@);
}

/// Status line text of a JSON response.
pub open spec fn status_text_spec(status: u16) -> Seq<char> {
    if status == 200 {
        "200 OK"@
    } else if status == 204 {
        "204 No Content"@
    } else if status == 400 {
        "400 Bad Request"@
    } else if status == 404 {
        "404 Not Found"@
    } else if status == 413 {
        "413 Payload Too Large"@
    } else {
        "500 Internal Server Error"@
    }
}

pub fn status_text(status: u16) -> (s: &'static str)
    ensures
        s@ == status_text_spec(status),
{
    match status {
        200 => "200 OK",
        204 => "204 No Content",
        400 => "400 Bad Request",
        404 => "404 Not Found",
        413 => "413 Payload Too Large",
        _ => "500 Internal Server Error",
    }
}

/// Head of a JSON response with CORS headers for a body of `len` UTF-8
/// bytes.
pub open spec fn cors_head_spec(status: u16, len: nat) -> Seq<char> {
    "HTTP/1.1 "@ + status_text_spec(status) + "\r\nContent-Type: application/json; charset=utf-8\r\nContent-Length: "@
        + dec(len) + "\r\nAccess-Control-Allow-Origin: *\r\nAccess-Control-Allow-Methods: GET, PUT, POST, OPTIONS\r\nAccess-Control-Allow-Headers: Content-Type\r\n\r\n"@
}

/// Head of a JSON response; the body follows it unless the status is 204.
pub fn cors_head(status: u16, body: &str) -> (r: String)
    ensures
        r@ == cors_head_spec(status, body.len() as nat),
{
    let mut v = chars_of("HTTP/1.1 ");
    let st = chars_of(status_text(status));
    append_chars(&mut v, &st);
    let a = chars_of("\r\nContent-Type: application/json; charset=utf-8\r\nContent-Length: ");
    append_chars(&mut v, &a);
    push_dec(&mut v, body.len() as u64);
    let b = chars_of("\r\nAccess-Control-Allow-Origin: *\r\nAccess-Control-Allow-Methods: GET, PUT, POST, OPTIONS\r\nAccess-Control-Allow-Headers: Content-Type\r\n\r\n");
    append_chars(&mut v, &b);
    string_of(&v)
}

/// Whether the body of a response with this status is sent.
pub fn sends_body(status: u16) -> (b: bool)
    ensures
        b == (status != 204),
{
    status != 204
}

/// Head of a binary response (the logo image).
pub open spec fn binary_head_spec(status: u16, content_type: Seq<char>, len: nat) -> Seq<char> {
    "HTTP/1.1 "@ + (if status == 200 { "200 OK"@ } else { "500 Internal Server Error"@ }) + "\r\nContent-Type: "@
        + content_type + "\r\nContent-Length: "@ + dec(len)
        + "\r\nAccess-Control-Allow-Origin: *\r\nCache-Control: public, max-age=3600\r\n\r\n"@
}

pub fn binary_head(status: u16, content_type: &str, len: usize) -> (r: String)
    ensures
        r@ == binary_head_spec(status, content_type@, len as nat),
{
    let mut v = chars_of("HTTP/1.1 ");
    let st = if status == 200 {
        chars_of("200 OK")
    } else {
        chars_of("500 Internal Server Error")
    };
    append_chars(&mut v, &st);
    let a = chars_of("\r\nContent-Type: ");
    append_chars(&mut v, &a);
    let ct = chars_of(content_type);
    append_chars(&mut v, &ct);
    let b = chars_of("\r\nContent-Length: ");
    append_chars(&mut v, &b);
    push_dec(&mut v, len as u64);
    let c = chars_of("\r\nAccess-Control-Allow-Origin: *\r\nCache-Control: public, max-age=3600\r\n\r\n");
    append_chars(&mut v, &c);
    string_of(&v)
}

// ── Routing ──────────────────────────────────────────────────────

/// The API endpoints.
#[derive(Clone, Copy, PartialEq, Eq, Debug, Structural)]
pub enum Route {
    GetSettings,
    PutSettings,
    GetLogs,
    GetRoundCount,
    GetStatus,
    Health,
    DesktopPath,
    ClearLogs,
    ExportLogs,
    GetConnectionLogs,
    ClearConnectionLogs,
}

/// What to do with a parsed request.
#[derive(Clone, Copy, PartialEq, Eq, Debug, Structural)]
pub enum Dispatch {
    /// CORS preflight: empty 204.
    Preflight,
    /// The logo image.
    Logo,
    Endpoint(Route),
    NotFound,
}

pub open spec fn route_spec(method: Seq<char>, path: Seq<char>) -> Option<Route> {
    if method == "GET"@ && path == "/api/settings"@ {
        Some(Route::GetSettings)
    } else if method == "PUT"@ && path == "/api/settings"@ {
        Some(Route::PutSettings)
    } else if method == "GET"@ && path == "/api/logs"@ {
        Some(Route::GetLogs)
    } else if method == "GET"@ && path == "/api/logs/round-count"@ {
        Some(Route::GetRoundCount)
    } else if method == "GET"@ && path == "/api/status"@ {
        Some(Route::GetStatus)
    } else if method == "GET"@ && path == "/api/health"@ {
        Some(Route::Health)
    } else if method == "GET"@ && path == "/api/desktop-path"@ {
        Some(Route::DesktopPath)
    } else if method == "POST"@ && path == "/api/logs/clear"@ {
        Some(Route::ClearLogs)
    } else if method == "POST"@ && path == "/api/logs/export"@ {
        Some(Route::ExportLogs)
    } else if method == "GET"@ && path == "/api/connection-logs"@ {
        Some(Route::GetConnectionLogs)
    } else if method == "POST"@ && path == "/api/connection-logs/clear"@ {
        Some(Route::ClearConnectionLogs)
    } else {
        None
    }
}

pub open spec fn dispatch_spec(method: Seq<char>, path: Seq<char>) -> Dispatch {
    if method == "OPTIONS"@ {
        Dispatch::Preflight
    } else if path == "/api/resources/logo"@ && method == "GET"@ {
        Dispatch::Logo
    } else {
        match route_spec(method, path) {
            Some(r) => Dispatch::Endpoint(r),
            None => Dispatch::NotFound,
        }
    }
}

fn is(v: &Vec<char>, s: &str) -> (b: bool)
    ensures
        b == (v@ == s@),
{
    let w = chars_of(s);
    seq_eq(v, &w)
}

/// How a request with this method and path is served.
pub fn dispatch(req: &Request) -> (d: Dispatch)
    ensures
        d == dispatch_spec(req.method@, req.path@),
{
    let m = chars_of(req.method.as_str());
    let p = chars_of(req.path.as_str());
    if is(&m, "OPTIONS") {
        return Dispatch::Preflight;
    }
    if is(&p, "/api/resources/logo") && is(&m, "GET") {
        return Dispatch::Logo;
    }
    let get = is(&m, "GET");
    let put = is(&m, "PUT");
    let post = is(&m, "POST");
    let r = if get && is(&p, "/api/settings") {
        Some(Route::GetSettings)
    } else if put && is(&p, "/api/settings") {
        Some(Route::PutSettings)
    } else if get && is(&p, "/api/logs") {
        Some(Route::GetLogs)
    } else if get && is(&p, "/api/logs/round-count") {
        Some(Route::GetRoundCount)
    } else if get && is(&p, "/api/status") {
        Some(Route::GetStatus)
    } else if get && is(&p, "/api/health") {
        Some(Route::Health)
    } else if get && is(&p, "/api/desktop-path") {
        Some(Route::DesktopPath)
    } else if post && is(&p, "/api/logs/clear") {
        Some(Route::ClearLogs)
    } else if post && is(&p, "/api/logs/export") {
        Some(Route::ExportLogs)
    } else if get && is(&p, "/api/connection-logs") {
        Some(Route::GetConnectionLogs)
    } else if post && is(&p, "/api/connection-logs/clear") {
        Some(Route::ClearConnectionLogs)
    } else {
        None
    };
    match r {
        Some(x) => Dispatch::Endpoint(x),
        None => Dispatch::NotFound,
    }
}

// ── Body size checks ─────────────────────────────────────────────

/// Decision on a request whose header was read.
pub enum BodyCheck {
    /// Declared body too large: answer 413 with this message.
    TooLarge(String),
    /// Read until `total` bytes are buffered (header plus declared body).
    ReadUntil(usize),
}

pub open spec fn too_large_msg(len: nat) -> Seq<char> {
    "request body too large: "@ + dec(len) + " bytes, max "@ + dec(MAX_REQUEST_BODY_BYTES as nat) + " bytes"@
}

/// Checks the declared body length against the limit.
pub fn check_body(header_end: usize, content_len: usize) -> (r: BodyCheck)
    requires
        header_end + MAX_REQUEST_BODY_BYTES <= usize::MAX,
    ensures
        content_len > MAX_REQUEST_BODY_BYTES ==> (r matches BodyCheck::TooLarge(m) && m@
            == too_large_msg(content_len as nat)),
        content_len <= MAX_REQUEST_BODY_BYTES ==> r == BodyCheck::ReadUntil(
            (header_end + content_len) as usize,
        ),
{
    if content_len > MAX_REQUEST_BODY_BYTES {
        let mut v = chars_of("request body too large: ");
        push_dec(&mut v, content_len as u64);
        let a = chars_of(" bytes, max ");
        append_chars(&mut v, &a);
        push_dec(&mut v, MAX_REQUEST_BODY_BYTES as u64);
        let b = chars_of(" bytes");
        append_chars(&mut v, &b);
        return BodyCheck::TooLarge(string_of(&v));
    }
    BodyCheck::ReadUntil(header_end + content_len)
}

pub open spec fn incomplete_msg(received: nat, expected: nat) -> Seq<char> {
    "incomplete request body: received "@ + dec(received) + " bytes, expected "@ + dec(expected) + " bytes"@
}

/// After reading: `None` when the whole body arrived, else the 400 message
/// (bytes received past the header, saturating at 0, and bytes expected).
pub fn check_received(buffered: usize, header_end: usize, content_len: usize) -> (r: Option<String>)
    requires
        header_end + content_len <= usize::MAX,
    ensures
        buffered >= header_end + content_len ==> r is None,
        buffered < header_end + content_len ==> (r matches Some(m) && m@ == incomplete_msg(
            (if buffered >= header_end { buffered - header_end } else { 0 }) as nat,
            content_len as nat,
        )),
{
    if buffered >= header_end + content_len {
        return None;
    }
    let got = buffered.saturating_sub(header_end);
    let mut v = chars_of("incomplete request body: received ");
    push_dec(&mut v, got as u64);
    let a = chars_of(" bytes, expected ");
    append_chars(&mut v, &a);
    push_dec(&mut v, content_len as u64);
    let b = chars_of(" bytes");
    append_chars(&mut v, &b);
    Some(string_of(&v))
}

// ── Bodies built without the log ─────────────────────────────────

/// The health check's body.
pub fn health_body() -> (r: String)
    ensures
        r@ == "{\"ok\":true}"@,
{
    string_of(&chars_of("{\"ok\":true}"))
}

/// `{"total_rounds":n}`.
pub fn round_count_body(n: usize) -> (r: String)
    ensures
        r@ == "{\"total_rounds\":"@ + dec(n as nat) + "}"@,
{
    let mut v = chars_of("{\"total_rounds\":");
    push_dec(&mut v, n as u64);
    let t = chars_of("}");
    append_chars(&mut v, &t);
    string_of(&v)
}

/// `{"path":"<profile>\Desktop"}`: where the panel offers to export.
pub fn desktop_path_body(profile: &str) -> (r: String)
    ensures
        r@ == "{\"path\":"@ + json_quote(profile@ + "\\Desktop"@) + "}"@,
{
    let mut p = chars_of(profile);
    let d = chars_of("\\Desktop");
    append_chars(&mut p, &d);
    let ps = string_of(&p);
    let q = json_string(ps.as_str());
    let mut v = chars_of("{\"path\":");
    let qv = chars_of(q.as_str());
    append_chars(&mut v, &qv);
    let t = chars_of("}");
    append_chars(&mut v, &t);
    string_of(&v)
}

/// `{"ok":true,"path":"<path>"}`: the answer to a finished export.
pub fn export_ok_body(path: &str) -> (r: String)
    ensures
        r@ == "{\"ok\":true,\"path\":"@ + json_quote(path@) + "}"@,
{
    let q = json_string(path);
    let mut v = chars_of("{\"ok\":true,\"path\":");
    let qv = chars_of(q.as_str());
    append_chars(&mut v, &qv);
    let t = chars_of("}");
    append_chars(&mut v, &t);
    string_of(&v)
}

/// An export needs a path that is not blank.
pub fn check_export_path(path: &str) -> (r: Result<(), String>)
    ensures
        trim(path@).len() == 0 ==> (r matches Err(e) && e@ == "export path is empty"@),
        trim(path@).len() > 0 ==> r is Ok,
{
    let v = chars_of(path);
    let t = trim_vec(&v);
    if t.len() == 0 {
        return Err(string_of(&chars_of("export path is empty")));
    }
    Ok(())
}

/// `prefix: detail`, the form of the API's error messages about a failed
/// step (`invalid settings JSON: …`, `failed to write export file '…': …`).
pub fn error_detail(prefix: &str, detail: &str) -> (r: String)
    ensures
        r@ == prefix@ + ": "@ + detail@,
{
    let mut v = chars_of(prefix);
    let c = chars_of(": ");
    append_chars(&mut v, &c);
    let d = chars_of(detail);
    append_chars(&mut v, &d);
    string_of(&v)
}

// ── Law of the endpoint table ──────────────────────────────────────

/// The panel's API table. `OPTIONS` is always answered as a preflight and
/// `GET /api/resources/logo` with the logo; every endpoint has a route of its
/// own, which serves a request exactly when the request's method and path are
/// that endpoint's.
pub proof fn law_dispatch_endpoints(method: Seq<char>, path: Seq<char>)
    ensures
        (dispatch_spec(method, path) == Dispatch::Preflight) == (method == "OPTIONS"@),
        (dispatch_spec(method, path) == Dispatch::Logo) == (method == "GET"@ && path == "/api/resources/logo"@),
        (dispatch_spec(method, path) == Dispatch::Endpoint(Route::GetSettings)) == (method == "GET"@ && path
            == "/api/settings"@),
        (dispatch_spec(method, path) == Dispatch::Endpoint(Route::PutSettings)) == (method == "PUT"@ && path
            == "/api/settings"@),
        (dispatch_spec(method, path) == Dispatch::Endpoint(Route::GetLogs)) == (method == "GET"@ && path
            == "/api/logs"@),
        (dispatch_spec(method, path) == Dispatch::Endpoint(Route::GetRoundCount)) == (method == "GET"@ && path
            == "/api/logs/round-count"@),
        (dispatch_spec(method, path) == Dispatch::Endpoint(Route::GetStatus)) == (method == "GET"@ && path
            == "/api/status"@),
        (dispatch_spec(method, path) == Dispatch::Endpoint(Route::Health)) == (method == "GET"@ && path
            == "/api/health"@),
        (dispatch_spec(method, path) == Dispatch::Endpoint(Route::DesktopPath)) == (method == "GET"@ && path
            == "/api/desktop-path"@),
        (dispatch_spec(method, path) == Dispatch::Endpoint(Route::ClearLogs)) == (method == "POST"@ && path
            == "/api/logs/clear"@),
        (dispatch_spec(method, path) == Dispatch::Endpoint(Route::ExportLogs)) == (method == "POST"@ && path
            == "/api/logs/export"@),
        (dispatch_spec(method, path) == Dispatch::Endpoint(Route::GetConnectionLogs)) == (method == "GET"@ && path
            == "/api/connection-logs"@),
        (dispatch_spec(method, path) == Dispatch::Endpoint(Route::ClearConnectionLogs)) == (method == "POST"@ && path
            == "/api/connection-logs/clear"@),
{
    reveal_strlit("GET");
    reveal_strlit("PUT");
    reveal_strlit("POST");
    reveal_strlit("OPTIONS");
    reveal_strlit("/api/settings");
    reveal_strlit("/api/logs");
    reveal_strlit("/api/logs/round-count");
    reveal_strlit("/api/status");
    reveal_strlit("/api/health");
    reveal_strlit("/api/desktop-path");
    reveal_strlit("/api/logs/clear");
    reveal_strlit("/api/logs/export");
    reveal_strlit("/api/connection-logs");
    reveal_strlit("/api/connection-logs/clear");
    reveal_strlit("/api/resources/logo");
    assert("GET"@[0] != "PUT"@[0]);
    assert("GET"@.len() != "POST"@.len());
    assert("GET"@.len() != "OPTIONS"@.len());
    assert("PUT"@.len() != "POST"@.len());
    assert("PUT"@.len() != "OPTIONS"@.len());
    assert("POST"@.len() != "OPTIONS"@.len());
    assert("/api/settings"@.len() != "/api/logs"@.len());
    assert("/api/settings"@.len() != "/api/logs/round-count"@.len());
    assert("/api/settings"@.len() != "/api/status"@.len());
    assert("/api/settings"@.len() != "/api/health"@.len());
    assert("/api/settings"@.len() != "/api/desktop-path"@.len());
    assert("/api/settings"@.len() != "/api/logs/clear"@.len());
    assert("/api/settings"@.len() != "/api/logs/export"@.len());
    assert("/api/settings"@.len() != "/api/connection-logs"@.len());
    assert("/api/settings"@.len() != "/api/connection-logs/clear"@.len());
    assert("/api/settings"@.len() != "/api/resources/logo"@.len());
    assert("/api/logs"@.len() != "/api/logs/round-count"@.len());
    assert("/api/logs"@.len() != "/api/status"@.len());
    assert("/api/logs"@.len() != "/api/health"@.len());
    assert("/api/logs"@.len() != "/api/desktop-path"@.len());
    assert("/api/logs"@.len() != "/api/logs/clear"@.len());
    assert("/api/logs"@.len() != "/api/logs/export"@.len());
    assert("/api/logs"@.len() != "/api/connection-logs"@.len());
    assert("/api/logs"@.len() != "/api/connection-logs/clear"@.len());
    assert("/api/logs"@.len() != "/api/resources/logo"@.len());
    assert("/api/logs/round-count"@.len() != "/api/status"@.len());
    assert("/api/logs/round-count"@.len() != "/api/health"@.len());
    assert("/api/logs/round-count"@.len() != "/api/desktop-path"@.len());
    assert("/api/logs/round-count"@.len() != "/api/logs/clear"@.len());
    assert("/api/logs/round-count"@.len() != "/api/logs/export"@.len());
    assert("/api/logs/round-count"@.len() != "/api/connection-logs"@.len());
    assert("/api/logs/round-count"@.len() != "/api/connection-logs/clear"@.len());
    assert("/api/logs/round-count"@.len() != "/api/resources/logo"@.len());
    assert("/api/status"@[5] != "/api/health"@[5]);
    assert("/api/status"@.len() != "/api/desktop-path"@.len());
    assert("/api/status"@.len() != "/api/logs/clear"@.len());
    assert("/api/status"@.len() != "/api/logs/export"@.len());
    assert("/api/status"@.len() != "/api/connection-logs"@.len());
    assert("/api/status"@.len() != "/api/connection-logs/clear"@.len());
    assert("/api/status"@.len() != "/api/resources/logo"@.len());
    assert("/api/health"@.len() != "/api/desktop-path"@.len());
    assert("/api/health"@.len() != "/api/logs/clear"@.len());
    assert("/api/health"@.len() != "/api/logs/export"@.len());
    assert("/api/health"@.len() != "/api/connection-logs"@.len());
    assert("/api/health"@.len() != "/api/connection-logs/clear"@.len());
    assert("/api/health"@.len() != "/api/resources/logo"@.len());
    assert("/api/desktop-path"@.len() != "/api/logs/clear"@.len());
    assert("/api/desktop-path"@.len() != "/api/logs/export"@.len());
    assert("/api/desktop-path"@.len() != "/api/connection-logs"@.len());
    assert("/api/desktop-path"@.len() != "/api/connection-logs/clear"@.len());
    assert("/api/desktop-path"@.len() != "/api/resources/logo"@.len());
    assert("/api/logs/clear"@.len() != "/api/logs/export"@.len());
    assert("/api/logs/clear"@.len() != "/api/connection-logs"@.len());
    assert("/api/logs/clear"@.len() != "/api/connection-logs/clear"@.len());
    assert("/api/logs/clear"@.len() != "/api/resources/logo"@.len());
    assert("/api/logs/export"@.len() != "/api/connection-logs"@.len());
    assert("/api/logs/export"@.len() != "/api/connection-logs/clear"@.len());
    assert("/api/logs/export"@.len() != "/api/resources/logo"@.len());
    assert("/api/connection-logs"@.len() != "/api/connection-logs/clear"@.len());
    assert("/api/connection-logs"@.len() != "/api/resources/logo"@.len());
    assert("/api/connection-logs/clear"@.len() != "/api/resources/logo"@.len());
}

} // verus!
