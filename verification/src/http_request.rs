//! HTTP requests: the request type and the parsing of a request's text
//! (request line, query string, header lines and body).
use vstd::prelude::*;
use vstd::utf8::{decode_utf8, pop_first_scalar, valid_utf8};

use crate::http_header::{clone_headers, headers_text, Header};
use crate::http_method::{parsed_method, Method};
use crate::params::{lemma_map_of_concat, map_of, ParamMap};
use crate::text::{
    char_vec, eq_ignore_ascii_case, eq_ignore_ascii_case_chars, find_char, find_char_from,
    find_pair, find_pair_from, is_white_space, lemma_find_char_append, lemma_find_char_bounds, lemma_find_char_none, lemma_find_char_shift,
    lemma_decimal_text_parses_back, decimal_text,
    lemma_skip_white_space_run, lemma_split_once_join, lemma_token_end_run, parse_usize,
    parse_usize_range, skip_white_space, skip_white_space_from, split_once, token_end,
    token_end_from, trim, trim_end_from, substring,
};

verus! {

// ---------------------------------------------------------------------------
// Query strings
// ---------------------------------------------------------------------------

/// The `name=value` pairs of the `&`-separated pieces of `q[i..]`, in
/// order; a piece without `=` gives none, and a piece is cut at its first `=`.
pub open spec fn query_pairs_from(q: Seq<char>, i: int) -> Seq<(Seq<char>, Seq<char>)>
    decreases q.len() - i,
{
    if i < 0 || i > q.len() {
        Seq::empty()
    } else {
        let end = match find_char(q, '&', i) {
            Some(j) => j,
            None => q.len() as int,
        };
        let here: Seq<(Seq<char>, Seq<char>)> = match split_once(q.subrange(i, end), '=') {
            Some(kv) => seq![kv],
            None => Seq::empty(),
        };
        match find_char(q, '&', i) {
            Some(j) => {
                proof {
                    lemma_find_char_bounds(q, '&', i);
                }
                here + query_pairs_from(q, j + 1)
            },
            None => here,
        }
    }
}

/// The parameters of a query string such as `id=5&sort=asc`: each piece's
/// name bound to its value, a later piece for a name replacing an earlier
/// one, pieces without `=` skipped.
pub open spec fn query_map(q: Seq<char>) -> Map<Seq<char>, Seq<char>> {
    map_of(query_pairs_from(q, 0))
}

/// Parses a URL query string (e.g. `id=5&sort=asc`, without the leading `?`)
/// into name/value pairs. Entries without an `=` are skipped rather than
/// treated as an error; never fails.
pub fn parse_query_string(query: &str) -> (r: ParamMap)
    ensures
        r@ == query_map(query@),
{
    let v = char_vec(query);
    let n = v.len();
    let mut params = ParamMap::new();
    let ghost mut done: Seq<(Seq<char>, Seq<char>)> = Seq::empty();
    let mut i: usize = 0;
    let mut more = true;
    while more
        invariant
            n == v@.len(),
            v@ == query@,
            i <= n,
            params@ == map_of(done),
            more ==> done + query_pairs_from(v@, i as int) == query_pairs_from(v@, 0),
            !more ==> done == query_pairs_from(v@, 0),
        decreases n - i + (if more { 1int } else { 0int }),
    {
        let found = find_char_from(&v, '&', i);
        let end = match found {
            Some(j) => j,
            None => n,
        };
        let piece = substring(query, i, end);
        let pv = char_vec(piece.as_str());
        let ghost before = done;
        let ghost here: Seq<(Seq<char>, Seq<char>)> = match split_once(v@.subrange(i as int, end as int), '=') {
            Some(kv) => seq![kv],
            None => Seq::empty(),
        };
        match find_char_from(&pv, '=', 0) {
            Some(k) => {
                let name = substring(piece.as_str(), 0, k);
                let value = substring(piece.as_str(), k + 1, pv.len());
                proof {
                    assert(pv@ == v@.subrange(i as int, end as int));
                    assert(find_char(pv@, '=', 0) == Some(k as int));
                    assert(split_once(pv@, '=') == Some((name@, value@)));
                    assert(here == seq![(name@, value@)]);
                    done = done.push((name@, value@));
                    assert(done.drop_last() =~= before);
                }
                params.insert(name, value);
            },
            None => {
                assert(here == Seq::<(Seq<char>, Seq<char>)>::empty());
            },
        }
        assert(done =~= before + here);
        match found {
            Some(j) => {
                proof {
                    lemma_find_char_bounds(v@, '&', i as int);
                    assert(query_pairs_from(v@, i as int) == here + query_pairs_from(v@, j + 1));
                    assert(before + (here + query_pairs_from(v@, j + 1)) =~= done + query_pairs_from(
                        v@,
                        j + 1,
                    ));
                }
                i = j + 1;
            },
            None => {
                proof {
                    assert(query_pairs_from(v@, i as int) == here);
                }
                more = false;
            },
        }
    }
    params
}

// ---------------------------------------------------------------------------
// Header lines
// ---------------------------------------------------------------------------

/// The header in a line `name: value`, cut at the first `": "`.
pub open spec fn header_of_line(l: Seq<char>) -> Option<(Seq<char>, Seq<char>)> {
    match find_pair(l, ':', ' ', 0) {
        Some(i) => Some((l.subrange(0, i), l.subrange(i + 2, l.len() as int))),
        None => None,
    }
}

/// The headers of `lines[i..]` up to the first empty line, in order; lines
/// without `": "` give none.
pub open spec fn headers_from(lines: Seq<Seq<char>>, i: int) -> Seq<(Seq<char>, Seq<char>)>
    decreases lines.len() - i,
{
    if i < 0 || i >= lines.len() || lines[i].len() == 0 {
        Seq::empty()
    } else {
        (match header_of_line(lines[i]) {
            Some(h) => seq![h],
            None => Seq::empty(),
        }) + headers_from(lines, i + 1)
    }
}

/// The headers of a header block: the lines before the first empty one.
pub open spec fn parsed_headers(lines: Seq<Seq<char>>) -> Seq<(Seq<char>, Seq<char>)> {
    headers_from(lines, 0)
}

/// Whether a header name is `Content-Length`, in any ASCII case.
pub open spec fn is_content_length_name(name: Seq<char>) -> bool {
    eq_ignore_ascii_case(name, "Content-Length"@)
}

/// The length a `Content-Length` value gives: the trimmed value as a
/// `usize`, or 0 if it does not parse as one.
pub open spec fn content_length_value(value: Seq<char>) -> usize {
    match parse_usize(trim(value)) {
        Some(n) => n,
        None => 0,
    }
}

/// The body length that a list of headers declares: that of the last
/// `Content-Length` header, or 0 if there is none.
pub open spec fn declared_content_length(headers: Seq<(Seq<char>, Seq<char>)>) -> usize
    decreases headers.len(),
{
    if headers.len() == 0 {
        0
    } else if is_content_length_name(headers.last().0) {
        content_length_value(headers.last().1)
    } else {
        declared_content_length(headers.drop_last())
    }
}

/// Reads the header block of a request: the lines up to the first empty one.
///
/// Returns the `(name, value)` headers in the order received (lines without
/// `": "` are skipped) and the `Content-Length` declared (0 if the header
/// isn't present or doesn't parse as a number).
pub fn parse_headers(lines: &[String]) -> (r: (Vec<Header>, usize))
    ensures
        headers_text(r.0@) == parsed_headers(crate::http_route::strings_text(lines@)),
        r.1 == declared_content_length(parsed_headers(crate::http_route::strings_text(lines@))),
{
    let ghost ls = crate::http_route::strings_text(lines@);
    let mut headers: Vec<Header> = Vec::new();
    let mut content_length: usize = 0;
    let content_length_name = char_vec("Content-Length");
    let mut i: usize = 0;
    while i < lines.len()
        invariant_except_break
            ls == crate::http_route::strings_text(lines@),
            content_length_name@ == "Content-Length"@,
            i <= lines@.len(),
            headers_text(headers@) + headers_from(ls, i as int) == headers_from(ls, 0),
            content_length == declared_content_length(headers_text(headers@)),
        ensures
            headers_text(headers@) == headers_from(ls, 0),
            content_length == declared_content_length(headers_text(headers@)),
        decreases lines@.len() - i,
    {
        let line = lines[i].as_str();
        let chars = char_vec(line);
        assert(ls[i as int] == line@);
        if chars.len() == 0 {
            assert(headers_from(ls, i as int) == Seq::<(Seq<char>, Seq<char>)>::empty());
            assert(headers_text(headers@) + headers_from(ls, i as int) =~= headers_text(headers@));
            break;
        }
        let ghost before = headers@;
        let ghost here: Seq<(Seq<char>, Seq<char>)> = match header_of_line(line@) {
            Some(h) => seq![h],
            None => Seq::empty(),
        };
        match find_pair_from(&chars, ':', ' ', 0) {
            Some(k) => {
                let name = substring(line, 0, k);
                let value = substring(line, k + 2, chars.len());
                let name_chars = char_vec(name.as_str());
                if eq_ignore_ascii_case_chars(&name_chars, &content_length_name) {
                    let value_chars = char_vec(value.as_str());
                    let start = skip_white_space_from(&value_chars, 0);
                    let end = trim_end_from(&value_chars, value_chars.len());
                    content_length = if start < end {
                        match parse_usize_range(&value_chars, start, end) {
                            Some(n) => n,
                            None => 0,
                        }
                    } else {
                        0
                    };
                }
                let h = Header { name, value };
                proof {
                    assert(here == seq![h@]);
                }
                headers.push(h);
                proof {
                    assert(headers@ =~= before.push(h));
                    assert(headers_text(headers@) =~= headers_text(before).push(h@));
                    assert(headers_text(headers@).drop_last() =~= headers_text(before));
                }
            },
            None => {
                assert(here == Seq::<(Seq<char>, Seq<char>)>::empty());
            },
        }
        proof {
            assert(headers_text(headers@) =~= headers_text(before) + here);
            assert(headers_from(ls, i as int) == here + headers_from(ls, i + 1));
            assert(headers_text(before) + (here + headers_from(ls, i + 1)) =~= headers_text(headers@)
                + headers_from(ls, i + 1));
        }
        i = i + 1;
    }
    proof {
        if i >= lines.len() {
            assert(headers_text(headers@) + headers_from(ls, i as int) =~= headers_text(headers@));
        }
    }
    (headers, content_length)
}

// ---------------------------------------------------------------------------
// Request line and body
// ---------------------------------------------------------------------------

/// The first two white-space-separated tokens of a request line
/// (`METHOD /path?query HTTP/1.1`), each empty if missing.
pub open spec fn request_line_fields(line: Seq<char>) -> (Seq<char>, Seq<char>) {
    let a = skip_white_space(line, 0);
    let b = token_end(line, a);
    let c = skip_white_space(line, b);
    let d = token_end(line, c);
    (line.subrange(a, b), line.subrange(c, d))
}

/// The path of a request target: the text before the first `?`.
pub open spec fn target_path(target: Seq<char>) -> Seq<char> {
    match split_once(target, '?') {
        Some((path, _)) => path,
        None => target,
    }
}

/// The query parameters of a request target: those of the text after the
/// first `?`, none if there is no `?`.
pub open spec fn target_query(target: Seq<char>) -> Map<Seq<char>, Seq<char>> {
    match split_once(target, '?') {
        Some((_, query)) => query_map(query),
        None => Map::empty(),
    }
}

/// Whether every byte is ASCII (below 0x80).
pub open spec fn ascii_bytes(bytes: Seq<u8>) -> bool {
    forall|i: int| 0 <= i < bytes.len() ==> #[trigger] bytes[i] < 0x80
}

/// The text of ASCII bytes: one character per byte.
pub open spec fn ascii_text(bytes: Seq<u8>) -> Seq<char> {
    bytes.map_values(|b: u8| b as char)
}

/// ASCII bytes are valid UTF-8 and decode to one character per byte (so no
/// bytes decode to the empty text).
pub proof fn lemma_ascii_bytes_decode(bytes: Seq<u8>)
    ensures
        ascii_bytes(bytes) ==> valid_utf8(bytes) && decode_utf8(bytes) == ascii_text(bytes),
    decreases bytes.len(),
{
    if ascii_bytes(bytes) && bytes.len() > 0 {
        let b = bytes[0];
        assert(b & 0x7f == b) by (bit_vector)
            requires
                b < 0x80,
        ;
        let rest = pop_first_scalar(bytes);
        assert(rest =~= bytes.drop_first());
        assert(ascii_bytes(rest)) by {
            assert forall|i: int| 0 <= i < rest.len() implies #[trigger] rest[i] < 0x80 by {
                assert(rest[i] == bytes[i + 1]);
            }
        }
        lemma_ascii_bytes_decode(rest);
        assert(decode_utf8(bytes) =~= ascii_text(bytes));
    }
}

/// The text that `String::from_utf8_lossy` makes of `bytes`.
pub uninterp spec fn utf8_lossy(bytes: Seq<u8>) -> Seq<char>;

/// Calls `String::from_utf8_lossy`, which decodes `bytes` as UTF-8 and puts
/// U+FFFD in place of each invalid sequence. The contract names the result
/// and states what the documentation of that function promises: valid
/// UTF-8 comes back unchanged. Where each replacement character goes is
/// left unsaid.
#[verifier::external_body]
fn decode_body(bytes: &[u8]) -> (r: String)
    ensures
        r@ == utf8_lossy(bytes@),
        valid_utf8(bytes@) ==> r@ == decode_utf8(bytes@),
{
    String::from_utf8_lossy(bytes).into_owned()
}

// ---------------------------------------------------------------------------
// Requests
// ---------------------------------------------------------------------------

/// The contents of a request, as mathematical values.
pub struct RequestView {
    pub method: Method,
    pub path: Seq<char>,
    pub headers: Seq<(Seq<char>, Seq<char>)>,
    pub body: Seq<char>,
    pub query_params: Map<Seq<char>, Seq<char>>,
    pub path_params: Map<Seq<char>, Seq<char>>,
}

/// A simple HTTP request struct that can be used to represent an HTTP
/// request in a web application.
pub struct HttpRequest {
    /// the http method of the request (e.g. GET, POST, PUT, DELETE)
    method: Method,
    /// the url of the request (e.g. /api/v1/users)
    path: String,
    /// the headers of the request (e.g. Content-Type: application/json)
    headers: Vec<Header>,
    /// the body of the request (e.g. {"name": "John Doe"})
    body: String,
    /// the query parameters of the request (e.g. ?name=John&age=30)
    query_params: ParamMap,
    /// the path parameters of the request (e.g. /users/:id)
    path_params: ParamMap,
}

impl View for HttpRequest {
    type V = RequestView;

    closed spec fn view(&self) -> RequestView {
        RequestView {
            method: self.method,
            path: self.path@,
            headers: headers_text(self.headers@),
            body: self.body@,
            query_params: self.query_params@,
            path_params: self.path_params@,
        }
    }
}

impl HttpRequest {
    pub fn new(
        method: Method,
        path: String,
        headers: Vec<Header>,
        body: String,
        query_params: ParamMap,
        path_params: ParamMap,
    ) -> (r: Self)
        ensures
            r@ == (RequestView {
                method,
                path: path@,
                headers: headers_text(headers@),
                body: body@,
                query_params: query_params@,
                path_params: path_params@,
            }),
    {
        HttpRequest { method, path, headers, body, query_params, path_params }
    }

    /// Builds a request from what a connection sent: its request line
    /// (`METHOD /path?query HTTP/1.1`), the headers of its header block and
    /// the bytes of its body.
    ///
    /// Returns `None` if the request line is empty (no request was sent).
    /// Otherwise the method is the line's first token, the path is its
    /// second token up to the first `?`, the query parameters come from the
    /// text after that `?`, the body is the bytes decoded as UTF-8 (lossily,
    /// replacing invalid sequences), and there are no path parameters yet.
    pub fn from_parts(request_line: &str, headers: Vec<Header>, body: &[u8]) -> (r: Option<Self>)
        ensures
            r is None <==> request_line@.len() == 0,
            r matches Some(req) ==> {
                let (method_text, target) = request_line_fields(request_line@);
                &&& parsed_method(method_text, req@.method)
                &&& req@.path == target_path(target)
                &&& req@.query_params == target_query(target)
                &&& req@.headers == headers_text(headers@)
                &&& req@.body == utf8_lossy(body@)
                &&& valid_utf8(body@) ==> req@.body == decode_utf8(body@)
                &&& ascii_bytes(body@) ==> req@.body == ascii_text(body@)
                &&& req@.path_params == Map::<Seq<char>, Seq<char>>::empty()
            },
    {
        let chars = char_vec(request_line);
        if chars.len() == 0 {
            return None;
        }
        let a = skip_white_space_from(&chars, 0);
        let b = token_end_from(&chars, a);
        let c = skip_white_space_from(&chars, b);
        let d = token_end_from(&chars, c);
        let method = Method::parse(substring(request_line, a, b).as_str());
        let target = substring(request_line, c, d);
        let target_chars = char_vec(target.as_str());
        let (path, query_params) = match find_char_from(&target_chars, '?', 0) {
            Some(q) => {
                let path = substring(target.as_str(), 0, q);
                let query = substring(target.as_str(), q + 1, target_chars.len());
                (path, parse_query_string(query.as_str()))
            },
            None => (target.clone(), ParamMap::new()),
        };
        proof {
            lemma_ascii_bytes_decode(body@);
        }
        Some(
            HttpRequest {
                method,
                path,
                headers,
                body: decode_body(body),
                query_params,
                path_params: ParamMap::new(),
            },
        )
    }

    pub fn method(&self) -> (r: Method)
        ensures
            r == self@.method,
    {
        self.method.clone()
    }

    pub fn path(&self) -> (r: String)
        ensures
            r@ == self@.path,
    {
        self.path.clone()
    }

    pub fn headers(&self) -> (r: Vec<Header>)
        ensures
            headers_text(r@) == self@.headers,
    {
        clone_headers(&self.headers)
    }

    pub fn body(&self) -> (r: String)
        ensures
            r@ == self@.body,
    {
        self.body.clone()
    }

    pub fn query_params(&self) -> (r: ParamMap)
        ensures
            r@ == self@.query_params,
    {
        self.query_params.clone()
    }

    pub fn path_params(&self) -> (r: ParamMap)
        ensures
            r@ == self@.path_params,
    {
        self.path_params.clone()
    }

    pub fn set_method(&mut self, method: Method)
        ensures
            final(self)@ == (RequestView { method, ..old(self)@ }),
    {
        self.method = method;
    }

    pub fn set_path(&mut self, path: String)
        ensures
            final(self)@ == (RequestView { path: path@, ..old(self)@ }),
    {
        self.path = path;
    }

    pub fn set_headers(&mut self, headers: Vec<Header>)
        ensures
            final(self)@ == (RequestView { headers: headers_text(headers@), ..old(self)@ }),
    {
        self.headers = headers;
    }

    pub fn set_body(&mut self, body: String)
        ensures
            final(self)@ == (RequestView { body: body@, ..old(self)@ }),
    {
        self.body = body;
    }

    pub fn set_query_params(&mut self, query_params: ParamMap)
        ensures
            final(self)@ == (RequestView { query_params: query_params@, ..old(self)@ }),
    {
        self.query_params = query_params;
    }

    pub fn set_path_params(&mut self, path_params: ParamMap)
        ensures
            final(self)@ == (RequestView { path_params: path_params@, ..old(self)@ }),
    {
        self.path_params = path_params;
    }
}

// ---------------------------------------------------------------------------
// Laws of request parsing
// ---------------------------------------------------------------------------

/// Whether `s` holds no white space.
pub open spec fn no_white_space(s: Seq<char>) -> bool {
    forall|j: int| 0 <= j < s.len() ==> !is_white_space(#[trigger] s[j])
}

/// A request line `METHOD TARGET VERSION`, with the method and target
/// non-empty and free of white space, gives back its method and target.
pub proof fn lemma_request_line_fields(m: Seq<char>, target: Seq<char>, version: Seq<char>)
    requires
        m.len() > 0,
        target.len() > 0,
        no_white_space(m),
        no_white_space(target),
    ensures
        request_line_fields(m + seq![' '] + target + seq![' '] + version) == (m, target),
{
    let s = m + seq![' '] + target + seq![' '] + version;
    let a = m.len() as int;
    let c = a + 1;
    let d = c + target.len();
    assert forall|j: int| 0 <= j < a implies s[j] == m[j] by {}
    assert forall|j: int| c <= j < d implies s[j] == target[j - c] by {}
    assert(s[a] == ' ');
    assert(s[d] == ' ');
    assert(is_white_space(' '));
    assert(!is_white_space(s[0]));
    lemma_skip_white_space_run(s, 0, 0);
    assert forall|j: int| 0 <= j < a implies !is_white_space(#[trigger] s[j]) by {
        assert(!is_white_space(m[j]));
    }
    lemma_token_end_run(s, 0, a);
    assert(!is_white_space(s[c])) by {
        assert(s[c] == target[0]);
    }
    lemma_skip_white_space_run(s, a, c);
    assert forall|j: int| c <= j < d implies !is_white_space(#[trigger] s[j]) by {
        assert(!is_white_space(target[j - c]));
    }
    lemma_token_end_run(s, c, d);
    assert(s.subrange(0, a) =~= m);
    assert(s.subrange(c, d) =~= target);
}

/// A target `PATH?QUERY` whose path holds no `?` gives back the path, and
/// the parameters of the query.
pub proof fn lemma_target_with_query(path: Seq<char>, query: Seq<char>)
    requires
        find_char(path, '?', 0) is None,
    ensures
        target_path(path + seq!['?'] + query) == path,
        target_query(path + seq!['?'] + query) == query_map(query),
{
    lemma_split_once_join(path, query, '?');
}

/// A target without `?` is all path, with no query parameters.
pub proof fn lemma_target_without_query(target: Seq<char>)
    requires
        find_char(target, '?', 0) is None,
    ensures
        target_path(target) == target,
        target_query(target) == Map::<Seq<char>, Seq<char>>::empty(),
{
}

proof fn lemma_query_pairs_shift(p: Seq<char>, b: Seq<char>, k: int)
    requires
        0 <= k <= b.len(),
    ensures
        query_pairs_from(p + b, p.len() + k) == query_pairs_from(b, k),
    decreases b.len() - k,
{
    let s = p + b;
    let i = p.len() + k;
    lemma_find_char_shift(p, b, '&', k);
    lemma_find_char_bounds(b, '&', k);
    let end_b = match find_char(b, '&', k) {
        Some(j) => j,
        None => b.len() as int,
    };
    assert(s.subrange(i, p.len() + end_b) =~= b.subrange(k, end_b));
    if let Some(j) = find_char(b, '&', k) {
        lemma_query_pairs_shift(p, b, j + 1);
    }
}

proof fn lemma_query_pairs_append(a: Seq<char>, b: Seq<char>, i: int)
    requires
        0 <= i <= a.len(),
    ensures
        query_pairs_from(a + seq!['&'] + b, i) == query_pairs_from(a, i) + query_pairs_from(b, 0),
    decreases a.len() - i,
{
    let y = seq!['&'] + b;
    let s = a + seq!['&'] + b;
    assert(s =~= a + y);
    lemma_find_char_append(a, y, '&', i);
    lemma_find_char_bounds(a, '&', i);
    match find_char(a, '&', i) {
        Some(j) => {
            assert(s.subrange(i, j) =~= a.subrange(i, j));
            lemma_query_pairs_append(a, b, j + 1);
            let here: Seq<(Seq<char>, Seq<char>)> = match split_once(a.subrange(i, j), '=') {
                Some(kv) => seq![kv],
                None => Seq::empty(),
            };
            assert(here + (query_pairs_from(a, j + 1) + query_pairs_from(b, 0)) =~= (here + query_pairs_from(
                a,
                j + 1,
            )) + query_pairs_from(b, 0));
        },
        None => {
            assert(s[a.len() as int] == '&');
            assert(find_char(s, '&', a.len() as int) == Some(a.len() as int));
            assert(s.subrange(i, a.len() as int) =~= a.subrange(i, a.len() as int));
            assert(s =~= (a + seq!['&']) + b);
            lemma_query_pairs_shift(a + seq!['&'], b, 0);
        },
    }
}

/// Joining two query strings with `&` joins their parameters, those of the
/// second replacing those of the first for a name in both.
pub proof fn lemma_query_concat(a: Seq<char>, b: Seq<char>)
    ensures
        query_map(a + seq!['&'] + b) == query_map(a).union_prefer_right(query_map(b)),
{
    lemma_query_pairs_append(a, b, 0);
    lemma_map_of_concat(query_pairs_from(a, 0), query_pairs_from(b, 0));
}

proof fn lemma_find_pair_in_header_line(n: Seq<char>, v: Seq<char>, i: int)
    requires
        0 <= i <= n.len(),
        find_pair(n, ':', ' ', i) is None,
    ensures
        find_pair(n + ": "@ + v, ':', ' ', i) == Some(n.len() as int),
    decreases n.len() - i,
{
    reveal_strlit(": ");
    let s = n + ": "@ + v;
    assert(s[n.len() as int] == ':');
    assert(s[n.len() as int + 1] == ' ');
    if i < n.len() {
        assert(s[i] == n[i]);
        if i + 1 < n.len() {
            assert(s[i + 1] == n[i + 1]);
        } else {
            assert(s[i + 1] == ':');
        }
        lemma_find_pair_in_header_line(n, v, i + 1);
    }
}

/// The header line `name: value` of a header whose name holds no `": "`.
pub open spec fn header_line(h: (Seq<char>, Seq<char>)) -> Seq<char> {
    h.0 + ": "@ + h.1
}

proof fn lemma_headers_from_lines(hs: Seq<(Seq<char>, Seq<char>)>, i: int)
    requires
        0 <= i <= hs.len(),
        forall|k: int| 0 <= k < hs.len() ==> find_pair(#[trigger] hs[k].0, ':', ' ', 0) is None,
    ensures
        headers_from(hs.map_values(|h: (Seq<char>, Seq<char>)| header_line(h)), i) == hs.subrange(
            i,
            hs.len() as int,
        ),
    decreases hs.len() - i,
{
    reveal_strlit(": ");
    let lines = hs.map_values(|h: (Seq<char>, Seq<char>)| header_line(h));
    if i < hs.len() {
        let h = hs[i];
        let l = lines[i];
        assert(l == h.0 + ": "@ + h.1);
        assert(l.len() > 0);
        lemma_find_pair_in_header_line(h.0, h.1, 0);
        assert(l.subrange(0, h.0.len() as int) =~= h.0);
        assert(l.subrange(h.0.len() as int + 2, l.len() as int) =~= h.1);
        assert(header_of_line(l) == Some(h));
        lemma_headers_from_lines(hs, i + 1);
        assert(hs.subrange(i, hs.len() as int) =~= seq![h] + hs.subrange(i + 1, hs.len() as int));
    } else {
        assert(hs.subrange(i, hs.len() as int) =~= Seq::<(Seq<char>, Seq<char>)>::empty());
    }
}

/// Headers written one per line as `name: value` are read back as they were
/// written, when no name holds `": "`.
pub proof fn lemma_header_lines_round_trip(hs: Seq<(Seq<char>, Seq<char>)>)
    requires
        forall|k: int| 0 <= k < hs.len() ==> find_pair(#[trigger] hs[k].0, ':', ' ', 0) is None,
    ensures
        parsed_headers(hs.map_values(|h: (Seq<char>, Seq<char>)| header_line(h))) == hs,
{
    lemma_headers_from_lines(hs, 0);
    assert(hs.subrange(0, hs.len() as int) =~= hs);
}

// ---------------------------------------------------------------------------
// Laws of the declared body length and of query strings
// ---------------------------------------------------------------------------

/// A header whose name is not `Content-Length` (in any ASCII case) does not
/// change the body length that the headers before it declare.
pub proof fn lemma_other_header_keeps_length(hs: Seq<(Seq<char>, Seq<char>)>, h: (Seq<char>, Seq<char>))
    requires
        !eq_ignore_ascii_case(h.0, "Content-Length"@),
    ensures
        declared_content_length(hs.push(h)) == declared_content_length(hs),
{
    assert(hs.push(h).drop_last() =~= hs);
}

/// A `Content-Length` header (in any ASCII case) whose value is the decimal
/// text of `n` declares `n`, whatever headers came before it.
pub proof fn lemma_content_length_header_declares(hs: Seq<(Seq<char>, Seq<char>)>, name: Seq<char>, n: usize)
    requires
        eq_ignore_ascii_case(name, "Content-Length"@),
    ensures
        declared_content_length(hs.push((name, decimal_text(n as nat)))) == n,
{
    lemma_decimal_text_parses_back(n);
}

/// Headers without a `Content-Length` header declare no body.
pub proof fn lemma_no_content_length_header(hs: Seq<(Seq<char>, Seq<char>)>)
    requires
        forall|k: int| 0 <= k < hs.len() ==> !eq_ignore_ascii_case(#[trigger] hs[k].0, "Content-Length"@),
    ensures
        declared_content_length(hs) == 0,
    decreases hs.len(),
{
    if hs.len() > 0 {
        assert(!eq_ignore_ascii_case(hs[hs.len() - 1].0, "Content-Length"@));
        lemma_no_content_length_header(hs.drop_last());
    }
}

/// The body length declared is that of the last `Content-Length` header,
/// wherever it stands in the list: the value of header `k`, trimmed and read
/// as a `usize` (0 if it does not read as one), when no header after it is
/// a `Content-Length` header.
pub proof fn lemma_last_content_length_wins(hs: Seq<(Seq<char>, Seq<char>)>, k: int)
    requires
        0 <= k < hs.len(),
        eq_ignore_ascii_case(hs[k].0, "Content-Length"@),
        forall|l: int| k < l < hs.len() ==> !eq_ignore_ascii_case(#[trigger] hs[l].0, "Content-Length"@),
    ensures
        declared_content_length(hs) == (match parse_usize(trim(hs[k].1)) {
            Some(n) => n,
            None => 0,
        }),
    decreases hs.len(),
{
    if k < hs.len() - 1 {
        assert(!eq_ignore_ascii_case(hs[hs.len() - 1].0, "Content-Length"@));
        assert(hs.drop_last()[k] == hs[k]);
        lemma_last_content_length_wins(hs.drop_last(), k);
    }
}

/// A query string of one piece `name=value` binds `name` to `value` and
/// nothing else, for every name without `=` or `&` and every value without
/// `&`, the empty value included.
pub proof fn lemma_single_query_pair(name: Seq<char>, value: Seq<char>)
    requires
        !name.contains('='),
        !name.contains('&'),
        !value.contains('&'),
    ensures
        query_map(name + seq!['='] + value) == map![name => value],
{
    let s = name + seq!['='] + value;
    assert forall|j: int| 0 <= j < s.len() implies s[j] != '&' by {
        if j < name.len() {
            assert(s[j] == name[j]);
        } else if j > name.len() {
            assert(s[j] == value[j - name.len() - 1]);
        }
    }
    lemma_find_char_none(s, '&', 0);
    assert forall|j: int| 0 <= j < name.len() implies name[j] != '=' by {}
    lemma_find_char_none(name, '=', 0);
    lemma_split_once_join(name, value, '=');
    assert(s.subrange(0, s.len() as int) =~= s);
    assert(query_pairs_from(s, 0) == seq![(name, value)]);
    let one = seq![(name, value)];
    assert(one.drop_last() =~= Seq::<(Seq<char>, Seq<char>)>::empty());
    assert(one.last() == (name, value));
    assert(map_of(Seq::<(Seq<char>, Seq<char>)>::empty()) == Map::<Seq<char>, Seq<char>>::empty());
    assert(map_of(one) == map_of(one.drop_last()).insert(name, value));
    assert(map_of(one) =~= map![name => value]);
}

} // verus!
