//! Routes: a method and a path pattern such as `/location/:id`, matched
//! against incoming requests.
use vstd::prelude::*;

use crate::http_method::{is_canonical, method_text, parsed_method, Method};
use crate::params::ParamMap;
use crate::text::{char_vec, find_char, find_char_from, lemma_find_char_bounds, substring};

verus! {

/// The non-empty pieces of `s[i..]` between `/` separators, in order.
pub open spec fn segments_from(s: Seq<char>, i: int) -> Seq<Seq<char>>
    decreases s.len() - i,
{
    if i < 0 || i >= s.len() {
        Seq::empty()
    } else {
        match find_char(s, '/', i) {
            Some(j) => {
                proof {
                    lemma_find_char_bounds(s, '/', i);
                }
                (if j > i {
                    seq![s.subrange(i, j)]
                } else {
                    Seq::empty()
                }) + segments_from(s, j + 1)
            },
            None => seq![s.subrange(i, s.len() as int)],
        }
    }
}

/// The segments of a path: its non-empty pieces between `/` separators, so
/// that `/user`, `/user/` and `//user` all have the one segment `user`.
pub open spec fn path_segments(s: Seq<char>) -> Seq<Seq<char>> {
    segments_from(s, 0)
}

/// Whether a pattern segment is a parameter, such as `:id`.
pub open spec fn is_param_segment(p: Seq<char>) -> bool {
    p.len() > 0 && p[0] == ':'
}

/// Matches pattern segments against path segments from index `i` on, with
/// the parameters captured so far in `acc`: a parameter segment `:name`
/// captures whatever path segment is in its position under `name` (a later
/// capture of a name replaces an earlier one), any other pattern segment
/// must equal the path segment.
pub open spec fn match_segments(
    pattern: Seq<Seq<char>>,
    path: Seq<Seq<char>>,
    i: int,
    acc: Map<Seq<char>, Seq<char>>,
) -> Option<Map<Seq<char>, Seq<char>>>
    decreases pattern.len() - i,
{
    if i < 0 || i >= pattern.len() || i >= path.len() {
        Some(acc)
    } else if is_param_segment(pattern[i]) {
        match_segments(pattern, path, i + 1, acc.insert(pattern[i].drop_first(), path[i]))
    } else if pattern[i] == path[i] {
        match_segments(pattern, path, i + 1, acc)
    } else {
        None
    }
}

/// The parameters that `pattern` captures from `path`, or `None` if it does
/// not match: the two must have as many segments, matched pairwise.
pub open spec fn path_params_of(pattern: Seq<char>, path: Seq<char>) -> Option<Map<Seq<char>, Seq<char>>> {
    let p = path_segments(pattern);
    let q = path_segments(path);
    if p.len() != q.len() {
        None
    } else {
        match_segments(p, q, 0, Map::empty())
    }
}

/// Maps an HTTP method and path pattern to the handler that serves it.
pub struct Route<H> {
    /// The HTTP method this route matches (e.g. `"GET"`).
    pub method: String,
    /// The path pattern this route matches, e.g. `"/users"` or, with a path
    /// parameter, `"/location/:id"`.
    pub pattern: String,
    /// The handler invoked when this route matches an incoming request.
    pub handler: H,
}

/// Whether `route` serves a request with method `m` for `path`.
pub open spec fn route_accepts<H>(route: Route<H>, m: Method, path: Seq<char>) -> bool {
    &&& parsed_method(route.method@, m)
    &&& path_params_of(route.pattern@, path) is Some
}

/// The index of the first route from `i` on that serves `m` and `path`.
pub open spec fn first_match_from<H>(routes: Seq<Route<H>>, m: Method, path: Seq<char>, i: int) -> Option<int>
    decreases routes.len() - i,
{
    if i < 0 || i >= routes.len() {
        None
    } else if route_accepts(routes[i], m, path) {
        Some(i)
    } else {
        first_match_from(routes, m, path, i + 1)
    }
}

/// The index of the first route in `routes` that serves `m` and `path`.
pub open spec fn first_match<H>(routes: Seq<Route<H>>, m: Method, path: Seq<char>) -> Option<int> {
    first_match_from(routes, m, path, 0)
}

/// The texts of a list of strings.
pub open spec fn strings_text(s: Seq<String>) -> Seq<Seq<char>> {
    s.map_values(|x: String| x@)
}

/// The segments of `s` (see `path_segments`), as strings.
pub fn split_segments(s: &str) -> (r: Vec<String>)
    ensures
        strings_text(r@) == path_segments(s@),
{
    let v = char_vec(s);
    let n = v.len();
    let mut out: Vec<String> = Vec::new();
    let mut i: usize = 0;
    while i < n
        invariant
            n == v@.len(),
            v@ == s@,
            i <= n,
            strings_text(out@) + segments_from(v@, i as int) == segments_from(v@, 0),
        decreases n - i,
    {
        let ghost before = out@;
        match find_char_from(&v, '/', i) {
            Some(j) => {
                proof {
                    lemma_find_char_bounds(v@, '/', i as int);
                    let piece: Seq<Seq<char>> = if j > i {
                        seq![v@.subrange(i as int, j as int)]
                    } else {
                        Seq::empty()
                    };
                    assert(segments_from(v@, i as int) == piece + segments_from(v@, j + 1));
                    assert(strings_text(before) + (piece + segments_from(v@, j + 1)) =~= (
                    strings_text(before) + piece) + segments_from(v@, j + 1));
                }
                if j > i {
                    out.push(substring(s, i, j));
                    assert(out@ =~= before.push(out@.last()));
                    assert(strings_text(out@) =~= strings_text(before).push(v@.subrange(i as int, j as int)));
                } else {
                    assert(out@ =~= before);
                }
                i = j + 1;
            },
            None => {
                out.push(substring(s, i, n));
                assert(out@ =~= before.push(out@.last()));
                assert(strings_text(out@) =~= strings_text(before).push(v@.subrange(i as int, n as int)));
                i = n;
            },
        }
    }
    assert(strings_text(out@) + segments_from(v@, i as int) =~= strings_text(out@));
    out
}

impl<H> Route<H> {
    pub fn new(method: String, pattern: String, handler: H) -> (r: Self)
        ensures
            r.method == method,
            r.pattern == pattern,
            r.handler == handler,
    {
        Route { method, pattern, handler }
    }

    /// Checks whether `method` matches this route's method: whether parsing
    /// the route's method text gives `method`.
    pub fn matches_method(&self, method: &Method) -> (b: bool)
        ensures
            b == parsed_method(self.method@, *method),
    {
        let mine = Method::parse(self.method.as_str());
        let b = mine == *method;
        proof {
            if !b && parsed_method(self.method@, *method) {
                crate::http_method::lemma_text_determines_method(mine, *method);
            }
        }
        b
    }

    /// Checks whether `path` matches this route's pattern, independent of
    /// method: segment by segment, where a pattern segment starting with `:`
    /// (e.g. `:id`) captures whatever segment is in that position of `path`.
    ///
    /// Returns the captured parameters on a match (empty if the pattern has
    /// no `:param` segments), or `None` if the segment count or a literal
    /// segment differs.
    pub fn matches_path(&self, path: &str) -> (r: Option<ParamMap>)
        ensures
            r is Some <==> path_params_of(self.pattern@, path@) is Some,
            r matches Some(m) ==> m@ == path_params_of(self.pattern@, path@).unwrap(),
            path_segments(self.pattern@).len() != path_segments(path@).len() ==> r is None,
    {
        let pattern_parts = split_segments(self.pattern.as_str());
        let path_parts = split_segments(path);
        let ghost p = strings_text(pattern_parts@);
        let ghost q = strings_text(path_parts@);
        if pattern_parts.len() != path_parts.len() {
            return None;
        }
        let mut params = ParamMap::new();
        let n = pattern_parts.len();
        let mut i: usize = 0;
        while i < n
            invariant
                n == pattern_parts@.len() == path_parts@.len(),
                p == strings_text(pattern_parts@),
                q == strings_text(path_parts@),
                p == path_segments(self.pattern@),
                q == path_segments(path@),
                i <= n,
                match_segments(p, q, i as int, params@) == match_segments(p, q, 0, Map::empty()),
            decreases n - i,
        {
            let seg = &pattern_parts[i];
            let actual = &path_parts[i];
            assert(p[i as int] == seg@ && q[i as int] == actual@);
            let chars = char_vec(seg.as_str());
            if chars.len() > 0 && chars[0] == ':' {
                let name = substring(seg.as_str(), 1, chars.len());
                assert(name@ =~= seg@.drop_first());
                params.insert(name, actual.clone());
            } else if *seg != *actual {
                assert(!is_param_segment(p[i as int]));
                assert(match_segments(p, q, i as int, params@) is None);
                return None;
            }
            i = i + 1;
        }
        Some(params)
    }
}

/// Finds the first route in `routes` matching `method` and `path`.
///
/// Returns the matched route and its captured path parameters (empty if the
/// pattern had none), or the message `Route not found` if no route in
/// `routes` matches both `method` and `path`.
pub fn find_route<'a, H>(routes: &'a [Route<H>], method: &Method, path: &str) -> (r: Result<
    (&'a Route<H>, ParamMap),
    String,
>)
    ensures
        r is Ok <==> first_match(routes@, *method, path@) is Some,
        r matches Ok((route, params)) ==> {
            &&& *route == routes@[first_match(routes@, *method, path@).unwrap()]
            &&& params@ == path_params_of(route.pattern@, path@).unwrap()
            &&& parsed_method(route.method@, *method)
            &&& path_segments(route.pattern@).len() == path_segments(path@).len()
        },
        r matches Err(msg) ==> msg@ == "Route not found"@,
{
    let mut i: usize = 0;
    while i < routes.len()
        invariant
            i <= routes@.len(),
            first_match_from(routes@, *method, path@, i as int) == first_match(routes@, *method, path@),
        decreases routes@.len() - i,
    {
        let route = &routes[i];
        if route.matches_method(method) {
            match route.matches_path(path) {
                Some(params) => {
                    return Ok((route, params));
                },
                None => {},
            }
        }
        i = i + 1;
    }
    Err("Route not found".to_owned())
}

/// Only the segments of a path decide how a pattern matches it: paths that
/// differ only in empty pieces (`/user`, `/user/`, `//user`) match alike.
pub proof fn lemma_segments_decide_match(pattern: Seq<char>, a: Seq<char>, b: Seq<char>)
    requires
        path_segments(a) == path_segments(b),
    ensures
        path_params_of(pattern, a) == path_params_of(pattern, b),
{
}

proof fn lemma_match_literal(p: Seq<Seq<char>>, q: Seq<Seq<char>>, i: int, acc: Map<Seq<char>, Seq<char>>)
    requires
        0 <= i <= p.len(),
        p.len() == q.len(),
        forall|k: int| 0 <= k < p.len() ==> !is_param_segment(#[trigger] p[k]),
    ensures
        match_segments(p, q, i, acc) == (if p.subrange(i, p.len() as int) == q.subrange(i, q.len() as int) {
            Some(acc)
        } else {
            None
        }),
    decreases p.len() - i,
{
    if i < p.len() {
        lemma_match_literal(p, q, i + 1, acc);
        if p.subrange(i, p.len() as int) == q.subrange(i, q.len() as int) {
            assert(p[i] == p.subrange(i, p.len() as int)[0]);
            assert(q[i] == q.subrange(i, q.len() as int)[0]);
            assert(p.subrange(i + 1, p.len() as int) =~= p.subrange(i, p.len() as int).drop_first());
            assert(q.subrange(i + 1, q.len() as int) =~= q.subrange(i, q.len() as int).drop_first());
        } else if p[i] == q[i] {
            assert(p.subrange(i + 1, p.len() as int) != q.subrange(i + 1, q.len() as int)) by {
                if p.subrange(i + 1, p.len() as int) == q.subrange(i + 1, q.len() as int) {
                    assert(p.subrange(i, p.len() as int) =~= q.subrange(i, q.len() as int)) by {
                        assert forall|k: int| 0 <= k < p.len() - i implies p.subrange(i, p.len() as int)[k]
                            == q.subrange(i, q.len() as int)[k] by {
                            if k > 0 {
                                assert(p.subrange(i + 1, p.len() as int)[k - 1] == q.subrange(
                                    i + 1,
                                    q.len() as int,
                                )[k - 1]);
                            }
                        }
                    }
                }
            }
        }
    } else {
        assert(p.subrange(i, p.len() as int) =~= q.subrange(i, q.len() as int));
    }
}

/// A pattern without `:param` segments matches exactly the paths with the
/// same segments, and captures nothing.
pub proof fn lemma_literal_pattern(pattern: Seq<char>, path: Seq<char>)
    requires
        forall|k: int| 0 <= k < path_segments(pattern).len() ==> !is_param_segment(#[trigger] path_segments(pattern)[k]),
    ensures
        path_params_of(pattern, path) == (if path_segments(pattern) == path_segments(path) {
            Some(Map::<Seq<char>, Seq<char>>::empty())
        } else {
            None
        }),
{
    let p = path_segments(pattern);
    let q = path_segments(path);
    if p.len() == q.len() {
        lemma_match_literal(p, q, 0, Map::empty());
        assert(p.subrange(0, p.len() as int) =~= p);
        assert(q.subrange(0, q.len() as int) =~= q);
    }
}

proof fn lemma_first_match_from<H>(routes: Seq<Route<H>>, m: Method, path: Seq<char>, i: int)
    requires
        0 <= i,
    ensures
        first_match_from(routes, m, path, i) matches Some(j) ==> {
            &&& i <= j < routes.len()
            &&& route_accepts(routes[j], m, path)
            &&& forall|k: int| i <= k < j ==> !route_accepts(#[trigger] routes[k], m, path)
        },
        first_match_from(routes, m, path, i) is None ==> forall|k: int|
            i <= k < routes.len() ==> !route_accepts(#[trigger] routes[k], m, path),
    decreases routes.len() - i,
{
    if i < routes.len() && !route_accepts(routes[i], m, path) {
        lemma_first_match_from(routes, m, path, i + 1);
    }
}

/// The route that `find_route` picks serves the request and no route before
/// it does; and it finds none exactly when no route in the table serves
/// the request.
pub proof fn lemma_first_match<H>(routes: Seq<Route<H>>, m: Method, path: Seq<char>)
    ensures
        first_match(routes, m, path) matches Some(j) ==> {
            &&& 0 <= j < routes.len()
            &&& route_accepts(routes[j], m, path)
            &&& parsed_method(routes[j].method@, m)
            &&& path_segments(routes[j].pattern@).len() == path_segments(path).len()
            &&& forall|k: int| 0 <= k < j ==> !route_accepts(#[trigger] routes[k], m, path)
        },
        first_match(routes, m, path) is None <==> forall|k: int|
            0 <= k < routes.len() ==> !route_accepts(#[trigger] routes[k], m, path),
{
    lemma_first_match_from(routes, m, path, 0);
}

/// A route serves only requests whose method its method text parses to: a
/// route whose method is another is never the one picked, whatever its
/// pattern.
pub proof fn lemma_method_must_agree<H>(routes: Seq<Route<H>>, m: Method, path: Seq<char>, k: int)
    requires
        0 <= k < routes.len(),
        !parsed_method(routes[k].method@, m),
    ensures
        first_match(routes, m, path) != Some(k),
{
    lemma_first_match(routes, m, path);
}

/// A pattern matches no path with another number of segments, whether it
/// has `:param` segments or not.
pub proof fn lemma_segment_counts_must_agree(pattern: Seq<char>, path: Seq<char>)
    requires
        path_segments(pattern).len() != path_segments(path).len(),
    ensures
        path_params_of(pattern, path) is None,
{
}

/// Whether the parameter segment `k` of a pattern is the last one with its
/// name.
pub open spec fn last_param_of_name(p: Seq<Seq<char>>, k: int) -> bool {
    forall|l: int| k < l < p.len() && is_param_segment(p[l]) ==> #[trigger] p[l].drop_first() != p[k].drop_first()
}

proof fn lemma_match_captures(
    p: Seq<Seq<char>>,
    q: Seq<Seq<char>>,
    i: int,
    acc: Map<Seq<char>, Seq<char>>,
)
    requires
        0 <= i <= p.len(),
        p.len() == q.len(),
    ensures
        match_segments(p, q, i, acc) is Some <==> forall|k: int|
            i <= k < p.len() ==> is_param_segment(#[trigger] p[k]) || p[k] == q[k],
        match_segments(p, q, i, acc) matches Some(m) ==> {
            &&& forall|key: Seq<char>| acc.dom().contains(key) ==> #[trigger] m.dom().contains(key)
            &&& forall|k: int|
                i <= k < p.len() && is_param_segment(p[k]) ==> m.dom().contains(#[trigger] p[k].drop_first())
            &&& forall|k: int|
                i <= k < p.len() && is_param_segment(p[k]) && last_param_of_name(p, k) ==> m[#[trigger] p[k].drop_first()]
                    == q[k]
            &&& forall|key: Seq<char>|
                #[trigger] m.dom().contains(key) ==> acc.dom().contains(key) || exists|k: int|
                    i <= k < p.len() && is_param_segment(p[k]) && #[trigger] p[k].drop_first() == key
            &&& forall|key: Seq<char>|
                acc.dom().contains(key) && (forall|k: int|
                    i <= k < p.len() && is_param_segment(p[k]) ==> #[trigger] p[k].drop_first() != key) ==> #[trigger] m[key]
                    == acc[key]
        },
    decreases p.len() - i,
{
    if i < p.len() {
        let next = if is_param_segment(p[i]) {
            acc.insert(p[i].drop_first(), q[i])
        } else {
            acc
        };
        lemma_match_captures(p, q, i + 1, next);
        if is_param_segment(p[i]) || p[i] == q[i] {
            if let Some(m) = match_segments(p, q, i, acc) {
                assert(match_segments(p, q, i + 1, next) == Some(m));
                assert forall|key: Seq<char>| #[trigger] m.dom().contains(key) implies acc.dom().contains(key)
                    || exists|k: int| i <= k < p.len() && is_param_segment(p[k]) && #[trigger] p[k].drop_first() == key by {
                    if !acc.dom().contains(key) && !(exists|k: int|
                        i + 1 <= k < p.len() && is_param_segment(p[k]) && #[trigger] p[k].drop_first() == key) {
                        assert(next.dom().contains(key));
                        assert(is_param_segment(p[i]) && p[i].drop_first() == key);
                    }
                    if exists|k: int| i + 1 <= k < p.len() && is_param_segment(p[k]) && #[trigger] p[k].drop_first() == key {
                        let k = choose|k: int| i + 1 <= k < p.len() && is_param_segment(p[k]) && #[trigger] p[k].drop_first() == key;
                        assert(i <= k);
                    }
                }
                assert forall|k: int|
                    i <= k < p.len() && is_param_segment(p[k]) && last_param_of_name(p, k) implies m[#[trigger] p[k].drop_first()]
                    == q[k] by {
                    if k == i {
                        let name = p[i].drop_first();
                        assert(forall|l: int| i + 1 <= l < p.len() && is_param_segment(p[l]) ==> #[trigger] p[l].drop_first() != name);
                        assert(next.dom().contains(name));
                    } else {
                        assert(last_param_of_name(p, k));
                    }
                }
                assert forall|k: int|
                    i <= k < p.len() && is_param_segment(p[k]) implies m.dom().contains(#[trigger] p[k].drop_first()) by {
                    if k == i {
                        assert(next.dom().contains(p[i].drop_first()));
                    }
                }
            }
        } else {
            assert(!(is_param_segment(p[i]) || p[i] == q[i]));
        }
    }
}

/// How a pattern captures: it matches a path with as many segments exactly
/// when every pattern segment is a `:param` segment or equals the path's
/// segment at its position. Every `:param` segment captures the path's
/// segment in its position under its name (for a name that occurs more than
/// once, the last occurrence gives the value), and nothing else is captured.
pub proof fn lemma_pattern_captures(pattern: Seq<char>, path: Seq<char>)
    requires
        path_segments(pattern).len() == path_segments(path).len(),
    ensures
        ({
            let p = path_segments(pattern);
            let q = path_segments(path);
            &&& path_params_of(pattern, path) is Some <==> forall|k: int|
                0 <= k < p.len() ==> is_param_segment(#[trigger] p[k]) || p[k] == q[k]
            &&& path_params_of(pattern, path) matches Some(m) ==> {
                &&& forall|k: int|
                    0 <= k < p.len() && is_param_segment(p[k]) ==> m.dom().contains(#[trigger] p[k].drop_first())
                &&& forall|k: int|
                    0 <= k < p.len() && is_param_segment(p[k]) && last_param_of_name(p, k) ==> m[#[trigger] p[k].drop_first()]
                        == q[k]
                &&& forall|key: Seq<char>|
                    #[trigger] m.dom().contains(key) ==> exists|k: int|
                        0 <= k < p.len() && is_param_segment(p[k]) && #[trigger] p[k].drop_first() == key
            }
        }),
{
    lemma_match_captures(path_segments(pattern), path_segments(path), 0, Map::empty());
}

/// Every pattern matches its own text; each `:param` segment then captures
/// its own text (so `/location/:id` gives `id` bound to `:id`), and nothing
/// else is captured.
pub proof fn lemma_pattern_matches_itself(pattern: Seq<char>)
    ensures
        ({
            let p = path_segments(pattern);
            &&& path_params_of(pattern, pattern) is Some
            &&& path_params_of(pattern, pattern) matches Some(m) ==> {
                &&& forall|k: int|
                    0 <= k < p.len() && is_param_segment(p[k]) && last_param_of_name(p, k) ==> m[#[trigger] p[k].drop_first()]
                        == p[k]
                &&& forall|key: Seq<char>|
                    #[trigger] m.dom().contains(key) ==> exists|k: int|
                        0 <= k < p.len() && is_param_segment(p[k]) && #[trigger] p[k].drop_first() == key
            }
        }),
{
    lemma_match_captures(path_segments(pattern), path_segments(pattern), 0, Map::empty());
}

} // verus!
