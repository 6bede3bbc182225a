//! HTTP request methods and their text on the wire.
use vstd::prelude::*;
use vstd::std_specs::cmp::PartialEqSpecImpl;

use crate::text::{char_vec, chars_equal};

verus! {

/// An HTTP request method.
#[derive(Debug, Hash)]
pub enum Method {
    Get,
    Post,
    Put,
    Patch,
    /// Any method not otherwise recognized, holding its raw text (e.g.
    /// `"DELETE"`).
    Other(String),
}

/// Whether `s` is the name of one of the recognized methods.
pub open spec fn is_recognized_name(s: Seq<char>) -> bool {
    s == "GET"@ || s == "POST"@ || s == "PUT"@ || s == "PATCH"@
}

/// The text of a method on the wire.
pub open spec fn method_text(m: Method) -> Seq<char> {
    match m {
        Method::Get => "GET"@,
        Method::Post => "POST"@,
        Method::Put => "PUT"@,
        Method::Patch => "PATCH"@,
        Method::Other(s) => s@,
    }
}

/// A method in the form `Method::parse` gives: `Other` never holds the name
/// of a recognized method.
pub open spec fn is_canonical(m: Method) -> bool {
    m matches Method::Other(s) ==> !is_recognized_name(s@)
}

/// Two methods are the same: the same variant, and for `Other` the same text.
pub open spec fn same_method(a: Method, b: Method) -> bool {
    match (a, b) {
        (Method::Get, Method::Get) => true,
        (Method::Post, Method::Post) => true,
        (Method::Put, Method::Put) => true,
        (Method::Patch, Method::Patch) => true,
        (Method::Other(x), Method::Other(y)) => x@ == y@,
        _ => false,
    }
}

/// The method that the text `s` names, as `Method::parse` gives it.
pub open spec fn parsed_method(s: Seq<char>, m: Method) -> bool {
    is_canonical(m) && method_text(m) == s
}

impl Method {
    /// Parses a method name from a request line (e.g. `"GET"`).
    ///
    /// Returns the matching variant, or `Method::Other(s)` if `s` isn't one
    /// of the recognized methods (matching is case-sensitive). Never fails.
    pub fn parse(s: &str) -> (m: Method)
        ensures
            parsed_method(s@, m),
    {
        let t = char_vec(s);
        if chars_equal(&t, &char_vec("GET")) {
            Method::Get
        } else if chars_equal(&t, &char_vec("POST")) {
            Method::Post
        } else if chars_equal(&t, &char_vec("PUT")) {
            Method::Put
        } else if chars_equal(&t, &char_vec("PATCH")) {
            Method::Patch
        } else {
            Method::Other(s.to_owned())
        }
    }

    /// The method's text on the wire (e.g. `"GET"`, or the raw text held by
    /// `Other`).
    pub fn to_string(&self) -> (r: String)
        ensures
            r@ == method_text(*self),
    {
        match self {
            Method::Get => "GET".to_owned(),
            Method::Post => "POST".to_owned(),
            Method::Put => "PUT".to_owned(),
            Method::Patch => "PATCH".to_owned(),
            Method::Other(s) => s.clone(),
        }
    }
}

impl Clone for Method {
    fn clone(&self) -> (r: Self)
        ensures
            r == *self,
    {
        match self {
            Method::Get => Method::Get,
            Method::Post => Method::Post,
            Method::Put => Method::Put,
            Method::Patch => Method::Patch,
            Method::Other(s) => Method::Other(s.clone()),
        }
    }
}

impl PartialEq for Method {
    fn eq(&self, other: &Self) -> (r: bool) {
        match (self, other) {
            (Method::Get, Method::Get) => true,
            (Method::Post, Method::Post) => true,
            (Method::Put, Method::Put) => true,
            (Method::Patch, Method::Patch) => true,
            (Method::Other(x), Method::Other(y)) => *x == *y,
            _ => false,
        }
    }
}

impl PartialEqSpecImpl for Method {
    open spec fn obeys_eq_spec() -> bool {
        true
    }

    open spec fn eq_spec(&self, other: &Self) -> bool {
        same_method(*self, *other)
    }
}

impl Eq for Method {

}

/// A method's text names it back: two methods in the form `parse` gives
/// that have the same text are the same method. With the contract of
/// `Method::parse` this makes `parse` the inverse of `to_string` on every
/// such method.
pub proof fn lemma_text_determines_method(a: Method, b: Method)
    requires
        is_canonical(a),
        is_canonical(b),
        method_text(a) == method_text(b),
    ensures
        same_method(a, b),
{
    reveal_strlit("GET");
    reveal_strlit("POST");
    reveal_strlit("PUT");
    reveal_strlit("PATCH");
    assert("GET"@.len() == 3);
    assert("PUT"@.len() == 3);
    assert("POST"@.len() == 4);
    assert("PATCH"@.len() == 5);
    assert("GET"@[0] != "PUT"@[0]);
}

/// `to_string` after `parse` gives back the text parsed, and `parse` after
/// `to_string` gives back the method, for every method that `parse` can give.
pub proof fn lemma_parse_to_string_round_trip(s: Seq<char>, m: Method, m2: Method)
    requires
        parsed_method(s, m),
        is_canonical(m2),
        parsed_method(method_text(m2), m),
    ensures
        method_text(m) == s,
        same_method(m, m2),
{
    lemma_text_determines_method(m, m2);
}

} // verus!
