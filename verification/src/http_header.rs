//! A single `name: value` HTTP header.
use vstd::prelude::*;

verus! {

/// An HTTP header as sent or received: `name: value`.
#[derive(Debug)]
pub struct Header {
    pub name: String,
    pub value: String,
}

impl View for Header {
    type V = (Seq<char>, Seq<char>);

    open spec fn view(&self) -> (Seq<char>, Seq<char>) {
        (self.name@, self.value@)
    }
}

/// The texts of a list of headers, in order.
pub open spec fn headers_text(s: Seq<Header>) -> Seq<(Seq<char>, Seq<char>)> {
    s.map_values(|h: Header| h@)
}

impl Clone for Header {
    fn clone(&self) -> (r: Self)
        ensures
            r == *self,
    {
        Header { name: self.name.clone(), value: self.value.clone() }
    }
}

/// A copy of a list of headers.
pub fn clone_headers(headers: &Vec<Header>) -> (r: Vec<Header>)
    ensures
        headers_text(r@) == headers_text(headers@),
{
    let mut r: Vec<Header> = Vec::new();
    let mut i: usize = 0;
    while i < headers.len()
        invariant
            i <= headers@.len(),
            headers_text(r@) =~= headers_text(headers@).take(i as int),
        decreases headers@.len() - i,
    {
        let ghost before = r@;
        r.push(headers[i].clone());
        proof {
            assert(r@ =~= before.push(r@.last()));
            assert(headers_text(r@) =~= headers_text(before).push(headers@[i as int]@));
            assert(headers_text(headers@).take(i + 1) =~= headers_text(headers@).take(i as int).push(
                headers@[i as int]@,
            ));
        }
        i = i + 1;
    }
    r
}

} // verus!
