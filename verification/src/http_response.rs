//! HTTP responses and their encoding as raw HTTP/1.1 bytes.
use vstd::prelude::*;
use vstd::utf8::encode_utf8;

use crate::http_header::{clone_headers, headers_text, Header};
use crate::text::{decimal_text, lemma_decimal_text_parses_back, parse_usize, push_decimal, trim};

verus! {

/// `std::io::Error`, the error of `std::io::Result`; no function of this
/// library creates one.
#[verifier::external_type_specification]
#[verifier::external_body]
pub struct ExIoError(std::io::Error);

/// A plain-data HTTP response: status code, headers and body.
pub struct HttpResponse {
    pub status_code: u16,
    pub headers: Vec<Header>,
    pub body: String,
}

/// The reason phrase sent after a status code.
pub open spec fn reason_phrase(status: u16) -> Seq<char> {
    if status == 200 {
        "OK"@
    } else if status == 201 {
        "Created"@
    } else if status == 400 {
        "Bad Request"@
    } else if status == 404 {
        "Not Found"@
    } else if status == 500 {
        "Internal Server Error"@
    } else {
        "Unknown"@
    }
}

/// The header lines `name: value\r\n` of `headers`, in order.
pub open spec fn header_lines(headers: Seq<(Seq<char>, Seq<char>)>) -> Seq<char>
    decreases headers.len(),
{
    if headers.len() == 0 {
        Seq::empty()
    } else {
        header_lines(headers.drop_last()) + headers.last().0 + ": "@ + headers.last().1 + "\r\n"@
    }
}

/// The head of a response: status line, the headers in order, then a
/// `Content-Length` line giving the body's length in bytes, and the blank
/// line that ends the head.
pub open spec fn response_head(status: u16, headers: Seq<(Seq<char>, Seq<char>)>, body: Seq<char>) -> Seq<char> {
    "HTTP/1.1 "@ + decimal_text(status as nat) + " "@ + reason_phrase(status) + "\r\n"@ + header_lines(headers)
        + "Content-Length: "@ + decimal_text((encode_utf8(body).len() as usize) as nat) + "\r\n\r\n"@
}

/// The bytes of a response on the wire: its head and then its body, both
/// encoded as UTF-8.
pub open spec fn response_bytes(r: HttpResponse) -> Seq<u8> {
    encode_utf8(response_head(r.status_code, headers_text(r.headers@), r.body@)) + encode_utf8(r.body@)
}

/// Maps a status code to its standard reason phrase (e.g. `200` -> `"OK"`),
/// or `"Unknown"` for a code this server does not send.
pub fn status_reason(status: u16) -> (r: &'static str)
    ensures
        r@ == reason_phrase(status),
{
    if status == 200 {
        "OK"
    } else if status == 201 {
        "Created"
    } else if status == 400 {
        "Bad Request"
    } else if status == 404 {
        "Not Found"
    } else if status == 500 {
        "Internal Server Error"
    } else {
        "Unknown"
    }
}

impl HttpResponse {
    pub fn new(status_code: u16, headers: Vec<Header>, body: String) -> (r: Self)
        ensures
            r.status_code == status_code,
            r.headers == headers,
            r.body == body,
    {
        HttpResponse { status_code, headers, body }
    }

    /// Writes this response as raw HTTP bytes to the end of `writer`: the
    /// status line, the headers, a `Content-Length` header and the body.
    /// Writing to a vector never fails.
    pub fn write_to(&self, writer: &mut Vec<u8>) -> (r: std::io::Result<()>)
        ensures
            r is Ok,
            final(writer)@ == old(writer)@ + response_bytes(*self),
    {
        let mut head = String::new();
        head.append("HTTP/1.1 ");
        push_decimal(&mut head, self.status_code as usize);
        head.append(" ");
        head.append(status_reason(self.status_code));
        head.append("\r\n");
        assert(head@ =~= "HTTP/1.1 "@ + decimal_text(self.status_code as nat) + " "@ + reason_phrase(
            self.status_code,
        ) + "\r\n"@);
        let ghost hs = headers_text(self.headers@);
        let ghost start = head@;
        let mut i: usize = 0;
        while i < self.headers.len()
            invariant
                i <= self.headers@.len(),
                hs == headers_text(self.headers@),
                head@ == start + header_lines(hs.take(i as int)),
            decreases self.headers@.len() - i,
        {
            let h = &self.headers[i];
            head.append(h.name.as_str());
            head.append(": ");
            head.append(h.value.as_str());
            head.append("\r\n");
            proof {
                assert(hs.take(i + 1).drop_last() =~= hs.take(i as int));
                assert(hs.take(i + 1).last() == self.headers@[i as int]@);
            }
            i = i + 1;
        }
        assert(hs.take(i as int) =~= hs);
        let ghost lines = head@;
        head.append("Content-Length: ");
        let body = self.body.as_str();
        push_decimal(&mut head, body.len());
        head.append("\r\n\r\n");
        assert(head@ =~= lines + "Content-Length: "@ + decimal_text((encode_utf8(self.body@).len() as usize) as nat) + "\r\n\r\n"@);
        let ghost w0 = writer@;
        writer.extend_from_slice(head.as_str().as_bytes());
        let ghost w1 = writer@;
        writer.extend_from_slice(body.as_bytes());
        proof {
            assert(w1 =~= w0 + encode_utf8(head@));
            assert(writer@ =~= w1 + encode_utf8(self.body@));
            assert(head@ =~= response_head(self.status_code, hs, self.body@));
        }
        Ok(())
    }

    /// Sets the response body; the status code and headers stay as they are.
    pub fn send(&mut self, body: &str)
        ensures
            final(self).body@ == body@,
            final(self).status_code == old(self).status_code,
            final(self).headers == old(self).headers,
    {
        self.body = body.to_owned();
    }
}

impl Clone for HttpResponse {
    fn clone(&self) -> (r: Self)
        ensures
            r.status_code == self.status_code,
            headers_text(r.headers@) == headers_text(self.headers@),
            r.body@ == self.body@,
    {
        HttpResponse {
            status_code: self.status_code,
            headers: clone_headers(&self.headers),
            body: self.body.clone(),
        }
    }
}

/// The `Content-Length` line of a response head carries a number that reads
/// back (as `str::parse::<usize>` reads it, trimmed or not) as the body's
/// length in UTF-8 bytes: the head is the status line, the header lines,
/// then `Content-Length: ` followed by that number and the blank line.
pub proof fn lemma_content_length_reads_back(
    status: u16,
    headers: Seq<(Seq<char>, Seq<char>)>,
    body: Seq<char>,
)
    ensures
        exists|digits: Seq<char>|
            {
                &&& response_head(status, headers, body) == "HTTP/1.1 "@ + decimal_text(status as nat) + " "@
                    + reason_phrase(status) + "\r\n"@ + header_lines(headers) + "Content-Length: "@ + digits
                    + "\r\n\r\n"@
                &&& #[trigger] parse_usize(digits) == Some(encode_utf8(body).len() as usize)
                &&& parse_usize(trim(digits)) == Some(encode_utf8(body).len() as usize)
            },
{
    let n = encode_utf8(body).len() as usize;
    lemma_decimal_text_parses_back(n);
    let digits = decimal_text(n as nat);
    assert(parse_usize(digits) == Some(n));
}

/// The status line of a response head carries a number that reads back as
/// the status code.
pub proof fn lemma_status_reads_back(status: u16, headers: Seq<(Seq<char>, Seq<char>)>, body: Seq<char>)
    ensures
        exists|digits: Seq<char>|
            {
                &&& response_head(status, headers, body) == "HTTP/1.1 "@ + digits + " "@ + reason_phrase(status)
                    + "\r\n"@ + header_lines(headers) + "Content-Length: "@ + decimal_text(
                    (encode_utf8(body).len() as usize) as nat,
                ) + "\r\n\r\n"@
                &&& #[trigger] parse_usize(digits) == Some(status as usize)
            },
{
    lemma_decimal_text_parses_back(status as usize);
    let digits = decimal_text(status as nat);
    assert(parse_usize(digits) == Some(status as usize));
}

} // verus!
