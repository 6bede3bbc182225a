use http_server::{parse_headers, parse_query_string, Header, HttpRequest, Method, ParamMap};

fn lines(ls: &[&str]) -> Vec<String> {
    ls.iter().map(|s| s.to_string()).collect()
}

#[test]
fn method_parse_recognizes_the_four_methods() {
    assert!(Method::parse("GET") == Method::Get);
    assert!(Method::parse("POST") == Method::Post);
    assert!(Method::parse("PUT") == Method::Put);
    assert!(Method::parse("PATCH") == Method::Patch);
}

#[test]
fn method_parse_keeps_other_text() {
    assert!(Method::parse("DELETE") == Method::Other("DELETE".to_string()));
    assert!(Method::parse("get") == Method::Other("get".to_string()));
    assert!(Method::parse("") == Method::Other(String::new()));
}

#[test]
fn method_text_round_trips() {
    for s in ["GET", "POST", "PUT", "PATCH", "DELETE", "options", ""] {
        assert_eq!(Method::parse(s).to_string(), s);
    }
    for m in [Method::Get, Method::Post, Method::Put, Method::Patch, Method::Other("HEAD".to_string())] {
        assert!(Method::parse(&m.to_string()) == m);
    }
}

#[test]
fn method_other_with_a_recognized_name_is_not_that_method() {
    assert!(Method::Other("GET".to_string()) != Method::Get);
    assert!(Method::Other("a".to_string()) != Method::Other("b".to_string()));
}

#[test]
fn query_string_pairs() {
    let q = parse_query_string("id=5&sort=asc");
    assert_eq!(q.len(), 2);
    assert_eq!(q.get("id").unwrap(), "5");
    assert_eq!(q.get("sort").unwrap(), "asc");
    assert!(q.get("other").is_none());
}

#[test]
fn query_string_skips_entries_without_equals() {
    let q = parse_query_string("flag&a=1&&b");
    assert_eq!(q.len(), 1);
    assert_eq!(q.get("a").unwrap(), "1");
}

#[test]
fn query_string_later_value_wins_and_cuts_at_first_equals() {
    let q = parse_query_string("a=1&a=2&b=x=y&=empty");
    assert_eq!(q.len(), 3);
    assert_eq!(q.get("a").unwrap(), "2");
    assert_eq!(q.get("b").unwrap(), "x=y");
    assert_eq!(q.get("").unwrap(), "empty");
}

#[test]
fn query_string_empty() {
    assert_eq!(parse_query_string("").len(), 0);
}

#[test]
fn headers_up_to_blank_line() {
    let (headers, content_length) = parse_headers(&lines(&[
        "Host: example.com",
        "Content-Type: text/plain",
        "no separator here",
        "",
        "After: blank",
    ]));
    assert_eq!(headers.len(), 2);
    assert_eq!(headers[0].name, "Host");
    assert_eq!(headers[0].value, "example.com");
    assert_eq!(headers[1].name, "Content-Type");
    assert_eq!(content_length, 0);
}

#[test]
fn headers_content_length_any_case_trimmed_last_wins() {
    let (headers, content_length) = parse_headers(&lines(&[
        "content-length: 3",
        "CONTENT-LENGTH:  12 ",
    ]));
    assert_eq!(headers.len(), 2);
    assert_eq!(headers[1].value, " 12 ");
    assert_eq!(content_length, 12);
}

#[test]
fn headers_content_length_that_does_not_parse_is_zero() {
    assert_eq!(parse_headers(&lines(&["Content-Length: 5", "Content-Length: abc"])).1, 0);
    assert_eq!(parse_headers(&lines(&["Content-Length: -5"])).1, 0);
    assert_eq!(parse_headers(&lines(&["Content-Length: +7"])).1, 7);
    assert_eq!(parse_headers(&lines(&["Content-Length: 99999999999999999999999"])).1, 0);
    assert_eq!(parse_headers(&lines(&["Content-Length:5"])).1, 0);
}

#[test]
fn header_value_cut_at_first_colon_space() {
    let (headers, _) = parse_headers(&lines(&["X: a: b"]));
    assert_eq!(headers[0].name, "X");
    assert_eq!(headers[0].value, "a: b");
}

#[test]
fn from_parts_reads_the_request_line() {
    let req = HttpRequest::from_parts(
        "POST /users?id=5&sort=asc HTTP/1.1",
        vec![Header { name: "Content-Length".to_string(), value: "2".to_string() }],
        b"hi",
    )
    .unwrap();
    assert!(req.method() == Method::Post);
    assert_eq!(req.path(), "/users");
    assert_eq!(req.query_params().get("id").unwrap(), "5");
    assert_eq!(req.query_params().get("sort").unwrap(), "asc");
    assert_eq!(req.headers().len(), 1);
    assert_eq!(req.body(), "hi");
    assert_eq!(req.path_params().len(), 0);
}

#[test]
fn from_parts_empty_line_is_no_request() {
    assert!(HttpRequest::from_parts("", Vec::new(), b"").is_none());
}

#[test]
fn from_parts_blank_line_of_spaces_gives_empty_fields() {
    let req = HttpRequest::from_parts("   ", Vec::new(), b"").unwrap();
    assert!(req.method() == Method::Other(String::new()));
    assert_eq!(req.path(), "");
}

#[test]
fn from_parts_without_query() {
    let req = HttpRequest::from_parts("\tDELETE   /a/b\t", Vec::new(), b"").unwrap();
    assert!(req.method() == Method::Other("DELETE".to_string()));
    assert_eq!(req.path(), "/a/b");
    assert_eq!(req.query_params().len(), 0);
}

#[test]
fn from_parts_decodes_invalid_utf8_lossily() {
    let req = HttpRequest::from_parts("GET / HTTP/1.1", Vec::new(), &[b'a', 0xff, b'b']).unwrap();
    assert_eq!(req.body(), "a\u{fffd}b");
}

#[test]
fn setters_then_getters() {
    let mut req = HttpRequest::new(
        Method::Get,
        "/".to_string(),
        Vec::new(),
        String::new(),
        ParamMap::new(),
        ParamMap::new(),
    );
    req.set_method(Method::Put);
    req.set_path("/x".to_string());
    req.set_headers(vec![Header { name: "A".to_string(), value: "b".to_string() }]);
    req.set_body("body".to_string());
    let mut q = ParamMap::new();
    q.insert("k".to_string(), "v".to_string());
    req.set_query_params(q);
    let mut p = ParamMap::new();
    p.insert("id".to_string(), "7".to_string());
    req.set_path_params(p);
    assert!(req.method() == Method::Put);
    assert_eq!(req.path(), "/x");
    assert_eq!(req.headers()[0].value, "b");
    assert_eq!(req.body(), "body");
    assert_eq!(req.query_params().get("k").unwrap(), "v");
    assert_eq!(req.path_params().get("id").unwrap(), "7");
}

#[test]
fn param_map_insert_replaces() {
    let mut m = ParamMap::new();
    m.insert("a".to_string(), "1".to_string());
    m.insert("b".to_string(), "2".to_string());
    m.insert("a".to_string(), "3".to_string());
    assert_eq!(m.len(), 2);
    assert_eq!(m.get("a").unwrap(), "3");
    let pairs = m.to_pairs();
    assert_eq!(pairs, vec![("a".to_string(), "3".to_string()), ("b".to_string(), "2".to_string())]);
    let copy = m.clone();
    assert_eq!(copy.get("b").unwrap(), "2");
}

#[test]
fn joined_query_strings_join_their_parameters() {
    let a = "x=1&y=2";
    let b = "y=3&z";
    let joined = parse_query_string(&format!("{}&{}", a, b));
    assert_eq!(joined.len(), 2);
    assert_eq!(joined.get("x").unwrap(), "1");
    assert_eq!(joined.get("y").unwrap(), "3");
}

#[test]
fn header_lines_read_back_as_written() {
    let written = vec![
        Header { name: "Content-Type".to_string(), value: "text/plain".to_string() },
        Header { name: "X-Note".to_string(), value: "a: b".to_string() },
    ];
    let ls: Vec<String> = written.iter().map(|h| format!("{}: {}", h.name, h.value)).collect();
    let (read, content_length) = parse_headers(&ls);
    assert_eq!(read.len(), 2);
    for (r, w) in read.iter().zip(written.iter()) {
        assert_eq!(r.name, w.name);
        assert_eq!(r.value, w.value);
    }
    assert_eq!(content_length, 0);
}

#[test]
fn from_parts_valid_body_is_decoded_as_is() {
    let req = HttpRequest::from_parts("POST /users?id=5 HTTP/1.1", Vec::new(), b"abc").unwrap();
    assert_eq!(req.body(), "abc");
    let req = HttpRequest::from_parts("POST / HTTP/1.1", Vec::new(), "héllo".as_bytes()).unwrap();
    assert_eq!(req.body(), "héllo");
    let req = HttpRequest::from_parts("GET /a HTTP/1.1", Vec::new(), b"").unwrap();
    assert_eq!(req.body(), "");
}
