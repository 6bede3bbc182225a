use http_server::{status_reason, Header, HttpResponse};

#[test]
fn write_to_formats_status_line_headers_and_body() {
    let response = HttpResponse::new(
        200,
        vec![Header {
            name: "Content-Type".to_string(),
            value: "text/plain".to_string(),
        }],
        "hello".to_string(),
    );

    let mut buf = Vec::new();
    response.write_to(&mut buf).unwrap();
    let text = String::from_utf8(buf).unwrap();

    assert_eq!(
        text,
        "HTTP/1.1 200 OK\r\nContent-Type: text/plain\r\nContent-Length: 5\r\n\r\nhello"
    );
}

#[test]
fn write_to_uses_unknown_reason_for_unrecognized_status() {
    let response = HttpResponse::new(999, Vec::new(), String::new());

    let mut buf = Vec::new();
    response.write_to(&mut buf).unwrap();
    let text = String::from_utf8(buf).unwrap();

    assert!(text.starts_with("HTTP/1.1 999 Unknown\r\n"));
}

#[test]
fn send_overwrites_body() {
    let mut response = HttpResponse::new(200, Vec::new(), "old".to_string());
    response.send("new");
    assert_eq!(response.body, "new");
}

#[test]
fn send_keeps_status_and_headers() {
    let mut response = HttpResponse::new(
        201,
        vec![Header { name: "X-A".to_string(), value: "1".to_string() }],
        "old".to_string(),
    );
    response.send("fresh");
    assert_eq!(response.status_code, 201);
    assert_eq!(response.headers.len(), 1);
    assert_eq!(response.headers[0].name, "X-A");
    assert_eq!(response.body, "fresh");
}

#[test]
fn status_reasons_of_the_codes_sent() {
    assert_eq!(status_reason(200), "OK");
    assert_eq!(status_reason(201), "Created");
    assert_eq!(status_reason(400), "Bad Request");
    assert_eq!(status_reason(404), "Not Found");
    assert_eq!(status_reason(500), "Internal Server Error");
    assert_eq!(status_reason(418), "Unknown");
}

#[test]
fn write_to_counts_body_bytes_not_characters() {
    let response = HttpResponse::new(404, Vec::new(), "héllo".to_string());
    let mut buf = Vec::new();
    response.write_to(&mut buf).unwrap();
    let text = String::from_utf8(buf).unwrap();
    assert_eq!(text, "HTTP/1.1 404 Not Found\r\nContent-Length: 6\r\n\r\nhéllo");
}

#[test]
fn write_to_appends_to_what_the_writer_holds() {
    let response = HttpResponse::new(500, Vec::new(), "x".to_string());
    let mut buf = b"prefix".to_vec();
    response.write_to(&mut buf).unwrap();
    let text = String::from_utf8(buf).unwrap();
    assert_eq!(
        text,
        "prefixHTTP/1.1 500 Internal Server Error\r\nContent-Length: 1\r\n\r\nx"
    );
}

#[test]
fn write_to_keeps_header_order() {
    let response = HttpResponse::new(
        0,
        vec![
            Header { name: "B".to_string(), value: "2".to_string() },
            Header { name: "A".to_string(), value: "1".to_string() },
        ],
        String::new(),
    );
    let mut buf = Vec::new();
    response.write_to(&mut buf).unwrap();
    let text = String::from_utf8(buf).unwrap();
    assert_eq!(text, "HTTP/1.1 0 Unknown\r\nB: 2\r\nA: 1\r\nContent-Length: 0\r\n\r\n");
}

#[test]
fn clone_copies_every_field() {
    let response = HttpResponse::new(
        201,
        vec![Header { name: "K".to_string(), value: "V".to_string() }],
        "body".to_string(),
    );
    let copy = response.clone();
    assert_eq!(copy.status_code, 201);
    assert_eq!(copy.headers[0].name, "K");
    assert_eq!(copy.headers[0].value, "V");
    assert_eq!(copy.body, "body");
}
