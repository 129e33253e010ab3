//! Byte-level request parsing and response serialization.

use astor::http1::parse_request;
use astor::{ContentType, Response, Status};

#[test]
fn parse_simple_request() {
    let bytes = b"GET /users/42 HTTP/1.1\r\nhost: example\r\n\r\n";
    let (raw, n) = parse_request(bytes).unwrap();
    assert_eq!(n, bytes.len());
    assert_eq!(raw.method_token, b"GET".to_vec());
    assert_eq!(raw.path, b"/users/42".to_vec());
    assert_eq!(raw.headers, vec![(b"host".to_vec(), b"example".to_vec())]);
    assert!(raw.body.is_empty());
}

#[test]
fn parse_request_with_body() {
    let bytes = b"POST /submit HTTP/1.1\r\ncontent-length: 5\r\n\r\nHELLO";
    let (raw, n) = parse_request(bytes).unwrap();
    assert_eq!(n, bytes.len());
    assert_eq!(raw.method_token, b"POST".to_vec());
    assert_eq!(raw.path, b"/submit".to_vec());
    assert_eq!(raw.body, b"HELLO".to_vec());
}

#[test]
fn body_framing_two_requests() {
    // a request with content-length 5 and exactly 5 body bytes followed
    // immediately by a second request line parses as two requests with
    // no byte loss or duplication
    let first = b"POST /a HTTP/1.1\r\ncontent-length: 5\r\n\r\nHELLO".to_vec();
    let second = b"GET /b HTTP/1.1\r\n\r\n".to_vec();
    let mut both = first.clone();
    both.extend_from_slice(&second);

    let (raw1, n1) = parse_request(&both).unwrap();
    assert_eq!(n1, first.len());
    assert_eq!(raw1.path, b"/a".to_vec());
    assert_eq!(raw1.body, b"HELLO".to_vec());

    let (raw2, n2) = parse_request(&both[n1..]).unwrap();
    assert_eq!(n2, second.len());
    assert_eq!(raw2.method_token, b"GET".to_vec());
    assert_eq!(raw2.path, b"/b".to_vec());
    assert!(raw2.body.is_empty());
    assert_eq!(n1 + n2, both.len());
}

#[test]
fn parse_incomplete() {
    assert!(parse_request(b"").is_none());
    assert!(parse_request(b"GET /x HTTP/1.1").is_none());
    assert!(parse_request(b"GET /x HTTP/1.1\r\nhost: e\r\n").is_none());
    assert!(parse_request(b"GET /x HTTP/1.1\r\ncontent-length: 5\r\n\r\nHEL").is_none());
}

#[test]
fn parse_malformed_header_dropped() {
    let bytes = b"GET /x HTTP/1.1\r\nnot-a-header\r\nhost: e\r\n\r\n";
    let (raw, n) = parse_request(bytes).unwrap();
    assert_eq!(n, bytes.len());
    assert_eq!(raw.headers, vec![(b"host".to_vec(), b"e".to_vec())]);
}

#[test]
fn parse_content_length_case_insensitive() {
    let bytes = b"POST /x HTTP/1.1\r\nContent-Length: 2\r\n\r\nok";
    let (raw, _) = parse_request(bytes).unwrap();
    assert_eq!(raw.body, b"ok".to_vec());
}

#[test]
fn parse_bad_content_length_means_empty_body() {
    let bytes = b"POST /x HTTP/1.1\r\ncontent-length: zero\r\n\r\n";
    let (raw, n) = parse_request(bytes).unwrap();
    assert!(raw.body.is_empty());
    assert_eq!(n, bytes.len());
    // a value too large for the machine also counts as unparsed
    let bytes = b"POST /x HTTP/1.1\r\ncontent-length: 99999999999999999999999999\r\n\r\n";
    let (raw, _) = parse_request(bytes).unwrap();
    assert!(raw.body.is_empty());
}

#[test]
fn parse_duplicate_content_length_first_wins() {
    let bytes = b"POST /x HTTP/1.1\r\ncontent-length: 2\r\ncontent-length: 4\r\n\r\nokay";
    let (raw, n) = parse_request(bytes).unwrap();
    assert_eq!(raw.body, b"ok".to_vec());
    assert_eq!(n, bytes.len() - 2);
}

#[test]
fn parse_request_line_shapes() {
    // no spaces: the whole line is the method token, the path is empty
    let (raw, _) = parse_request(b"FROB\r\n\r\n").unwrap();
    assert_eq!(raw.method_token, b"FROB".to_vec());
    assert!(raw.path.is_empty());
    // one space: the path runs to the end of the line
    let (raw, _) = parse_request(b"GET /x\r\n\r\n").unwrap();
    assert_eq!(raw.path, b"/x".to_vec());
}

#[test]
fn serialize_bare_status() {
    let resp = Response::status(Status::NotFound);
    let mut out: Vec<u8> = Vec::new();
    resp.write_to(&mut out);
    assert_eq!(out, b"HTTP/1.1 404 Not Found\r\ncontent-length: 0\r\n\r\n".to_vec());
}

#[test]
fn serialize_text_response() {
    let resp = Response::text("hi");
    let mut out: Vec<u8> = Vec::new();
    resp.write_to(&mut out);
    assert_eq!(
        out,
        b"HTTP/1.1 200 OK\r\ncontent-length: 2\r\ncontent-type: text/plain; charset=utf-8\r\n\r\nhi"
            .to_vec()
    );
}

#[test]
fn serialize_builder_response() {
    let resp = Response::builder()
        .status(Status::Created)
        .header("location", "/users/99")
        .json(b"{\"id\":99}".to_vec());
    let mut out: Vec<u8> = Vec::new();
    resp.write_to(&mut out);
    assert_eq!(
        out,
        b"HTTP/1.1 201 Created\r\ncontent-length: 9\r\ncontent-type: application/json\r\nlocation: /users/99\r\n\r\n{\"id\":99}"
            .to_vec()
    );
}

#[test]
fn serialize_appends_to_buffer() {
    let resp = Response::status(Status::NoContent);
    let mut out: Vec<u8> = b"prefix".to_vec();
    resp.write_to(&mut out);
    assert!(out.starts_with(b"prefix"));
    assert_eq!(&out[6..], b"HTTP/1.1 204 No Content\r\ncontent-length: 0\r\n\r\n");
}

#[test]
fn response_constructors() {
    let r = Response::json(b"[1]".to_vec());
    assert_eq!(r.status, 200);
    assert_eq!(r.headers, vec![("content-type".to_string(), "application/json".to_string())]);
    assert_eq!(r.body, b"[1]".to_vec());

    let r = Response::text("yo");
    assert_eq!(r.status, 200);
    assert_eq!(
        r.headers,
        vec![("content-type".to_string(), "text/plain; charset=utf-8".to_string())]
    );

    let r = Response::status(Status::Accepted);
    assert_eq!(r.status, 202);
    assert!(r.headers.is_empty());
    assert!(r.body.is_empty());

    let r = Response::bytes_raw("application/xml", b"<ok/>".to_vec());
    assert_eq!(r.headers[0].1, "application/xml");
}

#[test]
fn response_builder_shapes() {
    let r = Response::builder().no_body();
    assert_eq!(r.status, 200);
    assert!(r.headers.is_empty());
    assert!(r.body.is_empty());

    let r = Response::builder()
        .status(Status::Okay)
        .bytes(ContentType::Xml, b"<ok/>".to_vec());
    assert_eq!(r.headers, vec![("content-type".to_string(), "application/xml".to_string())]);
    assert_eq!(r.body, b"<ok/>".to_vec());

    let r = Response::builder().header("a", "1").header("b", "2").text("t");
    assert_eq!(
        r.headers,
        vec![
            ("content-type".to_string(), "text/plain; charset=utf-8".to_string()),
            ("a".to_string(), "1".to_string()),
            ("b".to_string(), "2".to_string()),
        ]
    );
}

#[test]
fn content_type_names() {
    assert_eq!(ContentType::Json.as_str(), "application/json");
    assert_eq!(ContentType::Html.as_str(), "text/html; charset=utf-8");
    assert_eq!(ContentType::EventStream.as_str(), "text/event-stream");
    assert_eq!(ContentType::OctetStream.as_str(), "application/octet-stream");
}
