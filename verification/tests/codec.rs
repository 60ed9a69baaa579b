//! The wire codec on its own: decoding, its named errors, and encoding.

use http_server::handler::{file_read_response, file_write_response, join_path};
use http_server::headers::Headers;
use http_server::method::Method;
use http_server::request::{decode, DecodeError, Request};
use http_server::response::Response;

#[test]
fn decodes_a_full_request() {
    let req = decode(b"POST /files/a.txt HTTP/1.1\r\nHost: x\r\nContent-Length: 2\r\n\r\nhi")
        .unwrap();
    assert!(matches!(req.method, Method::POST));
    assert_eq!(req.path, b"/files/a.txt".to_vec());
    assert_eq!(req.version, b"HTTP/1.1".to_vec());
    assert_eq!(req.headers.len(), 2);
    assert_eq!(req.headers.get(b"Host").map(|v| v.clone()), Some(b"x".to_vec()));
    assert_eq!(
        req.headers.get(b"Content-Length").map(|v| v.clone()),
        Some(b"2".to_vec())
    );
    assert_eq!(req.body, b"hi".to_vec());
}

#[test]
fn empty_header_block_is_accepted() {
    let req = decode(b"GET / HTTP/1.1\r\n\r\n").unwrap();
    assert_eq!(req.headers.len(), 0);
    assert!(req.body.is_empty());
}

#[test]
fn body_is_taken_verbatim_without_length_checks() {
    let req = decode(b"GET / HTTP/1.1\r\nContent-Length: 1\r\n\r\nmore than one byte\r\n")
        .unwrap();
    assert_eq!(req.body, b"more than one byte\r\n".to_vec());
}

#[test]
fn extra_request_line_tokens_are_ignored() {
    let req = decode(b"GET / HTTP/1.1 junk junk\r\n\r\n").unwrap();
    assert_eq!(req.path, b"/".to_vec());
    assert_eq!(req.version, b"HTTP/1.1".to_vec());
}

#[test]
fn missing_request_line_terminator_is_malformed() {
    assert!(matches!(
        decode(b"GET / HTTP/1.1"),
        Err(DecodeError::MalformedRequestLine)
    ));
}

#[test]
fn two_tokens_are_malformed() {
    assert!(matches!(decode(b"GET /\r\n\r\n"), Err(DecodeError::MalformedRequestLine)));
}

#[test]
fn unknown_method_is_reported_by_name() {
    assert!(matches!(
        decode(b"BREW /pot HTTP/1.1\r\n\r\n"),
        Err(DecodeError::UnknownMethod)
    ));
}

#[test]
fn lowercase_method_is_unknown() {
    assert!(matches!(
        decode(b"get / HTTP/1.1\r\n\r\n"),
        Err(DecodeError::UnknownMethod)
    ));
}

#[test]
fn missing_blank_line_is_malformed_headers() {
    assert!(matches!(
        decode(b"GET / HTTP/1.1\r\nHost: x\r\n"),
        Err(DecodeError::MalformedHeaders)
    ));
}

#[test]
fn header_line_without_separator_is_malformed() {
    assert!(matches!(
        decode(b"GET / HTTP/1.1\r\nbroken\r\n\r\n"),
        Err(DecodeError::MalformedHeaderLine)
    ));
}

#[test]
fn repeated_header_names_take_the_last_value() {
    let req = decode(b"GET / HTTP/1.1\r\nA: 1\r\nA: 2\r\n\r\n").unwrap();
    assert_eq!(req.headers.get(b"A").map(|v| v.clone()), Some(b"2".to_vec()));
}

#[test]
fn header_lookup_is_case_sensitive() {
    let req = decode(b"GET / HTTP/1.1\r\nHost: x\r\n\r\n").unwrap();
    assert!(req.headers.contains_key(b"Host"));
    assert!(!req.headers.contains_key(b"host"));
}

#[test]
fn methods_parse_case_sensitively() {
    assert!(matches!(Method::from_str("GET"), Some(Method::GET)));
    assert!(matches!(Method::from_str("POST"), Some(Method::POST)));
    assert!(matches!(Method::from_str("PUT"), Some(Method::PUT)));
    assert!(matches!(Method::from_str("PATCH"), Some(Method::PATCH)));
    assert!(matches!(Method::from_str("DELETE"), Some(Method::DELETE)));
    assert!(matches!(Method::from_str("OPTIONS"), Some(Method::OPTIONS)));
    assert!(matches!(Method::from_str("HEAD"), Some(Method::HEAD)));
    assert!(Method::from_str("Get").is_none());
    assert!(Method::from_str("").is_none());
}

#[test]
fn request_from_str_matches_decode() {
    let req = Request::from_str("GET / HTTP/1.1\r\nHost: x\r\n\r\n").unwrap();
    assert_eq!(req.path, b"/".to_vec());
}

#[test]
fn encode_writes_the_exact_wire_layout() {
    let mut headers = Headers::new();
    headers.put(b"Content-Type".to_vec(), b"text/plain".to_vec());
    headers.put(b"Content-Length".to_vec(), b"5".to_vec());
    let r = Response {
        version: b"HTTP/1.1".to_vec(),
        status: b"200 OK".to_vec(),
        headers,
        body: b"hello".to_vec(),
    };
    assert_eq!(
        r.encode(),
        b"HTTP/1.1 200 OK\r\nContent-Type: text/plain\r\nContent-Length: 5\r\n\r\nhello"
            .to_vec()
    );
}

#[test]
fn encode_keeps_non_text_bodies_byte_for_byte() {
    let r = Response {
        version: b"HTTP/1.1".to_vec(),
        status: b"200 OK".to_vec(),
        headers: Headers::new(),
        body: vec![0u8, 159, 146, 150, 255],
    };
    let wire = r.encode();
    assert_eq!(&wire[wire.len() - 5..], &[0u8, 159, 146, 150, 255]);
}

#[test]
fn decode_then_encode_preserves_header_pairs() {
    let req = decode(b"GET / HTTP/1.1\r\nB: 2\r\nA: 1\r\n\r\n").unwrap();
    let r = Response {
        version: req.version,
        status: b"200 OK".to_vec(),
        headers: req.headers,
        body: Vec::new(),
    };
    let wire = r.encode();
    assert_eq!(wire, b"HTTP/1.1 200 OK\r\nB: 2\r\nA: 1\r\n\r\n".to_vec());
    let back = decode(b"GET / HTTP/1.1\r\nB: 2\r\nA: 1\r\n\r\n").unwrap();
    assert_eq!(back.headers.get(b"A").map(|v| v.clone()), Some(b"1".to_vec()));
    assert_eq!(back.headers.get(b"B").map(|v| v.clone()), Some(b"2".to_vec()));
}

#[test]
fn file_read_outcomes_map_to_responses() {
    let found = file_read_response(b"HTTP/1.1".to_vec(), Some(b"data!".to_vec()));
    assert_eq!(found.status, b"200 OK".to_vec());
    assert_eq!(
        found.headers.get(b"Content-Type").map(|v| v.clone()),
        Some(b"application/octet-stream".to_vec())
    );
    assert_eq!(
        found.headers.get(b"Content-Length").map(|v| v.clone()),
        Some(b"5".to_vec())
    );
    assert_eq!(found.body, b"data!".to_vec());

    let missing = file_read_response(b"HTTP/1.1".to_vec(), None);
    assert_eq!(missing.encode(), b"HTTP/1.1 404 Not Found\r\n\r\n".to_vec());
}

#[test]
fn file_write_outcomes_map_to_responses() {
    let ok = file_write_response(true);
    assert_eq!(ok.encode(), b"HTTP/1.1 201 Created\r\n\r\n".to_vec());
    let failed = file_write_response(false);
    assert_eq!(
        failed.encode(),
        b"HTTP/1.1 500 Internal Server Error\r\n\r\n".to_vec()
    );
}

#[test]
fn join_path_concatenates() {
    assert_eq!(join_path(b"/tmp/root/", b"a.txt"), b"/tmp/root/a.txt".to_vec());
}

#[test]
fn content_length_renders_multi_digit_decimals() {
    let body: Vec<u8> = vec![120u8; 1024];
    let r = file_read_response(b"HTTP/1.1".to_vec(), Some(body));
    assert_eq!(
        r.headers.get(b"Content-Length").map(|v| v.clone()),
        Some(b"1024".to_vec())
    );
}
