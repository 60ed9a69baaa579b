//! End-to-end scenarios through decode, dispatch, and encode.

use http_server::handler::{handle_buffer, Action};
use http_server::request::decode;
use http_server::response::Response;

fn respond(input: &[u8]) -> Response {
    match handle_buffer(input) {
        Action::Respond(r) => r,
        _ => panic!("expected an immediate response"),
    }
}

#[test]
fn root_returns_200_empty_body() {
    let r = respond(b"GET / HTTP/1.1\r\nHost: x\r\n\r\n");
    assert_eq!(r.status, b"200 OK".to_vec());
    assert_eq!(r.version, b"HTTP/1.1".to_vec());
    assert!(r.body.is_empty());
    assert_eq!(r.headers.len(), 0);
}

#[test]
fn echo_returns_payload_with_length() {
    let r = respond(b"GET /echo/abc HTTP/1.1\r\n\r\n");
    assert_eq!(r.status, b"200 OK".to_vec());
    assert_eq!(r.body, b"abc".to_vec());
    assert_eq!(
        r.headers.get(b"Content-Type").map(|v| v.clone()),
        Some(b"text/plain".to_vec())
    );
    assert_eq!(
        r.headers.get(b"Content-Length").map(|v| v.clone()),
        Some(b"3".to_vec())
    );
}

#[test]
fn user_agent_is_echoed_back() {
    let r = respond(b"GET /user-agent HTTP/1.1\r\nUser-Agent: foo/1.0\r\n\r\n");
    assert_eq!(r.status, b"200 OK".to_vec());
    assert_eq!(r.body, b"foo/1.0".to_vec());
    assert_eq!(
        r.headers.get(b"Content-Length").map(|v| v.clone()),
        Some(b"7".to_vec())
    );
}

#[test]
fn user_agent_missing_header_is_bad_request() {
    let r = respond(b"GET /user-agent HTTP/1.1\r\nHost: x\r\n\r\n");
    assert_eq!(r.status, b"400 Bad Request".to_vec());
}

#[test]
fn unknown_route_is_not_found() {
    let r = respond(b"GET /unknown HTTP/1.1\r\n\r\n");
    assert_eq!(r.status, b"404 Not Found".to_vec());
    assert!(r.body.is_empty());
    assert_eq!(r.headers.len(), 0);
}

#[test]
fn wrong_method_on_known_path_is_not_found() {
    let r = respond(b"POST / HTTP/1.1\r\nHost: x\r\n\r\n");
    assert_eq!(r.status, b"404 Not Found".to_vec());
}

#[test]
fn file_read_resolves_to_read_action() {
    match handle_buffer(b"GET /files/missing.txt HTTP/1.1\r\n\r\n") {
        Action::ReadFile(version, name) => {
            assert_eq!(version, b"HTTP/1.1".to_vec());
            assert_eq!(name, b"missing.txt".to_vec());
        }
        _ => panic!("expected a file read"),
    }
}

#[test]
fn file_write_carries_name_and_body() {
    match handle_buffer(b"POST /files/new.txt HTTP/1.1\r\nContent-Length: 5\r\n\r\nhello") {
        Action::WriteFile(name, data) => {
            assert_eq!(name, b"new.txt".to_vec());
            assert_eq!(data, b"hello".to_vec());
        }
        _ => panic!("expected a file write"),
    }
}

#[test]
fn echo_with_gzip_negotiation_sets_content_encoding() {
    let r = respond(b"GET /echo/abc HTTP/1.1\r\nAccept-Encoding: deflate, gzip\r\n\r\n");
    assert_eq!(
        r.headers.get(b"Content-Encoding").map(|v| v.clone()),
        Some(b"gzip".to_vec())
    );
    // The body stays the literal, uncompressed payload with its literal length.
    assert_eq!(r.body, b"abc".to_vec());
    assert_eq!(
        r.headers.get(b"Content-Length").map(|v| v.clone()),
        Some(b"3".to_vec())
    );
}

#[test]
fn echo_without_gzip_token_sets_no_content_encoding() {
    let r = respond(b"GET /echo/abc HTTP/1.1\r\nAccept-Encoding: deflate\r\n\r\n");
    assert!(r.headers.get(b"Content-Encoding").is_none());
}

#[test]
fn echo_path_without_trailing_slash_is_not_found() {
    let r = respond(b"GET /echo HTTP/1.1\r\n\r\n");
    assert_eq!(r.status, b"404 Not Found".to_vec());
}

#[test]
fn malformed_buffer_becomes_bad_request() {
    let r = respond(b"nonsense");
    assert_eq!(r.status, b"400 Bad Request".to_vec());
}

#[test]
fn full_exchange_bytes_for_echo() {
    let r = respond(b"GET /echo/hi HTTP/1.1\r\n\r\n");
    let wire = r.encode();
    assert_eq!(
        wire,
        b"HTTP/1.1 200 OK\r\nContent-Type: text/plain\r\nContent-Length: 2\r\n\r\nhi".to_vec()
    );
}

#[test]
fn not_found_wire_bytes_match_the_fixed_form() {
    let r = respond(b"GET /unknown HTTP/1.1\r\n\r\n");
    assert_eq!(r.encode(), b"HTTP/1.1 404 Not Found\r\n\r\n".to_vec());
}

#[test]
fn decode_failure_keeps_connection_answerable() {
    // A failed decode still yields a syntactically valid response.
    assert!(decode(b"\r\n\r\n").is_err());
    let r = respond(b"\r\n\r\n");
    assert_eq!(r.encode(), b"HTTP/1.1 400 Bad Request\r\n\r\n".to_vec());
}
