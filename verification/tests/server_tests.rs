use http_server::handler::{handle_request, Action};
use http_server::response::{
    encode_response, file_read_response, file_write_response, MediaType, ReadOutcome,
};

fn respond(raw: &str) -> http_server::response::Response {
    match handle_request(raw.as_bytes()) {
        Action::Respond(r) => r,
        _ => panic!("expected a finished response"),
    }
}

fn wire_has(wire: &[u8], needle: &str) -> bool {
    let n = needle.as_bytes();
    wire.windows(n.len()).any(|w| w == n)
}

#[test]
fn test_respond_with_200_ok() {
    let resp = respond("GET / HTTP/1.1\r\n\r\n");
    assert_eq!(resp.status.code(), 200);
}

#[test]
fn test_respond_with_404_not_found() {
    let resp = respond("GET /abcdefg HTTP/1.1\r\n\r\n");
    assert_eq!(resp.status.code(), 404);
}

#[test]
fn test_respond_with_body() {
    let resp = respond("GET /echo/abc HTTP/1.1\r\n\r\n");
    assert_eq!(resp.status.code(), 200);
    assert_eq!(resp.content_type, Some(MediaType::TextPlain));
    assert_eq!(resp.body, b"abc".to_vec());
    let wire = encode_response(&resp);
    assert!(wire_has(&wire, "Content-Type: text/plain\r\n"));
    assert!(wire_has(&wire, "Content-Length: 3\r\n"));
}

#[test]
fn test_read_header() {
    let resp = respond("GET /user-agent HTTP/1.1\r\nUser-Agent: foobar/1.2.3\r\n\r\n");
    assert_eq!(resp.status.code(), 200);
    assert_eq!(resp.content_type, Some(MediaType::TextPlain));
    assert_eq!(resp.body, b"foobar/1.2.3".to_vec());
    let wire = encode_response(&resp);
    assert!(wire_has(&wire, "Content-Type: text/plain\r\n"));
    assert!(wire_has(&wire, "Content-Length: 12\r\n"));
}

#[test]
fn test_concurrent_connections() {
    // Three independent requests, each handled from its own buffer: each
    // gets the full empty 200 and no request observes another's state.
    for _ in 0..3 {
        let resp = respond("GET / HTTP/1.1\r\n\r\n");
        assert_eq!(resp.status.code(), 200);
        let wire = encode_response(&resp);
        assert_eq!(wire, b"HTTP/1.1 200 OK\r\n\r\n".to_vec());
    }
}

#[test]
fn test_return_file_found() {
    let action = handle_request("GET /files/foo HTTP/1.1\r\n\r\n".as_bytes());
    let name = match action {
        Action::ReadFile(name) => name,
        _ => panic!("expected a file read"),
    };
    assert_eq!(name, b"foo".to_vec());
    let resp = file_read_response(ReadOutcome::Found(b"Hello, World!".to_vec()));
    assert_eq!(resp.status.code(), 200);
    assert_eq!(resp.content_type, Some(MediaType::OctetStream));
    assert_eq!(resp.body, b"Hello, World!".to_vec());
    let wire = encode_response(&resp);
    assert!(wire_has(&wire, "Content-Type: application/octet-stream\r\n"));
    assert!(wire_has(&wire, "Content-Length: 13\r\n"));
}

#[test]
fn test_return_file_not_found() {
    let action = handle_request("GET /files/non_existant_file HTTP/1.1\r\n\r\n".as_bytes());
    let name = match action {
        Action::ReadFile(name) => name,
        _ => panic!("expected a file read"),
    };
    assert_eq!(name, b"non_existant_file".to_vec());
    let resp = file_read_response(ReadOutcome::Missing);
    assert_eq!(resp.status.code(), 404);
    assert!(resp.body.is_empty());
}

#[test]
fn test_read_request_body() {
    let action = handle_request(
        "POST /files/file_123 HTTP/1.1\r\nContent-Length: 5\r\n\r\n12345".as_bytes(),
    );
    let (name, contents) = match action {
        Action::WriteFile(name, contents) => (name, contents),
        _ => panic!("expected a file write"),
    };
    assert_eq!(name, b"file_123".to_vec());
    assert_eq!(contents, b"12345".to_vec());
    let resp = file_write_response(true);
    assert_eq!(resp.status.code(), 201);
}

#[test]
fn test_compression_headers_valid() {
    let resp = respond("GET /echo/abc HTTP/1.1\r\nAccept-Encoding: gzip\r\n\r\n");
    assert_eq!(resp.status.code(), 200);
    assert!(resp.gzip);
    let wire = encode_response(&resp);
    assert!(wire_has(&wire, "Content-Encoding: gzip\r\n"));
}

#[test]
fn test_compression_headers_invalid() {
    let resp = respond("GET /echo/abc HTTP/1.1\r\nAccept-Encoding: invalid-encoding\r\n\r\n");
    assert_eq!(resp.status.code(), 200);
    assert!(!resp.gzip);
    let wire = encode_response(&resp);
    assert!(!wire_has(&wire, "Content-Encoding"));
}

#[test]
fn test_multiple_compression_schemes_one_valid() {
    let resp = respond(
        "GET /echo/abc HTTP/1.1\r\nAccept-Encoding: invalid-encoding-1, gzip, invalid-encoding-2\r\n\r\n",
    );
    assert_eq!(resp.status.code(), 200);
    assert!(resp.gzip);
    let wire = encode_response(&resp);
    assert!(wire_has(&wire, "Content-Encoding: gzip\r\n"));
}

#[test]
fn test_multiple_compression_schemes_all_invalid() {
    let resp = respond(
        "GET /echo/abc HTTP/1.1\r\nAccept-Encoding: invalid-encoding-1, invalid-encoding-2\r\n\r\n",
    );
    assert_eq!(resp.status.code(), 200);
    assert!(!resp.gzip);
    let wire = encode_response(&resp);
    assert!(!wire_has(&wire, "Content-Encoding"));
}

#[test]
fn test_gzip_compression() {
    let resp = respond("GET /echo/abc HTTP/1.1\r\nAccept-Encoding: gzip\r\n\r\n");
    assert_eq!(resp.status.code(), 200);
    assert!(resp.gzip);
    assert_eq!(&resp.body[0..2], &[0x1f, 0x8b]);
}
