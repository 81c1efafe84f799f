use http_server::handler::{handle_request, Action};
use http_server::response::{
    encode_response, file_read_response, generate_not_found_response, generate_text_response,
    MediaType, ReadOutcome,
};
use std::io::Read;

fn respond(raw: &str) -> http_server::response::Response {
    match handle_request(raw.as_bytes()) {
        Action::Respond(r) => r,
        _ => panic!("expected a finished response"),
    }
}

#[test]
fn malformed_request_line_gets_bad_request() {
    let resp = respond("GET\r\n\r\n");
    assert_eq!(resp.status.code(), 400);
    assert!(resp.body.is_empty());
    let resp = respond("\r\n\r\n");
    assert_eq!(resp.status.code(), 400);
}

#[test]
fn user_agent_without_header_gets_bad_request() {
    let resp = respond("GET /user-agent HTTP/1.1\r\n\r\n");
    assert_eq!(resp.status.code(), 400);
    assert!(resp.body.is_empty());
}

#[test]
fn header_names_match_case_insensitively() {
    let resp = respond("GET /user-agent HTTP/1.1\r\nUSER-AGENT: curl/8.0\r\n\r\n");
    assert_eq!(resp.status.code(), 200);
    assert_eq!(resp.body, b"curl/8.0".to_vec());
    let resp = respond("GET /echo/abc HTTP/1.1\r\naccept-encoding: gzip\r\n\r\n");
    assert!(resp.gzip);
}

#[test]
fn gzip_token_match_is_literal() {
    let resp = respond("GET /echo/abc HTTP/1.1\r\nAccept-Encoding: GZIP\r\n\r\n");
    assert!(!resp.gzip);
    let resp = respond("GET /echo/abc HTTP/1.1\r\nAccept-Encoding: gzipped\r\n\r\n");
    assert!(!resp.gzip);
    let resp = respond("GET /echo/abc HTTP/1.1\r\nAccept-Encoding:   gzip  \r\n\r\n");
    assert!(resp.gzip);
}

#[test]
fn duplicate_header_last_value_wins() {
    let resp = respond("GET /user-agent HTTP/1.1\r\nUser-Agent: first\r\nUser-Agent: second\r\n\r\n");
    assert_eq!(resp.body, b"second".to_vec());
}

#[test]
fn echo_empty_remainder() {
    let resp = respond("GET /echo/ HTTP/1.1\r\n\r\n");
    assert_eq!(resp.status.code(), 200);
    assert!(resp.body.is_empty());
    let wire = encode_response(&resp);
    assert!(wire.windows(19).any(|w| w == b"Content-Length: 0\r\n"));
}

#[test]
fn post_without_content_length_gets_bad_request() {
    let resp = respond("POST /files/a HTTP/1.1\r\n\r\nbody");
    assert_eq!(resp.status.code(), 400);
}

#[test]
fn post_with_unparsable_content_length_gets_bad_request() {
    let resp = respond("POST /files/a HTTP/1.1\r\nContent-Length: five\r\n\r\nbody!");
    assert_eq!(resp.status.code(), 400);
    let resp = respond("POST /files/a HTTP/1.1\r\nContent-Length: \r\n\r\nbody!");
    assert_eq!(resp.status.code(), 400);
}

#[test]
fn post_with_overlarge_content_length_gets_bad_request() {
    let resp = respond(
        "POST /files/a HTTP/1.1\r\nContent-Length: 99999999999999999999999999\r\n\r\nbody!",
    );
    assert_eq!(resp.status.code(), 400);
}

#[test]
fn content_length_value_is_trimmed_before_parsing() {
    let action = handle_request("POST /files/a HTTP/1.1\r\nContent-Length:  2 \r\n\r\nhi".as_bytes());
    match action {
        Action::WriteFile(_, contents) => assert_eq!(contents, b"hi".to_vec()),
        _ => panic!("expected a file write"),
    }
}

#[test]
fn post_with_underfilled_body_gets_bad_request() {
    let resp = respond("POST /files/a HTTP/1.1\r\nContent-Length: 10\r\n\r\nshort");
    assert_eq!(resp.status.code(), 400);
}

#[test]
fn post_body_truncated_to_declared_length() {
    let action = handle_request("POST /files/a HTTP/1.1\r\nContent-Length: 3\r\n\r\nabcdef".as_bytes());
    match action {
        Action::WriteFile(name, contents) => {
            assert_eq!(name, b"a".to_vec());
            assert_eq!(contents, b"abc".to_vec());
        },
        _ => panic!("expected a file write"),
    }
}

#[test]
fn file_name_with_dotdot_segment_gets_not_found() {
    let resp = respond("GET /files/../secret HTTP/1.1\r\n\r\n");
    assert_eq!(resp.status.code(), 404);
    assert!(resp.body.is_empty());
    let resp = respond("GET /files/a/../../secret HTTP/1.1\r\n\r\n");
    assert_eq!(resp.status.code(), 404);
    let resp = respond("POST /files/.. HTTP/1.1\r\nContent-Length: 2\r\n\r\nhi");
    assert_eq!(resp.status.code(), 404);
    assert!(resp.body.is_empty());
}

#[test]
fn file_name_with_inner_dots_is_allowed() {
    let action = handle_request("GET /files/a..b HTTP/1.1\r\n\r\n".as_bytes());
    match action {
        Action::ReadFile(name) => assert_eq!(name, b"a..b".to_vec()),
        _ => panic!("expected a file read"),
    }
}

#[test]
fn storage_fault_on_read_gets_server_error() {
    let resp = file_read_response(ReadOutcome::Fault);
    assert_eq!(resp.status.code(), 500);
    assert!(resp.body.is_empty());
}

#[test]
fn file_route_with_other_method_gets_not_found() {
    let resp = respond("DELETE /files/a HTTP/1.1\r\n\r\n");
    assert_eq!(resp.status.code(), 404);
}

#[test]
fn files_round_trip_through_a_store() {
    let action = handle_request("POST /files/notes HTTP/1.1\r\nContent-Length: 4\r\n\r\nwxyz".as_bytes());
    let stored = match action {
        Action::WriteFile(name, contents) => {
            assert_eq!(name, b"notes".to_vec());
            contents
        },
        _ => panic!("expected a file write"),
    };
    let action = handle_request("GET /files/notes HTTP/1.1\r\n\r\n".as_bytes());
    match action {
        Action::ReadFile(name) => assert_eq!(name, b"notes".to_vec()),
        _ => panic!("expected a file read"),
    }
    let resp = file_read_response(ReadOutcome::Found(stored));
    assert_eq!(resp.status.code(), 200);
    assert_eq!(resp.content_type, Some(MediaType::OctetStream));
    assert_eq!(resp.body, b"wxyz".to_vec());
}

#[test]
fn gzip_body_decompresses_to_the_echoed_text() {
    let resp = respond("GET /echo/hello-compression HTTP/1.1\r\nAccept-Encoding: gzip\r\n\r\n");
    assert!(resp.gzip);
    assert_ne!(resp.body, b"hello-compression".to_vec());
    let mut decoder = flate2::read::GzDecoder::new(resp.body.as_slice());
    let mut out = String::new();
    decoder.read_to_string(&mut out).unwrap();
    assert_eq!(out, "hello-compression");
}

#[test]
fn not_found_wire_bytes_are_exact() {
    let wire = generate_not_found_response();
    assert_eq!(wire, b"HTTP/1.1 404 Not Found\r\n\r\n".to_vec());
}

#[test]
fn text_wire_bytes_are_exact() {
    let wire = generate_text_response(b"abc", false);
    assert_eq!(
        wire,
        b"HTTP/1.1 200 OK\r\nContent-Type: text/plain\r\nContent-Length: 3\r\n\r\nabc".to_vec()
    );
}

#[test]
fn missing_blank_line_means_empty_body() {
    let resp = respond("POST /files/a HTTP/1.1\r\nContent-Length: 1");
    assert_eq!(resp.status.code(), 400);
    let action = handle_request("POST /files/a HTTP/1.1\r\nContent-Length: 0\r\n\r\n".as_bytes());
    match action {
        Action::WriteFile(_, contents) => assert!(contents.is_empty()),
        _ => panic!("expected a file write"),
    }
}
