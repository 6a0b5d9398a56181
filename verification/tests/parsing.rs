use http_core::request::{parse_request, ParseOutcome, MAX_HEADERS};

fn request_with_headers(count: usize) -> Vec<u8> {
    let mut bytes = b"GET / HTTP/1.1\r\n".to_vec();
    for i in 0..count {
        bytes.extend_from_slice(format!("X-H{}: v{}\r\n", i, i).as_bytes());
    }
    bytes.extend_from_slice(b"\r\n");
    bytes
}

#[test]
fn complete_request_is_parsed_in_place() {
    let bytes = b"GET /health HTTP/1.1\r\nHost: x\r\nAccept: */*\r\n\r\n";
    match parse_request(bytes) {
        ParseOutcome::Complete { consumed, request } => {
            assert_eq!(consumed, bytes.len());
            assert_eq!(request.method, b"GET");
            assert_eq!(request.path, b"/health");
            assert_eq!(request.version, 1);
            assert_eq!(request.headers.len(), 2);
            assert_eq!(request.headers[0].name, b"Host");
            assert_eq!(request.headers[0].value, b"x");
            assert_eq!(request.headers[1].name, b"Accept");
            assert_eq!(request.headers[1].value, b"*/*");
        }
        other => panic!("expected a complete request, got {:?}", other),
    }
}

#[test]
fn parsed_parts_borrow_from_the_input() {
    let bytes = b"GET /about HTTP/1.1\r\nHost: example\r\n\r\n".to_vec();
    let range = bytes.as_ptr_range();
    match parse_request(&bytes) {
        ParseOutcome::Complete { request, .. } => {
            assert!(range.contains(&request.path.as_ptr()));
            assert!(range.contains(&request.method.as_ptr()));
            assert!(range.contains(&request.headers[0].name.as_ptr()));
            assert!(range.contains(&request.headers[0].value.as_ptr()));
        }
        other => panic!("expected a complete request, got {:?}", other),
    }
}

#[test]
fn consumed_marks_the_end_of_the_first_request() {
    let first = b"GET / HTTP/1.1\r\nHost: x\r\n\r\n";
    let mut bytes = first.to_vec();
    bytes.extend_from_slice(b"GET /health HTTP/1.1\r\n\r\n");
    match parse_request(&bytes) {
        ParseOutcome::Complete { consumed, request } => {
            assert_eq!(consumed, first.len());
            assert_eq!(request.path, b"/");
        }
        other => panic!("expected a complete request, got {:?}", other),
    }
}

#[test]
fn http_1_0_has_minor_version_zero() {
    match parse_request(b"GET / HTTP/1.0\r\n\r\n") {
        ParseOutcome::Complete { request, .. } => {
            assert_eq!(request.version, 0);
            assert!(request.headers.is_empty());
        }
        other => panic!("expected a complete request, got {:?}", other),
    }
}

#[test]
fn empty_input_is_partial() {
    assert!(matches!(parse_request(b""), ParseOutcome::Partial));
}

#[test]
fn request_line_without_end_of_head_is_partial() {
    assert!(matches!(parse_request(b"GET / HTTP/1.1\r\n"), ParseOutcome::Partial));
}

#[test]
fn truncated_header_is_partial() {
    assert!(matches!(parse_request(b"GET / HTTP/1.1\r\nHost: exam"), ParseOutcome::Partial));
    assert!(matches!(parse_request(b"GET / HTT"), ParseOutcome::Partial));
}

#[test]
fn control_bytes_are_malformed() {
    assert!(matches!(parse_request(b"\x00\x01\x02"), ParseOutcome::Malformed));
}

#[test]
fn bad_version_is_malformed() {
    assert!(matches!(parse_request(b"GET / HTTX/1.1\r\n\r\n"), ParseOutcome::Malformed));
}

#[test]
fn bad_method_is_malformed() {
    assert!(matches!(parse_request(b"G@T / HTTP/1.1\r\n\r\n"), ParseOutcome::Malformed));
}

#[test]
fn as_many_headers_as_slots_are_accepted() {
    let bytes = request_with_headers(MAX_HEADERS);
    match parse_request(&bytes) {
        ParseOutcome::Complete { consumed, request } => {
            assert_eq!(consumed, bytes.len());
            assert_eq!(request.headers.len(), 64);
            assert_eq!(request.headers[63].name, b"X-H63");
            assert_eq!(request.headers[63].value, b"v63");
        }
        other => panic!("expected a complete request, got {:?}", other),
    }
}

#[test]
fn one_header_too_many_is_malformed() {
    let bytes = request_with_headers(MAX_HEADERS + 1);
    assert!(matches!(parse_request(&bytes), ParseOutcome::Malformed));
}
