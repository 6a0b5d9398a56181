use http_core::clock::{http_date, LAST_DATE_SECOND};
use http_core::request::RawRequest;
use http_core::response::Response;
use http_core::router::handle_request;
use http_core::serialize::{can_serialize, serialize_response, serialize_response_at};
use http_core::text::{bytes_eq, decimal_digits, eq_ignore_case, literal, to_lower};

const RFC_EXAMPLE: u64 = 784111777;

fn count_header_lines(wire: &[u8], name: &str) -> usize {
    let text = String::from_utf8_lossy(wire).into_owned();
    let head = text.split("\r\n\r\n").next().unwrap().to_string();
    let prefix = format!("{}:", name.to_ascii_lowercase());
    head.split("\r\n").skip(1).filter(|line| line.to_ascii_lowercase().starts_with(&prefix)).count()
}

#[test]
fn root_response_on_the_wire() {
    let request = RawRequest { method: b"GET", path: b"/", version: 1, headers: Vec::new() };
    let response = handle_request(&request);
    assert!(can_serialize(&response));
    let wire = serialize_response_at(&response, RFC_EXAMPLE);
    let expected: &[u8] = b"HTTP/1.1 200 OK\r\nContent-Type: text/plain\r\nContent-Length: 13\r\nDate: Sun, 06 Nov 1994 08:49:37 GMT\r\n\r\nHello, World!";
    assert_eq!(&wire[..], expected);
}

#[test]
fn not_found_response_on_the_wire() {
    let request = RawRequest { method: b"GET", path: b"/missing", version: 1, headers: Vec::new() };
    let wire = serialize_response_at(&handle_request(&request), 0);
    let expected: &[u8] = b"HTTP/1.1 404 Not Found\r\nContent-Type: text/plain\r\nContent-Length: 9\r\nDate: Thu, 01 Jan 1970 00:00:00 GMT\r\n\r\nNot Found";
    assert_eq!(&wire[..], expected);
}

#[test]
fn headers_keep_their_order_and_case() {
    let response = Response::new(201, b"{}")
        .unwrap()
        .with_header(b"X-b", b"2")
        .with_header(b"x-A", b"1")
        .with_header(b"X-b", b"3");
    let wire = serialize_response_at(&response, RFC_EXAMPLE);
    let expected: &[u8] = b"HTTP/1.1 201 Created\r\nX-b: 2\r\nx-A: 1\r\nX-b: 3\r\nContent-Length: 2\r\nDate: Sun, 06 Nov 1994 08:49:37 GMT\r\n\r\n{}";
    assert_eq!(&wire[..], expected);
}

#[test]
fn explicit_content_length_is_kept() {
    let response = Response::new(200, b"abc").unwrap().with_header(b"content-LENGTH", b"999");
    let wire = serialize_response_at(&response, RFC_EXAMPLE);
    let expected: &[u8] = b"HTTP/1.1 200 OK\r\ncontent-LENGTH: 999\r\nDate: Sun, 06 Nov 1994 08:49:37 GMT\r\n\r\nabc";
    assert_eq!(&wire[..], expected);
    assert_eq!(count_header_lines(&wire, "Content-Length"), 1);
}

#[test]
fn explicit_date_is_kept() {
    let response = Response::new(200, b"").unwrap().with_header(b"date", b"yesterday");
    let wire = serialize_response_at(&response, RFC_EXAMPLE);
    let expected: &[u8] = b"HTTP/1.1 200 OK\r\ndate: yesterday\r\nContent-Length: 0\r\n\r\n";
    assert_eq!(&wire[..], expected);
}

#[test]
fn both_explicit_means_nothing_is_injected() {
    let response = Response::new(204, b"")
        .unwrap()
        .with_header(b"Date", b"d")
        .with_header(b"Content-Length", b"0");
    let wire = serialize_response_at(&response, RFC_EXAMPLE);
    let expected: &[u8] = b"HTTP/1.1 204 No Content\r\nDate: d\r\nContent-Length: 0\r\n\r\n";
    assert_eq!(&wire[..], expected);
}

#[test]
fn missing_content_length_is_injected_exactly_once() {
    let body = vec![b'x'; 12345];
    let response = Response::new(200, &body).unwrap().with_header(b"Content-Type", b"text/plain");
    let wire = serialize_response_at(&response, RFC_EXAMPLE);
    assert_eq!(count_header_lines(&wire, "Content-Length"), 1);
    assert_eq!(count_header_lines(&wire, "Date"), 1);
    let text = String::from_utf8_lossy(&wire).into_owned();
    assert!(text.contains("\r\nContent-Length: 12345\r\n"));
    assert!(wire.ends_with(&body));
}

#[test]
fn output_larger_than_the_estimate_is_not_cut() {
    let value = vec![b'v'; 5000];
    let response = Response::new(200, b"tail").unwrap().with_header(b"X-Long", &value);
    let wire = serialize_response_at(&response, RFC_EXAMPLE);
    let fixed = b"HTTP/1.1 200 OK\r\nX-Long: \r\nContent-Length: 4\r\nDate: Sun, 06 Nov 1994 08:49:37 GMT\r\n\r\ntail";
    assert_eq!(wire.len(), fixed.len() + 5000);
    assert!(wire.ends_with(b"\r\n\r\ntail"));
}

#[test]
fn status_without_listed_reason_has_an_empty_reason() {
    let response = Response::new(299, b"").unwrap();
    let wire = serialize_response_at(&response, RFC_EXAMPLE);
    assert!(wire.starts_with(b"HTTP/1.1 299 \r\nContent-Length: 0\r\n"));
}

#[test]
fn longest_reason_phrase_is_written_whole() {
    let response = Response::new(431, b"").unwrap();
    let wire = serialize_response_at(&response, RFC_EXAMPLE);
    assert!(wire.starts_with(b"HTTP/1.1 431 Request Header Fields Too Large\r\n"));
    let response = Response::new(511, b"").unwrap();
    let wire = serialize_response_at(&response, RFC_EXAMPLE);
    assert!(wire.starts_with(b"HTTP/1.1 511 Network Authentication Required\r\n"));
}

#[test]
fn status_must_have_three_digits() {
    assert!(Response::new(99, b"").is_none());
    assert!(Response::new(0, b"").is_none());
    assert!(Response::new(1000, b"").is_none());
    assert!(Response::new(u16::MAX, b"").is_none());
    assert_eq!(Response::new(100, b"").unwrap().status(), 100);
    assert_eq!(Response::new(999, b"").unwrap().status(), 999);
}

#[test]
fn response_accessors() {
    let response = Response::new(200, b"body")
        .unwrap()
        .with_header(b"A", b"1")
        .with_header(b"a", b"2")
        .with_header(b"B", b"3");
    assert_eq!(response.body(), b"body");
    assert_eq!(response.headers().len(), 3);
    assert!(response.contains_header(b"b"));
    assert!(!response.contains_header(b"c"));
    assert_eq!(response.header(b"a"), Some(&b"1"[..]));
    assert_eq!(response.header(b"B"), Some(&b"3"[..]));
    assert_eq!(response.header(b"C"), None);
}

#[test]
fn clock_date_is_a_valid_http_date() {
    let response = Response::new(200, b"hi").unwrap();
    let wire = serialize_response(&response);
    let text = String::from_utf8(wire.to_vec()).unwrap();
    let line = text.split("\r\n").find(|l| l.starts_with("Date: ")).unwrap().to_string();
    let date = &line["Date: ".len()..];
    assert_eq!(date.len(), 29);
    assert!(httpdate::parse_http_date(date).is_ok());
    assert!(text.starts_with("HTTP/1.1 200 OK\r\nContent-Length: 2\r\nDate: "));
    assert!(text.ends_with("\r\n\r\nhi"));
}

#[test]
fn http_date_formats_and_saturates() {
    assert_eq!(http_date(0), b"Thu, 01 Jan 1970 00:00:00 GMT");
    assert_eq!(http_date(RFC_EXAMPLE), b"Sun, 06 Nov 1994 08:49:37 GMT");
    assert_eq!(http_date(1431696861), b"Fri, 15 May 2015 13:34:21 GMT");
    assert_eq!(http_date(LAST_DATE_SECOND), b"Fri, 31 Dec 9999 23:59:59 GMT");
    assert_eq!(http_date(LAST_DATE_SECOND + 1), b"Fri, 31 Dec 9999 23:59:59 GMT");
    assert_eq!(http_date(u64::MAX), b"Fri, 31 Dec 9999 23:59:59 GMT");
}

#[test]
fn serialized_response_reads_back() {
    let response = Response::new(404, b"Not Found\r\nreally")
        .unwrap()
        .with_header(b"Content-Type", b"text/plain")
        .with_header(b"X-Empty", b"")
        .with_header(b"Set-Cookie", b"a=b; c=d");
    let wire = serialize_response_at(&response, RFC_EXAMPLE);
    let mut slots = [httparse::EMPTY_HEADER; 16];
    let mut parsed = httparse::Response::new(&mut slots);
    let head_len = match parsed.parse(&wire) {
        Ok(httparse::Status::Complete(n)) => n,
        other => panic!("expected a complete response, got {:?}", other),
    };
    assert_eq!(parsed.version, Some(1));
    assert_eq!(parsed.code, Some(404));
    assert_eq!(parsed.reason, Some("Not Found"));
    let got: Vec<(String, Vec<u8>)> =
        parsed.headers.iter().map(|h| (h.name.to_string(), h.value.to_vec())).collect();
    let expected: Vec<(String, Vec<u8>)> = vec![
        ("Content-Type".to_string(), b"text/plain".to_vec()),
        ("X-Empty".to_string(), b"".to_vec()),
        ("Set-Cookie".to_string(), b"a=b; c=d".to_vec()),
        ("Content-Length".to_string(), b"17".to_vec()),
        ("Date".to_string(), b"Sun, 06 Nov 1994 08:49:37 GMT".to_vec()),
    ];
    assert_eq!(got, expected);
    assert_eq!(&wire[head_len..], response.body());
}

#[test]
fn decimal_digits_of_numbers() {
    assert_eq!(decimal_digits(0), b"0");
    assert_eq!(decimal_digits(9), b"9");
    assert_eq!(decimal_digits(10), b"10");
    assert_eq!(decimal_digits(12345), b"12345");
    assert_eq!(decimal_digits(usize::MAX), usize::MAX.to_string().as_bytes());
}

#[test]
fn comparing_bytes() {
    assert!(bytes_eq(b"", b""));
    assert!(bytes_eq(b"abc", b"abc"));
    assert!(!bytes_eq(b"abc", b"abd"));
    assert!(!bytes_eq(b"abc", b"ab"));
    assert!(eq_ignore_case(b"Content-Length", b"content-length"));
    assert!(eq_ignore_case(b"DATE", b"date"));
    assert!(!eq_ignore_case(b"Date", b"Data"));
    assert!(!eq_ignore_case(b"Date", b"Dates"));
    assert!(!eq_ignore_case(b"a[", b"a{"));
    assert!(!eq_ignore_case(b"@", b"`"));
    assert_eq!(to_lower(b'A'), b'a');
    assert_eq!(to_lower(b'Z'), b'z');
    assert_eq!(to_lower(b'a'), b'a');
    assert_eq!(to_lower(b'@'), b'@');
    assert_eq!(to_lower(b'['), b'[');
    assert_eq!(literal("Date"), b"Date");
}
