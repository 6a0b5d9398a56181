use http_core::connection::{Connection, BUFFER_SIZE};
use http_core::serialize::serialize_response_at;

const NOW: u64 = 784111777;

fn wire_of(reply: &http_core::connection::Reply) -> Vec<Vec<u8>> {
    reply.responses.iter().map(|r| serialize_response_at(r, NOW).to_vec()).collect()
}

const HELLO: &[u8] = b"HTTP/1.1 200 OK\r\nContent-Type: text/plain\r\nContent-Length: 13\r\nDate: Sun, 06 Nov 1994 08:49:37 GMT\r\n\r\nHello, World!";
const HEALTH: &[u8] = b"HTTP/1.1 200 OK\r\nContent-Type: text/plain\r\nContent-Length: 2\r\nDate: Sun, 06 Nov 1994 08:49:37 GMT\r\n\r\nOK";
const NOT_FOUND: &[u8] = b"HTTP/1.1 404 Not Found\r\nContent-Type: text/plain\r\nContent-Length: 9\r\nDate: Sun, 06 Nov 1994 08:49:37 GMT\r\n\r\nNot Found";
const BAD_REQUEST: &[u8] = b"HTTP/1.1 400 Bad Request\r\nContent-Type: text/plain\r\nContent-Length: 11\r\nDate: Sun, 06 Nov 1994 08:49:37 GMT\r\n\r\nBad Request";
const INCOMPLETE: &[u8] = b"HTTP/1.1 400 Bad Request\r\nContent-Type: text/plain\r\nContent-Length: 23\r\nDate: Sun, 06 Nov 1994 08:49:37 GMT\r\n\r\nIncomplete HTTP request";

#[test]
fn fresh_connection_is_open_and_empty() {
    let connection = Connection::new();
    assert!(!connection.is_closed());
    assert_eq!(connection.buffered_len(), 0);
    assert_eq!(connection.room(), BUFFER_SIZE);
    assert_eq!(BUFFER_SIZE, 8192);
}

#[test]
fn supported_paths_answer_200() {
    let mut connection = Connection::new();
    let reply = connection.on_read(b"GET / HTTP/1.1\r\nHost: x\r\n\r\n");
    assert!(!reply.close);
    assert_eq!(wire_of(&reply), vec![HELLO.to_vec()]);
    let reply = connection.on_read(b"GET /health HTTP/1.1\r\nHost: x\r\n\r\n");
    assert!(!reply.close);
    assert_eq!(wire_of(&reply), vec![HEALTH.to_vec()]);
    assert!(!connection.is_closed());
    assert_eq!(connection.buffered_len(), 0);
}

#[test]
fn unknown_path_answers_404_and_keeps_the_connection() {
    let mut connection = Connection::new();
    let reply = connection.on_read(b"GET /nothing-here HTTP/1.1\r\nHost: x\r\n\r\n");
    assert!(!reply.close);
    assert_eq!(wire_of(&reply), vec![NOT_FOUND.to_vec()]);
    assert!(!connection.is_closed());
}

#[test]
fn truncated_request_then_end_of_stream_gets_no_response() {
    let mut connection = Connection::new();
    let reply = connection.on_read(b"GET / HTTP/1.1\r\n");
    assert!(reply.responses.is_empty());
    assert!(!reply.close);
    assert_eq!(connection.buffered_len(), 16);
    assert_eq!(connection.room(), BUFFER_SIZE - 16);
    let reply = connection.on_read(b"");
    assert!(reply.responses.is_empty());
    assert!(reply.close);
    assert!(connection.is_closed());
}

#[test]
fn request_split_over_reads_is_answered_once_whole() {
    let mut connection = Connection::new();
    let reply = connection.on_read(b"GET /hea");
    assert!(reply.responses.is_empty() && !reply.close);
    let reply = connection.on_read(b"lth HTTP/1.1\r\nHo");
    assert!(reply.responses.is_empty() && !reply.close);
    let reply = connection.on_read(b"st: x\r\n\r\n");
    assert!(!reply.close);
    assert_eq!(wire_of(&reply), vec![HEALTH.to_vec()]);
    assert_eq!(connection.buffered_len(), 0);
}

#[test]
fn head_that_fills_the_buffer_gets_400_and_close() {
    let mut connection = Connection::new();
    let mut first = b"GET / HTTP/1.1\r\nX-Pad: ".to_vec();
    first.resize(BUFFER_SIZE - 1, b'a');
    let reply = connection.on_read(&first);
    assert!(reply.responses.is_empty() && !reply.close);
    assert_eq!(connection.room(), 1);
    let reply = connection.on_read(b"a");
    assert!(reply.close);
    assert_eq!(wire_of(&reply), vec![INCOMPLETE.to_vec()]);
    assert!(connection.is_closed());
    assert_eq!(connection.room(), 0);
}

#[test]
fn head_that_fills_the_buffer_in_one_read_gets_400() {
    let mut connection = Connection::new();
    let mut bytes = b"GET / HTTP/1.1\r\nX-Pad: ".to_vec();
    bytes.resize(BUFFER_SIZE, b'a');
    let reply = connection.on_read(&bytes);
    assert!(reply.close);
    assert_eq!(reply.responses.len(), 1);
    assert_eq!(reply.responses[0].status(), 400);
}

#[test]
fn garbage_gets_400_and_nothing_is_read_after_it() {
    let mut connection = Connection::new();
    let reply = connection.on_read(b"\x00\x01\x02");
    assert!(reply.close);
    assert_eq!(wire_of(&reply), vec![BAD_REQUEST.to_vec()]);
    assert!(connection.is_closed());
    let reply = connection.on_read(b"GET / HTTP/1.1\r\nHost: x\r\n\r\n");
    assert!(reply.responses.is_empty());
    assert!(reply.close);
    assert!(connection.is_closed());
    assert_eq!(connection.buffered_len(), 3);
}

#[test]
fn keep_alive_answers_each_request_in_order() {
    let mut connection = Connection::new();
    let first = connection.on_read(b"GET /health HTTP/1.1\r\nHost: x\r\n\r\n");
    let second = connection.on_read(b"GET / HTTP/1.1\r\nHost: x\r\n\r\n");
    assert!(!first.close && !second.close);
    assert_eq!(wire_of(&first), vec![HEALTH.to_vec()]);
    assert_eq!(wire_of(&second), vec![HELLO.to_vec()]);
    assert!(!connection.is_closed());
}

#[test]
fn requests_that_arrive_together_are_answered_in_order() {
    let mut connection = Connection::new();
    let reply = connection.on_read(
        b"GET / HTTP/1.1\r\nHost: x\r\n\r\nGET /missing HTTP/1.1\r\nHost: x\r\n\r\nGET /health HTTP/1.1\r\nHost: x\r\n\r\nGET /he",
    );
    assert!(!reply.close);
    assert_eq!(wire_of(&reply), vec![HELLO.to_vec(), NOT_FOUND.to_vec(), HEALTH.to_vec()]);
    assert_eq!(connection.buffered_len(), 7);
    let reply = connection.on_read(b"alth HTTP/1.1\r\n\r\n");
    assert_eq!(wire_of(&reply), vec![HEALTH.to_vec()]);
    assert_eq!(connection.buffered_len(), 0);
}

#[test]
fn garbage_after_a_good_request_closes_after_both_answers() {
    let mut connection = Connection::new();
    let reply = connection.on_read(b"GET / HTTP/1.1\r\n\r\n\x00\x01\x02");
    assert!(reply.close);
    assert_eq!(wire_of(&reply), vec![HELLO.to_vec(), BAD_REQUEST.to_vec()]);
    assert!(connection.is_closed());
}

#[test]
fn end_of_stream_on_an_idle_connection_closes_quietly() {
    let mut connection = Connection::new();
    let reply = connection.on_read(b"");
    assert!(reply.responses.is_empty());
    assert!(reply.close);
    assert!(connection.is_closed());
}

#[test]
fn too_many_headers_get_400() {
    let mut bytes = b"GET / HTTP/1.1\r\n".to_vec();
    for i in 0..65 {
        bytes.extend_from_slice(format!("H{}: v\r\n", i).as_bytes());
    }
    bytes.extend_from_slice(b"\r\n");
    let mut connection = Connection::new();
    let reply = connection.on_read(&bytes);
    assert!(reply.close);
    assert_eq!(wire_of(&reply), vec![BAD_REQUEST.to_vec()]);
}
