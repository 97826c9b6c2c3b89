use mi::handler::default_handler;
use mi::lookup_status_str;
use mi::request::Request;
use mi::response::Response;

fn fresh_response() -> Response {
    let data: Vec<u8> = b"GET /it HTTP/1.1\r\nHost: x\r\n\r\n".to_vec();
    let req = Request::parse_data(&data).unwrap();
    Response::new_for(&req)
}

#[test]
fn status_registry_known_and_unknown() {
    assert_eq!(lookup_status_str(200), "OK");
    assert_eq!(lookup_status_str(404), "Not Found");
    assert_eq!(lookup_status_str(418), "I'm a teapot");
    assert_eq!(lookup_status_str(999), "Unknown");
    assert_eq!(lookup_status_str(0), "Unknown");
}

#[test]
fn end_emits_head_once_with_content_length() {
    let mut res = fresh_response();
    res.write(b"hello").unwrap();
    let out = res.end().unwrap();
    let text = String::from_utf8(out).unwrap();
    assert!(text.starts_with("HTTP/1.1 200 OK\r\n"));
    assert!(text.contains("Content-Length: 5\r\n"));
    assert!(text.ends_with("\r\n\r\nhello"));
    assert!(res.closed);
    assert!(res.header_sent);
}

#[test]
fn implicit_finalization_happens_exactly_once() {
    let mut res = fresh_response();
    res.write(b"page").unwrap();
    // Scope-exit cleanup on a response that was never ended: one emission,
    // with the full buffered body.
    let out = res.finalize().unwrap();
    let text = String::from_utf8(out).unwrap();
    assert!(text.starts_with("HTTP/1.1 200 OK\r\n"));
    assert!(text.ends_with("page"));
    // Explicit end followed by the implicit cleanup performs no second
    // write.
    let mut res2 = fresh_response();
    let _ = res2.end().unwrap();
    assert_eq!(res2.finalize(), None);
}

#[test]
fn write_and_end_after_end_fail_without_mutation() {
    let mut res = fresh_response();
    res.write(b"kept").unwrap();
    let first = res.end().unwrap();
    assert!(!first.is_empty());
    let body_after_end = res.body.clone();
    let header_sent_after_end = res.header_sent;
    let err = res.write(b"late").unwrap_err();
    assert_eq!(err.code, 500);
    assert_eq!(res.body, body_after_end);
    let err2 = res.end().unwrap_err();
    assert_eq!(err2.code, 500);
    assert_eq!(res.body, body_after_end);
    assert_eq!(res.header_sent, header_sent_after_end);
    // The rejected calls were logged, not silently dropped.
    let log = res.take_log();
    assert_eq!(log.len(), 2);
    assert_eq!(log[0], "Write to closed connection ignored for GET /it");
    assert_eq!(log[1], "Write to closed connection for GET /it");
}

#[test]
fn send_streams_and_end_adds_no_length() {
    let mut res = fresh_response();
    res.headers.set("Content-Type", "text/plain");
    res.write(b"part1").unwrap();
    let first = res.send();
    let text = String::from_utf8(first).unwrap();
    assert!(text.starts_with("HTTP/1.1 200 OK\r\n"));
    assert!(text.contains("Content-Type: text/plain\r\n"));
    assert!(text.ends_with("\r\n\r\npart1"));
    res.write(b"part2").unwrap();
    let second = res.send();
    assert_eq!(second, b"part2".to_vec());
    res.write(b"part3").unwrap();
    let last = res.end().unwrap();
    // Streaming mode: no head again, no Content-Length computed.
    assert_eq!(last, b"part3".to_vec());
}

#[test]
fn error_status_is_logged_on_emission() {
    let mut res = fresh_response();
    res.status_code = 500;
    let _ = res.end().unwrap();
    let log = res.take_log();
    assert_eq!(log.len(), 1);
    assert_eq!(log[0], "Error 500 Internal Server Error, for GET /it");
}

#[test]
fn clear_discards_unsent_body() {
    let mut res = fresh_response();
    res.write(b"draft").unwrap();
    res.clear();
    res.write(b"final").unwrap();
    let out = res.end().unwrap();
    let text = String::from_utf8(out).unwrap();
    assert!(text.ends_with("final"));
    assert!(text.contains("Content-Length: 5\r\n"));
}

#[test]
fn ws_writes_string_bytes() {
    let mut res = fresh_response();
    res.ws("text body").unwrap();
    assert_eq!(res.body, b"text body".to_vec());
}

#[test]
fn default_handler_serves_not_found_page() {
    let data: Vec<u8> = b"GET /nope HTTP/1.1\r\nHost: x\r\n\r\n".to_vec();
    let req = Request::parse_data(&data).unwrap();
    let mut res = Response::new_for(&req);
    let out = default_handler(&req, &mut res);
    let text = String::from_utf8(out).unwrap();
    assert_eq!(res.status_code, 404);
    assert!(res.closed);
    assert!(text.starts_with("HTTP/1.1 404 Not Found\r\n"));
    assert!(text.contains("Content-Type: text/html\r\n"));
    let body = text.split("\r\n\r\n").nth(1).unwrap();
    assert_eq!(body, "Not found: /nope");
}

#[test]
fn error_carries_code_status_and_message() {
    let e = mi::error::Error::new(404, "gone");
    assert_eq!(e.code, 404);
    assert_eq!(e.status, "Not Found");
    assert_eq!(e.message, "gone");
    assert_eq!(e.text(), "gone");
    let b = mi::error::Error::boxed(400, "bad");
    assert_eq!(b.code, 400);
    assert_eq!(b.status, "Bad Request");
}
