use mi::request::{header_boundary, split_request_line, uri_parameters, Request};
use mi::util::{index_of, to_lines};

#[test]
fn parses_request_line_headers_and_query() {
    let data: Vec<u8> = b"GET /foo?a=1&b HTTP/1.1\r\nHost: x\r\n\r\n".to_vec();
    let req = Request::parse_data(&data).unwrap();
    assert_eq!(req.method, "GET");
    assert_eq!(req.uri, "/foo?a=1&b");
    assert_eq!(req.http_version, "HTTP/1.1");
    let q = req.get_query_parameters();
    assert_eq!(q.get_all("a"), Some(&vec!["1".to_string()]));
    assert_eq!(q.get_all("b"), Some(&vec!["".to_string()]));
    assert_eq!(req.headers.get("Host"), Some("x"));
    assert_eq!(req.headers.get("host"), Some("x"));
}

#[test]
fn bare_lf_terminator_parses_identically() {
    let crlf: Vec<u8> = b"GET /p HTTP/1.1\r\nHost: a\r\nX-K: v\r\n\r\n".to_vec();
    let lf: Vec<u8> = b"GET /p HTTP/1.1\nHost: a\nX-K: v\n\n".to_vec();
    let r1 = Request::parse_data(&crlf).unwrap();
    let r2 = Request::parse_data(&lf).unwrap();
    assert_eq!(r1.method, r2.method);
    assert_eq!(r1.uri, r2.uri);
    assert_eq!(r1.http_version, r2.http_version);
    assert_eq!(r1.headers.get("Host"), r2.headers.get("Host"));
    assert_eq!(r1.headers.get("X-K"), r2.headers.get("X-K"));
    assert_eq!(r1.body_length, r2.body_length);
}

#[test]
fn header_boundary_finds_first_delimiter() {
    assert_eq!(header_boundary(b"abc\r\n\r\nrest"), Some((3, 7)));
    assert_eq!(header_boundary(b"abc\n\nrest"), Some((3, 5)));
    assert_eq!(header_boundary(b"abc\r\n"), None);
    assert_eq!(header_boundary(b""), None);
}

#[test]
fn malformed_request_line_is_rejected() {
    let two_fields: Vec<u8> = b"GET /foo\r\n\r\n".to_vec();
    let err = Request::parse_data(&two_fields).unwrap_err();
    assert_eq!(err.code, 400);
    let four_fields: Vec<u8> = b"GET / HTTP/1.1 junk\r\n\r\n".to_vec();
    assert!(Request::parse_data(&four_fields).is_err());
}

#[test]
fn header_line_without_colon_is_rejected() {
    let data: Vec<u8> = b"GET / HTTP/1.1\r\nnocolonhere\r\n\r\n".to_vec();
    let err = Request::parse_data(&data).unwrap_err();
    assert_eq!(err.code, 400);
}

#[test]
fn missing_delimiter_is_rejected() {
    let data: Vec<u8> = b"GET / HTTP/1.1\r\nHost: x\r\n".to_vec();
    assert!(Request::parse_data(&data).is_err());
}

#[test]
fn split_request_line_trims_nothing_and_needs_three_fields() {
    let ok = split_request_line(b"POST /x HTTP/1.0").unwrap();
    assert_eq!(ok.0, "POST");
    assert_eq!(ok.1, "/x");
    assert_eq!(ok.2, "HTTP/1.0");
    assert!(split_request_line(b"POST /x").is_err());
    assert!(split_request_line(b"").is_err());
}

#[test]
fn absent_content_length_means_empty_body_now() {
    let data: Vec<u8> = b"GET / HTTP/1.1\r\nHost: x\r\n\r\n".to_vec();
    let req = Request::parse_data(&data).unwrap();
    assert_eq!(req.body_length, 0);
    assert_eq!(req.body_remaining(), 0);
    assert_eq!(req.get_body(), Some(&Vec::new()));
}

#[test]
fn unparsable_content_length_degrades_to_zero() {
    let data: Vec<u8> = b"GET / HTTP/1.1\r\nContent-Length: abc\r\n\r\n".to_vec();
    let req = Request::parse_data(&data).unwrap();
    assert_eq!(req.body_length, 0);
    assert_eq!(req.get_body(), Some(&Vec::new()));
}

#[test]
fn declared_body_is_completed_lazily() {
    let data: Vec<u8> = b"POST /u HTTP/1.1\r\nContent-Length: 5\r\n\r\nab".to_vec();
    let mut req = Request::parse_data(&data).unwrap();
    assert_eq!(req.body_length, 5);
    assert_eq!(req.body_remaining(), 3);
    assert_eq!(req.get_body(), None);
    req.feed_body(b"cde");
    assert_eq!(req.body_remaining(), 0);
    assert_eq!(req.get_body(), Some(&b"abcde".to_vec()));
}

#[test]
fn body_bytes_in_first_chunk_are_kept() {
    let data: Vec<u8> = b"POST /u HTTP/1.1\r\nContent-Length: 4\r\n\r\nwxyz".to_vec();
    let req = Request::parse_data(&data).unwrap();
    assert_eq!(req.get_body(), Some(&b"wxyz".to_vec()));
}

#[test]
fn query_pairs_without_equals_default_to_empty() {
    let q = uri_parameters("/p?x=1&y&x=2");
    assert_eq!(q.get_all("x"), Some(&vec!["1".to_string(), "2".to_string()]));
    assert_eq!(q.get("x"), Some("2"));
    assert_eq!(q.get("y"), Some(""));
    let none = uri_parameters("/plain");
    assert!(none.is_empty());
}

#[test]
fn query_keys_stay_case_sensitive() {
    let q = uri_parameters("/p?Key=1");
    assert_eq!(q.get("Key"), Some("1"));
    assert_eq!(q.get("key"), None);
}

#[test]
fn to_lines_splits_and_strips() {
    let lines = to_lines(b"a\r\nbb\nc");
    assert_eq!(lines, vec![b"a".to_vec(), b"bb".to_vec()]);
    let empty = to_lines(b"");
    assert!(empty.is_empty());
}

#[test]
fn index_of_finds_first() {
    assert_eq!(index_of(&b"abcb".to_vec(), b'b'), Some(1));
    assert_eq!(index_of(&b"abc".to_vec(), b'z'), None);
}
