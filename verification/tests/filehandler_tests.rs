use mi::filehandler::FileHandler;
use mi::request::Request;
use mi::response::Response;

fn request_for(uri: &str) -> Request {
    let mut data = Vec::new();
    data.extend_from_slice(b"GET ");
    data.extend_from_slice(uri.as_bytes());
    data.extend_from_slice(b" HTTP/1.1\r\nHost: x\r\n\r\n");
    Request::parse_data(&data).unwrap()
}

#[test]
fn file_handler_defaults() {
    let fh = FileHandler::new("/static", "/srv/www");
    assert!(!fh.list_dirs);
    assert_eq!(fh.index, vec!["index.html".to_string()]);
    assert_eq!(fh.uri_prefix, "/static");
    assert_eq!(fh.root, "/srv/www");
    assert!(fh.ext2mime.is_empty());
}

#[test]
fn file_handler_matches_prefix() {
    let fh = FileHandler::new("/static", "/srv/www");
    assert!(fh.matches(&request_for("/static/a.png")));
    assert!(fh.matches(&request_for("/static")));
    assert!(!fh.matches(&request_for("/other")));
}

#[test]
fn mimetype_from_known_extensions() {
    let fh = FileHandler::new("/", ".");
    assert_eq!(fh.mimetype_for_extension("dir/photo.JPG"), "image/jpeg");
    assert_eq!(fh.mimetype_for_extension("a.jpeg"), "image/jpeg");
    assert_eq!(fh.mimetype_for_extension("index.html"), "text/html");
    assert_eq!(fh.mimetype_for_extension("s.css"), "text/css");
    assert_eq!(fh.mimetype_for_extension("d.json"), "application/json");
    assert_eq!(fh.mimetype_for_extension("p.PNG"), "image/png");
}

#[test]
fn mimetype_falls_back_to_octet_stream() {
    let fh = FileHandler::new("/", ".");
    assert_eq!(fh.mimetype_for_extension("noext"), "application/octet-stream");
    assert_eq!(fh.mimetype_for_extension(".hidden"), "application/octet-stream");
    assert_eq!(fh.mimetype_for_extension("x.unknown"), "application/octet-stream");
    assert_eq!(fh.mimetype_for_extension("dir.with.dot/noext"), "application/octet-stream");
}

#[test]
fn mimetype_consults_custom_entries() {
    let mut fh = FileHandler::new("/", ".");
    fh.ext2mime.push(("abc".to_string(), "application/x-abc".to_string()));
    assert_eq!(fh.mimetype_for_extension("f.abc"), "application/x-abc");
    assert_eq!(fh.mimetype_for_extension("f.ABC"), "application/x-abc");
    // Built-in entries win over custom ones.
    fh.ext2mime.push(("jpg".to_string(), "application/x-own".to_string()));
    assert_eq!(fh.mimetype_for_extension("f.jpg"), "image/jpeg");
}

#[test]
fn serve_error_writes_plain_text_page() {
    let fh = FileHandler::new("/", ".");
    let req = request_for("/missing");
    let mut res = Response::new_for(&req);
    let out = fh.serve_error(&mut res, 500, "Internal Server Error");
    let text = String::from_utf8(out).unwrap();
    assert!(text.starts_with("HTTP/1.1 500 Internal Server Error\r\n"));
    assert!(text.contains("Content-Type: text/plain\r\n"));
    assert!(text.ends_with("\r\n\r\nInternal Server Error"));
    assert_eq!(res.status_code, 500);
    assert!(res.closed);
}

#[test]
fn listing_entry_escapes_quotes() {
    assert_eq!(
        mi::filehandler::listing_entry("a.txt"),
        "<li><a href=\"a.txt\">a.txt</a></li>"
    );
    assert_eq!(
        mi::filehandler::listing_entry("we\"ird"),
        "<li><a href=\"we\\\"ird\">we\"ird</a></li>"
    );
}
