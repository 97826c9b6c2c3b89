use mi::handler::{Action, Handler, Matcher, RequestHandler};
use mi::request::Request;
use mi::response::Response;
use mi::server::Server;

fn request_for(uri_line: &str) -> Request {
    let mut data = Vec::new();
    data.extend_from_slice(b"GET ");
    data.extend_from_slice(uri_line.as_bytes());
    data.extend_from_slice(b" HTTP/1.1\r\nHost: x\r\n\r\n");
    Request::parse_data(&data).unwrap()
}

#[test]
fn first_matching_handler_wins() {
    let mut server = Server::new();
    server.handle(Matcher::Always, Action::Delegate);
    server.handle(Matcher::Always, Action::Delegate);
    let req = request_for("/anything");
    // Both handlers match every request; dispatch always picks the first.
    assert_eq!(server.route(&req), Some(0));
    let other = request_for("/else");
    assert_eq!(server.route(&other), Some(0));
}

#[test]
fn routing_respects_registration_order() {
    let mut server = Server::new();
    server.handle(Matcher::UriEquals("/a".to_string()), Action::Delegate);
    server.handle(Matcher::UriPrefix("/a".to_string()), Action::Delegate);
    server.handle(Matcher::Always, Action::Delegate);
    assert_eq!(server.route(&request_for("/a")), Some(0));
    assert_eq!(server.route(&request_for("/abc")), Some(1));
    assert_eq!(server.route(&request_for("/zzz")), Some(2));
}

#[test]
fn no_handler_matches_yields_none() {
    let mut server = Server::new();
    server.handle(Matcher::UriEquals("/only".to_string()), Action::Delegate);
    assert_eq!(server.route(&request_for("/other")), None);
    let empty = Server::new();
    assert_eq!(empty.route(&request_for("/any")), None);
}

#[test]
fn matcher_kinds_inspect_the_request() {
    let req = request_for("/files/a.txt");
    assert!(Matcher::Always.matches(&req));
    assert!(Matcher::UriEquals("/files/a.txt".to_string()).matches(&req));
    assert!(!Matcher::UriEquals("/files".to_string()).matches(&req));
    assert!(Matcher::UriPrefix("/files/".to_string()).matches(&req));
    assert!(!Matcher::UriPrefix("/images/".to_string()).matches(&req));
    assert!(Matcher::MethodIs("GET".to_string()).matches(&req));
    assert!(!Matcher::MethodIs("POST".to_string()).matches(&req));
}

#[test]
fn respond_action_emits_and_finalizes() {
    let handler = Handler::new(
        Matcher::Always,
        Action::Respond {
            status: 200,
            content_type: "text/plain".to_string(),
            body: b"pong".to_vec(),
        },
    );
    let req = request_for("/ping");
    assert!(handler.matches(&req));
    let mut res = Response::new_for(&req);
    let out = handler.handle(&req, &mut res);
    let text = String::from_utf8(out).unwrap();
    assert!(text.starts_with("HTTP/1.1 200 OK\r\n"));
    assert!(text.contains("Content-Type: text/plain\r\n"));
    assert!(text.ends_with("pong"));
    assert!(res.closed);
}

#[test]
fn delegate_action_leaves_response_open() {
    let handler = Handler::new(Matcher::Always, Action::Delegate);
    let req = request_for("/x");
    let mut res = Response::new_for(&req);
    let out = handler.handle(&req, &mut res);
    assert!(out.is_empty());
    assert!(!res.closed);
    assert!(!res.header_sent);
}

#[test]
fn server_defaults_and_stop() {
    let mut server = Server::new();
    assert!(server.num_threads >= 1);
    assert_eq!(server.read_timeout_ms, Some(30000));
    assert!(server.running);
    assert!(server.handlers.is_empty());
    server.stop();
    assert!(!server.running);
}
