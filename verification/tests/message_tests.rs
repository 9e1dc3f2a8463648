use http_engine::header::{Header, HeaderKind, HeaderTable};
use http_engine::method::HTTPMethod;
use http_engine::protocol::HTTPProtocol;
use http_engine::request::RequestMessage;
use http_engine::response::{FsOutcome, FsPlan, ResponseMessage};
use http_engine::route::Route;
use http_engine::router::{DirEntry, Router};
use http_engine::routes;
use http_engine::status::StatusCodeEnum;

// Inserting two headers of one kind leaves exactly one entry of that
// kind, holding the later value.
#[test]
fn test_header_table_replaces_same_kind() {
    let mut table = HeaderTable::new();
    table.insert(Header::Host(String::from("first.example")));
    table.insert(Header::Accept(String::from("text/html")));
    table.insert(Header::Host(String::from("second.example")));

    assert_eq!(table.len(), 2);
    let mut host_count = 0;
    for i in 0..table.len() {
        let h = table.get(i);
        if h.kind() == HeaderKind::Host {
            host_count += 1;
            assert_eq!(h.value(), Some("second.example"));
        }
    }
    assert_eq!(host_count, 1);
}

// The replaced entry keeps its position, so serialization order is
// stable under re-insertion.
#[test]
fn test_header_table_replace_keeps_position() {
    let mut table = HeaderTable::new();
    table.insert(Header::Host(String::from("a")));
    table.insert(Header::Accept(String::from("b")));
    table.insert(Header::Host(String::from("c")));
    assert_eq!(table.get(0).kind(), HeaderKind::Host);
    assert_eq!(table.get(0).value(), Some("c"));
    assert_eq!(table.get(1).kind(), HeaderKind::Accept);
}

#[test]
fn test_header_wire_strings() {
    assert_eq!(
        Header::ContentLength(String::from("42")).wire_string(),
        "Content-Length: 42"
    );
    assert_eq!(Header::EMPTY.wire_string(), "EMPTY");
}

#[test]
fn test_parse_request_get() {
    let raw = b"GET /index.html HTTP/1.1\r\nHost: example.org\r\nAccept: text/html\r\n\r\n";
    let msg = RequestMessage::parse_request(raw).unwrap();
    assert!(matches!(msg.get_control_line().get_method(), HTTPMethod::GET));
    assert_eq!(msg.get_control_line().get_path(), "/index.html");
    assert!(matches!(
        msg.get_control_line().get_protocol(),
        HTTPProtocol::Http1_1
    ));
    let table = msg.get_headers_table().unwrap();
    assert_eq!(table.len(), 2);
    assert_eq!(table.get(0).kind(), HeaderKind::Host);
    assert_eq!(table.get(0).value(), Some("example.org"));
    assert_eq!(msg.get_body(), None);
}

#[test]
fn test_parse_request_put_with_body() {
    let raw = b"PUT /notes.txt HTTP/1.1\r\nContent-Length: 5\r\n\r\nhello";
    let msg = RequestMessage::parse_request(raw).unwrap();
    assert!(matches!(msg.get_control_line().get_method(), HTTPMethod::PUT));
    assert_eq!(msg.get_body(), Some("hello"));
}

// NUL padding after the request (as from a fixed-size socket buffer)
// is trimmed before parsing.
#[test]
fn test_parse_request_trims_nul_padding() {
    let mut raw = b"GET / HTTP/1.1\r\n\r\n".to_vec();
    raw.resize(64, 0u8);
    let msg = RequestMessage::parse_request(&raw).unwrap();
    assert_eq!(msg.get_control_line().get_path(), "/");
    assert!(msg.get_headers_table().is_none());
}

#[test]
fn test_parse_request_empty_buffer_fails() {
    assert!(RequestMessage::parse_request(b"").is_err());
    assert!(RequestMessage::parse_request(&[0u8; 16]).is_err());
}

#[test]
fn test_parse_request_short_control_line_fails() {
    assert!(RequestMessage::parse_request(b"GET /x\r\n\r\n").is_err());
}

#[test]
fn test_parse_request_invalid_utf8_fails() {
    assert!(RequestMessage::parse_request(&[0xff, 0xfe, 0x20]).is_err());
}

// An unrecognized method token leaves the method unset; an
// unrecognized header name is dropped.
#[test]
fn test_parse_request_lenient_on_unknown_tokens() {
    let raw = b"BREW /pot HTTP/1.1\r\nX-Unknown: 1\r\nHost: h\r\n\r\n";
    let msg = RequestMessage::parse_request(raw).unwrap();
    assert!(matches!(msg.get_control_line().get_method(), HTTPMethod::EMPTY));
    let table = msg.get_headers_table().unwrap();
    assert_eq!(table.len(), 1);
    assert_eq!(table.get(0).kind(), HeaderKind::Host);
}

// A bound GET whose file read succeeds: 200 with the three content
// headers, Content-Length equal to the body's byte length.
#[test]
fn test_get_bound_route_success() {
    let mut router = Router::new();
    router.connect_single_route(
        Route(HTTPMethod::GET, String::from("/index.html")),
        String::from("files/index.html"),
    );
    let raw = b"GET /index.html HTTP/1.1\r\n\r\n";
    let msg = RequestMessage::parse_request(raw).unwrap();
    let plan = ResponseMessage::plan_response(&msg, &router).unwrap();
    match plan {
        FsPlan::Read(path) => assert_eq!(path, "files/index.html"),
        _ => panic!("expected a read plan"),
    }
    let response = ResponseMessage::build_response(
        HTTPProtocol::Http1_1,
        FsOutcome::Read(Some(String::from("<html></html>"))),
    );
    assert_eq!(response.status_line().status_code(), StatusCodeEnum::Code200);
    assert_eq!(response.body(), Some("<html></html>"));
    let headers = response.headers();
    assert_eq!(headers.len(), 3);
    assert_eq!(headers[0].wire_string(), "Content-Type: text/html; charset=utf-8");
    assert_eq!(headers[1].wire_string(), "Content-Disposition: inline");
    assert_eq!(headers[2].wire_string(), "Content-Length: 13");
}

// A GET for an unbound path resolves to the sentinel, the read fails,
// and the response is 400 with no body and no content headers.
#[test]
fn test_get_unbound_route_is_400() {
    let router = Router::new();
    let raw = b"GET /missing HTTP/1.1\r\n\r\n";
    let msg = RequestMessage::parse_request(raw).unwrap();
    let plan = ResponseMessage::plan_response(&msg, &router).unwrap();
    match plan {
        FsPlan::Read(path) => assert_eq!(path, "INVALID PATH"),
        _ => panic!("expected a read plan"),
    }
    let response = ResponseMessage::build_response(HTTPProtocol::Http1_1, FsOutcome::Read(None));
    assert_eq!(response.status_line().status_code(), StatusCodeEnum::Code400);
    assert_eq!(response.body(), None);
    assert_eq!(response.headers().len(), 0);
}

// A PUT creating a new file answers 201; repeating it on the now
// existing path answers 200.
#[test]
fn test_put_create_then_overwrite() {
    let mut router = Router::new();
    router.connect_single_route(
        Route(HTTPMethod::PUT, String::from("/notes.txt")),
        String::from("files/notes.txt"),
    );
    let raw = b"PUT /notes.txt HTTP/1.1\r\n\r\nsome text";
    let msg = RequestMessage::parse_request(raw).unwrap();

    let plan = ResponseMessage::plan_response(&msg, &router).unwrap();
    match plan {
        FsPlan::Write(path, body) => {
            assert_eq!(path, "files/notes.txt");
            assert_eq!(body, "some text");
        },
        _ => panic!("expected a write plan"),
    }

    let first = ResponseMessage::build_response(
        HTTPProtocol::Http1_1,
        FsOutcome::Write(Some(false), true),
    );
    assert_eq!(first.status_line().status_code(), StatusCodeEnum::Code201);

    let second = ResponseMessage::build_response(
        HTTPProtocol::Http1_1,
        FsOutcome::Write(Some(true), true),
    );
    assert_eq!(second.status_line().status_code(), StatusCodeEnum::Code200);
}

#[test]
fn test_put_failures_and_other_methods() {
    let over = ResponseMessage::build_response(
        HTTPProtocol::Http1_1,
        FsOutcome::Write(Some(true), false),
    );
    assert_eq!(over.status_line().status_code(), StatusCodeEnum::Code500);
    let create = ResponseMessage::build_response(
        HTTPProtocol::Http1_1,
        FsOutcome::Write(Some(false), false),
    );
    assert_eq!(create.status_line().status_code(), StatusCodeEnum::Code501);
    let probe = ResponseMessage::build_response(
        HTTPProtocol::Http1_1,
        FsOutcome::Write(None, false),
    );
    assert_eq!(probe.status_line().status_code(), StatusCodeEnum::Code500);
    let other = ResponseMessage::build_response(HTTPProtocol::Http1_1, FsOutcome::NoEffect);
    assert_eq!(other.status_line().status_code(), StatusCodeEnum::Code501);
}

// A PUT whose body is missing is a caller error, reported instead of
// panicking.
#[test]
fn test_put_without_body_is_error() {
    let router = Router::new();
    let raw = b"PUT /notes.txt HTTP/1.1\r\n\r\n";
    let msg = RequestMessage::parse_request(raw).unwrap();
    assert!(ResponseMessage::plan_response(&msg, &router).is_err());
}

#[test]
fn test_serialize_response_wire_form() {
    let response = ResponseMessage::build_response(
        HTTPProtocol::Http1_1,
        FsOutcome::Read(Some(String::from("hi"))),
    );
    let wire = response.serialize();
    assert_eq!(
        wire,
        "HTTP/1.1 200 Ok\r\nContent-Type: text/html; charset=utf-8\r\nContent-Disposition: inline\r\nContent-Length: 2\r\n\r\nhi\r\n"
    );
}

#[test]
fn test_serialize_response_no_body() {
    let response = ResponseMessage::build_response(HTTPProtocol::Http1_1, FsOutcome::Read(None));
    assert_eq!(response.serialize(), "HTTP/1.1 400 Bad Request\r\n\r\n\r\n");
}

// Single bind: the first writer wins and re-binding is a no-op.
#[test]
fn test_single_bind_first_writer_wins() {
    let mut router = Router::new();
    router.connect_single_route(
        Route(HTTPMethod::GET, String::from("/a")),
        String::from("first"),
    );
    router.connect_single_route(
        Route(HTTPMethod::GET, String::from("/a")),
        String::from("second"),
    );
    assert_eq!(
        router.get_abs_path(Route(HTTPMethod::GET, String::from("/a"))),
        Some("first")
    );
}

// Recursive bind over a directory holding `a.html` and `sub/b.html`
// produces four distinct bindings from one call.
#[test]
fn test_recursive_bind_directory_tree() {
    let mut router = Router::new();
    let tree = vec![
        DirEntry {
            name: String::from("a.html"),
            abs_path: String::from("files/a.html"),
            children: vec![],
        },
        DirEntry {
            name: String::from("sub"),
            abs_path: String::from("files/sub"),
            children: vec![DirEntry {
                name: String::from("b.html"),
                abs_path: String::from("files/sub/b.html"),
                children: vec![],
            }],
        },
    ];
    router.connect_recursive_routes(
        Route(HTTPMethod::GET, String::from("/")),
        String::from("files"),
        &tree,
    );
    assert_eq!(
        router.get_abs_path(Route(HTTPMethod::GET, String::from("/"))),
        Some("files")
    );
    assert_eq!(
        router.get_abs_path(Route(HTTPMethod::GET, String::from("/a.html"))),
        Some("files/a.html")
    );
    assert_eq!(
        router.get_abs_path(Route(HTTPMethod::GET, String::from("/sub"))),
        Some("files/sub")
    );
    assert_eq!(
        router.get_abs_path(Route(HTTPMethod::GET, String::from("/sub/b.html"))),
        Some("files/sub/b.html")
    );
}

// Recursive bind re-binds the root key even when it was bound before:
// the deliberate asymmetry with single bind.
#[test]
fn test_recursive_bind_overwrites_root() {
    let mut router = Router::new();
    router.connect_single_route(
        Route(HTTPMethod::GET, String::from("/")),
        String::from("old-root"),
    );
    router.connect_recursive_routes(
        Route(HTTPMethod::GET, String::from("/")),
        String::from("new-root"),
        &vec![],
    );
    assert_eq!(
        router.get_abs_path(Route(HTTPMethod::GET, String::from("/"))),
        Some("new-root")
    );
}

#[test]
fn test_disconnect_route() {
    let mut router = Router::new();
    router.connect_single_route(
        Route(HTTPMethod::GET, String::from("/a")),
        String::from("files/a"),
    );
    let removed = router.disconnect_route(&Route(HTTPMethod::GET, String::from("/a")));
    assert_eq!(removed, Some(String::from("files/a")));
    assert_eq!(
        router.get_abs_path(Route(HTTPMethod::GET, String::from("/a"))),
        None
    );
    assert_eq!(
        router.disconnect_route(&Route(HTTPMethod::GET, String::from("/a"))),
        None
    );
}

// The method is part of the key: a PUT binding does not answer a GET.
#[test]
fn test_route_key_includes_method() {
    let mut router = Router::new();
    router.connect_single_route(
        Route(HTTPMethod::PUT, String::from("/x")),
        String::from("files/x"),
    );
    assert_eq!(
        router.get_abs_path(Route(HTTPMethod::GET, String::from("/x"))),
        None
    );
}

// The plain path-keyed map: connect overwrites, disconnect removes.
#[test]
fn test_path_route_map() {
    let mut map = routes::Route::new();
    map.connect("/index.html", String::from("files/index.html"));
    assert_eq!(map.match_path("/index.html"), Some("files/index.html"));
    map.connect("/index.html", String::from("files/other.html"));
    assert_eq!(map.match_path("/index.html"), Some("files/other.html"));
    assert_eq!(map.disconnect("/index.html"), Some(String::from("files/other.html")));
    assert_eq!(map.match_path("/index.html"), None);
}

// The containment check: lexically normalized paths must stay under
// the configured root before any filesystem access.
#[test]
fn test_path_within_root() {
    assert!(http_engine::paths::path_within_root("files", "files/index.html"));
    assert!(http_engine::paths::path_within_root("files", "files/sub/./b.html"));
    assert!(http_engine::paths::path_within_root("files/", "files/a"));
    assert!(!http_engine::paths::path_within_root("files", "files/../secret"));
    assert!(!http_engine::paths::path_within_root("files", "/etc/passwd"));
    assert!(!http_engine::paths::path_within_root("files", "other/a.html"));
    assert!(http_engine::paths::path_within_root("files", "files/sub/../a.html"));
    assert!(!http_engine::paths::path_within_root("files", "../files/a.html"));
}

// Content-Disposition is one of the recognized request header names.
#[test]
fn test_parse_request_content_disposition() {
    let raw = b"GET / HTTP/1.1\r\nContent-Disposition: attachment\r\n\r\n";
    let msg = RequestMessage::parse_request(raw).unwrap();
    let table = msg.get_headers_table().unwrap();
    assert_eq!(table.len(), 1);
    assert_eq!(table.get(0).kind(), HeaderKind::ContentDisposition);
    assert_eq!(table.get(0).value(), Some("attachment"));
}

// Recursive bind permits overwrite for the synthesized child routes,
// not only for the root: a prior binding of a child's key is rebound.
#[test]
fn test_recursive_bind_overwrites_child() {
    let mut router = Router::new();
    router.connect_single_route(
        Route(HTTPMethod::GET, String::from("/a.html")),
        String::from("elsewhere/a.html"),
    );
    let tree = vec![DirEntry {
        name: String::from("a.html"),
        abs_path: String::from("files/a.html"),
        children: vec![],
    }];
    router.connect_recursive_routes(
        Route(HTTPMethod::GET, String::from("/")),
        String::from("files"),
        &tree,
    );
    assert_eq!(
        router.get_abs_path(Route(HTTPMethod::GET, String::from("/a.html"))),
        Some("files/a.html")
    );
}
