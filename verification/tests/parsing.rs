use http_request::method::Method;
use http_request::request::Request;

#[test]
fn test_request_new() {
    let request: Request = Request::new();
    assert_eq!(request.headers().len(), 0);
    assert_eq!(request.query().len(), 0);
    assert_eq!(request.body(), "");
    assert_eq!(*request.method(), Method::GET);
    assert_eq!(request.path(), "");
}

#[test]
fn test_parse_from_str() {
    let mut request: Request = Request::new();
    request.parse_from_str("GET / HTTP/1.1\r\nHost: localhost\r\n\r\n");
    assert_eq!(request.headers().len(), 1);
    assert_eq!(request.headers()[0].name(), "Host");
    assert_eq!(request.headers()[0].value(), "localhost");
    assert_eq!(request.query().len(), 0);
    assert_eq!(request.body(), "");
    assert_eq!(*request.method(), Method::GET);
    assert_eq!(request.path(), "/");
}

#[test]
fn test_parse_from_str_with_query() {
    let mut request: Request = Request::new();
    request.parse_from_str("GET /?name=value&test=test2 HTTP/1.1\r\nHost: localhost\r\n\r\n");
    assert_eq!(request.headers().len(), 1);
    assert_eq!(request.headers()[0].name(), "Host");
    assert_eq!(request.headers()[0].value(), "localhost");
    assert_eq!(request.query().len(), 2);
    assert_eq!(request.query()[0].name(), "name");
    assert_eq!(request.query()[0].value(), "value");
    assert_eq!(request.query()[1].name(), "test");
    assert_eq!(request.query()[1].value(), "test2");
    assert_eq!(request.body(), "");
    assert_eq!(*request.method(), Method::GET);
    assert_eq!(request.path(), "/");
}

#[test]
fn test_parse_from_str_with_query_and_body() {
    let mut request: Request = Request::new();
    request.parse_from_str(
        "POST /?name=value HTTP/1.1\r\nHost: localhost\r\nContent-Type: plain\r\n\r\nbody",
    );
    assert_eq!(request.headers().len(), 2);
    assert_eq!(request.headers()[0].name(), "Host");
    assert_eq!(request.headers()[0].value(), "localhost");
    assert_eq!(request.headers()[1].name(), "Content-Type");
    assert_eq!(request.headers()[1].value(), "plain");
    assert_eq!(request.query().len(), 1);
    assert_eq!(request.query()[0].name(), "name");
    assert_eq!(request.query()[0].value(), "value");
    assert_eq!(request.body(), "body");
    assert_eq!(*request.method(), Method::POST);
    assert_eq!(request.path(), "/");
}

#[test]
fn test_parse_records_full_path_and_version() {
    let mut request: Request = Request::new();
    request.parse_from_str("GET /a?x=1 HTTP/2\r\n\r\n");
    assert_eq!(request.full_path(), "/a?x=1");
    assert_eq!(request.path(), "/a");
    assert_eq!(request.version(), "HTTP/2");
}

#[test]
fn test_parse_empty_input_keeps_defaults() {
    let mut request: Request = Request::new();
    request.parse_from_str("");
    assert_eq!(*request.method(), Method::GET);
    assert_eq!(request.path(), "");
    assert_eq!(request.headers().len(), 0);
    assert_eq!(request.query().len(), 0);
    assert_eq!(request.body(), "");
}

#[test]
fn test_parse_malformed_request_line_keeps_defaults() {
    let mut request: Request = Request::new();
    request.parse_from_str("GET /\r\nHost: localhost\r\n\r\n");
    assert_eq!(*request.method(), Method::GET);
    assert_eq!(request.path(), "");
    assert_eq!(request.full_path(), "");
    assert_eq!(request.headers().len(), 1);
    assert_eq!(request.headers()[0].name(), "Host");
}

#[test]
fn test_parse_unknown_method_keeps_defaults() {
    let mut request: Request = Request::new();
    request.parse_from_str("FETCH / HTTP/1.1\r\nHost: localhost\r\n\r\n");
    assert_eq!(*request.method(), Method::GET);
    assert_eq!(request.path(), "");
    assert_eq!(request.full_path(), "");
    assert_eq!(request.headers().len(), 1);
}

#[test]
fn test_parse_malformed_query_pair_is_skipped() {
    let mut request: Request = Request::new();
    request.parse_from_str("GET /?a=1&bad&c=2 HTTP/1.1\r\n\r\n");
    assert_eq!(request.path(), "/");
    assert_eq!(request.query().len(), 2);
    assert_eq!(request.query()[0].name(), "a");
    assert_eq!(request.query()[0].value(), "1");
    assert_eq!(request.query()[1].name(), "c");
    assert_eq!(request.query()[1].value(), "2");
}

#[test]
fn test_parse_duplicate_header_first_wins() {
    let mut request: Request = Request::new();
    request.parse_from_str("GET / HTTP/1.1\r\nHost: one\r\nHOST: two\r\n\r\n");
    assert_eq!(request.headers().len(), 1);
    assert_eq!(request.headers()[0].name(), "Host");
    assert_eq!(request.headers()[0].value(), "one");
}

#[test]
fn test_parse_multi_line_body() {
    let mut request: Request = Request::new();
    request.parse_from_str("PUT / HTTP/1.1\r\nHost: x\r\n\r\nline1\r\nline2");
    assert_eq!(*request.method(), Method::PUT);
    assert_eq!(request.body(), "line1\r\nline2");
}

#[test]
fn test_parse_post_without_blank_line_has_no_body() {
    let mut request: Request = Request::new();
    request.parse_from_str("POST / HTTP/1.1\r\nHost: x");
    assert_eq!(*request.method(), Method::POST);
    assert_eq!(request.body(), "");
}

#[test]
fn test_parse_get_ignores_body_section() {
    let mut request: Request = Request::new();
    request.parse_from_str("GET / HTTP/1.1\r\nHost: x\r\n\r\nignored");
    assert_eq!(request.body(), "");
}
