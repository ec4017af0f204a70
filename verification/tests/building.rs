use http_request::method::Method;
use http_request::request::Request;

#[test]
fn test_build() {
    let mut request: Request = Request::new();
    request.set_method(Method::POST);
    request.set_path("/");
    request.add_header("Host", "localhost");
    request.add_header("Host", "localhost2");
    request.set_header("Content-Type", "plain");
    request.add_query("name", "value");
    request.add_query("name", "value2");
    request.set_query("name2", "value");
    request.set_body("body");
    assert_eq!(
        request.build(),
        "POST /?name=value2&name2=value HTTP/1.1\r\nHost: localhost2\r\nContent-Type: plain\r\n\r\nbody"
    );
}

#[test]
fn test_build_without_query_or_headers() {
    let mut request: Request = Request::new();
    request.set_method(Method::GET);
    request.set_path("/");
    assert_eq!(request.build(), "GET / HTTP/1.1\r\n\r\n");
}

#[test]
fn test_build_ignores_full_path_snapshot() {
    let mut request: Request = Request::new();
    request.parse_from_str("GET /old?a=1 HTTP/1.1\r\n\r\n");
    request.set_path("/new");
    assert_eq!(request.full_path(), "/old?a=1");
    assert_eq!(request.build(), "GET /new?a=1 HTTP/1.1\r\n\r\n");
}

#[test]
fn test_parse_of_built_text_round_trips() {
    let mut request: Request = Request::new();
    request.set_method(Method::POST);
    request.set_path("/items");
    request.add_header("Host", "localhost");
    request.add_header("Content-Type", "plain");
    request.add_query("name", "value");
    request.add_query("other", "thing");
    request.set_body("body");

    let text = request.build();
    let mut reparsed: Request = Request::new();
    reparsed.parse_from_str(text.as_str());

    assert_eq!(*reparsed.method(), Method::POST);
    assert_eq!(reparsed.path(), "/items");
    assert_eq!(reparsed.headers().len(), 2);
    assert_eq!(reparsed.headers()[0].name(), "Host");
    assert_eq!(reparsed.headers()[0].value(), "localhost");
    assert_eq!(reparsed.headers()[1].name(), "Content-Type");
    assert_eq!(reparsed.headers()[1].value(), "plain");
    assert_eq!(reparsed.query().len(), 2);
    assert_eq!(reparsed.query()[0].name(), "name");
    assert_eq!(reparsed.query()[0].value(), "value");
    assert_eq!(reparsed.query()[1].name(), "other");
    assert_eq!(reparsed.query()[1].value(), "thing");
    assert_eq!(reparsed.body(), "body");
}

#[test]
fn test_mutators_latch_and_overwrite() {
    let mut request: Request = Request::new();
    request.set_version("HTTP/1.0");
    request.set_full_path("/x?y=z".to_string());
    request.set_body("data");
    assert_eq!(request.version(), "HTTP/1.0");
    assert_eq!(request.full_path(), "/x?y=z");
    assert_eq!(request.body(), "data");
}
