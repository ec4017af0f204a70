use http_request::method::Method;
use http_request::request::Request;

#[test]
fn test_render_uninitialized_placeholder() {
    let request: Request = Request::new();
    assert_eq!(request.render(), "Request read not initialized");
}

#[test]
fn test_render_full_request() {
    let mut request: Request = Request::new();
    request.set_method(Method::GET);
    request.set_path("/");
    request.add_header("Host", "x");
    request.add_query("a", "1");
    request.set_body("b");
    let expected = "\u{1b}[1mRequest:\u{1b}[0m\n  GET / HTTP/1.1\n\u{1b}[1mHeaders:\n\u{1b}[0m  \"Host\": \"x\"\r\n\u{1b}[1mQueries:\n\u{1b}[0m  \"a\" = \"1\"\n\u{1b}[1mBody:\n\u{1b}[0m  \"b\"";
    assert_eq!(request.render(), expected);
}

#[test]
fn test_render_omits_empty_sections() {
    let mut request: Request = Request::new();
    request.set_method(Method::GET);
    request.set_path("/");
    assert_eq!(request.render(), "\u{1b}[1mRequest:\u{1b}[0m\n  GET / HTTP/1.1\n");
}
