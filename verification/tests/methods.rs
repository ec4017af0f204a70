use http_request::method::Method;

#[test]
fn test_display() {
    assert_eq!(Method::GET.to_text(), "GET");
    assert_eq!(Method::POST.to_text(), "POST");
    assert_eq!(Method::PUT.to_text(), "PUT");
    assert_eq!(Method::DELETE.to_text(), "DELETE");
    assert_eq!(Method::HEAD.to_text(), "HEAD");
    assert_eq!(Method::OPTIONS.to_text(), "OPTIONS");
    assert_eq!(Method::CONNECT.to_text(), "CONNECT");
    assert_eq!(Method::TRACE.to_text(), "TRACE");
    assert_eq!(Method::PATCH.to_text(), "PATCH");
}

#[test]
fn test_from_text_round_trip() {
    let methods = [
        Method::GET,
        Method::POST,
        Method::PUT,
        Method::DELETE,
        Method::HEAD,
        Method::OPTIONS,
        Method::CONNECT,
        Method::TRACE,
        Method::PATCH,
    ];
    for m in methods {
        assert_eq!(Method::from_text(m.to_text()), Some(m));
    }
}

#[test]
fn test_from_text_rejects_unknown_tokens() {
    assert_eq!(Method::from_text("get"), None);
    assert_eq!(Method::from_text("GETT"), None);
    assert_eq!(Method::from_text(""), None);
    assert_eq!(Method::from_text("FETCH"), None);
}
