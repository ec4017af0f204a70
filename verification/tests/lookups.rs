use http_request::request::Request;

#[test]
fn test_add_header_degrades_to_update() {
    let mut request: Request = Request::new();
    request.add_header("Host", "a");
    request.add_header("Host", "b");
    request.set_header("Content-Type", "plain");
    assert_eq!(request.headers().len(), 2);
    assert_eq!(request.headers()[0].name(), "Host");
    assert_eq!(request.headers()[0].value(), "b");
    assert_eq!(request.headers()[1].name(), "Content-Type");
    assert_eq!(request.headers()[1].value(), "plain");
}

#[test]
fn test_set_header_keeps_stored_casing_and_position() {
    let mut request: Request = Request::new();
    request.add_header("Host", "a");
    request.add_header("Accept", "everything");
    request.set_header("HOST", "b");
    assert_eq!(request.headers().len(), 2);
    assert_eq!(request.headers()[0].name(), "Host");
    assert_eq!(request.headers()[0].value(), "b");
}

#[test]
fn test_find_header_is_case_insensitive() {
    let mut request: Request = Request::new();
    request.add_header("Host", "localhost");
    let found = request.find_header("HOST");
    assert!(found.is_some());
    assert_eq!(found.unwrap().name(), "Host");
    assert_eq!(found.unwrap().value(), "localhost");
    assert!(request.find_header("Missing").is_none());
}

#[test]
fn test_find_query_is_case_sensitive() {
    let mut request: Request = Request::new();
    request.add_query("name", "value");
    assert!(request.find_query("Name").is_none());
    let found = request.find_query("name");
    assert!(found.is_some());
    assert_eq!(found.unwrap().value(), "value");
}

#[test]
fn test_set_query_updates_in_place() {
    let mut request: Request = Request::new();
    request.add_query("a", "1");
    request.add_query("b", "2");
    request.set_query("a", "9");
    assert_eq!(request.query().len(), 2);
    assert_eq!(request.query()[0].name(), "a");
    assert_eq!(request.query()[0].value(), "9");
    assert_eq!(request.query()[1].name(), "b");
    assert_eq!(request.query()[1].value(), "2");
}

#[test]
fn test_content_lookups_use_exact_lowercase_names() {
    let mut request: Request = Request::new();
    request.add_header("Content-Type", "plain");
    assert_eq!(request.content_type(), None);
    request.add_header("content-type", "json");
    assert_eq!(request.content_type(), None);

    let mut lower: Request = Request::new();
    lower.add_header("content-type", "plain");
    lower.add_header("content-length", "5");
    assert_eq!(lower.content_type(), Some("plain".to_string()));
    assert_eq!(lower.content_length(), Some("5".to_string()));
}
