use http_request::header::Header;
use http_request::query::Query;

#[test]
fn test_new() {
    let header: Header = Header::new("name".to_string(), "value".to_string());
    assert_eq!(header.name(), "name");
    assert_eq!(header.value(), "value");
}

#[test]
fn lib_test_new() {
    let query: Query = Query::new("name".to_string(), "value".to_string());
    assert_eq!(query.name(), "name");
    assert_eq!(query.value(), "value");
}

#[test]
fn test_pair_setters() {
    let mut header: Header = Header::new("a".to_string(), "b".to_string());
    header.set_name("c".to_string());
    header.set_value("d".to_string());
    assert_eq!(header.name(), "c");
    assert_eq!(header.value(), "d");

    let mut query: Query = Query::new("a".to_string(), "b".to_string());
    query.set_name("c".to_string());
    query.set_value("d".to_string());
    assert_eq!(query.name(), "c");
    assert_eq!(query.value(), "d");
}
