use xproxy::uri::{Uri, UriKind};

#[test]
fn test_uri_absolute_address() {
    let uri = Uri::new("http://example.com/path".to_string());
    assert_eq!(uri.kind(), UriKind::AbsoluteAddress);
    assert_eq!(uri.scheme.as_deref(), Some("http://"));
    assert_eq!(uri.host.as_deref(), Some("example.com"));
    assert_eq!(uri.port, Some(80));
    assert_eq!(uri.path.as_deref(), Some("/path"));
    assert_eq!(uri.query, None);
    assert_eq!(uri.path_and_query, uri.path);
}

#[test]
fn test_uri_absolute_address_with_query() {
    let uri = Uri::new("http://example.com/path?query=something".to_string());
    assert_eq!(uri.kind(), UriKind::AbsoluteAddress);
    assert_eq!(uri.scheme.as_deref(), Some("http://"));
    assert_eq!(uri.host.as_deref(), Some("example.com"));
    assert_eq!(uri.port, Some(80));
    assert_eq!(uri.path.as_deref(), Some("/path"));
    assert_eq!(uri.query.as_deref(), Some("query=something"));
    assert_eq!(uri.path_and_query.as_deref(), Some("/path?query=something"));
}

#[test]
fn test_uri_absolute_address_with_port() {
    let uri = Uri::new("https://example.com:8443/path?query=something".to_string());
    assert_eq!(uri.kind(), UriKind::AbsoluteAddress);
    assert_eq!(uri.scheme.as_deref(), Some("https://"));
    assert_eq!(uri.host.as_deref(), Some("example.com"));
    assert_eq!(uri.port, Some(8443));
    assert_eq!(uri.path.as_deref(), Some("/path"));
    assert_eq!(uri.query.as_deref(), Some("query=something"));
    assert_eq!(uri.path_and_query.as_deref(), Some("/path?query=something"));
}

#[test]
fn test_uri_relative_address() {
    let uri = Uri::new("example.com/path?query=something".to_string());
    assert_eq!(uri.kind(), UriKind::RelativeAddress);
    assert_eq!(uri.scheme, None);
    assert_eq!(uri.host.as_deref(), Some("example.com"));
    assert_eq!(uri.port, None);
    assert_eq!(uri.path.as_deref(), Some("/path"));
    assert_eq!(uri.query.as_deref(), Some("query=something"));
    assert_eq!(uri.path_and_query.as_deref(), Some("/path?query=something"));
}

#[test]
fn test_uri_absolute_path() {
    let uri = Uri::new("/path/to/resource".to_string());
    assert_eq!(uri.kind(), UriKind::AbsolutePath);
    assert_eq!(uri.scheme, None);
    assert_eq!(uri.host, None);
    assert_eq!(uri.port, None);
    assert_eq!(uri.path.as_deref(), Some("/path/to/resource"));
    assert_eq!(uri.query, None);
    assert_eq!(uri.path_and_query.as_deref(), Some("/path/to/resource"));
}

#[test]
fn test_uri_absolute_path_with_query() {
    let uri = Uri::new("/path/to/resource?query=something".to_string());
    assert_eq!(uri.kind(), UriKind::AbsolutePath);
    assert_eq!(uri.scheme, None);
    assert_eq!(uri.host, None);
    assert_eq!(uri.port, None);
    assert_eq!(uri.path.as_deref(), Some("/path/to/resource"));
    assert_eq!(uri.query.as_deref(), Some("query=something"));
    assert_eq!(
        uri.path_and_query.as_deref(),
        Some("/path/to/resource?query=something")
    );
}

#[test]
fn test_uri_invalid() {
    let uri = Uri::new("not_a_valid_uri".to_string());
    assert_eq!(uri.kind(), UriKind::Invalid);
    assert_eq!(uri.scheme, None);
    assert_eq!(uri.host, None);
    assert_eq!(uri.port, None);
    assert_eq!(uri.path, None);
    assert_eq!(uri.query, None);
    assert_eq!(uri.path_and_query, None);
}

#[test]
fn test_uri_scheme_inferred_port_http_vs_https() {
    let http = Uri::new("http://example.com/".to_string());
    assert_eq!(http.port, Some(80));
    let https = Uri::new("https://example.com/".to_string());
    assert_eq!(https.port, Some(443));
}

#[test]
fn test_uri_explicit_port_not_overridden_by_scheme() {
    let uri = Uri::new("http://example.com:8081/p".to_string());
    assert_eq!(uri.port, Some(8081));
}

#[test]
fn test_uri_malformed_port_is_absent() {
    let with_letters = Uri::new("http://example.com:abc/p".to_string());
    assert_eq!(with_letters.port, None);
    let too_large = Uri::new("http://example.com:99999/p".to_string());
    assert_eq!(too_large.port, None);
    let empty = Uri::new("http://example.com:/p".to_string());
    assert_eq!(empty.port, None);
}

#[test]
fn test_uri_port_without_scheme_is_absolute_address() {
    let uri = Uri::new("example.com:8080/p".to_string());
    assert_eq!(uri.kind(), UriKind::AbsoluteAddress);
    assert_eq!(uri.scheme, None);
    assert_eq!(uri.port, Some(8080));
    assert_eq!(uri.host.as_deref(), Some("example.com"));
}

#[test]
fn test_uri_host_needs_a_dot() {
    let uri = Uri::new("localhost/p".to_string());
    assert_eq!(uri.host, None);
    assert_eq!(uri.kind(), UriKind::AbsolutePath);
    assert_eq!(uri.path.as_deref(), Some("/p"));
}

#[test]
fn test_host_and_port() {
    let uri = Uri::new("https://example.com:8443/x".to_string());
    assert_eq!(uri.host_and_port().as_deref(), Some("example.com:8443"));
    let inferred = Uri::new("http://example.com/x".to_string());
    assert_eq!(inferred.host_and_port().as_deref(), Some("example.com:80"));
    let none = Uri::new("/x".to_string());
    assert_eq!(none.host_and_port(), None);
}

#[test]
fn test_same_host_as() {
    let a = Uri::new("http://example.com/a".to_string());
    let b = Uri::new("http://example.com/b?q=1".to_string());
    let path_only = Uri::new("/c".to_string());
    let other_port = Uri::new("http://example.com:8081/a".to_string());
    let other_host = Uri::new("http://example.org/a".to_string());
    assert!(a.same_host_as(&b));
    assert!(a.same_host_as(&path_only));
    assert!(!a.same_host_as(&other_port));
    assert!(!a.same_host_as(&other_host));
}

#[test]
fn test_update_references_recomputes_fields() {
    let mut uri = Uri::new("http://example.com/a".to_string());
    uri.uri = "https://example.org:444/b?x=2".to_string();
    uri.update_references();
    assert_eq!(uri.scheme.as_deref(), Some("https://"));
    assert_eq!(uri.host.as_deref(), Some("example.org"));
    assert_eq!(uri.port, Some(444));
    assert_eq!(uri.path.as_deref(), Some("/b"));
    assert_eq!(uri.query.as_deref(), Some("x=2"));
    assert_eq!(uri.path_and_query.as_deref(), Some("/b?x=2"));
}
