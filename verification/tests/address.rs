//! The `scheme://host:port/path` splitter of the HTTP client.
use harbor::http::{construct_url, preferred_default_port, try_construct_url, Scheme, URL};

#[test]
fn address_with_port_and_path() {
    let u = construct_url(String::from("http://example.com:8080/index.html")).unwrap();
    assert!(matches!(u.scheme, Scheme::HTTP));
    assert_eq!(u.host, "example.com");
    assert_eq!(u.port, Some(8080));
    assert_eq!(u.path, "/index.html");
    assert_eq!(u.reconstruct(), "http://example.com:8080/index.html");
}

#[test]
fn address_without_port_or_path() {
    let u = construct_url(String::from("https://example.com")).unwrap();
    assert!(matches!(u.scheme, Scheme::HTTPS));
    assert_eq!(u.host, "example.com");
    assert_eq!(u.port, None);
    assert_eq!(u.path, "/");
    assert_eq!(u.reconstruct(), "https://example.com/");
}

#[test]
fn address_with_own_port_loses_it_in_the_text() {
    let u = construct_url(String::from("https://a:443/x")).unwrap();
    assert_eq!(u.port, Some(443));
    assert_eq!(u.reconstruct(), "https://a/x");
}

#[test]
fn address_other_scheme() {
    assert!(construct_url(String::from("ftp://a/b")).is_none());
}

#[test]
fn address_that_would_panic() {
    assert!(try_construct_url(String::from("example.com")).is_none());
    assert!(try_construct_url(String::from("http://a:port/")).is_none());
    assert!(try_construct_url(String::from("http://a:70000")).is_none());
}

#[test]
fn default_ports() {
    assert_eq!(preferred_default_port(Scheme::HTTP), 80);
    assert_eq!(preferred_default_port(Scheme::HTTPS), 443);
    let u = URL::default();
    assert!(matches!(u.scheme, Scheme::HTTP));
    assert_eq!(u.reconstruct(), "http://");
}
