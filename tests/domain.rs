use filter_manager::domain::{is_subdomain, registrable_host};

#[test]
fn subdomain_reduces_to_registrable_domain() {
    assert_eq!(registrable_host("www.example.com"), "example.com");
    assert_eq!(registrable_host("a.b.example.co.uk"), "example.co.uk");
}

#[test]
fn registrable_domain_is_kept() {
    assert_eq!(registrable_host("example.com"), "example.com");
}

#[test]
fn bare_suffix_is_kept() {
    assert_eq!(registrable_host("com"), "com");
    assert_eq!(registrable_host("co.uk"), "co.uk");
}

#[test]
fn subdomain_detection() {
    assert!(is_subdomain("www.example.com"));
    assert!(is_subdomain("a.b.example.co.uk"));
    assert!(!is_subdomain("example.com"));
    assert!(!is_subdomain("com"));
}
