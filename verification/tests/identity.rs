use admission_control::identity::{extract_client_key, key_chars_valid, unknown_key, ClientKey};

#[test]
fn valid_keys_accepted() {
    assert!(key_chars_valid("192.168.0.1"));
    assert!(key_chars_valid("2001:db8::1"));
    assert!(key_chars_valid("a"));
    let k = ClientKey::new("192.168.0.1").unwrap();
    assert_eq!(k.as_str(), "192.168.0.1");
}

#[test]
fn invalid_keys_rejected() {
    assert!(!key_chars_valid(""));
    assert!(!key_chars_valid("has space"));
    assert!(!key_chars_valid("tab\there"));
    assert!(!key_chars_valid("newline\n"));
    assert!(!key_chars_valid("caf\u{e9}")); // non-ASCII
    assert!(ClientKey::new("").is_none());
    assert!(ClientKey::new("two words").is_none());
}

#[test]
fn extraction_precedence() {
    // forwarded value present and valid: taken
    let k = extract_client_key(Some("203.0.113.9"), Some("198.51.100.1"));
    assert_eq!(k.as_str(), "203.0.113.9");
    // forwarded missing: the peer address is taken
    let k = extract_client_key(None, Some("198.51.100.1"));
    assert_eq!(k.as_str(), "198.51.100.1");
    // forwarded present but invalid: the peer address is taken
    let k = extract_client_key(Some("not an address"), Some("198.51.100.1"));
    assert_eq!(k.as_str(), "198.51.100.1");
    // nothing usable: the sentinel
    let k = extract_client_key(None, None);
    assert_eq!(k.as_str(), "unknown");
    let k = extract_client_key(Some(""), Some(""));
    assert_eq!(k.as_str(), "unknown");
}

#[test]
fn sentinel_key_value() {
    let k = unknown_key();
    assert_eq!(k.as_str(), "unknown");
}

#[test]
fn key_equality_is_exact() {
    let a = ClientKey::new("10.0.0.1").unwrap();
    let b = ClientKey::new("10.0.0.1").unwrap();
    let c = ClientKey::new("10.0.0.2").unwrap();
    assert!(a.same_client(&b));
    assert!(!a.same_client(&c));
    let d = a.duplicate();
    assert!(a.same_client(&d));
}
