use http::HeaderMap;
use praxis::http_headers::{
    FieldName, FieldValue, InvalidFieldName, InvalidFieldValue, ToStrError, get_text,
};

#[test]
fn names_are_normalized() {
    assert_eq!(FieldName::from_bytes(b"X-Request-ID").unwrap().as_str(), "x-request-id");
    assert_eq!(FieldName::from_static("x-a").as_str(), "x-a");
    let name = FieldName::from_bytes(b"Host").unwrap();
    assert_eq!(name.clone().as_str(), "host");
}

#[test]
fn invalid_names_are_refused() {
    assert_eq!(FieldName::from_bytes(b"").unwrap_err(), InvalidFieldName);
    assert_eq!(FieldName::from_bytes(b"a b").unwrap_err(), InvalidFieldName);
    assert_eq!(FieldName::from_bytes(b"a:b").unwrap_err(), InvalidFieldName);
    assert_eq!(FieldName::from_bytes("\u{e9}".as_bytes()).unwrap_err(), InvalidFieldName);
}

#[test]
fn values_keep_their_bytes() {
    let value = FieldValue::from_str("a\tb").unwrap();
    assert_eq!(value.as_bytes(), b"a\tb");
    assert!(!value.is_sensitive());
    assert_eq!(value.to_str().unwrap(), "a\tb");
    let marked = value.with_sensitive(true);
    assert!(marked.is_sensitive());
    assert_eq!(marked.clone().as_bytes(), b"a\tb");
}

#[test]
fn invalid_values_are_refused() {
    assert_eq!(FieldValue::from_str("a\nb").unwrap_err(), InvalidFieldValue);
    assert_eq!(FieldValue::from_str("\u{7f}").unwrap_err(), InvalidFieldValue);
    assert_eq!(FieldValue::from_str("\u{e9}").unwrap().to_str().unwrap_err(), ToStrError);
}

#[test]
fn text_is_that_of_the_first_value() {
    let mut headers = HeaderMap::new();
    headers.append("x-a", "one".parse().unwrap());
    headers.append("x-a", "two".parse().unwrap());
    headers.insert("x-b", http::HeaderValue::from_bytes(b"\xff").unwrap());
    assert_eq!(get_text(&headers, "x-a").as_deref(), Some("one"));
    assert_eq!(get_text(&headers, "x-b"), None);
    assert_eq!(get_text(&headers, "x-c"), None);
}

#[test]
fn names_that_are_normalized_are_kept() {
    assert_eq!(FieldName::from_lowercase(b"x-a\"b").unwrap().as_str(), "x-a\"b");
    assert_eq!(FieldName::from_lowercase(b"X-A").unwrap_err(), InvalidFieldName);
    assert_eq!(FieldName::from_lowercase(b"").unwrap_err(), InvalidFieldName);
    assert_eq!(FieldName::from_lowercase(b"\xe9").unwrap_err(), InvalidFieldName);
}

#[test]
fn values_are_made_of_bytes() {
    assert_eq!(FieldValue::from_bytes(b"\xff\t ").unwrap().as_bytes(), b"\xff\t ");
    assert!(!FieldValue::from_bytes(b"").unwrap().is_sensitive());
    assert_eq!(FieldValue::from_bytes(b"a\x00").unwrap_err(), InvalidFieldValue);
    assert_eq!(FieldValue::from_bytes(b"\x7f").unwrap_err(), InvalidFieldValue);
}
