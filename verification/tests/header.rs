use qz::header::HeaderName;

#[test]
fn header_name_case_insensitive() {
    assert_eq!(HeaderName::Accept, HeaderName::from_bytes(b"accept"));
}

#[test]
fn header_name_canonical_bytes() {
    assert_eq!(b"Content-Length".to_vec(), HeaderName::ContentLength.as_bytes());
    assert_eq!(HeaderName::ContentLength, HeaderName::from_bytes(b"CONTENT-LENGTH"));
    assert_eq!(HeaderName::Unknown, HeaderName::from_bytes(b"x-custom"));
}
