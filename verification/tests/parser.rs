use qz::header::HeaderName;
use qz::method::Method;
use qz::parser::Parser;
use qz::{Uri, Version};

#[test]
fn read_char() {
    let mut p = Parser::new(&[42, 43]);
    assert_eq!(Some(b'*'), p.consume());
    assert_eq!(Some(b'+'), p.consume());
    assert_eq!(None, p.consume());
}

#[test]
fn read_until_delim() {
    let bytes = "GET /index.html HTTP/1.1\r\n".as_bytes();
    let mut p = Parser::new(bytes);
    assert_eq!(Some("GET".as_bytes()), p.read_until(b' '));
    assert_eq!(Some("/index.html".as_bytes()), p.read_until(b' '));
    assert_eq!(Some("HTTP/1.1".as_bytes()), p.read_until(b'\r'));
}

#[test]
fn read_until_empty() {
    let mut p = Parser::new(&[]);
    assert_eq!(None, p.read_until(b' '));
}

#[test]
fn parse_request_line() {
    let bytes = "GET /index.html HTTP/1.1\r\n".as_bytes();
    let mut p = Parser::new(bytes);
    let (method, uri, version) = p.parse_request_line().unwrap();
    assert_eq!(Method::Get, method);
    assert_eq!(Uri::new(b"/index.html"), uri);
    assert_eq!(Version::OneDotOne, version);
}

#[test]
fn parse_method() {
    let bytes = "GET /index.html HTTP/1.1\r\n".as_bytes();
    let mut p = Parser::new(bytes);
    assert_eq!(Ok(Method::Get), p.parse_method());
}

#[test]
fn parse_uri() {
    let bytes = "/index.html HTTP/1.1\r\n".as_bytes();
    let mut p = Parser::new(bytes);
    assert_eq!(Ok(Uri::new(b"/index.html")), p.parse_uri());
}

#[test]
fn parse_version() {
    let bytes = "HTTP/1.1\r\n".as_bytes();
    let mut p = Parser::new(bytes);
    assert_eq!(Ok(Version::OneDotOne), p.parse_version());
}

#[test]
fn parse_header() {
    let bytes = b"Accept: */*\r\n";
    let mut p = Parser::new(bytes);
    assert_eq!(Ok((HeaderName::Accept, b"*/*".to_vec())), p.parse_header());
}
