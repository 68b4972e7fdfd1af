use qz::body::Body;
use qz::header::HeaderName;
use qz::response::{parse_status_line, Response};
use qz::status::StatusCode;

#[test]
fn response_from_str() {
    let response = Response::from_text("Hello, World!");
    assert_eq!(StatusCode::OK, response.status_code());
    assert_eq!(
        Some(&b"13".to_vec()),
        response.get_header(&HeaderName::ContentLength)
    );
    assert_eq!(
        Some(&b"text/plain".to_vec()),
        response.get_header(&HeaderName::ContentType)
    );
    assert_eq!(&Body::Present(b"Hello, World!".to_vec()), response.body());
}

#[test]
fn response_from_status_code() {
    let response = Response::from_status(StatusCode::NotFound);
    assert_eq!(StatusCode::NotFound, response.status_code());
    assert_eq!(0, response.headers().len());
    assert_eq!(&Body::Absent, response.body());
}

#[test]
fn status_line_round_trip() {
    let bytes = Response::from_status(StatusCode::NotFound).to_bytes();
    let (code, phrase) = parse_status_line(&bytes).unwrap();
    assert_eq!(404, code);
    assert_eq!(b"Not Found".to_vec(), phrase);
}

#[test]
fn serialized_shape() {
    let response = Response::from_text("hi");
    let bytes = response.to_bytes();
    assert!(bytes.starts_with(b"HTTP/1.1 200 OK\r\n"));
    assert!(bytes.ends_with(b"\r\n\r\nhi"));
    let text = String::from_utf8(bytes).unwrap();
    assert!(text.contains("Content-Length: 2\r\n"));
    assert!(text.contains("Content-Type: text/plain\r\n"));
}

#[test]
fn status_codes_and_phrases() {
    assert_eq!(200, StatusCode::OK.code());
    assert_eq!(411, StatusCode::LengthRequired.code());
    assert_eq!(b"I'm a teapot".to_vec(), StatusCode::IMATeapot.reason_phrase());
    assert_eq!(vec![b'4', b'0', b'5'], StatusCode::MethodNotAllowed.as_bytes());
}
