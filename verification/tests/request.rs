use qz::body::Body;
use qz::header::HeaderName;
use qz::method::Method;
use qz::request::{ParseState, RequestBuffer};

#[test]
fn build_request() {
    let data = b"GET /~/index.html HTTP/1.1\r\n\r\n"
        .chunks(9)
        .map(|c| c.to_vec())
        .collect::<Vec<_>>();
    let mut request_buf = RequestBuffer::new();
    for message in data {
        match request_buf.try_parse(&message) {
            Ok(ParseState::Completed) => break,
            Ok(_) => continue,
            Err(err) => panic!("{:?}", err),
        }
    }
    let request = request_buf.complete();
    assert_eq!(&Method::Get, request.method());
    assert_eq!(b"/~/index.html", request.uri().as_bytes());
    assert_eq!(0, request.headers().len());
    assert_eq!(&Body::Absent, request.body());
}

#[test]
fn build_request_with_headers() {
    let data = b"GET /~/index.html HTTP/1.1\r\nAccept: */*\r\nHost: localhost:8080\r\n\r\n"
        .chunks(16)
        .map(|c| c.to_vec())
        .collect::<Vec<_>>();
    let mut request_buf = RequestBuffer::new();
    for message in data {
        match request_buf.try_parse(&message) {
            Ok(ParseState::Completed) => break,
            Ok(_) => continue,
            Err(_) => panic!(),
        }
    }
    let request = request_buf.complete();
    assert_eq!(&Method::Get, request.method());
    assert_eq!(b"/~/index.html", request.uri().as_bytes());
    assert_eq!(Some(&b"*/*".to_vec()), request.get_header(HeaderName::Accept));
    assert_eq!(
        Some(&b"localhost:8080".to_vec()),
        request.get_header(HeaderName::Host)
    );
    assert_eq!(&Body::Absent, request.body());
}

#[test]
fn build_request_with_large_chunk() {
    let data = b"GET /~/index.html HTTP/1.1\r\nAccept: */*\r\nHost: localhost:8080\r\nUser-Agent: curl\r\n"
        .chunks(64)
        .map(|c| c.to_vec())
        .collect::<Vec<_>>();
    let mut request_buf = RequestBuffer::new();
    for message in data {
        match request_buf.try_parse(&message) {
            Ok(ParseState::Completed) => break,
            Ok(_) => continue,
            Err(_) => panic!(),
        }
    }
    let request = request_buf.complete();
    assert_eq!(&Method::Get, request.method());
    assert_eq!(b"/~/index.html", request.uri().as_bytes());
    assert_eq!(Some(&b"*/*".to_vec()), request.get_header(HeaderName::Accept));
    assert_eq!(
        Some(&b"localhost:8080".to_vec()),
        request.get_header(HeaderName::Host)
    );
    assert_eq!(Some(&b"curl".to_vec()), request.get_header(HeaderName::UserAgent));
    assert_eq!(&Body::Absent, request.body());
}

#[test]
fn build_request_with_body() {
    let data = b"GET /~/index.html HTTP/1.1\r\nContent-Length: 13\r\n\r\nHello, World!"
        .chunks(64)
        .map(|c| c.to_vec())
        .collect::<Vec<_>>();
    let mut request_buf = RequestBuffer::new();
    for message in data {
        match request_buf.try_parse(&message) {
            Ok(ParseState::Completed) => break,
            Ok(_) => continue,
            Err(_) => panic!(),
        }
    }
    let request = request_buf.complete();
    assert_eq!(&Method::Get, request.method());
    assert_eq!(b"/~/index.html", request.uri().as_bytes());
    assert_eq!(Some(&b"13".to_vec()), request.get_header(HeaderName::ContentLength));
    assert_eq!(&Body::Present(b"Hello, World!".to_vec()), request.body());
}

#[test]
fn chunking_does_not_matter() {
    let raw = b"GET /a HTTP/1.1\r\nHost: h\r\nContent-Length: 3\r\n\r\nxyz";
    for size in [1usize, 2, 3, 5, 7, 11, 64] {
        let mut buf = RequestBuffer::new();
        for chunk in raw.chunks(size) {
            buf.try_parse(chunk).unwrap();
        }
        let request = buf.complete();
        assert_eq!(&Method::Get, request.method());
        assert_eq!(b"/a", request.uri().as_bytes());
        assert_eq!(Some(&b"h".to_vec()), request.get_header(HeaderName::Host));
        assert_eq!(&Body::Present(b"xyz".to_vec()), request.body());
    }
}

#[test]
fn bad_method_is_reported() {
    let mut buf = RequestBuffer::new();
    let r = buf.try_parse(b"BREW /pot HTTP/1.1\r\n\r\n");
    assert_eq!(Err(qz::status::StatusCode::MethodNotAllowed), r);
}

#[test]
fn bad_version_is_reported() {
    let mut buf = RequestBuffer::new();
    let r = buf.try_parse(b"GET /pot HTTP/2.0\r\n\r\n");
    assert_eq!(Err(qz::status::StatusCode::HttpVersionNotSupported), r);
}

#[test]
fn bad_content_length_is_reported() {
    let mut buf = RequestBuffer::new();
    let r = buf.try_parse(b"GET /a HTTP/1.1\r\nContent-Length: nine\r\n\r\n");
    assert_eq!(Err(qz::status::StatusCode::LengthRequired), r);
}

#[test]
fn missing_uri_slash_is_reported() {
    let mut buf = RequestBuffer::new();
    let r = buf.try_parse(b"GET index.html HTTP/1.1\r\n\r\n");
    assert_eq!(Err(qz::status::StatusCode::BadRequest), r);
}

#[test]
fn zero_length_body_is_present_and_empty() {
    let mut buf = RequestBuffer::new();
    let state = buf.try_parse(b"GET /a HTTP/1.1\r\nContent-Length: 0\r\n\r\n").unwrap();
    assert_eq!(ParseState::Completed, state);
    let request = buf.complete();
    assert_eq!(&Body::Present(Vec::new()), request.body());
}

#[test]
fn body_waits_for_all_bytes() {
    let mut buf = RequestBuffer::new();
    let state = buf.try_parse(b"GET /a HTTP/1.1\r\nContent-Length: 4\r\n\r\nab").unwrap();
    assert_eq!(ParseState::Headers, state);
    let state = buf.try_parse(b"cd").unwrap();
    assert_eq!(ParseState::Completed, state);
    assert_eq!(&Body::Present(b"abcd".to_vec()), buf.complete().body());
}

#[test]
fn last_header_write_wins() {
    let mut buf = RequestBuffer::new();
    buf.try_parse(b"GET /a HTTP/1.1\r\nHost: one\r\nHost: two\r\n\r\n").unwrap();
    let request = buf.complete();
    assert_eq!(Some(&b"two".to_vec()), request.get_header(HeaderName::Host));
}
