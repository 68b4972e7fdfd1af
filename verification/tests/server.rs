use qz::handler::Handler;
use qz::method::Method;
use qz::redirect::Redirect;
use qz::request::{ParseState, Request, RequestBuffer};
use qz::response::Response;
use qz::router::Router;
use qz::status::StatusCode;
use qz::Uri;

struct Hello;

impl Handler for Hello {
    fn call(&self, _request: Request) -> Result<Response, StatusCode> {
        Ok(Response::from_text("hello"))
    }
}

#[test]
fn hello_scenario() {
    // One request on the wire, from raw bytes to response bytes.
    let mut buffer = RequestBuffer::new();
    let state = buffer.try_parse(b"GET /hello HTTP/1.1\r\n\r\n").unwrap();
    assert_eq!(ParseState::Completed, state);
    let request = buffer.complete();

    let mut router: Router<usize> = Router::new();
    router.add_route(b"/hello", Method::Get, 0);
    let handlers: Vec<Box<dyn Handler>> = vec![Box::new(Hello)];
    let id = *router
        .find(request.uri().as_bytes(), *request.method())
        .unwrap();
    let response = handlers[id].call(request).unwrap();

    let bytes = response.to_bytes();
    assert!(bytes.starts_with(b"HTTP/1.1 200 OK\r\n"));
    let text = String::from_utf8(bytes.clone()).unwrap();
    assert!(text.contains("Content-Length: 5"));
    assert!(bytes.ends_with(b"hello"));
}

#[test]
fn redirect_handler() {
    let redirect = Redirect::new(Uri::new(b"http://example.com"));
    let response = redirect.call(Request::default()).unwrap();
    assert_eq!(StatusCode::Found, response.status_code());
    assert_eq!(
        Some(&b"http://example.com".to_vec()),
        response.get_header(&qz::header::HeaderName::Location)
    );
}

#[test]
fn unknown_route_and_method() {
    let mut router: Router<usize> = Router::new();
    router.add_route(b"/a", Method::Get, 0);
    assert_eq!(Err(StatusCode::NotFound), router.find(b"/b", Method::Get));
    assert_eq!(
        Err(StatusCode::MethodNotAllowed),
        router.find(b"/a", Method::Post)
    );
}

#[test]
fn redirect_variants() {
    let m = Redirect::moved_permanently(Uri::new(b"/a"));
    assert_eq!(
        StatusCode::MovedPermanently,
        m.call(Request::default()).unwrap().status_code()
    );
    let f = Redirect::found(Uri::new(b"/b"));
    assert_eq!(StatusCode::Found, f.call(Request::default()).unwrap().status_code());
    let s = Redirect::see_other(Uri::new(b"/c"));
    assert_eq!(StatusCode::SeeOther, s.call(Request::default()).unwrap().status_code());
}
