use std::cell::Cell;

use qz::body::Body;
use qz::handler::Handler;
use qz::header::HeaderName;
use qz::method::Method;
use qz::middleware::{BasicAuth, Cors, Middleware, MiddlewareChain, Origin, Step};
use qz::request::Request;
use qz::response::Response;
use qz::status::StatusCode;
use qz::Uri;

/// A middleware that stamps one header on the request going in and one on
/// the response going out.
struct Stamp {
    request_name: HeaderName,
    request_value: &'static [u8],
    response_name: HeaderName,
    response_value: &'static [u8],
}

impl Middleware for Stamp {
    fn enter(&self, mut request: Request) -> Step {
        request.set_header(self.request_name, self.request_value.to_vec());
        Step::Forward(request)
    }

    fn leave(&self, _request: &Request, mut response: Response) -> Response {
        response.set_header(self.response_name, self.response_value.to_vec());
        response
    }
}

/// A handler that echoes the headers it saw and counts its calls.
struct Probe {
    calls: Cell<u32>,
}

impl Handler for Probe {
    fn call(&self, request: Request) -> Result<Response, StatusCode> {
        self.calls.set(self.calls.get() + 1);
        let mut response = Response::from_text("hello");
        if let Some(v) = request.get_header(HeaderName::Accept) {
            let v = v.clone();
            response.set_header(HeaderName::Accept, v);
        }
        if let Some(v) = request.get_header(HeaderName::Host) {
            let v = v.clone();
            response.set_header(HeaderName::Host, v);
        }
        Ok(response)
    }
}

#[test]
fn middleware_chain_handler_only() {
    let chain: MiddlewareChain<Stamp> = MiddlewareChain::new();
    let probe = Probe { calls: Cell::new(0) };
    let response = chain.run(Request::default(), &probe);
    assert_eq!(&Body::Present(b"hello".to_vec()), response.body());
    assert_eq!(1, probe.calls.get());
}

#[test]
fn middleware_chain() {
    let mut chain: MiddlewareChain<Stamp> = MiddlewareChain::new();
    chain.push(Stamp {
        request_name: HeaderName::Accept,
        request_value: b"*/*",
        response_name: HeaderName::Unknown,
        response_value: b"hello",
    });
    chain.push(Stamp {
        request_name: HeaderName::Host,
        request_value: b"localhost",
        response_name: HeaderName::Location,
        response_value: b"example.com",
    });
    let probe = Probe { calls: Cell::new(0) };
    let response = chain.run(Request::default(), &probe);
    // Both request stamps were visible to the handler.
    assert_eq!(Some(&b"*/*".to_vec()), response.get_header(&HeaderName::Accept));
    assert_eq!(Some(&b"localhost".to_vec()), response.get_header(&HeaderName::Host));
    // Both response stamps were applied on the way out.
    assert_eq!(Some(&b"hello".to_vec()), response.get_header(&HeaderName::Unknown));
    assert_eq!(
        Some(&b"example.com".to_vec()),
        response.get_header(&HeaderName::Location)
    );
    assert_eq!(1, probe.calls.get());
}

#[test]
fn simple_basic_auth() {
    let mut chain: MiddlewareChain<BasicAuth> = MiddlewareChain::new();
    chain.push(BasicAuth::new(b"user", b"pass", Uri::new(b"/")));
    let request = Request::builder()
        .set_header(HeaderName::Authorization, b"Basic dXNlcjpwYXNz".to_vec())
        .build();
    let probe = Probe { calls: Cell::new(0) };
    let response = chain.run(request, &probe);
    assert_eq!(StatusCode::OK, response.status_code());
    assert_eq!(1, probe.calls.get());
}

#[test]
fn not_protected_by_basic_auth() {
    let mut chain: MiddlewareChain<BasicAuth> = MiddlewareChain::new();
    chain.push(BasicAuth::new(b"user", b"pass", Uri::new(b"/example")));
    let probe = Probe { calls: Cell::new(0) };
    let response = chain.run(Request::default(), &probe);
    assert_eq!(StatusCode::OK, response.status_code());
}

#[test]
fn fail_basic_auth() {
    let mut chain: MiddlewareChain<BasicAuth> = MiddlewareChain::new();
    chain.push(BasicAuth::new(b"user", b"pass", Uri::new(b"/")));
    let request = Request::builder()
        .set_header(HeaderName::Authorization, b"Basic wrong_hash".to_vec())
        .build();
    let probe = Probe { calls: Cell::new(0) };
    let response = chain.run(request, &probe);
    assert_eq!(StatusCode::Unauthorized, response.status_code());
    assert_eq!(
        Some(&b"Basic".to_vec()),
        response.get_header(&HeaderName::WwwAuthenticate)
    );
    // The short-circuit kept the handler from running.
    assert_eq!(0, probe.calls.get());
}

#[test]
fn simple_request_any_origin() {
    let mut chain: MiddlewareChain<Cors> = MiddlewareChain::new();
    chain.push(Cors::new());
    let request = Request::builder()
        .set_header(HeaderName::Origin, b"localhost:3000".to_vec())
        .build();
    let probe = Probe { calls: Cell::new(0) };
    let response = chain.run(request, &probe);
    assert_eq!(StatusCode::OK, response.status_code());
    assert_eq!(
        Some(&b"*".to_vec()),
        response.get_header(&HeaderName::AccessControlAllowOrigin)
    );
}

#[test]
fn simple_request_specific_origin() {
    let mut chain: MiddlewareChain<Cors> = MiddlewareChain::new();
    chain.push(Cors::new().allow_origin(Origin::from_bytes(b"localhost:3000")));
    let request = Request::builder()
        .set_header(HeaderName::Origin, b"localhost:3000".to_vec())
        .build();
    let probe = Probe { calls: Cell::new(0) };
    let response = chain.run(request, &probe);
    assert_eq!(StatusCode::OK, response.status_code());
    assert_eq!(
        Some(&b"localhost:3000".to_vec()),
        response.get_header(&HeaderName::AccessControlAllowOrigin)
    );
}

#[test]
fn simple_request_without_origin_header() {
    let mut chain: MiddlewareChain<Cors> = MiddlewareChain::new();
    chain.push(Cors::new().allow_origin(Origin::from_bytes(b"localhost:3000")));
    let probe = Probe { calls: Cell::new(0) };
    let response = chain.run(Request::default(), &probe);
    assert_eq!(StatusCode::OK, response.status_code());
}

#[test]
fn handle_preflight_request() {
    let mut chain: MiddlewareChain<Cors> = MiddlewareChain::new();
    chain.push(Cors::new().allow_origin(Origin::from_bytes(b"localhost:3000")));
    let request = Request::builder()
        .set_method(Method::Options)
        .set_header(HeaderName::Origin, b"localhost:3000".to_vec())
        .build();
    let probe = Probe { calls: Cell::new(0) };
    let response = chain.run(request, &probe);
    assert_eq!(StatusCode::OK, response.status_code());
    assert_eq!(
        Some(&b"localhost:3000".to_vec()),
        response.get_header(&HeaderName::AccessControlAllowOrigin)
    );
    assert_eq!(
        Some(&b"POST, GET, OPTIONS".to_vec()),
        response.get_header(&HeaderName::AccessControlAllowMethods)
    );
    assert_eq!(
        Some(&b"*".to_vec()),
        response.get_header(&HeaderName::AccessControlAllowHeaders)
    );
    assert_eq!(
        Some(&b"86400".to_vec()),
        response.get_header(&HeaderName::AccessControlAllowMaxAge)
    );
    assert_eq!(0, probe.calls.get());
}
