//! Cross-origin resource sharing: validating the `Origin` header,
//! answering preflight requests, and stamping responses with the allowed
//! origin.
use vstd::prelude::*;

use crate::bytes::{bytes_eq, clone_bytes};
use crate::header::{seq_get, seq_set, HeaderEntry, HeaderName, HeaderValue};
use crate::method::Method;
use crate::middleware::{Middleware, Step};
use crate::request::{Request, RequestView};
use crate::response::{status_response_view, Response, ResponseView};
use crate::status::StatusCode;

verus! {

/// Represents an origin. For simplicity, multiple origins are not
/// supported.
#[derive(Debug)]
pub enum Origin {
    /// Wildcard: any origin.
    Any,
    /// One origin.
    Single(Vec<u8>),
}

impl Origin {
    /// `None` stands for any origin.
    pub open spec fn view(&self) -> Option<Seq<u8>> {
        match self {
            Origin::Any => None,
            Origin::Single(v) => Some(v@),
        }
    }

    /// Parse an origin; a lone `*` means any.
    pub fn from_bytes(v: &[u8]) -> (r: Self)
        ensures
            v@ == seq!['*' as u8] ==> r@ is None,
            v@ != seq!['*' as u8] ==> r@ == Some(v@),
    {
        let mut star: Vec<u8> = Vec::new();
        star.push('*' as u8);
        proof {
            assert(star@ =~= seq!['*' as u8]);
        }
        if bytes_eq(v, star.as_slice()) {
            Origin::Any
        } else {
            Origin::Single(clone_bytes(v))
        }
    }

    /// The bytes this origin is advertised as.
    pub fn as_bytes(&self) -> (r: Vec<u8>)
        ensures
            r@ == origin_bytes(self@),
    {
        match self {
            Origin::Any => {
                let mut v: Vec<u8> = Vec::new();
                v.push('*' as u8);
                proof {
                    assert(v@ =~= seq!['*' as u8]);
                }
                v
            },
            Origin::Single(v) => clone_bytes(v.as_slice()),
        }
    }
}

/// The bytes an allowed origin is advertised as: `*` for any.
pub open spec fn origin_bytes(o: Option<Seq<u8>>) -> Seq<u8> {
    match o {
        None => seq!['*' as u8],
        Some(v) => v,
    }
}

/// The mathematical content of a CORS policy.
pub ghost struct CorsView {
    pub allow_origin: Option<Seq<u8>>,
    pub allow_methods: Seq<u8>,
    pub allow_headers: Seq<u8>,
    pub max_age: Seq<u8>,
}

/// Middleware to handle cross-origin requests.
#[derive(Debug)]
pub struct Cors {
    allow_origin: Origin,
    allow_methods: HeaderValue,
    allow_headers: HeaderValue,
    max_age: HeaderValue,
}

/// The default policy: any origin, the three supported methods, any
/// header, one day of caching.
pub open spec fn default_cors_view() -> CorsView {
    CorsView {
        allow_origin: None,
        allow_methods: seq![
            'P' as u8, 'O' as u8, 'S' as u8, 'T' as u8, ',' as u8, ' ' as u8, 'G' as u8,
            'E' as u8, 'T' as u8, ',' as u8, ' ' as u8, 'O' as u8, 'P' as u8, 'T' as u8,
            'I' as u8, 'O' as u8, 'N' as u8, 'S' as u8,
        ],
        allow_headers: seq!['*' as u8],
        max_age: seq!['8' as u8, '6' as u8, '4' as u8, '0' as u8, '0' as u8],
    }
}

/// Is a request's origin acceptable under the policy?
pub open spec fn origin_allowed(c: CorsView, origin: Seq<u8>) -> bool {
    match c.allow_origin {
        None => true,
        Some(v) => v == origin,
    }
}

/// The answer to a preflight request: the policy, spelled out in four
/// headers.
pub open spec fn preflight_view(c: CorsView) -> ResponseView {
    ResponseView {
        headers: seq_set(
            seq_set(
                seq_set(
                    seq_set(
                        Seq::<HeaderEntry>::empty(),
                        HeaderName::AccessControlAllowOrigin,
                        origin_bytes(c.allow_origin),
                    ),
                    HeaderName::AccessControlAllowMethods,
                    c.allow_methods,
                ),
                HeaderName::AccessControlAllowHeaders,
                c.allow_headers,
            ),
            HeaderName::AccessControlAllowMaxAge,
            c.max_age,
        ),
        ..status_response_view(StatusCode::OK)
    }
}

impl Cors {
    pub closed spec fn view(&self) -> CorsView {
        CorsView {
            allow_origin: self.allow_origin@,
            allow_methods: self.allow_methods@,
            allow_headers: self.allow_headers@,
            max_age: self.max_age@,
        }
    }

    pub fn new() -> (r: Self)
        ensures
            r@ == default_cors_view(),
    {
        let mut methods: Vec<u8> = Vec::new();
        methods.push('P' as u8);
        methods.push('O' as u8);
        methods.push('S' as u8);
        methods.push('T' as u8);
        methods.push(',' as u8);
        methods.push(' ' as u8);
        methods.push('G' as u8);
        methods.push('E' as u8);
        methods.push('T' as u8);
        methods.push(',' as u8);
        methods.push(' ' as u8);
        methods.push('O' as u8);
        methods.push('P' as u8);
        methods.push('T' as u8);
        methods.push('I' as u8);
        methods.push('O' as u8);
        methods.push('N' as u8);
        methods.push('S' as u8);
        let mut headers: Vec<u8> = Vec::new();
        headers.push('*' as u8);
        let mut max_age: Vec<u8> = Vec::new();
        max_age.push('8' as u8);
        max_age.push('6' as u8);
        max_age.push('4' as u8);
        max_age.push('0' as u8);
        max_age.push('0' as u8);
        let r = Cors {
            allow_origin: Origin::Any,
            allow_methods: methods,
            allow_headers: headers,
            max_age,
        };
        proof {
            assert(r@.allow_methods =~= default_cors_view().allow_methods);
            assert(r@.allow_headers =~= default_cors_view().allow_headers);
            assert(r@.max_age =~= default_cors_view().max_age);
        }
        r
    }

    pub fn allow_origin(self, origin: Origin) -> (r: Self)
        ensures
            r@ == (CorsView { allow_origin: origin@, ..self@ }),
    {
        Cors { allow_origin: origin, ..self }
    }

    pub fn allow_methods(self, methods: HeaderValue) -> (r: Self)
        ensures
            r@ == (CorsView { allow_methods: methods@, ..self@ }),
    {
        Cors { allow_methods: methods, ..self }
    }

    pub fn allow_headers(self, headers: HeaderValue) -> (r: Self)
        ensures
            r@ == (CorsView { allow_headers: headers@, ..self@ }),
    {
        Cors { allow_headers: headers, ..self }
    }

    pub fn max_age(self, max_age: HeaderValue) -> (r: Self)
        ensures
            r@ == (CorsView { max_age: max_age@, ..self@ }),
    {
        Cors { max_age, ..self }
    }

    fn is_valid_origin(&self, origin: &Vec<u8>) -> (r: bool)
        ensures
            r <==> origin_allowed(self@, origin@),
    {
        match &self.allow_origin {
            Origin::Any => true,
            Origin::Single(v) => bytes_eq(v.as_slice(), origin.as_slice()),
        }
    }

    fn handle_preflight(&self) -> (r: Response)
        ensures
            r@ == preflight_view(self@),
    {
        let mut response = Response::from_status(StatusCode::OK);
        let origin = self.allow_origin.as_bytes();
        response.set_header(HeaderName::AccessControlAllowOrigin, origin);
        response.set_header(
            HeaderName::AccessControlAllowMethods,
            clone_bytes(self.allow_methods.as_slice()),
        );
        response.set_header(
            HeaderName::AccessControlAllowHeaders,
            clone_bytes(self.allow_headers.as_slice()),
        );
        response.set_header(
            HeaderName::AccessControlAllowMaxAge,
            clone_bytes(self.max_age.as_slice()),
        );
        response
    }
}

impl Middleware for Cors {
    /// A request without an `Origin` passes untouched; a disallowed origin
    /// is refused; a preflight is answered directly; anything else passes.
    open spec fn enter_spec(&self, req: RequestView) -> Result<RequestView, ResponseView> {
        match seq_get(req.headers, HeaderName::Origin) {
            None => Ok(req),
            Some(origin) => {
                if !origin_allowed(self@, origin) {
                    Err(status_response_view(StatusCode::Unauthorized))
                } else if req.method == Method::Options {
                    Err(preflight_view(self@))
                } else {
                    Ok(req)
                }
            },
        }
    }

    /// A response to a request that carried an `Origin` is stamped with
    /// the allowed origin.
    open spec fn leave_spec(&self, req: RequestView, resp: ResponseView) -> ResponseView {
        match seq_get(req.headers, HeaderName::Origin) {
            None => resp,
            Some(_) => ResponseView {
                headers: seq_set(
                    resp.headers,
                    HeaderName::AccessControlAllowOrigin,
                    origin_bytes(self@.allow_origin),
                ),
                ..resp
            },
        }
    }

    fn enter(&self, request: Request) -> (r: Step) {
        let valid = match request.get_header(HeaderName::Origin) {
            None => {
                return Step::Forward(request);
            },
            Some(origin) => self.is_valid_origin(origin),
        };
        if !valid {
            return Step::Respond(Response::from_status(StatusCode::Unauthorized));
        }
        if *request.method() == Method::Options {
            return Step::Respond(self.handle_preflight());
        }
        Step::Forward(request)
    }

    fn leave(&self, request: &Request, response: Response) -> (r: Response) {
        match request.get_header(HeaderName::Origin) {
            None => response,
            Some(_) => {
                let mut response = response;
                response.set_header(
                    HeaderName::AccessControlAllowOrigin,
                    self.allow_origin.as_bytes(),
                );
                response
            },
        }
    }
}

} // verus!
