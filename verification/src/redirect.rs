//! A handler performing HTTP redirection.
use vstd::prelude::*;

use crate::handler::Handler;
use crate::header::{seq_set, HeaderEntry, HeaderName};
use crate::request::{Request, RequestView};
use crate::response::{status_response_view, Response, ResponseView};
use crate::status::StatusCode;
use crate::Uri;

verus! {

/// Handler answering every request with a redirect to a fixed location.
#[derive(Debug)]
pub struct Redirect {
    status_code: StatusCode,
    uri: Uri,
}

/// The response a redirect handler produces.
pub open spec fn redirect_view(status: StatusCode, location: Seq<u8>) -> ResponseView {
    ResponseView {
        headers: seq_set(Seq::<HeaderEntry>::empty(), HeaderName::Location, location),
        ..status_response_view(status)
    }
}

impl Redirect {
    pub closed spec fn status(&self) -> StatusCode {
        self.status_code
    }

    pub closed spec fn location(&self) -> Seq<u8> {
        self.uri@
    }

    /// Create a redirect to `uri`; an alias for `Redirect::found`.
    pub fn new(uri: Uri) -> (r: Self)
        ensures
            r.status() == StatusCode::Found,
            r.location() == uri@,
    {
        Redirect::found(uri)
    }

    /// Create a permanent redirect to `uri`.
    pub fn moved_permanently(uri: Uri) -> (r: Self)
        ensures
            r.status() == StatusCode::MovedPermanently,
            r.location() == uri@,
    {
        Redirect { status_code: StatusCode::MovedPermanently, uri }
    }

    /// Create a redirect to `uri`.
    pub fn found(uri: Uri) -> (r: Self)
        ensures
            r.status() == StatusCode::Found,
            r.location() == uri@,
    {
        Redirect { status_code: StatusCode::Found, uri }
    }

    /// Create a see-other redirect to `uri`.
    pub fn see_other(uri: Uri) -> (r: Self)
        ensures
            r.status() == StatusCode::SeeOther,
            r.location() == uri@,
    {
        Redirect { status_code: StatusCode::SeeOther, uri }
    }
}

impl Handler for Redirect {
    /// Every request is answered with the stored status and location.
    open spec fn call_spec(&self, req: RequestView) -> Result<ResponseView, StatusCode> {
        Ok(redirect_view(self.status(), self.location()))
    }

    fn call(&self, request: Request) -> (r: Result<Response, StatusCode>) {
        let mut response = Response::from_status(self.status_code);
        response.set_header(HeaderName::Location, crate::bytes::clone_bytes(self.uri.as_bytes()));
        Ok(response)
    }
}

} // verus!
