//! The capability a route points at: anything that turns a request into a
//! response, or into a status when it fails.
use vstd::prelude::*;

use crate::request::{Request, RequestView};
use crate::response::{status_response_view, Response, ResponseView};
use crate::status::StatusCode;

verus! {

/// The specification-level value of a handler outcome.
pub open spec fn handler_result_view(r: Result<Response, StatusCode>) -> Result<
    ResponseView,
    StatusCode,
> {
    match r {
        Ok(resp) => Ok(resp@),
        Err(e) => Err(e),
    }
}

/// Abstraction over the whole step from request to response. Each
/// implementation states its own behaviour as a specification function and
/// promises that `call` follows it.
pub trait Handler {
    /// What this handler computes. Left unstated, a handler fails with an
    /// internal error.
    open spec fn call_spec(&self, req: RequestView) -> Result<ResponseView, StatusCode> {
        Err(StatusCode::InternalServerError)
    }

    fn call(&self, request: Request) -> (r: Result<Response, StatusCode>)
        ensures
            handler_result_view(r) == self.call_spec(request@),
    ;
}

/// A failed handler collapses to a bare status response.
pub open spec fn handler_response<H: Handler>(h: &H, req: RequestView) -> ResponseView {
    match h.call_spec(req) {
        Ok(rv) => rv,
        Err(code) => status_response_view(code),
    }
}

} // verus!
