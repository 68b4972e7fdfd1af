//! HTTP basic authentication for a protected subtree of paths.
use vstd::prelude::*;

use crate::header::{seq_get, seq_set, HeaderEntry, HeaderName};
use crate::middleware::{Middleware, Step};
use crate::parser::find_byte;
use crate::request::{Request, RequestView};
use crate::response::{status_response_view, Response, ResponseView};
use crate::status::StatusCode;
use crate::Uri;

verus! {

/// The base64 rendering of a byte string, as the outside encoder computes
/// it.
pub uninterp spec fn base64_of(s: Seq<u8>) -> Seq<u8>;

/// Relies on base64's `STANDARD` engine via `Engine::encode`: the encoding
/// is a function of the input bytes alone.
#[verifier::external_body]
fn base64_encode(bytes: &[u8]) -> (r: Vec<u8>)
    ensures
        r@ == base64_of(bytes@),
{
    base64::Engine::encode(&base64::engine::general_purpose::STANDARD, bytes).into_bytes()
}

/// The scheme token expected in an `Authorization` header.
pub open spec fn basic_token() -> Seq<u8> {
    seq!['B' as u8, 'a' as u8, 's' as u8, 'i' as u8, 'c' as u8]
}

/// The second whitespace-separated token of a credential value: up to the
/// next space, or the rest.
pub open spec fn second_token(s: Seq<u8>) -> Seq<u8> {
    match find_byte(s, ' ' as u8) {
        None => s,
        Some(j) => s.take(j),
    }
}

/// Does an `Authorization` value carry the expected credential? The value
/// must read `Basic <hash>`.
pub open spec fn credential_ok(hash: Seq<u8>, v: Seq<u8>) -> bool {
    match find_byte(v, ' ' as u8) {
        None => false,
        Some(i) => v.take(i) == basic_token() && second_token(v.skip(i + 1)) == hash,
    }
}

/// Is a request authorized against this hash?
pub open spec fn request_authorized(hash: Seq<u8>, req: RequestView) -> bool {
    match seq_get(req.headers, HeaderName::Authorization) {
        None => false,
        Some(v) => credential_ok(hash, v),
    }
}

/// The challenge sent back for a missing or wrong credential.
pub open spec fn challenge_view() -> ResponseView {
    ResponseView {
        headers: seq_set(
            Seq::<HeaderEntry>::empty(),
            HeaderName::WwwAuthenticate,
            basic_token(),
        ),
        ..status_response_view(StatusCode::Unauthorized)
    }
}

/// Middleware guarding the subtree under `auth_root` behind a basic-auth
/// credential.
#[derive(Debug)]
pub struct BasicAuth {
    credential_hash: Vec<u8>,
    auth_root: Uri,
}

impl BasicAuth {
    /// The stored credential hash.
    pub closed spec fn hash(&self) -> Seq<u8> {
        self.credential_hash@
    }

    /// The root of the protected subtree.
    pub closed spec fn root(&self) -> Seq<u8> {
        self.auth_root@
    }

    /// Create a basic authentication middleware protecting the subtree
    /// under `auth_root`.
    pub fn new(username: &[u8], password: &[u8], auth_root: Uri) -> (r: Self)
        ensures
            r.hash() == base64_of(username@ + seq![':' as u8] + password@),
            r.root() == auth_root@,
    {
        let mut credential = crate::bytes::clone_bytes(username);
        credential.push(':' as u8);
        let mut i: usize = 0;
        while i < password.len()
            invariant
                i <= password@.len(),
                credential@ == username@ + seq![':' as u8] + password@.subrange(0, i as int),
            decreases password@.len() - i,
        {
            credential.push(password[i]);
            i = i + 1;
            assert(credential@ =~= username@ + seq![':' as u8] + password@.subrange(
                0,
                i as int,
            ));
        }
        assert(credential@ =~= username@ + seq![':' as u8] + password@);
        let credential_hash = base64_encode(credential.as_slice());
        BasicAuth { credential_hash, auth_root }
    }

    /// Does this middleware guard the given path?
    pub fn is_protected_uri(&self, uri: &Uri) -> (r: bool)
        ensures
            r <==> self.root().is_prefix_of(uri@),
    {
        crate::bytes::starts_with(uri.as_bytes(), self.auth_root.as_bytes())
    }

    /// Check a request's credential.
    pub fn check_credential(&self, request: &Request) -> (r: Result<(), StatusCode>)
        ensures
            r == if request_authorized(self.hash(), request@) {
                Ok::<(), StatusCode>(())
            } else {
                Err::<(), StatusCode>(StatusCode::Unauthorized)
            },
    {
        let value = match request.get_header(HeaderName::Authorization) {
            Some(v) => v,
            None => {
                return Err(StatusCode::Unauthorized);
            },
        };
        let i = match crate::parser::find_in(value.as_slice(), ' ' as u8) {
            Some(i) => i,
            None => {
                return Err(StatusCode::Unauthorized);
            },
        };
        proof {
            crate::parser::lemma_find_byte_is_first(value@, ' ' as u8);
        }
        let scheme = crate::bytes::copy_range(value.as_slice(), 0, i);
        let mut basic: Vec<u8> = Vec::new();
        basic.push('B' as u8);
        basic.push('a' as u8);
        basic.push('s' as u8);
        basic.push('i' as u8);
        basic.push('c' as u8);
        proof {
            assert(basic@ =~= basic_token());
        }
        if !crate::bytes::bytes_eq(scheme.as_slice(), basic.as_slice()) {
            return Err(StatusCode::Unauthorized);
        }
        let rest = vstd::slice::slice_subrange(value.as_slice(), i + 1, value.len());
        proof {
            assert(rest@ =~= value@.skip(i + 1));
        }
        let hash = match crate::parser::find_in(rest, ' ' as u8) {
            None => crate::bytes::clone_bytes(rest),
            Some(j) => {
                proof {
                    crate::parser::lemma_find_byte_is_first(rest@, ' ' as u8);
                }
                crate::bytes::copy_range(rest, 0, j)
            },
        };
        if crate::bytes::bytes_eq(hash.as_slice(), self.credential_hash.as_slice()) {
            Ok(())
        } else {
            Err(StatusCode::Unauthorized)
        }
    }
}

impl Middleware for BasicAuth {
    /// Requests under the protected root pass only with the right
    /// credential; anything else is challenged. Requests elsewhere pass
    /// untouched.
    open spec fn enter_spec(&self, req: RequestView) -> Result<RequestView, ResponseView> {
        if self.root().is_prefix_of(req.uri) && !request_authorized(self.hash(), req) {
            Err(challenge_view())
        } else {
            Ok(req)
        }
    }

    /// Responses pass back unchanged.
    open spec fn leave_spec(&self, req: RequestView, resp: ResponseView) -> ResponseView {
        resp
    }

    fn enter(&self, request: Request) -> (r: Step) {
        if self.is_protected_uri(request.uri()) {
            match self.check_credential(&request) {
                Ok(_) => Step::Forward(request),
                Err(code) => {
                    let mut response = Response::from_status(code);
                    let mut basic: Vec<u8> = Vec::new();
                    basic.push('B' as u8);
                    basic.push('a' as u8);
                    basic.push('s' as u8);
                    basic.push('i' as u8);
                    basic.push('c' as u8);
                    proof {
                        assert(basic@ =~= basic_token());
                    }
                    response.set_header(HeaderName::WwwAuthenticate, basic);
                    Step::Respond(response)
                },
            }
        } else {
            Step::Forward(request)
        }
    }

    fn leave(&self, request: &Request, response: Response) -> (r: Response) {
        response
    }
}

} // verus!
