//! A minimal verified HTTP/1.1 server library: incremental request framing,
//! a radix-trie router with single-level wildcards, and an onion-style
//! middleware chain, each with machine-checked contracts.
//!
//! The transport (listening, reading, writing) is left to the embedding
//! program; the library works on plain byte sequences and structured
//! requests and responses.
//!
//! The central guarantees are stated and machine-checked in the library
//! itself: assembling a request is invariant under how the transport cuts
//! the bytes into chunks (`request::lemma_byte_boundary_invariance`); the
//! router's children never share a first byte, registration updates
//! exactly one route, and lookup finds exactly what was registered
//! (`router::lemma_find_registered`, `router::lemma_find_unregistered`,
//! `router::lemma_find_wildcard`); middlewares apply in order going in and
//! in reverse going out, and a short-circuiting middleware keeps the
//! handler from running (`middleware::lemma_middleware_order`,
//! `middleware::lemma_short_circuit`); a serialized status line parses
//! back to its code and reason phrase
//! (`response::lemma_status_line_round_trip`); and a resolved static-file
//! path always stays below its mount directory (`static_files::find_file`).
use vstd::prelude::*;

pub mod body;
pub mod bytes;
pub mod handler;
pub mod header;
pub mod method;
pub mod middleware;
pub mod mime;
pub mod parser;
pub mod redirect;
pub mod request;
pub mod response;
pub mod router;
pub mod static_files;
pub mod status;

use crate::status::StatusCode;

verus! {

/// A request path: an opaque byte sequence, compared byte-wise.
#[derive(Debug, PartialEq, Eq)]
pub struct Uri {
    bytes: Vec<u8>,
}

impl Uri {
    pub closed spec fn view(&self) -> Seq<u8> {
        self.bytes@
    }

    pub fn new(path: &[u8]) -> (r: Self)
        ensures
            r@ == path@,
    {
        Uri { bytes: crate::bytes::clone_bytes(path) }
    }

    /// The path bytes.
    pub fn as_bytes(&self) -> (r: &[u8])
        ensures
            r@ == self@,
    {
        self.bytes.as_slice()
    }

    /// A fresh copy of this path.
    pub fn duplicate(&self) -> (r: Self)
        ensures
            r@ == self@,
    {
        Uri { bytes: crate::bytes::clone_bytes(self.bytes.as_slice()) }
    }
}

impl Default for Uri {
    /// The root path `/`.
    fn default() -> (r: Self)
        ensures
            r@ == seq!['/' as u8],
    {
        let mut v: Vec<u8> = Vec::new();
        v.push('/' as u8);
        assert(v@ =~= seq!['/' as u8]);
        Uri { bytes: v }
    }
}

/// The protocol versions the server accepts: only HTTP/1.1.
#[derive(Clone, Copy, Debug, PartialEq, Eq, Structural)]
pub enum Version {
    OneDotOne,
}

/// The version token that follows `HTTP/`.
pub open spec fn version_token(v: Version) -> Seq<u8> {
    seq!['1' as u8, '.' as u8, '1' as u8]
}

impl Version {
    /// The version token as bytes.
    pub fn as_bytes(&self) -> (r: Vec<u8>)
        ensures
            r@ == version_token(*self),
    {
        let mut v: Vec<u8> = Vec::new();
        v.push('1' as u8);
        v.push('.' as u8);
        v.push('1' as u8);
        assert(v@ =~= version_token(*self));
        v
    }

    /// Parse a version token; anything but `1.1` is reported with status
    /// `HttpVersionNotSupported`.
    pub fn try_from(value: &[u8]) -> (r: Result<Version, StatusCode>)
        ensures
            value@ == version_token(Version::OneDotOne) ==> r == Ok::<Version, StatusCode>(
                Version::OneDotOne,
            ),
            value@ != version_token(Version::OneDotOne) ==> r == Err::<Version, StatusCode>(
                StatusCode::HttpVersionNotSupported,
            ),
    {
        let tok = Version::OneDotOne.as_bytes();
        if crate::bytes::bytes_eq(value, tok.as_slice()) {
            Ok(Version::OneDotOne)
        } else {
            Err(StatusCode::HttpVersionNotSupported)
        }
    }
}

impl Default for Version {
    fn default() -> (r: Self)
        ensures
            r == Version::OneDotOne,
    {
        Version::OneDotOne
    }
}

} // verus!
