//! A message body: either absent, or a raw byte payload. A body is only
//! introduced by a `Content-Length` header on the wire.
use vstd::prelude::*;

use crate::bytes::clone_bytes;

verus! {

#[derive(Debug, PartialEq, Eq)]
pub enum Body {
    Absent,
    Present(Vec<u8>),
}

impl Body {
    /// `None` when the body is absent, the payload bytes otherwise.
    pub open spec fn view(&self) -> Option<Seq<u8>> {
        match self {
            Body::Absent => None,
            Body::Present(b) => Some(b@),
        }
    }

    /// The payload length an absent body counts as zero.
    pub open spec fn len_spec(&self) -> nat {
        match self@ {
            None => 0,
            Some(b) => b.len(),
        }
    }

    pub fn len(&self) -> (r: usize)
        ensures
            r == self.len_spec(),
    {
        match self {
            Body::Present(bytes) => bytes.len(),
            Body::Absent => 0,
        }
    }

    pub fn is_empty(&self) -> (r: bool)
        ensures
            r <==> self.len_spec() == 0,
    {
        self.len() == 0
    }

    pub fn is_some(&self) -> (r: bool)
        ensures
            r <==> self@ is Some,
    {
        match self {
            Body::Present(_) => true,
            Body::Absent => false,
        }
    }

    pub fn is_none(&self) -> (r: bool)
        ensures
            r <==> self@ is None,
    {
        match self {
            Body::Present(_) => false,
            Body::Absent => true,
        }
    }

    /// Wrap raw bytes as a present body.
    pub fn from_bytes(bytes: Vec<u8>) -> (r: Self)
        ensures
            r@ == Some(bytes@),
    {
        Body::Present(bytes)
    }

    /// A fresh copy of this body.
    pub fn duplicate(&self) -> (r: Self)
        ensures
            r@ == self@,
    {
        match self {
            Body::Absent => Body::Absent,
            Body::Present(bytes) => Body::Present(clone_bytes(bytes.as_slice())),
        }
    }
}

impl Default for Body {
    fn default() -> (r: Self)
        ensures
            r@ is None,
    {
        Body::Absent
    }
}

} // verus!
