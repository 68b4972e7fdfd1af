//! The closed set of HTTP methods the server accepts, matched as exact
//! uppercase ASCII tokens.
use vstd::prelude::*;

use crate::bytes::bytes_eq;
use crate::status::StatusCode;

verus! {

#[derive(Clone, Copy, Debug, PartialEq, Eq, Structural)]
pub enum Method {
    Get,
    Post,
    Options,
}

/// The ASCII token of each method.
pub open spec fn method_token(m: Method) -> Seq<u8> {
    match m {
        Method::Get => seq!['G' as u8, 'E' as u8, 'T' as u8],
        Method::Post => seq!['P' as u8, 'O' as u8, 'S' as u8, 'T' as u8],
        Method::Options => seq![
            'O' as u8, 'P' as u8, 'T' as u8, 'I' as u8, 'O' as u8, 'N' as u8,
            'S' as u8,
        ],
    }
}

/// Which method, if any, a byte token names.
pub open spec fn method_of(s: Seq<u8>) -> Option<Method> {
    if s == method_token(Method::Get) {
        Some(Method::Get)
    } else if s == method_token(Method::Post) {
        Some(Method::Post)
    } else if s == method_token(Method::Options) {
        Some(Method::Options)
    } else {
        None
    }
}

impl Method {
    /// The method's token as bytes.
    pub fn as_bytes(&self) -> (r: Vec<u8>)
        ensures
            r@ == method_token(*self),
    {
        let mut v: Vec<u8> = Vec::new();
        match self {
            Method::Get => {
                v.push('G' as u8);
                v.push('E' as u8);
                v.push('T' as u8);
            },
            Method::Post => {
                v.push('P' as u8);
                v.push('O' as u8);
                v.push('S' as u8);
                v.push('T' as u8);
            },
            Method::Options => {
                v.push('O' as u8);
                v.push('P' as u8);
                v.push('T' as u8);
                v.push('I' as u8);
                v.push('O' as u8);
                v.push('N' as u8);
                v.push('S' as u8);
            },
        }
        assert(v@ =~= method_token(*self));
        v
    }

    /// Parse a method token; an unrecognized token is reported with status
    /// `MethodNotAllowed`.
    pub fn try_from(value: &[u8]) -> (r: Result<Method, StatusCode>)
        ensures
            match method_of(value@) {
                Some(m) => r == Ok::<Method, StatusCode>(m),
                None => r == Err::<Method, StatusCode>(StatusCode::MethodNotAllowed),
            },
    {
        let get = Method::Get.as_bytes();
        let post = Method::Post.as_bytes();
        let options = Method::Options.as_bytes();
        if bytes_eq(value, get.as_slice()) {
            Ok(Method::Get)
        } else if bytes_eq(value, post.as_slice()) {
            Ok(Method::Post)
        } else if bytes_eq(value, options.as_slice()) {
            Ok(Method::Options)
        } else {
            Err(StatusCode::MethodNotAllowed)
        }
    }
}

impl Default for Method {
    fn default() -> (r: Self)
        ensures
            r == Method::Get,
    {
        Method::Get
    }
}

} // verus!
