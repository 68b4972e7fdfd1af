//! Token-level parsing of request lines and header lines. A `Parser` walks
//! a single CRLF-terminated line that the request assembler hands it.
use vstd::prelude::*;

use crate::header::{header_name_of, HeaderName};
use crate::method::{method_of, Method};
use crate::status::StatusCode;
use crate::{version_token, Uri, Version};

verus! {

/// The position of the first occurrence of `t` in `s`.
pub open spec fn find_byte(s: Seq<u8>, t: u8) -> Option<int>
    decreases s.len(),
{
    if s.len() == 0 {
        None
    } else if s[0] == t {
        Some(0)
    } else {
        match find_byte(s.drop_first(), t) {
            Some(i) => Some(i + 1),
            None => None,
        }
    }
}

/// Searching from position `j` onward finds the same occurrence, provided
/// nothing matched before `j`.
pub proof fn lemma_find_byte_from(s: Seq<u8>, t: u8, j: int)
    requires
        0 <= j <= s.len(),
        forall|k: int| 0 <= k < j ==> s[k] != t,
    ensures
        find_byte(s, t) == match find_byte(s.skip(j), t) {
            Some(i) => Some::<int>(i + j),
            None => None::<int>,
        },
    decreases j,
{
    if j > 0 {
        assert(s.drop_first() =~= s.skip(1));
        lemma_find_byte_from(s.drop_first(), t, j - 1);
        assert(s.drop_first().skip(j - 1) =~= s.skip(j));
    } else {
        assert(s.skip(0) =~= s);
    }
}

/// What `find_byte` returns is a real occurrence, and the first one.
pub proof fn lemma_find_byte_is_first(s: Seq<u8>, t: u8)
    ensures
        match find_byte(s, t) {
            Some(i) => 0 <= i < s.len() && s[i] == t && forall|k: int| 0 <= k < i ==> s[k] != t,
            None => forall|k: int| 0 <= k < s.len() ==> s[k] != t,
        },
    decreases s.len(),
{
    if s.len() > 0 && s[0] != t {
        lemma_find_byte_is_first(s.drop_first(), t);
        assert forall|k: int| 1 <= k < s.len() implies s.drop_first()[k - 1] == s[k] by {}
    }
}

/// Scan a slice for the first occurrence of a byte.
pub fn find_in(s: &[u8], t: u8) -> (r: Option<usize>)
    ensures
        match r {
            Some(i) => find_byte(s@, t) == Some(i as int),
            None => find_byte(s@, t) is None,
        },
{
    let mut i: usize = 0;
    while i < s.len()
        invariant
            i <= s@.len(),
            forall|k: int| 0 <= k < i ==> s@[k] != t,
        decreases s@.len() - i,
    {
        if s[i] == t {
            proof {
                lemma_find_byte_from(s@, t, i as int);
            }
            return Some(i);
        }
        i = i + 1;
    }
    proof {
        lemma_find_byte_from(s@, t, s@.len() as int);
    }
    None
}

/// A parser over the remainder of one line.
#[derive(Debug)]
pub struct Parser<'a> {
    state: &'a [u8],
}

impl<'a> Parser<'a> {
    /// The bytes not yet consumed.
    pub closed spec fn view(&self) -> Seq<u8> {
        self.state@
    }

    pub fn new(input: &'a [u8]) -> (r: Self)
        ensures
            r@ == input@,
    {
        Parser { state: input }
    }

    /// Read the first byte and advance past it.
    pub fn consume(&mut self) -> (r: Option<u8>)
        ensures
            old(self)@.len() == 0 ==> r is None && final(self)@ == old(self)@,
            old(self)@.len() > 0 ==> r == Some(old(self)@[0]) && final(self)@ == old(
                self,
            )@.drop_first(),
    {
        if self.state.len() == 0 {
            None
        } else {
            let b = self.state[0];
            self.state = vstd::slice::slice_subrange(self.state, 1, self.state.len());
            proof {
                assert(old(self)@.subrange(1, old(self)@.len() as int) =~= old(
                    self,
                )@.drop_first());
            }
            Some(b)
        }
    }

    /// Read up to (not including) the first occurrence of `target`, and
    /// advance past the occurrence. Without an occurrence nothing moves.
    pub fn read_until(&mut self, target: u8) -> (r: Option<&'a [u8]>)
        ensures
            match find_byte(old(self)@, target) {
                Some(i) => r is Some && r->0@ == old(self)@.take(i) && final(self)@ == old(
                    self,
                )@.skip(i + 1),
                None => r is None && final(self)@ == old(self)@,
            },
    {
        match find_in(self.state, target) {
            None => None,
            Some(i) => {
                let n = self.state.len();
                proof {
                    lemma_find_byte_is_first(old(self)@, target);
                    assert((i as int) < n as int);
                }
                let found = vstd::slice::slice_subrange(self.state, 0, i);
                self.state = vstd::slice::slice_subrange(self.state, i + 1, n);
                proof {
                    assert(found@ =~= old(self)@.take(i as int));
                    assert(self@ =~= old(self)@.skip(i + 1));
                }
                Some(found)
            },
        }
    }

    /// Read until a space.
    pub fn read_until_whitespace(&mut self) -> (r: Option<&'a [u8]>)
        ensures
            match find_byte(old(self)@, ' ' as u8) {
                Some(i) => r is Some && r->0@ == old(self)@.take(i) && final(self)@ == old(
                    self,
                )@.skip(i + 1),
                None => r is None && final(self)@ == old(self)@,
            },
    {
        self.read_until(' ' as u8)
    }

    /// Consume one byte, demanding that it equals `target`; otherwise the
    /// given error is reported. Either way the byte, if any, is consumed.
    pub fn expect(&mut self, target: u8, error: StatusCode) -> (r: Result<(), StatusCode>)
        ensures
            old(self)@.len() == 0 ==> r == Err::<(), StatusCode>(error) && final(self)@ == old(
                self,
            )@,
            old(self)@.len() > 0 ==> final(self)@ == old(self)@.drop_first() && (if old(self)@[0]
                == target {
                r == Ok::<(), StatusCode>(())
            } else {
                r == Err::<(), StatusCode>(error)
            }),
    {
        match self.consume() {
            Some(b) => {
                if b == target {
                    Ok(())
                } else {
                    Err(error)
                }
            },
            None => Err(error),
        }
    }
}

/// The protocol token expected before the version: `HTTP`.
pub open spec fn http_token() -> Seq<u8> {
    seq!['H' as u8, 'T' as u8, 'T' as u8, 'P' as u8]
}

/// The protocol token as bytes.
pub fn http_bytes() -> (r: Vec<u8>)
    ensures
        r@ == http_token(),
{
    let mut v: Vec<u8> = Vec::new();
    v.push('H' as u8);
    v.push('T' as u8);
    v.push('T' as u8);
    v.push('P' as u8);
    assert(v@ =~= http_token());
    v
}

/// Parsing the `HTTP/<version>\r\n` tail of a request line.
pub open spec fn parse_version_spec(s: Seq<u8>) -> Result<(Version, Seq<u8>), StatusCode> {
    match find_byte(s, '/' as u8) {
        None => Err(StatusCode::HttpVersionNotSupported),
        Some(k) => {
            if s.take(k) != http_token() {
                Err(StatusCode::HttpVersionNotSupported)
            } else {
                let rest = s.skip(k + 1);
                match find_byte(rest, '\r' as u8) {
                    None => Err(StatusCode::HttpVersionNotSupported),
                    Some(l) => {
                        if rest.take(l) != version_token(Version::OneDotOne) {
                            Err(StatusCode::HttpVersionNotSupported)
                        } else {
                            Ok((Version::OneDotOne, rest.skip(l + 1)))
                        }
                    },
                }
            }
        },
    }
}

/// Parsing a whole request line `<METHOD> <SP> </path> <SP> HTTP/1.1 <CRLF>`.
pub open spec fn parse_request_line_spec(line: Seq<u8>) -> Result<
    (Method, Seq<u8>, Version),
    StatusCode,
> {
    match find_byte(line, ' ' as u8) {
        None => Err(StatusCode::BadRequest),
        Some(i) => match method_of(line.take(i)) {
            None => Err(StatusCode::MethodNotAllowed),
            Some(m) => {
                let rest = line.skip(i + 1);
                match find_byte(rest, ' ' as u8) {
                    None => Err(StatusCode::BadRequest),
                    Some(j) => {
                        let utok = rest.take(j);
                        if utok.len() == 0 || utok[0] != '/' as u8 {
                            Err(StatusCode::BadRequest)
                        } else {
                            match parse_version_spec(rest.skip(j + 1)) {
                                Err(e) => Err(e),
                                Ok((v, tail)) => {
                                    if tail.len() == 0 || tail[0] != '\n' as u8 {
                                        Err(StatusCode::BadRequest)
                                    } else {
                                        Ok((m, utok, v))
                                    }
                                },
                            }
                        }
                    },
                }
            },
        },
    }
}

/// Parsing a header line `<Name>: <value><CRLF>`.
pub open spec fn parse_header_spec(line: Seq<u8>) -> Result<(HeaderName, Seq<u8>), StatusCode> {
    match find_byte(line, ':' as u8) {
        None => Err(StatusCode::BadRequest),
        Some(i) => {
            let name = header_name_of(line.take(i));
            let rest = line.skip(i + 1);
            if rest.len() == 0 || rest[0] != ' ' as u8 {
                Err(StatusCode::BadRequest)
            } else {
                let rest2 = rest.drop_first();
                match find_byte(rest2, '\r' as u8) {
                    None => Err(StatusCode::BadRequest),
                    Some(j) => {
                        let value = rest2.take(j);
                        let rest3 = rest2.skip(j + 1);
                        if rest3.len() == 0 || rest3[0] != '\n' as u8 {
                            Err(StatusCode::BadRequest)
                        } else {
                            Ok((name, value))
                        }
                    },
                }
            }
        },
    }
}

impl<'a> Parser<'a> {
    /// Parse the method token at the front of the line.
    pub fn parse_method(&mut self) -> (r: Result<Method, StatusCode>)
        ensures
            match find_byte(old(self)@, ' ' as u8) {
                None => r == Err::<Method, StatusCode>(StatusCode::BadRequest),
                Some(i) => match method_of(old(self)@.take(i)) {
                    None => r == Err::<Method, StatusCode>(StatusCode::MethodNotAllowed),
                    Some(m) => r == Ok::<Method, StatusCode>(m) && final(self)@ == old(
                        self,
                    )@.skip(i + 1),
                },
            },
    {
        match self.read_until_whitespace() {
            Some(tok) => Method::try_from(tok),
            None => Err(StatusCode::BadRequest),
        }
    }

    /// Parse the path token; it must begin with `/`.
    pub fn parse_uri(&mut self) -> (r: Result<Uri, StatusCode>)
        ensures
            match find_byte(old(self)@, ' ' as u8) {
                None => r == Err::<Uri, StatusCode>(StatusCode::BadRequest),
                Some(i) => {
                    let utok = old(self)@.take(i);
                    if utok.len() == 0 || utok[0] != '/' as u8 {
                        r == Err::<Uri, StatusCode>(StatusCode::BadRequest)
                    } else {
                        r is Ok && r->Ok_0@ == utok && final(self)@ == old(self)@.skip(i + 1)
                    }
                },
            },
    {
        match self.read_until_whitespace() {
            Some(tok) => {
                if tok.len() > 0 && tok[0] == '/' as u8 {
                    Ok(Uri::new(tok))
                } else {
                    Err(StatusCode::BadRequest)
                }
            },
            None => Err(StatusCode::BadRequest),
        }
    }

    /// Parse the `HTTP/1.1` tail, up to and including the carriage return.
    pub fn parse_version(&mut self) -> (r: Result<Version, StatusCode>)
        ensures
            match parse_version_spec(old(self)@) {
                Err(e) => r == Err::<Version, StatusCode>(e),
                Ok((v, tail)) => r == Ok::<Version, StatusCode>(v) && final(self)@ == tail,
            },
    {
        let proto = match self.read_until('/' as u8) {
            Some(p) => p,
            None => {
                return Err(StatusCode::HttpVersionNotSupported);
            },
        };
        let http = http_bytes();
        if !crate::bytes::bytes_eq(proto, http.as_slice()) {
            return Err(StatusCode::HttpVersionNotSupported);
        }
        let vtok = match self.read_until('\r' as u8) {
            Some(v) => v,
            None => {
                return Err(StatusCode::HttpVersionNotSupported);
            },
        };
        Version::try_from(vtok)
    }

    /// Parse a full request line.
    pub fn parse_request_line(&mut self) -> (r: Result<(Method, Uri, Version), StatusCode>)
        ensures
            match parse_request_line_spec(old(self)@) {
                Err(e) => r is Err && r->Err_0 == e,
                Ok((m, u, v)) => r is Ok && r->Ok_0.0 == m && r->Ok_0.1@ == u && r->Ok_0.2 == v,
            },
    {
        let method = match self.parse_method() {
            Ok(m) => m,
            Err(e) => {
                return Err(e);
            },
        };
        let uri = match self.parse_uri() {
            Ok(u) => u,
            Err(e) => {
                return Err(e);
            },
        };
        let version = match self.parse_version() {
            Ok(v) => v,
            Err(e) => {
                return Err(e);
            },
        };
        match self.expect('\n' as u8, StatusCode::BadRequest) {
            Ok(_) => Ok((method, uri, version)),
            Err(e) => Err(e),
        }
    }

    /// Parse a full header line.
    pub fn parse_header(&mut self) -> (r: Result<(HeaderName, Vec<u8>), StatusCode>)
        ensures
            match parse_header_spec(old(self)@) {
                Err(e) => r is Err && r->Err_0 == e,
                Ok((n, v)) => r is Ok && r->Ok_0.0 == n && r->Ok_0.1@ == v,
            },
    {
        let name_tok = match self.read_until(':' as u8) {
            Some(t) => t,
            None => {
                return Err(StatusCode::BadRequest);
            },
        };
        let name = HeaderName::from_bytes(name_tok);
        match self.expect(' ' as u8, StatusCode::BadRequest) {
            Ok(_) => (),
            Err(e) => {
                return Err(e);
            },
        }
        let value = match self.read_until('\r' as u8) {
            Some(v) => v,
            None => {
                return Err(StatusCode::BadRequest);
            },
        };
        match self.expect('\n' as u8, StatusCode::BadRequest) {
            Ok(_) => Ok((name, crate::bytes::clone_bytes(value))),
            Err(e) => Err(e),
        }
    }
}

} // verus!
