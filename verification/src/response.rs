//! Structured responses and their wire form: status line, header lines, a
//! blank line, then the raw body bytes.
use vstd::prelude::*;
use vstd::string::StringSliceAdditionalSpecFns;

use crate::body::Body;
use crate::bytes::{all_digits, clone_bytes, dec_spec, dec_value, to_decimal};
use crate::header::{name_bytes, seq_get, seq_set, HeaderEntry, HeaderName, Headers};
use crate::mime;
use crate::parser::{find_byte, http_token, Parser};
use crate::status::StatusCode;
use crate::{version_token, Version};

verus! {

/// The mathematical content of a response.
#[verifier::ext_equal]
pub ghost struct ResponseView {
    pub status: StatusCode,
    pub headers: Seq<HeaderEntry>,
    pub version: Version,
    pub body: Option<Seq<u8>>,
}

/// Represents an HTTP response.
#[derive(Debug)]
pub struct Response {
    status_code: StatusCode,
    headers: Headers,
    version: Version,
    body: Body,
}

/// The view of a fresh response: status 200, no headers, no body.
pub open spec fn init_response_view() -> ResponseView {
    ResponseView {
        status: StatusCode::OK,
        headers: Seq::empty(),
        version: Version::OneDotOne,
        body: None,
    }
}

/// The view of a response that carries nothing but a status.
pub open spec fn status_response_view(status: StatusCode) -> ResponseView {
    ResponseView { status: status, ..init_response_view() }
}

impl Response {
    pub closed spec fn view(&self) -> ResponseView {
        ResponseView {
            status: self.status_code,
            headers: self.headers@,
            version: self.version,
            body: self.body@,
        }
    }

    pub fn builder() -> (r: ResponseBuilder)
        ensures
            r@ == init_response_view(),
    {
        ResponseBuilder::new()
    }

    /// A response carrying only the given status.
    pub fn from_status(status: StatusCode) -> (r: Self)
        ensures
            r@ == status_response_view(status),
    {
        let r = Response {
            status_code: status,
            headers: Headers::new(),
            version: Version::OneDotOne,
            body: Body::Absent,
        };
        r
    }

    pub fn status_code(&self) -> (r: StatusCode)
        ensures
            r == self@.status,
    {
        self.status_code
    }

    pub fn version(&self) -> (r: Version)
        ensures
            r == self@.version,
    {
        self.version
    }

    pub fn headers(&self) -> (r: &Headers)
        ensures
            r@ == self@.headers,
    {
        &self.headers
    }

    pub fn get_header(&self, name: &HeaderName) -> (r: Option<&Vec<u8>>)
        ensures
            match r {
                Some(v) => seq_get(self@.headers, *name) == Some(v@),
                None => seq_get(self@.headers, *name) is None,
            },
    {
        self.headers.get(*name)
    }

    pub fn set_header(&mut self, name: HeaderName, value: Vec<u8>)
        ensures
            final(self)@ == (ResponseView {
                headers: seq_set(old(self)@.headers, name, value@),
                ..old(self)@
            }),
    {
        self.headers.insert(name, value);
    }

    pub fn set_content_length(&mut self, length: usize)
        ensures
            final(self)@ == (ResponseView {
                headers: seq_set(
                    old(self)@.headers,
                    HeaderName::ContentLength,
                    dec_spec(length as nat),
                ),
                ..old(self)@
            }),
    {
        let value = to_decimal(length);
        self.headers.insert(HeaderName::ContentLength, value);
    }

    pub fn set_content_type(&mut self, mime_type: &[u8])
        ensures
            final(self)@ == (ResponseView {
                headers: seq_set(old(self)@.headers, HeaderName::ContentType, mime_type@),
                ..old(self)@
            }),
    {
        self.headers.insert(HeaderName::ContentType, clone_bytes(mime_type));
    }

    pub fn body(&self) -> (r: &Body)
        ensures
            r@ == self@.body,
    {
        &self.body
    }

    /// Install a body; a present body also sets its `Content-Length`.
    pub fn set_body(&mut self, body: Body)
        ensures
            final(self)@ == (ResponseView {
                body: body@,
                headers: match body@ {
                    Some(b) => seq_set(
                        old(self)@.headers,
                        HeaderName::ContentLength,
                        dec_spec(b.len()),
                    ),
                    None => old(self)@.headers,
                },
                ..old(self)@
            }),
    {
        let present = body.is_some();
        let n = body.len();
        self.body = body;
        if present {
            let value = to_decimal(n);
            self.headers.insert(HeaderName::ContentLength, value);
        }
    }

    /// A plain-text response: body, `Content-Length` and a `text/plain`
    /// content type.
    pub fn from_text(s: &str) -> (r: Self)
        ensures
            r@.status == StatusCode::OK,
            r@.version == Version::OneDotOne,
            r@.body == Some(s.spec_bytes()),
            seq_get(r@.headers, HeaderName::ContentLength) == Some(
                dec_spec(s.spec_bytes().len()),
            ),
            seq_get(r@.headers, HeaderName::ContentType) == Some(mime::text_plain_spec()),
    {
        let bytes = clone_bytes(s.as_bytes());
        let mut r = Response::from_status(StatusCode::OK);
        r.set_content_type(mime::text_plain().as_slice());
        r.set_body(Body::Present(bytes));
        proof {
            let hs0 = seq_set(
                Seq::<HeaderEntry>::empty(),
                HeaderName::ContentType,
                mime::text_plain_spec(),
            );
            crate::header::lemma_seq_get_set(
                hs0,
                HeaderName::ContentLength,
                dec_spec(s.spec_bytes().len()),
                HeaderName::ContentLength,
            );
            crate::header::lemma_seq_get_set(
                hs0,
                HeaderName::ContentLength,
                dec_spec(s.spec_bytes().len()),
                HeaderName::ContentType,
            );
            crate::header::lemma_seq_get_set(
                Seq::<HeaderEntry>::empty(),
                HeaderName::ContentType,
                mime::text_plain_spec(),
                HeaderName::ContentType,
            );
        }
        r
    }

    /// A response carrying raw bytes, with their `Content-Length`.
    pub fn from_bytes(bytes: Vec<u8>) -> (r: Self)
        ensures
            r@.status == StatusCode::OK,
            r@.version == Version::OneDotOne,
            r@.body == Some(bytes@),
            seq_get(r@.headers, HeaderName::ContentLength) == Some(dec_spec(bytes@.len())),
    {
        let mut r = Response::from_status(StatusCode::OK);
        r.set_body(Body::Present(bytes));
        r
    }
}

/// Step-by-step construction of a response.
#[derive(Debug)]
pub struct ResponseBuilder {
    inner: Response,
}

impl ResponseBuilder {
    pub closed spec fn view(&self) -> ResponseView {
        self.inner@
    }

    pub fn new() -> (r: Self)
        ensures
            r@ == init_response_view(),
    {
        ResponseBuilder { inner: Response::from_status(StatusCode::OK) }
    }

    pub fn set_status_code(self, status_code: StatusCode) -> (r: Self)
        ensures
            r@ == (ResponseView { status: status_code, ..self@ }),
    {
        let mut inner = self.inner;
        inner.status_code = status_code;
        ResponseBuilder { inner }
    }

    pub fn set_header(self, name: HeaderName, value: Vec<u8>) -> (r: Self)
        ensures
            r@ == (ResponseView { headers: seq_set(self@.headers, name, value@), ..self@ }),
    {
        let mut inner = self.inner;
        inner.headers.insert(name, value);
        ResponseBuilder { inner }
    }

    pub fn set_content_type(self, mime_type: &[u8]) -> (r: Self)
        ensures
            r@ == (ResponseView {
                headers: seq_set(self@.headers, HeaderName::ContentType, mime_type@),
                ..self@
            }),
    {
        let mut inner = self.inner;
        inner.set_content_type(mime_type);
        ResponseBuilder { inner }
    }

    pub fn set_body(self, body: Body) -> (r: Self)
        ensures
            r@ == (ResponseView {
                body: body@,
                headers: match body@ {
                    Some(b) => seq_set(self@.headers, HeaderName::ContentLength, dec_spec(b.len())),
                    None => self@.headers,
                },
                ..self@
            }),
    {
        let mut inner = self.inner;
        inner.set_body(body);
        ResponseBuilder { inner }
    }

    pub fn build(self) -> (r: Response)
        ensures
            r@ == self@,
    {
        self.inner
    }
}

/// The two bytes that end every line.
pub open spec fn crlf() -> Seq<u8> {
    seq!['\r' as u8, '\n' as u8]
}

/// One header line on the wire: `<Name>: <value>` and CRLF.
pub open spec fn header_line_spec(e: HeaderEntry) -> Seq<u8> {
    name_bytes(e.0) + seq![':' as u8, ' ' as u8] + e.1 + crlf()
}

/// All header lines, in order.
pub open spec fn header_lines_spec(hs: Seq<HeaderEntry>) -> Seq<u8>
    decreases hs.len(),
{
    if hs.len() == 0 {
        Seq::empty()
    } else {
        header_line_spec(hs[0]) + header_lines_spec(hs.drop_first())
    }
}

/// Appending one entry appends its line.
proof fn lemma_header_lines_snoc(hs: Seq<HeaderEntry>, e: HeaderEntry)
    ensures
        header_lines_spec(hs.push(e)) == header_lines_spec(hs) + header_line_spec(e),
    decreases hs.len(),
{
    if hs.len() == 0 {
        reveal_with_fuel(header_lines_spec, 3);
        assert(hs.push(e)[0] == e);
        assert(hs.push(e).drop_first() =~= Seq::<HeaderEntry>::empty());
        assert(header_lines_spec(hs.push(e)) =~= header_lines_spec(hs) + header_line_spec(e));
    } else {
        assert(hs.push(e).drop_first() =~= hs.drop_first().push(e));
        lemma_header_lines_snoc(hs.drop_first(), e);
        assert(hs.push(e)[0] == hs[0]);
        assert(header_lines_spec(hs.push(e)) =~= header_lines_spec(hs) + header_line_spec(e));
    }
}

/// The wire form of a whole response.
pub open spec fn serialize_response(r: ResponseView) -> Seq<u8> {
    http_token() + seq!['/' as u8] + version_token(r.version) + seq![' ' as u8]
        + r.status.digits_spec() + seq![' ' as u8] + r.status.phrase_spec() + crlf()
        + header_lines_spec(r.headers) + crlf() + (match r.body {
        None => Seq::<u8>::empty(),
        Some(b) => b,
    })
}

/// Append a byte slice to an output buffer.
fn push_bytes(out: &mut Vec<u8>, s: &[u8])
    ensures
        final(out)@ == old(out)@ + s@,
{
    let mut i: usize = 0;
    while i < s.len()
        invariant
            i <= s@.len(),
            out@ == old(out)@ + s@.subrange(0, i as int),
        decreases s@.len() - i,
    {
        out.push(s[i]);
        i = i + 1;
        assert(out@ =~= old(out)@ + s@.subrange(0, i as int));
    }
    assert(old(out)@ + s@.subrange(0, s@.len() as int) =~= old(out)@ + s@);
}

impl Response {
    /// The full wire form of this response.
    pub fn to_bytes(&self) -> (r: Vec<u8>)
        ensures
            r@ == serialize_response(self@),
    {
        let mut out: Vec<u8> = Vec::new();
        let mut http = crate::parser::http_bytes();
        http.push('/' as u8);
        push_bytes(&mut out, http.as_slice());
        proof {
            assert(out@ =~= http_token() + seq!['/' as u8]);
        }
        push_bytes(&mut out, self.version.as_bytes().as_slice());
        proof {
            assert(out@ =~= http_token() + seq!['/' as u8] + version_token(self@.version));
        }
        out.push(' ' as u8);
        proof {
            assert(out@ =~= http_token() + seq!['/' as u8] + version_token(self@.version) + seq![
                ' ' as u8,
            ]);
        }
        push_bytes(&mut out, self.status_code.as_bytes().as_slice());
        proof {
            assert(out@ =~= http_token() + seq!['/' as u8] + version_token(self@.version) + seq![
                ' ' as u8,
            ] + self@.status.digits_spec());
        }
        out.push(' ' as u8);
        push_bytes(&mut out, self.status_code.reason_phrase().as_slice());
        proof {
            assert(out@ =~= http_token() + seq!['/' as u8] + version_token(self@.version) + seq![
                ' ' as u8,
            ] + self@.status.digits_spec() + seq![' ' as u8] + self@.status.phrase_spec());
        }
        out.push('\r' as u8);
        out.push('\n' as u8);
        proof {
            assert(out@ =~= http_token() + seq!['/' as u8] + version_token(self@.version) + seq![
                ' ' as u8,
            ] + self@.status.digits_spec() + seq![' ' as u8] + self@.status.phrase_spec()
                + crlf());
        }
        let ghost head = out@;
        let mut i: usize = 0;
        while i < self.headers.len()
            invariant
                i <= self@.headers.len(),
                out@ == head + header_lines_spec(self@.headers.take(i as int)),
                head == http_token() + seq!['/' as u8] + version_token(self@.version) + seq![
                    ' ' as u8,
                ] + self@.status.digits_spec() + seq![' ' as u8] + self@.status.phrase_spec()
                    + crlf(),
            decreases self@.headers.len() - i,
        {
            let ghost sofar = self@.headers.take(i as int);
            let name = self.headers.name_at(i);
            push_bytes(&mut out, name.as_bytes().as_slice());
            out.push(':' as u8);
            out.push(' ' as u8);
            push_bytes(&mut out, self.headers.value_at(i).as_slice());
            out.push('\r' as u8);
            out.push('\n' as u8);
            i = i + 1;
            proof {
                lemma_header_lines_snoc(sofar, self@.headers[i - 1]);
                assert(sofar.push(self@.headers[i - 1]) =~= self@.headers.take(i as int));
                assert(out@ =~= head + header_lines_spec(self@.headers.take(i as int)));
            }
        }
        proof {
            assert(self@.headers.take(self@.headers.len() as int) =~= self@.headers);
        }
        out.push('\r' as u8);
        out.push('\n' as u8);
        match &self.body {
            Body::Absent => {
                proof {
                    assert(out@ =~= serialize_response(self@));
                }
            },
            Body::Present(b) => {
                push_bytes(&mut out, b.as_slice());
                proof {
                    assert(out@ =~= serialize_response(self@));
                }
            },
        }
        out
    }
}


/// Reading a status line back: the version token after `HTTP/`, a decimal
/// status code, and the reason phrase up to the carriage return.
pub open spec fn parse_status_line_spec(b: Seq<u8>) -> Option<(u16, Seq<u8>)> {
    match find_byte(b, '/' as u8) {
        None => None,
        Some(k) => {
            if b.take(k) != http_token() {
                None
            } else {
                let rest = b.skip(k + 1);
                match find_byte(rest, ' ' as u8) {
                    None => None,
                    Some(i) => {
                        let rest2 = rest.skip(i + 1);
                        match find_byte(rest2, ' ' as u8) {
                            None => None,
                            Some(j) => {
                                let code_tok = rest2.take(j);
                                if code_tok.len() > 0 && all_digits(code_tok) && dec_value(
                                    code_tok,
                                ) <= u16::MAX {
                                    let rest3 = rest2.skip(j + 1);
                                    match find_byte(rest3, '\r' as u8) {
                                        None => None,
                                        Some(l) => Some(
                                            ((dec_value(code_tok) as u16), rest3.take(l)),
                                        ),
                                    }
                                } else {
                                    None
                                }
                            },
                        }
                    },
                }
            }
        },
    }
}

/// Parse the status line of a serialized response, recovering the numeric
/// code and the reason phrase.
pub fn parse_status_line(bytes: &[u8]) -> (r: Option<(u16, Vec<u8>)>)
    ensures
        match parse_status_line_spec(bytes@) {
            None => r is None,
            Some((c, p)) => r is Some && (r->0).0 == c && (r->0).1@ == p,
        },
{
    let mut parser = Parser::new(bytes);
    let proto = match parser.read_until('/' as u8) {
        Some(p) => p,
        None => {
            return None;
        },
    };
    let http = crate::parser::http_bytes();
    if !crate::bytes::bytes_eq(proto, http.as_slice()) {
        return None;
    }
    match parser.read_until(' ' as u8) {
        Some(_) => (),
        None => {
            return None;
        },
    }
    let code_tok = match parser.read_until(' ' as u8) {
        Some(t) => t,
        None => {
            return None;
        },
    };
    let code = match crate::bytes::parse_decimal(code_tok) {
        Some(c) => c,
        None => {
            return None;
        },
    };
    if code > 65535 {
        return None;
    }
    let phrase = match parser.read_until('\r' as u8) {
        Some(p) => p,
        None => {
            return None;
        },
    };
    Some((code as u16, clone_bytes(phrase)))
}

/// Status-line round trip: serializing a response that carries only a
/// status, then parsing the resulting bytes' status line, recovers exactly
/// that status's code and reason phrase.
#[verifier::rlimit(100)]
pub proof fn lemma_status_line_round_trip(st: StatusCode)
    ensures
        parse_status_line_spec(serialize_response(status_response_view(st))) == Some(
            (st.code_spec(), st.phrase_spec()),
        ),
{
    let s = serialize_response(status_response_view(st));
    let c = st.code_spec();
    let digits = st.digits_spec();
    let phrase = st.phrase_spec();
    let plen = phrase.len() as int;

    // Ground facts that depend on which status this is: the arithmetic of
    // its three digits, and that its phrase holds no carriage return.
    match st {
        StatusCode::OK => {
        },
        StatusCode::MovedPermanently => {
        },
        StatusCode::Found => {
        },
        StatusCode::SeeOther => {
        },
        StatusCode::BadRequest => {
        },
        StatusCode::Unauthorized => {
        },
        StatusCode::Forbidden => {
        },
        StatusCode::NotFound => {
        },
        StatusCode::MethodNotAllowed => {
        },
        StatusCode::LengthRequired => {
        },
        StatusCode::IMATeapot => {
        },
        StatusCode::InternalServerError => {
        },
        StatusCode::HttpVersionNotSupported => {
        },
    }
    assert(((c / 100) * 10 + (c / 10) % 10) * 10 + c % 10 == c) by (nonlinear_arith)
        requires
            c <= 999,
    ;
    assert(forall|k: int| 0 <= k < plen ==> phrase[k] != '\r' as u8);
    assert(forall|k: int| 0 <= k < 3 ==> 48 <= #[trigger] digits[k] <= 57);

    assert(header_lines_spec(Seq::<HeaderEntry>::empty()) =~= Seq::<u8>::empty());
    let vtok = version_token(Version::OneDotOne);
    let sp = seq![' ' as u8];
    assert(s =~= http_token() + seq!['/' as u8] + vtok + sp + digits + sp + phrase + crlf()
        + crlf());

    // The first slash closes the protocol token.
    assert(forall|k: int| 0 <= k < 4 ==> s[k] != '/' as u8);
    assert(s[4] == '/' as u8);
    crate::parser::lemma_find_byte_from(s, '/' as u8, 4);
    assert(s.skip(4)[0] == '/' as u8);
    assert(find_byte(s, '/' as u8) == Some(4int));
    assert(s.take(4) =~= http_token());

    // The version token ends at the first space.
    let rest = s.skip(5);
    assert(rest =~= vtok + sp + digits + sp + phrase + crlf() + crlf());
    assert(forall|k: int| 0 <= k < 3 ==> rest[k] != ' ' as u8);
    crate::parser::lemma_find_byte_from(rest, ' ' as u8, 3);
    assert(rest.skip(3)[0] == ' ' as u8);
    assert(find_byte(rest, ' ' as u8) == Some(3int));

    // The three digits end at the next space.
    let rest2 = rest.skip(4);
    assert(rest2 =~= digits + sp + phrase + crlf() + crlf());
    assert(forall|k: int| 0 <= k < 3 ==> rest2[k] != ' ' as u8);
    crate::parser::lemma_find_byte_from(rest2, ' ' as u8, 3);
    assert(rest2.skip(3)[0] == ' ' as u8);
    assert(find_byte(rest2, ' ' as u8) == Some(3int));
    let code_tok = rest2.take(3);
    assert(code_tok =~= digits);

    // The digit string reads back as the code.
    reveal_with_fuel(dec_value, 5);
    assert(digits.drop_last() =~= seq![digits[0], digits[1]]);
    assert(seq![digits[0], digits[1]].drop_last() =~= seq![digits[0]]);
    assert(seq![digits[0]].drop_last() =~= Seq::<u8>::empty());
    assert(dec_value(digits) == ((digits[0] - 48) * 10 + (digits[1] - 48)) * 10 + (digits[2]
        - 48));
    assert(dec_value(digits) == c);

    // The phrase ends at the carriage return.
    let rest3 = rest2.skip(4);
    assert(rest3 =~= phrase + crlf() + crlf());
    assert(forall|k: int| 0 <= k < plen ==> rest3[k] != '\r' as u8);
    crate::parser::lemma_find_byte_from(rest3, '\r' as u8, plen);
    assert(rest3.skip(plen)[0] == '\r' as u8);
    assert(find_byte(rest3, '\r' as u8) == Some(plen));
    assert(rest3.take(plen) =~= phrase);
}

} // verus!
