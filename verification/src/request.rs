//! Structured requests, and the incremental assembler that reconstructs a
//! request from an arbitrary sequence of transport chunks.
use vstd::prelude::*;

use crate::body::Body;
use crate::bytes::{all_digits, copy_range, dec_value};
use crate::header::{seq_get, seq_set, HeaderEntry, HeaderName, Headers};
use crate::method::Method;
use crate::parser::{find_byte, parse_header_spec, parse_request_line_spec, Parser};
use crate::status::StatusCode;
use crate::{Uri, Version};

verus! {

/// The mathematical content of a request.
#[verifier::ext_equal]
pub ghost struct RequestView {
    pub method: Method,
    pub uri: Seq<u8>,
    pub version: Version,
    pub headers: Seq<HeaderEntry>,
    pub body: Option<Seq<u8>>,
}

/// Represents an HTTP request: built by `RequestBuffer` from wire bytes, or
/// by hand through `RequestBuilder`, and passed to handlers.
#[derive(Debug)]
pub struct Request {
    method: Method,
    uri: Uri,
    version: Version,
    headers: Headers,
    body: Body,
}

impl Request {
    pub closed spec fn view(&self) -> RequestView {
        RequestView {
            method: self.method,
            uri: self.uri@,
            version: self.version,
            headers: self.headers@,
            body: self.body@,
        }
    }

    pub fn builder() -> (r: RequestBuilder)
        ensures
            r@ == init_request_view(),
    {
        RequestBuilder::new()
    }

    pub fn method(&self) -> (r: &Method)
        ensures
            r == self@.method,
    {
        &self.method
    }

    pub fn uri(&self) -> (r: &Uri)
        ensures
            r@ == self@.uri,
    {
        &self.uri
    }

    pub fn version(&self) -> (r: &Version)
        ensures
            r == self@.version,
    {
        &self.version
    }

    pub fn headers(&self) -> (r: &Headers)
        ensures
            r@ == self@.headers,
    {
        &self.headers
    }

    pub fn body(&self) -> (r: &Body)
        ensures
            r@ == self@.body,
    {
        &self.body
    }

    pub fn get_header(&self, name: HeaderName) -> (r: Option<&Vec<u8>>)
        ensures
            match r {
                Some(v) => seq_get(self@.headers, name) == Some(v@),
                None => seq_get(self@.headers, name) is None,
            },
    {
        self.headers.get(name)
    }

    pub fn set_header(&mut self, name: HeaderName, value: Vec<u8>)
        ensures
            final(self)@ == (RequestView {
                headers: seq_set(old(self)@.headers, name, value@),
                ..old(self)@
            }),
    {
        self.headers.insert(name, value);
    }

    pub fn set_body(&mut self, body: Body)
        ensures
            final(self)@ == (RequestView { body: body@, ..old(self)@ }),
    {
        self.body = body;
    }

    /// A fresh copy of this request.
    pub fn duplicate(&self) -> (r: Self)
        ensures
            r@ == self@,
    {
        Request {
            method: self.method,
            uri: self.uri.duplicate(),
            version: self.version,
            headers: self.headers.duplicate(),
            body: self.body.duplicate(),
        }
    }
}

/// The view of a freshly built request: a GET for `/` with no headers and
/// no body.
pub open spec fn init_request_view() -> RequestView {
    RequestView {
        method: Method::Get,
        uri: seq!['/' as u8],
        version: Version::OneDotOne,
        headers: Seq::empty(),
        body: None,
    }
}

impl Default for Request {
    fn default() -> (r: Self)
        ensures
            r@ == init_request_view(),
    {
        Request {
            method: Method::Get,
            uri: Uri::default(),
            version: Version::OneDotOne,
            headers: Headers::new(),
            body: Body::Absent,
        }
    }
}

/// Step-by-step construction of a request.
#[derive(Debug)]
pub struct RequestBuilder {
    inner: Request,
}

impl RequestBuilder {
    pub closed spec fn view(&self) -> RequestView {
        self.inner@
    }

    pub fn new() -> (r: Self)
        ensures
            r@ == init_request_view(),
    {
        RequestBuilder { inner: Request::default() }
    }

    pub fn set_method(self, method: Method) -> (r: Self)
        ensures
            r@ == (RequestView { method: method, ..self@ }),
    {
        let mut inner = self.inner;
        inner.method = method;
        RequestBuilder { inner }
    }

    pub fn set_uri(self, uri: Uri) -> (r: Self)
        ensures
            r@ == (RequestView { uri: uri@, ..self@ }),
    {
        let mut inner = self.inner;
        inner.uri = uri;
        RequestBuilder { inner }
    }

    pub fn set_header(self, name: HeaderName, value: Vec<u8>) -> (r: Self)
        ensures
            r@ == (RequestView { headers: seq_set(self@.headers, name, value@), ..self@ }),
    {
        let mut inner = self.inner;
        inner.headers.insert(name, value);
        RequestBuilder { inner }
    }

    pub fn set_body(self, body: Body) -> (r: Self)
        ensures
            r@ == (RequestView { body: body@, ..self@ }),
    {
        let mut inner = self.inner;
        inner.body = body;
        RequestBuilder { inner }
    }

    pub fn build(self) -> (r: Request)
        ensures
            r@ == self@,
    {
        self.inner
    }
}


/// How far the assembler has come on the current request.
#[derive(Clone, Copy, Debug, PartialEq, Eq, Structural)]
pub enum ParseState {
    RequestLine,
    Headers,
    Completed,
}

/// The mathematical state of a request assembler: the unconsumed bytes, the
/// parse state, the request assembled so far, the body countdown once a
/// `Content-Length` was seen, and the terminal error if parsing failed.
#[verifier::ext_equal]
pub ghost struct RbView {
    pub buf: Seq<u8>,
    pub state: ParseState,
    pub req: RequestView,
    pub needed: Option<nat>,
    pub err: Option<StatusCode>,
}

/// The state of a fresh assembler.
pub open spec fn rb_init() -> RbView {
    RbView {
        buf: Seq::empty(),
        state: ParseState::RequestLine,
        req: init_request_view(),
        needed: None,
        err: None,
    }
}

/// The same assembler state with bytes appended to its buffer.
pub open spec fn rb_append(s: RbView, data: Seq<u8>) -> RbView {
    RbView { buf: s.buf + data, ..s }
}

/// The value of a `Content-Length` header, when it is a plain decimal
/// number that fits in `usize`.
pub open spec fn content_length_of(v: Seq<u8>) -> Option<nat> {
    if v.len() > 0 && all_digits(v) && dec_value(v) <= usize::MAX {
        Some(dec_value(v))
    } else {
        None
    }
}

/// One parsing step of the assembler, if one is possible on the buffered
/// bytes: consuming the body once enough bytes are in, or one complete
/// CRLF-terminated line.
pub open spec fn rb_step(s: RbView) -> Option<RbView> {
    if s.err is Some || s.state is Completed {
        None
    } else if s.state is Headers && s.needed is Some {
        let n = s.needed->0;
        if s.buf.len() >= n {
            Some(
                RbView {
                    buf: s.buf.skip(n as int),
                    state: ParseState::Completed,
                    req: RequestView { body: Some(s.buf.take(n as int)), ..s.req },
                    needed: None,
                    err: None,
                },
            )
        } else {
            None
        }
    } else {
        match find_byte(s.buf, '\r' as u8) {
            None => None,
            Some(i) => {
                if i + 1 < s.buf.len() && s.buf[i + 1] == '\n' as u8 {
                    let line = s.buf.take(i + 2);
                    let rest = s.buf.skip(i + 2);
                    if s.state is RequestLine {
                        match parse_request_line_spec(line) {
                            Err(e) => Some(RbView { buf: rest, err: Some(e), ..s }),
                            Ok((m, u, v)) => Some(
                                RbView {
                                    buf: rest,
                                    state: ParseState::Headers,
                                    req: RequestView {
                                        method: m,
                                        uri: u,
                                        version: v,
                                        ..s.req
                                    },
                                    ..s
                                },
                            ),
                        }
                    } else if i == 0 {
                        match seq_get(s.req.headers, HeaderName::ContentLength) {
                            None => Some(
                                RbView { buf: rest, state: ParseState::Completed, ..s },
                            ),
                            Some(v) => match content_length_of(v) {
                                Some(n) => Some(RbView { buf: rest, needed: Some(n), ..s }),
                                None => Some(
                                    RbView {
                                        buf: rest,
                                        err: Some(StatusCode::LengthRequired),
                                        ..s
                                    },
                                ),
                            },
                        }
                    } else {
                        match parse_header_spec(line) {
                            Err(e) => Some(RbView { buf: rest, err: Some(e), ..s }),
                            Ok((n2, v2)) => Some(
                                RbView {
                                    buf: rest,
                                    req: RequestView {
                                        headers: seq_set(s.req.headers, n2, v2),
                                        ..s.req
                                    },
                                    ..s
                                },
                            ),
                        }
                    }
                } else {
                    None
                }
            },
        }
    }
}

/// A bound that shrinks with every step: the buffer length plus a rank for
/// the state.
pub open spec fn rb_rank(s: RbView) -> int {
    if s.err is Some || s.state is Completed {
        0
    } else if s.needed is Some {
        1
    } else {
        2
    }
}

/// Running the assembler until no step applies.
pub open spec fn rb_drain(s: RbView) -> RbView
    decreases s.buf.len(), rb_rank(s),
{
    match rb_step(s) {
        None => s,
        Some(s2) => {
            if s2.buf.len() < s.buf.len() || (s2.buf.len() == s.buf.len() && rb_rank(s2)
                < rb_rank(s)) {
                rb_drain(s2)
            } else {
                s2
            }
        },
    }
}

/// Every step shrinks the measure, so the guard inside `rb_drain` never
/// bites.
pub proof fn lemma_rb_step_decreases(s: RbView)
    requires
        rb_step(s) is Some,
    ensures
        rb_step(s)->0.buf.len() < s.buf.len() || (rb_step(s)->0.buf.len() == s.buf.len()
            && rb_rank(rb_step(s)->0) < rb_rank(s)),
{
    let s2 = rb_step(s)->0;
    if s.state is Headers && s.needed is Some {
        let n = s.needed->0;
        if n == 0 {
            assert(s.buf.skip(0) =~= s.buf);
        }
        assert(s.buf.skip(n as int).len() == s.buf.len() - n);
    } else {
        crate::parser::lemma_find_byte_is_first(s.buf, '\r' as u8);
    }
}

/// Feeding bytes: append them, then drain.
pub open spec fn rb_feed(s: RbView, data: Seq<u8>) -> RbView {
    rb_drain(rb_append(s, data))
}

/// A state on which no step applies any more; every state an assembler
/// exposes between calls is settled.
pub open spec fn rb_settled(s: RbView) -> bool {
    rb_drain(s) == s
}


/// Construct a `Request` from chunked data, as delivered by a transport.
/// Bytes are buffered across calls; whenever a complete unit (a line, or
/// the announced number of body bytes) is buffered, it is consumed.
pub struct RequestBuffer {
    buffer: Vec<u8>,
    state: ParseState,
    request: Request,
    needed: Option<usize>,
    failed: Option<StatusCode>,
}

impl RequestBuffer {
    pub closed spec fn view(&self) -> RbView {
        RbView {
            buf: self.buffer@,
            state: self.state,
            req: self.request@,
            needed: match self.needed {
                Some(n) => Some(n as nat),
                None => None,
            },
            err: self.failed,
        }
    }

    pub fn new() -> (r: Self)
        ensures
            r@ == rb_init(),
    {
        let r = RequestBuffer {
            buffer: Vec::new(),
            state: ParseState::RequestLine,
            request: Request::default(),
            needed: None,
            failed: None,
        };
        proof {
            assert(r@.buf =~= rb_init().buf);
            assert(r@.req.headers =~= rb_init().req.headers);
        }
        r
    }

    /// Hand the assembled request out.
    pub fn complete(self) -> (r: Request)
        ensures
            r@ == self@.req,
    {
        self.request
    }

    /// Perform one parsing step on the buffered bytes, if one is possible.
    fn step_exec(&mut self) -> (progressed: bool)
        ensures
            progressed ==> rb_step(old(self)@) == Some(final(self)@),
            !progressed ==> rb_step(old(self)@) is None && final(self)@ == old(self)@,
    {
        if self.failed.is_some() {
            return false;
        }
        match self.state {
            ParseState::Completed => false,
            ParseState::Headers if self.needed.is_some() => {
                let n = match self.needed {
                    Some(n) => n,
                    None => 0,
                };
                if self.buffer.len() >= n {
                    let body = copy_range(self.buffer.as_slice(), 0, n);
                    let rest = copy_range(self.buffer.as_slice(), n, self.buffer.len());
                    self.request.body = Body::Present(body);
                    self.buffer = rest;
                    self.state = ParseState::Completed;
                    self.needed = None;
                    proof {
                        assert(self@ =~~= rb_step(old(self)@)->0);
                    }
                    true
                } else {
                    false
                }
            },
            _ => {
                let i = match crate::parser::find_in(self.buffer.as_slice(), '\r' as u8) {
                    Some(i) => i,
                    None => {
                        return false;
                    },
                };
                let blen = self.buffer.len();
                proof {
                    crate::parser::lemma_find_byte_is_first(self@.buf, '\r' as u8);
                    assert((i as int) < blen as int);
                }
                if i + 1 >= blen {
                    return false;
                }
                if self.buffer[i + 1] != '\n' as u8 {
                    return false;
                }
                let line = vstd::slice::slice_subrange(self.buffer.as_slice(), 0, i + 2);
                proof {
                    assert(line@ =~= self@.buf.take(i + 2));
                }
                match self.state {
                    ParseState::RequestLine => {
                        let mut p = Parser::new(line);
                        match p.parse_request_line() {
                            Err(e) => {
                                self.failed = Some(e);
                            },
                            Ok((m, u, v)) => {
                                self.request.method = m;
                                self.request.uri = u;
                                self.request.version = v;
                                self.state = ParseState::Headers;
                            },
                        }
                    },
                    _ => {
                        if i == 0 {
                            let cl = match self.request.headers.get(HeaderName::ContentLength) {
                                None => None,
                                Some(v) => crate::bytes::parse_decimal(v.as_slice()),
                            };
                            match (self.request.headers.get(HeaderName::ContentLength), cl) {
                                (None, _) => {
                                    self.state = ParseState::Completed;
                                },
                                (Some(_), Some(n)) => {
                                    self.needed = Some(n);
                                },
                                (Some(_), None) => {
                                    self.failed = Some(StatusCode::LengthRequired);
                                },
                            }
                        } else {
                            let mut p = Parser::new(line);
                            match p.parse_header() {
                                Err(e) => {
                                    self.failed = Some(e);
                                },
                                Ok((n2, v2)) => {
                                    self.request.headers.insert(n2, v2);
                                },
                            }
                        }
                    },
                }
                let rest = copy_range(self.buffer.as_slice(), i + 2, self.buffer.len());
                self.buffer = rest;
                proof {
                    let ghost ex = rb_step(old(self)@)->0;
                    assert(self@.buf =~= ex.buf);
                    assert(self@.state == ex.state);
                    assert(self@.needed == ex.needed);
                    assert(self@.err == ex.err);
                    assert(self@.req =~~= ex.req);
                    assert(self@ =~~= ex);
                }
                true
            },
        }
    }

    /// Extend the buffer with `data` and parse as far as the buffered bytes
    /// reach. The reported state is `Completed` once the whole request,
    /// body included, has been consumed; a parse failure is terminal and is
    /// reported on this and every later call.
    pub fn try_parse(&mut self, data: &[u8]) -> (r: Result<ParseState, StatusCode>)
        ensures
            final(self)@ == rb_feed(old(self)@, data@),
            match final(self)@.err {
                Some(e) => r == Err::<ParseState, StatusCode>(e),
                None => r == Ok::<ParseState, StatusCode>(final(self)@.state),
            },
    {
        let ghost target = rb_append(old(self)@, data@);
        let mut k: usize = 0;
        while k < data.len()
            invariant
                k <= data@.len(),
                self@ == rb_append(old(self)@, data@.take(k as int)),
            decreases data@.len() - k,
        {
            self.buffer.push(data[k]);
            k = k + 1;
            proof {
                assert(self@.buf =~= (rb_append(old(self)@, data@.take(k as int))).buf);
            }
        }
        proof {
            assert(data@.take(data@.len() as int) =~= data@);
        }
        loop
            invariant
                target == rb_append(old(self)@, data@),
                rb_drain(self@) == rb_drain(target),
            ensures
                self@ == rb_drain(target),
            decreases self@.buf.len(), rb_rank(self@),
        {
            let ghost before = self@;
            let progressed = self.step_exec();
            proof {
                if progressed {
                    lemma_rb_step_decreases(before);
                }
            }
            if !progressed {
                break ;
            }
        }
        match self.failed {
            Some(e) => Err(e),
            None => Ok(self.state),
        }
    }
}


/// An occurrence found in a buffer is still the first occurrence after
/// more bytes arrive.
proof fn lemma_find_byte_stable(u: Seq<u8>, v: Seq<u8>, c: u8)
    requires
        find_byte(u, c) is Some,
    ensures
        find_byte(u + v, c) == find_byte(u, c),
{
    let i = find_byte(u, c)->0;
    crate::parser::lemma_find_byte_is_first(u, c);
    assert forall|k: int| 0 <= k < i implies (u + v)[k] != c by {
        assert((u + v)[k] == u[k]);
    }
    crate::parser::lemma_find_byte_from(u + v, c, i);
    assert((u + v).skip(i)[0] == u[i]);
}

/// A step that is possible on a buffer is the same step after more bytes
/// arrive: parsing consumes a complete unit, which appending cannot change.
proof fn lemma_rb_step_append(s: RbView, b: Seq<u8>)
    requires
        rb_step(s) is Some,
    ensures
        rb_step(rb_append(s, b)) == Some(rb_append(rb_step(s)->0, b)),
{
    let t = rb_append(s, b);
    let s2 = rb_step(s)->0;
    if s.state is Headers && s.needed is Some {
        let n = s.needed->0;
        assert(t.buf.take(n as int) =~= s.buf.take(n as int));
        assert(t.buf.skip(n as int) =~= s.buf.skip(n as int) + b);
        assert(rb_step(t)->0 =~~= rb_append(s2, b));
    } else {
        let i = find_byte(s.buf, '\r' as u8)->0;
        lemma_find_byte_stable(s.buf, b, '\r' as u8);
        crate::parser::lemma_find_byte_is_first(s.buf, '\r' as u8);
        assert(t.buf[i + 1] == s.buf[i + 1]);
        assert(t.buf.take(i + 2) =~= s.buf.take(i + 2));
        assert(t.buf.skip(i + 2) =~= s.buf.skip(i + 2) + b);
        assert(rb_step(t)->0 =~~= rb_append(s2, b));
    }
}

/// Draining, then appending, then draining again reaches the same state as
/// appending to the undrained buffer and draining once.
proof fn lemma_rb_drain_append(s: RbView, b: Seq<u8>)
    ensures
        rb_drain(rb_append(rb_drain(s), b)) == rb_drain(rb_append(s, b)),
    decreases s.buf.len(), rb_rank(s),
{
    match rb_step(s) {
        None => {
        },
        Some(s2) => {
            lemma_rb_step_decreases(s);
            lemma_rb_step_append(s, b);
            lemma_rb_step_decreases(rb_append(s, b));
            lemma_rb_drain_append(s2, b);
        },
    }
}

/// Feeding two byte strings one after the other is the same as feeding
/// their concatenation.
pub proof fn lemma_rb_feed_append(s: RbView, a: Seq<u8>, b: Seq<u8>)
    ensures
        rb_feed(rb_feed(s, a), b) == rb_feed(s, a + b),
{
    lemma_rb_drain_append(rb_append(s, a), b);
    assert(rb_append(rb_append(s, a), b) =~~= rb_append(s, a + b));
}

/// The states a chunk sequence drives an assembler through, folded to the
/// final one.
pub open spec fn rb_feed_all(s: RbView, chunks: Seq<Seq<u8>>) -> RbView
    decreases chunks.len(),
{
    if chunks.len() == 0 {
        s
    } else {
        rb_feed_all(rb_feed(s, chunks[0]), chunks.drop_first())
    }
}

/// All the chunks, joined in order.
pub open spec fn concat_chunks(chunks: Seq<Seq<u8>>) -> Seq<u8>
    decreases chunks.len(),
{
    if chunks.len() == 0 {
        Seq::empty()
    } else {
        chunks[0] + concat_chunks(chunks.drop_first())
    }
}

/// A state the assembler rests in is unchanged by draining again.
pub proof fn lemma_rb_drain_idempotent(s: RbView)
    ensures
        rb_settled(rb_drain(s)),
    decreases s.buf.len(), rb_rank(s),
{
    match rb_step(s) {
        None => {
        },
        Some(s2) => {
            lemma_rb_step_decreases(s);
            lemma_rb_drain_idempotent(s2);
        },
    }
}

/// Byte-boundary invariance: feeding the chunks of a byte sequence one by
/// one to a settled assembler ends in exactly the state that feeding the
/// whole sequence at once reaches, however the sequence was cut. In
/// particular the parsed request is the same.
pub proof fn lemma_byte_boundary_invariance(s: RbView, chunks: Seq<Seq<u8>>)
    requires
        rb_settled(s),
    ensures
        rb_feed_all(s, chunks) == rb_feed(s, concat_chunks(chunks)),
    decreases chunks.len(),
{
    if chunks.len() == 0 {
        assert(rb_append(s, Seq::empty()).buf =~= s.buf);
        assert(rb_append(s, Seq::empty()) =~~= s);
    } else {
        let s1 = rb_feed(s, chunks[0]);
        lemma_rb_drain_idempotent(rb_append(s, chunks[0]));
        lemma_byte_boundary_invariance(s1, chunks.drop_first());
        lemma_rb_feed_append(s, chunks[0], concat_chunks(chunks.drop_first()));
    }
}

/// A fresh assembler is settled, so byte-boundary invariance applies to it.
pub proof fn lemma_rb_init_settled()
    ensures
        rb_settled(rb_init()),
{
}

} // verus!
