//! The closed, case-insensitively parsed catalog of header names, and the
//! ordered header map used by requests and responses.
use vstd::prelude::*;

use crate::bytes::{bytes_eq, clone_bytes};

verus! {

/// A raw header value: an opaque byte sequence.
pub type HeaderValue = Vec<u8>;

#[derive(Clone, Copy, Debug, PartialEq, Eq, Structural)]
pub enum HeaderName {
    Accept,
    AccessControlAllowHeaders,
    AccessControlAllowMethods,
    AccessControlAllowOrigin,
    AccessControlAllowMaxAge,
    Authorization,
    ContentLength,
    ContentType,
    Host,
    Location,
    Origin,
    UserAgent,
    WwwAuthenticate,
    Unknown,
}

/// ASCII lowercasing of one byte.
pub open spec fn lower_byte(b: u8) -> u8 {
    if 'A' as u8 <= b <= 'Z' as u8 {
        (b + 32) as u8
    } else {
        b
    }
}

/// ASCII lowercasing of a byte sequence.
pub open spec fn lower_seq(s: Seq<u8>) -> Seq<u8> {
    s.map_values(|b: u8| lower_byte(b))
}

/// Which catalog entry a header name token names; comparison is
/// case-insensitive, and anything else collapses to `Unknown`.
pub open spec fn header_name_of(s: Seq<u8>) -> HeaderName {
    if lower_seq(s) == lower_seq(name_bytes(HeaderName::Accept)) {
        HeaderName::Accept
    } else if lower_seq(s) == lower_seq(name_bytes(HeaderName::AccessControlAllowHeaders)) {
        HeaderName::AccessControlAllowHeaders
    } else if lower_seq(s) == lower_seq(name_bytes(HeaderName::AccessControlAllowMethods)) {
        HeaderName::AccessControlAllowMethods
    } else if lower_seq(s) == lower_seq(name_bytes(HeaderName::AccessControlAllowOrigin)) {
        HeaderName::AccessControlAllowOrigin
    } else if lower_seq(s) == lower_seq(name_bytes(HeaderName::AccessControlAllowMaxAge)) {
        HeaderName::AccessControlAllowMaxAge
    } else if lower_seq(s) == lower_seq(name_bytes(HeaderName::Authorization)) {
        HeaderName::Authorization
    } else if lower_seq(s) == lower_seq(name_bytes(HeaderName::ContentLength)) {
        HeaderName::ContentLength
    } else if lower_seq(s) == lower_seq(name_bytes(HeaderName::ContentType)) {
        HeaderName::ContentType
    } else if lower_seq(s) == lower_seq(name_bytes(HeaderName::Host)) {
        HeaderName::Host
    } else if lower_seq(s) == lower_seq(name_bytes(HeaderName::Location)) {
        HeaderName::Location
    } else if lower_seq(s) == lower_seq(name_bytes(HeaderName::Origin)) {
        HeaderName::Origin
    } else if lower_seq(s) == lower_seq(name_bytes(HeaderName::UserAgent)) {
        HeaderName::UserAgent
    } else if lower_seq(s) == lower_seq(name_bytes(HeaderName::WwwAuthenticate)) {
        HeaderName::WwwAuthenticate
    } else {
        HeaderName::Unknown
    }
}

/// ASCII-lowercase a byte string.
pub fn lower_bytes(s: &[u8]) -> (r: Vec<u8>)
    ensures
        r@ == lower_seq(s@),
{
    let mut v: Vec<u8> = Vec::new();
    let mut i: usize = 0;
    while i < s.len()
        invariant
            i <= s@.len(),
            v@ == lower_seq(s@.subrange(0, i as int)),
        decreases s@.len() - i,
    {
        let b = s[i];
        if 'A' as u8 <= b && b <= 'Z' as u8 {
            v.push(b + 32);
        } else {
            v.push(b);
        }
        i = i + 1;
        assert(v@ =~= lower_seq(s@.subrange(0, i as int)));
    }
    assert(s@.subrange(0, s@.len() as int) =~= s@);
    v
}

/// The canonical (wire) spelling of each header name.
pub open spec fn name_bytes(n: HeaderName) -> Seq<u8> {
    match n {
        HeaderName::Accept => seq!['A' as u8, 'c' as u8, 'c' as u8, 'e' as u8, 'p' as u8, 't' as u8],
        HeaderName::AccessControlAllowHeaders => seq!['A' as u8, 'c' as u8, 'c' as u8, 'e' as u8, 's' as u8, 's' as u8, '-' as u8, 'C' as u8, 'o' as u8, 'n' as u8, 't' as u8, 'r' as u8, 'o' as u8, 'l' as u8, '-' as u8, 'A' as u8, 'l' as u8, 'l' as u8, 'o' as u8, 'w' as u8, '-' as u8, 'H' as u8, 'e' as u8, 'a' as u8, 'd' as u8, 'e' as u8, 'r' as u8, 's' as u8],
        HeaderName::AccessControlAllowMethods => seq!['A' as u8, 'c' as u8, 'c' as u8, 'e' as u8, 's' as u8, 's' as u8, '-' as u8, 'C' as u8, 'o' as u8, 'n' as u8, 't' as u8, 'r' as u8, 'o' as u8, 'l' as u8, '-' as u8, 'A' as u8, 'l' as u8, 'l' as u8, 'o' as u8, 'w' as u8, '-' as u8, 'M' as u8, 'e' as u8, 't' as u8, 'h' as u8, 'o' as u8, 'd' as u8, 's' as u8],
        HeaderName::AccessControlAllowOrigin => seq!['A' as u8, 'c' as u8, 'c' as u8, 'e' as u8, 's' as u8, 's' as u8, '-' as u8, 'C' as u8, 'o' as u8, 'n' as u8, 't' as u8, 'r' as u8, 'o' as u8, 'l' as u8, '-' as u8, 'A' as u8, 'l' as u8, 'l' as u8, 'o' as u8, 'w' as u8, '-' as u8, 'O' as u8, 'r' as u8, 'i' as u8, 'g' as u8, 'i' as u8, 'n' as u8],
        HeaderName::AccessControlAllowMaxAge => seq!['A' as u8, 'c' as u8, 'c' as u8, 'e' as u8, 's' as u8, 's' as u8, '-' as u8, 'C' as u8, 'o' as u8, 'n' as u8, 't' as u8, 'r' as u8, 'o' as u8, 'l' as u8, '-' as u8, 'M' as u8, 'a' as u8, 'x' as u8, '-' as u8, 'A' as u8, 'g' as u8, 'e' as u8],
        HeaderName::Authorization => seq!['A' as u8, 'u' as u8, 't' as u8, 'h' as u8, 'o' as u8, 'r' as u8, 'i' as u8, 'z' as u8, 'a' as u8, 't' as u8, 'i' as u8, 'o' as u8, 'n' as u8],
        HeaderName::ContentLength => seq!['C' as u8, 'o' as u8, 'n' as u8, 't' as u8, 'e' as u8, 'n' as u8, 't' as u8, '-' as u8, 'L' as u8, 'e' as u8, 'n' as u8, 'g' as u8, 't' as u8, 'h' as u8],
        HeaderName::ContentType => seq!['C' as u8, 'o' as u8, 'n' as u8, 't' as u8, 'e' as u8, 'n' as u8, 't' as u8, '-' as u8, 'T' as u8, 'y' as u8, 'p' as u8, 'e' as u8],
        HeaderName::Host => seq!['H' as u8, 'o' as u8, 's' as u8, 't' as u8],
        HeaderName::Location => seq!['L' as u8, 'o' as u8, 'c' as u8, 'a' as u8, 't' as u8, 'i' as u8, 'o' as u8, 'n' as u8],
        HeaderName::Origin => seq!['O' as u8, 'r' as u8, 'i' as u8, 'g' as u8, 'i' as u8, 'n' as u8],
        HeaderName::UserAgent => seq!['U' as u8, 's' as u8, 'e' as u8, 'r' as u8, '-' as u8, 'A' as u8, 'g' as u8, 'e' as u8, 'n' as u8, 't' as u8],
        HeaderName::WwwAuthenticate => seq!['W' as u8, 'W' as u8, 'W' as u8, '-' as u8, 'A' as u8, 'u' as u8, 't' as u8, 'h' as u8, 'e' as u8, 'n' as u8, 't' as u8, 'i' as u8, 'c' as u8, 'a' as u8, 't' as u8, 'e' as u8],
        HeaderName::Unknown => seq!['U' as u8, 'n' as u8, 'k' as u8, 'n' as u8, 'o' as u8, 'w' as u8, 'n' as u8],
    }
}

impl HeaderName {
    /// The canonical spelling of this header name as bytes.
    #[verifier::rlimit(60)]
    pub fn as_bytes(&self) -> (r: Vec<u8>)
        ensures
            r@ == name_bytes(*self),
    {
        let mut v: Vec<u8> = Vec::new();
        match self {
            HeaderName::Accept => {
                v.push('A' as u8);
                v.push('c' as u8);
                v.push('c' as u8);
                v.push('e' as u8);
                v.push('p' as u8);
                v.push('t' as u8);
            },
            HeaderName::AccessControlAllowHeaders => {
                v.push('A' as u8);
                v.push('c' as u8);
                v.push('c' as u8);
                v.push('e' as u8);
                v.push('s' as u8);
                v.push('s' as u8);
                v.push('-' as u8);
                v.push('C' as u8);
                v.push('o' as u8);
                v.push('n' as u8);
                v.push('t' as u8);
                v.push('r' as u8);
                v.push('o' as u8);
                v.push('l' as u8);
                v.push('-' as u8);
                v.push('A' as u8);
                v.push('l' as u8);
                v.push('l' as u8);
                v.push('o' as u8);
                v.push('w' as u8);
                v.push('-' as u8);
                v.push('H' as u8);
                v.push('e' as u8);
                v.push('a' as u8);
                v.push('d' as u8);
                v.push('e' as u8);
                v.push('r' as u8);
                v.push('s' as u8);
            },
            HeaderName::AccessControlAllowMethods => {
                v.push('A' as u8);
                v.push('c' as u8);
                v.push('c' as u8);
                v.push('e' as u8);
                v.push('s' as u8);
                v.push('s' as u8);
                v.push('-' as u8);
                v.push('C' as u8);
                v.push('o' as u8);
                v.push('n' as u8);
                v.push('t' as u8);
                v.push('r' as u8);
                v.push('o' as u8);
                v.push('l' as u8);
                v.push('-' as u8);
                v.push('A' as u8);
                v.push('l' as u8);
                v.push('l' as u8);
                v.push('o' as u8);
                v.push('w' as u8);
                v.push('-' as u8);
                v.push('M' as u8);
                v.push('e' as u8);
                v.push('t' as u8);
                v.push('h' as u8);
                v.push('o' as u8);
                v.push('d' as u8);
                v.push('s' as u8);
            },
            HeaderName::AccessControlAllowOrigin => {
                v.push('A' as u8);
                v.push('c' as u8);
                v.push('c' as u8);
                v.push('e' as u8);
                v.push('s' as u8);
                v.push('s' as u8);
                v.push('-' as u8);
                v.push('C' as u8);
                v.push('o' as u8);
                v.push('n' as u8);
                v.push('t' as u8);
                v.push('r' as u8);
                v.push('o' as u8);
                v.push('l' as u8);
                v.push('-' as u8);
                v.push('A' as u8);
                v.push('l' as u8);
                v.push('l' as u8);
                v.push('o' as u8);
                v.push('w' as u8);
                v.push('-' as u8);
                v.push('O' as u8);
                v.push('r' as u8);
                v.push('i' as u8);
                v.push('g' as u8);
                v.push('i' as u8);
                v.push('n' as u8);
            },
            HeaderName::AccessControlAllowMaxAge => {
                v.push('A' as u8);
                v.push('c' as u8);
                v.push('c' as u8);
                v.push('e' as u8);
                v.push('s' as u8);
                v.push('s' as u8);
                v.push('-' as u8);
                v.push('C' as u8);
                v.push('o' as u8);
                v.push('n' as u8);
                v.push('t' as u8);
                v.push('r' as u8);
                v.push('o' as u8);
                v.push('l' as u8);
                v.push('-' as u8);
                v.push('M' as u8);
                v.push('a' as u8);
                v.push('x' as u8);
                v.push('-' as u8);
                v.push('A' as u8);
                v.push('g' as u8);
                v.push('e' as u8);
            },
            HeaderName::Authorization => {
                v.push('A' as u8);
                v.push('u' as u8);
                v.push('t' as u8);
                v.push('h' as u8);
                v.push('o' as u8);
                v.push('r' as u8);
                v.push('i' as u8);
                v.push('z' as u8);
                v.push('a' as u8);
                v.push('t' as u8);
                v.push('i' as u8);
                v.push('o' as u8);
                v.push('n' as u8);
            },
            HeaderName::ContentLength => {
                v.push('C' as u8);
                v.push('o' as u8);
                v.push('n' as u8);
                v.push('t' as u8);
                v.push('e' as u8);
                v.push('n' as u8);
                v.push('t' as u8);
                v.push('-' as u8);
                v.push('L' as u8);
                v.push('e' as u8);
                v.push('n' as u8);
                v.push('g' as u8);
                v.push('t' as u8);
                v.push('h' as u8);
            },
            HeaderName::ContentType => {
                v.push('C' as u8);
                v.push('o' as u8);
                v.push('n' as u8);
                v.push('t' as u8);
                v.push('e' as u8);
                v.push('n' as u8);
                v.push('t' as u8);
                v.push('-' as u8);
                v.push('T' as u8);
                v.push('y' as u8);
                v.push('p' as u8);
                v.push('e' as u8);
            },
            HeaderName::Host => {
                v.push('H' as u8);
                v.push('o' as u8);
                v.push('s' as u8);
                v.push('t' as u8);
            },
            HeaderName::Location => {
                v.push('L' as u8);
                v.push('o' as u8);
                v.push('c' as u8);
                v.push('a' as u8);
                v.push('t' as u8);
                v.push('i' as u8);
                v.push('o' as u8);
                v.push('n' as u8);
            },
            HeaderName::Origin => {
                v.push('O' as u8);
                v.push('r' as u8);
                v.push('i' as u8);
                v.push('g' as u8);
                v.push('i' as u8);
                v.push('n' as u8);
            },
            HeaderName::UserAgent => {
                v.push('U' as u8);
                v.push('s' as u8);
                v.push('e' as u8);
                v.push('r' as u8);
                v.push('-' as u8);
                v.push('A' as u8);
                v.push('g' as u8);
                v.push('e' as u8);
                v.push('n' as u8);
                v.push('t' as u8);
            },
            HeaderName::WwwAuthenticate => {
                v.push('W' as u8);
                v.push('W' as u8);
                v.push('W' as u8);
                v.push('-' as u8);
                v.push('A' as u8);
                v.push('u' as u8);
                v.push('t' as u8);
                v.push('h' as u8);
                v.push('e' as u8);
                v.push('n' as u8);
                v.push('t' as u8);
                v.push('i' as u8);
                v.push('c' as u8);
                v.push('a' as u8);
                v.push('t' as u8);
                v.push('e' as u8);
            },
            HeaderName::Unknown => {
                v.push('U' as u8);
                v.push('n' as u8);
                v.push('k' as u8);
                v.push('n' as u8);
                v.push('o' as u8);
                v.push('w' as u8);
                v.push('n' as u8);
            },
        }
        assert(v@ =~= name_bytes(*self));
        v
    }
}

impl HeaderName {
    /// Parse a header name token, case-insensitively; an unrecognized name
    /// collapses to `Unknown`.
    pub fn from_bytes(name: &[u8]) -> (r: HeaderName)
        ensures
            r == header_name_of(name@),
    {
        let low = lower_bytes(name);
        if bytes_eq(low.as_slice(), lower_bytes(HeaderName::Accept.as_bytes().as_slice()).as_slice()) {
            HeaderName::Accept
        } else if bytes_eq(low.as_slice(), lower_bytes(HeaderName::AccessControlAllowHeaders.as_bytes().as_slice()).as_slice()) {
            HeaderName::AccessControlAllowHeaders
        } else if bytes_eq(low.as_slice(), lower_bytes(HeaderName::AccessControlAllowMethods.as_bytes().as_slice()).as_slice()) {
            HeaderName::AccessControlAllowMethods
        } else if bytes_eq(low.as_slice(), lower_bytes(HeaderName::AccessControlAllowOrigin.as_bytes().as_slice()).as_slice()) {
            HeaderName::AccessControlAllowOrigin
        } else if bytes_eq(low.as_slice(), lower_bytes(HeaderName::AccessControlAllowMaxAge.as_bytes().as_slice()).as_slice()) {
            HeaderName::AccessControlAllowMaxAge
        } else if bytes_eq(low.as_slice(), lower_bytes(HeaderName::Authorization.as_bytes().as_slice()).as_slice()) {
            HeaderName::Authorization
        } else if bytes_eq(low.as_slice(), lower_bytes(HeaderName::ContentLength.as_bytes().as_slice()).as_slice()) {
            HeaderName::ContentLength
        } else if bytes_eq(low.as_slice(), lower_bytes(HeaderName::ContentType.as_bytes().as_slice()).as_slice()) {
            HeaderName::ContentType
        } else if bytes_eq(low.as_slice(), lower_bytes(HeaderName::Host.as_bytes().as_slice()).as_slice()) {
            HeaderName::Host
        } else if bytes_eq(low.as_slice(), lower_bytes(HeaderName::Location.as_bytes().as_slice()).as_slice()) {
            HeaderName::Location
        } else if bytes_eq(low.as_slice(), lower_bytes(HeaderName::Origin.as_bytes().as_slice()).as_slice()) {
            HeaderName::Origin
        } else if bytes_eq(low.as_slice(), lower_bytes(HeaderName::UserAgent.as_bytes().as_slice()).as_slice()) {
            HeaderName::UserAgent
        } else if bytes_eq(low.as_slice(), lower_bytes(HeaderName::WwwAuthenticate.as_bytes().as_slice()).as_slice()) {
            HeaderName::WwwAuthenticate
        } else {
            HeaderName::Unknown
        }
    }
}


/// One header entry as it appears in specifications: a name and the raw
/// value bytes.
pub type HeaderEntry = (HeaderName, Seq<u8>);

/// The value of the first entry carrying `n`, if any.
pub open spec fn seq_get(hs: Seq<HeaderEntry>, n: HeaderName) -> Option<Seq<u8>>
    decreases hs.len(),
{
    if hs.len() == 0 {
        None
    } else if hs[0].0 == n {
        Some(hs[0].1)
    } else {
        seq_get(hs.drop_first(), n)
    }
}

/// Writing `n: v` into a header list: the first entry carrying `n` is
/// replaced, or the pair is appended if `n` is absent (last write wins).
pub open spec fn seq_set(hs: Seq<HeaderEntry>, n: HeaderName, v: Seq<u8>) -> Seq<HeaderEntry>
    decreases hs.len(),
{
    if hs.len() == 0 {
        seq![(n, v)]
    } else if hs[0].0 == n {
        seq![(n, v)] + hs.drop_first()
    } else {
        seq![hs[0]] + seq_set(hs.drop_first(), n, v)
    }
}

/// An ordered header map: entries keep their insertion order, and writing
/// an existing name replaces its value in place.
#[derive(Debug)]
pub struct Headers {
    entries: Vec<(HeaderName, Vec<u8>)>,
}

/// The specification-level contents of a raw entry vector.
pub open spec fn entries_view(v: Seq<(HeaderName, Vec<u8>)>) -> Seq<HeaderEntry> {
    v.map_values(|e: (HeaderName, Vec<u8>)| (e.0, e.1@))
}

impl Headers {
    pub closed spec fn view(&self) -> Seq<HeaderEntry> {
        entries_view(self.entries@)
    }

    pub fn new() -> (r: Self)
        ensures
            r@ == Seq::<HeaderEntry>::empty(),
    {
        let r = Headers { entries: Vec::new() };
        assert(r@ =~= Seq::<HeaderEntry>::empty());
        r
    }

    pub fn len(&self) -> (r: usize)
        ensures
            r == self@.len(),
    {
        self.entries.len()
    }

    /// The name of the `i`-th entry.
    pub fn name_at(&self, i: usize) -> (r: HeaderName)
        requires
            i < self@.len(),
        ensures
            r == self@[i as int].0,
    {
        self.entries[i].0
    }

    /// The value of the `i`-th entry.
    pub fn value_at(&self, i: usize) -> (r: &Vec<u8>)
        requires
            i < self@.len(),
        ensures
            r@ == self@[i as int].1,
    {
        &self.entries[i].1
    }

    /// Look a name up.
    pub fn get(&self, n: HeaderName) -> (r: Option<&Vec<u8>>)
        ensures
            match r {
                Some(v) => seq_get(self@, n) == Some(v@),
                None => seq_get(self@, n) is None,
            },
    {
        let mut i: usize = 0;
        assert(self@.skip(0) =~= self@);
        while i < self.entries.len()
            invariant
                i <= self@.len(),
                seq_get(self@.skip(i as int), n) == seq_get(self@, n),
            decreases self@.len() - i,
        {
            proof {
                assert(self@.skip(i as int).drop_first() =~= self@.skip(i + 1));
                assert(self@.skip(i as int)[0] == self@[i as int]);
            }
            if self.entries[i].0 == n {
                return Some(&self.entries[i].1);
            }
            i = i + 1;
        }
        None
    }

    /// Write `n: v`, replacing an existing entry for `n` in place or
    /// appending a new one.
    pub fn insert(&mut self, n: HeaderName, v: Vec<u8>)
        ensures
            final(self)@ == seq_set(old(self)@, n, v@),
    {
        let ghost orig = old(self)@;
        let mut i: usize = 0;
        while i < self.entries.len()
            invariant
                orig == old(self)@,
                self@ == orig,
                i <= self@.len(),
                forall|k: int| 0 <= k < i ==> orig[k].0 != n,
            decreases self@.len() - i,
        {
            if self.entries[i].0 == n {
                self.entries.remove(i);
                self.entries.insert(i, (n, v));
                proof {
                    assert(orig[i as int].0 == n);
                    assert(self@ =~= orig.update(i as int, (n, v@)));
                    lemma_seq_set_found(orig, n, v@, i as int);
                }
                return ;
            }
            i = i + 1;
        }
        self.entries.push((n, v));
        proof {
            assert(self@ =~= orig.push((n, v@)));
            lemma_seq_set_missing(orig, n, v@);
        }
    }

    /// A fresh copy of this header map.
    pub fn duplicate(&self) -> (r: Self)
        ensures
            r@ == self@,
    {
        let mut out: Vec<(HeaderName, Vec<u8>)> = Vec::new();
        let mut i: usize = 0;
        assert(entries_view(out@) =~= self@.subrange(0, 0));
        while i < self.entries.len()
            invariant
                i <= self@.len(),
                entries_view(out@) == self@.subrange(0, i as int),
            decreases self@.len() - i,
        {
            let ghost out0 = out@;
            let name = self.entries[i].0;
            let value = clone_bytes(self.entries[i].1.as_slice());
            out.push((name, value));
            i = i + 1;
            proof {
                assert(entries_view(out0).len() == out0.len());
                assert(out0.len() == i - 1);
                assert(out@.len() == i as int);
                assert forall|k: int|
                    0 <= k < entries_view(out@).len() implies entries_view(out@)[k]
                    == self@.subrange(0, i as int)[k] by {
                    if k < i - 1 {
                        assert(out@[k] == out0[k]);
                        assert(entries_view(out0)[k] == self@.subrange(0, i - 1)[k]);
                    } else {
                        assert(out@[k] == (name, value));
                    }
                };
                assert(entries_view(out@) =~= self@.subrange(0, i as int));
            }
        }
        let r = Headers { entries: out };
        assert(self@.subrange(0, self@.len() as int) =~= self@);
        r
    }
}

/// Replacing the first entry that carries `n` is the same as updating the
/// list at that position.
proof fn lemma_seq_set_found(hs: Seq<HeaderEntry>, n: HeaderName, v: Seq<u8>, j: int)
    requires
        0 <= j < hs.len(),
        hs[j].0 == n,
        forall|k: int| 0 <= k < j ==> hs[k].0 != n,
    ensures
        seq_set(hs, n, v) == hs.update(j, (n, v)),
    decreases j,
{
    if j == 0 {
        assert(seq_set(hs, n, v) =~= hs.update(0, (n, v)));
    } else {
        assert(hs.drop_first()[j - 1].0 == n);
        lemma_seq_set_found(hs.drop_first(), n, v, j - 1);
        assert(seq_set(hs, n, v) =~= hs.update(j, (n, v)));
    }
}

/// Writing a name that is absent appends the entry.
proof fn lemma_seq_set_missing(hs: Seq<HeaderEntry>, n: HeaderName, v: Seq<u8>)
    requires
        forall|k: int| 0 <= k < hs.len() ==> hs[k].0 != n,
    ensures
        seq_set(hs, n, v) == hs.push((n, v)),
    decreases hs.len(),
{
    if hs.len() == 0 {
        assert(seq_set(hs, n, v) =~= hs.push((n, v)));
    } else {
        lemma_seq_set_missing(hs.drop_first(), n, v);
        assert(seq_set(hs, n, v) =~= hs.push((n, v)));
    }
}


/// The header map behaves as a map: reading after a write sees the written
/// value at its name and leaves every other name alone.
pub proof fn lemma_seq_get_set(hs: Seq<HeaderEntry>, n: HeaderName, v: Seq<u8>, m: HeaderName)
    ensures
        seq_get(seq_set(hs, n, v), m) == if m == n {
            Some(v)
        } else {
            seq_get(hs, m)
        },
    decreases hs.len(),
{
    if hs.len() == 0 {
        reveal_with_fuel(seq_get, 3);
        let w = seq![(n, v)];
        assert(seq_set(hs, n, v) =~= w);
        assert(w[0] == (n, v));
        assert(w.drop_first() =~= Seq::<HeaderEntry>::empty());
    } else if hs[0].0 == n {
        reveal_with_fuel(seq_get, 3);
        let w = seq![(n, v)] + hs.drop_first();
        assert(seq_set(hs, n, v) == w);
        assert(w[0] == (n, v));
        assert(w.drop_first() =~= hs.drop_first());
    } else {
        let w = seq![hs[0]] + seq_set(hs.drop_first(), n, v);
        assert(seq_set(hs, n, v) == w);
        assert(w.len() > 0);
        assert(w[0] == hs[0]);
        assert(w.drop_first() =~= seq_set(hs.drop_first(), n, v));
        lemma_seq_get_set(hs.drop_first(), n, v, m);
    }
}

} // verus!
