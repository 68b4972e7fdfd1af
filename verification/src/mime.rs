//! MIME types by file extension, on plain file-name bytes.
use vstd::prelude::*;

use crate::bytes::bytes_eq;

verus! {

pub open spec fn text_plain_spec() -> Seq<u8> {
    seq![
        't' as u8, 'e' as u8, 'x' as u8, 't' as u8, '/' as u8, 'p' as u8, 'l' as u8,
        'a' as u8, 'i' as u8, 'n' as u8,
    ]
}

pub open spec fn text_html_spec() -> Seq<u8> {
    seq![
        't' as u8, 'e' as u8, 'x' as u8, 't' as u8, '/' as u8, 'h' as u8, 't' as u8,
        'm' as u8, 'l' as u8,
    ]
}

pub open spec fn text_css_spec() -> Seq<u8> {
    seq![
        't' as u8, 'e' as u8, 'x' as u8, 't' as u8, '/' as u8, 'c' as u8, 's' as u8,
        's' as u8,
    ]
}

pub open spec fn text_javascript_spec() -> Seq<u8> {
    seq![
        't' as u8, 'e' as u8, 'x' as u8, 't' as u8, '/' as u8, 'j' as u8, 'a' as u8,
        'v' as u8, 'a' as u8, 's' as u8, 'c' as u8, 'r' as u8, 'i' as u8, 'p' as u8,
        't' as u8,
    ]
}

pub open spec fn image_jpg_spec() -> Seq<u8> {
    seq![
        'i' as u8, 'm' as u8, 'a' as u8, 'g' as u8, 'e' as u8, '/' as u8, 'j' as u8,
        'p' as u8, 'g' as u8,
    ]
}

pub open spec fn image_png_spec() -> Seq<u8> {
    seq![
        'i' as u8, 'm' as u8, 'a' as u8, 'g' as u8, 'e' as u8, '/' as u8, 'p' as u8,
        'n' as u8, 'g' as u8,
    ]
}

pub open spec fn octet_stream_spec() -> Seq<u8> {
    seq![
        'a' as u8, 'p' as u8, 'p' as u8, 'l' as u8, 'i' as u8, 'c' as u8, 'a' as u8,
        't' as u8, 'i' as u8, 'o' as u8, 'n' as u8, '/' as u8, 'o' as u8, 'c' as u8,
        't' as u8, 'e' as u8, 't' as u8, '-' as u8, 's' as u8, 't' as u8, 'r' as u8,
        'e' as u8, 'a' as u8, 'm' as u8,
    ]
}

pub fn text_plain() -> (r: Vec<u8>)
    ensures
        r@ == text_plain_spec(),
{
    let mut v: Vec<u8> = Vec::new();
    v.push('t' as u8);
    v.push('e' as u8);
    v.push('x' as u8);
    v.push('t' as u8);
    v.push('/' as u8);
    v.push('p' as u8);
    v.push('l' as u8);
    v.push('a' as u8);
    v.push('i' as u8);
    v.push('n' as u8);
    assert(v@ =~= text_plain_spec());
    v
}

/// The position of the last occurrence of `t` in `s`.
pub open spec fn rfind_byte(s: Seq<u8>, t: u8) -> Option<int>
    decreases s.len(),
{
    if s.len() == 0 {
        None
    } else if s.last() == t {
        Some(s.len() - 1)
    } else {
        rfind_byte(s.drop_last(), t)
    }
}

/// Scan a slice for the last occurrence of a byte.
pub fn rfind_in(s: &[u8], t: u8) -> (r: Option<usize>)
    ensures
        match r {
            Some(i) => rfind_byte(s@, t) == Some(i as int),
            None => rfind_byte(s@, t) is None,
        },
{
    let mut i: usize = s.len();
    assert(s@.take(s@.len() as int) =~= s@);
    while i > 0
        invariant
            i <= s@.len(),
            rfind_byte(s@.take(i as int), t) == rfind_byte(s@, t),
        decreases i,
    {
        i = i - 1;
        proof {
            assert(s@.take(i + 1).last() == s@[i as int]);
            assert(s@.take(i + 1).drop_last() =~= s@.take(i as int));
        }
        if s[i] == t {
            return Some(i);
        }
    }
    proof {
        assert(s@.take(0) =~= Seq::<u8>::empty());
    }
    None
}

/// The extension of a file name: what follows the last dot of its final
/// path component, provided the dot is not the component's first byte.
pub open spec fn extension_of(f: Seq<u8>) -> Option<Seq<u8>> {
    let start = match rfind_byte(f, '/' as u8) {
        Some(i) => i + 1,
        None => 0,
    };
    let name = f.skip(start);
    match rfind_byte(name, '.' as u8) {
        None => None,
        Some(p) => {
            if p == 0 {
                None
            } else {
                Some(name.skip(p + 1))
            }
        },
    }
}

/// The MIME type served for a file name, by its extension; anything
/// unrecognized is an opaque byte stream.
pub open spec fn mime_of(f: Seq<u8>) -> Seq<u8> {
    match extension_of(f) {
        None => octet_stream_spec(),
        Some(ext) => {
            if ext == seq!['t' as u8, 'x' as u8, 't' as u8] {
                text_plain_spec()
            } else if ext == seq!['h' as u8, 't' as u8, 'm' as u8, 'l' as u8] {
                text_html_spec()
            } else if ext == seq!['c' as u8, 's' as u8, 's' as u8] {
                text_css_spec()
            } else if ext == seq!['j' as u8, 's' as u8] {
                text_javascript_spec()
            } else if ext == seq!['j' as u8, 'p' as u8, 'g' as u8] {
                image_jpg_spec()
            } else if ext == seq!['p' as u8, 'n' as u8, 'g' as u8] {
                image_png_spec()
            } else {
                octet_stream_spec()
            }
        },
    }
}

/// Map a file name to the MIME type it is served as.
pub fn filename_to_mime(filename: &[u8]) -> (r: Vec<u8>)
    ensures
        r@ == mime_of(filename@),
{
    let flen = filename.len();
    let start: usize = match rfind_in(filename, '/' as u8) {
        Some(i) => {
            proof {
                lemma_rfind_in_range(filename@, '/' as u8);
                assert((i as int) < flen as int);
            }
            i + 1
        },
        None => 0,
    };
    let name = vstd::slice::slice_subrange(filename, start, flen);
    proof {
        assert(name@ =~= filename@.skip(start as int));
    }
    let p = match rfind_in(name, '.' as u8) {
        None => {
            return octet_stream_bytes();
        },
        Some(p) => p,
    };
    if p == 0 {
        return octet_stream_bytes();
    }
    let nlen = name.len();
    proof {
        lemma_rfind_in_range(name@, '.' as u8);
        assert((p as int) < nlen as int);
    }
    let ext = vstd::slice::slice_subrange(name, p + 1, nlen);
    proof {
        assert(ext@ =~= name@.skip(p + 1));
    }
    let mut pat: Vec<u8> = Vec::new();
    pat.push('t' as u8);
    pat.push('x' as u8);
    pat.push('t' as u8);
    assert(pat@ =~= seq!['t' as u8, 'x' as u8, 't' as u8]);
    if bytes_eq(ext, pat.as_slice()) {
        return text_plain();
    }
    let mut pat2: Vec<u8> = Vec::new();
    pat2.push('h' as u8);
    pat2.push('t' as u8);
    pat2.push('m' as u8);
    pat2.push('l' as u8);
    assert(pat2@ =~= seq!['h' as u8, 't' as u8, 'm' as u8, 'l' as u8]);
    if bytes_eq(ext, pat2.as_slice()) {
        let mut v: Vec<u8> = Vec::new();
        v.push('t' as u8);
        v.push('e' as u8);
        v.push('x' as u8);
        v.push('t' as u8);
        v.push('/' as u8);
        v.push('h' as u8);
        v.push('t' as u8);
        v.push('m' as u8);
        v.push('l' as u8);
        assert(v@ =~= text_html_spec());
        return v;
    }
    let mut pat3: Vec<u8> = Vec::new();
    pat3.push('c' as u8);
    pat3.push('s' as u8);
    pat3.push('s' as u8);
    assert(pat3@ =~= seq!['c' as u8, 's' as u8, 's' as u8]);
    if bytes_eq(ext, pat3.as_slice()) {
        let mut v: Vec<u8> = Vec::new();
        v.push('t' as u8);
        v.push('e' as u8);
        v.push('x' as u8);
        v.push('t' as u8);
        v.push('/' as u8);
        v.push('c' as u8);
        v.push('s' as u8);
        v.push('s' as u8);
        assert(v@ =~= text_css_spec());
        return v;
    }
    let mut pat4: Vec<u8> = Vec::new();
    pat4.push('j' as u8);
    pat4.push('s' as u8);
    assert(pat4@ =~= seq!['j' as u8, 's' as u8]);
    if bytes_eq(ext, pat4.as_slice()) {
        let mut v: Vec<u8> = Vec::new();
        v.push('t' as u8);
        v.push('e' as u8);
        v.push('x' as u8);
        v.push('t' as u8);
        v.push('/' as u8);
        v.push('j' as u8);
        v.push('a' as u8);
        v.push('v' as u8);
        v.push('a' as u8);
        v.push('s' as u8);
        v.push('c' as u8);
        v.push('r' as u8);
        v.push('i' as u8);
        v.push('p' as u8);
        v.push('t' as u8);
        assert(v@ =~= text_javascript_spec());
        return v;
    }
    let mut pat5: Vec<u8> = Vec::new();
    pat5.push('j' as u8);
    pat5.push('p' as u8);
    pat5.push('g' as u8);
    assert(pat5@ =~= seq!['j' as u8, 'p' as u8, 'g' as u8]);
    if bytes_eq(ext, pat5.as_slice()) {
        let mut v: Vec<u8> = Vec::new();
        v.push('i' as u8);
        v.push('m' as u8);
        v.push('a' as u8);
        v.push('g' as u8);
        v.push('e' as u8);
        v.push('/' as u8);
        v.push('j' as u8);
        v.push('p' as u8);
        v.push('g' as u8);
        assert(v@ =~= image_jpg_spec());
        return v;
    }
    let mut pat6: Vec<u8> = Vec::new();
    pat6.push('p' as u8);
    pat6.push('n' as u8);
    pat6.push('g' as u8);
    assert(pat6@ =~= seq!['p' as u8, 'n' as u8, 'g' as u8]);
    if bytes_eq(ext, pat6.as_slice()) {
        let mut v: Vec<u8> = Vec::new();
        v.push('i' as u8);
        v.push('m' as u8);
        v.push('a' as u8);
        v.push('g' as u8);
        v.push('e' as u8);
        v.push('/' as u8);
        v.push('p' as u8);
        v.push('n' as u8);
        v.push('g' as u8);
        assert(v@ =~= image_png_spec());
        return v;
    }
    octet_stream_bytes()
}

fn octet_stream_bytes() -> (r: Vec<u8>)
    ensures
        r@ == octet_stream_spec(),
{
    let mut v: Vec<u8> = Vec::new();
    v.push('a' as u8);
    v.push('p' as u8);
    v.push('p' as u8);
    v.push('l' as u8);
    v.push('i' as u8);
    v.push('c' as u8);
    v.push('a' as u8);
    v.push('t' as u8);
    v.push('i' as u8);
    v.push('o' as u8);
    v.push('n' as u8);
    v.push('/' as u8);
    v.push('o' as u8);
    v.push('c' as u8);
    v.push('t' as u8);
    v.push('e' as u8);
    v.push('t' as u8);
    v.push('-' as u8);
    v.push('s' as u8);
    v.push('t' as u8);
    v.push('r' as u8);
    v.push('e' as u8);
    v.push('a' as u8);
    v.push('m' as u8);
    assert(v@ =~= octet_stream_spec());
    v
}

/// A found position lies inside the sequence.
pub proof fn lemma_rfind_in_range(s: Seq<u8>, t: u8)
    requires
        rfind_byte(s, t) is Some,
    ensures
        0 <= rfind_byte(s, t)->0 < s.len(),
    decreases s.len(),
{
    if s.len() > 0 && s.last() != t {
        lemma_rfind_in_range(s.drop_last(), t);
    }
}

} // verus!
