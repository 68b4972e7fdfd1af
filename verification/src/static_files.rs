//! Mapping request paths onto a mounted directory, safely: `..` segments
//! can never climb out of the mount root.
use vstd::prelude::*;

mod static_dir;
mod static_file;

pub use static_dir::StaticDir;
pub use static_file::StaticFile;

use crate::bytes::{bytes_eq, clone_bytes, copy_range};
use crate::parser::find_byte;
use crate::status::StatusCode;
use crate::Uri;

verus! {

/// The views of a row of path segments.
pub open spec fn seg_views(v: Seq<Vec<u8>>) -> Seq<Seq<u8>> {
    v.map_values(|x: Vec<u8>| x@)
}

/// The nonempty `/`-separated pieces of a path.
pub open spec fn segments_of(p: Seq<u8>) -> Seq<Seq<u8>>
    decreases p.len(),
    via segments_of_decreases
{
    if p.len() == 0 {
        Seq::empty()
    } else {
        match find_byte(p, '/' as u8) {
            None => seq![p],
            Some(i) => {
                if i == 0 {
                    segments_of(p.skip(1))
                } else {
                    seq![p.take(i)] + segments_of(p.skip(i + 1))
                }
            },
        }
    }
}

#[via_fn]
proof fn segments_of_decreases(p: Seq<u8>) {
    if p.len() > 0 {
        crate::parser::lemma_find_byte_is_first(p, '/' as u8);
    }
}

/// The current-directory segment `.`.
pub open spec fn dot() -> Seq<u8> {
    seq!['.' as u8]
}

/// The parent-directory segment `..`.
pub open spec fn dotdot() -> Seq<u8> {
    seq!['.' as u8, '.' as u8]
}

/// Walking relative segments over a directory stack: `.` is skipped, `..`
/// pops, anything else descends. Popping an empty stack fails: the walk
/// fell out of the root.
pub open spec fn resolve_spec(stack: Seq<Seq<u8>>, segs: Seq<Seq<u8>>) -> Option<Seq<Seq<u8>>>
    decreases segs.len(),
{
    if segs.len() == 0 {
        Some(stack)
    } else if segs[0] == dot() {
        resolve_spec(stack, segs.drop_first())
    } else if segs[0] == dotdot() {
        if stack.len() == 0 {
            None
        } else {
            resolve_spec(stack.drop_last(), segs.drop_first())
        }
    } else {
        resolve_spec(stack.push(segs[0]), segs.drop_first())
    }
}

/// Where a request path leads under a mount: the path must extend the
/// mount prefix, the walk must never fall out, and — the traversal
/// guard — the resolved place must still lie below the mount directory.
pub open spec fn find_file_spec(mount: Seq<u8>, serve_at: Seq<u8>, uri: Seq<u8>) -> Option<
    Seq<Seq<u8>>,
> {
    let sa = segments_of(serve_at);
    let us = segments_of(uri);
    if !sa.is_prefix_of(us) {
        None
    } else {
        match resolve_spec(segments_of(mount), us.skip(sa.len() as int)) {
            None => None,
            Some(r) => {
                if segments_of(mount).is_prefix_of(r) {
                    Some(r)
                } else {
                    None
                }
            },
        }
    }
}

/// The segments joined back into a path with `/` separators.
pub open spec fn join_spec(s: Seq<Seq<u8>>) -> Seq<u8>
    decreases s.len(),
{
    if s.len() == 0 {
        Seq::empty()
    } else if s.len() == 1 {
        s[0]
    } else {
        s[0] + seq!['/' as u8] + join_spec(s.drop_first())
    }
}

/// Split a path into its nonempty segments.
pub fn split_segments(p: &[u8]) -> (r: Vec<Vec<u8>>)
    ensures
        seg_views(r@) == segments_of(p@),
    decreases p@.len(),
{
    if p.len() == 0 {
        let r: Vec<Vec<u8>> = Vec::new();
        proof {
            assert(seg_views(r@) =~= segments_of(p@));
        }
        return r;
    }
    match crate::parser::find_in(p, '/' as u8) {
        None => {
            let mut r: Vec<Vec<u8>> = Vec::new();
            r.push(clone_bytes(p));
            proof {
                assert(seg_views(r@) =~= segments_of(p@));
            }
            r
        },
        Some(i) => {
            proof {
                crate::parser::lemma_find_byte_is_first(p@, '/' as u8);
            }
            if i == 0 {
                let rest = vstd::slice::slice_subrange(p, 1, p.len());
                proof {
                    assert(rest@ =~= p@.skip(1));
                }
                split_segments(rest)
            } else {
                let head = copy_range(p, 0, i);
                let rest = vstd::slice::slice_subrange(p, i + 1, p.len());
                proof {
                    assert(rest@ =~= p@.skip(i + 1));
                }
                let mut r = split_segments(rest);
                let ghost r0 = r@;
                r.insert(0, head);
                proof {
                    assert(r@ =~= seq![head].add(r0));
                    assert(seg_views(r@) =~= seq![p@.take(i as int)] + seg_views(r0));
                }
                r
            }
        },
    }
}

/// Join segments with `/` separators.
pub fn join_segments(s: &Vec<Vec<u8>>) -> (r: Vec<u8>)
    ensures
        r@ == join_spec(seg_views(s@)),
{
    let mut out: Vec<u8> = Vec::new();
    let mut i: usize = 0;
    while i < s.len()
        invariant
            i <= s@.len(),
            i == 0 ==> out@ == Seq::<u8>::empty(),
            i > 0 ==> out@ == join_spec(seg_views(s@.take(i as int))),
        decreases s@.len() - i,
    {
        let ghost out0 = out@;
        if i > 0 {
            out.push('/' as u8);
        }
        let mut k: usize = 0;
        let seg = &s[i];
        while k < seg.len()
            invariant
                k <= seg@.len(),
                i == 0 ==> out@ == seg@.subrange(0, k as int),
                i > 0 ==> out@ == out0 + seq!['/' as u8] + seg@.subrange(0, k as int),
            decreases seg@.len() - k,
        {
            out.push(seg[k]);
            k = k + 1;
            proof {
                if i > 0 {
                    assert(out@ =~= out0 + seq!['/' as u8] + seg@.subrange(0, k as int));
                } else {
                    assert(out@ =~= seg@.subrange(0, k as int));
                }
            }
        }
        i = i + 1;
        proof {
            assert(seg@.subrange(0, seg@.len() as int) =~= seg@);
            lemma_join_snoc(seg_views(s@.take(i - 1)), seg@);
            assert(seg_views(s@.take(i as int)) =~= seg_views(s@.take(i - 1)).push(seg@));
        }
    }
    proof {
        assert(s@.take(s@.len() as int) =~= s@);
        if s@.len() == 0 {
            assert(seg_views(s@) =~= Seq::<Seq<u8>>::empty());
        }
    }
    out
}

/// Joining one more segment appends a separator and the segment — except
/// onto an empty row.
proof fn lemma_join_snoc(s: Seq<Seq<u8>>, seg: Seq<u8>)
    ensures
        s.len() == 0 ==> join_spec(s.push(seg)) == seg,
        s.len() > 0 ==> join_spec(s.push(seg)) == join_spec(s) + seq!['/' as u8] + seg,
    decreases s.len(),
{
    if s.len() == 0 {
        assert(s.push(seg)[0] == seg);
    } else {
        lemma_join_snoc(s.drop_first(), seg);
        assert(s.push(seg).drop_first() =~= s.drop_first().push(seg));
        assert(s.push(seg)[0] == s[0]);
        if s.len() == 1 {
            reveal_with_fuel(join_spec, 3);
            assert(s.drop_first().push(seg)[0] == seg);
            assert(join_spec(s.push(seg)) =~= join_spec(s) + seq!['/' as u8] + seg);
        } else {
            assert(join_spec(s.push(seg)) =~= join_spec(s) + seq!['/' as u8] + seg);
        }
    }
}

/// Resolve a request path under a mount. `Ok` hands back the resolved
/// path, which always still lies below the mount directory; everything
/// else — a path outside `serve_at`, or one that climbs too far up — is
/// `NotFound`.
pub fn find_file(uri: &Uri, mount_dir: &[u8], serve_at: &[u8]) -> (r: Result<Vec<u8>, StatusCode>)
    ensures
        match find_file_spec(mount_dir@, serve_at@, uri@) {
            None => r == Err::<Vec<u8>, StatusCode>(StatusCode::NotFound),
            Some(segs) => r is Ok && r->Ok_0@ == join_spec(segs) && segments_of(
                mount_dir@,
            ).is_prefix_of(segs),
        },
{
    let sa = split_segments(serve_at);
    let us = split_segments(uri.as_bytes());
    // The request path must start with the serve prefix, component-wise.
    if sa.len() > us.len() {
        proof {
            assert(!seg_views(sa@).is_prefix_of(seg_views(us@)));
        }
        return Err(StatusCode::NotFound);
    }
    let mut i: usize = 0;
    while i < sa.len()
        invariant
            i <= sa@.len() <= us@.len(),
            seg_views(sa@) == segments_of(serve_at@),
            seg_views(us@) == segments_of(uri@),
            forall|k: int| 0 <= k < i ==> seg_views(sa@)[k] == seg_views(us@)[k],
        decreases sa@.len() - i,
    {
        if !bytes_eq(sa[i].as_slice(), us[i].as_slice()) {
            proof {
                assert(seg_views(sa@)[i as int] != seg_views(us@)[i as int]);
                assert(!seg_views(sa@).is_prefix_of(seg_views(us@)));
            }
            return Err(StatusCode::NotFound);
        }
        i = i + 1;
    }
    proof {
        assert(seg_views(sa@).is_prefix_of(seg_views(us@))) by {
            assert(seg_views(sa@) =~= seg_views(us@).subrange(0, sa@.len() as int));
        }
    }
    // Walk the remaining segments over the mount directory.
    let mut stack = split_segments(mount_dir);
    let ghost mount_segs = seg_views(stack@);
    let mut j: usize = sa.len();
    let mut dot_seg: Vec<u8> = Vec::new();
    dot_seg.push('.' as u8);
    let mut dotdot_seg: Vec<u8> = Vec::new();
    dotdot_seg.push('.' as u8);
    dotdot_seg.push('.' as u8);
    proof {
        assert(dot_seg@ =~= dot());
        assert(dotdot_seg@ =~= dotdot());
        assert(seg_views(us@).skip(sa@.len() as int).skip(0) =~= seg_views(us@).skip(
            sa@.len() as int,
        ));
    }
    while j < us.len()
        invariant
            sa@.len() <= j <= us@.len(),
            dot_seg@ == dot(),
            dotdot_seg@ == dotdot(),
            mount_segs == segments_of(mount_dir@),
            seg_views(sa@) == segments_of(serve_at@),
            seg_views(us@) == segments_of(uri@),
            seg_views(sa@).is_prefix_of(seg_views(us@)),
            resolve_spec(mount_segs, seg_views(us@).skip(sa@.len() as int)) == resolve_spec(
                seg_views(stack@),
                seg_views(us@).skip(j as int),
            ),
        decreases us@.len() - j,
    {
        let ghost stack0 = stack@;
        proof {
            assert(seg_views(us@).skip(j as int)[0] == seg_views(us@)[j as int]);
            assert(seg_views(us@).skip(j as int).drop_first() =~= seg_views(us@).skip(j + 1));
        }
        let seg = &us[j];
        if bytes_eq(seg.as_slice(), dot_seg.as_slice()) {
            // Stay in place.
        } else if bytes_eq(seg.as_slice(), dotdot_seg.as_slice()) {
            if stack.len() == 0 {
                // The walk fell out of the mount root.
                return Err(StatusCode::NotFound);
            }
            stack.pop();
            proof {
                assert(seg_views(stack@) =~= seg_views(stack0).drop_last());
            }
        } else {
            stack.push(clone_bytes(seg.as_slice()));
            proof {
                assert(seg_views(stack@) =~= seg_views(stack0).push(seg@));
            }
        }
        j = j + 1;
    }
    proof {
        assert(seg_views(us@).skip(us@.len() as int) =~= Seq::<Seq<u8>>::empty());
    }
    // The traversal guard: the resolved place must still lie below the
    // mount directory.
    let mount_again = split_segments(mount_dir);
    if mount_again.len() > stack.len() {
        proof {
            assert(!mount_segs.is_prefix_of(seg_views(stack@)));
        }
        return Err(StatusCode::NotFound);
    }
    let mut k: usize = 0;
    while k < mount_again.len()
        invariant
            k <= mount_again@.len() <= stack@.len(),
            seg_views(mount_again@) == mount_segs,
            mount_segs == segments_of(mount_dir@),
            seg_views(sa@) == segments_of(serve_at@),
            seg_views(us@) == segments_of(uri@),
            seg_views(sa@).is_prefix_of(seg_views(us@)),
            resolve_spec(mount_segs, seg_views(us@).skip(sa@.len() as int)) == Some(
                seg_views(stack@),
            ),
            forall|t: int| 0 <= t < k ==> seg_views(mount_again@)[t] == seg_views(stack@)[t],
        decreases mount_again@.len() - k,
    {
        if !bytes_eq(mount_again[k].as_slice(), stack[k].as_slice()) {
            proof {
                assert(seg_views(mount_again@)[k as int] != seg_views(stack@)[k as int]);
                assert(!mount_segs.is_prefix_of(seg_views(stack@)));
            }
            return Err(StatusCode::NotFound);
        }
        k = k + 1;
    }
    proof {
        assert(mount_segs.is_prefix_of(seg_views(stack@))) by {
            assert(mount_segs =~= seg_views(stack@).subrange(0, mount_segs.len() as int));
        }
    }
    Ok(join_segments(&stack))
}

} // verus!
