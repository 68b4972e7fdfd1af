//! A compressed-trie router: paths are byte strings, edges carry multi-byte
//! labels, and a child labelled exactly `*` matches any remaining suffix.
use vstd::prelude::*;

use crate::method::Method;
use crate::status::StatusCode;

verus! {

/// Per-method handler slots of one node.
#[derive(Debug)]
pub struct MethodTable<T> {
    get: Option<T>,
    post: Option<T>,
    options: Option<T>,
}

/// The handler a table holds for a method.
pub closed spec fn table_get<T>(t: MethodTable<T>, m: Method) -> Option<T> {
    match m {
        Method::Get => t.get,
        Method::Post => t.post,
        Method::Options => t.options,
    }
}

/// A table with no handler at all.
pub closed spec fn table_is_empty<T>(t: MethodTable<T>) -> bool {
    t.get is None && t.post is None && t.options is None
}

impl<T> MethodTable<T> {
    fn empty() -> (r: Self)
        ensures
            table_is_empty(r),
    {
        MethodTable { get: None, post: None, options: None }
    }

    fn set(&mut self, m: Method, handler: T)
        ensures
            forall|m2: Method| table_get(*final(self), m2) == if m2 == m {
                Some(handler)
            } else {
                table_get(*old(self), m2)
            },
    {
        match m {
            Method::Get => {
                self.get = Some(handler);
            },
            Method::Post => {
                self.post = Some(handler);
            },
            Method::Options => {
                self.options = Some(handler);
            },
        }
    }

    fn get_ref(&self, m: Method) -> (r: Option<&T>)
        ensures
            match r {
                Some(h) => table_get(*self, m) == Some(*h),
                None => table_get(*self, m) is None,
            },
    {
        match m {
            Method::Get => self.get.as_ref(),
            Method::Post => self.post.as_ref(),
            Method::Options => self.options.as_ref(),
        }
    }

    fn any(&self) -> (r: bool)
        ensures
            r <==> !table_is_empty(*self),
    {
        self.get.is_some() || self.post.is_some() || self.options.is_some()
    }
}

/// Associates paths with handlers. The tree is built once through
/// `add_route` and then queried read-only with `find`; `T` is whatever
/// stands for a handler, most often an index into the caller's handler
/// table.
#[derive(Debug)]
pub struct Router<T> {
    path: Vec<u8>,
    handlers: MethodTable<T>,
    children: Vec<Router<T>>,
}

/// The path label of a star child.
pub open spec fn star_label() -> Seq<u8> {
    seq!['*' as u8]
}

/// Structural health of a child list: every child has a nonempty label and
/// is itself well-formed.
pub closed spec fn children_wf<T>(cs: Seq<Router<T>>) -> bool
    decreases cs,
{
    if cs.len() == 0 {
        true
    } else {
        cs[0].path@.len() > 0 && node_wf(cs[0]) && children_wf(cs.drop_first())
    }
}

/// No two children begin with the same byte, so a lookup byte selects at
/// most one child.
pub closed spec fn prefix_free<T>(cs: Seq<Router<T>>) -> bool {
    forall|i: int, j: int|
        0 <= i < cs.len() && 0 <= j < cs.len() && i != j ==> (#[trigger] cs[i]).path@[0] != (
        #[trigger] cs[j]).path@[0]
}

/// Structural health of a node and everything below it.
pub closed spec fn node_wf<T>(n: Router<T>) -> bool
    decreases n,
{
    children_wf(n.children@) && prefix_free(n.children@)
}

/// Health of a whole router: its root carries the empty label and no
/// handlers of its own.
pub closed spec fn router_wf<T>(n: Router<T>) -> bool {
    node_wf(n) && n.path@ == Seq::<u8>::empty() && table_is_empty(n.handlers)
}

/// The child whose label begins with `b`, if any.
pub closed spec fn find_child<T>(cs: Seq<Router<T>>, b: u8) -> Option<Router<T>>
    decreases cs.len(),
{
    if cs.len() == 0 {
        None
    } else if cs[0].path@.len() > 0 && cs[0].path@[0] == b {
        Some(cs[0])
    } else {
        find_child(cs.drop_first(), b)
    }
}

/// The child labelled exactly `*`, if any.
pub closed spec fn star_child<T>(cs: Seq<Router<T>>) -> Option<Router<T>>
    decreases cs.len(),
{
    if cs.len() == 0 {
        None
    } else if cs[0].path@ == star_label() {
        Some(cs[0])
    } else {
        star_child(cs.drop_first())
    }
}

/// The handler table of the node whose accumulated label spells `q`, if
/// such a node exists.
pub closed spec fn table_at<T>(n: Router<T>, q: Seq<u8>) -> Option<MethodTable<T>>
    decreases n,
{
    if q == n.path@ {
        Some(n.handlers)
    } else if n.path@.is_prefix_of(q) {
        table_at_children(n.children@, q.skip(n.path@.len() as int))
    } else {
        None
    }
}

/// Descend into the child selected by the first remaining byte.
pub closed spec fn table_at_children<T>(cs: Seq<Router<T>>, q: Seq<u8>) -> Option<MethodTable<T>>
    decreases cs,
{
    if cs.len() == 0 || q.len() == 0 {
        None
    } else if cs[0].path@.len() > 0 && cs[0].path@[0] == q[0] {
        table_at(cs[0], q)
    } else {
        table_at_children(cs.drop_first(), q)
    }
}

/// The handler registered for path `q` under method `m`, if any. This is
/// the router's whole content: `add_route` updates it at exactly one point
/// and `find` is answered from it.
pub closed spec fn route_at<T>(n: Router<T>, q: Seq<u8>, m: Method) -> Option<T> {
    match table_at(n, q) {
        None => None,
        Some(t) => table_get(t, m),
    }
}

/// How many leading bytes two byte strings share.
pub open spec fn is_lcp(a: Seq<u8>, b: Seq<u8>, r: int) -> bool {
    &&& 0 <= r <= a.len()
    &&& r <= b.len()
    &&& a.take(r) == b.take(r)
    &&& (r < a.len() && r < b.len() ==> a[r] != b[r])
}

/// Return how many common leading bytes two byte strings have.
pub fn longest_common_prefix(xs: &[u8], ys: &[u8]) -> (r: usize)
    ensures
        is_lcp(xs@, ys@, r as int),
{
    let mut pos: usize = 0;
    while pos < xs.len() && pos < ys.len() && xs[pos] == ys[pos]
        invariant
            pos <= xs@.len(),
            pos <= ys@.len(),
            forall|k: int| 0 <= k < pos ==> xs@[k] == ys@[k],
        decreases xs@.len() - pos,
    {
        pos = pos + 1;
    }
    proof {
        assert(xs@.take(pos as int) =~= ys@.take(pos as int));
    }
    pos
}

impl<T> Router<T> {
    pub fn new() -> (r: Self)
        ensures
            router_wf(r),
            forall|q: Seq<u8>, m: Method| route_at(r, q, m) is None,
    {
        let r = Router { path: Vec::new(), handlers: MethodTable::empty(), children: Vec::new() };
        proof {
            assert(r.path@ =~= Seq::<u8>::empty());
            assert forall|q: Seq<u8>, m: Method| route_at(r, q, m) is None by {
                if q == r.path@ {
                } else {
                    assert(table_at_children(r.children@, q.skip(0)) is None);
                }
            }
        }
        r
    }
}


/// Every member of a well-formed child list is a well-formed node with a
/// nonempty label.
proof fn lemma_children_wf_at<T>(cs: Seq<Router<T>>, i: int)
    requires
        children_wf(cs),
        0 <= i < cs.len(),
    ensures
        cs[i].path@.len() > 0,
        node_wf(cs[i]),
    decreases i,
{
    if i > 0 {
        lemma_children_wf_at(cs.drop_first(), i - 1);
    }
}

/// Replacing one child by a well-formed node keeps the list well-formed.
proof fn lemma_children_wf_update<T>(cs: Seq<Router<T>>, i: int, c: Router<T>)
    requires
        children_wf(cs),
        0 <= i < cs.len(),
        c.path@.len() > 0,
        node_wf(c),
    ensures
        children_wf(cs.update(i, c)),
    decreases i,
{
    if i == 0 {
        assert(cs.update(0, c).drop_first() =~= cs.drop_first());
        assert(cs.update(0, c)[0] == c);
    } else {
        lemma_children_wf_update(cs.drop_first(), i - 1, c);
        assert(cs.update(i, c).drop_first() =~= cs.drop_first().update(i - 1, c));
        assert(cs.update(i, c)[0] == cs[0]);
    }
}

/// Appending a well-formed node keeps the list well-formed.
proof fn lemma_children_wf_push<T>(cs: Seq<Router<T>>, c: Router<T>)
    requires
        children_wf(cs),
        c.path@.len() > 0,
        node_wf(c),
    ensures
        children_wf(cs.push(c)),
    decreases cs.len(),
{
    if cs.len() == 0 {
        reveal_with_fuel(children_wf, 3);
        assert(cs.push(c)[0] == c);
        assert(cs.push(c).drop_first() =~= Seq::<Router<T>>::empty());
        assert(children_wf(cs.push(c)));
    } else {
        lemma_children_wf_push(cs.drop_first(), c);
        assert(cs.push(c).drop_first() =~= cs.drop_first().push(c));
        assert(cs.push(c)[0] == cs[0]);
    }
}

/// When no child of a well-formed list starts with `b`, `find_child`
/// reports none, and conversely.
proof fn lemma_find_child_none<T>(cs: Seq<Router<T>>, b: u8)
    requires
        children_wf(cs),
    ensures
        find_child(cs, b) is None <==> forall|k: int|
            0 <= k < cs.len() ==> (#[trigger] cs[k]).path@[0] != b,
    decreases cs.len(),
{
    if cs.len() > 0 {
        lemma_find_child_none(cs.drop_first(), b);
        assert forall|k: int| 1 <= k < cs.len() implies cs.drop_first()[k - 1] == cs[k] by {}
    }
}

/// Replacing one child only re-routes the byte that child owns.
proof fn lemma_tac_update<T>(cs: Seq<Router<T>>, i: int, c: Router<T>, q: Seq<u8>)
    requires
        children_wf(cs),
        prefix_free(cs),
        0 <= i < cs.len(),
        c.path@.len() > 0,
        c.path@[0] == cs[i].path@[0],
    ensures
        table_at_children(cs.update(i, c), q) == if q.len() > 0 && q[0] == c.path@[0] {
            table_at(c, q)
        } else {
            table_at_children(cs, q)
        },
    decreases i,
{
    let cs2 = cs.update(i, c);
    if q.len() == 0 {
        assert(table_at_children(cs2, q) is None);
    } else if i == 0 {
        assert(cs2[0] == c);
        assert(cs2.drop_first() =~= cs.drop_first());
    } else {
        assert(cs2[0] == cs[0]);
        assert(cs[0].path@.len() > 0);
        assert(cs[0].path@[0] != cs[i].path@[0]);
        assert(cs2.drop_first() =~= cs.drop_first().update(i - 1, c));
        assert forall|a: int, b2: int|
            0 <= a < cs.drop_first().len() && 0 <= b2 < cs.drop_first().len() && a != b2 implies (
        #[trigger] cs.drop_first()[a]).path@[0] != (#[trigger] cs.drop_first()[b2]).path@[0] by {
            assert(cs.drop_first()[a] == cs[a + 1]);
            assert(cs.drop_first()[b2] == cs[b2 + 1]);
        }
        assert(cs.drop_first()[i - 1] == cs[i]);
        lemma_tac_update(cs.drop_first(), i - 1, c, q);
    }
}

/// Appending a child whose byte nobody owns only adds that byte's route.
proof fn lemma_tac_push<T>(cs: Seq<Router<T>>, c: Router<T>, q: Seq<u8>)
    requires
        children_wf(cs),
        c.path@.len() > 0,
        find_child(cs, c.path@[0]) is None,
    ensures
        table_at_children(cs.push(c), q) == if q.len() > 0 && q[0] == c.path@[0] {
            table_at(c, q)
        } else {
            table_at_children(cs, q)
        },
    decreases cs.len(),
{
    let cs2 = cs.push(c);
    if q.len() == 0 {
        assert(table_at_children(cs2, q) is None);
    } else if cs.len() == 0 {
        reveal_with_fuel(table_at_children, 3);
        assert(cs2[0] == c);
        assert(cs2.drop_first() =~= Seq::<Router<T>>::empty());
        if q[0] != c.path@[0] {
            assert(table_at_children(cs2, q) is None);
        }
    } else {
        assert(cs2[0] == cs[0]);
        assert(cs2.drop_first() =~= cs.drop_first().push(c));
        assert(cs[0].path@[0] != c.path@[0]);
        lemma_tac_push(cs.drop_first(), c, q);
    }
}

/// What a freshly made leaf holds: exactly one route.
proof fn lemma_table_at_leaf<T>(n: Router<T>, q: Seq<u8>)
    requires
        n.children@.len() == 0,
    ensures
        table_at(n, q) == if q == n.path@ {
            Some(n.handlers)
        } else {
            None::<MethodTable<T>>
        },
{
    if q != n.path@ && n.path@.is_prefix_of(q) {
        assert(table_at_children(n.children@, q.skip(n.path@.len() as int)) is None);
    }
}

/// What a freshly made wildcard pair holds: an empty table at its base
/// label and the star child's table one `*` further.
proof fn lemma_table_at_wild<T>(n: Router<T>, q: Seq<u8>)
    requires
        n.children@.len() == 1,
        n.children@[0].path@ == star_label(),
        n.children@[0].children@.len() == 0,
    ensures
        table_at(n, q) == if q == n.path@ {
            Some(n.handlers)
        } else if q == n.path@ + star_label() {
            Some(n.children@[0].handlers)
        } else {
            None::<MethodTable<T>>
        },
{
    let star = n.children@[0];
    let w = n.path@ + star_label();
    assert(n.path@.is_prefix_of(w)) by {
        assert(w.take(n.path@.len() as int) =~= n.path@);
    }
    assert(w.skip(n.path@.len() as int) =~= star_label());
    if q == n.path@ {
    } else if n.path@.is_prefix_of(q) {
        let rem = q.skip(n.path@.len() as int);
        if q.len() == n.path@.len() {
            assert(q =~= n.path@);
        }
        assert(rem.len() > 0);
        assert(q =~= n.path@ + rem);
        if rem[0] == '*' as u8 {
            assert(table_at_children(n.children@, rem) == table_at(star, rem));
            if rem == star_label() {
                assert(q =~= w);
            } else {
                if star_label().is_prefix_of(rem) {
                    assert(table_at_children(star.children@, rem.skip(1)) is None);
                }
                assert(q != w) by {
                    if q == w {
                        assert(rem =~= star_label());
                    }
                }
            }
        } else {
            assert(table_at_children(n.children@.drop_first(), rem) is None);
            assert(q != w) by {
                if q == w {
                    assert(rem =~= star_label());
                }
            }
        }
    } else {
        assert(q != w) by {
            if q == w {
                assert(n.path@.is_prefix_of(q)) by {
                    assert(q.take(n.path@.len() as int) =~= n.path@);
                }
            }
        }
    }
}

impl<T> Router<T> {
    /// A node for a path no existing child shares a byte with. A path that
    /// ends in `/*` becomes a base node plus a star child holding the
    /// handler.
    fn new_child(path: &[u8], method: Method, handler: T) -> (r: Router<T>)
        requires
            path@.len() > 0,
        ensures
            node_wf(r),
            r.path@.len() > 0,
            r.path@[0] == path@[0],
            forall|q: Seq<u8>, m2: Method| route_at(r, q, m2) == if q == path@ && m2 == method {
                Some(handler)
            } else {
                None::<T>
            },
    {
        let n = path.len();
        let wild = n >= 2 && path[n - 2] == '/' as u8 && path[n - 1] == '*' as u8 && path[0]
            != '*' as u8;
        if wild {
            let base = crate::bytes::copy_range(path, 0, n - 1);
            let mut star_path: Vec<u8> = Vec::new();
            star_path.push('*' as u8);
            let mut table = MethodTable::empty();
            table.set(method, handler);
            let star = Router { path: star_path, handlers: table, children: Vec::new() };
            proof {
                assert(star.path@ =~= star_label());
            }
            let r = Router {
                path: base,
                handlers: MethodTable::empty(),
                children: vec![star],
            };
            proof {
                reveal_with_fuel(children_wf, 3);
                assert(r.children@[0] == star);
                assert(r.children@.drop_first() =~= Seq::<Router<T>>::empty());
                assert(children_wf(star.children@));
                assert(node_wf(star));
                assert(children_wf(r.children@));
                assert(node_wf(r));
                assert(base@ + star_label() =~= path@);
                assert forall|q: Seq<u8>, m2: Method| route_at(r, q, m2) == (if q == path@ && m2
                    == method {
                    Some(handler)
                } else {
                    None::<T>
                }) by {
                    lemma_table_at_wild(r, q);
                }
            }
            r
        } else {
            let mut table = MethodTable::empty();
            table.set(method, handler);
            let r = Router {
                path: crate::bytes::clone_bytes(path),
                handlers: table,
                children: Vec::new(),
            };
            proof {
                assert(children_wf(r.children@));
                assert(node_wf(r));
                assert forall|q: Seq<u8>, m2: Method| route_at(r, q, m2) == (if q == path@ && m2
                    == method {
                    Some(handler)
                } else {
                    None::<T>
                }) by {
                    lemma_table_at_leaf(r, q);
                }
            }
            r
        }
    }
}


/// The view a node presents relative to a prefix of its label: the split
/// node's derived child answers the old node's questions shifted by the
/// split prefix.
proof fn lemma_table_at_shift<T>(n0: Router<T>, d: Router<T>, prefix: Seq<u8>, rem: Seq<u8>)
    requires
        n0.path@ == prefix + d.path@,
        n0.handlers == d.handlers,
        n0.children@ == d.children@,
    ensures
        table_at(d, rem) == table_at(n0, prefix + rem),
{
    let q = prefix + rem;
    if rem == d.path@ {
        assert(q =~= n0.path@);
    } else {
        assert(q != n0.path@) by {
            if q == n0.path@ {
                assert(rem =~= q.skip(prefix.len() as int));
                assert(d.path@ =~= n0.path@.skip(prefix.len() as int));
            }
        }
        if d.path@.is_prefix_of(rem) {
            assert(n0.path@.is_prefix_of(q)) by {
                assert(q.take(n0.path@.len() as int) =~= prefix + rem.take(d.path@.len() as int));
            }
            assert(rem.skip(d.path@.len() as int) =~= q.skip(n0.path@.len() as int));
        } else {
            assert(!n0.path@.is_prefix_of(q)) by {
                if n0.path@.is_prefix_of(q) {
                    assert(rem.take(d.path@.len() as int) =~= q.take(
                        n0.path@.len() as int,
                    ).skip(prefix.len() as int));
                    assert(q.take(n0.path@.len() as int).skip(prefix.len() as int) =~= d.path@);
                }
            }
        }
    }
}

impl<T> Router<T> {
    /// Insert below this node: `p` is the path relative to the node's own
    /// label, which it must share its first byte with (the root's label is
    /// empty). The node's route content changes at exactly `(p, method)`.
    fn insert_node(&mut self, p: &[u8], method: Method, handler: T)
        requires
            node_wf(*old(self)),
            p@.len() > 0,
            old(self).path@.len() > 0 ==> p@[0] == old(self).path@[0],
        ensures
            node_wf(*final(self)),
            old(self).path@.len() == 0 ==> final(self).path@ == old(self).path@
                && final(self).handlers == old(self).handlers,
            old(self).path@.len() > 0 ==> final(self).path@.len() > 0 && final(self).path@[0]
                == old(self).path@[0],
            forall|q: Seq<u8>, m2: Method|
                route_at(*final(self), q, m2) == if q == p@ && m2 == method {
                    Some(handler)
                } else {
                    route_at(*old(self), q, m2)
                },
        decreases p@.len(), (if self.path@.len() == 0 {
            1int
        } else {
            0int
        }),
    {
        let ghost n0 = *old(self);
        if crate::bytes::bytes_eq(p, self.path.as_slice()) {
            self.handlers.set(method, handler);
            proof {
                assert forall|q: Seq<u8>, m2: Method|
                    route_at(*self, q, m2) == (if q == p@ && m2 == method {
                        Some(handler)
                    } else {
                        route_at(n0, q, m2)
                    }) by {
                    if q == p@ {
                    } else if n0.path@.is_prefix_of(q) {
                        assert(table_at(*self, q) == table_at_children(
                            n0.children@,
                            q.skip(n0.path@.len() as int),
                        ));
                    }
                }
            }
            return ;
        }
        let lcp = longest_common_prefix(self.path.as_slice(), p);
        if lcp < self.path.len() {
            // The node's label exceeds the common prefix: split it. The
            // label shrinks to the prefix; its former tail, with the
            // handlers and children, moves into a derived child.
            proof {
                assert(lcp >= 1);
            }
            let tail = crate::bytes::copy_range(self.path.as_slice(), lcp, self.path.len());
            let prefix = crate::bytes::copy_range(self.path.as_slice(), 0, lcp);
            let mut moved_table = MethodTable::empty();
            core::mem::swap(&mut moved_table, &mut self.handlers);
            let mut moved_children: Vec<Router<T>> = Vec::new();
            core::mem::swap(&mut moved_children, &mut self.children);
            let deriving = Router { path: tail, handlers: moved_table, children: moved_children };
            proof {
                assert(n0.path@ =~= prefix@ + deriving.path@);
                assert(children_wf(self.children@));
            }
            self.path = prefix;
            if lcp < p.len() {
                // The new path continues past the prefix too: two siblings.
                let new_rem = crate::bytes::copy_range(p, lcp, p.len());
                let nc = Router::new_child(new_rem.as_slice(), method, handler);
                self.children.push(deriving);
                self.children.push(nc);
                proof {
                    let ghost d = self.children@[0];
                    let ghost c = self.children@[1];
                    reveal_with_fuel(children_wf, 4);
                    reveal_with_fuel(table_at_children, 4);
                    assert(self.children@.drop_first()[0] == c);
                    assert(self.children@.drop_first().drop_first() =~= Seq::<
                        Router<T>,
                    >::empty());
                    assert(d.path@[0] != c.path@[0]);
                    assert(children_wf(self.children@));
                    assert(prefix_free(self.children@));
                    assert(node_wf(*self));
                    assert forall|q: Seq<u8>, m2: Method|
                        route_at(*self, q, m2) == (if q == p@ && m2 == method {
                            Some(handler)
                        } else {
                            route_at(n0, q, m2)
                        }) by {
                        lemma_insert_split_two(n0, *self, d, c, p@, method, handler, q, m2);
                    }
                }
            } else {
                // The new path is exactly the prefix: it lands on the
                // split node itself.
                self.handlers.set(method, handler);
                self.children.push(deriving);
                proof {
                    let ghost d = self.children@[0];
                    reveal_with_fuel(children_wf, 3);
                    reveal_with_fuel(table_at_children, 3);
                    assert(self.children@.drop_first() =~= Seq::<Router<T>>::empty());
                    assert(children_wf(self.children@));
                    assert(node_wf(*self));
                    assert(p@ =~= self.path@);
                    assert forall|q: Seq<u8>, m2: Method|
                        route_at(*self, q, m2) == (if q == p@ && m2 == method {
                            Some(handler)
                        } else {
                            route_at(n0, q, m2)
                        }) by {
                        lemma_insert_split_one(n0, *self, d, p@, method, handler, q, m2);
                    }
                }
            }
            return ;
        }
        // The node's label is fully consumed: go on below it.
        let rem = crate::bytes::copy_range(p, lcp, p.len());
        proof {
            assert(p@.take(lcp as int) =~= n0.path@.take(lcp as int));
            assert(n0.path@.take(lcp as int) =~= n0.path@);
            assert(rem@.len() > 0) by {
                if p@.len() == lcp {
                    assert(p@.take(lcp as int) =~= p@);
                    assert(p@ == n0.path@);
                }
            }
            assert(n0.path@.is_prefix_of(p@));
            assert(p@ =~= n0.path@ + rem@);
        }
        let b = rem[0];
        let mut j: usize = 0;
        let nchild = self.children.len();
        while j < nchild
            invariant
                *self == n0,
                n0 == *old(self),
                node_wf(n0),
                nchild == n0.children@.len(),
                j <= nchild,
                forall|k: int|
                    0 <= k < j ==> !((#[trigger] n0.children@[k]).path@.len() > 0
                        && n0.children@[k].path@[0] == b),
                p@.len() > 0,
                rem@.len() > 0,
                b == rem@[0],
                rem@ == p@.skip(n0.path@.len() as int),
                p@ == n0.path@ + rem@,
                n0.path@.is_prefix_of(p@),
            decreases nchild - j,
        {
            proof {
                lemma_children_wf_at(n0.children@, j as int);
            }
            if self.children[j].path[0] == b {
                let mut child = self.children.remove(j);
                child.insert_node(rem.as_slice(), method, handler);
                self.children.insert(j, child);
                proof {
                    let ghost c2 = self.children@[j as int];
                    assert(self.children@ =~= n0.children@.update(j as int, c2));
                    lemma_children_wf_update(n0.children@, j as int, c2);
                    assert forall|a: int, b2: int|
                        0 <= a < self.children@.len() && 0 <= b2 < self.children@.len() && a
                            != b2 implies (#[trigger] self.children@[a]).path@[0] != (
                    #[trigger] self.children@[b2]).path@[0] by {
                        assert(n0.children@[a].path@[0] != n0.children@[b2].path@[0]);
                    }
                    assert(node_wf(*self));
                    assert forall|q: Seq<u8>, m2: Method|
                        route_at(*self, q, m2) == (if q == p@ && m2 == method {
                            Some(handler)
                        } else {
                            route_at(n0, q, m2)
                        }) by {
                        lemma_insert_child(n0, *self, n0.children@[j as int], c2, j as int, p@, rem@, method, handler, q, m2);
                    }
                }
                return ;
            }
            j = j + 1;
        }
        let nc = Router::new_child(rem.as_slice(), method, handler);
        self.children.push(nc);
        proof {
            let ghost c = self.children@[nchild as int];
            assert(self.children@ =~= n0.children@.push(c));
            lemma_children_wf_push(n0.children@, c);
            assert forall|k: int|
                0 <= k < n0.children@.len() implies (#[trigger] n0.children@[k]).path@[0]
                != b by {
                lemma_children_wf_at(n0.children@, k);
            }
            lemma_find_child_none(n0.children@, b);
            assert(find_child(n0.children@, b) is None);
            assert forall|a: int, b2: int|
                0 <= a < self.children@.len() && 0 <= b2 < self.children@.len() && a != b2 implies (
            #[trigger] self.children@[a]).path@[0] != (#[trigger] self.children@[b2]).path@[0] by {
                if a < n0.children@.len() && b2 < n0.children@.len() {
                    assert(n0.children@[a].path@[0] != n0.children@[b2].path@[0]);
                } else if a < n0.children@.len() {
                    assert(self.children@[b2] == c);
                    assert(n0.children@[a].path@[0] != b);
                } else {
                    assert(self.children@[a] == c);
                    assert(n0.children@[b2].path@[0] != b);
                }
            }
            assert(node_wf(*self));
            assert forall|q: Seq<u8>, m2: Method|
                route_at(*self, q, m2) == (if q == p@ && m2 == method {
                    Some(handler)
                } else {
                    route_at(n0, q, m2)
                }) by {
                lemma_insert_push(n0, *self, c, p@, rem@, method, handler, q, m2);
            }
        }
    }

    /// Register `handler` for `new_path` under `method`; a later
    /// registration for the same pair replaces an earlier one, and no other
    /// route changes.
    pub fn add_route(&mut self, new_path: &[u8], method: Method, handler: T)
        requires
            router_wf(*old(self)),
            new_path@.len() > 0,
        ensures
            router_wf(*final(self)),
            forall|q: Seq<u8>, m2: Method|
                route_at(*final(self), q, m2) == if q == new_path@ && m2 == method {
                    Some(handler)
                } else {
                    route_at(*old(self), q, m2)
                },
    {
        self.insert_node(new_path, method, handler);
    }
}

/// Route content after descending into an updated child.
#[verifier::spinoff_prover]
proof fn lemma_insert_child<T>(
    n0: Router<T>,
    n1: Router<T>,
    c0: Router<T>,
    c2: Router<T>,
    j: int,
    p: Seq<u8>,
    rem: Seq<u8>,
    method: Method,
    handler: T,
    q: Seq<u8>,
    m2: Method,
)
    requires
        node_wf(n0),
        0 <= j < n0.children@.len(),
        n1.path@ == n0.path@,
        n1.handlers == n0.handlers,
        n1.children@ == n0.children@.update(j, c2),
        rem.len() > 0,
        p == n0.path@ + rem,
        c0 == n0.children@[j],
        c0.path@.len() > 0,
        c0.path@[0] == rem[0],
        c2.path@.len() > 0,
        c2.path@[0] == c0.path@[0],
        forall|x: Seq<u8>, mm: Method|
            route_at(c2, x, mm) == if x == rem && mm == method {
                Some(handler)
            } else {
                route_at(c0, x, mm)
            },
    ensures
        route_at(n1, q, m2) == if q == p && m2 == method {
            Some(handler)
        } else {
            route_at(n0, q, m2)
        },
{
    lemma_children_wf_at(n0.children@, j);
    if q == n0.path@ {
        assert(q != p) by {
            if q == p {
                assert(rem =~= q.skip(n0.path@.len() as int));
                assert(rem.len() == 0);
            }
        }
    } else if n0.path@.is_prefix_of(q) {
        let rq = q.skip(n0.path@.len() as int);
        assert(q =~= n0.path@ + rq);
        assert(q == p <==> rq == rem) by {
            if rq == rem {
                assert(q =~= p);
            }
            if q == p {
                assert(rq =~= rem);
            }
        }
        lemma_tac_update(n0.children@, j, c2, rq);
        if rq.len() > 0 && rq[0] == c2.path@[0] {
            lemma_find_child_in(n0.children@, j);
            assert(table_at(n1, q) == table_at(c2, rq));
            lemma_tac_at(n0.children@, j, rq);
            assert(table_at(n0, q) == table_at(c0, rq));
            assert(route_at(n1, q, m2) == route_at(c2, rq, m2));
            assert(route_at(n0, q, m2) == route_at(c0, rq, m2));
        } else {
            assert(rq != rem);
        }
    } else {
        assert(q != p) by {
            if q == p {
                assert(n0.path@.is_prefix_of(q)) by {
                    assert(q.take(n0.path@.len() as int) =~= n0.path@);
                }
            }
        }
    }
}

/// Descending on a byte owned by child `j` reaches child `j`.
proof fn lemma_tac_at<T>(cs: Seq<Router<T>>, j: int, q: Seq<u8>)
    requires
        children_wf(cs),
        prefix_free(cs),
        0 <= j < cs.len(),
        q.len() > 0,
        cs[j].path@.len() > 0,
        cs[j].path@[0] == q[0],
    ensures
        table_at_children(cs, q) == table_at(cs[j], q),
    decreases j,
{
    if j == 0 {
    } else {
        assert(cs[0].path@[0] != cs[j].path@[0]);
        assert(cs.drop_first()[j - 1] == cs[j]);
        assert forall|a: int, b2: int|
            0 <= a < cs.drop_first().len() && 0 <= b2 < cs.drop_first().len() && a != b2 implies (
        #[trigger] cs.drop_first()[a]).path@[0] != (#[trigger] cs.drop_first()[b2]).path@[0] by {
            assert(cs.drop_first()[a] == cs[a + 1]);
            assert(cs.drop_first()[b2] == cs[b2 + 1]);
        }
        lemma_tac_at(cs.drop_first(), j - 1, q);
    }
}

/// A child list contains what it contains.
proof fn lemma_find_child_in<T>(cs: Seq<Router<T>>, j: int)
    requires
        children_wf(cs),
        prefix_free(cs),
        0 <= j < cs.len(),
    ensures
        find_child(cs, cs[j].path@[0]) == Some(cs[j]),
    decreases j,
{
    lemma_children_wf_at(cs, j);
    if j == 0 {
    } else {
        assert(cs[0].path@[0] != cs[j].path@[0]);
        assert(cs.drop_first()[j - 1] == cs[j]);
        assert forall|a: int, b2: int|
            0 <= a < cs.drop_first().len() && 0 <= b2 < cs.drop_first().len() && a != b2 implies (
        #[trigger] cs.drop_first()[a]).path@[0] != (#[trigger] cs.drop_first()[b2]).path@[0] by {
            assert(cs.drop_first()[a] == cs[a + 1]);
            assert(cs.drop_first()[b2] == cs[b2 + 1]);
        }
        lemma_find_child_in(cs.drop_first(), j - 1);
    }
}

/// Route content after pushing a fresh child for an unowned byte.
#[verifier::spinoff_prover]
proof fn lemma_insert_push<T>(
    n0: Router<T>,
    n1: Router<T>,
    c: Router<T>,
    p: Seq<u8>,
    rem: Seq<u8>,
    method: Method,
    handler: T,
    q: Seq<u8>,
    m2: Method,
)
    requires
        node_wf(n0),
        n1.path@ == n0.path@,
        n1.handlers == n0.handlers,
        n1.children@ == n0.children@.push(c),
        rem.len() > 0,
        p == n0.path@ + rem,
        find_child(n0.children@, rem[0]) is None,
        c.path@.len() > 0,
        c.path@[0] == rem[0],
        forall|x: Seq<u8>, mm: Method|
            route_at(c, x, mm) == if x == rem && mm == method {
                Some(handler)
            } else {
                None::<T>
            },
    ensures
        route_at(n1, q, m2) == if q == p && m2 == method {
            Some(handler)
        } else {
            route_at(n0, q, m2)
        },
{
    if q == n0.path@ {
        assert(q != p) by {
            if q == p {
                assert(rem =~= q.skip(n0.path@.len() as int));
            }
        }
    } else if n0.path@.is_prefix_of(q) {
        let rq = q.skip(n0.path@.len() as int);
        assert(q =~= n0.path@ + rq);
        assert(q == p <==> rq == rem) by {
            if rq == rem {
                assert(q =~= p);
            }
            if q == p {
                assert(rq =~= rem);
            }
        }
        lemma_tac_push(n0.children@, c, rq);
        if rq.len() > 0 && rq[0] == c.path@[0] {
            assert(table_at(n1, q) == table_at(c, rq));
            lemma_tac_none(n0.children@, rq);
            assert(route_at(n1, q, m2) == route_at(c, rq, m2));
            assert(route_at(n0, q, m2) is None);
        } else {
            assert(rq != rem);
        }
    } else {
        assert(q != p) by {
            if q == p {
                assert(n0.path@.is_prefix_of(q)) by {
                    assert(q.take(n0.path@.len() as int) =~= n0.path@);
                }
            }
        }
    }
}

/// Without a child for the leading byte there is no route below.
proof fn lemma_tac_none<T>(cs: Seq<Router<T>>, q: Seq<u8>)
    requires
        children_wf(cs),
        q.len() > 0,
        find_child(cs, q[0]) is None,
    ensures
        table_at_children(cs, q) is None,
    decreases cs.len(),
{
    if cs.len() > 0 {
        lemma_tac_none(cs.drop_first(), q);
    }
}

/// Route content after a split that puts the new handler on the split node
/// itself.
#[verifier::spinoff_prover]
proof fn lemma_insert_split_one<T>(
    n0: Router<T>,
    n1: Router<T>,
    d: Router<T>,
    p: Seq<u8>,
    method: Method,
    handler: T,
    q: Seq<u8>,
    m2: Method,
)
    requires
        node_wf(n0),
        n1.path@ == p,
        p.len() > 0,
        d.path@.len() > 0,
        n0.path@ == p + d.path@,
        n0.handlers == d.handlers,
        n0.children@ == d.children@,
        forall|mm: Method|
            #![auto]
            table_get(n1.handlers, mm) == (if mm == method {
                Some(handler)
            } else {
                None::<T>
            }),
        n1.children@ =~= seq![d],
    ensures
        route_at(n1, q, m2) == if q == p && m2 == method {
            Some(handler)
        } else {
            route_at(n0, q, m2)
        },
{
    reveal_with_fuel(table_at_children, 3);
    assert(n1.children@[0] == d);
    assert(n1.children@.drop_first() =~= Seq::<Router<T>>::empty());
    if q == p {
        assert(q != n0.path@) by {
            if q == n0.path@ {
                assert(d.path@ =~= q.skip(p.len() as int));
            }
        }
        assert(!n0.path@.is_prefix_of(q));
        assert(route_at(n0, q, m2) is None);
    } else if p.is_prefix_of(q) {
        let rq = q.skip(p.len() as int);
        assert(q =~= p + rq);
        assert(rq.len() > 0) by {
            if q.len() == p.len() {
                assert(q =~= p);
            }
        }
        if rq[0] == d.path@[0] {
            assert(table_at(n1, q) == table_at(d, rq));
            lemma_table_at_shift(n0, d, p, rq);
        } else {
            assert(table_at_children(n1.children@, rq) is None);
            assert(table_at(n0, q) is None) by {
                assert(q != n0.path@) by {
                    if q == n0.path@ {
                        assert(rq =~= d.path@);
                    }
                }
                if n0.path@.is_prefix_of(q) {
                    assert(q[p.len() as int] == n0.path@[p.len() as int]);
                    assert(rq[0] == d.path@[0]);
                }
            }
        }
    } else {
        assert(table_at(n1, q) is None);
        assert(table_at(n0, q) is None) by {
            assert(q != n0.path@) by {
                if q == n0.path@ {
                    assert(p.is_prefix_of(q)) by {
                        assert(q.take(p.len() as int) =~= p);
                    }
                }
            }
            if n0.path@.is_prefix_of(q) {
                assert(p.is_prefix_of(q)) by {
                    assert(q.take(p.len() as int) =~= n0.path@.take(p.len() as int));
                    assert(n0.path@.take(p.len() as int) =~= p);
                }
            }
        }
    }
}

/// Route content after a split with the new handler in a fresh sibling.
#[verifier::spinoff_prover]
proof fn lemma_insert_split_two<T>(
    n0: Router<T>,
    n1: Router<T>,
    d: Router<T>,
    c: Router<T>,
    p: Seq<u8>,
    method: Method,
    handler: T,
    q: Seq<u8>,
    m2: Method,
)
    requires
        node_wf(n0),
        n1.path@.len() > 0,
        d.path@.len() > 0,
        c.path@.len() > 0,
        n0.path@ == n1.path@ + d.path@,
        n0.handlers == d.handlers,
        n0.children@ == d.children@,
        table_is_empty(n1.handlers),
        n1.children@ =~= seq![d, c],
        n1.path@.len() < p.len(),
        n1.path@.is_prefix_of(p),
        c.path@[0] == p[n1.path@.len() as int],
        c.path@[0] != d.path@[0],
        p.skip(n1.path@.len() as int).len() > 0,
        forall|x: Seq<u8>, mm: Method|
            route_at(c, x, mm) == if x == p.skip(n1.path@.len() as int) && mm == method {
                Some(handler)
            } else {
                None::<T>
            },
    ensures
        route_at(n1, q, m2) == if q == p && m2 == method {
            Some(handler)
        } else {
            route_at(n0, q, m2)
        },
{
    reveal_with_fuel(table_at_children, 4);
    let pre = n1.path@;
    let rem = p.skip(pre.len() as int);
    assert(p =~= pre + rem);
    assert(n1.children@[0] == d);
    assert(n1.children@.drop_first()[0] == c);
    assert(n1.children@.drop_first().drop_first() =~= Seq::<Router<T>>::empty());
    if q == pre {
        assert(q != p) by {
            if q == p {
                assert(rem =~= q.skip(pre.len() as int));
            }
        }
        assert(q != n0.path@) by {
            if q == n0.path@ {
                assert(d.path@ =~= q.skip(pre.len() as int));
            }
        }
        assert(!n0.path@.is_prefix_of(q));
        assert(route_at(n0, q, m2) is None);
    } else if pre.is_prefix_of(q) {
        let rq = q.skip(pre.len() as int);
        assert(q =~= pre + rq);
        assert(rq.len() > 0) by {
            if q.len() == pre.len() {
                assert(q =~= pre);
            }
        }
        assert(q == p <==> rq == rem) by {
            if rq == rem {
                assert(q =~= p);
            }
            if q == p {
                assert(rq =~= rem);
            }
        }
        if rq[0] == d.path@[0] {
            assert(table_at(n1, q) == table_at(d, rq));
            lemma_table_at_shift(n0, d, pre, rq);
            assert(q != p);
        } else if rq[0] == c.path@[0] {
            assert(table_at(n1, q) == table_at(c, rq));
            assert(route_at(n1, q, m2) == route_at(c, rq, m2));
            assert(table_at(n0, q) is None) by {
                assert(q != n0.path@) by {
                    if q == n0.path@ {
                        assert(rq =~= d.path@);
                    }
                }
                if n0.path@.is_prefix_of(q) {
                    assert(q[pre.len() as int] == n0.path@[pre.len() as int]);
                }
            }
        } else {
            assert(table_at_children(n1.children@, rq) is None);
            assert(q != p);
            assert(table_at(n0, q) is None) by {
                assert(q != n0.path@) by {
                    if q == n0.path@ {
                        assert(rq =~= d.path@);
                    }
                }
                if n0.path@.is_prefix_of(q) {
                    assert(q[pre.len() as int] == n0.path@[pre.len() as int]);
                    assert(rq[0] == d.path@[0]);
                }
            }
        }
    } else {
        assert(q != p) by {
            if q == p {
                assert(pre.is_prefix_of(q)) by {
                    assert(q.take(pre.len() as int) =~= pre);
                }
            }
        }
        assert(table_at(n1, q) is None);
        assert(table_at(n0, q) is None) by {
            assert(q != n0.path@) by {
                if q == n0.path@ {
                    assert(pre.is_prefix_of(q)) by {
                        assert(q.take(pre.len() as int) =~= pre);
                    }
                }
            }
            if n0.path@.is_prefix_of(q) {
                assert(pre.is_prefix_of(q)) by {
                    assert(q.take(pre.len() as int) =~= n0.path@.take(pre.len() as int));
                    assert(n0.path@.take(pre.len() as int) =~= pre);
                }
            }
        }
    }
}


/// The child that an ordinary (non-wildcard) descent on `b` selects.
pub closed spec fn find_ord_child<T>(cs: Seq<Router<T>>, b: u8) -> Option<Router<T>>
    decreases cs,
{
    if cs.len() == 0 {
        None
    } else if cs[0].path@ != star_label() && cs[0].path@.len() > 0 && cs[0].path@[0] == b {
        Some(cs[0])
    } else {
        find_ord_child(cs.drop_first(), b)
    }
}

/// What a lookup returns, structurally: an exact node match answers from
/// its own table; a node matched without the method, or a remainder no
/// ordinary child takes, falls back to the star child; everything else
/// fails with `NotFound`, and a reached table without the method with
/// `MethodNotAllowed`.
pub closed spec fn find_spec<T>(n: Router<T>, key: Seq<u8>, m: Method) -> Result<T, StatusCode>
    decreases n,
{
    if key.len() == 0 {
        Err(StatusCode::NotFound)
    } else if key == n.path@ {
        match table_get(n.handlers, m) {
            Some(h) => Ok(h),
            None => match star_child(n.children@) {
                Some(sc) => match table_get(sc.handlers, m) {
                    Some(h) => Ok(h),
                    None => Err(StatusCode::MethodNotAllowed),
                },
                None => {
                    if !table_is_empty(n.handlers) {
                        Err(StatusCode::MethodNotAllowed)
                    } else {
                        Err(StatusCode::NotFound)
                    }
                },
            },
        }
    } else if n.path@.is_prefix_of(key) {
        let rem = key.skip(n.path@.len() as int);
        match find_ord_child(n.children@, rem[0]) {
            Some(_) => find_spec_children(n.children@, rem, m),
            None => match star_child(n.children@) {
                Some(sc) => match table_get(sc.handlers, m) {
                    Some(h) => Ok(h),
                    None => Err(StatusCode::MethodNotAllowed),
                },
                None => Err(StatusCode::NotFound),
            },
        }
    } else {
        Err(StatusCode::NotFound)
    }
}

/// Descend into the first ordinary child owning the remainder's first
/// byte.
pub closed spec fn find_spec_children<T>(cs: Seq<Router<T>>, rem: Seq<u8>, m: Method) -> Result<
    T,
    StatusCode,
>
    decreases cs,
{
    if cs.len() == 0 {
        Err(StatusCode::NotFound)
    } else if cs[0].path@ != star_label() && cs[0].path@.len() > 0 && rem.len() > 0
        && cs[0].path@[0] == rem[0] {
        find_spec(cs[0], rem, m)
    } else {
        find_spec_children(cs.drop_first(), rem, m)
    }
}

/// Skipping children that cannot take the descent.
proof fn lemma_find_skip<T>(cs: Seq<Router<T>>, b: u8, rem: Seq<u8>, m: Method, j: int)
    requires
        0 <= j <= cs.len(),
        rem.len() > 0,
        b == rem[0],
        forall|k: int|
            0 <= k < j ==> !((#[trigger] cs[k]).path@ != star_label() && cs[k].path@.len() > 0
                && cs[k].path@[0] == b),
    ensures
        find_ord_child(cs, b) == find_ord_child(cs.skip(j), b),
        find_spec_children(cs, rem, m) == find_spec_children(cs.skip(j), rem, m),
    decreases j,
{
    if j > 0 {
        assert(cs.drop_first() =~= cs.skip(1));
        assert forall|k: int|
            0 <= k < j - 1 implies !((#[trigger] cs.drop_first()[k]).path@ != star_label()
            && cs.drop_first()[k].path@.len() > 0 && cs.drop_first()[k].path@[0] == b) by {
            assert(cs.drop_first()[k] == cs[k + 1]);
        }
        lemma_find_skip(cs.drop_first(), b, rem, m, j - 1);
        assert(cs.drop_first().skip(j - 1) =~= cs.skip(j));
    } else {
        assert(cs.skip(0) =~= cs);
    }
}

/// Skipping children that are not the star child.
proof fn lemma_star_skip<T>(cs: Seq<Router<T>>, j: int)
    requires
        0 <= j <= cs.len(),
        forall|k: int| 0 <= k < j ==> (#[trigger] cs[k]).path@ != star_label(),
    ensures
        star_child(cs) == star_child(cs.skip(j)),
    decreases j,
{
    if j > 0 {
        assert(cs.drop_first() =~= cs.skip(1));
        assert forall|k: int|
            0 <= k < j - 1 implies (#[trigger] cs.drop_first()[k]).path@ != star_label() by {
            assert(cs.drop_first()[k] == cs[k + 1]);
        }
        lemma_star_skip(cs.drop_first(), j - 1);
        assert(cs.drop_first().skip(j - 1) =~= cs.skip(j));
    } else {
        assert(cs.skip(0) =~= cs);
    }
}

impl<T> Router<T> {
    /// Find the star child, if any.
    fn star_of(&self) -> (r: Option<&Router<T>>)
        ensures
            match r {
                Some(sc) => star_child(self.children@) == Some(*sc),
                None => star_child(self.children@) is None,
            },
    {
        let mut j: usize = 0;
        let star = {
            let mut v: Vec<u8> = Vec::new();
            v.push('*' as u8);
            v
        };
        proof {
            assert(star@ =~= star_label());
            assert(self.children@.skip(0) =~= self.children@);
        }
        while j < self.children.len()
            invariant
                j <= self.children@.len(),
                star@ == star_label(),
                forall|k: int|
                    0 <= k < j ==> (#[trigger] self.children@[k]).path@ != star_label(),
            decreases self.children@.len() - j,
        {
            if crate::bytes::bytes_eq(self.children[j].path.as_slice(), star.as_slice()) {
                proof {
                    lemma_star_skip(self.children@, j as int);
                }
                return Some(&self.children[j]);
            }
            j = j + 1;
        }
        proof {
            lemma_star_skip(self.children@, self.children@.len() as int);
        }
        None
    }

    /// Look a path up for a method. An exact registration wins; a node
    /// matched without the method, or a remainder no ordinary child takes,
    /// falls to the node's star child, which matches any remaining suffix.
    fn find_node(&self, key: &[u8], method: Method) -> (r: Result<&T, StatusCode>)
        ensures
            match r {
                Ok(h) => find_spec(*self, key@, method) == Ok::<T, StatusCode>(*h),
                Err(e) => find_spec(*self, key@, method) == Err::<T, StatusCode>(e),
            },
        decreases key@.len(), (if self.path@.len() == 0 {
            1int
        } else {
            0int
        }),
    {
        if key.len() == 0 {
            return Err(StatusCode::NotFound);
        }
        if crate::bytes::bytes_eq(key, self.path.as_slice()) {
            match self.handlers.get_ref(method) {
                Some(h) => {
                    return Ok(h);
                },
                None => {
                    match self.star_of() {
                        Some(sc) => {
                            match sc.handlers.get_ref(method) {
                                Some(h) => {
                                    return Ok(h);
                                },
                                None => {
                                    return Err(StatusCode::MethodNotAllowed);
                                },
                            }
                        },
                        None => {
                            if self.handlers.any() {
                                return Err(StatusCode::MethodNotAllowed);
                            } else {
                                return Err(StatusCode::NotFound);
                            }
                        },
                    }
                },
            }
        }
        if !crate::bytes::starts_with(key, self.path.as_slice()) {
            return Err(StatusCode::NotFound);
        }
        proof {
            if key@.len() == self.path@.len() {
                assert(key@ =~= self.path@);
            }
        }
        let rem = vstd::slice::slice_subrange(key, self.path.len(), key.len());
        let b = rem[0];
        let ghost cs = self.children@;
        let mut j: usize = 0;
        let star = {
            let mut v: Vec<u8> = Vec::new();
            v.push('*' as u8);
            v
        };
        proof {
            assert(star@ =~= star_label());
        }
        while j < self.children.len()
            invariant
                cs == self.children@,
                j <= cs.len(),
                star@ == star_label(),
                b == rem@[0],
                rem@.len() > 0,
                rem@ == key@.skip(self.path@.len() as int),
                key@ != self.path@,
                self.path@.is_prefix_of(key@),
                key@.len() > self.path@.len(),
                forall|k: int|
                    0 <= k < j ==> !((#[trigger] cs[k]).path@ != star_label() && cs[k].path@.len()
                        > 0 && cs[k].path@[0] == b),
            decreases cs.len() - j,
        {
            let c = &self.children[j];
            if !crate::bytes::bytes_eq(c.path.as_slice(), star.as_slice()) && c.path.len() > 0
                && c.path[0] == b {
                proof {
                    lemma_find_skip(cs, b, rem@, method, j as int);
                    assert(cs.skip(j as int)[0] == cs[j as int]);
                    assert(cs.skip(j as int).drop_first() =~= cs.skip(j + 1));
                    assert(find_spec_children(cs, rem@, method) == find_spec(
                        cs[j as int],
                        rem@,
                        method,
                    ));
                    assert(find_ord_child(cs, b) is Some);
                    assert(find_spec(*self, key@, method) == find_spec_children(
                        cs,
                        rem@,
                        method,
                    ));
                    if self.path@.len() == 0 {
                        assert(rem@.len() == key@.len());
                    } else {
                        assert(rem@.len() < key@.len());
                    }
                }
                let r = c.find_node(rem, method);
                return r;
            }
            j = j + 1;
        }
        proof {
            lemma_find_skip(cs, b, rem@, method, cs.len() as int);
            assert(find_ord_child(cs, b) is None);
        }
        match self.star_of() {
            Some(sc) => {
                match sc.handlers.get_ref(method) {
                    Some(h) => Ok(h),
                    None => Err(StatusCode::MethodNotAllowed),
                }
            },
            None => Err(StatusCode::NotFound),
        }
    }

    /// Look `key` up under `method`.
    pub fn find(&self, key: &[u8], method: Method) -> (r: Result<&T, StatusCode>)
        ensures
            match r {
                Ok(h) => find_spec(*self, key@, method) == Ok::<T, StatusCode>(*h),
                Err(e) => find_spec(*self, key@, method) == Err::<T, StatusCode>(e),
            },
    {
        self.find_node(key, method)
    }
}


/// A table descent is a first-byte child lookup.
proof fn lemma_tac_is_find<T>(cs: Seq<Router<T>>, x: Seq<u8>)
    requires
        x.len() > 0,
    ensures
        table_at_children(cs, x) == match find_child(cs, x[0]) {
            Some(c) => table_at(c, x),
            None => None::<MethodTable<T>>,
        },
    decreases cs.len(),
{
    if cs.len() > 0 {
        lemma_tac_is_find(cs.drop_first(), x);
    }
}

/// What a found child looks like.
proof fn lemma_find_child_props<T>(cs: Seq<Router<T>>, b: u8)
    requires
        children_wf(cs),
        find_child(cs, b) is Some,
    ensures
        find_child(cs, b)->0.path@.len() > 0,
        find_child(cs, b)->0.path@[0] == b,
        node_wf(find_child(cs, b)->0),
    decreases cs.len(),
{
    if cs.len() > 0 && !(cs[0].path@.len() > 0 && cs[0].path@[0] == b) {
        lemma_find_child_props(cs.drop_first(), b);
    }
}

/// Under prefix-freeness the star child is the child lookup for `*`,
/// whenever that lookup lands on a node labelled exactly `*`.
proof fn lemma_star_vs_find<T>(cs: Seq<Router<T>>)
    requires
        children_wf(cs),
        prefix_free(cs),
    ensures
        star_child(cs) == match find_child(cs, '*' as u8) {
            Some(c) => if c.path@ == star_label() {
                Some(c)
            } else {
                None::<Router<T>>
            },
            None => None::<Router<T>>,
        },
    decreases cs.len(),
{
    if cs.len() > 0 {
        assert forall|a: int, b2: int|
            0 <= a < cs.drop_first().len() && 0 <= b2 < cs.drop_first().len() && a != b2 implies (
        #[trigger] cs.drop_first()[a]).path@[0] != (#[trigger] cs.drop_first()[b2]).path@[0] by {
            assert(cs.drop_first()[a] == cs[a + 1]);
            assert(cs.drop_first()[b2] == cs[b2 + 1]);
        }
        lemma_star_vs_find(cs.drop_first());
        if cs[0].path@ == star_label() {
        } else if cs[0].path@.len() > 0 && cs[0].path@[0] == '*' as u8 {
            // The head owns the `*` byte but is not the star child, so no
            // other child can be the star child either.
            if star_child(cs.drop_first()) is Some {
                lemma_star_in(cs.drop_first());
            }
        }
    }
}

/// A star child found below the head shares its first byte with the head
/// of its list.
proof fn lemma_star_in<T>(cs: Seq<Router<T>>)
    requires
        star_child(cs) is Some,
    ensures
        exists|k: int|
            0 <= k < cs.len() && (#[trigger] cs[k]).path@ == star_label() && star_child(cs)
                == Some(cs[k]),
    decreases cs.len(),
{
    if cs.len() > 0 {
        if cs[0].path@ == star_label() {
            assert(cs[0].path@ == star_label() && star_child(cs) == Some(cs[0]));
        } else {
            lemma_star_in(cs.drop_first());
            let k0 = choose|k: int|
                0 <= k < cs.drop_first().len() && (#[trigger] cs.drop_first()[k]).path@
                    == star_label() && star_child(cs.drop_first()) == Some(cs.drop_first()[k]);
            assert(cs[k0 + 1].path@ == star_label() && star_child(cs) == Some(cs[k0 + 1]));
        }
    }
}

/// An ordinary-child lookup is the child lookup, less the star child.
proof fn lemma_ord_vs_find<T>(cs: Seq<Router<T>>, b: u8)
    requires
        children_wf(cs),
        prefix_free(cs),
    ensures
        find_ord_child(cs, b) == match find_child(cs, b) {
            Some(c) => if c.path@ != star_label() {
                Some(c)
            } else {
                None::<Router<T>>
            },
            None => None::<Router<T>>,
        },
    decreases cs.len(),
{
    if cs.len() > 0 {
        assert forall|a: int, b2: int|
            0 <= a < cs.drop_first().len() && 0 <= b2 < cs.drop_first().len() && a != b2 implies (
        #[trigger] cs.drop_first()[a]).path@[0] != (#[trigger] cs.drop_first()[b2]).path@[0] by {
            assert(cs.drop_first()[a] == cs[a + 1]);
            assert(cs.drop_first()[b2] == cs[b2 + 1]);
        }
        lemma_ord_vs_find(cs.drop_first(), b);
        if cs[0].path@ == star_label() && cs[0].path@[0] == b {
            // Nothing below the head can own `*` as well.
            if find_ord_child(cs.drop_first(), b) is Some {
                lemma_ord_in(cs.drop_first(), b);
            }
        }
    }
}

/// An ordinary child found below the head sits at some position.
proof fn lemma_ord_in<T>(cs: Seq<Router<T>>, b: u8)
    requires
        find_ord_child(cs, b) is Some,
    ensures
        exists|k: int|
            0 <= k < cs.len() && (#[trigger] cs[k]).path@ != star_label() && cs[k].path@.len() > 0
                && cs[k].path@[0] == b && find_ord_child(cs, b) == Some(cs[k]),
    decreases cs.len(),
{
    if cs.len() > 0 {
        if cs[0].path@ != star_label() && cs[0].path@.len() > 0 && cs[0].path@[0] == b {
            assert(cs[0].path@ != star_label() && cs[0].path@.len() > 0 && cs[0].path@[0] == b
                && find_ord_child(cs, b) == Some(cs[0]));
        } else {
            lemma_ord_in(cs.drop_first(), b);
            let k0 = choose|k: int|
                0 <= k < cs.drop_first().len() && (#[trigger] cs.drop_first()[k]).path@
                    != star_label() && cs.drop_first()[k].path@.len() > 0
                    && cs.drop_first()[k].path@[0] == b && find_ord_child(cs.drop_first(), b)
                    == Some(cs.drop_first()[k]);
            assert(cs[k0 + 1].path@ != star_label() && cs[k0 + 1].path@.len() > 0 && cs[k0
                + 1].path@[0] == b && find_ord_child(cs, b) == Some(cs[k0 + 1]));
        }
    }
}

/// A child descent is a first-match among children.
proof fn lemma_fsc_is_find<T>(cs: Seq<Router<T>>, rem: Seq<u8>, m: Method)
    requires
        rem.len() > 0,
    ensures
        find_spec_children(cs, rem, m) == match find_ord_child(cs, rem[0]) {
            Some(c) => find_spec(c, rem, m),
            None => Err::<T, StatusCode>(StatusCode::NotFound),
        },
    decreases cs.len(),
{
    if cs.len() > 0 {
        lemma_fsc_is_find(cs.drop_first(), rem, m);
    }
}

/// One extra step is allowed from a node with an empty label: the root.
pub closed spec fn root_flag<T>(n: Router<T>) -> int {
    if n.path@.len() == 0 {
        1
    } else {
        0
    }
}

/// Router correctness, positive half: a registered route is found. For a
/// path `p` registered under method `m` (with `*`, if anywhere, only as
/// its final byte), `find` returns exactly the last handler registered for
/// `(p, m)`.
pub proof fn lemma_find_registered<T>(n: Router<T>, p: Seq<u8>, m: Method, h: T)
    requires
        node_wf(n),
        p.len() > 0,
        route_at(n, p, m) == Some(h),
        forall|i: int| 0 <= i < p.len() - 1 ==> p[i] != '*' as u8,
    ensures
        find_spec(n, p, m) == Ok::<T, StatusCode>(h),
    decreases p.len(), root_flag(n),
{
    if p == n.path@ {
    } else if n.path@.is_prefix_of(p) {
        let rem = p.skip(n.path@.len() as int);
        assert(rem.len() > 0) by {
            if p.len() == n.path@.len() {
                assert(p =~= n.path@);
            }
        }
        lemma_tac_is_find(n.children@, rem);
        let c = find_child(n.children@, rem[0])->0;
        assert(find_child(n.children@, rem[0]) == Some(c));
        lemma_find_child_props(n.children@, rem[0]);
        lemma_star_vs_find(n.children@);
        lemma_ord_vs_find(n.children@, rem[0]);
        if c.path@ == star_label() {
            assert(rem.len() == 1) by {
                if rem.len() > 1 {
                    assert(p[n.path@.len() as int] == '*' as u8);
                }
            }
            assert(rem =~= star_label());
            assert(table_at(c, rem) == Some(c.handlers));
            assert(find_ord_child(n.children@, rem[0]) is None);
            assert(star_child(n.children@) == Some(c));
        } else {
            assert(find_ord_child(n.children@, rem[0]) == Some(c));
            lemma_fsc_is_find(n.children@, rem, m);
            assert(route_at(c, rem, m) == Some(h));
            assert forall|i: int| 0 <= i < rem.len() - 1 implies rem[i] != '*' as u8 by {
                assert(rem[i] == p[n.path@.len() + i]);
            }
            lemma_find_registered(c, rem, m, h);
        }
    } else {
        assert(false);
    }
}


/// Router correctness, negative half: for a star-free path `p` with no
/// star route hanging off any of its prefixes, a method that was never
/// registered for `p` is refused with `MethodNotAllowed` when `p` carries
/// registrations for other methods, and with `NotFound` otherwise.
pub proof fn lemma_find_unregistered<T>(n: Router<T>, p: Seq<u8>, m: Method)
    requires
        node_wf(n),
        p.len() > 0,
        route_at(n, p, m) is None,
        forall|i: int| 0 <= i < p.len() ==> p[i] != '*' as u8,
        forall|j: int|
            #![trigger p.take(j)]
            0 <= j <= p.len() ==> table_at(n, p.take(j).push('*' as u8)) is None,
    ensures
        find_spec(n, p, m) == if exists|m2: Method| route_at(n, p, m2) is Some {
            Err::<T, StatusCode>(StatusCode::MethodNotAllowed)
        } else {
            Err::<T, StatusCode>(StatusCode::NotFound)
        },
    decreases p.len(), root_flag(n),
{
    lemma_star_vs_find(n.children@);
    if p == n.path@ {
        assert(p.take(p.len() as int) =~= p);
        if star_child(n.children@) is Some {
            let sc = star_child(n.children@)->0;
            let w = p.push('*' as u8);
            assert(w.take(p.len() as int) =~= p);
            assert(n.path@.is_prefix_of(w));
            assert(w.skip(n.path@.len() as int) =~= star_label());
            lemma_tac_is_find(n.children@, star_label());
            assert(table_at(n, w) == Some(sc.handlers));
            assert(false);
        }
        if !table_is_empty(n.handlers) {
            assert(exists|m2: Method| route_at(n, p, m2) is Some) by {
                if table_get(n.handlers, Method::Get) is Some {
                    assert(route_at(n, p, Method::Get) is Some);
                } else if table_get(n.handlers, Method::Post) is Some {
                    assert(route_at(n, p, Method::Post) is Some);
                } else {
                    assert(route_at(n, p, Method::Options) is Some);
                }
            }
        } else {
            assert(forall|m2: Method| route_at(n, p, m2) is None);
        }
    } else if n.path@.is_prefix_of(p) {
        let rem = p.skip(n.path@.len() as int);
        assert(rem.len() > 0) by {
            if p.len() == n.path@.len() {
                assert(p =~= n.path@);
            }
        }
        assert(rem[0] != '*' as u8) by {
            assert(rem[0] == p[n.path@.len() as int]);
        }
        lemma_tac_is_find(n.children@, rem);
        lemma_ord_vs_find(n.children@, rem[0]);
        match find_child(n.children@, rem[0]) {
            Some(c) => {
                lemma_find_child_props(n.children@, rem[0]);
                assert(c.path@ != star_label());
                lemma_fsc_is_find(n.children@, rem, m);
                assert(table_at(n, p) == table_at(c, rem));
                assert(route_at(c, rem, m) is None);
                assert forall|i: int| 0 <= i < rem.len() implies rem[i] != '*' as u8 by {
                    assert(rem[i] == p[n.path@.len() + i]);
                }
                assert forall|j: int|
                    #![trigger rem.take(j)]
                    0 <= j <= rem.len() implies table_at(c, rem.take(j).push('*' as u8))
                    is None by {
                    let x = rem.take(j).push('*' as u8);
                    if j == 0 {
                        assert(x =~= star_label());
                        assert(x != c.path@);
                        assert(!c.path@.is_prefix_of(x)) by {
                            if c.path@.is_prefix_of(x) {
                                assert(c.path@[0] == x[0]);
                            }
                        }
                    } else {
                        assert(x[0] == rem[0]);
                        let qn = p.take(n.path@.len() + j).push('*' as u8);
                        assert(qn =~= n.path@ + x);
                        assert(table_at(n, qn) is None);
                        assert(qn != n.path@);
                        assert(n.path@.is_prefix_of(qn)) by {
                            assert(qn.take(n.path@.len() as int) =~= n.path@);
                        }
                        assert(qn.skip(n.path@.len() as int) =~= x);
                        lemma_tac_is_find(n.children@, x);
                        assert(table_at(n, qn) == table_at(c, x));
                    }
                }
                lemma_find_unregistered(c, rem, m);
                assert forall|m2: Method|
                    route_at(n, p, m2) == route_at(c, rem, m2) by {}
                if exists|m2: Method| route_at(n, p, m2) is Some {
                    let m2 = choose|m2: Method| route_at(n, p, m2) is Some;
                    assert(route_at(c, rem, m2) is Some);
                } else {
                    assert(forall|m2: Method| route_at(c, rem, m2) is None);
                    assert(!(exists|m2: Method| route_at(c, rem, m2) is Some));
                }
            },
            None => {
                assert(table_at(n, p) is None);
                assert(forall|m2: Method| route_at(n, p, m2) is None);
                if star_child(n.children@) is Some {
                    let sc = star_child(n.children@)->0;
                    let j0 = n.path@.len() as int;
                    let w = p.take(j0).push('*' as u8);
                    assert(p.take(j0) =~= n.path@);
                    assert(w.take(n.path@.len() as int) =~= n.path@);
                    assert(n.path@.is_prefix_of(w));
                    assert(w != n.path@);
                    assert(w.skip(n.path@.len() as int) =~= star_label());
                    lemma_tac_is_find(n.children@, star_label());
                    assert(table_at(n, w) == Some(sc.handlers));
                    assert(false);
                }
            },
        }
    } else {
        assert(table_at(n, p) is None);
        assert(forall|m2: Method| route_at(n, p, m2) is None);
    }
}

/// Wildcard greediness: when `w0*` is registered and nothing else hangs
/// below `w0`, every query that continues past `w0` resolves to the
/// wildcard's handler, whatever its remaining suffix.
pub proof fn lemma_find_wildcard<T>(n: Router<T>, w0: Seq<u8>, m: Method, h: T, k: Seq<u8>)
    requires
        node_wf(n),
        w0.len() > 0,
        forall|i: int| 0 <= i < w0.len() ==> w0[i] != '*' as u8,
        table_at(n, w0) is Some,
        route_at(n, w0.push('*' as u8), m) == Some(h),
        forall|q: Seq<u8>|
            #![trigger table_at(n, q)]
            w0.is_prefix_of(q) && q.len() > w0.len() && q != w0.push('*' as u8) ==> table_at(
                n,
                q,
            ) is None,
        w0.is_prefix_of(k),
        k.len() > w0.len(),
    ensures
        find_spec(n, k, m) == Ok::<T, StatusCode>(h),
    decreases w0.len(), root_flag(n),
{
    let w = w0.push('*' as u8);
    lemma_star_vs_find(n.children@);
    if w0 == n.path@ {
        // The star child carries the handler, and it is the only child.
        assert(w.take(w0.len() as int) =~= w0);
        assert(n.path@.is_prefix_of(w));
        assert(w != n.path@);
        assert(w.skip(n.path@.len() as int) =~= star_label());
        lemma_tac_is_find(n.children@, star_label());
        let c = find_child(n.children@, '*' as u8)->0;
        assert(find_child(n.children@, '*' as u8) == Some(c)) by {
            if find_child(n.children@, '*' as u8) is None {
                assert(table_at(n, w) is None);
            }
        }
        lemma_find_child_props(n.children@, '*' as u8);
        assert(c.path@ == star_label()) by {
            if c.path@ != star_label() {
                assert(table_at(c, star_label()) is None) by {
                    if star_label().is_prefix_of(c.path@) {
                    }
                    if c.path@.is_prefix_of(star_label()) {
                        assert(c.path@ =~= star_label());
                    }
                }
            }
        }
        assert(star_child(n.children@) == Some(c));
        assert(table_get(c.handlers, m) == Some(h));
        assert forall|jj: int|
            0 <= jj < n.children@.len() implies (#[trigger] n.children@[jj]).path@
            == star_label() by {
            lemma_children_wf_at(n.children@, jj);
            lemma_find_child_in(n.children@, jj);
            let q2 = w0 + n.children@[jj].path@;
            assert(q2.take(w0.len() as int) =~= w0);
            assert(w0.is_prefix_of(q2));
            assert(q2 != n.path@);
            assert(q2.skip(n.path@.len() as int) =~= n.children@[jj].path@);
            lemma_tac_is_find(n.children@, n.children@[jj].path@);
            assert(table_at(n, q2) == Some(n.children@[jj].handlers));
            assert(q2 == w);
            assert(n.children@[jj].path@ =~= q2.skip(w0.len() as int));
            assert(w.skip(w0.len() as int) =~= star_label());
        }
        // Lookup of `k` sees no ordinary child and falls to the star.
        assert(k != n.path@);
        assert(n.path@.is_prefix_of(k)) by {
            assert(k.take(n.path@.len() as int) =~= w0.take(n.path@.len() as int));
            assert(w0.take(w0.len() as int) =~= w0);
        }
        let rk = k.skip(n.path@.len() as int);
        assert(rk.len() > 0);
        assert(find_ord_child(n.children@, rk[0]) is None) by {
            if find_ord_child(n.children@, rk[0]) is Some {
                lemma_ord_in(n.children@, rk[0]);
            }
        }
    } else if n.path@.is_prefix_of(w0) {
        let rem0 = w0.skip(n.path@.len() as int);
        assert(rem0.len() > 0) by {
            if w0.len() == n.path@.len() {
                assert(w0 =~= n.path@);
            }
        }
        assert(rem0[0] != '*' as u8) by {
            assert(rem0[0] == w0[n.path@.len() as int]);
        }
        assert(w0 =~= n.path@ + rem0);
        lemma_tac_is_find(n.children@, rem0);
        let c = find_child(n.children@, rem0[0])->0;
        assert(find_child(n.children@, rem0[0]) == Some(c));
        lemma_find_child_props(n.children@, rem0[0]);
        assert(c.path@ != star_label());
        lemma_ord_vs_find(n.children@, rem0[0]);
        assert(find_ord_child(n.children@, rem0[0]) == Some(c));
        assert(table_at(c, rem0) is Some);
        // Transfer the wildcard route and the emptiness below `w0`.
        let x = rem0.push('*' as u8);
        assert(x[0] == rem0[0]);
        assert(n.path@ + x =~= w);
        assert(w != n.path@);
        assert(n.path@.is_prefix_of(w)) by {
            assert(w.take(n.path@.len() as int) =~= n.path@);
        }
        assert(w.skip(n.path@.len() as int) =~= x);
        lemma_tac_is_find(n.children@, x);
        assert(table_at(n, w) == table_at(c, x));
        assert forall|q2: Seq<u8>|
            #![trigger table_at(c, q2)]
            rem0.is_prefix_of(q2) && q2.len() > rem0.len() && q2 != rem0.push('*' as u8)
            implies table_at(c, q2) is None by {
            let qn = n.path@ + q2;
            assert(q2[0] == rem0[0]);
            assert(qn != n.path@);
            assert(n.path@.is_prefix_of(qn)) by {
                assert(qn.take(n.path@.len() as int) =~= n.path@);
            }
            assert(qn.skip(n.path@.len() as int) =~= q2);
            lemma_tac_is_find(n.children@, q2);
            assert(table_at(n, qn) == table_at(c, q2));
            assert(w0.is_prefix_of(qn)) by {
                assert(qn.take(w0.len() as int) =~= w0);
            }
            assert(qn != w) by {
                if qn == w {
                    assert(q2 =~= x);
                }
            }
            assert(table_at(n, qn) is None);
        }
        assert forall|i: int| 0 <= i < rem0.len() implies rem0[i] != '*' as u8 by {
            assert(rem0[i] == w0[n.path@.len() + i]);
        }
        let rk = k.skip(n.path@.len() as int);
        assert(rem0.is_prefix_of(rk)) by {
            assert(rk.take(rem0.len() as int) =~= k.subrange(
                n.path@.len() as int,
                w0.len() as int,
            ));
            assert(k.subrange(n.path@.len() as int, w0.len() as int) =~= w0.skip(
                n.path@.len() as int,
            ));
        }
        assert(rk.len() > rem0.len());
        lemma_find_wildcard(c, rem0, m, h, rk);
        // The query descends into the same child.
        assert(k != n.path@);
        assert(n.path@.is_prefix_of(k)) by {
            assert(k.take(n.path@.len() as int) =~= n.path@);
        }
        assert(rk[0] == rem0[0]);
        lemma_fsc_is_find(n.children@, rk, m);
        lemma_ord_vs_find(n.children@, rk[0]);
        assert(find_spec(n, k, m) == find_spec(c, rk, m));
    } else {
        assert(table_at(n, w0) is None);
        assert(false);
    }
}

} // verus!
