//! The onion model of request interception: every middleware sees the
//! request on the way in and the response of everything inside it on the
//! way out, and may short-circuit by answering at once.
use vstd::prelude::*;

mod basic_auth;
mod cors;

pub use basic_auth::BasicAuth;
pub use cors::{Cors, Origin};

use crate::handler::{handler_response, Handler};
use crate::request::{Request, RequestView};
use crate::response::{Response, ResponseView};

verus! {

/// What a middleware decides on the way in: pass a (possibly reshaped)
/// request onward, or answer immediately.
pub enum Step {
    Forward(Request),
    Respond(Response),
}

/// Middleware preprocesses the request before the rest of the chain runs
/// and postprocesses the response the rest of the chain produced. Each
/// implementation states both halves as specification functions.
pub trait Middleware {
    /// The inbound decision: `Ok` forwards a request, `Err` short-circuits
    /// with a response. Left unstated, a middleware forwards untouched.
    open spec fn enter_spec(&self, req: RequestView) -> Result<RequestView, ResponseView> {
        Ok(req)
    }

    /// The outbound transformation, seeing the request as it arrived at
    /// this layer. Left unstated, a middleware passes the response back.
    open spec fn leave_spec(&self, req: RequestView, resp: ResponseView) -> ResponseView {
        resp
    }

    fn enter(&self, request: Request) -> (r: Step)
        ensures
            match r {
                Step::Forward(q) => self.enter_spec(request@) == Ok::<RequestView, ResponseView>(
                    q@,
                ),
                Step::Respond(resp) => self.enter_spec(request@) == Err::<
                    RequestView,
                    ResponseView,
                >(resp@),
            },
    ;

    fn leave(&self, request: &Request, response: Response) -> (r: Response)
        ensures
            r@ == self.leave_spec(request@, response@),
    ;
}

/// What a chain of middlewares around a terminal handler computes: each
/// layer may reshape the request going in, the handler answers, and the
/// layers that forwarded postprocess in reverse order. A layer that
/// responds by itself ends the descent; the layers outside it still
/// postprocess, the ones inside it and the handler never run.
pub open spec fn run_spec<M: Middleware, H: Handler>(
    ms: Seq<M>,
    h: &H,
    req: RequestView,
) -> ResponseView
    decreases ms.len(),
{
    if ms.len() == 0 {
        handler_response(h, req)
    } else {
        match ms[0].enter_spec(req) {
            Err(resp) => resp,
            Ok(q) => ms[0].leave_spec(req, run_spec(ms.drop_first(), h, q)),
        }
    }
}

/// The request that reaches layer `i`, if the first `i` layers all
/// forward.
pub open spec fn enter_upto<M: Middleware>(ms: Seq<M>, req: RequestView, i: int) -> Option<
    RequestView,
>
    decreases i,
{
    if i <= 0 {
        Some(req)
    } else {
        match ms[0].enter_spec(req) {
            Err(_) => None,
            Ok(q) => enter_upto(ms.drop_first(), q, i - 1),
        }
    }
}

/// The views of a row of request snapshots.
pub open spec fn req_views(v: Seq<Request>) -> Seq<RequestView> {
    v.map_values(|r: Request| r@)
}

/// The pending outbound half: the layers in `ms`, each with the request it
/// saw, wrapped around a response inside-out.
pub open spec fn leaves_fold<M: Middleware>(
    ms: Seq<M>,
    seen: Seq<RequestView>,
    resp: ResponseView,
) -> ResponseView
    decreases ms.len(),
{
    if ms.len() == 0 {
        resp
    } else {
        ms[0].leave_spec(seen[0], leaves_fold(ms.drop_first(), seen.drop_first(), resp))
    }
}

/// Peeling the innermost layer off the outbound fold.
proof fn lemma_leaves_fold_snoc<M: Middleware>(
    ms: Seq<M>,
    seen: Seq<RequestView>,
    m: M,
    s: RequestView,
    resp: ResponseView,
)
    requires
        ms.len() == seen.len(),
    ensures
        leaves_fold(ms.push(m), seen.push(s), resp) == leaves_fold(
            ms,
            seen,
            m.leave_spec(s, resp),
        ),
    decreases ms.len(),
{
    if ms.len() == 0 {
        reveal_with_fuel(leaves_fold, 3);
        assert(ms.push(m)[0] == m);
        assert(seen.push(s)[0] == s);
        assert(ms.push(m).drop_first() =~= Seq::<M>::empty());
        assert(seen.push(s).drop_first() =~= Seq::<RequestView>::empty());
    } else {
        assert(ms.push(m).drop_first() =~= ms.drop_first().push(m));
        assert(seen.push(s).drop_first() =~= seen.drop_first().push(s));
        assert(ms.push(m)[0] == ms[0]);
        assert(seen.push(s)[0] == seen[0]);
        lemma_leaves_fold_snoc(ms.drop_first(), seen.drop_first(), m, s, resp);
    }
}

/// Sequence of middlewares around a terminal handler, applied in
/// registration order going in and in reverse order going out.
pub struct MiddlewareChain<M: Middleware> {
    middlewares: Vec<M>,
}

impl<M: Middleware> MiddlewareChain<M> {
    pub closed spec fn view(&self) -> Seq<M> {
        self.middlewares@
    }

    pub fn new() -> (r: Self)
        ensures
            r@ == Seq::<M>::empty(),
    {
        let r = MiddlewareChain { middlewares: Vec::new() };
        proof {
            assert(r@ =~= Seq::<M>::empty());
        }
        r
    }

    /// Append a middleware; order is significant.
    pub fn push(&mut self, m: M)
        ensures
            final(self)@ == old(self)@.push(m),
    {
        self.middlewares.push(m);
    }

    /// Thread `request` through the chain around `handler`.
    pub fn run<H: Handler>(&self, request: Request, handler: &H) -> (r: Response)
        ensures
            r@ == run_spec(self@, handler, request@),
    {
        let ghost ms = self.middlewares@;
        let ghost req0 = request@;
        let mut snaps: Vec<Request> = Vec::new();
        let mut cur = request;
        let mut i: usize = 0;
        let mut short: Option<Response> = None;
        proof {
            assert(ms.take(0) =~= Seq::<M>::empty());
            assert(req_views(snaps@) =~= Seq::<RequestView>::empty());
            assert(ms.skip(0) =~= ms);
        }
        while i < self.middlewares.len()
            invariant_except_break
                ms == self.middlewares@,
                i <= ms.len(),
                snaps@.len() == i,
                short is None,
                run_spec(ms, handler, req0) == leaves_fold(
                    ms.take(i as int),
                    req_views(snaps@),
                    run_spec(ms.skip(i as int), handler, cur@),
                ),
            ensures
                ms == self.middlewares@,
                i <= ms.len(),
                snaps@.len() == i,
                short is None ==> i == ms.len() && run_spec(ms, handler, req0) == leaves_fold(
                    ms.take(i as int),
                    req_views(snaps@),
                    run_spec(ms.skip(i as int), handler, cur@),
                ),
                short matches Some(resp) ==> run_spec(ms, handler, req0) == leaves_fold(
                    ms.take(i as int),
                    req_views(snaps@),
                    resp@,
                ),
            decreases ms.len() - i,
        {
            let ghost snaps0 = snaps@;
            let snap = cur.duplicate();
            let m = &self.middlewares[i];
            proof {
                assert(ms.skip(i as int)[0] == ms[i as int]);
                assert(ms.skip(i as int).drop_first() =~= ms.skip(i + 1));
            }
            match m.enter(cur) {
                Step::Forward(q) => {
                    snaps.push(snap);
                    cur = q;
                    i = i + 1;
                    proof {
                        assert(ms.take(i as int) =~= ms.take(i - 1).push(ms[i - 1]));
                        assert(req_views(snaps@) =~= req_views(snaps0).push(snap@));
                        assert(req_views(snaps0).len() == i - 1);
                        lemma_leaves_fold_snoc(
                            ms.take(i - 1),
                            req_views(snaps0),
                            ms[i - 1],
                            snap@,
                            run_spec(ms.skip(i as int), handler, cur@),
                        );
                    }
                },
                Step::Respond(resp) => {
                    // This layer's own postprocessing does not run: it
                    // produced the response itself.
                    short = Some(resp);
                    cur = snap;
                    break ;
                },
            }
        }
        let mut response: Response = match short {
            Some(resp) => resp,
            None => {
                proof {
                    assert(ms.skip(i as int) =~= Seq::<M>::empty());
                }
                match handler.call(cur) {
                    Ok(resp) => resp,
                    Err(code) => Response::from_status(code),
                }
            },
        };
        proof {
            assert(req_views(snaps@).take(i as int) =~= req_views(snaps@));
        }
        let mut j: usize = i;
        while j > 0
            invariant
                ms == self.middlewares@,
                j <= i <= ms.len(),
                snaps@.len() == i,
                run_spec(ms, handler, req0) == leaves_fold(
                    ms.take(j as int),
                    req_views(snaps@).take(j as int),
                    response@,
                ),
            decreases j,
        {
            j = j - 1;
            let ghost resp0 = response@;
            response = self.middlewares[j].leave(&snaps[j], response);
            proof {
                assert(ms.take(j + 1) =~= ms.take(j as int).push(ms[j as int]));
                assert(req_views(snaps@).take(j + 1) =~= req_views(snaps@).take(
                    j as int,
                ).push(req_views(snaps@)[j as int]));
                assert(req_views(snaps@)[j as int] == snaps@[j as int]@);
                lemma_leaves_fold_snoc(
                    ms.take(j as int),
                    req_views(snaps@).take(j as int),
                    ms[j as int],
                    snaps@[j as int]@,
                    resp0,
                );
            }
        }
        proof {
            assert(ms.take(0) =~= Seq::<M>::empty());
        }
        response
    }
}

/// Middleware ordering: with layers `m1` then `m2` around handler `h`,
/// `m1`'s request reshaping is what `m2` sees, `m2`'s is what the handler
/// sees, and the response passes `m2`'s postprocessing before `m1`'s.
pub proof fn lemma_middleware_order<M: Middleware, H: Handler>(
    m1: M,
    m2: M,
    h: &H,
    req: RequestView,
    q1: RequestView,
    q2: RequestView,
)
    requires
        m1.enter_spec(req) == Ok::<RequestView, ResponseView>(q1),
        m2.enter_spec(q1) == Ok::<RequestView, ResponseView>(q2),
    ensures
        run_spec(seq![m1, m2], h, req) == m1.leave_spec(
            req,
            m2.leave_spec(q1, handler_response(h, q2)),
        ),
{
    reveal_with_fuel(run_spec, 4);
    let ms = seq![m1, m2];
    assert(ms.drop_first() =~= seq![m2]);
    assert(seq![m2].drop_first() =~= Seq::<M>::empty());
    assert(ms[0] == m1);
    assert(seq![m2][0] == m2);
}

/// Short-circuit: when the layers up to `i` forward and layer `i` answers
/// by itself, the terminal handler never runs — the chain's result does
/// not depend on it at all.
pub proof fn lemma_short_circuit<M: Middleware, H1: Handler, H2: Handler>(
    ms: Seq<M>,
    i: int,
    h1: &H1,
    h2: &H2,
    req: RequestView,
)
    requires
        0 <= i < ms.len(),
        enter_upto(ms, req, i) is Some,
        ms[i].enter_spec(enter_upto(ms, req, i)->0) is Err,
    ensures
        run_spec(ms, h1, req) == run_spec(ms, h2, req),
    decreases i,
{
    if i == 0 {
        assert(enter_upto(ms, req, 0) == Some(req));
    } else {
        let q1 = match ms[0].enter_spec(req) {
            Ok(q) => q,
            Err(_) => req,
        };
        assert(ms[0].enter_spec(req) == Ok::<RequestView, ResponseView>(q1));
        assert(enter_upto(ms.drop_first(), q1, i - 1) == enter_upto(ms, req, i));
        assert(ms.drop_first()[i - 1] == ms[i]);
        lemma_short_circuit(ms.drop_first(), i - 1, h1, h2, q1);
    }
}

} // verus!
