//! Dispatch: resolving a request against the router tree and answering it.
//!
//! Resolution splits the path into segments and descends the mount tree: at
//! each level the usable mount with the longest prefix wins (first registered
//! among equals); where none matches, the remaining segments are matched
//! against the routes at that level in registration order. The outcome is a
//! matched route with its bound parameters, a wrong-method notice, or no
//! match; the middleware of every router along the descent, ancestors first,
//! wraps the terminal stage. Fallbacks of the root router answer the two
//! not-found outcomes; without them the defaults are a bare 404 and 405.

use vstd::prelude::*;

use crate::handler::{ErrorFormat, Handler, pol_model};
use crate::message::{Method, PairSeq, ReqModel, Request, RespModel, Response};
use crate::middleware::{
    chain_model, run_chain, run_chain_spec, Middleware, Terminal, TerminalModel,
};
use crate::pattern::{
    bind_params_spec, match_pattern, pattern_matches_spec, split_path, split_path_spec,
};
use crate::router::{prefix_of_spec, Mount, Route, Router};

verus! {

/// Whether a mount can take part of the remaining path: a non-empty prefix
/// that prefixes the remaining segments.
pub open spec fn mount_usable_spec(m: Mount, segs: Seq<Seq<char>>) -> bool {
    m.prefix@.len() > 0 && prefix_of_spec(m.prefix.deep_view(), segs)
}

/// The mount resolution descends into: among the usable mounts, the one with
/// the longest prefix, the first registered among equals.
pub open spec fn best_mount_spec(mounts: Seq<Mount>, segs: Seq<Seq<char>>) -> Option<int>
    decreases mounts.len(),
{
    if mounts.len() == 0 {
        None
    } else {
        let rest = best_mount_spec(mounts.drop_last(), segs);
        let j = mounts.len() - 1;
        if mount_usable_spec(mounts[j], segs) {
            match rest {
                None => Some(j),
                Some(k) => if mounts[j].prefix@.len() > mounts[k].prefix@.len() {
                    Some(j)
                } else {
                    Some(k)
                },
            }
        } else {
            rest
        }
    }
}

/// A chosen mount is in range and usable.
pub proof fn lemma_best_mount_usable(mounts: Seq<Mount>, segs: Seq<Seq<char>>)
    ensures
        best_mount_spec(mounts, segs) matches Some(k) ==> 0 <= k < mounts.len()
            && mount_usable_spec(mounts[k], segs),
    decreases mounts.len(),
{
    if mounts.len() > 0 {
        lemma_best_mount_usable(mounts.drop_last(), segs);
        if best_mount_spec(mounts.drop_last(), segs) is Some {
            let k = best_mount_spec(mounts.drop_last(), segs)->0;
            assert(mounts.drop_last()[k] == mounts[k]);
        }
    }
}

/// The first route whose method and pattern accept the request.
pub open spec fn find_route_spec(routes: Seq<Route>, m: Method, segs: Seq<Seq<char>>) -> Option<
    Route,
>
    decreases routes.len(),
{
    if routes.len() == 0 {
        None
    } else if routes[0].method == m && pattern_matches_spec(routes[0].pattern@, segs) {
        Some(routes[0])
    } else {
        find_route_spec(routes.drop_first(), m, segs)
    }
}

/// Whether any route's pattern accepts the path, whatever its method.
pub open spec fn any_pattern_match_spec(routes: Seq<Route>, segs: Seq<Seq<char>>) -> bool {
    exists|i: int|
        0 <= i < routes.len() && pattern_matches_spec((#[trigger] routes[i]).pattern@, segs)
}

/// The outcome of resolution: a matched handler with its bound parameters, a
/// path matched under other methods only, or no match at all - each carrying
/// the middleware collected along the descent.
pub enum Resolution {
    Found { handler: Handler, params: PairSeq, chain: Seq<Middleware> },
    WrongMethod { chain: Seq<Middleware> },
    NoMatch { chain: Seq<Middleware> },
}

/// Matching the remaining segments against one router's own routes.
pub open spec fn route_level_spec(
    r: Router,
    m: Method,
    segs: Seq<Seq<char>>,
    chain: Seq<Middleware>,
) -> Resolution {
    match find_route_spec(r.routes@, m, segs) {
        Some(route) => Resolution::Found {
            handler: route.handler,
            params: bind_params_spec(route.pattern@, segs),
            chain,
        },
        None => if any_pattern_match_spec(r.routes@, segs) {
            Resolution::WrongMethod { chain }
        } else {
            Resolution::NoMatch { chain }
        },
    }
}

/// Resolution over the router tree, accumulating the middleware chain:
/// descend into the best usable mount while one exists, then match routes
/// where the descent ends.
pub open spec fn resolve_spec(
    r: Router,
    m: Method,
    segs: Seq<Seq<char>>,
    chain: Seq<Middleware>,
) -> Resolution
    decreases segs.len(),
{
    let chain2 = chain + r.middleware@;
    match best_mount_spec(r.mounts@, segs) {
        Some(k) => {
            let pre = r.mounts[k].prefix.deep_view();
            if 0 <= k < r.mounts@.len() && 0 < pre.len() <= segs.len() {
                resolve_spec(r.mounts[k].router, m, segs.skip(pre.len() as int), chain2)
            } else {
                route_level_spec(r, m, segs, chain2)
            }
        },
        None => route_level_spec(r, m, segs, chain2),
    }
}

/// The outcome of resolution, as executed.
pub enum Resolved<'a> {
    Found { handler: &'a Handler, params: Vec<(String, String)> },
    WrongMethod,
    NoMatch,
}

/// An executed outcome and collected chain, as a [`Resolution`].
pub open spec fn resolved_model(res: Resolved, chain: Seq<Middleware>) -> Resolution {
    match res {
        Resolved::Found { handler, params } => Resolution::Found {
            handler: *handler,
            params: params.deep_view(),
            chain,
        },
        Resolved::WrongMethod => Resolution::WrongMethod { chain },
        Resolved::NoMatch => Resolution::NoMatch { chain },
    }
}

/// Whether this mount can take the remaining path (from position `pos`).
fn mount_usable(m: &Mount, segs: &Vec<String>, pos: usize) -> (r: bool)
    requires
        pos <= segs@.len(),
    ensures
        r == mount_usable_spec(*m, segs.deep_view().skip(pos as int)),
{
    let ghost suffix = segs.deep_view().skip(pos as int);
    let sl = segs.len();
    if m.prefix.len() == 0 || m.prefix.len() > sl - pos {
        return false;
    }
    let mut i: usize = 0;
    while i < m.prefix.len()
        invariant
            0 <= i <= m.prefix@.len(),
            sl == segs@.len(),
            pos + m.prefix@.len() <= sl,
            suffix == segs.deep_view().skip(pos as int),
            segs.deep_view().len() == segs@.len(),
            m.prefix.deep_view().len() == m.prefix@.len(),
            forall|j: int| 0 <= j < i ==> m.prefix.deep_view()[j] == suffix[j],
        decreases m.prefix@.len() - i,
    {
        proof {
            assert(m.prefix.deep_view()[i as int] == m.prefix@[i as int]@);
            assert(suffix[i as int] == segs.deep_view()[pos + i]);
            assert(segs.deep_view()[pos + i] == segs@[pos + i]@);
        }
        if m.prefix[i] != segs[pos + i] {
            return false;
        }
        i += 1;
    }
    true
}

/// Resolve a request's method and remaining path segments against the tree,
/// pushing the middleware met along the way onto `chain`.
pub fn resolve<'a>(
    r: &'a Router,
    m: Method,
    segs: &Vec<String>,
    pos: usize,
    chain: &mut Vec<&'a Middleware>,
) -> (res: Resolved<'a>)
    requires
        pos <= segs@.len(),
    ensures
        resolve_spec(*r, m, segs.deep_view().skip(pos as int), chain_model(old(chain)@))
            == resolved_model(res, chain_model(final(chain)@)),
    decreases segs@.len() - pos,
{
    let ghost suffix = segs.deep_view().skip(pos as int);
    let ghost chain0 = chain_model(chain@);

    // Collect this router's middleware.
    let mut mi: usize = 0;
    proof {
        assert(chain_model(chain@) =~= chain0 + r.middleware@.take(0));
    }
    while mi < r.middleware.len()
        invariant
            0 <= mi <= r.middleware@.len(),
            chain0 == chain_model(old(chain)@),
            chain_model(chain@) == chain0 + r.middleware@.take(mi as int),
        decreases r.middleware@.len() - mi,
    {
        let ghost before = chain_model(chain@);
        chain.push(&r.middleware[mi]);
        proof {
            assert(chain_model(chain@) =~= before.push(r.middleware@[mi as int]));
            assert(before.push(r.middleware@[mi as int]) =~= chain0 + r.middleware@.take(
                mi as int + 1,
            ));
        }
        mi += 1;
    }
    proof {
        assert(r.middleware@.take(r.middleware@.len() as int) =~= r.middleware@);
    }
    let ghost chain2 = chain0 + r.middleware@;

    // Pick the best mount, if any is usable.
    let mut best: Option<usize> = None;
    let mut i: usize = 0;
    while i < r.mounts.len()
        invariant
            0 <= i <= r.mounts@.len(),
            pos <= segs@.len(),
            suffix == segs.deep_view().skip(pos as int),
            chain0 == chain_model(old(chain)@),
            chain_model(chain@) == chain0 + r.middleware@,
            match best {
                Some(b) => 0 <= b < i && best_mount_spec(r.mounts@.take(i as int), suffix)
                    == Some(b as int),
                None => best_mount_spec(r.mounts@.take(i as int), suffix) is None,
            },
        decreases r.mounts@.len() - i,
    {
        proof {
            assert(r.mounts@.take(i as int + 1).drop_last() =~= r.mounts@.take(i as int));
            assert(r.mounts@.take(i as int + 1).last() == r.mounts@[i as int]);
        }
        if mount_usable(&r.mounts[i], segs, pos) {
            match best {
                None => {
                    best = Some(i);
                },
                Some(b) => {
                    if r.mounts[i].prefix.len() > r.mounts[b].prefix.len() {
                        best = Some(i);
                    }
                },
            }
        }
        i += 1;
    }
    proof {
        assert(r.mounts@.take(r.mounts@.len() as int) =~= r.mounts@);
    }

    match best {
        Some(b) => {
            let sl = segs.len();
            let plen = r.mounts[b].prefix.len();
            proof {
                lemma_best_mount_usable(r.mounts@, suffix);
                assert(prefix_of_spec(r.mounts@[b as int].prefix.deep_view(), suffix));
                assert(plen + pos <= sl);
                assert(suffix.skip(plen as int) =~~= segs.deep_view().skip(pos + plen));
            }
            resolve(&r.mounts[b].router, m, segs, pos + plen, chain)
        },
        None => {
            // Match this router's own routes.
            let mut shape = false;
            let mut j: usize = 0;
            proof {
                assert(r.routes@.skip(0) =~= r.routes@);
            }
            while j < r.routes.len()
                invariant
                    0 <= j <= r.routes@.len(),
                    suffix == segs.deep_view().skip(pos as int),
                    pos <= segs@.len(),
                    chain0 == chain_model(old(chain)@),
                    chain_model(chain@) == chain0 + r.middleware@,
                    best_mount_spec(r.mounts@, suffix) is None,
                    find_route_spec(r.routes@, m, suffix) == find_route_spec(
                        r.routes@.skip(j as int),
                        m,
                        suffix,
                    ),
                    shape == exists|k: int|
                        0 <= k < j && pattern_matches_spec(
                            (#[trigger] r.routes@[k]).pattern@,
                            suffix,
                        ),
                decreases r.routes@.len() - j,
            {
                proof {
                    assert(r.routes@.skip(j as int)[0] == r.routes@[j as int]);
                    assert(r.routes@.skip(j as int).drop_first() =~= r.routes@.skip(j as int + 1));
                }
                let seg_suffix = vec_suffix(segs, pos);
                proof {
                    assert(seg_suffix.deep_view() =~~= suffix);
                }
                match match_pattern(&r.routes[j].pattern, &seg_suffix) {
                    Some(params) => {
                        if method_eq(r.routes[j].method, m) {
                            proof {
                                assert(find_route_spec(r.routes@.skip(j as int), m, suffix)
                                    == Some(r.routes@[j as int]));
                            }
                            return Resolved::Found { handler: &r.routes[j].handler, params };
                        }
                        shape = true;
                    },
                    None => {},
                }
                j += 1;
            }
            proof {
                assert(r.routes@.skip(r.routes@.len() as int) =~= Seq::<Route>::empty());
            }
            if shape {
                Resolved::WrongMethod
            } else {
                Resolved::NoMatch
            }
        },
    }
}

/// The request's path segments from position `pos` on.
fn vec_suffix(segs: &Vec<String>, pos: usize) -> (r: Vec<String>)
    requires
        pos <= segs@.len(),
    ensures
        r.deep_view() == segs.deep_view().skip(pos as int),
{
    let mut out: Vec<String> = Vec::new();
    let mut i: usize = pos;
    while i < segs.len()
        invariant
            pos <= i <= segs@.len(),
            out.deep_view().len() == i - pos,
            forall|j: int| 0 <= j < i - pos ==> out.deep_view()[j] == segs.deep_view()[pos + j],
            segs.deep_view().len() == segs@.len(),
        decreases segs@.len() - i,
    {
        let ghost before = out.deep_view();
        out.push(segs[i].clone());
        proof {
            assert(out.deep_view() =~= before.push(segs@[i as int]@));
        }
        i += 1;
    }
    proof {
        assert(out.deep_view() =~= segs.deep_view().skip(pos as int));
    }
    out
}

/// Whether two methods coincide.
fn method_eq(a: Method, b: Method) -> (r: bool)
    ensures
        r == (a == b),
{
    a == b
}

/// The request as the matched handler sees it: parameters bound, the
/// router's state appended to the attachments.
pub open spec fn request_context_spec(q: ReqModel, params: PairSeq, state: PairSeq) -> ReqModel {
    ReqModel { params, attachments: q.attachments + state, ..q }
}

/// The terminal stage for a path no pattern matched.
pub open spec fn no_match_terminal_spec(root: Router) -> TerminalModel {
    match root.fallback {
        Some(h) => TerminalModel::Route(h),
        None => TerminalModel::Status(404),
    }
}

/// The terminal stage for a path matched under other methods only.
pub open spec fn wrong_method_terminal_spec(root: Router) -> TerminalModel {
    match root.not_allowed {
        Some(h) => TerminalModel::Route(h),
        None => match root.fallback {
            Some(h) => TerminalModel::Route(h),
            None => TerminalModel::Status(405),
        },
    }
}

/// The response `dispatch` owes each request: resolve, then run the matched
/// handler - or the owed fallback - inside the collected middleware chain.
pub open spec fn dispatch_spec(root: Router, q: ReqModel) -> RespModel {
    let segs = split_path_spec(q.path);
    let state = root.state.deep_view();
    match resolve_spec(root, q.method, segs, Seq::empty()) {
        Resolution::Found { handler, params, chain } => run_chain_spec(
            chain,
            request_context_spec(q, params, state),
            TerminalModel::Route(handler),
            root.error_format,
        ),
        Resolution::WrongMethod { chain } => run_chain_spec(
            chain,
            request_context_spec(q, q.params, state),
            wrong_method_terminal_spec(root),
            root.error_format,
        ),
        Resolution::NoMatch { chain } => run_chain_spec(
            chain,
            request_context_spec(q, q.params, state),
            no_match_terminal_spec(root),
            root.error_format,
        ),
    }
}

impl Router {
    /// Answer one request: every request gets exactly one response.
    pub fn dispatch(&self, req: Request) -> (r: Response)
        ensures
            r@ == dispatch_spec(*self, req@),
    {
        let ghost q0 = req@;
        let segs = split_path(self_path(&req).as_str());
        let mut chain: Vec<&Middleware> = Vec::new();
        proof {
            assert(chain_model(chain@) =~= Seq::<Middleware>::empty());
            assert(segs.deep_view().skip(0) =~~= segs.deep_view());
        }
        let res = resolve(self, req.method, &segs, 0, &mut chain);
        let ghost reso = resolve_spec(*self, q0.method, split_path_spec(q0.path), Seq::empty());
        let pol: Option<&ErrorFormat> = match &self.error_format {
            Some(f) => Some(f),
            None => None,
        };
        let ghost statev = self.state.deep_view();
        proof {
            assert(pol_model(pol) == self.error_format);
        }
        match res {
            Resolved::Found { handler, params } => {
                let ghost pv = params.deep_view();
                let mut req = req;
                req.params = params;
                append_state(&mut req, &self.state);
                proof {
                    assert(req@ == request_context_spec(q0, pv, statev));
                    assert(chain_model(chain@).skip(0) =~= chain_model(chain@));
                }
                run_chain(&chain, 0, req, Terminal::Route(handler), pol)
            },
            Resolved::WrongMethod => {
                let mut req = req;
                append_state(&mut req, &self.state);
                proof {
                    assert(req@ == request_context_spec(q0, q0.params, statev));
                    assert(chain_model(chain@).skip(0) =~= chain_model(chain@));
                }
                let t = match &self.not_allowed {
                    Some(h) => Terminal::Route(h),
                    None => match &self.fallback {
                        Some(h) => Terminal::Route(h),
                        None => Terminal::Status(405),
                    },
                };
                run_chain(&chain, 0, req, t, pol)
            },
            Resolved::NoMatch => {
                let mut req = req;
                append_state(&mut req, &self.state);
                proof {
                    assert(req@ == request_context_spec(q0, q0.params, statev));
                    assert(chain_model(chain@).skip(0) =~= chain_model(chain@));
                }
                let t = match &self.fallback {
                    Some(h) => Terminal::Route(h),
                    None => Terminal::Status(404),
                };
                run_chain(&chain, 0, req, t, pol)
            },
        }
    }
}

/// The request's path, cloned out.
fn self_path(req: &Request) -> (r: String)
    ensures
        r@ == req@.path,
{
    req.path.clone()
}

/// Append the router's state entries to the request's attachments.
fn append_state(req: &mut Request, state: &Vec<(String, String)>)
    ensures
        final(req)@ == (ReqModel {
            attachments: old(req)@.attachments + state.deep_view(),
            ..old(req)@
        }),
{
    let ghost base = req@.attachments;
    let ghost sv = state.deep_view();
    let mut i: usize = 0;
    proof {
        assert(base + sv.take(0) =~~= base);
    }
    while i < state.len()
        invariant
            0 <= i <= state@.len(),
            sv == state.deep_view(),
            sv.len() == state@.len(),
            req@ == (ReqModel { attachments: base + sv.take(i as int), ..old(req)@ }),
        decreases state@.len() - i,
    {
        let ghost before = req@.attachments;
        req.attachments.push((state[i].0.clone(), state[i].1.clone()));
        proof {
            assert(req@.attachments =~~= before.push((state@[i as int].0@, state@[i as int].1@)));
            assert(sv[i as int] == (state@[i as int].0@, state@[i as int].1@));
            assert(before.push(sv[i as int]) =~~= base + sv.take(i as int + 1));
        }
        i += 1;
    }
    proof {
        assert(sv.take(sv.len() as int) =~~= sv);
    }
}

} // verus!
