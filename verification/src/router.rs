//! The router: routes, mounted sub-routers, middleware, and fallbacks.
//!
//! A router is built up by registration and then served read-only. Routes
//! must not conflict: registering a second route whose method and pattern
//! shape an already-registered route has is refused, never silently
//! overwritten. Mount prefixes are non-empty literal segment lists, pairwise
//! disjoint (none a prefix of another).

use vstd::prelude::*;

use crate::handler::{
    error_format_valid, handler_statuses_valid, ErrorFormat, Handler,
};
use crate::message::Method;
use crate::middleware::{middleware_statuses_valid, Middleware};
use crate::pattern::{
    parse_pattern, seg_parsed_spec, split_path_spec, Segment,
};

verus! {

/// One registered route.
pub struct Route {
    pub method: Method,
    pub pattern: Vec<Segment>,
    pub handler: Handler,
}

/// A sub-router mounted under a literal path prefix.
pub struct Mount {
    pub prefix: Vec<String>,
    pub router: Router,
}

/// A router: the unit requests are dispatched against.
pub struct Router {
    pub routes: Vec<Route>,
    pub mounts: Vec<Mount>,
    pub middleware: Vec<Middleware>,
    pub fallback: Option<Handler>,
    pub not_allowed: Option<Handler>,
    pub error_format: Option<ErrorFormat>,
    pub state: Vec<(String, String)>,
}

/// Why a registration was refused.
#[derive(Clone, Copy, PartialEq, Eq, Structural, Debug)]
pub enum RegisterError {
    /// A route with this method and pattern shape is already registered.
    DuplicateRoute,
    /// The mount prefix is empty.
    EmptyPrefix,
    /// The mount prefix extends or is extended by an existing mount's prefix.
    OverlappingMount,
}

/// Whether two pattern segments accept exactly the same path segments.
pub open spec fn seg_same_spec(a: Segment, b: Segment) -> bool {
    match (a, b) {
        (Segment::Literal(x), Segment::Literal(y)) => x@ == y@,
        (Segment::Param(_), Segment::Param(_)) => true,
        _ => false,
    }
}

/// Whether two patterns have the same shape: equal length, literals equal,
/// parameters in the same positions (names aside).
pub open spec fn pattern_same_spec(p1: Seq<Segment>, p2: Seq<Segment>) -> bool {
    &&& p1.len() == p2.len()
    &&& forall|i: int| 0 <= i < p1.len() ==> seg_same_spec(#[trigger] p1[i], p2[i])
}

/// Whether some registered route has this method and pattern shape.
pub open spec fn route_conflict_spec(routes: Seq<Route>, m: Method, pat: Seq<Segment>) -> bool {
    exists|i: int|
        0 <= i < routes.len() && (#[trigger] routes[i]).method == m && pattern_same_spec(
            routes[i].pattern@,
            pat,
        )
}

/// Whether `p` is a prefix of `s`.
pub open spec fn prefix_of_spec(p: Seq<Seq<char>>, s: Seq<Seq<char>>) -> bool {
    p.len() <= s.len() && forall|i: int| 0 <= i < p.len() ==> p[i] == s[i]
}

/// Whether two mount prefixes overlap: one is a prefix of the other.
pub open spec fn prefixes_overlap_spec(a: Seq<Seq<char>>, b: Seq<Seq<char>>) -> bool {
    prefix_of_spec(a, b) || prefix_of_spec(b, a)
}

/// Whether a new mount prefix overlaps any existing one.
pub open spec fn mount_overlap_spec(mounts: Seq<Mount>, prefix: Seq<Seq<char>>) -> bool {
    exists|i: int|
        0 <= i < mounts.len() && prefixes_overlap_spec(
            (#[trigger] mounts[i]).prefix.deep_view(),
            prefix,
        )
}

/// A well-formed router: no two routes conflict, mount prefixes are
/// non-empty and pairwise disjoint, every status a handler, middleware, or
/// failure policy can answer with lies in the documented domain, and every
/// mounted router is itself well-formed.
pub open spec fn router_wf(r: Router) -> bool
    decreases r,
{
    &&& forall|i: int|
        0 <= i < r.routes@.len() ==> handler_statuses_valid((#[trigger] r.routes@[i]).handler)
    &&& forall|i: int|
        0 <= i < r.middleware@.len() ==> middleware_statuses_valid(#[trigger] r.middleware@[i])
    &&& (r.fallback matches Some(h) ==> handler_statuses_valid(h))
    &&& (r.not_allowed matches Some(h) ==> handler_statuses_valid(h))
    &&& (r.error_format matches Some(f) ==> error_format_valid(f))
    &&& forall|i: int, j: int|
        0 <= i < j < r.routes@.len() ==> !((#[trigger] r.routes@[i]).method == (
        #[trigger] r.routes@[j]).method && pattern_same_spec(
            r.routes@[i].pattern@,
            r.routes@[j].pattern@,
        ))
    &&& forall|i: int| 0 <= i < r.mounts@.len() ==> (#[trigger] r.mounts@[i]).prefix@.len() > 0
    &&& forall|i: int, j: int|
        0 <= i < j < r.mounts@.len() ==> !prefixes_overlap_spec(
            (#[trigger] r.mounts@[i]).prefix.deep_view(),
            (#[trigger] r.mounts@[j]).prefix.deep_view(),
        )
    &&& forall|i: int| 0 <= i < r.mounts@.len() ==> router_wf((#[trigger] r.mounts@[i]).router)
}

/// Whether two pattern shapes coincide.
fn pattern_same(p1: &Vec<Segment>, p2: &Vec<Segment>) -> (r: bool)
    ensures
        r == pattern_same_spec(p1@, p2@),
{
    if p1.len() != p2.len() {
        return false;
    }
    let mut i: usize = 0;
    while i < p1.len()
        invariant
            0 <= i <= p1.len(),
            p1.len() == p2.len(),
            forall|j: int| 0 <= j < i ==> seg_same_spec(#[trigger] p1@[j], p2@[j]),
        decreases p1.len() - i,
    {
        let same = match (&p1[i], &p2[i]) {
            (Segment::Literal(x), Segment::Literal(y)) => *x == *y,
            (Segment::Param(_), Segment::Param(_)) => true,
            _ => false,
        };
        if !same {
            return false;
        }
        i += 1;
    }
    true
}

/// Whether `p` lists a prefix of `s`'s segments.
pub fn strings_prefix_of(p: &Vec<String>, s: &Vec<String>) -> (r: bool)
    ensures
        r == prefix_of_spec(p.deep_view(), s.deep_view()),
{
    if p.len() > s.len() {
        return false;
    }
    let mut i: usize = 0;
    while i < p.len()
        invariant
            0 <= i <= p.len(),
            p.len() <= s.len(),
            p.deep_view().len() == p.len(),
            s.deep_view().len() == s.len(),
            forall|j: int| 0 <= j < i ==> p.deep_view()[j] == s.deep_view()[j],
        decreases p.len() - i,
    {
        proof {
            assert(p.deep_view()[i as int] == p[i as int]@);
            assert(s.deep_view()[i as int] == s[i as int]@);
        }
        if p[i] != s[i] {
            return false;
        }
        i += 1;
    }
    true
}

impl Router {
    /// An empty router: no routes, mounts, middleware, fallbacks, or state.
    pub fn new() -> (r: Router)
        ensures
            r.routes@ == Seq::<Route>::empty(),
            r.mounts@ == Seq::<Mount>::empty(),
            r.middleware@ == Seq::<Middleware>::empty(),
            r.fallback is None,
            r.not_allowed is None,
            r.error_format is None,
            r.state.deep_view() == Seq::<(Seq<char>, Seq<char>)>::empty(),
            router_wf(r),
    {
        let r = Router {
            routes: Vec::new(),
            mounts: Vec::new(),
            middleware: Vec::new(),
            fallback: None,
            not_allowed: None,
            error_format: None,
            state: Vec::new(),
        };
        proof {
            assert(r.state.deep_view() =~~= Seq::<(Seq<char>, Seq<char>)>::empty());
        }
        r
    }

    /// Register a route. Refused, leaving the router unchanged, where a route
    /// with the same method and pattern shape already stands.
    pub fn add_route(&mut self, method: Method, pattern: Vec<Segment>, handler: Handler) -> (r:
        Result<(), RegisterError>)
        ensures
            match r {
                Ok(_) => {
                    &&& !route_conflict_spec(old(self).routes@, method, pattern@)
                    &&& final(self).routes@ == old(self).routes@.push(
                        Route { method, pattern, handler },
                    )
                    &&& final(self).mounts == old(self).mounts
                    &&& final(self).middleware == old(self).middleware
                    &&& final(self).fallback == old(self).fallback
                    &&& final(self).not_allowed == old(self).not_allowed
                    &&& final(self).error_format == old(self).error_format
                    &&& final(self).state == old(self).state
                    &&& (router_wf(*old(self)) && handler_statuses_valid(handler)) ==> router_wf(
                        *final(self),
                    )
                },
                Err(e) => {
                    &&& e == RegisterError::DuplicateRoute
                    &&& route_conflict_spec(old(self).routes@, method, pattern@)
                    &&& *final(self) == *old(self)
                },
            },
    {
        let mut i: usize = 0;
        while i < self.routes.len()
            invariant
                0 <= i <= self.routes.len(),
                forall|j: int|
                    0 <= j < i ==> !((#[trigger] self.routes@[j]).method == method
                        && pattern_same_spec(self.routes@[j].pattern@, pattern@)),
        decreases self.routes.len() - i,
        {
            if self.routes[i].method == method && pattern_same(&self.routes[i].pattern, &pattern) {
                return Err(RegisterError::DuplicateRoute);
            }
            i += 1;
        }
        let ghost oldself = *self;
        let ghost hv = handler_statuses_valid(handler);
        self.routes.push(Route { method, pattern, handler });
        proof {
            let newr = *self;
            if router_wf(oldself) && hv {
                assert forall|i2: int|
                    0 <= i2 < newr.routes@.len() implies handler_statuses_valid(
                    (#[trigger] newr.routes@[i2]).handler,
                ) by {
                    if i2 < newr.routes@.len() - 1 {
                        assert(newr.routes@[i2] == oldself.routes@[i2]);
                    }
                }
                assert forall|i2: int, j2: int| 0 <= i2 < j2 < newr.routes@.len() implies !((
                #[trigger] newr.routes@[i2]).method == (#[trigger] newr.routes@[j2]).method
                    && pattern_same_spec(newr.routes@[i2].pattern@, newr.routes@[j2].pattern@)) by {
                    if j2 < newr.routes@.len() - 1 {
                        assert(newr.routes@[i2] == oldself.routes@[i2]);
                        assert(newr.routes@[j2] == oldself.routes@[j2]);
                    } else {
                        assert(newr.routes@[i2] == oldself.routes@[i2]);
                    }
                }
                assert(router_wf(newr));
            }
        }
        Ok(())
    }

    /// Register a route from a textual pattern such as `/products/{id}`.
    pub fn route(&mut self, method: Method, path: &str, handler: Handler) -> (r: Result<
        (),
        RegisterError,
    >)
        ensures
            match r {
                Ok(_) => {
                    &&& final(self).routes@.len() == old(self).routes@.len() + 1
                    &&& forall|j: int|
                        0 <= j < old(self).routes@.len() ==> final(self).routes@[j] == old(
                            self,
                        ).routes@[j]
                    &&& final(self).routes@.last().method == method
                    &&& final(self).routes@.last().handler == handler
                    &&& final(self).routes@.last().pattern@.len() == split_path_spec(path@).len()
                    &&& forall|j: int|
                        0 <= j < split_path_spec(path@).len() ==> seg_parsed_spec(
                            #[trigger] final(self).routes@.last().pattern@[j],
                            split_path_spec(path@)[j],
                        )
                    &&& final(self).mounts == old(self).mounts
                    &&& final(self).middleware == old(self).middleware
                    &&& final(self).fallback == old(self).fallback
                    &&& final(self).not_allowed == old(self).not_allowed
                    &&& final(self).error_format == old(self).error_format
                    &&& final(self).state == old(self).state
                    &&& (router_wf(*old(self)) && handler_statuses_valid(handler)) ==> router_wf(
                        *final(self),
                    )
                },
                Err(e) => {
                    &&& *final(self) == *old(self)
                    &&& e == RegisterError::DuplicateRoute
                    &&& exists|p: Seq<Segment>|
                        #![auto]
                        p.len() == split_path_spec(path@).len() && (forall|j: int|
                            0 <= j < p.len() ==> seg_parsed_spec(p[j], split_path_spec(path@)[j]))
                            && route_conflict_spec(old(self).routes@, method, p)
                },
            },
    {
        let pattern = parse_pattern(path);
        let ghost pv = pattern@;
        let r = self.add_route(method, pattern, handler);
        match r {
            Ok(_) => Ok(()),
            Err(e) => {
                proof {
                    assert(pv.len() == split_path_spec(path@).len() && (forall|j: int|
                        0 <= j < pv.len() ==> seg_parsed_spec(pv[j], split_path_spec(path@)[j]))
                        && route_conflict_spec(old(self).routes@, method, pv));
                }
                Err(e)
            },
        }
    }

    /// Mount a sub-router under a literal prefix. Refused, leaving the router
    /// unchanged, where the prefix is empty or overlaps an existing mount.
    pub fn mount(&mut self, prefix: Vec<String>, child: Router) -> (r: Result<(), RegisterError>)
        ensures
            match r {
                Ok(_) => {
                    &&& prefix.deep_view().len() > 0
                    &&& !mount_overlap_spec(old(self).mounts@, prefix.deep_view())
                    &&& final(self).mounts@ == old(self).mounts@.push(Mount { prefix, router: child })
                    &&& final(self).routes == old(self).routes
                    &&& final(self).middleware == old(self).middleware
                    &&& final(self).fallback == old(self).fallback
                    &&& final(self).not_allowed == old(self).not_allowed
                    &&& final(self).error_format == old(self).error_format
                    &&& final(self).state == old(self).state
                    &&& (router_wf(*old(self)) && router_wf(child)) ==> router_wf(*final(self))
                },
                Err(e) => {
                    &&& *final(self) == *old(self)
                    &&& (e == RegisterError::EmptyPrefix || e == RegisterError::OverlappingMount)
                    &&& (e == RegisterError::EmptyPrefix <==> prefix.deep_view().len() == 0)
                    &&& (e == RegisterError::OverlappingMount <==> prefix.deep_view().len() > 0
                        && mount_overlap_spec(old(self).mounts@, prefix.deep_view()))
                },
            },
    {
        if prefix.len() == 0 {
            proof {
                assert(prefix.deep_view().len() == 0);
            }
            return Err(RegisterError::EmptyPrefix);
        }
        let mut i: usize = 0;
        while i < self.mounts.len()
            invariant
                0 <= i <= self.mounts.len(),
                prefix@.len() > 0,
                forall|j: int|
                    0 <= j < i ==> !prefixes_overlap_spec(
                        (#[trigger] self.mounts@[j]).prefix.deep_view(),
                        prefix.deep_view(),
                    ),
            decreases self.mounts.len() - i,
        {
            let a = strings_prefix_of(&self.mounts[i].prefix, &prefix);
            let b = strings_prefix_of(&prefix, &self.mounts[i].prefix);
            if a || b {
                proof {
                    assert(prefix.deep_view().len() > 0);
                }
                return Err(RegisterError::OverlappingMount);
            }
            i += 1;
        }
        let ghost oldself = *self;
        let ghost pv = prefix.deep_view();
        self.mounts.push(Mount { prefix, router: child });
        proof {
            let newr = *self;
            assert(pv.len() == newr.mounts@.last().prefix@.len());
            if router_wf(oldself) && router_wf(child) {
                let n = newr.mounts@.len();
                assert forall|i2: int, j2: int| 0 <= i2 < j2 < n implies !prefixes_overlap_spec(
                    (#[trigger] newr.mounts@[i2]).prefix.deep_view(),
                    (#[trigger] newr.mounts@[j2]).prefix.deep_view(),
                ) by {
                    assert(newr.mounts@[i2] == oldself.mounts@[i2]);
                    if j2 < n - 1 {
                        assert(newr.mounts@[j2] == oldself.mounts@[j2]);
                    }
                }
                assert forall|i2: int| 0 <= i2 < n implies (#[trigger] newr.mounts@[i2]).prefix@.len()
                    > 0 by {
                    if i2 < n - 1 {
                        assert(newr.mounts@[i2] == oldself.mounts@[i2]);
                    }
                }
                assert forall|i2: int| 0 <= i2 < n implies router_wf(
                    (#[trigger] newr.mounts@[i2]).router,
                ) by {
                    if i2 < n - 1 {
                        assert(newr.mounts@[i2] == oldself.mounts@[i2]);
                    }
                }
                assert(router_wf(newr));
            }
        }
        Ok(())
    }

    /// Register one more middleware, appended to the chain.
    pub fn use_middleware(&mut self, m: Middleware)
        ensures
            final(self).middleware@ == old(self).middleware@.push(m),
            final(self).routes == old(self).routes,
            final(self).mounts == old(self).mounts,
            final(self).fallback == old(self).fallback,
            final(self).not_allowed == old(self).not_allowed,
            final(self).error_format == old(self).error_format,
            final(self).state == old(self).state,
            (router_wf(*old(self)) && middleware_statuses_valid(m)) ==> router_wf(*final(self)),
    {
        let ghost oldself = *self;
        let ghost mv = middleware_statuses_valid(m);
        self.middleware.push(m);
        proof {
            let newr = *self;
            if router_wf(oldself) && mv {
                assert forall|i2: int|
                    0 <= i2 < newr.middleware@.len() implies middleware_statuses_valid(
                    #[trigger] newr.middleware@[i2],
                ) by {
                    if i2 < newr.middleware@.len() - 1 {
                        assert(newr.middleware@[i2] == oldself.middleware@[i2]);
                    }
                }
                assert(router_wf(newr));
            }
        }
    }

    /// Set the handler answering requests no pattern matches.
    pub fn set_fallback(&mut self, h: Handler)
        ensures
            *final(self) == (Router { fallback: Some(h), ..*old(self) }),
            (router_wf(*old(self)) && handler_statuses_valid(h)) ==> router_wf(*final(self)),
    {
        self.fallback = Some(h);
    }

    /// Set the handler answering requests whose path matches a pattern only
    /// for other methods.
    pub fn set_method_not_allowed_fallback(&mut self, h: Handler)
        ensures
            *final(self) == (Router { not_allowed: Some(h), ..*old(self) }),
            (router_wf(*old(self)) && handler_statuses_valid(h)) ==> router_wf(*final(self)),
    {
        self.not_allowed = Some(h);
    }

    /// Set how opaque handler failures convert to responses.
    pub fn set_error_format(&mut self, f: ErrorFormat)
        ensures
            *final(self) == (Router { error_format: Some(f), ..*old(self) }),
            (router_wf(*old(self)) && error_format_valid(f)) ==> router_wf(*final(self)),
    {
        self.error_format = Some(f);
    }

    /// Attach one entry of shared application state, readable by handlers
    /// declaring an attachment input.
    pub fn set_state(&mut self, key: String, value: String)
        ensures
            final(self).state.deep_view() == old(self).state.deep_view().push((key@, value@)),
            final(self).routes == old(self).routes,
            final(self).mounts == old(self).mounts,
            final(self).middleware == old(self).middleware,
            final(self).fallback == old(self).fallback,
            final(self).not_allowed == old(self).not_allowed,
            final(self).error_format == old(self).error_format,
            router_wf(*old(self)) ==> router_wf(*final(self)),
    {
        let ghost oldstate = self.state.deep_view();
        self.state.push((key, value));
        proof {
            assert(self.state.deep_view() =~~= oldstate.push((key@, value@)));
        }
    }
}

} // verus!
