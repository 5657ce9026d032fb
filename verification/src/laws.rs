//! The dispatcher's guarantees, stated and proved once for all routers and
//! requests.

use vstd::prelude::*;

use crate::dispatch::{
    best_mount_spec, dispatch_spec, mount_usable_spec, no_match_terminal_spec, request_context_spec,
    resolve_spec, wrong_method_terminal_spec, Resolution,
};
use crate::extract::{extract_all_spec, Extract};
use crate::handler::{
    action_spec, run_handler_spec, text_plain_header, ErrorFormat, Handler,
};
use crate::message::{lookup_spec, ReqModel, RespModel};
use crate::middleware::{
    chain_passes_spec, chain_request_spec, chain_response_spec, run_chain_spec, Middleware,
    TerminalModel,
};
use crate::pattern::{bind_params_spec, pattern_matches_spec, split_path_spec, Segment};
use crate::router::Router;

verus! {

/// Whether two pattern segments are parameters of the same name.
pub open spec fn same_param_name(a: Segment, b: Segment) -> bool {
    match (a, b) {
        (Segment::Param(x), Segment::Param(y)) => x@ == y@,
        _ => false,
    }
}

/// Whether a pattern's parameter names are pairwise distinct.
pub open spec fn param_names_distinct_spec(pat: Seq<Segment>) -> bool {
    forall|i: int, j: int|
        0 <= i < j < pat.len() ==> !same_param_name(#[trigger] pat[i], #[trigger] pat[j])
}

/// Bound parameters carry the matched segments: where a pattern with
/// pairwise-distinct parameter names accepts a path, each parameter's bound
/// value is exactly the path segment standing at the parameter's declared
/// position.
pub proof fn lemma_bound_params(pat: Seq<Segment>, segs: Seq<Seq<char>>, i: int)
    requires
        pattern_matches_spec(pat, segs),
        param_names_distinct_spec(pat),
        0 <= i < pat.len(),
        pat[i] matches Segment::Param(_),
    ensures
        lookup_spec(bind_params_spec(pat, segs), pat[i]->Param_0@) == Some(segs[i]),
    decreases i,
{
    let rest = bind_params_spec(pat.drop_first(), segs.drop_first());
    if i == 0 {
        assert(bind_params_spec(pat, segs) == seq![(pat[0]->Param_0@, segs[0])] + rest);
        assert((seq![(pat[0]->Param_0@, segs[0])] + rest)[0] == (pat[0]->Param_0@, segs[0]));
    } else {
        assert forall|a: int, b: int|
            0 <= a < b < pat.drop_first().len() implies !same_param_name(
            #[trigger] pat.drop_first()[a],
            #[trigger] pat.drop_first()[b],
        ) by {
            assert(pat.drop_first()[a] == pat[a + 1]);
            assert(pat.drop_first()[b] == pat[b + 1]);
        }
        assert(pattern_matches_spec(pat.drop_first(), segs.drop_first())) by {
            assert forall|k: int|
                0 <= k < pat.drop_first().len() implies crate::pattern::seg_matches_spec(
                #[trigger] pat.drop_first()[k],
                segs.drop_first()[k],
            ) by {
                assert(pat.drop_first()[k] == pat[k + 1]);
                assert(segs.drop_first()[k] == segs[k + 1]);
            }
        }
        assert(pat.drop_first()[i - 1] == pat[i]);
        assert(segs.drop_first()[i - 1] == segs[i]);
        lemma_bound_params(pat.drop_first(), segs.drop_first(), i - 1);
        match pat[0] {
            Segment::Param(n) => {
                assert(!same_param_name(pat[0], pat[i]));
                assert(bind_params_spec(pat, segs) == seq![(n@, segs[0])] + rest);
                assert((seq![(n@, segs[0])] + rest).drop_first() =~= rest);
            },
            Segment::Literal(_) => {
                assert(bind_params_spec(pat, segs) == rest);
            },
        }
    }
}

/// A matched request is answered by the matched handler: the collected
/// middleware's request phases run in order, the handler answers the
/// transformed request (parameters bound, state attached), and the response
/// phases run in reverse order. No fallback takes part.
pub proof fn lemma_dispatch_matched(
    root: Router,
    q: ReqModel,
    h: Handler,
    ps: Seq<(Seq<char>, Seq<char>)>,
    c: Seq<Middleware>,
)
    requires
        resolve_spec(root, q.method, split_path_spec(q.path), Seq::empty()) == (
        Resolution::Found { handler: h, params: ps, chain: c }),
        chain_passes_spec(c, request_context_spec(q, ps, root.state.deep_view())),
    ensures
        dispatch_spec(root, q) == chain_response_spec(
            c,
            run_handler_spec(
                h,
                chain_request_spec(c, request_context_spec(q, ps, root.state.deep_view())),
                root.error_format,
            ),
        ),
{
    let ctx = request_context_spec(q, ps, root.state.deep_view());
    crate::middleware::lemma_run_chain_phases(c, ctx, TerminalModel::Route(h), root.error_format);
}

/// A request whose path matches no pattern anywhere in the tree is answered
/// by the root's fallback handler - or, where none is registered, by a bare
/// 404 - wrapped in the collected middleware; no route handler takes part.
pub proof fn lemma_dispatch_no_match(root: Router, q: ReqModel, c: Seq<Middleware>)
    requires
        resolve_spec(root, q.method, split_path_spec(q.path), Seq::empty()) == (
        Resolution::NoMatch { chain: c }),
    ensures
        dispatch_spec(root, q) == run_chain_spec(
            c,
            request_context_spec(q, q.params, root.state.deep_view()),
            no_match_terminal_spec(root),
            root.error_format,
        ),
        root.fallback is None && chain_passes_spec(
            c,
            request_context_spec(q, q.params, root.state.deep_view()),
        ) ==> dispatch_spec(root, q) == chain_response_spec(
            c,
            RespModel { status: 404, headers: Seq::empty(), body: Seq::empty() },
        ),
{
    let ctx = request_context_spec(q, q.params, root.state.deep_view());
    if root.fallback is None && chain_passes_spec(c, ctx) {
        crate::middleware::lemma_run_chain_phases(
            c,
            ctx,
            no_match_terminal_spec(root),
            root.error_format,
        );
    }
}

/// A request whose path matches some pattern, but for other methods only, is
/// answered by the method-not-allowed fallback; where none is registered, by
/// the generic fallback; where neither is, by a bare 405 - never by the
/// route handler registered for another method.
pub proof fn lemma_dispatch_wrong_method(root: Router, q: ReqModel, c: Seq<Middleware>)
    requires
        resolve_spec(root, q.method, split_path_spec(q.path), Seq::empty()) == (
        Resolution::WrongMethod { chain: c }),
    ensures
        dispatch_spec(root, q) == run_chain_spec(
            c,
            request_context_spec(q, q.params, root.state.deep_view()),
            wrong_method_terminal_spec(root),
            root.error_format,
        ),
        root.not_allowed matches Some(h) ==> wrong_method_terminal_spec(root)
            == TerminalModel::Route(h),
        root.not_allowed is None ==> (root.fallback matches Some(h)
            ==> wrong_method_terminal_spec(root) == TerminalModel::Route(h)),
        root.not_allowed is None && root.fallback is None && chain_passes_spec(
            c,
            request_context_spec(q, q.params, root.state.deep_view()),
        ) ==> dispatch_spec(root, q) == chain_response_spec(
            c,
            RespModel { status: 405, headers: Seq::empty(), body: Seq::empty() },
        ),
{
    let ctx = request_context_spec(q, q.params, root.state.deep_view());
    if root.not_allowed is None && root.fallback is None && chain_passes_spec(c, ctx) {
        crate::middleware::lemma_run_chain_phases(
            c,
            ctx,
            wrong_method_terminal_spec(root),
            root.error_format,
        );
    }
}

/// Mounting scopes resolution: where the best mount takes a prefix of the
/// remaining path, resolution continues in the mounted router against the
/// path with that prefix removed, with the parent's middleware prepended -
/// so a route `GET /first` mounted under `/api/users` answers
/// `GET /api/users/first`, and resolution of a path without the prefix never
/// reaches the mounted router.
pub proof fn lemma_mount_descent(
    r: Router,
    m: crate::message::Method,
    segs: Seq<Seq<char>>,
    chain: Seq<Middleware>,
    k: int,
)
    requires
        best_mount_spec(r.mounts@, segs) == Some(k),
    ensures
        0 <= k < r.mounts@.len(),
        mount_usable_spec(r.mounts@[k], segs),
        resolve_spec(r, m, segs, chain) == resolve_spec(
            r.mounts@[k].router,
            m,
            segs.skip(r.mounts@[k].prefix.deep_view().len() as int),
            chain + r.middleware@,
        ),
{
    crate::dispatch::lemma_best_mount_usable(r.mounts@, segs);
}

/// A handler declaring a required JSON body, handed a body that does not
/// parse, never runs its action: where it declared no error action the
/// dispatcher answers 400 with the failure's message; where it declared one,
/// that action answers, given the failure's message as its one input value.
pub proof fn lemma_json_extraction_failure(
    h: Handler,
    q: ReqModel,
    pol: Option<ErrorFormat>,
)
    requires
        h.inputs@.len() == 1,
        h.inputs@[0] matches Extract::JsonField(_),
        crate::json::json_fields_of(q.body) is None,
    ensures
        h.on_extract_error is None ==> run_handler_spec(h, q, pol) == (RespModel {
            status: 400,
            headers: text_plain_header(),
            body: vstd::utf8::encode_utf8("malformed JSON body"@),
        }),
        h.on_extract_error matches Some(a) ==> run_handler_spec(h, q, pol) == action_spec(
            a,
            seq!["malformed JSON body"@],
            q.method,
            pol,
        ),
{
    assert(extract_all_spec(h.inputs@, q) == Result::<Seq<Seq<char>>, Seq<char>>::Err(
        "malformed JSON body"@,
    ));
}

} // verus!

