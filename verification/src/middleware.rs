//! Middleware: ordered request/response transformations around a handler.
//!
//! Each middleware may rewrite the request on the way in, rewrite the
//! response on the way out, or short-circuit without reaching the stages
//! inside it. For middleware registered in the order A then B, A's request
//! phase runs first and A's response phase runs last; middleware of ancestor
//! routers wraps middleware of the routers mounted under them.

use vstd::prelude::*;

use crate::handler::{
    make_text_headers, pol_model, run_handler, run_handler_spec, text_plain_header, ErrorFormat,
    Handler,
};
use crate::message::{
    find_pair, lookup_spec, set_pair, set_pair_spec, ReqModel, Request, RespModel, Response,
};

verus! {

/// One middleware.
pub enum Middleware {
    /// Request phase: set a header on the request, replacing any value a
    /// client (or an earlier middleware) put under the name.
    SetRequestHeader(String, String),
    /// Request phase: append an attachment to the request.
    AddAttachment(String, String),
    /// Response phase: append a header to the response.
    AppendResponseHeader(String, String),
    /// Short-circuit: where the request lacks the named header, answer at
    /// once with the given status and body.
    RequireHeader { name: String, status: u16, body: String },
}

/// Whether the status a middleware can short-circuit with lies in the
/// documented domain.
pub open spec fn middleware_statuses_valid(m: Middleware) -> bool {
    match m {
        Middleware::RequireHeader { name, status, body } => crate::handler::status_in_range(
            status,
        ),
        _ => true,
    }
}

/// The request as one middleware's request phase forwards it.
pub open spec fn mw_request_spec(m: Middleware, q: ReqModel) -> ReqModel {
    match m {
        Middleware::SetRequestHeader(n, v) => ReqModel {
            headers: set_pair_spec(q.headers, n@, v@),
            ..q
        },
        Middleware::AddAttachment(n, v) => ReqModel {
            attachments: q.attachments.push((n@, v@)),
            ..q
        },
        _ => q,
    }
}

/// The response a middleware short-circuits with, where it does.
pub open spec fn mw_gate_spec(m: Middleware, q: ReqModel) -> Option<RespModel> {
    match m {
        Middleware::RequireHeader { name, status, body } => if lookup_spec(q.headers, name@)
            is None {
            Some(
                RespModel {
                    status,
                    headers: text_plain_header(),
                    body: vstd::utf8::encode_utf8(body@),
                },
            )
        } else {
            None
        },
        _ => None,
    }
}

/// The response as one middleware's response phase returns it.
pub open spec fn mw_response_spec(m: Middleware, r: RespModel) -> RespModel {
    match m {
        Middleware::AppendResponseHeader(n, v) => RespModel {
            headers: r.headers.push((n@, v@)),
            ..r
        },
        _ => r,
    }
}

/// The stage a chain ends in: a matched route's handler, or a bare status
/// (the built-in not-found and method-not-allowed answers).
pub enum Terminal<'a> {
    Route(&'a Handler),
    Status(u16),
}

/// The mathematical shape of a terminal stage.
pub enum TerminalModel {
    Route(Handler),
    Status(u16),
}

/// A terminal seen through its reference.
pub open spec fn terminal_model(t: Terminal) -> TerminalModel {
    match t {
        Terminal::Route(h) => TerminalModel::Route(*h),
        Terminal::Status(s) => TerminalModel::Status(s),
    }
}

/// The response of the terminal stage alone.
pub open spec fn terminal_spec(t: TerminalModel, q: ReqModel, pol: Option<ErrorFormat>) -> RespModel {
    match t {
        TerminalModel::Route(h) => run_handler_spec(h, q, pol),
        TerminalModel::Status(s) => RespModel {
            status: s,
            headers: Seq::empty(),
            body: Seq::empty(),
        },
    }
}

/// The response of a middleware chain around a terminal stage: the first
/// middleware wraps everything inside it; a short-circuit skips the stages
/// inside but still passes back out through the response phases already
/// entered.
pub open spec fn run_chain_spec(
    ms: Seq<Middleware>,
    q: ReqModel,
    t: TerminalModel,
    pol: Option<ErrorFormat>,
) -> RespModel
    decreases ms.len(),
{
    if ms.len() == 0 {
        terminal_spec(t, q, pol)
    } else {
        match mw_gate_spec(ms[0], q) {
            Some(r) => r,
            None => mw_response_spec(
                ms[0],
                run_chain_spec(ms.drop_first(), mw_request_spec(ms[0], q), t, pol),
            ),
        }
    }
}

/// The request after a chain's request phases, in order.
pub open spec fn chain_request_spec(ms: Seq<Middleware>, q: ReqModel) -> ReqModel
    decreases ms.len(),
{
    if ms.len() == 0 {
        q
    } else {
        chain_request_spec(ms.drop_first(), mw_request_spec(ms[0], q))
    }
}

/// The response after a chain's response phases, innermost middleware first.
pub open spec fn chain_response_spec(ms: Seq<Middleware>, r: RespModel) -> RespModel
    decreases ms.len(),
{
    if ms.len() == 0 {
        r
    } else {
        mw_response_spec(ms[0], chain_response_spec(ms.drop_first(), r))
    }
}

/// Whether no middleware of the chain short-circuits the request.
pub open spec fn chain_passes_spec(ms: Seq<Middleware>, q: ReqModel) -> bool
    decreases ms.len(),
{
    if ms.len() == 0 {
        true
    } else {
        mw_gate_spec(ms[0], q) is None && chain_passes_spec(
            ms.drop_first(),
            mw_request_spec(ms[0], q),
        )
    }
}

/// Request phases run in registration order: the request phase of a chain
/// followed by more middleware is the later middleware's request phase
/// applied to what the earlier chain forwarded.
pub proof fn lemma_chain_request_append(ms1: Seq<Middleware>, ms2: Seq<Middleware>, q: ReqModel)
    ensures
        chain_request_spec(ms1 + ms2, q) == chain_request_spec(ms2, chain_request_spec(ms1, q)),
    decreases ms1.len(),
{
    if ms1.len() == 0 {
        assert(ms1 + ms2 =~= ms2);
    } else {
        assert((ms1 + ms2).drop_first() =~= ms1.drop_first() + ms2);
        lemma_chain_request_append(ms1.drop_first(), ms2, mw_request_spec(ms1[0], q));
    }
}

/// Response phases run in reverse registration order: appending middleware
/// to a chain runs the appended middleware's response phase first, the
/// earlier chain's last.
pub proof fn lemma_chain_response_append(ms1: Seq<Middleware>, ms2: Seq<Middleware>, r: RespModel)
    ensures
        chain_response_spec(ms1 + ms2, r) == chain_response_spec(ms1, chain_response_spec(ms2, r)),
    decreases ms1.len(),
{
    if ms1.len() == 0 {
        assert(ms1 + ms2 =~= ms2);
    } else {
        assert((ms1 + ms2).drop_first() =~= ms1.drop_first() + ms2);
        lemma_chain_response_append(ms1.drop_first(), ms2, r);
    }
}

/// Where no middleware short-circuits, a chain is exactly: all request
/// phases in order, then the terminal stage, then all response phases in
/// reverse order.
pub proof fn lemma_run_chain_phases(
    ms: Seq<Middleware>,
    q: ReqModel,
    t: TerminalModel,
    pol: Option<ErrorFormat>,
)
    requires
        chain_passes_spec(ms, q),
    ensures
        run_chain_spec(ms, q, t, pol) == chain_response_spec(
            ms,
            terminal_spec(t, chain_request_spec(ms, q), pol),
        ),
    decreases ms.len(),
{
    if ms.len() > 0 {
        lemma_run_chain_phases(ms.drop_first(), mw_request_spec(ms[0], q), t, pol);
    }
}

/// Setting a request header replaces: the handler inside sees exactly the
/// middleware's value under the name, and every other header as it was.
pub proof fn lemma_set_request_header_replaces(n: String, v: String, q: ReqModel)
    ensures
        lookup_spec(mw_request_spec(Middleware::SetRequestHeader(n, v), q).headers, n@) == Some(
            v@,
        ),
        forall|o: Seq<char>|
            o != n@ ==> #[trigger] lookup_spec(
                mw_request_spec(Middleware::SetRequestHeader(n, v), q).headers,
                o,
            ) == lookup_spec(q.headers, o),
{
    crate::message::lemma_set_pair_lookup(q.headers, n@, v@);
}

/// Setting a request header is idempotent: applying the same middleware
/// twice forwards the same request as applying it once.
pub proof fn lemma_set_request_header_idempotent(n: String, v: String, q: ReqModel)
    ensures
        mw_request_spec(
            Middleware::SetRequestHeader(n, v),
            mw_request_spec(Middleware::SetRequestHeader(n, v), q),
        ) == mw_request_spec(Middleware::SetRequestHeader(n, v), q),
{
    let dropped = crate::message::drop_name_spec(q.headers, n@);
    let once = set_pair_spec(q.headers, n@, v@);
    crate::message::lemma_drop_name_push(dropped, (n@, v@), n@);
    crate::message::lemma_drop_name_free(q.headers, n@);
    crate::message::lemma_drop_name_noop(dropped, n@);
    assert(crate::message::drop_name_spec(once, n@) == dropped);
}

/// A chain of middleware seen through references.
pub open spec fn chain_model(ms: Seq<&Middleware>) -> Seq<Middleware> {
    ms.map_values(|m: &Middleware| *m)
}

/// Run one middleware's request phase.
fn mw_request_run(m: &Middleware, req: Request) -> (r: Request)
    ensures
        r@ == mw_request_spec(*m, req@),
{
    let mut req = req;
    match m {
        Middleware::SetRequestHeader(n, v) => {
            set_pair(&mut req.headers, n.clone(), v.clone());
        },
        Middleware::AddAttachment(n, v) => {
            let ghost before = req@;
            req.attachments.push((n.clone(), v.clone()));
            proof {
                assert(req@.attachments =~= before.attachments.push((n@, v@)));
            }
        },
        _ => {},
    }
    req
}

/// Run one middleware's response phase.
fn mw_response_run(m: &Middleware, resp: Response) -> (r: Response)
    ensures
        r@ == mw_response_spec(*m, resp@),
{
    let mut resp = resp;
    match m {
        Middleware::AppendResponseHeader(n, v) => {
            let ghost before = resp@;
            resp.headers.push((n.clone(), v.clone()));
            proof {
                assert(resp@.headers =~= before.headers.push((n@, v@)));
            }
        },
        _ => {},
    }
    resp
}

/// Run the terminal stage.
fn terminal_run(t: Terminal, req: &Request, pol: Option<&ErrorFormat>) -> (r: Response)
    ensures
        r@ == terminal_spec(terminal_model(t), req@, pol_model(pol)),
{
    match t {
        Terminal::Route(h) => run_handler(h, req, pol),
        Terminal::Status(s) => {
            let r = Response { status: s, headers: Vec::new(), body: Vec::new() };
            proof {
                assert(r@.headers =~= Seq::<(Seq<char>, Seq<char>)>::empty());
            }
            r
        },
    }
}

/// Run the chain from position `i` on around the terminal stage.
pub fn run_chain(
    ms: &Vec<&Middleware>,
    i: usize,
    req: Request,
    t: Terminal,
    pol: Option<&ErrorFormat>,
) -> (r: Response)
    requires
        i <= ms@.len(),
    ensures
        r@ == run_chain_spec(chain_model(ms@).skip(i as int), req@, terminal_model(t), pol_model(pol)),
    decreases ms@.len() - i,
{
    let ghost cm = chain_model(ms@);
    if i == ms.len() {
        proof {
            assert(cm.skip(i as int) =~= Seq::<Middleware>::empty());
        }
        terminal_run(t, &req, pol)
    } else {
        proof {
            assert(cm.skip(i as int)[0] == *ms@[i as int]);
            assert(cm.skip(i as int).drop_first() =~= cm.skip(i as int + 1));
        }
        let m = ms[i];
        match m {
            Middleware::RequireHeader { name, status, body } => {
                match find_pair(&req.headers, name) {
                    None => {
                        return Response {
                            status: *status,
                            headers: make_text_headers(),
                            body: body.as_str().as_bytes_vec(),
                        };
                    },
                    Some(_) => {},
                }
            },
            _ => {},
        }
        let req2 = mw_request_run(m, req);
        let inner = run_chain(ms, i + 1, req2, t, pol);
        mw_response_run(m, inner)
    }
}

} // verus!
