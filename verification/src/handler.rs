//! Declarative handlers and response conversion.
//!
//! A handler names the inputs it needs and describes its response: a body and
//! headers templated over the extracted values, a JSON object, a typed
//! failure carrying a status and message, or an opaque failure converted by
//! the router's registered policy (or a plain 500). A branch on the request
//! method covers handlers that answer methods differently.

use vstd::prelude::*;

use crate::extract::{extract_all, extract_all_spec, Extract};
use crate::json::{json_object_string, json_of_map, map_of_pairs};
use crate::message::{Method, PairSeq, ReqModel, Request, RespModel, Response};

verus! {

/// One piece of a template: a literal, or the value of the declared input at
/// an index (out-of-range indices render as nothing).
pub enum Part {
    Lit(String),
    Input(usize),
}

/// What a template piece renders to.
pub open spec fn part_value_spec(p: Part, vals: Seq<Seq<char>>) -> Seq<char> {
    match p {
        Part::Lit(s) => s@,
        Part::Input(i) => if i < vals.len() {
            vals[i as int]
        } else {
            Seq::empty()
        },
    }
}

/// What a template renders to: its pieces' values, concatenated.
pub open spec fn render_spec(parts: Seq<Part>, vals: Seq<Seq<char>>) -> Seq<char>
    decreases parts.len(),
{
    if parts.len() == 0 {
        Seq::empty()
    } else {
        part_value_spec(parts[0], vals) + render_spec(parts.drop_first(), vals)
    }
}

/// Render a template over the extracted input values.
pub fn render(parts: &Vec<Part>, vals: &Vec<String>) -> (r: String)
    ensures
        r@ == render_spec(parts@, vals.deep_view()),
{
    let ghost vv = vals.deep_view();
    let mut s = String::new();
    let mut i: usize = 0;
    proof {
        assert(parts@.skip(0) =~= parts@);
        assert(forall|r: Seq<char>| Seq::<char>::empty() + r =~= r);
    }
    while i < parts.len()
        invariant
            0 <= i <= parts.len(),
            vv == vals.deep_view(),
            vv.len() == vals.len(),
            render_spec(parts@, vv) == s@ + render_spec(parts@.skip(i as int), vv),
        decreases parts.len() - i,
    {
        proof {
            assert(parts@.skip(i as int)[0] == parts@[i as int]);
            assert(parts@.skip(i as int).drop_first() =~= parts@.skip(i as int + 1));
        }
        let ghost olds = s@;
        match &parts[i] {
            Part::Lit(l) => {
                s.append(l.as_str());
            },
            Part::Input(idx) => {
                if *idx < vals.len() {
                    proof {
                        assert(vv[*idx as int] == vals[*idx as int]@);
                    }
                    s.append(vals[*idx].as_str());
                }
            },
        }
        proof {
            assert(olds + (part_value_spec(parts@[i as int], vv) + render_spec(
                parts@.skip(i as int + 1),
                vv,
            )) =~= s@ + render_spec(parts@.skip(i as int + 1), vv));
        }
        i += 1;
    }
    proof {
        assert(parts@.skip(parts.len() as int) =~= Seq::<Part>::empty());
        assert(s@ + Seq::<char>::empty() =~= s@);
    }
    s
}

/// How an opaque handler failure converts to a response: the status to answer
/// with and a message prefix put before the failure's description. The status
/// is carried as given (domain as for `Action::Respond`, no panic).
pub struct ErrorFormat {
    pub status: u16,
    pub prefix: String,
}

/// The documented domain of a response status code.
pub open spec fn status_in_range(s: u16) -> bool {
    100 <= s <= 999
}

/// Whether every status an action can answer with lies in the documented
/// domain.
pub open spec fn action_statuses_valid(a: Action) -> bool
    decreases a,
{
    match a {
        Action::Text(_) => true,
        Action::Json(_) => true,
        Action::Respond { status, headers, body } => status_in_range(status),
        Action::Fail { status, message } => status_in_range(status),
        Action::FailOpaque { description } => true,
        Action::IfMethod { method, then, otherwise } => action_statuses_valid(*then)
            && action_statuses_valid(*otherwise),
    }
}

/// Whether every status a handler can answer with lies in the documented
/// domain.
pub open spec fn handler_statuses_valid(h: Handler) -> bool {
    &&& action_statuses_valid(h.action)
    &&& (h.on_extract_error matches Some(a) ==> action_statuses_valid(a))
}

/// Whether a failure policy's status lies in the documented domain.
pub open spec fn error_format_valid(f: ErrorFormat) -> bool {
    status_in_range(f.status)
}

/// The registered policy seen through an optional reference.
pub open spec fn pol_model(p: Option<&ErrorFormat>) -> Option<ErrorFormat> {
    match p {
        Some(f) => Some(*f),
        None => None,
    }
}

/// What a handler does once its inputs are extracted.
pub enum Action {
    /// A 200 text response.
    Text(Vec<Part>),
    /// A 200 JSON object response; each field value is one template piece.
    Json(Vec<(String, Part)>),
    /// A response assembled from a status, templated headers, and a body.
    /// The dispatcher carries the status as given and never panics on one;
    /// the documented domain is [`status_in_range`], kept by well-formed
    /// routers.
    Respond { status: u16, headers: Vec<(String, Vec<Part>)>, body: Vec<Part> },
    /// A typed failure that converts to a response with its own status,
    /// carried as given (domain as for `Respond`, no panic).
    Fail { status: u16, message: Vec<Part> },
    /// An opaque failure, converted by the registered policy or to a 500.
    FailOpaque { description: Vec<Part> },
    /// Answer differently by request method.
    IfMethod { method: Method, then: Box<Action>, otherwise: Box<Action> },
}

/// The `Content-Type: text/plain; charset=utf-8` header, alone.
pub open spec fn text_plain_header() -> PairSeq {
    seq![("Content-Type"@, "text/plain; charset=utf-8"@)]
}

/// The `Content-Type: application/json` header, alone.
pub open spec fn json_header() -> PairSeq {
    seq![("Content-Type"@, "application/json"@)]
}

/// A JSON action's fields, rendered.
pub open spec fn fields_rendered_spec(fs: Seq<(String, Part)>, vals: Seq<Seq<char>>) -> PairSeq {
    fs.map_values(|f: (String, Part)| (f.0@, part_value_spec(f.1, vals)))
}

/// The response an action produces, given the extracted values, the request
/// method, and the registered policy for opaque failures.
pub open spec fn action_spec(
    a: Action,
    vals: Seq<Seq<char>>,
    m: Method,
    pol: Option<ErrorFormat>,
) -> RespModel
    decreases a,
{
    match a {
        Action::Text(parts) => RespModel {
            status: 200,
            headers: text_plain_header(),
            body: vstd::utf8::encode_utf8(render_spec(parts@, vals)),
        },
        Action::Json(fields) => RespModel {
            status: 200,
            headers: json_header(),
            body: vstd::utf8::encode_utf8(
                json_of_map(map_of_pairs(fields_rendered_spec(fields@, vals))),
            ),
        },
        Action::Respond { status, headers, body } => RespModel {
            status,
            headers: headers@.map_values(
                |h: (String, Vec<Part>)| (h.0@, render_spec(h.1@, vals)),
            ),
            body: vstd::utf8::encode_utf8(render_spec(body@, vals)),
        },
        Action::Fail { status, message } => RespModel {
            status,
            headers: text_plain_header(),
            body: vstd::utf8::encode_utf8(render_spec(message@, vals)),
        },
        Action::FailOpaque { description } => match pol {
            Some(f) => RespModel {
                status: f.status,
                headers: text_plain_header(),
                body: vstd::utf8::encode_utf8(f.prefix@ + render_spec(description@, vals)),
            },
            None => RespModel {
                status: 500,
                headers: text_plain_header(),
                body: vstd::utf8::encode_utf8(render_spec(description@, vals)),
            },
        },
        Action::IfMethod { method, then, otherwise } => if m == method {
            action_spec(*then, vals, m, pol)
        } else {
            action_spec(*otherwise, vals, m, pol)
        },
    }
}

/// The `Content-Type: text/plain` header pair, built.
pub fn make_text_headers() -> (r: Vec<(String, String)>)
    ensures
        r.deep_view() == text_plain_header(),
{
    let mut v: Vec<(String, String)> = Vec::new();
    v.push(
        (String::from_str("Content-Type"), String::from_str("text/plain; charset=utf-8")),
    );
    proof {
        assert(v.deep_view() =~= text_plain_header());
    }
    v
}

/// Run an action over the extracted values.
pub fn action_run(a: &Action, vals: &Vec<String>, m: Method, pol: Option<&ErrorFormat>) -> (r:
    Response)
    ensures
        r@ == action_spec(*a, vals.deep_view(), m, pol_model(pol)),
    decreases *a,
{
    match a {
        Action::Text(parts) => {
            let body = render(parts, vals);
            Response { status: 200, headers: make_text_headers(), body: body.as_str().as_bytes_vec() }
        },
        Action::Json(fields) => {
            let ghost vv = vals.deep_view();
            let mut rendered: Vec<(String, String)> = Vec::new();
            let mut i: usize = 0;
            while i < fields.len()
                invariant
                    0 <= i <= fields.len(),
                    vv == vals.deep_view(),
                    rendered.deep_view().len() == i,
                    forall|j: int|
                        0 <= j < i ==> rendered.deep_view()[j] == (
                        fields@[j].0@,
                        part_value_spec(fields@[j].1, vv),
                        ),
                decreases fields.len() - i,
            {
                let mut one: Vec<Part> = Vec::new();
                let ghost p = fields@[i as int].1;
                match &fields[i].1 {
                    Part::Lit(l) => one.push(Part::Lit(l.clone())),
                    Part::Input(idx) => one.push(Part::Input(*idx)),
                }
                let val = render(&one, vals);
                proof {
                    assert(one@[0] == p);
                    assert(one@.drop_first() =~= Seq::<Part>::empty());
                    assert(render_spec(Seq::<Part>::empty(), vv) == Seq::<char>::empty());
                    assert(part_value_spec(p, vv) + Seq::<char>::empty() =~= part_value_spec(
                        p,
                        vv,
                    ));
                    assert(val@ == part_value_spec(p, vv));
                }
                let ghost oldr = rendered.deep_view();
                rendered.push((fields[i].0.clone(), val));
                proof {
                    assert(rendered.deep_view() =~~= oldr.push((fields@[i as int].0@, val@)));
                }
                i += 1;
            }
            proof {
                assert(rendered.deep_view() =~~= fields_rendered_spec(fields@, vv));
            }
            let text = json_object_string(&rendered);
            let mut headers: Vec<(String, String)> = Vec::new();
            headers.push(
                (String::from_str("Content-Type"), String::from_str("application/json")),
            );
            proof {
                assert(headers.deep_view() =~= json_header());
            }
            Response { status: 200, headers, body: text.as_str().as_bytes_vec() }
        },
        Action::Respond { status, headers, body } => {
            let ghost vv = vals.deep_view();
            let mut hs: Vec<(String, String)> = Vec::new();
            let mut i: usize = 0;
            while i < headers.len()
                invariant
                    0 <= i <= headers.len(),
                    vv == vals.deep_view(),
                    hs.deep_view().len() == i,
                    forall|j: int|
                        0 <= j < i ==> hs.deep_view()[j] == (
                        headers@[j].0@,
                        render_spec(headers@[j].1@, vv),
                        ),
                decreases headers.len() - i,
            {
                let val = render(&headers[i].1, vals);
                let ghost oldh = hs.deep_view();
                hs.push((headers[i].0.clone(), val));
                proof {
                    assert(hs.deep_view() =~~= oldh.push((headers@[i as int].0@, val@)));
                }
                i += 1;
            }
            proof {
                assert(hs.deep_view() =~~= headers@.map_values(
                    |h: (String, Vec<Part>)| (h.0@, render_spec(h.1@, vv)),
                ));
            }
            let b = render(body, vals);
            Response { status: *status, headers: hs, body: b.as_str().as_bytes_vec() }
        },
        Action::Fail { status, message } => {
            let b = render(message, vals);
            Response {
                status: *status,
                headers: make_text_headers(),
                body: b.as_str().as_bytes_vec(),
            }
        },
        Action::FailOpaque { description } => {
            let desc = render(description, vals);
            match pol {
                Some(f) => {
                    let mut b = f.prefix.clone();
                    b.append(desc.as_str());
                    Response {
                        status: f.status,
                        headers: make_text_headers(),
                        body: b.as_str().as_bytes_vec(),
                    }
                },
                None => Response {
                    status: 500,
                    headers: make_text_headers(),
                    body: desc.as_str().as_bytes_vec(),
                },
            }
        },
        Action::IfMethod { method, then, otherwise } => {
            if m == *method {
                action_run(&**then, vals, m, pol)
            } else {
                action_run(&**otherwise, vals, m, pol)
            }
        },
    }
}

/// A handler: its declared inputs, what it does with them, and - where it
/// opts in to seeing extraction failures itself - what it does then. The
/// error action runs with the failure's message as its single input value,
/// so `Part::Input(0)` names what failed and why.
pub struct Handler {
    pub inputs: Vec<Extract>,
    pub action: Action,
    pub on_extract_error: Option<Action>,
}

/// The response a handler gives a request: its action over the extracted
/// inputs; on the first extraction failure, its error action (over the
/// failure's message) if it declared one, else a 400 response carrying the
/// failure's message.
pub open spec fn run_handler_spec(h: Handler, q: ReqModel, pol: Option<ErrorFormat>) -> RespModel {
    match extract_all_spec(h.inputs@, q) {
        Ok(vals) => action_spec(h.action, vals, q.method, pol),
        Err(msg) => match h.on_extract_error {
            Some(a) => action_spec(a, seq![msg], q.method, pol),
            None => RespModel {
                status: 400,
                headers: text_plain_header(),
                body: vstd::utf8::encode_utf8(msg),
            },
        },
    }
}

/// Run a handler against a request.
pub fn run_handler(h: &Handler, req: &Request, pol: Option<&ErrorFormat>) -> (r: Response)
    ensures
        r@ == run_handler_spec(*h, req@, pol_model(pol)),
{
    match extract_all(&h.inputs, req) {
        Ok(vals) => action_run(&h.action, &vals, req.method, pol),
        Err(msg) => match &h.on_extract_error {
            Some(a) => {
                let mut vals: Vec<String> = Vec::new();
                let ghost msgv = msg@;
                vals.push(msg);
                proof {
                    assert(vals.deep_view() =~~= seq![msgv]);
                }
                action_run(a, &vals, req.method, pol)
            },
            None => Response {
                status: 400,
                headers: make_text_headers(),
                body: msg.as_str().as_bytes_vec(),
            },
        },
    }
}

} // verus!
