//! Typed extraction: the request data a handler declares.
//!
//! Each extractor derives one value from the request, succeeding or failing
//! independently; a failure carries a message naming the input and why it
//! failed. A handler's inputs are extracted in declaration order, and the
//! first failure short-circuits the rest.

use vstd::prelude::*;

use crate::form::{cookie_parse, cookie_parse_spec, form_parse, form_parse_spec};
use crate::json::{json_fields_of, json_parse_fields};
use crate::message::{
    find_pair, lookup_spec, method_name, method_name_spec, ReqModel, Request,
};
use crate::multipart::{
    boundary_of, boundary_of_spec, multipart_parse, multipart_spec, part_lookup, part_lookup_spec,
};
use vstd::utf8::{decode_utf8, valid_utf8};

verus! {

/// One declared handler input.
pub enum Extract {
    /// The request method's name.
    Method,
    /// The raw request path.
    Path,
    /// A path parameter bound during matching.
    PathParam(String),
    /// A query parameter.
    QueryParam(String),
    /// A header value.
    HeaderValue(String),
    /// A cookie out of the `Cookie` header.
    CookieValue(String),
    /// An attachment added by middleware or by the router's state.
    Attachment(String),
    /// A string field of a JSON object body.
    JsonField(String),
    /// A field of a URL-encoded form body.
    FormField(String),
    /// The text of a named multipart part.
    MultipartText(String),
    /// A named multipart part that must be present and non-empty; the
    /// extracted value is empty.
    MultipartPart(String),
}

/// What the named multipart part of the request holds, through the
/// `Content-Type` boundary and the body framing.
pub open spec fn multipart_part_of(q: ReqModel, name: Seq<char>) -> Result<
    Option<Seq<u8>>,
    Seq<char>,
> {
    match lookup_spec(q.headers, "Content-Type"@) {
        None => Err("missing header: Content-Type"@),
        Some(ct) => match boundary_of_spec(vstd::utf8::encode_utf8(ct)) {
            None => Err("malformed multipart body"@),
            Some(b) => match multipart_spec(q.body, b) {
                None => Err("malformed multipart body"@),
                Some(parts) => Ok(part_lookup_spec(parts, name)),
            },
        },
    }
}

/// The value one extractor derives from a request, or the message it fails
/// with.
pub open spec fn extract_result_spec(e: Extract, q: ReqModel) -> Result<Seq<char>, Seq<char>> {
    match e {
        Extract::Method => Ok(method_name_spec(q.method)),
        Extract::Path => Ok(q.path),
        Extract::PathParam(n) => match lookup_spec(q.params, n@) {
            Some(v) => Ok(v),
            None => Err("missing path parameter: "@ + n@),
        },
        Extract::QueryParam(n) => match lookup_spec(q.query, n@) {
            Some(v) => Ok(v),
            None => Err("missing query parameter: "@ + n@),
        },
        Extract::HeaderValue(n) => match lookup_spec(q.headers, n@) {
            Some(v) => Ok(v),
            None => Err("missing header: "@ + n@),
        },
        Extract::CookieValue(n) => match lookup_spec(q.headers, "Cookie"@) {
            None => Err("missing header: Cookie"@),
            Some(c) => match lookup_spec(cookie_parse_spec(vstd::utf8::encode_utf8(c)), n@) {
                Some(v) => Ok(v),
                None => Err("missing cookie: "@ + n@),
            },
        },
        Extract::Attachment(n) => match lookup_spec(q.attachments, n@) {
            Some(v) => Ok(v),
            None => Err("missing attachment: "@ + n@),
        },
        Extract::JsonField(n) => match json_fields_of(q.body) {
            None => Err("malformed JSON body"@),
            Some(fs) => match lookup_spec(fs, n@) {
                Some(v) => Ok(v),
                None => Err("missing JSON field: "@ + n@),
            },
        },
        Extract::FormField(n) => match form_parse_spec(q.body) {
            None => Err("malformed form body"@),
            Some(fs) => match lookup_spec(fs, n@) {
                Some(v) => Ok(v),
                None => Err("missing form field: "@ + n@),
            },
        },
        Extract::MultipartText(n) => match multipart_part_of(q, n@) {
            Err(m) => Err(m),
            Ok(None) => Err("missing multipart part: "@ + n@),
            Ok(Some(content)) => if valid_utf8(content) {
                Ok(decode_utf8(content))
            } else {
                Err("malformed multipart part: "@ + n@)
            },
        },
        Extract::MultipartPart(n) => match multipart_part_of(q, n@) {
            Err(m) => Err(m),
            Ok(None) => Err("missing multipart part: "@ + n@),
            Ok(Some(content)) => if content.len() > 0 {
                Ok(Seq::empty())
            } else {
                Err("empty multipart part: "@ + n@)
            },
        },
    }
}

/// A fixed message followed by the name of the input.
fn msg_concat(prefix: &str, name: &String) -> (r: String)
    ensures
        r@ == prefix@ + name@,
{
    let mut s = String::from_str(prefix);
    s.append(name.as_str());
    s
}

/// Derive one declared input from the request.
pub fn extract_value(e: &Extract, req: &Request) -> (r: Result<String, String>)
    ensures
        match r {
            Ok(s) => extract_result_spec(*e, req@) == Result::<Seq<char>, Seq<char>>::Ok(s@),
            Err(m) => extract_result_spec(*e, req@) == Result::<Seq<char>, Seq<char>>::Err(m@),
        },
{
    match e {
        Extract::Method => Ok(method_name(req.method)),
        Extract::Path => Ok(req.path.clone()),
        Extract::PathParam(n) => match find_pair(&req.params, n) {
            Some(v) => Ok(v),
            None => Err(msg_concat("missing path parameter: ", n)),
        },
        Extract::QueryParam(n) => match find_pair(&req.query, n) {
            Some(v) => Ok(v),
            None => Err(msg_concat("missing query parameter: ", n)),
        },
        Extract::HeaderValue(n) => match find_pair(&req.headers, n) {
            Some(v) => Ok(v),
            None => Err(msg_concat("missing header: ", n)),
        },
        Extract::CookieValue(n) => {
            let ck = String::from_str("Cookie");
            match find_pair(&req.headers, &ck) {
                None => Err(String::from_str("missing header: Cookie")),
                Some(c) => {
                    let cb = c.as_str().as_bytes_vec();
                    let pairs = cookie_parse(&cb);
                    match find_pair(&pairs, n) {
                        Some(v) => Ok(v),
                        None => Err(msg_concat("missing cookie: ", n)),
                    }
                },
            }
        },
        Extract::Attachment(n) => match find_pair(&req.attachments, n) {
            Some(v) => Ok(v),
            None => Err(msg_concat("missing attachment: ", n)),
        },
        Extract::JsonField(n) => match json_parse_fields(&req.body) {
            None => Err(String::from_str("malformed JSON body")),
            Some(fs) => match find_pair(&fs, n) {
                Some(v) => Ok(v),
                None => Err(msg_concat("missing JSON field: ", n)),
            },
        },
        Extract::FormField(n) => match form_parse(&req.body) {
            None => Err(String::from_str("malformed form body")),
            Some(fs) => match find_pair(&fs, n) {
                Some(v) => Ok(v),
                None => Err(msg_concat("missing form field: ", n)),
            },
        },
        Extract::MultipartText(n) => match lookup_multipart_part(req, n) {
            Err(m) => Err(m),
            Ok(None) => Err(msg_concat("missing multipart part: ", n)),
            Ok(Some(content)) => match crate::message::bytes_to_string_vec(&content) {
                Some(s) => Ok(s),
                None => Err(msg_concat("malformed multipart part: ", n)),
            },
        },
        Extract::MultipartPart(n) => match lookup_multipart_part(req, n) {
            Err(m) => Err(m),
            Ok(None) => Err(msg_concat("missing multipart part: ", n)),
            Ok(Some(content)) => if content.len() > 0 {
                Ok(String::new())
            } else {
                Err(msg_concat("empty multipart part: ", n))
            },
        },
    }
}

/// Find the named part of the request's multipart body.
fn lookup_multipart_part(req: &Request, name: &String) -> (r: Result<Option<Vec<u8>>, String>)
    ensures
        match r {
            Ok(Some(c)) => multipart_part_of(req@, name@) == Result::<
                Option<Seq<u8>>,
                Seq<char>,
            >::Ok(Some(c@)),
            Ok(None) => multipart_part_of(req@, name@) == Result::<
                Option<Seq<u8>>,
                Seq<char>,
            >::Ok(None::<Seq<u8>>),
            Err(m) => multipart_part_of(req@, name@) == Result::<
                Option<Seq<u8>>,
                Seq<char>,
            >::Err(m@),
        },
{
    let ctname = String::from_str("Content-Type");
    match find_pair(&req.headers, &ctname) {
        None => Err(String::from_str("missing header: Content-Type")),
        Some(ct) => {
            let ctb = ct.as_str().as_bytes_vec();
            match boundary_of(&ctb) {
                None => Err(String::from_str("malformed multipart body")),
                Some(b) => match multipart_parse(&req.body, &b) {
                    None => Err(String::from_str("malformed multipart body")),
                    Some(parts) => match part_lookup(&parts, name) {
                        Some(c) => {
                            let owned = crate::bytesutil::bytes_range(c, 0, c.len());
                            proof {
                                assert(c@.subrange(0, c@.len() as int) =~= c@);
                            }
                            Ok(Some(owned))
                        },
                        None => Ok(None),
                    },
                },
            }
        },
    }
}

/// All declared inputs extracted in order, or the first failure.
pub open spec fn extract_all_spec(inputs: Seq<Extract>, q: ReqModel) -> Result<
    Seq<Seq<char>>,
    Seq<char>,
>
    decreases inputs.len(),
{
    if inputs.len() == 0 {
        Ok(Seq::empty())
    } else {
        match extract_result_spec(inputs[0], q) {
            Err(m) => Err(m),
            Ok(v) => match extract_all_spec(inputs.drop_first(), q) {
                Err(m) => Err(m),
                Ok(vs) => Ok(seq![v] + vs),
            },
        }
    }
}

/// Extract every declared input, stopping at the first failure.
pub fn extract_all(inputs: &Vec<Extract>, req: &Request) -> (r: Result<Vec<String>, String>)
    ensures
        match r {
            Ok(vals) => extract_all_spec(inputs@, req@) == Result::<
                Seq<Seq<char>>,
                Seq<char>,
            >::Ok(vals.deep_view()),
            Err(m) => extract_all_spec(inputs@, req@) == Result::<
                Seq<Seq<char>>,
                Seq<char>,
            >::Err(m@),
        },
{
    let mut out: Vec<String> = Vec::new();
    let mut i: usize = 0;
    proof {
        assert(inputs@.skip(0) =~= inputs@);
        assert(forall|r: Seq<Seq<char>>| Seq::<Seq<char>>::empty() + r =~~= r);
        assert(out.deep_view() =~~= Seq::<Seq<char>>::empty());
    }
    while i < inputs.len()
        invariant
            0 <= i <= inputs.len(),
            extract_all_spec(inputs@, req@) == match extract_all_spec(
                inputs@.skip(i as int),
                req@,
            ) {
                Ok(vs) => Result::<Seq<Seq<char>>, Seq<char>>::Ok(out.deep_view() + vs),
                Err(m) => Result::<Seq<Seq<char>>, Seq<char>>::Err(m),
            },
        decreases inputs.len() - i,
    {
        proof {
            assert(inputs@.skip(i as int)[0] == inputs@[i as int]);
            assert(inputs@.skip(i as int).drop_first() =~= inputs@.skip(i as int + 1));
        }
        match extract_value(&inputs[i], req) {
            Ok(v) => {
                let ghost oldout = out.deep_view();
                let ghost vv = v@;
                out.push(v);
                proof {
                    assert(out.deep_view() =~~= oldout.push(vv));
                    assert(forall|r: Seq<Seq<char>>|
                        oldout + (seq![vv] + r) =~~= (oldout.push(vv)) + r);
                }
            },
            Err(m) => {
                return Err(m);
            },
        }
        i += 1;
    }
    proof {
        assert(inputs@.skip(inputs.len() as int) =~= Seq::<Extract>::empty());
        assert(out.deep_view() + Seq::<Seq<char>>::empty() =~~= out.deep_view());
    }
    Ok(out)
}

} // verus!
