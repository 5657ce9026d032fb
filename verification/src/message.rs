//! Requests, responses, and the name/value lists they carry.

use vstd::prelude::*;

verus! {

/// The closed set of HTTP verbs the dispatcher understands.
#[derive(Clone, Copy, PartialEq, Eq, Structural, Debug)]
pub enum Method {
    Get,
    Post,
    Put,
    Delete,
    Patch,
    Head,
    Options,
}

/// The canonical upper-case name of a verb, as it appears on the wire.
pub open spec fn method_name_spec(m: Method) -> Seq<char> {
    match m {
        Method::Get => "GET"@,
        Method::Post => "POST"@,
        Method::Put => "PUT"@,
        Method::Delete => "DELETE"@,
        Method::Patch => "PATCH"@,
        Method::Head => "HEAD"@,
        Method::Options => "OPTIONS"@,
    }
}

pub fn method_name(m: Method) -> (r: String)
    ensures
        r@ == method_name_spec(m),
{
    match m {
        Method::Get => String::from_str("GET"),
        Method::Post => String::from_str("POST"),
        Method::Put => String::from_str("PUT"),
        Method::Delete => String::from_str("DELETE"),
        Method::Patch => String::from_str("PATCH"),
        Method::Head => String::from_str("HEAD"),
        Method::Options => String::from_str("OPTIONS"),
    }
}

/// Ordered name/value pairs, the shape of headers, query parameters, bound
/// path parameters, and attachments. Names are case-sensitive and may repeat;
/// a lookup returns the first value registered under the name.
pub type PairSeq = Seq<(Seq<char>, Seq<char>)>;

/// The first value paired with `name`, scanning left to right.
pub open spec fn lookup_spec(pairs: PairSeq, name: Seq<char>) -> Option<Seq<char>>
    decreases pairs.len(),
{
    if pairs.len() == 0 {
        None
    } else if pairs[0].0 == name {
        Some(pairs[0].1)
    } else {
        lookup_spec(pairs.drop_first(), name)
    }
}

/// If no pair in the first `i` entries carries `name`, the lookup is decided
/// by the remainder of the list.
pub proof fn lemma_lookup_skip(pairs: PairSeq, name: Seq<char>, i: int)
    requires
        0 <= i <= pairs.len(),
        forall|j: int| 0 <= j < i ==> pairs[j].0 != name,
    ensures
        lookup_spec(pairs, name) == lookup_spec(pairs.skip(i), name),
    decreases i,
{
    if i > 0 {
        assert(pairs.skip(1).skip(i - 1) =~= pairs.skip(i));
        lemma_lookup_skip(pairs.drop_first(), name, i - 1);
    } else {
        assert(pairs.skip(0) =~= pairs);
    }
}

/// The pair list with every entry carrying `name` removed.
pub open spec fn drop_name_spec(pairs: PairSeq, name: Seq<char>) -> PairSeq
    decreases pairs.len(),
{
    if pairs.len() == 0 {
        Seq::empty()
    } else if pairs[0].0 == name {
        drop_name_spec(pairs.drop_first(), name)
    } else {
        seq![pairs[0]] + drop_name_spec(pairs.drop_first(), name)
    }
}

/// The pair list with `name` set to `value`: every previous entry under the
/// name removed, the new pair appended.
pub open spec fn set_pair_spec(pairs: PairSeq, name: Seq<char>, value: Seq<char>) -> PairSeq {
    drop_name_spec(pairs, name).push((name, value))
}

/// Dropping a name leaves no entry carrying it, and leaves the other entries
/// as they were, in order.
pub proof fn lemma_drop_name_free(pairs: PairSeq, name: Seq<char>)
    ensures
        forall|j: int|
            0 <= j < drop_name_spec(pairs, name).len() ==> (#[trigger] drop_name_spec(
                pairs,
                name,
            )[j]).0 != name,
    decreases pairs.len(),
{
    if pairs.len() > 0 {
        lemma_drop_name_free(pairs.drop_first(), name);
        let rest = drop_name_spec(pairs.drop_first(), name);
        if pairs[0].0 != name {
            assert forall|j: int|
                0 <= j < drop_name_spec(pairs, name).len() implies (#[trigger] drop_name_spec(
                pairs,
                name,
            )[j]).0 != name by {
                if j == 0 {
                    assert((seq![pairs[0]] + rest)[0] == pairs[0]);
                } else {
                    assert((seq![pairs[0]] + rest)[j] == rest[j - 1]);
                }
            }
        }
    }
}

/// Dropping a name from a list without it changes nothing.
pub proof fn lemma_drop_name_noop(pairs: PairSeq, name: Seq<char>)
    requires
        forall|j: int| 0 <= j < pairs.len() ==> (#[trigger] pairs[j]).0 != name,
    ensures
        drop_name_spec(pairs, name) == pairs,
    decreases pairs.len(),
{
    if pairs.len() == 0 {
        assert(drop_name_spec(pairs, name) =~= pairs);
    } else {
        lemma_drop_name_noop(pairs.drop_first(), name);
        assert(seq![pairs[0]] + pairs.drop_first() =~= pairs);
    }
}

/// Dropping a name distributes over appending one pair.
pub proof fn lemma_drop_name_push(pairs: PairSeq, p: (Seq<char>, Seq<char>), name: Seq<char>)
    ensures
        drop_name_spec(pairs.push(p), name) == (if p.0 == name {
            drop_name_spec(pairs, name)
        } else {
            drop_name_spec(pairs, name).push(p)
        }),
    decreases pairs.len(),
{
    if pairs.len() == 0 {
        assert(pairs.push(p)[0] == p);
        assert(pairs.push(p).drop_first() =~= Seq::<(Seq<char>, Seq<char>)>::empty());
        assert(drop_name_spec(Seq::<(Seq<char>, Seq<char>)>::empty(), name) == Seq::<(
            Seq<char>,
            Seq<char>,
        )>::empty());
        assert(drop_name_spec(pairs, name) == Seq::<(Seq<char>, Seq<char>)>::empty());
        if p.0 != name {
            assert(seq![p] + Seq::<(Seq<char>, Seq<char>)>::empty() =~= drop_name_spec(
                pairs,
                name,
            ).push(p));
        }
    } else {
        assert(pairs.push(p)[0] == pairs[0]);
        assert(pairs.push(p).drop_first() =~= pairs.drop_first().push(p));
        lemma_drop_name_push(pairs.drop_first(), p, name);
        let rest = drop_name_spec(pairs.drop_first(), name);
        if pairs[0].0 == name {
            assert(drop_name_spec(pairs.push(p), name) == drop_name_spec(
                pairs.drop_first().push(p),
                name,
            ));
            assert(drop_name_spec(pairs, name) == rest);
        } else {
            assert(drop_name_spec(pairs.push(p), name) == seq![pairs[0]] + drop_name_spec(
                pairs.drop_first().push(p),
                name,
            ));
            assert(drop_name_spec(pairs, name) == seq![pairs[0]] + rest);
            if p.0 != name {
                assert(seq![pairs[0]] + rest.push(p) =~= (seq![pairs[0]] + rest).push(p));
            }
        }
    }
}

/// How a lookup sees one appended pair: earlier entries still win.
pub proof fn lemma_lookup_push(pairs: PairSeq, p: (Seq<char>, Seq<char>), name: Seq<char>)
    ensures
        lookup_spec(pairs.push(p), name) == (match lookup_spec(pairs, name) {
            Some(v) => Some(v),
            None => if p.0 == name {
                Some(p.1)
            } else {
                None::<Seq<char>>
            },
        }),
    decreases pairs.len(),
{
    if pairs.len() == 0 {
        assert(pairs.push(p)[0] == p);
        assert(pairs.push(p).drop_first() =~= Seq::<(Seq<char>, Seq<char>)>::empty());
    } else {
        assert(pairs.push(p)[0] == pairs[0]);
        assert(pairs.push(p).drop_first() =~= pairs.drop_first().push(p));
        lemma_lookup_push(pairs.drop_first(), p, name);
    }
}

/// Setting a pair replaces: afterwards the name holds exactly the new value,
/// and every other name looks up as before.
pub proof fn lemma_set_pair_lookup(pairs: PairSeq, name: Seq<char>, value: Seq<char>)
    ensures
        lookup_spec(set_pair_spec(pairs, name, value), name) == Some(value),
        forall|o: Seq<char>|
            o != name ==> #[trigger] lookup_spec(set_pair_spec(pairs, name, value), o)
                == lookup_spec(pairs, o),
    decreases pairs.len(),
{
    let dropped = drop_name_spec(pairs, name);
    lemma_drop_name_free(pairs, name);
    lemma_lookup_skip(dropped, name, dropped.len() as int);
    assert(dropped.skip(dropped.len() as int) =~= Seq::<(Seq<char>, Seq<char>)>::empty());
    lemma_lookup_push(dropped, (name, value), name);
    assert forall|o: Seq<char>| o != name implies #[trigger] lookup_spec(
        set_pair_spec(pairs, name, value),
        o,
    ) == lookup_spec(pairs, o) by {
        lemma_lookup_push(dropped, (name, value), o);
        lemma_drop_name_other_lookup(pairs, name, o);
    }
}

/// Dropping one name does not change what another name looks up to.
pub proof fn lemma_drop_name_other_lookup(pairs: PairSeq, name: Seq<char>, other: Seq<char>)
    requires
        other != name,
    ensures
        lookup_spec(drop_name_spec(pairs, name), other) == lookup_spec(pairs, other),
    decreases pairs.len(),
{
    if pairs.len() > 0 {
        lemma_drop_name_other_lookup(pairs.drop_first(), name, other);
        if pairs[0].0 != name {
            let rest = drop_name_spec(pairs.drop_first(), name);
            assert((seq![pairs[0]] + rest)[0] == pairs[0]);
            assert((seq![pairs[0]] + rest).drop_first() =~= rest);
        }
    }
}

/// Replace every entry of `name` in an owned pair list by one new pair.
pub fn set_pair(pairs: &mut Vec<(String, String)>, name: String, value: String)
    ensures
        final(pairs).deep_view() == set_pair_spec(old(pairs).deep_view(), name@, value@),
{
    let ghost all = pairs.deep_view();
    let mut kept: Vec<(String, String)> = Vec::new();
    let mut i: usize = 0;
    proof {
        assert(all.skip(0) =~= all);
        assert(kept.deep_view() =~~= Seq::<(Seq<char>, Seq<char>)>::empty());
        assert(forall|r: PairSeq| Seq::<(Seq<char>, Seq<char>)>::empty() + r =~~= r);
    }
    while i < pairs.len()
        invariant
            0 <= i <= pairs.len(),
            all == pairs.deep_view(),
            all.len() == pairs.len(),
            drop_name_spec(all, name@) == kept.deep_view() + drop_name_spec(
                all.skip(i as int),
                name@,
            ),
        decreases pairs.len() - i,
    {
        proof {
            assert(all.skip(i as int)[0] == all[i as int]);
            assert(all.skip(i as int).drop_first() =~= all.skip(i as int + 1));
            assert(all[i as int] == (pairs[i as int].0@, pairs[i as int].1@));
        }
        if pairs[i].0 != name {
            let ghost oldk = kept.deep_view();
            kept.push((pairs[i].0.clone(), pairs[i].1.clone()));
            proof {
                assert(kept.deep_view() =~~= oldk.push(all[i as int]));
                assert(forall|r: PairSeq|
                    oldk + (seq![all[i as int]] + r) =~~= (oldk.push(all[i as int])) + r);
            }
        }
        i += 1;
    }
    proof {
        assert(all.skip(pairs.len() as int) =~= Seq::<(Seq<char>, Seq<char>)>::empty());
        assert(kept.deep_view() + Seq::<(Seq<char>, Seq<char>)>::empty() =~~= kept.deep_view());
    }
    let ghost keptv = kept.deep_view();
    kept.push((name, value));
    proof {
        assert(kept.deep_view() =~~= keptv.push((name@, value@)));
    }
    *pairs = kept;
}

/// First-match lookup over a list of owned pairs.
pub fn find_pair(pairs: &Vec<(String, String)>, name: &String) -> (r: Option<String>)
    ensures
        r.deep_view() == lookup_spec(pairs.deep_view(), name@),
{
    let ghost all = pairs.deep_view();
    let mut i: usize = 0;
    while i < pairs.len()
        invariant
            0 <= i <= pairs.len(),
            all == pairs.deep_view(),
            all.len() == pairs.len(),
            forall|j: int| 0 <= j < i ==> all[j].0 != name@,
        decreases pairs.len() - i,
    {
        assert(all[i as int] == (pairs[i as int].0@, pairs[i as int].1@));
        if pairs[i].0 == *name {
            proof {
                lemma_lookup_skip(all, name@, i as int);
                assert(all.skip(i as int)[0] == all[i as int]);
                reveal_with_fuel(lookup_spec, 2);
            }
            return Some(pairs[i].1.clone());
        }
        i += 1;
    }
    proof {
        lemma_lookup_skip(all, name@, i as int);
    }
    None
}

/// An incoming request. The path is the raw request path; `params` is empty
/// until route matching binds path parameters; `attachments` carries
/// cross-cutting values added by middleware and the application state the
/// router was given.
pub struct Request {
    pub method: Method,
    pub path: String,
    pub query: Vec<(String, String)>,
    pub headers: Vec<(String, String)>,
    pub body: Vec<u8>,
    pub params: Vec<(String, String)>,
    pub attachments: Vec<(String, String)>,
}

/// The mathematical shape of a request.
pub struct ReqModel {
    pub method: Method,
    pub path: Seq<char>,
    pub query: PairSeq,
    pub headers: PairSeq,
    pub body: Seq<u8>,
    pub params: PairSeq,
    pub attachments: PairSeq,
}

impl View for Request {
    type V = ReqModel;

    open spec fn view(&self) -> ReqModel {
        ReqModel {
            method: self.method,
            path: self.path@,
            query: self.query.deep_view(),
            headers: self.headers.deep_view(),
            body: self.body@,
            params: self.params.deep_view(),
            attachments: self.attachments.deep_view(),
        }
    }
}

impl Request {
    /// A bodiless request: a method and a path, nothing else.
    pub fn new(method: Method, path: String) -> (r: Request)
        ensures
            r@ == (ReqModel {
                method,
                path: path@,
                query: Seq::empty(),
                headers: Seq::empty(),
                body: Seq::empty(),
                params: Seq::empty(),
                attachments: Seq::empty(),
            }),
    {
        let r = Request {
            method,
            path,
            query: Vec::new(),
            headers: Vec::new(),
            body: Vec::new(),
            params: Vec::new(),
            attachments: Vec::new(),
        };
        proof {
            assert(r@.query =~= Seq::<(Seq<char>, Seq<char>)>::empty());
            assert(r@.headers =~= Seq::<(Seq<char>, Seq<char>)>::empty());
            assert(r@.params =~= Seq::<(Seq<char>, Seq<char>)>::empty());
            assert(r@.attachments =~= Seq::<(Seq<char>, Seq<char>)>::empty());
        }
        r
    }

    /// Add a query parameter.
    pub fn with_query(&mut self, name: String, value: String)
        ensures
            final(self)@ == (ReqModel { query: old(self)@.query.push((name@, value@)), ..old(self)@ }),
    {
        self.query.push((name, value));
        proof {
            assert(self@.query =~= old(self)@.query.push((name@, value@)));
        }
    }

    /// Add a header.
    pub fn with_header(&mut self, name: String, value: String)
        ensures
            final(self)@ == (ReqModel { headers: old(self)@.headers.push((name@, value@)), ..old(self)@ }),
    {
        self.headers.push((name, value));
        proof {
            assert(self@.headers =~= old(self)@.headers.push((name@, value@)));
        }
    }

    /// Replace the body.
    pub fn with_body(&mut self, body: Vec<u8>)
        ensures
            final(self)@ == (ReqModel { body: body@, ..old(self)@ }),
    {
        self.body = body;
    }
}

/// An outgoing response: a status code, ordered headers, and an opaque body.
pub struct Response {
    pub status: u16,
    pub headers: Vec<(String, String)>,
    pub body: Vec<u8>,
}

/// The mathematical shape of a response.
pub struct RespModel {
    pub status: u16,
    pub headers: PairSeq,
    pub body: Seq<u8>,
}

impl View for Response {
    type V = RespModel;

    open spec fn view(&self) -> RespModel {
        RespModel {
            status: self.status,
            headers: self.headers.deep_view(),
            body: self.body@,
        }
    }
}

impl Response {
    /// The first value of the named response header.
    pub fn header(&self, name: &String) -> (r: Option<String>)
        ensures
            r.deep_view() == lookup_spec(self@.headers, name@),
    {
        find_pair(&self.headers, name)
    }

    /// The body decoded as UTF-8, if it is valid UTF-8.
    pub fn body_text(&self) -> (r: Option<String>)
        ensures
            r is Some <==> vstd::utf8::valid_utf8(self@.body),
            r is Some ==> r->0@ == vstd::utf8::decode_utf8(self@.body),
    {
        crate::message::bytes_to_string_vec(&self.body)
    }
}

/// Relies on `String::from_utf8` (std): it returns `Ok` exactly on valid
/// UTF-8 input and decodes those bytes, per its documentation.
#[verifier::external_body]
pub fn bytes_to_string_vec(b: &Vec<u8>) -> (r: Option<String>)
    ensures
        r is Some <==> vstd::utf8::valid_utf8(b@),
        r is Some ==> r->0@ == vstd::utf8::decode_utf8(b@),
{
    String::from_utf8(b.clone()).ok()
}

} // verus!
