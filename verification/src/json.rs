//! JSON bodies, read and written through serde_json.
//!
//! The dispatcher works with flat JSON objects whose values are strings: the
//! shape a declarative handler can consume and produce. Parsing and printing
//! are done by serde_json; what the calls return is named by the
//! uninterpreted functions below and related to the library's own models.

use vstd::prelude::*;

use crate::message::PairSeq;

verus! {

/// The map a list of pairs denotes: later entries overwrite earlier ones.
pub open spec fn map_of_pairs(s: PairSeq) -> Map<Seq<char>, Seq<char>>
    decreases s.len(),
{
    if s.len() == 0 {
        Map::empty()
    } else {
        map_of_pairs(s.drop_last()).insert(s.last().0, s.last().1)
    }
}

/// The JSON text serde_json prints for a string-to-string map (keys in
/// sorted order, strings escaped as serde_json escapes them).
pub uninterp spec fn json_of_map(m: Map<Seq<char>, Seq<char>>) -> Seq<char>;

/// The string fields serde_json reads from a byte body holding a JSON object
/// of string values, sorted by key; `None` where the body is not such an
/// object.
pub uninterp spec fn json_fields_of(b: Seq<u8>) -> Option<PairSeq>;

/// Characters serde_json prints verbatim inside a JSON string: printable
/// ASCII other than the quote and the backslash.
pub open spec fn json_plain_text(s: Seq<char>) -> bool {
    forall|i: int|
        0 <= i < s.len() ==> (' ' <= #[trigger] s[i] <= '~' && s[i] != '"' && s[i] != '\\')
}

/// Relies on serde_json::to_string: printing a string-to-string map yields
/// its JSON object text, a pure function of the map; a single-entry map of
/// escape-free strings prints as `{"key":"value"}`.
#[verifier::external_body]
pub fn json_object_string(fields: &Vec<(String, String)>) -> (r: String)
    ensures
        r@ == json_of_map(map_of_pairs(fields.deep_view())),
        (fields.deep_view().len() == 1 && json_plain_text(fields.deep_view()[0].0)
            && json_plain_text(fields.deep_view()[0].1)) ==> r@ == "{\""@
            + fields.deep_view()[0].0 + "\":\""@ + fields.deep_view()[0].1 + "\"}"@,
{
    let map: std::collections::BTreeMap<String, String> = fields.iter().map(
        |p| (p.0.clone(), p.1.clone()),
    ).collect();
    match serde_json::to_string(&map) {
        Ok(s) => s,
        Err(_) => String::new(),
    }
}

/// Relies on serde_json::from_slice: reading a JSON object of string values
/// succeeds exactly on bytes holding such an object, a pure function of the
/// bytes.
#[verifier::external_body]
pub fn json_parse_fields(body: &Vec<u8>) -> (r: Option<Vec<(String, String)>>)
    ensures
        r.deep_view() == json_fields_of(body@),
{
    let map: std::collections::BTreeMap<String, String> = match serde_json::from_slice(
        body.as_slice(),
    ) {
        Ok(m) => m,
        Err(_) => {
            return None;
        },
    };
    Some(map.into_iter().collect())
}

} // verus!
