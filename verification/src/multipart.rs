//! multipart/form-data bodies.
//!
//! A body with boundary `B` must read `--B`, then for each part `\r\n`, the
//! part's header lines, a blank line, and the part's content, the part closed
//! by `\r\n--B`; after the last part the boundary is closed by `--`. A part's
//! name is the text between `name="` and the following quote in its header
//! block. Parts may repeat a name; a lookup returns the first.

use vstd::prelude::*;

use crate::bytesutil::{
    bytes_concat, bytes_range, find_byte, find_byte_spec, find_sub, find_sub_spec,
    lemma_find_byte_in_range,
};
use vstd::utf8::{decode_utf8, valid_utf8};

verus! {

/// One decoded part: its declared name and its raw content bytes.
pub struct FormPart {
    pub name: String,
    pub content: Vec<u8>,
}

/// The mathematical shape of a part.
pub struct PartModel {
    pub name: Seq<char>,
    pub content: Seq<u8>,
}

impl View for FormPart {
    type V = PartModel;

    open spec fn view(&self) -> PartModel {
        PartModel { name: self.name@, content: self.content@ }
    }
}

impl DeepView for FormPart {
    type V = PartModel;

    open spec fn deep_view(&self) -> PartModel {
        self@
    }
}

/// The bytes of a blank line between part headers and part content.
pub open spec fn header_end_bytes() -> Seq<u8> {
    seq![13u8, 10u8, 13u8, 10u8]
}

/// The bytes of `name="`.
pub open spec fn name_key_bytes() -> Seq<u8> {
    seq![110u8, 97u8, 109u8, 101u8, 61u8, 34u8]
}

/// One raw part decoded: headers before the first blank line, content after
/// it, the name quoted after `name="` in the headers and read as UTF-8.
pub open spec fn part_spec(raw: Seq<u8>) -> Option<PartModel> {
    match find_sub_spec(raw, header_end_bytes(), 0) {
        None => None,
        Some(h) => {
            let headers = raw.take(h);
            let content = raw.skip(h + 4);
            match find_sub_spec(headers, name_key_bytes(), 0) {
                None => None,
                Some(n0) => {
                    let after = headers.skip(n0 + 6);
                    match find_byte_spec(after, 34, 0) {
                        None => None,
                        Some(q) => if valid_utf8(after.take(q)) {
                            Some(PartModel { name: decode_utf8(after.take(q)), content })
                        } else {
                            None
                        },
                    }
                },
            }
        },
    }
}

/// The parts of `body` from position `p` on, `p` standing just after a
/// boundary; `d` is the full delimiter `\r\n--B`.
pub open spec fn parts_from_spec(body: Seq<u8>, d: Seq<u8>, p: int) -> Option<Seq<PartModel>>
    decreases body.len() - p,
{
    if p < 0 || p + 2 > body.len() || d.len() < 3 {
        None
    } else if body[p] == 45 && body[p + 1] == 45 {
        Some(Seq::empty())
    } else if body[p] == 13 && body[p + 1] == 10 {
        match find_sub_spec(body, d, p + 2) {
            None => None,
            Some(q) => if p + 2 <= q && q + d.len() <= body.len() {
                match part_spec(body.subrange(p + 2, q)) {
                    None => None,
                    Some(pm) => match parts_from_spec(body, d, q + d.len()) {
                        None => None,
                        Some(ps) => Some(seq![pm] + ps),
                    },
                }
            } else {
                None
            },
        }
    } else {
        None
    }
}

/// The parts of a multipart body, or `None` where the framing is malformed.
pub open spec fn multipart_spec(body: Seq<u8>, boundary: Seq<u8>) -> Option<Seq<PartModel>> {
    let open = seq![45u8, 45u8] + boundary;
    if boundary.len() > 0 && open.len() <= body.len() && body.take(open.len() as int) == open {
        parts_from_spec(body, seq![13u8, 10u8] + open, open.len() as int)
    } else {
        None
    }
}

/// Decode one raw part.
fn parse_part(raw: &Vec<u8>) -> (r: Option<FormPart>)
    ensures
        match r {
            Some(fp) => part_spec(raw@) == Some(fp@),
            None => part_spec(raw@) is None,
        },
{
    let mut sep: Vec<u8> = Vec::new();
    sep.push(13);
    sep.push(10);
    sep.push(13);
    sep.push(10);
    proof {
        assert(sep@ =~= header_end_bytes());
    }
    match find_sub(raw, &sep, 0) {
        None => None,
        Some(h) => {
            let rl = raw.len();
            let headers = bytes_range(raw, 0, h);
            let content = bytes_range(raw, h + 4, rl);
            proof {
                assert(raw@.subrange(0, h as int) =~= raw@.take(h as int));
                assert(raw@.subrange(h as int + 4, rl as int) =~= raw@.skip(h as int + 4));
            }
            let mut nk: Vec<u8> = Vec::new();
            nk.push(110);
            nk.push(97);
            nk.push(109);
            nk.push(101);
            nk.push(61);
            nk.push(34);
            proof {
                assert(nk@ =~= name_key_bytes());
            }
            match find_sub(&headers, &nk, 0) {
                None => None,
                Some(n0) => {
                    let after = bytes_range(&headers, n0 + 6, headers.len());
                    proof {
                        assert(headers@.subrange(n0 as int + 6, headers@.len() as int)
                            =~= headers@.skip(n0 as int + 6));
                    }
                    match find_byte(&after, 34) {
                        None => None,
                        Some(qi) => {
                            proof {
                                lemma_find_byte_in_range(after@, 34, 0);
                                assert(after@.subrange(0, qi as int) =~= after@.take(qi as int));
                            }
                            let nb = bytes_range(&after, 0, qi);
                            match crate::message::bytes_to_string_vec(&nb) {
                                None => None,
                                Some(name) => Some(FormPart { name, content }),
                            }
                        },
                    }
                },
            }
        },
    }
}

/// Decode a multipart body against its boundary.
pub fn multipart_parse(body: &Vec<u8>, boundary: &Vec<u8>) -> (r: Option<Vec<FormPart>>)
    ensures
        r matches Some(v) ==> multipart_spec(body@, boundary@) == Some(v.deep_view()),
        r is None ==> multipart_spec(body@, boundary@) is None,
{
    if boundary.len() == 0 {
        return None;
    }
    let mut dashes: Vec<u8> = Vec::new();
    dashes.push(45);
    dashes.push(45);
    proof {
        assert(dashes@ =~= seq![45u8, 45u8]);
    }
    let open = bytes_concat(&dashes, boundary);
    if body.len() < open.len() {
        return None;
    }
    if !crate::bytesutil::sub_matches_at(body, &open, 0) {
        proof {
            assert(body@.subrange(0, open@.len() as int) =~= body@.take(open@.len() as int));
        }
        return None;
    }
    proof {
        assert(body@.subrange(0, open@.len() as int) =~= body@.take(open@.len() as int));
    }
    let mut crlf: Vec<u8> = Vec::new();
    crlf.push(13);
    crlf.push(10);
    proof {
        assert(crlf@ =~= seq![13u8, 10u8]);
    }
    let d = bytes_concat(&crlf, &open);
    let ghost full = parts_from_spec(body@, d@, open@.len() as int);
    let mut p: usize = open.len();
    let mut out: Vec<FormPart> = Vec::new();
    proof {
        assert(out.deep_view() =~= Seq::<PartModel>::empty());
        assert(forall|r: Seq<PartModel>| Seq::<PartModel>::empty() + r =~= r);
    }
    loop
        invariant
            0 <= p <= body@.len(),
            d@.len() >= 3,
            full == match parts_from_spec(body@, d@, p as int) {
                Some(r) => Some(out.deep_view() + r),
                None => None::<Seq<PartModel>>,
            },
            full == multipart_spec(body@, boundary@),
        decreases body@.len() - p,
    {
        if body.len() - p < 2 {
            return None;
        }
        let b0 = body[p];
        let b1 = body[p + 1];
        if b0 == 45 && b1 == 45 {
            proof {
                assert(out.deep_view() + Seq::<PartModel>::empty() =~= out.deep_view());
            }
            return Some(out);
        }
        if !(b0 == 13 && b1 == 10) {
            return None;
        }
        match find_sub(body, &d, p + 2) {
            None => {
                return None;
            },
            Some(q) => {
                let raw = bytes_range(body, p + 2, q);
                match parse_part(&raw) {
                    None => {
                        return None;
                    },
                    Some(fp) => {
                        let ghost oldout = out.deep_view();
                        let ghost pv = fp@;
                        out.push(fp);
                        proof {
                            assert(out.deep_view() =~= oldout.push(pv));
                            assert(forall|r: Seq<PartModel>|
                                oldout + (seq![pv] + r) =~= (oldout.push(pv)) + r);
                        }
                        p = q + d.len();
                    },
                }
            },
        }
    }
}

/// The content of the first part carrying `name`.
pub open spec fn part_lookup_spec(ps: Seq<PartModel>, name: Seq<char>) -> Option<Seq<u8>>
    decreases ps.len(),
{
    if ps.len() == 0 {
        None
    } else if ps[0].name == name {
        Some(ps[0].content)
    } else {
        part_lookup_spec(ps.drop_first(), name)
    }
}

/// Find the first part carrying `name`.
pub fn part_lookup<'a>(ps: &'a Vec<FormPart>, name: &String) -> (r: Option<&'a Vec<u8>>)
    ensures
        match r {
            Some(c) => part_lookup_spec(ps.deep_view(), name@) == Some(c@),
            None => part_lookup_spec(ps.deep_view(), name@) is None,
        },
{
    let ghost all = ps.deep_view();
    let mut i: usize = 0;
    proof {
        assert(all.skip(0) =~= all);
    }
    while i < ps.len()
        invariant
            0 <= i <= ps.len(),
            all == ps.deep_view(),
            all.len() == ps.len(),
            part_lookup_spec(all, name@) == part_lookup_spec(all.skip(i as int), name@),
        decreases ps.len() - i,
    {
        proof {
            assert(all.skip(i as int)[0] == all[i as int]);
            assert(all.skip(i as int).drop_first() =~= all.skip(i as int + 1));
            assert(all[i as int] == ps[i as int]@);
        }
        if ps[i].name == *name {
            return Some(&ps[i].content);
        }
        i += 1;
    }
    proof {
        assert(all.skip(ps.len() as int) =~= Seq::<PartModel>::empty());
    }
    None
}

/// The bytes of `boundary=`.
pub open spec fn boundary_key_bytes() -> Seq<u8> {
    seq![98u8, 111u8, 117u8, 110u8, 100u8, 97u8, 114u8, 121u8, 61u8]
}

/// The boundary named in a `Content-Type` header value: the bytes after
/// `boundary=`, up to the first `';'` or the end.
pub open spec fn boundary_of_spec(h: Seq<u8>) -> Option<Seq<u8>> {
    match find_sub_spec(h, boundary_key_bytes(), 0) {
        None => None,
        Some(i) => {
            let rest = h.skip(i + 9);
            match find_byte_spec(rest, 59, 0) {
                Some(j) => Some(rest.take(j)),
                None => Some(rest),
            }
        },
    }
}

/// Read the boundary out of a `Content-Type` header value.
pub fn boundary_of(h: &Vec<u8>) -> (r: Option<Vec<u8>>)
    ensures
        match r {
            Some(b) => boundary_of_spec(h@) == Some(b@),
            None => boundary_of_spec(h@) is None,
        },
{
    let mut bk: Vec<u8> = Vec::new();
    bk.push(98);
    bk.push(111);
    bk.push(117);
    bk.push(110);
    bk.push(100);
    bk.push(97);
    bk.push(114);
    bk.push(121);
    bk.push(61);
    proof {
        assert(bk@ =~= boundary_key_bytes());
    }
    match find_sub(h, &bk, 0) {
        None => None,
        Some(i) => {
            let hl = h.len();
            let rest = bytes_range(h, i + 9, hl);
            proof {
                assert(h@.subrange(i as int + 9, h@.len() as int) =~= h@.skip(i as int + 9));
            }
            match find_byte(&rest, 59) {
                Some(j) => {
                    proof {
                        lemma_find_byte_in_range(rest@, 59, 0);
                        assert(rest@.subrange(0, j as int) =~= rest@.take(j as int));
                    }
                    Some(bytes_range(&rest, 0, j))
                },
                None => Some(rest),
            }
        },
    }
}

} // verus!
