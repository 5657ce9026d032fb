//! URL-encoded form bodies and cookie headers.
//!
//! A form body is `name=value` entries joined by `'&'`; `'+'` stands for a
//! space and `%XX` for the byte with hexadecimal value `XX`. A cookie header
//! is `name=value` entries joined by `';'`, each entry optionally preceded by
//! spaces; entries without a `'='` or an empty name, and entries whose pieces
//! are not UTF-8, are skipped.

use vstd::prelude::*;

use crate::bytesutil::{bytes_range, find_byte, find_byte_spec, split_bytes, split_bytes_spec};
use crate::message::PairSeq;
use vstd::utf8::{decode_utf8, valid_utf8};

verus! {

/// Whether a byte is an ASCII hexadecimal digit.
pub open spec fn is_hex_digit(b: u8) -> bool {
    (48 <= b <= 57) || (97 <= b <= 102) || (65 <= b <= 70)
}

/// The value of an ASCII hexadecimal digit.
pub open spec fn hex_val(b: u8) -> u8 {
    if 48 <= b <= 57 {
        (b - 48) as u8
    } else if 97 <= b <= 102 {
        (b - 87) as u8
    } else {
        (b - 55) as u8
    }
}

/// Percent-decoding: `'+'` becomes a space, `%XX` the byte `XX`; a `'%'` not
/// followed by two hexadecimal digits makes the whole piece malformed.
pub open spec fn percent_decode_spec(s: Seq<u8>) -> Option<Seq<u8>>
    decreases s.len(),
{
    if s.len() == 0 {
        Some(Seq::empty())
    } else if s[0] == 43 {  // '+'
        match percent_decode_spec(s.drop_first()) {
            Some(r) => Some(seq![32u8] + r),
            None => None,
        }
    } else if s[0] == 37 {  // '%'
        if s.len() >= 3 && is_hex_digit(s[1]) && is_hex_digit(s[2]) {
            match percent_decode_spec(s.skip(3)) {
                Some(r) => Some(seq![(hex_val(s[1]) * 16 + hex_val(s[2])) as u8] + r),
                None => None,
            }
        } else {
            None
        }
    } else {
        match percent_decode_spec(s.drop_first()) {
            Some(r) => Some(seq![s[0]] + r),
            None => None,
        }
    }
}

/// Whether `b` is an ASCII hexadecimal digit, and its value.
fn hex_digit(b: u8) -> (r: Option<u8>)
    ensures
        r is Some <==> is_hex_digit(b),
        r is Some ==> r->0 == hex_val(b),
{
    if 48 <= b && b <= 57 {
        Some(b - 48)
    } else if 97 <= b && b <= 102 {
        Some(b - 87)
    } else if 65 <= b && b <= 70 {
        Some(b - 55)
    } else {
        None
    }
}

/// Percent-decode one piece of a form body.
pub fn percent_decode(v: &Vec<u8>) -> (r: Option<Vec<u8>>)
    ensures
        r.deep_view() == percent_decode_spec(v@),
{
    let mut out: Vec<u8> = Vec::new();
    let mut i: usize = 0;
    let n = v.len();
    proof {
        assert(v@.skip(0) =~= v@);
        assert(forall|r: Seq<u8>| Seq::<u8>::empty() + r =~= r);
    }
    while i < n
        invariant
            0 <= i <= n,
            n == v@.len(),
            percent_decode_spec(v@) == match percent_decode_spec(v@.skip(i as int)) {
                Some(r) => Some(out@ + r),
                None => None::<Seq<u8>>,
            },
        decreases n - i,
    {
        let ghost rest = v@.skip(i as int);
        proof {
            assert(rest[0] == v@[i as int]);
            assert(rest.drop_first() =~= v@.skip(i as int + 1));
        }
        let b = v[i];
        if b == 43 {
            let ghost oldout = out@;
            out.push(32);
            proof {
                assert(forall|r: Seq<u8>| oldout + (seq![32u8] + r) =~= (oldout.push(32u8)) + r);
            }
            i += 1;
        } else if b == 37 {
            if n - i >= 3 {
                proof {
                    assert(rest.len() >= 3);
                    assert(rest[1] == v@[i as int + 1]);
                    assert(rest[2] == v@[i as int + 2]);
                    assert(rest.skip(3) =~= v@.skip(i as int + 3));
                }
                let h1 = hex_digit(v[i + 1]);
                let h2 = hex_digit(v[i + 2]);
                match (h1, h2) {
                    (Some(a), Some(c)) => {
                        let ghost oldout = out@;
                        out.push(a * 16 + c);
                        proof {
                            let ghost byte = (hex_val(rest[1]) * 16 + hex_val(rest[2])) as u8;
                            assert(forall|r: Seq<u8>|
                                oldout + (seq![byte] + r) =~= (oldout.push(byte)) + r);
                        }
                        i += 3;
                    },
                    _ => {
                        return None;
                    },
                }
            } else {
                return None;
            }
        } else {
            let ghost oldout = out@;
            out.push(b);
            proof {
                assert(forall|r: Seq<u8>| oldout + (seq![v@[i as int]] + r) =~= (oldout.push(
                    v@[i as int],
                )) + r);
            }
            i += 1;
        }
    }
    proof {
        assert(v@.skip(n as int) =~= Seq::<u8>::empty());
        assert(out@ + Seq::<u8>::empty() =~= out@);
    }
    Some(out)
}

/// One form entry, split at its first `'='` (absent: the whole entry is the
/// name, the value is empty), each piece percent-decoded and read as UTF-8.
pub open spec fn form_entry_spec(e: Seq<u8>) -> Option<(Seq<char>, Seq<char>)> {
    let nb = match find_byte_spec(e, 61, 0) {
        Some(i) => e.take(i),
        None => e,
    };
    let vb = match find_byte_spec(e, 61, 0) {
        Some(i) => e.skip(i + 1),
        None => Seq::empty(),
    };
    match (percent_decode_spec(nb), percent_decode_spec(vb)) {
        (Some(n), Some(v)) => if valid_utf8(n) && valid_utf8(v) {
            Some((decode_utf8(n), decode_utf8(v)))
        } else {
            None
        },
        _ => None,
    }
}

/// All form entries in order; one malformed entry makes the body malformed.
pub open spec fn form_entries_spec(es: Seq<Seq<u8>>) -> Option<PairSeq>
    decreases es.len(),
{
    if es.len() == 0 {
        Some(Seq::empty())
    } else {
        match (form_entry_spec(es[0]), form_entries_spec(es.drop_first())) {
            (Some(p), Some(r)) => Some(seq![p] + r),
            _ => None,
        }
    }
}

/// The name/value pairs of a URL-encoded form body.
pub open spec fn form_parse_spec(b: Seq<u8>) -> Option<PairSeq> {
    form_entries_spec(split_bytes_spec(b, 38))
}

/// Decode one form entry.
fn form_entry(e: &Vec<u8>) -> (r: Option<(String, String)>)
    ensures
        match r {
            Some(p) => form_entry_spec(e@) == Some((p.0@, p.1@)),
            None => form_entry_spec(e@) is None,
        },
{
    let el = e.len();
    let (nb, vb) = match find_byte(e, 61) {
        Some(i) => {
            proof {
                crate::bytesutil::lemma_find_byte_in_range(e@, 61, 0);
                assert(e@.subrange(0, i as int) =~= e@.take(i as int));
                assert(e@.subrange(i as int + 1, el as int) =~= e@.skip(i as int + 1));
            }
            (bytes_range(e, 0, i), bytes_range(e, i + 1, el))
        },
        None => {
            let empty: Vec<u8> = Vec::new();
            proof {
                assert(e@.subrange(0, el as int) =~= e@);
                assert(empty@ =~= Seq::<u8>::empty());
            }
            (bytes_range(e, 0, el), empty)
        },
    };
    let dn = percent_decode(&nb);
    let dv = percent_decode(&vb);
    match (dn, dv) {
        (Some(n), Some(v)) => {
            proof {
                assert(n.deep_view() =~= n@);
                assert(v.deep_view() =~= v@);
            }
            let ns = crate::message::bytes_to_string_vec(&n);
            let vs = crate::message::bytes_to_string_vec(&v);
            match (ns, vs) {
                (Some(a), Some(b)) => Some((a, b)),
                _ => None,
            }
        },
        _ => None,
    }
}

/// Decode a URL-encoded form body into its name/value pairs.
pub fn form_parse(body: &Vec<u8>) -> (r: Option<Vec<(String, String)>>)
    ensures
        r matches Some(v) ==> form_parse_spec(body@) == Some(v.deep_view()),
        r is None ==> form_parse_spec(body@) is None,
{
    let entries = split_bytes(body, 38);
    let ghost ev = entries.deep_view();
    let mut out: Vec<(String, String)> = Vec::new();
    let mut i: usize = 0;
    proof {
        assert(ev.skip(0) =~~= ev);
        assert(forall|r: PairSeq| Seq::<(Seq<char>, Seq<char>)>::empty() + r =~~= r);
        assert(out.deep_view() =~~= Seq::<(Seq<char>, Seq<char>)>::empty());
    }
    while i < entries.len()
        invariant
            0 <= i <= entries.len(),
            ev == entries.deep_view(),
            ev.len() == entries.len(),
            ev == split_bytes_spec(body@, 38),
            form_entries_spec(ev) == match form_entries_spec(ev.skip(i as int)) {
                Some(r) => Some(out.deep_view() + r),
                None => None::<PairSeq>,
            },
        decreases entries.len() - i,
    {
        proof {
            assert(ev.skip(i as int)[0] == ev[i as int]);
            assert(ev.skip(i as int).drop_first() =~~= ev.skip(i as int + 1));
            assert(ev[i as int] == entries[i as int]@);
        }
        match form_entry(&entries[i]) {
            Some(p) => {
                let ghost oldout = out.deep_view();
                let ghost pv = (p.0@, p.1@);
                out.push(p);
                proof {
                    assert(out.deep_view() =~~= oldout.push(pv));
                    assert(forall|r: PairSeq| oldout + (seq![pv] + r) =~~= (oldout.push(pv)) + r);
                }
            },
            None => {
                return None;
            },
        }
        i += 1;
    }
    proof {
        assert(ev.skip(entries.len() as int) =~~= Seq::<Seq<u8>>::empty());
        assert(out.deep_view() + Seq::<(Seq<char>, Seq<char>)>::empty() =~~= out.deep_view());
    }
    Some(out)
}

/// Leading spaces dropped.
pub open spec fn trim_spaces_spec(s: Seq<u8>) -> Seq<u8>
    decreases s.len(),
{
    if s.len() > 0 && s[0] == 32 {
        trim_spaces_spec(s.drop_first())
    } else {
        s
    }
}

/// One cookie entry: leading spaces dropped, split at the first `'='`; `None`
/// where there is no `'='`, the name is empty, or a piece is not UTF-8.
pub open spec fn cookie_entry_spec(e: Seq<u8>) -> Option<(Seq<char>, Seq<char>)> {
    let t = trim_spaces_spec(e);
    match find_byte_spec(t, 61, 0) {
        None => None,
        Some(i) => if i == 0 || !valid_utf8(t.take(i)) || !valid_utf8(t.skip(i + 1)) {
            None
        } else {
            Some((decode_utf8(t.take(i)), decode_utf8(t.skip(i + 1))))
        },
    }
}

/// All well-formed cookie entries, in order; malformed entries are skipped.
pub open spec fn cookie_entries_spec(es: Seq<Seq<u8>>) -> PairSeq
    decreases es.len(),
{
    if es.len() == 0 {
        Seq::empty()
    } else {
        match cookie_entry_spec(es[0]) {
            Some(p) => seq![p] + cookie_entries_spec(es.drop_first()),
            None => cookie_entries_spec(es.drop_first()),
        }
    }
}

/// The name/value pairs of a `Cookie` header value, given as bytes.
pub open spec fn cookie_parse_spec(b: Seq<u8>) -> PairSeq {
    cookie_entries_spec(split_bytes_spec(b, 59))
}

/// Decode one cookie entry.
fn cookie_entry(e: &Vec<u8>) -> (r: Option<(String, String)>)
    ensures
        match r {
            Some(p) => cookie_entry_spec(e@) == Some((p.0@, p.1@)),
            None => cookie_entry_spec(e@) is None,
        },
{
    let mut j: usize = 0;
    proof {
        assert(e@.skip(0) =~= e@);
    }
    while j < e.len() && e[j] == 32
        invariant
            0 <= j <= e@.len(),
            trim_spaces_spec(e@) == trim_spaces_spec(e@.skip(j as int)),
        decreases e@.len() - j,
    {
        proof {
            assert(e@.skip(j as int)[0] == e@[j as int]);
            assert(e@.skip(j as int).drop_first() =~= e@.skip(j as int + 1));
        }
        j += 1;
    }
    proof {
        if j < e@.len() {
            assert(e@.skip(j as int)[0] == e@[j as int]);
        }
        assert(trim_spaces_spec(e@.skip(j as int)) == e@.skip(j as int));
    }
    let t = bytes_range(e, j, e.len());
    proof {
        assert(e@.subrange(j as int, e@.len() as int) =~= e@.skip(j as int));
    }
    match find_byte(&t, 61) {
        None => None,
        Some(i) => {
            if i == 0 {
                return None;
            }
            proof {
                crate::bytesutil::lemma_find_byte_in_range(t@, 61, 0);
            }
            let nb = bytes_range(&t, 0, i);
            let vb = bytes_range(&t, i + 1, t.len());
            proof {
                assert(t@.subrange(0, i as int) =~= t@.take(i as int));
                assert(t@.subrange(i as int + 1, t@.len() as int) =~= t@.skip(i as int + 1));
            }
            let ns = crate::message::bytes_to_string_vec(&nb);
            let vs = crate::message::bytes_to_string_vec(&vb);
            match (ns, vs) {
                (Some(a), Some(b)) => Some((a, b)),
                _ => None,
            }
        },
    }
}

/// Decode a `Cookie` header value into its name/value pairs.
pub fn cookie_parse(b: &Vec<u8>) -> (r: Vec<(String, String)>)
    ensures
        r.deep_view() == cookie_parse_spec(b@),
{
    let entries = split_bytes(b, 59);
    let ghost ev = entries.deep_view();
    let mut out: Vec<(String, String)> = Vec::new();
    let mut i: usize = 0;
    proof {
        assert(ev.skip(0) =~~= ev);
        assert(out.deep_view() + cookie_entries_spec(ev) =~~= cookie_entries_spec(ev));
    }
    while i < entries.len()
        invariant
            0 <= i <= entries.len(),
            ev == entries.deep_view(),
            ev.len() == entries.len(),
            ev == split_bytes_spec(b@, 59),
            cookie_entries_spec(ev) == out.deep_view() + cookie_entries_spec(ev.skip(i as int)),
        decreases entries.len() - i,
    {
        proof {
            assert(ev.skip(i as int)[0] == ev[i as int]);
            assert(ev.skip(i as int).drop_first() =~~= ev.skip(i as int + 1));
            assert(ev[i as int] == entries[i as int]@);
        }
        match cookie_entry(&entries[i]) {
            Some(p) => {
                let ghost oldout = out.deep_view();
                let ghost pv = (p.0@, p.1@);
                out.push(p);
                proof {
                    assert(out.deep_view() =~~= oldout.push(pv));
                    assert(oldout + (seq![pv] + cookie_entries_spec(ev.skip(i as int + 1))) =~~= (
                    oldout.push(pv)) + cookie_entries_spec(ev.skip(i as int + 1)));
                }
            },
            None => {
            },
        }
        i += 1;
    }
    proof {
        assert(ev.skip(entries.len() as int) =~~= Seq::<Seq<u8>>::empty());
        assert(out.deep_view() + cookie_entries_spec(Seq::<Seq<u8>>::empty()) =~~= out.deep_view());
    }
    out
}

} // verus!
