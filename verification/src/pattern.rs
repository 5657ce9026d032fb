//! Path segmentation and route patterns.
//!
//! A path is split on `'/'` into non-empty segments. A pattern is an ordered
//! list of segments, each either a literal (matched exactly,
//! case-sensitively) or a named parameter (matching any single non-empty
//! segment and binding its value). Patterns of a different segment count
//! never match.

use vstd::prelude::*;

use crate::message::PairSeq;

verus! {

/// One segment of a route pattern.
pub enum Segment {
    Literal(String),
    Param(String),
}

/// Splitting `s` on `'/'`, with `cur` the partial segment read so far;
/// empty segments (leading, trailing, doubled separators) are dropped.
pub open spec fn split_rec(s: Seq<char>, cur: Seq<char>) -> Seq<Seq<char>>
    decreases s.len(),
{
    if s.len() == 0 {
        if cur.len() == 0 {
            Seq::empty()
        } else {
            seq![cur]
        }
    } else if s[0] == '/' {
        if cur.len() == 0 {
            split_rec(s.drop_first(), Seq::empty())
        } else {
            seq![cur] + split_rec(s.drop_first(), Seq::empty())
        }
    } else {
        split_rec(s.drop_first(), cur.push(s[0]))
    }
}

/// The non-empty `'/'`-separated segments of a path.
pub open spec fn split_path_spec(s: Seq<char>) -> Seq<Seq<char>> {
    split_rec(s, Seq::empty())
}

/// Split a path into its non-empty segments.
pub fn split_path(path: &str) -> (r: Vec<String>)
    ensures
        r.deep_view() == split_path_spec(path@),
{
    let n = path.unicode_len();
    let mut out: Vec<String> = Vec::new();
    let mut start: usize = 0;
    let mut i: usize = 0;
    proof {
        assert(path@.skip(0) =~= path@);
        assert(path@.subrange(0, 0) =~= Seq::<char>::empty());
        assert(out.deep_view() + split_rec(path@, Seq::empty()) =~= split_rec(
            path@,
            Seq::empty(),
        ));
    }
    while i < n
        invariant
            0 <= start <= i <= n,
            n == path@.len(),
            split_path_spec(path@) == out.deep_view() + split_rec(
                path@.skip(i as int),
                path@.subrange(start as int, i as int),
            ),
        decreases n - i,
    {
        let ghost cur = path@.subrange(start as int, i as int);
        let c = path.get_char(i);
        proof {
            assert(path@.skip(i as int)[0] == path@[i as int]);
            assert(path@.skip(i as int).drop_first() =~= path@.skip(i as int + 1));
        }
        if c == '/' {
            if i > start {
                let seg = String::from_str(path.substring_char(start, i));
                let ghost oldout = out.deep_view();
                out.push(seg);
                proof {
                    assert(out.deep_view() =~= oldout.push(cur));
                    assert(oldout.push(cur) + split_rec(path@.skip(i as int + 1), Seq::empty())
                        =~= oldout + (seq![cur] + split_rec(
                        path@.skip(i as int + 1),
                        Seq::empty(),
                    )));
                }
            }
            start = i + 1;
            proof {
                assert(path@.subrange(start as int, start as int) =~= Seq::<char>::empty());
            }
        } else {
            proof {
                assert(path@.subrange(start as int, i as int + 1) =~= cur.push(path@[i as int]));
            }
        }
        i += 1;
    }
    proof {
        assert(path@.skip(n as int) =~= Seq::<char>::empty());
    }
    if start < n {
        let seg = String::from_str(path.substring_char(start, n));
        let ghost oldout = out.deep_view();
        let ghost cur = path@.subrange(start as int, n as int);
        out.push(seg);
        proof {
            assert(out.deep_view() =~= oldout.push(cur));
            assert(oldout.push(cur) =~= oldout + seq![cur]);
        }
    }
    out
}

/// Whether one pattern segment accepts one path segment.
pub open spec fn seg_matches_spec(seg: Segment, s: Seq<char>) -> bool {
    match seg {
        Segment::Literal(l) => l@ == s,
        Segment::Param(_) => s.len() > 0,
    }
}

/// Whether a pattern accepts a segmented path: same segment count, and every
/// pattern segment accepts the path segment at its position.
pub open spec fn pattern_matches_spec(pat: Seq<Segment>, segs: Seq<Seq<char>>) -> bool {
    &&& pat.len() == segs.len()
    &&& forall|i: int| 0 <= i < pat.len() ==> seg_matches_spec(#[trigger] pat[i], segs[i])
}

/// The parameters a matching pattern binds: for every parameter segment, in
/// pattern order, the pair of its declared name and the path segment standing
/// at its position.
pub open spec fn bind_params_spec(pat: Seq<Segment>, segs: Seq<Seq<char>>) -> PairSeq
    decreases pat.len(),
{
    if pat.len() == 0 || segs.len() == 0 {
        Seq::empty()
    } else {
        let rest = bind_params_spec(pat.drop_first(), segs.drop_first());
        match pat[0] {
            Segment::Param(n) => seq![(n@, segs[0])] + rest,
            Segment::Literal(_) => rest,
        }
    }
}

/// What position `i` adds to the bound parameters.
pub proof fn lemma_bind_take(pat: Seq<Segment>, segs: Seq<Seq<char>>, i: int)
    requires
        0 <= i < pat.len(),
        i < segs.len(),
    ensures
        bind_params_spec(pat.take(i + 1), segs.take(i + 1)) == bind_params_spec(
            pat.take(i),
            segs.take(i),
        ) + (match pat[i] {
            Segment::Param(n) => seq![(n@, segs[i])],
            Segment::Literal(_) => Seq::<(Seq<char>, Seq<char>)>::empty(),
        }),
    decreases i,
{
    let l = bind_params_spec(pat.take(i + 1), segs.take(i + 1));
    if i == 0 {
        assert(pat.take(1).drop_first() =~= pat.take(0));
        assert(segs.take(1).drop_first() =~= segs.take(0));
        assert(pat.take(1)[0] == pat[0]);
        assert(segs.take(1)[0] == segs[0]);
        assert(pat.take(1).len() == 1 && segs.take(1).len() == 1);
        assert(bind_params_spec(pat.take(0), segs.take(0)) =~= Seq::<(
            Seq<char>,
            Seq<char>,
        )>::empty());
        match pat[0] {
            Segment::Param(n) => {
                assert(l =~= seq![(n@, segs[0])]);
                assert(bind_params_spec(pat.take(0), segs.take(0)) + seq![(n@, segs[0])] =~= seq![
                    (n@, segs[0]),
                ]);
            },
            Segment::Literal(_) => {
                assert(l =~= Seq::<(Seq<char>, Seq<char>)>::empty());
            },
        }
    } else {
        lemma_bind_take(pat.drop_first(), segs.drop_first(), i - 1);
        assert(pat.take(i + 1).drop_first() =~= pat.drop_first().take(i));
        assert(segs.take(i + 1).drop_first() =~= segs.drop_first().take(i));
        assert(pat.take(i).drop_first() =~= pat.drop_first().take(i - 1));
        assert(segs.take(i).drop_first() =~= segs.drop_first().take(i - 1));
        assert(pat.drop_first()[i - 1] == pat[i]);
        assert(segs.drop_first()[i - 1] == segs[i]);
        match pat[0] {
            Segment::Param(n) => {
                assert(l == seq![(n@, segs[0])] + bind_params_spec(
                    pat.drop_first().take(i),
                    segs.drop_first().take(i),
                ));
                assert(bind_params_spec(pat.take(i), segs.take(i)) == seq![(n@, segs[0])]
                    + bind_params_spec(pat.drop_first().take(i - 1), segs.drop_first().take(i - 1)));
                match pat[i] {
                    Segment::Param(m) => {
                        assert(l =~= bind_params_spec(pat.take(i), segs.take(i)) + seq![
                            (m@, segs[i]),
                        ]);
                    },
                    Segment::Literal(_) => {
                        assert(l =~= bind_params_spec(pat.take(i), segs.take(i)));
                    },
                }
            },
            Segment::Literal(_) => {
                assert(l == bind_params_spec(pat.drop_first().take(i), segs.drop_first().take(i)));
                match pat[i] {
                    Segment::Param(m) => {
                        assert(l =~= bind_params_spec(pat.take(i), segs.take(i)) + seq![
                            (m@, segs[i]),
                        ]);
                    },
                    Segment::Literal(_) => {
                        assert(l =~= bind_params_spec(pat.take(i), segs.take(i)));
                    },
                }
            },
        }
    }
}

/// Match a pattern against segmented path, binding parameter values.
/// Returns the bound parameters exactly when the pattern accepts the path.
pub fn match_pattern(pat: &Vec<Segment>, segs: &Vec<String>) -> (r: Option<Vec<(String, String)>>)
    ensures
        r is Some <==> pattern_matches_spec(pat@, segs.deep_view()),
        r is Some ==> r->0.deep_view() == bind_params_spec(pat@, segs.deep_view()),
{
    let ghost sv = segs.deep_view();
    if pat.len() != segs.len() {
        return None;
    }
    let mut params: Vec<(String, String)> = Vec::new();
    let mut i: usize = 0;
    while i < pat.len()
        invariant
            0 <= i <= pat.len(),
            pat.len() == segs.len(),
            sv == segs.deep_view(),
            sv.len() == segs.len(),
            forall|j: int| 0 <= j < i ==> seg_matches_spec(#[trigger] pat@[j], sv[j]),
            params.deep_view() == bind_params_spec(pat@.take(i as int), sv.take(i as int)),
        decreases pat.len() - i,
    {
        proof {
            assert(sv[i as int] == segs[i as int]@);
        }
        match &pat[i] {
            Segment::Literal(l) => {
                if *l != segs[i] {
                    return None;
                }
            },
            Segment::Param(n) => {
                if segs[i].as_str().unicode_len() == 0 {
                    return None;
                }
                let ghost oldp = params.deep_view();
                params.push((n.clone(), segs[i].clone()));
                proof {
                    assert(params.deep_view() =~= oldp.push((n@, sv[i as int])));
                }
            },
        }
        proof {
            lemma_bind_take(pat@, sv, i as int);
            match pat@[i as int] {
                Segment::Param(n) => {
                    assert(params.deep_view() =~= bind_params_spec(
                        pat@.take(i as int),
                        sv.take(i as int),
                    ) + seq![(n@, sv[i as int])]);
                },
                Segment::Literal(_) => {},
            }
        }
        i += 1;
    }
    proof {
        assert(pat@.take(pat.len() as int) =~= pat@);
        assert(sv.take(segs.len() as int) =~= sv);
    }
    Some(params)
}

/// How a textual pattern segment reads: `{name}` declares a parameter, any
/// other segment is a literal.
pub open spec fn seg_parsed_spec(seg: Segment, s: Seq<char>) -> bool {
    if s.len() >= 2 && s[0] == '{' && s[s.len() - 1] == '}' {
        seg matches Segment::Param(n) && n@ == s.subrange(1, s.len() - 1)
    } else {
        seg matches Segment::Literal(l) && l@ == s
    }
}

/// Parse a textual pattern such as `/products/{id}` into its segments.
pub fn parse_pattern(path: &str) -> (r: Vec<Segment>)
    ensures
        r@.len() == split_path_spec(path@).len(),
        forall|i: int|
            0 <= i < r@.len() ==> seg_parsed_spec(#[trigger] r@[i], split_path_spec(path@)[i]),
{
    let ghost sv = split_path_spec(path@);
    let raw = split_path(path);
    let mut out: Vec<Segment> = Vec::new();
    let mut i: usize = 0;
    while i < raw.len()
        invariant
            0 <= i <= raw.len(),
            raw.deep_view() == sv,
            sv.len() == raw.len(),
            out@.len() == i,
            forall|j: int| 0 <= j < i ==> seg_parsed_spec(#[trigger] out@[j], sv[j]),
        decreases raw.len() - i,
    {
        proof {
            assert(sv[i as int] == raw[i as int]@);
        }
        let s = &raw[i];
        let n = s.as_str().unicode_len();
        if n >= 2 && s.as_str().get_char(0) == '{' && s.as_str().get_char(n - 1) == '}' {
            let name = String::from_str(s.as_str().substring_char(1, n - 1));
            out.push(Segment::Param(name));
        } else {
            out.push(Segment::Literal(s.clone()));
        }
        i += 1;
    }
    out
}

} // verus!
