//! Small byte-sequence helpers shared by the body decoders.

use vstd::prelude::*;

verus! {

/// Copy `v[from..to]` into an owned vector.
pub fn bytes_range(v: &Vec<u8>, from: usize, to: usize) -> (r: Vec<u8>)
    requires
        from <= to <= v@.len(),
    ensures
        r@ == v@.subrange(from as int, to as int),
{
    let s = vstd::slice::slice_subrange(v.as_slice(), from, to);
    vstd::slice::slice_to_vec(s)
}

/// Concatenate two byte vectors into a new one.
pub fn bytes_concat(a: &Vec<u8>, b: &Vec<u8>) -> (r: Vec<u8>)
    ensures
        r@ == a@ + b@,
{
    let mut out: Vec<u8> = Vec::new();
    let mut i: usize = 0;
    proof {
        assert(out@ =~= a@.take(0));
    }
    while i < a.len()
        invariant
            0 <= i <= a@.len(),
            out@ == a@.take(i as int),
        decreases a@.len() - i,
    {
        out.push(a[i]);
        proof {
            assert(out@ =~= a@.take(i as int + 1));
        }
        i += 1;
    }
    let mut j: usize = 0;
    proof {
        assert(a@.take(a@.len() as int) + b@.take(0) =~= a@.take(a@.len() as int));
    }
    while j < b.len()
        invariant
            0 <= j <= b@.len(),
            out@ == a@.take(a@.len() as int) + b@.take(j as int),
        decreases b@.len() - j,
    {
        out.push(b[j]);
        proof {
            assert(out@ =~= a@.take(a@.len() as int) + b@.take(j as int + 1));
        }
        j += 1;
    }
    proof {
        assert(a@.take(a@.len() as int) + b@.take(b@.len() as int) =~= a@ + b@);
    }
    out
}

/// The first position at or after `from` where byte `b` stands.
pub open spec fn find_byte_spec(s: Seq<u8>, b: u8, from: int) -> Option<int>
    decreases s.len() - from,
{
    if from < 0 || from >= s.len() {
        None
    } else if s[from] == b {
        Some(from)
    } else {
        find_byte_spec(s, b, from + 1)
    }
}

/// Find the first occurrence of byte `b` in `v`.
pub fn find_byte(v: &Vec<u8>, b: u8) -> (r: Option<usize>)
    ensures
        match r {
            Some(i) => find_byte_spec(v@, b, 0) == Some(i as int),
            None => find_byte_spec(v@, b, 0) is None,
        },
{
    let mut i: usize = 0;
    while i < v.len()
        invariant
            0 <= i <= v@.len(),
            find_byte_spec(v@, b, 0) == find_byte_spec(v@, b, i as int),
        decreases v@.len() - i,
    {
        if v[i] == b {
            return Some(i);
        }
        i += 1;
    }
    None
}

/// A found byte position lies in range and carries the byte.
pub proof fn lemma_find_byte_in_range(s: Seq<u8>, b: u8, from: int)
    ensures
        find_byte_spec(s, b, from) matches Some(i) ==> from <= i < s.len() && s[i] == b,
    decreases s.len() - from,
{
    if !(from < 0 || from >= s.len()) && s[from] != b {
        lemma_find_byte_in_range(s, b, from + 1);
    }
}

/// The first position at or after `from` where `n` occurs as a contiguous
/// subsequence of `h`.
pub open spec fn find_sub_spec(h: Seq<u8>, n: Seq<u8>, from: int) -> Option<int>
    decreases h.len() - from,
{
    if from < 0 || n.len() == 0 || from + n.len() > h.len() {
        None
    } else if h.subrange(from, from + n.len()) == n {
        Some(from)
    } else {
        find_sub_spec(h, n, from + 1)
    }
}

/// Whether `n` occurs in `h` starting exactly at `at`.
pub fn sub_matches_at(h: &Vec<u8>, n: &Vec<u8>, at: usize) -> (r: bool)
    requires
        at + n@.len() <= h@.len(),
    ensures
        r == (h@.subrange(at as int, at as int + n@.len() as int) == n@),
{
    let hl = h.len();
    let nl = n.len();
    let mut j: usize = 0;
    while j < nl
        invariant
            0 <= j <= nl,
            nl == n@.len(),
            hl == h@.len(),
            at + nl <= hl,
            forall|k: int| 0 <= k < j ==> h@[at + k] == n@[k],
        decreases nl - j,
    {
        if h[at + j] != n[j] {
            proof {
                assert(h@.subrange(at as int, at as int + n@.len() as int)[j as int] == h@[at + j]);
            }
            return false;
        }
        j += 1;
    }
    proof {
        assert(h@.subrange(at as int, at as int + n@.len() as int) =~= n@);
    }
    true
}

/// Find the first occurrence of `n` in `h` at or after `from`.
pub fn find_sub(h: &Vec<u8>, n: &Vec<u8>, from: usize) -> (r: Option<usize>)
    ensures
        match r {
            Some(i) => find_sub_spec(h@, n@, from as int) == Some(i as int) && from <= i && i
                + n@.len() <= h@.len(),
            None => find_sub_spec(h@, n@, from as int) is None,
        },
{
    let mut i: usize = from;
    let nl = n.len();
    let hl = h.len();
    if nl == 0 || hl < nl {
        proof {
            assert(find_sub_spec(h@, n@, from as int) is None);
        }
        return None;
    }
    while i <= hl - nl
        invariant
            from <= i,
            0 < nl == n@.len(),
            hl == h@.len(),
            nl <= hl,
            find_sub_spec(h@, n@, from as int) == find_sub_spec(h@, n@, i as int),
        decreases hl - i,
    {
        if sub_matches_at(h, n, i) {
            return Some(i);
        }
        i += 1;
    }
    None
}

/// Splitting `s` on the separator, with `cur` the partial piece read so far;
/// empty pieces are dropped.
pub open spec fn split_bytes_rec(s: Seq<u8>, sep: u8, cur: Seq<u8>) -> Seq<Seq<u8>>
    decreases s.len(),
{
    if s.len() == 0 {
        if cur.len() == 0 {
            Seq::empty()
        } else {
            seq![cur]
        }
    } else if s[0] == sep {
        if cur.len() == 0 {
            split_bytes_rec(s.drop_first(), sep, Seq::empty())
        } else {
            seq![cur] + split_bytes_rec(s.drop_first(), sep, Seq::empty())
        }
    } else {
        split_bytes_rec(s.drop_first(), sep, cur.push(s[0]))
    }
}

/// The non-empty pieces of `s` between occurrences of the separator.
pub open spec fn split_bytes_spec(s: Seq<u8>, sep: u8) -> Seq<Seq<u8>> {
    split_bytes_rec(s, sep, Seq::empty())
}

/// Split `v` on the separator byte, dropping empty pieces.
pub fn split_bytes(v: &Vec<u8>, sep: u8) -> (r: Vec<Vec<u8>>)
    ensures
        r.deep_view() == split_bytes_spec(v@, sep),
{
    let mut out: Vec<Vec<u8>> = Vec::new();
    let mut cur: Vec<u8> = Vec::new();
    let mut i: usize = 0;
    proof {
        assert(v@.skip(0) =~~= v@);
        assert(out.deep_view() + split_bytes_rec(v@, sep, cur@) =~~= split_bytes_rec(
            v@,
            sep,
            Seq::empty(),
        ));
    }
    while i < v.len()
        invariant
            0 <= i <= v@.len(),
            split_bytes_spec(v@, sep) == out.deep_view() + split_bytes_rec(
                v@.skip(i as int),
                sep,
                cur@,
            ),
        decreases v@.len() - i,
    {
        proof {
            assert(v@.skip(i as int)[0] == v@[i as int]);
            assert(v@.skip(i as int).drop_first() =~~= v@.skip(i as int + 1));
        }
        let b = v[i];
        if b == sep {
            if cur.len() == 0 {
                proof {
                    assert(cur@ =~~= Seq::<u8>::empty());
                }
            } else {
                let ghost oldout = out.deep_view();
                let ghost curv = cur@;
                out.push(cur);
                cur = Vec::new();
                proof {
                    assert(out.deep_view() =~~= oldout.push(curv));
                    assert(oldout.push(curv) + split_bytes_rec(
                        v@.skip(i as int + 1),
                        sep,
                        Seq::empty(),
                    ) =~~= oldout + (seq![curv] + split_bytes_rec(
                        v@.skip(i as int + 1),
                        sep,
                        Seq::empty(),
                    )));
                }
            }
        } else {
            cur.push(b);
        }
        i += 1;
    }
    proof {
        assert(v@.skip(v@.len() as int) =~~= Seq::<u8>::empty());
    }
    if cur.len() > 0 {
        let ghost oldout = out.deep_view();
        let ghost curv = cur@;
        out.push(cur);
        proof {
            assert(out.deep_view() =~~= oldout.push(curv));
            assert(oldout.push(curv) =~~= oldout + seq![curv]);
        }
    }
    out
}

} // verus!
