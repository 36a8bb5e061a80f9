//! Splitting URL paths into `/`-separated segments.
//!
//! [`spec_split`] is the mathematical splitting function: it always yields at
//! least one segment, and an empty input yields exactly one empty segment.
//! [`split_slashes`] is the executable counterpart. Parsers and the endpoint
//! arity check both measure paths with these functions.

use vstd::prelude::*;

verus! {

/// The segments of `s` split at every `'/'`. Always non-empty; the empty
/// sequence splits into one empty segment.
pub open spec fn spec_split(s: Seq<char>) -> Seq<Seq<char>>
    decreases s.len(),
{
    if s.len() == 0 {
        seq![Seq::<char>::empty()]
    } else if s[0] == '/' {
        seq![Seq::<char>::empty()] + spec_split(s.skip(1))
    } else {
        let rest = spec_split(s.skip(1));
        seq![seq![s[0]] + rest[0]] + rest.skip(1)
    }
}

/// The number of `/`-separated segments a path consumes: none for the empty
/// path, otherwise the segment count of the split.
pub open spec fn spec_arity(path: Seq<char>) -> int {
    if path.len() == 0 {
        0
    } else {
        spec_split(path).len() as int
    }
}

/// No `'/'` occurs in `t`.
pub open spec fn slash_free(t: Seq<char>) -> bool {
    forall|j: int| 0 <= j < t.len() ==> t[j] != '/'
}

/// Splitting always yields at least one segment.
pub proof fn lemma_split_len(s: Seq<char>)
    ensures
        spec_split(s).len() >= 1,
    decreases s.len(),
{
    if s.len() == 0 {
    } else {
        lemma_split_len(s.skip(1));
    }
}

/// A slash-free string is its own single segment.
pub proof fn lemma_split_slash_free(u: Seq<char>)
    requires
        slash_free(u),
    ensures
        spec_split(u) == seq![u],
    decreases u.len(),
{
    if u.len() == 0 {
        assert(spec_split(u) =~~= seq![u]);
    } else {
        assert(u[0] != '/');
        assert(slash_free(u.skip(1))) by {
            assert forall|j: int| 0 <= j < u.skip(1).len() implies u.skip(1)[j] != '/' by {
                assert(u.skip(1)[j] == u[j + 1]);
            }
        }
        lemma_split_slash_free(u.skip(1));
        assert(seq![u[0]] + u.skip(1) =~= u);
        assert(spec_split(u) =~~= seq![u]);
    }
}

/// Splitting `u ++ "/" ++ v` for slash-free `u` yields `u` followed by the
/// segments of `v`.
pub proof fn lemma_split_at_slash(u: Seq<char>, v: Seq<char>)
    requires
        slash_free(u),
    ensures
        spec_split(u + seq!['/'] + v) == seq![u] + spec_split(v),
    decreases u.len(),
{
    let s = u + seq!['/'] + v;
    if u.len() == 0 {
        assert(s[0] == '/');
        assert(s.skip(1) =~= v);
        assert(spec_split(s) =~~= seq![u] + spec_split(v));
    } else {
        assert(s[0] == u[0]);
        assert(u[0] != '/');
        assert(slash_free(u.skip(1))) by {
            assert forall|j: int| 0 <= j < u.skip(1).len() implies u.skip(1)[j] != '/' by {
                assert(u.skip(1)[j] == u[j + 1]);
            }
        }
        lemma_split_at_slash(u.skip(1), v);
        assert(s.skip(1) =~= u.skip(1) + seq!['/'] + v);
        let rest = spec_split(s.skip(1));
        assert(rest == seq![u.skip(1)] + spec_split(v));
        assert(rest[0] == u.skip(1));
        assert(seq![s[0]] + rest[0] =~= u);
        assert(seq![seq![s[0]] + rest[0]] =~~= seq![u]);
        assert(rest.skip(1) =~~= spec_split(v));
        lemma_split_len(v);
        assert(spec_split(s) =~~= seq![u] + spec_split(v));
    }
}

/// Splits `s` at every `'/'`, yielding the segments in order.
pub fn split_slashes(s: &str) -> (r: Vec<String>)
    ensures
        r.deep_view() == spec_split(s@),
        r@.len() >= 1,
{
    let n = s.unicode_len();
    let mut segs: Vec<String> = Vec::new();
    proof {
        assert(s@.skip(0) =~= s@);
        assert(segs.deep_view() =~~= Seq::<Seq<char>>::empty());
        assert(segs.deep_view() + spec_split(s@) =~~= spec_split(s@));
    }
    let mut start: usize = 0;
    let mut i: usize = 0;
    while i < n
        invariant
            n == s@.len(),
            0 <= start <= i <= n,
            slash_free(s@.subrange(start as int, i as int)),
            spec_split(s@) == segs.deep_view() + spec_split(s@.skip(start as int)),
            segs@.len() == segs.deep_view().len(),
        decreases n - i,
    {
        let c = s.get_char(i);
        if c == '/' {
            let seg = s.substring_char(start, i).to_owned();
            proof {
                let u = s@.subrange(start as int, i as int);
                let v = s@.skip(i as int + 1);
                assert(s@.skip(start as int) =~= u + seq!['/'] + v);
                lemma_split_at_slash(u, v);
                assert(seg@ == u);
            }
            let ghost segs_pre = segs.deep_view();
            segs.push(seg);
            proof {
                assert(segs.deep_view() =~~= segs_pre + seq![s@.subrange(start as int, i as int)]);
                assert(segs.deep_view() + spec_split(s@.skip(i as int + 1)) =~~= segs_pre + (seq![
                    s@.subrange(start as int, i as int),
                ] + spec_split(s@.skip(i as int + 1))));
                assert(segs_pre + (seq![s@.subrange(start as int, i as int)] + spec_split(
                    s@.skip(i as int + 1),
                )) =~~= (segs_pre + seq![s@.subrange(start as int, i as int)]) + spec_split(
                    s@.skip(i as int + 1),
                ));
            }
            start = i + 1;
        } else {
            proof {
                let t = s@.subrange(start as int, i as int + 1);
                assert forall|j: int| 0 <= j < t.len() implies t[j] != '/' by {
                    if j < t.len() - 1 {
                        assert(t[j] == s@.subrange(start as int, i as int)[j]);
                    } else {
                        assert(t[j] == s@[i as int]);
                    }
                }
            }
        }
        i = i + 1;
    }
    let last = s.substring_char(start, n).to_owned();
    proof {
        let u = s@.subrange(start as int, n as int);
        assert(u =~= s@.skip(start as int));
        lemma_split_slash_free(u);
        assert(last@ == u);
    }
    let ghost segs_pre = segs.deep_view();
    segs.push(last);
    proof {
        assert(segs.deep_view() =~~= segs_pre + seq![s@.skip(start as int)]);
        assert(segs_pre + seq![s@.skip(start as int)] =~~= segs_pre + spec_split(
            s@.skip(start as int),
        ));
        lemma_split_len(s@);
    }
    segs
}

/// The number of `/`-separated segments in `path` past its first `skip`
/// characters: the arity a handler for that suffix must declare.
pub fn count_segments(path: &str, skip: usize) -> (r: usize)
    requires
        skip <= path@.len(),
    ensures
        r == spec_arity(path@.skip(skip as int)),
{
    let n = path.unicode_len();
    if skip == n {
        proof {
            assert(path@.skip(skip as int).len() == 0);
        }
        return 0;
    }
    let rest = path.substring_char(skip, n);
    proof {
        assert(rest@ =~= path@.skip(skip as int));
    }
    let segs = split_slashes(rest);
    proof {
        assert(segs@.len() == segs.deep_view().len());
        assert(rest@.len() > 0);
    }
    segs.len()
}

} // verus!
