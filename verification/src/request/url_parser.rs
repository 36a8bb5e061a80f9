//! Typed URL parsers.
//!
//! The runtime form that a compile-time pattern frontend targets: a list of
//! declared segments, each a literal or a named parameter of a scalar kind,
//! consumed in declaration order. A parse succeeds exactly when the path
//! suffix consists of the declared number of segments and every one of them
//! matches its declaration.

use vstd::prelude::*;
use crate::request::params::{Error, Parser};
use crate::segments::{spec_split, split_slashes};

verus! {

/// The scalar type a typed parameter is parsed to.
#[derive(Clone, Copy, Debug, PartialEq, Eq, Structural)]
pub enum ScalarKind {
    /// An unsigned decimal number.
    Unsigned,
    /// The raw segment text.
    Text,
}

/// One declared segment of a typed pattern.
pub enum TypedSegment {
    /// A literal that the path segment must equal.
    Literal(String),
    /// A named parameter parsed with the given scalar kind.
    Param(String, ScalarKind),
}

/// A parsed scalar value.
#[derive(Debug, PartialEq)]
pub enum ScalarValue {
    /// An unsigned decimal number.
    Unsigned(u64),
    /// The raw segment text.
    Text(String),
}

/// The ghost value of a declared segment.
pub enum SegView {
    /// A literal segment.
    Literal(Seq<char>),
    /// A named parameter of a scalar kind.
    Param(Seq<char>, ScalarKind),
}

/// The ghost value of a parsed scalar.
pub enum ScalarView {
    /// An unsigned decimal number.
    Unsigned(u64),
    /// The raw segment text.
    Text(Seq<char>),
}

/// The ghost value of one declared segment.
pub open spec fn seg_view(s: TypedSegment) -> SegView {
    match s {
        TypedSegment::Literal(l) => SegView::Literal(l@),
        TypedSegment::Param(n, k) => SegView::Param(n@, k),
    }
}

/// The ghost value of one parsed scalar.
pub open spec fn scalar_view(v: ScalarValue) -> ScalarView {
    match v {
        ScalarValue::Unsigned(n) => ScalarView::Unsigned(n),
        ScalarValue::Text(t) => ScalarView::Text(t@),
    }
}

/// Whether `c` is a decimal digit.
pub open spec fn is_digit(c: char) -> bool {
    48 <= c as int <= 57
}

/// The value of the decimal digit string `s`.
pub open spec fn digits_val(s: Seq<char>) -> int
    decreases s.len(),
{
    if s.len() == 0 {
        0
    } else {
        digits_val(s.drop_last()) * 10 + (s.last() as int - 48)
    }
}

/// The unsigned number denoted by `s`: defined when `s` is a non-empty
/// digit string whose value fits in a `u64`.
pub open spec fn spec_parse_u64(s: Seq<char>) -> Option<u64> {
    if s.len() > 0 && (forall|j: int| 0 <= j < s.len() ==> is_digit(#[trigger] s[j]))
        && digits_val(s) <= u64::MAX {
        Some(digits_val(s) as u64)
    } else {
        None
    }
}

/// Whether the path segment `tok` satisfies the declared segment `d`.
pub open spec fn seg_matches(d: SegView, tok: Seq<char>) -> bool {
    match d {
        SegView::Literal(l) => tok == l,
        SegView::Param(_, ScalarKind::Unsigned) => spec_parse_u64(tok) is Some,
        SegView::Param(_, ScalarKind::Text) => true,
    }
}

/// A typed parse of `suffix` against the declared segments `segs`
/// succeeds exactly when this holds: an empty suffix for an empty
/// declaration, else a leading slash followed by one matching segment per
/// declaration, with none left over.
pub open spec fn typed_ok(segs: Seq<SegView>, suffix: Seq<char>) -> bool {
    if segs.len() == 0 {
        suffix.len() == 0
    } else {
        &&& suffix.len() > 0
        &&& {
            let toks = spec_split(suffix);
            &&& toks.len() == segs.len() + 1
            &&& toks[0].len() == 0
            &&& forall|i: int| 0 <= i < segs.len() ==> seg_matches(segs[i], toks[i + 1])
        }
    }
}


/// How the typed scan of declared segments against the path tokens ends.
pub enum TypedScan {
    /// Every declaration matched.
    Accepted,
    /// The path ran out of segments.
    Missing,
    /// A literal declaration disagreed: the segment found and the literal
    /// expected.
    Mismatch(Seq<char>, Seq<char>),
    /// A typed parameter failed its scalar parse: the parameter name and
    /// the segment.
    BadType(Seq<char>, Seq<char>),
}

/// Scans declarations from `i` against the tokens (offset by one for the
/// leading empty token), stopping at the first failure.
pub open spec fn typed_scan(segs: Seq<SegView>, toks: Seq<Seq<char>>, i: int) -> TypedScan
    decreases segs.len() - i,
{
    if i < 0 || i >= segs.len() {
        TypedScan::Accepted
    } else if i + 1 >= toks.len() {
        TypedScan::Missing
    } else {
        match segs[i] {
            SegView::Literal(l) => if toks[i + 1] == l {
                typed_scan(segs, toks, i + 1)
            } else {
                TypedScan::Mismatch(toks[i + 1], l)
            },
            SegView::Param(n, ScalarKind::Unsigned) => if spec_parse_u64(toks[i + 1]) is Some {
                typed_scan(segs, toks, i + 1)
            } else {
                TypedScan::BadType(n, toks[i + 1])
            },
            SegView::Param(_, ScalarKind::Text) => typed_scan(segs, toks, i + 1),
        }
    }
}

/// Which error a failed typed parse reports: a bad prefix boundary or a
/// wrong segment count is reported before the scan's first failure.
pub open spec fn typed_error_post(
    segs: Seq<SegView>,
    suffix: Seq<char>,
    r: Result<TypedParams, Error>,
) -> bool {
    if segs.len() == 0 {
        suffix.len() > 0 ==> r matches Err(Error::NotFound)
    } else if suffix.len() == 0 {
        r matches Err(Error::NotFound)
    } else {
        let toks = spec_split(suffix);
        if toks[0].len() != 0 {
            r matches Err(Error::InvalidSegment { got, expected }) && got@ == toks[0]
                && expected@.len() == 0
        } else if toks.len() != segs.len() + 1 {
            r matches Err(Error::NotFound)
        } else {
            match typed_scan(segs, toks, 0) {
                TypedScan::Accepted => r is Ok,
                TypedScan::Missing => r matches Err(Error::NotFound),
                TypedScan::Mismatch(g, x) => r matches Err(Error::InvalidSegment { got, expected })
                    && got@ == g && expected@ == x,
                TypedScan::BadType(n, t) => r matches Err(
                    Error::InvalidType { param, path, error: _ },
                ) && param@ == n && path@ == t,
            }
        }
    }
}

/// The `(name, value)` pairs that a successful typed parse of the segment
/// list `segs` against the tokens `toks` (offset by one for the leading
/// empty token) yields, for the first `i` declarations.
pub open spec fn typed_values(segs: Seq<SegView>, toks: Seq<Seq<char>>, i: int) -> Seq<
    (Seq<char>, ScalarView),
>
    decreases i,
{
    if i <= 0 {
        Seq::empty()
    } else {
        let prev = typed_values(segs, toks, i - 1);
        match segs[i - 1] {
            SegView::Literal(_) => prev,
            SegView::Param(n, ScalarKind::Unsigned) => prev.push(
                (n, ScalarView::Unsigned(spec_parse_u64(toks[i]).unwrap())),
            ),
            SegView::Param(n, ScalarKind::Text) => prev.push((n, ScalarView::Text(toks[i]))),
        }
    }
}

/// The first value recorded under `name`.
pub open spec fn find_value(vals: Seq<(Seq<char>, ScalarView)>, name: Seq<char>) -> Option<
    ScalarView,
>
    decreases vals.len(),
{
    if vals.len() == 0 {
        None
    } else if vals[0].0 == name {
        Some(vals[0].1)
    } else {
        find_value(vals.skip(1), name)
    }
}

/// The record a typed parse yields: parameter names with their parsed
/// values, in declaration order.
#[derive(Debug)]
pub struct TypedParams {
    values: Vec<(String, ScalarValue)>,
}

impl TypedParams {
    /// The recorded `(name, value)` pairs.
    pub closed spec fn spec_values(&self) -> Seq<(Seq<char>, ScalarView)> {
        self.values@.map_values(|p: (String, ScalarValue)| (p.0@, scalar_view(p.1)))
    }

    /// The first value recorded under `name`, if any.
    pub fn get(&self, name: &str) -> (r: Option<&ScalarValue>)
        ensures
            match r {
                Some(v) => find_value(self.spec_values(), name@) == Some(scalar_view(*v)),
                None => find_value(self.spec_values(), name@) is None,
            },
    {
        let owned = name.to_owned();
        let mut i: usize = 0;
        proof {
            assert(self.spec_values().skip(0) =~~= self.spec_values());
        }
        while i < self.values.len()
            invariant
                i <= self.values@.len(),
                owned@ == name@,
                self.spec_values().len() == self.values@.len(),
                find_value(self.spec_values(), name@) == find_value(
                    self.spec_values().skip(i as int),
                    name@,
                ),
            decreases self.values@.len() - i,
        {
            let (n, v) = &self.values[i];
            proof {
                assert(self.spec_values().skip(i as int)[0] == self.spec_values()[i as int]);
                assert(self.spec_values()[i as int] == (n@, scalar_view(*v)));
                assert(self.spec_values().skip(i as int).skip(1) =~~= self.spec_values().skip(
                    i as int + 1,
                ));
            }
            if *n == owned {
                return Some(v);
            }
            i = i + 1;
        }
        proof {
            assert(self.spec_values().skip(self.spec_values().len() as int).len() == 0);
        }
        None
    }
}

/// A typed parser: the declared segments, consumed in order.
pub struct TypedParser {
    segments: Vec<TypedSegment>,
    pattern: String,
}

impl TypedParser {
    /// The ghost values of the declared segments.
    pub closed spec fn spec_segs(&self) -> Seq<SegView> {
        self.segments@.map_values(|s: TypedSegment| seg_view(s))
    }

    /// A parser for the given declarations, displaying `pattern` in
    /// diagnostics.
    pub fn new(segments: Vec<TypedSegment>, pattern: String) -> (p: Self)
        ensures
            p.spec_segs() == segments@.map_values(|s: TypedSegment| seg_view(s)),
            p.spec_pattern() == pattern@,
            p.spec_expected() == segments@.len(),
    {
        TypedParser { segments, pattern }
    }
}

/// Parses a non-empty decimal digit string to the number it denotes;
/// anything else, including overflow, yields `None`.
pub fn parse_u64(s: &str) -> (r: Option<u64>)
    ensures
        r == spec_parse_u64(s@),
{
    let n = s.unicode_len();
    if n == 0 {
        return None;
    }
    let mut acc: u64 = 0;
    let mut i: usize = 0;
    proof {
        assert(s@.take(0).len() == 0);
    }
    while i < n
        invariant
            n == s@.len(),
            0 < n,
            i <= n,
            forall|j: int| 0 <= j < i ==> is_digit(#[trigger] s@[j]),
            acc == digits_val(s@.take(i as int)),
        decreases n - i,
    {
        let c = s.get_char(i);
        let cv = c as u32;
        if !(48 <= cv && cv <= 57) {
            proof {
                assert(!is_digit(s@[i as int]));
            }
            return None;
        }
        let d: u64 = (cv - 48) as u64;
        if acc > (u64::MAX - d) / 10 {
            proof {
                assert(digits_val(s@.take(i as int + 1)) > u64::MAX) by {
                    assert(s@.take(i as int + 1).drop_last() =~= s@.take(i as int));
                    assert(s@.take(i as int + 1).last() == s@[i as int]);
                    assert(acc * 10 + d > u64::MAX) by (nonlinear_arith)
                        requires
                            acc > (u64::MAX - d) / 10,
                            d <= 9,
                    ;
                }
                if forall|j: int| 0 <= j < s@.len() ==> is_digit(#[trigger] s@[j]) {
                    lemma_digits_val_monotone(s@, i as int + 1);
                }
                assert(spec_parse_u64(s@) is None);
            }
            return None;
        }
        proof {
            assert(acc * 10 + d <= u64::MAX) by (nonlinear_arith)
                requires
                    acc <= (u64::MAX - d) / 10,
                    d <= 9,
            ;
            assert(s@.take(i as int + 1).drop_last() =~= s@.take(i as int));
            assert(s@.take(i as int + 1).last() == s@[i as int]);
        }
        acc = acc * 10 + d;
        i = i + 1;
    }
    proof {
        assert(s@.take(n as int) =~= s@);
    }
    Some(acc)
}

/// The value of an all-digit string is never negative.
proof fn lemma_digits_val_nonneg(s: Seq<char>)
    requires
        forall|j: int| 0 <= j < s.len() ==> is_digit(#[trigger] s[j]),
    ensures
        digits_val(s) >= 0,
    decreases s.len(),
{
    if s.len() > 0 {
        assert forall|j: int| 0 <= j < s.drop_last().len() implies is_digit(
            #[trigger] s.drop_last()[j],
        ) by {
            assert(s.drop_last()[j] == s[j]);
        }
        lemma_digits_val_nonneg(s.drop_last());
        assert(s.last() as int >= 48);
    }
}

/// The value of an all-digit string never shrinks as more digits are
/// appended.
proof fn lemma_digits_val_monotone(s: Seq<char>, i: int)
    requires
        0 <= i <= s.len(),
        forall|j: int| 0 <= j < s.len() ==> is_digit(#[trigger] s[j]),
    ensures
        digits_val(s) >= digits_val(s.take(i)),
    decreases s.len() - i,
{
    if i == s.len() {
        assert(s.take(i) =~= s);
    } else {
        assert(s.take(i + 1).drop_last() =~= s.take(i));
        assert forall|j: int| 0 <= j < s.take(i).len() implies is_digit(
            #[trigger] s.take(i)[j],
        ) by {
            assert(s.take(i)[j] == s[j]);
        }
        lemma_digits_val_nonneg(s.take(i));
        assert(digits_val(s.take(i + 1)) >= digits_val(s.take(i))) by {
            assert(digits_val(s.take(i + 1)) == digits_val(s.take(i)) * 10 + (s.take(i + 1).last()
                as int - 48));
            assert(s.take(i + 1).last() == s[i]);
            assert(s[i] as int >= 48);
            assert(digits_val(s.take(i)) * 10 >= digits_val(s.take(i))) by (nonlinear_arith)
                requires
                    digits_val(s.take(i)) >= 0,
            ;
        }
        lemma_digits_val_monotone(s, i + 1);
    }
}

impl Parser for TypedParser {
    type Params = TypedParams;

    closed spec fn spec_expected(&self) -> int {
        self.segments@.len() as int
    }

    closed spec fn spec_pattern(&self) -> Seq<char> {
        self.pattern@
    }

    open spec fn parse_post(&self, suffix: Seq<char>, r: Result<TypedParams, Error>) -> bool {
        &&& (r is Ok <==> typed_ok(self.spec_segs(), suffix))
        &&& (r matches Ok(tp) ==> tp.spec_values() == typed_values(
            self.spec_segs(),
            spec_split(suffix),
            self.spec_segs().len() as int,
        ))
        &&& typed_error_post(self.spec_segs(), suffix, r)
    }

    fn expected_params(&self) -> (r: (usize, String)) {
        (self.segments.len(), self.pattern.clone())
    }

    fn parse(&self, path: &str, skip: usize) -> (r: Result<TypedParams, Error>) {
        let n = path.unicode_len();
        let sub = path.substring_char(skip, n);
        let ghost suffix = path@.skip(skip as int);
        proof {
            assert(sub@ =~= suffix);
        }
        let ghost segsv = self.spec_segs();
        if self.segments.len() == 0 {
            if sub.is_empty() {
                let tp = TypedParams { values: Vec::new() };
                proof {
                    assert(tp.spec_values() =~~= typed_values(
                        segsv,
                        spec_split(suffix),
                        segsv.len() as int,
                    ));
                }
                return Ok(tp);
            }
            return Err(Error::NotFound);
        }
        if sub.is_empty() {
            proof {
                assert(!typed_ok(segsv, suffix));
            }
            return Err(Error::NotFound);
        }
        let toks = split_slashes(sub);
        let ghost tv = spec_split(suffix);
        let first = &toks[0];
        if !first.as_str().is_empty() {
            proof {
                assert(tv[0].len() != 0);
                assert(!typed_ok(segsv, suffix));
            }
            return Err(
                Error::InvalidSegment { got: first.clone(), expected: String::new() },
            );
        }
        proof {
            assert(toks@.len() >= 1);
        }
        if toks.len() - 1 != self.segments.len() {
            proof {
                assert(tv.len() != segsv.len() + 1);
                assert(!typed_ok(segsv, suffix));
            }
            return Err(Error::NotFound);
        }
        let mut values: Vec<(String, ScalarValue)> = Vec::new();
        let mut i: usize = 0;
        proof {
            assert(values@.map_values(|p: (String, ScalarValue)| (p.0@, scalar_view(p.1)))
                =~~= typed_values(segsv, tv, 0));
        }
        while i < self.segments.len()
            invariant
                i <= self.segments@.len(),
                suffix == path@.skip(skip as int),
                suffix.len() > 0,
                segsv == self.spec_segs(),
                segsv.len() == self.segments@.len(),
                segsv.len() > 0,
                tv == toks.deep_view(),
                tv == spec_split(suffix),
                toks@.len() == tv.len(),
                tv.len() == segsv.len() + 1,
                tv[0].len() == 0,
                typed_scan(segsv, tv, 0) == typed_scan(segsv, tv, i as int),
                forall|j: int| 0 <= j < i ==> seg_matches(segsv[j], tv[j + 1]),
                values@.map_values(|p: (String, ScalarValue)| (p.0@, scalar_view(p.1)))
                    == typed_values(segsv, tv, i as int),
            decreases self.segments@.len() - i,
        {
            let tok = &toks[i + 1];
            proof {
                assert(tok@ == tv[i as int + 1]);
            }
            match &self.segments[i] {
                TypedSegment::Literal(l) => {
                    proof {
                        assert(segsv[i as int] == SegView::Literal(l@));
                    }
                    if *tok != *l {
                        proof {
                            assert(!seg_matches(segsv[i as int], tv[i as int + 1]));
                            assert(!typed_ok(segsv, suffix));
                            assert(typed_scan(segsv, tv, 0) == TypedScan::Mismatch(
                                tv[i as int + 1],
                                l@,
                            ));
                        }
                        return Err(
                            Error::InvalidSegment { got: tok.clone(), expected: l.clone() },
                        );
                    }
                },
                TypedSegment::Param(name, kind) => {
                    proof {
                        assert(segsv[i as int] == SegView::Param(name@, *kind));
                    }
                    match kind {
                        ScalarKind::Unsigned => {
                            match parse_u64(tok.as_str()) {
                                Some(v) => {
                                    values.push((name.clone(), ScalarValue::Unsigned(v)));
                                    proof {
                                        assert(values@.map_values(
                                            |p: (String, ScalarValue)|
                                                (p.0@, scalar_view(p.1)),
                                        ) =~~= typed_values(segsv, tv, i as int + 1));
                                    }
                                },
                                None => {
                                    proof {
                                        assert(!seg_matches(segsv[i as int], tv[i as int + 1]));
                                        assert(!typed_ok(segsv, suffix));
                                        assert(typed_scan(segsv, tv, 0) == TypedScan::BadType(
                                            name@,
                                            tv[i as int + 1],
                                        ));
                                    }
                                    return Err(
                                        Error::InvalidType {
                                            param: name.clone(),
                                            path: tok.clone(),
                                            error: "expected an unsigned decimal number".to_owned(),
                                        },
                                    );
                                },
                            }
                        },
                        ScalarKind::Text => {
                            values.push((name.clone(), ScalarValue::Text(tok.clone())));
                            proof {
                                assert(values@.map_values(
                                    |p: (String, ScalarValue)| (p.0@, scalar_view(p.1)),
                                ) =~~= typed_values(segsv, tv, i as int + 1));
                            }
                        },
                    }
                },
            }
            proof {
                if values@.map_values(|p: (String, ScalarValue)| (p.0@, scalar_view(p.1)))
                    != typed_values(segsv, tv, i as int + 1) {
                    assert(values@.map_values(|p: (String, ScalarValue)| (p.0@, scalar_view(p.1)))
                        =~~= typed_values(segsv, tv, i as int + 1));
                }
            }
            i = i + 1;
        }
        proof {
            assert(typed_ok(segsv, suffix));
            assert(typed_scan(segsv, tv, 0) == TypedScan::Accepted);
        }
        Ok(TypedParams { values })
    }
}

} // verus!
