//! URL params.
//!
//! A pattern such as `"/test/{id}"` splits into a static prefix (up to the
//! first `'{'`) and a dynamic parser for the rest. At dispatch time the
//! parser walks the `/`-separated segments of the path suffix, checks every
//! literal segment, and hands back a [`DynamicParams`] value from which
//! handlers read parameters by name.

use vstd::prelude::*;
use crate::error;
use crate::segments::{spec_split, split_slashes};

verus! {

/// Error while parsing URL for parameters.
#[derive(Debug, PartialEq)]
pub enum Error {
    /// A requested dynamic parameter name was not declared.
    UnknownParameter(String),
    /// Expected segment or parameter was not found in the path.
    NotFound,
    /// Cannot parse path to expected type.
    InvalidType {
        /// Parameter name.
        param: String,
        /// Path segment.
        path: String,
        /// Parsing error.
        error: String,
    },
    /// Unexpected path segment.
    InvalidSegment {
        /// Got.
        got: String,
        /// Expected.
        expected: String,
    },
}

impl Error {
    /// The API error for this parameter error: an unknown parameter is an
    /// internal error, a failed typed parse a bad request, and a missing or
    /// mismatched segment a not-found.
    pub fn to_api_error(self) -> (r: error::Error)
        ensures
            match self {
                Error::UnknownParameter(p) => {
                    &&& r.code == 500
                    &&& r.message@
                        == "Tried to access non-existent parameter. That's most likely a bug in the handler."@
                    &&& r.details@ == p@
                },
                Error::NotFound => {
                    &&& r.code == 404
                    &&& r.message@ == "Requested resource was not found."@
                    &&& r.details@ == "The resource exists, but expects a parameter."@
                },
                Error::InvalidType { param, path, error } => {
                    &&& r.code == 400
                    &&& r.message@ == "Error while parsing parameter "@ + param@ + " from "@
                        + path@
                    &&& r.details@ == error@
                },
                Error::InvalidSegment { got, expected } => {
                    &&& r.code == 404
                    &&& r.message@ == "Requested resource was not found."@
                    &&& r.details@ == "The resource exists, but the path is invalid. Got "@ + got@
                        + ", expected "@ + expected@
                },
            },
    {
        match self {
            Error::UnknownParameter(param) => error::Error::internal(
                "Tried to access non-existent parameter. That's most likely a bug in the handler.",
                param.as_str(),
            ),
            Error::InvalidType { param, path, error } => {
                let mut message = "Error while parsing parameter ".to_owned();
                message.append(param.as_str());
                message.append(" from ");
                message.append(path.as_str());
                error::Error::bad_request(message.as_str(), error.as_str())
            },
            Error::NotFound => error::Error::not_found(
                "The resource exists, but expects a parameter.",
            ),
            Error::InvalidSegment { got, expected } => {
                let mut details = "The resource exists, but the path is invalid. Got ".to_owned();
                details.append(got.as_str());
                details.append(", expected ");
                details.append(expected.as_str());
                error::Error::not_found(details.as_str())
            },
        }
    }
}

/// A pattern token is a parameter when it is braced, as in `{id}`.
pub open spec fn is_param_token(t: Seq<char>) -> bool {
    t.len() > 0 && t[0] == '{' && t[t.len() - 1] == '}'
}

/// The name inside a braced token.
pub open spec fn param_name(t: Seq<char>) -> Seq<char> {
    t.subrange(1, t.len() - 1)
}

/// The `(position, name)` pairs of the parameter tokens among the first `i`
/// tokens, in order.
pub open spec fn param_entries(toks: Seq<Seq<char>>, i: int) -> Seq<(usize, Seq<char>)>
    decreases i,
{
    if i <= 0 {
        Seq::empty()
    } else if is_param_token(toks[i - 1]) {
        param_entries(toks, i - 1).push(((i - 1) as usize, param_name(toks[i - 1])))
    } else {
        param_entries(toks, i - 1)
    }
}

/// The `(position, literal)` pairs of the literal tokens among the first `i`
/// tokens, in order.
pub open spec fn literal_entries(toks: Seq<Seq<char>>, i: int) -> Seq<(usize, Seq<char>)>
    decreases i,
{
    if i <= 0 {
        Seq::empty()
    } else if is_param_token(toks[i - 1]) {
        literal_entries(toks, i - 1)
    } else {
        literal_entries(toks, i - 1).push(((i - 1) as usize, toks[i - 1]))
    }
}

/// The printable pattern for a parameter list: `/{a}/{b}/...`.
pub open spec fn spec_pattern_of(entries: Seq<(usize, Seq<char>)>) -> Seq<char>
    decreases entries.len(),
{
    if entries.len() == 0 {
        Seq::empty()
    } else {
        spec_pattern_of(entries.drop_last()) + "/{"@ + entries.last().1 + "}"@
    }
}

/// How the literal-segment scan of [`DynamicParams::validate`] ends.
pub enum ScanResult {
    /// Every listed literal matched.
    Accepted,
    /// The path ran out of segments before a listed literal.
    Missing,
    /// A segment disagreed with a listed literal: holds the segment found
    /// and the literal expected.
    Mismatch(Seq<char>, Seq<char>),
}

/// The literal-segment scan: starting at entry `idx` with `consumed`
/// segments read and a cursor at position `cur`, it skips forward to each
/// listed position and compares the segment read there with the listed
/// literal.
pub open spec fn validate_scan(
    segs: Seq<(usize, Seq<char>)>,
    toks: Seq<Seq<char>>,
    idx: int,
    consumed: int,
    cur: int,
) -> ScanResult
    decreases segs.len() - idx,
{
    if idx < 0 || idx >= segs.len() {
        ScanResult::Accepted
    } else {
        let (pos, seg) = segs[idx];
        let skipn = if cur < pos { pos - cur } else { 0 };
        let c = consumed + skipn;
        let cur2 = if cur < pos {
            pos + 1
        } else {
            cur + 1
        };
        if c >= toks.len() {
            ScanResult::Missing
        } else if toks[c] == seg {
            validate_scan(segs, toks, idx + 1, c + 1, cur2)
        } else {
            ScanResult::Mismatch(toks[c], seg)
        }
    }
}

/// What [`DynamicParams::validate`] returns for the given inputs.
pub open spec fn validate_post(
    params: Seq<(usize, Seq<char>)>,
    segs: Seq<(usize, Seq<char>)>,
    path: Seq<char>,
    r: Result<DynamicParams, Error>,
) -> bool {
    match validate_scan(segs, spec_split(path), 0, 0, 0) {
        ScanResult::Accepted => r matches Ok(dp) && dp.spec_params() == params && dp.spec_path()
            == path,
        ScanResult::Missing => r matches Err(Error::NotFound),
        ScanResult::Mismatch(g, x) => r matches Err(Error::InvalidSegment { got, expected })
            && got@ == g && expected@ == x,
    }
}

/// Params parser: turns the path suffix after a matched prefix into a
/// parameters value.
pub trait Parser {
    /// Returned parameters type.
    type Params;

    /// The number of `/`-separated segments this parser consumes past the
    /// prefix.
    spec fn spec_expected(&self) -> int;

    /// The printable pattern shown in diagnostics.
    spec fn spec_pattern(&self) -> Seq<char>;

    /// What `parse` returns when the path characters past `skip` are
    /// `suffix`.
    spec fn parse_post(&self, suffix: Seq<char>, r: Result<Self::Params, Error>) -> bool;

    /// Returns the number of expected params and the printable pattern.
    fn expected_params(&self) -> (r: (usize, String))
        ensures
            r.0 as int == self.spec_expected(),
            r.1@ == self.spec_pattern(),
    ;

    /// Parses the URL path past its first `skip` characters and returns the
    /// params.
    fn parse(&self, path: &str, skip: usize) -> (r: Result<Self::Params, Error>)
        requires
            skip <= path@.len(),
        ensures
            self.parse_post(path@.skip(skip as int), r),
    ;
}

/// A standard parser which processes params dynamically.
pub struct StdParser {
    params: Vec<(usize, String)>,
    segments: Vec<(usize, String)>,
    expected: usize,
}

impl StdParser {
    /// The declared `(position, name)` parameter entries.
    pub closed spec fn spec_params(&self) -> Seq<(usize, Seq<char>)> {
        self.params.deep_view()
    }

    /// The declared `(position, literal)` segment entries.
    pub closed spec fn spec_segments(&self) -> Seq<(usize, Seq<char>)> {
        self.segments.deep_view()
    }

    /// The declared segment count.
    pub closed spec fn spec_expected_count(&self) -> usize {
        self.expected
    }

    /// Create new standard params and parse the given string for params
    /// patterns: each `/`-separated token is either a braced parameter or a
    /// literal segment.
    pub fn params(pattern: &str) -> (p: Self)
        ensures
            p.spec_params() == param_entries(
                spec_split(pattern@),
                spec_split(pattern@).len() as int,
            ),
            p.spec_segments() == literal_entries(
                spec_split(pattern@),
                spec_split(pattern@).len() as int,
            ),
            p.spec_expected_count() == spec_split(pattern@).len(),
    {
        let toks = split_slashes(pattern);
        let ghost tv = spec_split(pattern@);
        let mut params: Vec<(usize, String)> = Vec::new();
        let mut segments: Vec<(usize, String)> = Vec::new();
        let mut pos: usize = 0;
        proof {
            assert(params.deep_view() =~~= param_entries(tv, 0));
            assert(segments.deep_view() =~~= literal_entries(tv, 0));
        }
        while pos < toks.len()
            invariant
                pos <= toks@.len(),
                toks.deep_view() == tv,
                toks@.len() == tv.len(),
                params.deep_view() == param_entries(tv, pos as int),
                segments.deep_view() == literal_entries(tv, pos as int),
            decreases toks@.len() - pos,
        {
            let t = &toks[pos];
            let n = t.unicode_len();
            proof {
                assert(t@ == tv[pos as int]);
            }
            if n > 0 && t.get_char(0) == '{' && t.get_char(n - 1) == '}' {
                let name = t.substring_char(1, n - 1).to_owned();
                proof {
                    assert(is_param_token(tv[pos as int]));
                    assert(name@ == param_name(tv[pos as int]));
                }
                let ghost pre = params.deep_view();
                params.push((pos, name));
                proof {
                    assert(params.deep_view() =~~= param_entries(tv, pos as int + 1));
                }
            } else {
                proof {
                    assert(!is_param_token(tv[pos as int]));
                }
                let lit = t.clone();
                let ghost pre = segments.deep_view();
                segments.push((pos, lit));
                proof {
                    assert(segments.deep_view() =~~= literal_entries(tv, pos as int + 1));
                }
            }
            pos = pos + 1;
        }
        StdParser { params, segments, expected: pos }
    }
}

impl Default for StdParser {
    /// A parser with no declared tokens: it matches only the empty suffix.
    fn default() -> (p: Self)
        ensures
            p.spec_params() == Seq::<(usize, Seq<char>)>::empty(),
            p.spec_segments() == Seq::<(usize, Seq<char>)>::empty(),
            p.spec_expected_count() == 0,
    {
        let p = StdParser { params: Vec::new(), segments: Vec::new(), expected: 0 };
        proof {
            assert(p.spec_params() =~~= Seq::<(usize, Seq<char>)>::empty());
            assert(p.spec_segments() =~~= Seq::<(usize, Seq<char>)>::empty());
        }
        p
    }
}

impl Parser for StdParser {
    type Params = DynamicParams;

    open spec fn spec_expected(&self) -> int {
        self.spec_expected_count() as int
    }

    open spec fn spec_pattern(&self) -> Seq<char> {
        spec_pattern_of(self.spec_params())
    }

    open spec fn parse_post(&self, suffix: Seq<char>, r: Result<DynamicParams, Error>) -> bool {
        if self.spec_expected() == 0 && suffix.len() > 0 {
            r matches Err(Error::NotFound)
        } else {
            validate_post(self.spec_params(), self.spec_segments(), suffix, r)
        }
    }

    fn expected_params(&self) -> (r: (usize, String)) {
        let mut pattern = String::new();
        let mut i: usize = 0;
        proof {
            assert(self.spec_params().take(0) =~~= Seq::<(usize, Seq<char>)>::empty());
        }
        while i < self.params.len()
            invariant
                i <= self.params@.len(),
                self.spec_params().len() == self.params@.len(),
                pattern@ == spec_pattern_of(self.spec_params().take(i as int)),
            decreases self.params@.len() - i,
        {
            pattern.append("/{");
            pattern.append(self.params[i].1.as_str());
            pattern.append("}");
            proof {
                assert(self.spec_params().take(i as int + 1).drop_last() =~~= self.spec_params()
                    .take(i as int));
                assert(self.spec_params().take(i as int + 1).last() == self.spec_params()[
                    i as int
                ]);
                assert(self.spec_params()[i as int].1 == self.params@[i as int].1@);
            }
            i = i + 1;
        }
        proof {
            assert(self.spec_params().take(self.spec_params().len() as int) =~~= self.spec_params());
        }
        (self.expected, pattern)
    }

    fn parse(&self, path: &str, skip: usize) -> (r: Result<DynamicParams, Error>) {
        let n = path.unicode_len();
        let sub = path.substring_char(skip, n);
        proof {
            assert(sub@ =~= path@.skip(skip as int));
        }
        if self.expected == 0 && !sub.is_empty() {
            Err(Error::NotFound)
        } else {
            let params = copy_entries(&self.params);
            let segments = copy_entries(&self.segments);
            DynamicParams::validate(params, segments, sub.to_owned())
        }
    }
}

/// Copies a `(position, name)` entry list.
fn copy_entries(v: &Vec<(usize, String)>) -> (r: Vec<(usize, String)>)
    ensures
        r.deep_view() == v.deep_view(),
{
    let mut r: Vec<(usize, String)> = Vec::new();
    let mut i: usize = 0;
    proof {
        assert(r.deep_view() =~~= v.deep_view().take(0));
    }
    while i < v.len()
        invariant
            i <= v@.len(),
            r@.len() == i,
            v.deep_view().len() == v@.len(),
            r.deep_view() == v.deep_view().take(i as int),
        decreases v@.len() - i,
    {
        let (pos, name) = &v[i];
        r.push((*pos, name.clone()));
        proof {
            assert(r.deep_view() =~~= v.deep_view().take(i as int + 1));
        }
        i = i + 1;
    }
    proof {
        assert(v.deep_view().take(v.deep_view().len() as int) =~~= v.deep_view());
    }
    r
}

/// The first declared position whose name is `name`.
pub open spec fn find_param(entries: Seq<(usize, Seq<char>)>, name: Seq<char>) -> Option<usize>
    decreases entries.len(),
{
    if entries.len() == 0 {
        None
    } else if entries[0].1 == name {
        Some(entries[0].0)
    } else {
        find_param(entries.skip(1), name)
    }
}

/// Dynamic parameters.
#[derive(Debug)]
pub struct DynamicParams {
    params: Vec<(usize, String)>,
    path: String,
}

impl DynamicParams {
    /// The declared `(position, name)` parameter entries.
    pub closed spec fn spec_params(&self) -> Seq<(usize, Seq<char>)> {
        self.params.deep_view()
    }

    /// The path suffix these parameters were parsed from.
    pub closed spec fn spec_path(&self) -> Seq<char> {
        self.path@
    }

    /// Create new dynamic params and validate segment positions: for each
    /// listed literal the scan skips forward to its position and compares
    /// the segment found there.
    pub fn validate(
        params: Vec<(usize, String)>,
        segments: Vec<(usize, String)>,
        path: String,
    ) -> (r: Result<Self, Error>)
        ensures
            validate_post(params.deep_view(), segments.deep_view(), path@, r),
    {
        let toks = split_slashes(path.as_str());
        let ghost tv = spec_split(path@);
        let ghost sv = segments.deep_view();
        let mut idx: usize = 0;
        let mut consumed: usize = 0;
        let mut cur: usize = 0;
        while idx < segments.len()
            invariant
                idx <= segments@.len(),
                sv == segments.deep_view(),
                tv == spec_split(path@),
                sv.len() == segments@.len(),
                tv == toks.deep_view(),
                toks@.len() == tv.len(),
                cur <= consumed,
                consumed <= toks@.len(),
                validate_scan(sv, tv, idx as int, consumed as int, cur as int) == validate_scan(
                    sv,
                    tv,
                    0,
                    0,
                    0,
                ),
            decreases segments@.len() - idx,
        {
            let ghost scan_here = validate_scan(sv, tv, idx as int, consumed as int, cur as int);
            let (pos, seg) = &segments[idx];
            proof {
                assert(sv[idx as int] == (*pos, seg@));
            }
            let skipn = if cur < *pos {
                *pos - cur
            } else {
                0
            };
            if toks.len() - consumed <= skipn {
                proof {
                    assert(scan_here == ScanResult::Missing);
                }
                return Err(Error::NotFound);
            }
            let c = consumed + skipn;
            proof {
                assert(toks.deep_view()[c as int] == toks@[c as int]@);
            }
            if toks[c] == *seg {
                proof {
                    assert(tv[c as int] == seg@);
                }
                consumed = c + 1;
                cur = if cur < *pos {
                    *pos + 1
                } else {
                    cur + 1
                };
                proof {
                    assert(scan_here == validate_scan(
                        sv,
                        tv,
                        idx as int + 1,
                        consumed as int,
                        cur as int,
                    ));
                }
            } else {
                let got = toks[c].clone();
                let expected = seg.clone();
                proof {
                    assert(tv[c as int] != seg@);
                    assert(scan_here == ScanResult::Mismatch(tv[c as int], seg@));
                    assert(got@ == tv[c as int]);
                    assert(expected@ == seg@);
                }
                return Err(Error::InvalidSegment { got, expected });
            }
            idx = idx + 1;
        }
        proof {
            assert(validate_scan(sv, tv, sv.len() as int, consumed as int, cur as int)
                == ScanResult::Accepted);
        }
        Ok(DynamicParams { params, path })
    }

    fn find(&self, name: &String) -> (r: Result<usize, Error>)
        ensures
            match r {
                Ok(pos) => find_param(self.spec_params(), name@) == Some(pos),
                Err(e) => {
                    &&& find_param(self.spec_params(), name@) is None
                    &&& e matches Error::UnknownParameter(n) && n@ == name@
                },
            },
    {
        let mut i: usize = 0;
        proof {
            assert(self.spec_params().skip(0) =~~= self.spec_params());
        }
        while i < self.params.len()
            invariant
                i <= self.params@.len(),
                self.spec_params().len() == self.params@.len(),
                find_param(self.spec_params(), name@) == find_param(
                    self.spec_params().skip(i as int),
                    name@,
                ),
            decreases self.params@.len() - i,
        {
            let (pos, v) = &self.params[i];
            proof {
                assert(self.spec_params().skip(i as int)[0] == self.spec_params()[i as int]);
                assert(self.spec_params()[i as int] == (*pos, v@));
                assert(self.spec_params().skip(i as int).skip(1) =~~= self.spec_params().skip(
                    i as int + 1,
                ));
            }
            if *v == *name {
                return Ok(*pos);
            }
            i = i + 1;
        }
        proof {
            assert(self.spec_params().skip(self.spec_params().len() as int).len() == 0);
        }
        Err(Error::UnknownParameter(name.clone()))
    }

    /// Retrieve the string value of a parameter by the given name: the
    /// segment at the position declared for that name.
    pub fn get_str(&self, name: &str) -> (r: Result<String, Error>)
        ensures
            match r {
                Ok(s) => find_param(self.spec_params(), name@) matches Some(pos) && pos
                    < spec_split(self.spec_path()).len() && s@ == spec_split(self.spec_path())[
                    pos as int
                ],
                Err(e) => match e {
                    Error::UnknownParameter(n) => find_param(self.spec_params(), name@) is None
                        && n@ == name@,
                    Error::NotFound => find_param(self.spec_params(), name@) matches Some(pos)
                        && pos >= spec_split(self.spec_path()).len(),
                    _ => false,
                },
            },
    {
        let owned = name.to_owned();
        match self.find(&owned) {
            Err(e) => Err(e),
            Ok(pos) => {
                let toks = split_slashes(self.path.as_str());
                if pos < toks.len() {
                    proof {
                        assert(toks.deep_view()[pos as int] == toks@[pos as int]@);
                    }
                    Ok(toks[pos].clone())
                } else {
                    Err(Error::NotFound)
                }
            },
        }
    }

    /// Retrieve a value of a parameter by the given name, parsed to the
    /// requested type; a failed parse reports the parameter, the segment and
    /// the parse error.
    pub fn get<T: core::str::FromStr>(&self, name: &str) -> (r: Result<T, Error>)
        ensures
            match r {
                Ok(_) => find_param(self.spec_params(), name@) matches Some(pos) && pos
                    < spec_split(self.spec_path()).len(),
                Err(e) => match e {
                    Error::UnknownParameter(n) => find_param(self.spec_params(), name@) is None
                        && n@ == name@,
                    Error::NotFound => find_param(self.spec_params(), name@) matches Some(pos)
                        && pos >= spec_split(self.spec_path()).len(),
                    Error::InvalidType { param, path, error: _ } => {
                        &&& param@ == name@
                        &&& find_param(self.spec_params(), name@) matches Some(pos) && pos
                            < spec_split(self.spec_path()).len() && path@ == spec_split(
                            self.spec_path(),
                        )[pos as int]
                    },
                    _ => false,
                },
            },
    {
        match self.get_str(name) {
            Err(e) => Err(e),
            Ok(seg) => match parse_str_value::<T>(seg.as_str()) {
                Some(v) => Ok(v),
                None => Err(
                    Error::InvalidType {
                        param: name.to_owned(),
                        path: seg,
                        error: "cannot parse the segment to the requested type".to_owned(),
                    },
                ),
            },
        }
    }
}


/// The index of the first `'{'` in `s`, or `s.len()` when there is none.
pub open spec fn first_brace(s: Seq<char>) -> int
    decreases s.len(),
{
    if s.len() == 0 {
        0
    } else if s[0] == '{' {
        0
    } else {
        1 + first_brace(s.skip(1))
    }
}

/// The first-brace index never passes the end of the pattern.
pub proof fn lemma_first_brace_le(s: Seq<char>)
    ensures
        0 <= first_brace(s) <= s.len(),
    decreases s.len(),
{
    if s.len() == 0 {
    } else if s[0] == '{' {
    } else {
        lemma_first_brace_le(s.skip(1));
    }
}

proof fn lemma_first_brace_at(s: Seq<char>, i: int)
    requires
        0 <= i <= s.len(),
        forall|j: int| 0 <= j < i ==> s[j] != '{',
        i == s.len() || s[i] == '{',
    ensures
        first_brace(s) == i,
    decreases i,
{
    if i == 0 {
    } else {
        assert(s[0] != '{');
        assert forall|j: int| 0 <= j < i - 1 implies s.skip(1)[j] != '{' by {
            assert(s.skip(1)[j] == s[j + 1]);
        }
        if i < s.len() {
            assert(s.skip(1)[i - 1] == s[i]);
        }
        lemma_first_brace_at(s.skip(1), i - 1);
    }
}

/// Params definition: a static prefix paired with the parser for the rest
/// of the pattern.
pub struct Params<'a, P> {
    /// URL parser.
    pub parser: P,
    /// Prefix.
    pub prefix: &'a str,
}

impl<'a> Params<'a, StdParser> {
    /// Splits a pattern at its first `'{'`: the part before it becomes the
    /// static prefix, the rest feeds the dynamic parser. A pattern without
    /// braces is all prefix, with a parser that declares no segments.
    pub fn from_pattern(pattern: &'a str) -> (p: Params<'a, StdParser>)
        ensures
            ({
                let cut = first_brace(pattern@);
                &&& p.prefix@ == pattern@.take(cut)
                &&& (cut == pattern@.len() ==> {
                    &&& p.parser.spec_params() == Seq::<(usize, Seq<char>)>::empty()
                    &&& p.parser.spec_segments() == Seq::<(usize, Seq<char>)>::empty()
                    &&& p.parser.spec_expected_count() == 0
                })
                &&& (cut < pattern@.len() ==> {
                    let tail = pattern@.skip(cut);
                    &&& p.parser.spec_params() == param_entries(
                        spec_split(tail),
                        spec_split(tail).len() as int,
                    )
                    &&& p.parser.spec_segments() == literal_entries(
                        spec_split(tail),
                        spec_split(tail).len() as int,
                    )
                    &&& p.parser.spec_expected_count() == spec_split(tail).len()
                })
            }),
    {
        let n = pattern.unicode_len();
        let mut i: usize = 0;
        while i < n
            invariant
                i <= n == pattern@.len(),
                forall|j: int| 0 <= j < i ==> pattern@[j] != '{',
            decreases n - i,
        {
            if pattern.get_char(i) == '{' {
                proof {
                    lemma_first_brace_at(pattern@, i as int);
                }
                let prefix = pattern.substring_char(0, i);
                let rest = pattern.substring_char(i, n);
                proof {
                    assert(prefix@ =~= pattern@.take(i as int));
                    assert(rest@ =~= pattern@.skip(i as int));
                }
                return Params { parser: StdParser::params(rest), prefix };
            }
            i = i + 1;
        }
        proof {
            lemma_first_brace_at(pattern@, n as int);
            assert(pattern@.take(n as int) =~= pattern@);
        }
        Params { parser: StdParser::default(), prefix: pattern }
    }
}

/// Relies on str::parse: parses the string with the target type's standard
/// parser; a parse failure of any kind becomes `None`.
#[verifier::external_body]
fn parse_str_value<T: core::str::FromStr>(s: &str) -> (r: Option<T>) {
    s.parse().ok()
}

} // verus!
