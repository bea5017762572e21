//! Route patterns: the pattern grammar, the compiled matcher, and the
//! index-synchronized segment matching that captures path parameters.
//!
//! A pattern is a `/`-separated sequence of segments; each segment is a
//! literal token, a named capture `{name}`, or — only as the final
//! segment — a wildcard capture `{name*}`. A trailing slash is allowed
//! and significant.

use vstd::prelude::*;

use crate::errors::HttpError;
use crate::http_request::HttpMethod;
use crate::strmap::StrMap;
use crate::strutil::{eq_str, join_chars, join_slash_from, split_chars, split_str};

verus! {

// ---------------------------------------------------------------------------
// Method filters
// ---------------------------------------------------------------------------

/// Whether a route applies to every method or to exactly one.
#[derive(Clone, Copy, PartialEq, Eq, Structural, Debug)]
pub enum MatchMethod {
    ANY,
    CONCRET(HttpMethod),
}

/// Whether the filter `mm` accepts the method `m`.
pub open spec fn method_matches(mm: MatchMethod, m: HttpMethod) -> bool {
    match mm {
        MatchMethod::ANY => true,
        MatchMethod::CONCRET(x) => x == m,
    }
}

impl MatchMethod {
    /// The filter that accepts exactly `method`.
    pub fn from_method(method: HttpMethod) -> (r: Self)
        ensures
            r == MatchMethod::CONCRET(method),
    {
        MatchMethod::CONCRET(method)
    }

    /// Whether this filter accepts `method`.
    pub fn matches(&self, method: &HttpMethod) -> (r: bool)
        ensures
            r == method_matches(*self, *method),
    {
        match self {
            MatchMethod::ANY => true,
            MatchMethod::CONCRET(m) => *m == *method,
        }
    }
}

// ---------------------------------------------------------------------------
// The segment grammar
// ---------------------------------------------------------------------------

/// Whether `c` is an alphanumeric character by std's Unicode
/// classification.
pub uninterp spec fn unicode_alphanumeric(c: char) -> bool;

/// Relies on `char::is_alphanumeric`: a classification of the character
/// alone by fixed Unicode tables.
#[verifier::external_body]
fn char_alphanumeric(c: char) -> (r: bool)
    ensures
        r == unicode_alphanumeric(c),
{
    c.is_alphanumeric()
}

/// The characters allowed in literal segments and capture names: the
/// grammar's word characters — taken as Unicode alphanumerics plus
/// underscore — and the hyphen and dot the grammar adds.
pub open spec fn is_name_char(c: char) -> bool {
    unicode_alphanumeric(c) || c == '_' || c == '-' || c == '.'
}

/// The characters allowed in a wildcard name: as above but without dot.
pub open spec fn is_wild_char(c: char) -> bool {
    is_name_char(c) && c != '.'
}

/// A nonempty run of name characters.
pub open spec fn is_literal_seg(p: Seq<char>) -> bool {
    p.len() > 0 && forall|i: int| 0 <= i < p.len() ==> is_name_char(#[trigger] p[i])
}

/// Braces around anything: the shape the matcher reacts to.
pub open spec fn is_capture_shape(p: Seq<char>) -> bool {
    p.len() >= 2 && p[0] == '{' && p.last() == '}'
}

/// What stands between the braces.
pub open spec fn capture_name(p: Seq<char>) -> Seq<char> {
    p.subrange(1, p.len() - 1)
}

/// A capture whose name ends in `*`: the matcher swallows the rest of the
/// path.
pub open spec fn is_wildcard_shape(p: Seq<char>) -> bool {
    is_capture_shape(p) && capture_name(p).len() > 0 && capture_name(p).last() == '*'
}

/// The wildcard's name, without the trailing `*`.
pub open spec fn wildcard_name(p: Seq<char>) -> Seq<char> {
    capture_name(p).drop_last()
}

/// A well-formed named capture: `{name}` with a nonempty name of name
/// characters.
pub open spec fn is_named_capture_seg(p: Seq<char>) -> bool {
    &&& is_capture_shape(p)
    &&& capture_name(p).len() > 0
    &&& forall|i: int|
        0 <= i < capture_name(p).len() ==> is_name_char(#[trigger] capture_name(p)[i])
}

/// A well-formed wildcard capture: `{name*}` with a nonempty name of
/// wildcard characters.
pub open spec fn is_wildcard_seg(p: Seq<char>) -> bool {
    &&& is_wildcard_shape(p)
    &&& wildcard_name(p).len() > 0
    &&& forall|i: int|
        0 <= i < wildcard_name(p).len() ==> is_wild_char(#[trigger] wildcard_name(p)[i])
}

/// The index of the last segment that must carry content: the final one,
/// or the one before a trailing empty segment.
pub open spec fn last_content_index(parts: Seq<Seq<char>>) -> int {
    if parts.len() >= 2 && parts[parts.len() - 1].len() == 0 {
        parts.len() - 2
    } else {
        parts.len() - 1
    }
}

/// The pattern grammar over its `/`-split segments: the pattern starts
/// with `/` (or is empty), every inner segment is a literal or a named
/// capture, a wildcard capture may stand only in final position, and one
/// trailing slash is allowed.
pub open spec fn pattern_valid(parts: Seq<Seq<char>>) -> bool {
    let e = last_content_index(parts);
    &&& parts.len() >= 1
    &&& parts[0].len() == 0
    &&& forall|i: int|
        1 <= i <= e ==> (is_literal_seg(#[trigger] parts[i]) || is_named_capture_seg(parts[i]) || (
        i == e && is_wildcard_seg(parts[i])))
}

// ---------------------------------------------------------------------------
// Executable grammar checks
// ---------------------------------------------------------------------------

fn name_char(c: char) -> (r: bool)
    ensures
        r == is_name_char(c),
{
    char_alphanumeric(c) || c == '_' || c == '-' || c == '.'
}

fn seg_is_literal(p: &str) -> (r: bool)
    ensures
        r == is_literal_seg(p@),
{
    let n = p.unicode_len();
    if n == 0 {
        return false;
    }
    let mut i: usize = 0;
    while i < n
        invariant
            n == p@.len(),
            i <= n,
            forall|j: int| 0 <= j < i ==> is_name_char(#[trigger] p@[j]),
        decreases n - i,
    {
        if !name_char(p.get_char(i)) {
            return false;
        }
        i = i + 1;
    }
    true
}

fn seg_is_capture_shape(p: &str) -> (r: bool)
    ensures
        r == is_capture_shape(p@),
{
    let n = p.unicode_len();
    n >= 2 && p.get_char(0) == '{' && p.get_char(n - 1) == '}'
}

fn seg_is_named_capture(p: &str) -> (r: bool)
    ensures
        r == is_named_capture_seg(p@),
{
    if !seg_is_capture_shape(p) {
        return false;
    }
    let n = p.unicode_len();
    if n < 3 {
        proof {
            assert(capture_name(p@).len() == 0);
        }
        return false;
    }
    let mut i: usize = 1;
    while i < n - 1
        invariant
            n == p@.len(),
            n >= 3,
            1 <= i <= n - 1,
            forall|j: int| 1 <= j < i ==> is_name_char(#[trigger] p@[j]),
        decreases n - i,
    {
        if !name_char(p.get_char(i)) {
            proof {
                assert(capture_name(p@)[i - 1] == p@[i as int]);
            }
            return false;
        }
        i = i + 1;
    }
    proof {
        assert forall|j: int| 0 <= j < capture_name(p@).len() implies is_name_char(
            #[trigger] capture_name(p@)[j],
        ) by {
            assert(capture_name(p@)[j] == p@[j + 1]);
        }
    }
    true
}

fn seg_is_wildcard(p: &str) -> (r: bool)
    ensures
        r == is_wildcard_seg(p@),
{
    if !seg_is_capture_shape(p) {
        return false;
    }
    let n = p.unicode_len();
    if n < 3 || p.get_char(n - 2) != '*' {
        proof {
            if n >= 3 {
                assert(capture_name(p@).last() == p@[n - 2]);
            } else {
                assert(capture_name(p@).len() == 0);
            }
        }
        return false;
    }
    proof {
        assert(capture_name(p@).last() == p@[n - 2]);
    }
    if n < 4 {
        proof {
            assert(wildcard_name(p@).len() == 0);
        }
        return false;
    }
    let mut i: usize = 1;
    while i < n - 2
        invariant
            n == p@.len(),
            n >= 4,
            1 <= i <= n - 2,
            forall|j: int| 1 <= j < i ==> is_wild_char(#[trigger] p@[j]),
        decreases n - i,
    {
        let c = p.get_char(i);
        if !(name_char(c) && c != '.') {
            proof {
                assert(wildcard_name(p@)[i - 1] == p@[i as int]);
            }
            return false;
        }
        i = i + 1;
    }
    proof {
        assert forall|j: int| 0 <= j < wildcard_name(p@).len() implies is_wild_char(
            #[trigger] wildcard_name(p@)[j],
        ) by {
            assert(wildcard_name(p@)[j] == p@[j + 1]);
        }
    }
    true
}

/// Checks a pattern against the grammar.
pub fn is_valid_pattern(pattern: &str) -> (r: bool)
    ensures
        r == pattern_valid(split_chars(pattern@, '/')),
{
    let parts = split_str(pattern, '/');
    let ghost pv = parts.deep_view();
    proof {
        crate::strutil::lemma_split_chars_nonempty(pattern@, '/');
    }
    let n = parts.len();
    if parts[0].as_str().unicode_len() != 0 {
        return false;
    }
    let has_trailing = n >= 2 && parts[n - 1].as_str().unicode_len() == 0;
    let e: usize = if has_trailing {
        n - 2
    } else {
        n - 1
    };
    proof {
        assert(e as int == last_content_index(pv));
    }
    let mut i: usize = 1;
    while i <= e
        invariant
            pv == parts.deep_view(),
            pv == split_chars(pattern@, '/'),
            pv[0].len() == 0,
            pv.len() == n,
            n == parts@.len(),
            e < n,
            e as int == last_content_index(pv),
            1 <= i,
            i <= e + 1,
            forall|j: int|
                1 <= j < i ==> (is_literal_seg(#[trigger] pv[j]) || is_named_capture_seg(pv[j])
                    || (j == e && is_wildcard_seg(pv[j]))),
        decreases e + 1 - i,
    {
        let p = &parts[i];
        let ok = if seg_is_literal(p.as_str()) {
            true
        } else if seg_is_named_capture(p.as_str()) {
            true
        } else if i == e && seg_is_wildcard(p.as_str()) {
            true
        } else {
            false
        };
        if !ok {
            proof {
                assert(pv[i as int] == parts@[i as int]@);
            }
            return false;
        }
        i = i + 1;
    }
    true
}

// ---------------------------------------------------------------------------
// The compiled matcher
// ---------------------------------------------------------------------------

/// One compiled route pattern together with its method filter.
#[derive(Debug)]
pub struct UrlMatcher {
    pattern: String,
    method: MatchMethod,
}

impl UrlMatcher {
    /// The pattern text.
    pub closed spec fn pattern_spec(&self) -> Seq<char> {
        self.pattern@
    }

    /// The method filter.
    pub closed spec fn method_spec(&self) -> MatchMethod {
        self.method
    }

    /// The pattern follows the grammar.
    pub open spec fn wf(&self) -> bool {
        pattern_valid(split_chars(self.pattern_spec(), '/'))
    }

    /// Compiles a pattern; a pattern outside the grammar is rejected, so
    /// that a bad route is refused at registration time.
    pub fn new(method: MatchMethod, pattern: &str) -> (r: Result<UrlMatcher, HttpError>)
        ensures
            match r {
                Ok(m) => {
                    &&& pattern_valid(split_chars(pattern@, '/'))
                    &&& m.pattern_spec() == pattern@
                    &&& m.method_spec() == method
                    &&& m.wf()
                },
                Err(e) => {
                    &&& !pattern_valid(split_chars(pattern@, '/'))
                    &&& e == HttpError::InvalidPattern
                },
            },
    {
        if !is_valid_pattern(pattern) {
            return Err(HttpError::InvalidPattern);
        }
        Ok(UrlMatcher { pattern: pattern.to_owned(), method })
    }

    /// Matches a request against this route. On a match, the second
    /// component carries one captured value per named capture; on a miss
    /// it is empty.
    pub fn match_url(&self, method: &HttpMethod, url: &str) -> (r: (bool, StrMap))
        ensures
            match match_url_spec(self.method_spec(), self.pattern_spec(), *method, url@) {
                Some(m) => r.0 && r.1.map_view() == m,
                None => !r.0 && r.1.map_view() == Map::<Seq<char>, Seq<char>>::empty(),
            },
    {
        if !self.method.matches(method) {
            return (false, StrMap::new());
        }
        let pattern_parts = split_str(self.pattern.as_str(), '/');
        let url_parts = split_str(url, '/');
        let ghost pp = pattern_parts.deep_view();
        let ghost up = url_parts.deep_view();
        proof {
            crate::strutil::lemma_split_chars_nonempty(self.pattern@, '/');
            crate::strutil::lemma_split_chars_nonempty(url@, '/');
        }
        let mut params = StrMap::new();
        let pn = pattern_parts.len();
        let un = url_parts.len();
        let mut i: usize = 0;
        while i < pn
            invariant
                pp == pattern_parts.deep_view(),
                up == url_parts.deep_view(),
                pp == split_chars(self.pattern_spec(), '/'),
                up == split_chars(url@, '/'),
                pn == pp.len(),
                un == up.len(),
                pn == pattern_parts@.len(),
                un == url_parts@.len(),
                i <= pn,
                i <= un,
                method_matches(self.method_spec(), *method),
                match_parts(pp, up) == match_from(pp, up, i as int, params.map_view()),
            decreases pn - i,
        {
            let part = &pattern_parts[i];
            proof {
                assert(pp[i as int] == pattern_parts@[i as int]@);
            }
            if seg_is_capture_shape(part.as_str()) {
                let n = part.as_str().unicode_len();
                if n >= 3 && part.as_str().get_char(n - 2) == '*' {
                    proof {
                        assert(capture_name(pp[i as int]).last() == pp[i as int][n - 2]);
                        assert(is_wildcard_shape(pp[i as int]));
                    }
                    let wname = part.as_str().substring_char(1, n - 2);
                    let rem = join_slash_from(&url_parts, i);
                    let ghost old_mv = params.map_view();
                    proof {
                        assert(wname@ =~= wildcard_name(pp[i as int]));
                        assert(match_from(pp, up, i as int, old_mv) == Some(
                            old_mv.insert(
                                wildcard_name(pp[i as int]),
                                join_chars(up.subrange(i as int, up.len() as int), '/'),
                            ),
                        ));
                    }
                    params.insert(wname, rem.as_str());
                    return (true, params);
                } else {
                    proof {
                        if n >= 3 {
                            assert(capture_name(pp[i as int]).last() == pp[i as int][n - 2]);
                        } else {
                            assert(capture_name(pp[i as int]).len() == 0);
                        }
                        assert(!is_wildcard_shape(pp[i as int]));
                    }
                    if i >= un {
                        return (false, StrMap::new());
                    }
                    let name = part.as_str().substring_char(1, n - 1);
                    proof {
                        assert(name@ =~= capture_name(pp[i as int]));
                        assert(up[i as int] == url_parts@[i as int]@);
                    }
                    params.insert(name, url_parts[i].as_str());
                }
            } else {
                if i >= un || !eq_str(part.as_str(), url_parts[i].as_str()) {
                    proof {
                        if i < un {
                            assert(up[i as int] == url_parts@[i as int]@);
                        }
                    }
                    return (false, StrMap::new());
                }
                proof {
                    assert(up[i as int] == url_parts@[i as int]@);
                }
            }
            i = i + 1;
        }
        if i != un {
            return (false, StrMap::new());
        }
        (true, params)
    }
}

// ---------------------------------------------------------------------------
// The matching algorithm, as a specification
// ---------------------------------------------------------------------------

/// Index-synchronized matching of pattern segments `pp` against path
/// segments `up`, from position `i`, with the captures in `acc`:
/// a literal must equal the path segment, a named capture binds it, and a
/// wildcard binds the joined rest of the path and succeeds at once; at the
/// end both lists must be fully consumed.
pub open spec fn match_from(
    pp: Seq<Seq<char>>,
    up: Seq<Seq<char>>,
    i: int,
    acc: Map<Seq<char>, Seq<char>>,
) -> Option<Map<Seq<char>, Seq<char>>>
    decreases pp.len() - i,
{
    if i < 0 || i >= pp.len() {
        if i == up.len() {
            Some(acc)
        } else {
            None
        }
    } else if is_capture_shape(pp[i]) {
        if is_wildcard_shape(pp[i]) {
            Some(
                acc.insert(
                    wildcard_name(pp[i]),
                    join_chars(up.subrange(i, up.len() as int), '/'),
                ),
            )
        } else if i >= up.len() {
            None
        } else {
            match_from(pp, up, i + 1, acc.insert(capture_name(pp[i]), up[i]))
        }
    } else {
        if i >= up.len() || pp[i] != up[i] {
            None
        } else {
            match_from(pp, up, i + 1, acc)
        }
    }
}

/// Matching two whole segment lists.
pub open spec fn match_parts(pp: Seq<Seq<char>>, up: Seq<Seq<char>>) -> Option<
    Map<Seq<char>, Seq<char>>,
> {
    match_from(pp, up, 0, Map::<Seq<char>, Seq<char>>::empty())
}

// ---------------------------------------------------------------------------
// Matching laws
// ---------------------------------------------------------------------------

proof fn lemma_match_from_exact(
    pp: Seq<Seq<char>>,
    up: Seq<Seq<char>>,
    i: int,
    acc: Map<Seq<char>, Seq<char>>,
)
    requires
        0 <= i <= pp.len(),
        pp.len() == up.len(),
        forall|j: int| i <= j < pp.len() && !is_capture_shape(#[trigger] pp[j]) ==> pp[j] == up[j],
        forall|j: int| i <= j < pp.len() ==> !is_wildcard_shape(#[trigger] pp[j]),
    ensures
        match_from(pp, up, i, acc) matches Some(m) && {
            &&& forall|k: Seq<char>|
                #[trigger] m.contains_key(k) <==> acc.contains_key(k) || exists|j: int|
                    i <= j < pp.len() && is_capture_shape(#[trigger] pp[j]) && capture_name(pp[j])
                        == k
            &&& forall|j: int|
                i <= j < pp.len() && is_capture_shape(#[trigger] pp[j]) && (forall|j2: int|
                    j < j2 < pp.len() && is_capture_shape(#[trigger] pp[j2])
                        ==> capture_name(pp[j2]) != capture_name(pp[j])) ==> m.contains_key(
                    capture_name(pp[j]),
                ) && m[capture_name(pp[j])] == up[j]
            &&& forall|k: Seq<char>|
                #[trigger] acc.contains_key(k) && (forall|j: int|
                    i <= j < pp.len() && is_capture_shape(#[trigger] pp[j]) ==> capture_name(
                        pp[j],
                    ) != k) ==> m.contains_key(k) && m[k] == acc[k]
        },
    decreases pp.len() - i,
{
    if i == pp.len() {
    } else if is_capture_shape(pp[i]) {
        let acc2 = acc.insert(capture_name(pp[i]), up[i]);
        lemma_match_from_exact(pp, up, i + 1, acc2);
        let m = match_from(pp, up, i + 1, acc2)->Some_0;
        assert forall|k: Seq<char>| #[trigger] m.contains_key(k) implies acc.contains_key(k)
            || exists|j: int|
            i <= j < pp.len() && is_capture_shape(#[trigger] pp[j]) && capture_name(pp[j])
                == k by {
            if acc2.contains_key(k) && !acc.contains_key(k) {
                assert(is_capture_shape(pp[i]) && capture_name(pp[i]) == k);
            }
        }
        assert forall|k: Seq<char>|
            acc.contains_key(k) || exists|j: int|
                i <= j < pp.len() && is_capture_shape(#[trigger] pp[j]) && capture_name(pp[j])
                    == k implies #[trigger] m.contains_key(k) by {
            if acc.contains_key(k) {
                assert(acc2.contains_key(k));
            } else {
                let j = choose|j: int|
                    i <= j < pp.len() && is_capture_shape(#[trigger] pp[j]) && capture_name(
                        pp[j],
                    ) == k;
                if j == i {
                    assert(acc2.contains_key(k));
                }
            }
        }
    } else {
        lemma_match_from_exact(pp, up, i + 1, acc);
        let m = match_from(pp, up, i + 1, acc)->Some_0;
        assert forall|k: Seq<char>| #[trigger] m.contains_key(k) implies acc.contains_key(k)
            || exists|j: int|
            i <= j < pp.len() && is_capture_shape(#[trigger] pp[j]) && capture_name(pp[j])
                == k by {}
    }
}

/// When a wildcard-free pattern and a path have the same number of
/// segments, every non-capture segment of the pattern equals the
/// corresponding path segment, and no two captures share a name, the
/// match succeeds with exactly one entry per named capture, each bound to
/// the corresponding raw path segment. In particular this holds of every
/// pattern from the grammar whose segments are literals and named
/// captures: under the grammar a non-capture segment is a literal.
pub proof fn lemma_exact_match(pp: Seq<Seq<char>>, up: Seq<Seq<char>>)
    requires
        pp.len() == up.len(),
        forall|j: int| 0 <= j < pp.len() && !is_capture_shape(#[trigger] pp[j]) ==> pp[j] == up[j],
        forall|j: int| 0 <= j < pp.len() ==> !is_wildcard_shape(#[trigger] pp[j]),
        forall|j: int, j2: int|
            0 <= j < j2 < pp.len() && is_capture_shape(#[trigger] pp[j]) && is_capture_shape(
                #[trigger] pp[j2],
            ) ==> capture_name(pp[j]) != capture_name(pp[j2]),
    ensures
        match_parts(pp, up) matches Some(m) && {
            &&& forall|k: Seq<char>|
                #[trigger] m.contains_key(k) <==> exists|j: int|
                    0 <= j < pp.len() && is_capture_shape(#[trigger] pp[j]) && capture_name(
                        pp[j],
                    ) == k
            &&& forall|j: int|
                0 <= j < pp.len() && is_capture_shape(#[trigger] pp[j]) ==> m.contains_key(
                    capture_name(pp[j]),
                ) && m[capture_name(pp[j])] == up[j]
        },
{
    lemma_match_from_exact(pp, up, 0, Map::<Seq<char>, Seq<char>>::empty());
}

proof fn lemma_match_from_wildcard(
    pp: Seq<Seq<char>>,
    up: Seq<Seq<char>>,
    i: int,
    acc: Map<Seq<char>, Seq<char>>,
)
    requires
        0 <= i <= pp.len() - 1,
        i <= up.len(),
        up.len() >= pp.len() - 1,
        is_wildcard_shape(pp[pp.len() - 1]),
        forall|j: int| i <= j < pp.len() - 1 ==> !is_wildcard_shape(#[trigger] pp[j]),
        forall|j: int|
            i <= j < pp.len() - 1 && !is_capture_shape(#[trigger] pp[j]) ==> pp[j] == up[j],
    ensures
        match_from(pp, up, i, acc) matches Some(m) && m.contains_key(
            wildcard_name(pp[pp.len() - 1]),
        ) && m[wildcard_name(pp[pp.len() - 1])] == join_chars(
            up.subrange(pp.len() - 1, up.len() as int),
            '/',
        ),
    decreases pp.len() - i,
{
    if i == pp.len() - 1 {
    } else if is_capture_shape(pp[i]) {
        lemma_match_from_wildcard(pp, up, i + 1, acc.insert(capture_name(pp[i]), up[i]));
    } else {
        lemma_match_from_wildcard(pp, up, i + 1, acc);
    }
}

/// A pattern ending in a wildcard capture never requires segment-count
/// parity: whenever the segments before the wildcard agree with the path
/// as in the exact case and the path has at least the pattern's count of
/// segments minus one, however many more it carries, the match succeeds
/// and binds the wildcard to the rest of the path, rejoined with `/`.
pub proof fn lemma_wildcard_match(pp: Seq<Seq<char>>, up: Seq<Seq<char>>)
    requires
        pp.len() >= 1,
        up.len() >= pp.len() - 1,
        is_wildcard_shape(pp[pp.len() - 1]),
        forall|j: int| 0 <= j < pp.len() - 1 ==> !is_wildcard_shape(#[trigger] pp[j]),
        forall|j: int|
            0 <= j < pp.len() - 1 && !is_capture_shape(#[trigger] pp[j]) ==> pp[j] == up[j],
    ensures
        match_parts(pp, up) matches Some(m) && m.contains_key(
            wildcard_name(pp[pp.len() - 1]),
        ) && m[wildcard_name(pp[pp.len() - 1])] == join_chars(
            up.subrange(pp.len() - 1, up.len() as int),
            '/',
        ),
{
    lemma_match_from_wildcard(pp, up, 0, Map::<Seq<char>, Seq<char>>::empty());
}

/// What `UrlMatcher::match_url` decides: the method filter first, then
/// structural matching of the split pattern against the split path.
pub open spec fn match_url_spec(
    mm: MatchMethod,
    pattern: Seq<char>,
    m: HttpMethod,
    url: Seq<char>,
) -> Option<Map<Seq<char>, Seq<char>>> {
    if method_matches(mm, m) {
        match_parts(split_chars(pattern, '/'), split_chars(url, '/'))
    } else {
        None
    }
}

} // verus!
