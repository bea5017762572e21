//! The request side of the wire protocol: the method enumeration, query
//! and header parsing, and the request value built from a message head.
//!
//! Reading bytes off a socket is the caller's business; this module turns
//! an already-read message head (start line and header lines) and body
//! into a checked `HttpRequest`.

use vstd::prelude::*;

use crate::errors::HttpError;
use crate::strmap::{map_of_entries, StrMap};
use crate::strutil::{
    find_char, first_index_of, is_blank, split_chars, split_str, strip_cr, strip_cr_spec,
    trim_right_spec, trim_right_str, trim_spec, trim_str,
};

verus! {

// ---------------------------------------------------------------------------
// Methods
// ---------------------------------------------------------------------------

/// The request methods this server recognizes.
#[derive(Clone, Copy, PartialEq, Eq, Structural, Debug)]
pub enum HttpMethod {
    GET,
    POST,
    PUT,
    DELETE,
    OPTIONS,
}

/// The token that names `m` on the wire.
pub open spec fn method_name(m: HttpMethod) -> Seq<char> {
    match m {
        HttpMethod::GET => "GET"@,
        HttpMethod::POST => "POST"@,
        HttpMethod::PUT => "PUT"@,
        HttpMethod::DELETE => "DELETE"@,
        HttpMethod::OPTIONS => "OPTIONS"@,
    }
}

/// The method a start-line token names, if any.
pub open spec fn method_of_token(t: Seq<char>) -> Option<HttpMethod> {
    if t == "GET"@ {
        Some(HttpMethod::GET)
    } else if t == "POST"@ {
        Some(HttpMethod::POST)
    } else if t == "PUT"@ {
        Some(HttpMethod::PUT)
    } else if t == "DELETE"@ {
        Some(HttpMethod::DELETE)
    } else if t == "OPTIONS"@ {
        Some(HttpMethod::OPTIONS)
    } else {
        None
    }
}

impl HttpMethod {
    /// Parses a start-line method token.
    pub fn from_token(s: &str) -> (r: Option<HttpMethod>)
        ensures
            r == method_of_token(s@),
    {
        if crate::strutil::eq_str(s, "GET") {
            Some(HttpMethod::GET)
        } else if crate::strutil::eq_str(s, "POST") {
            Some(HttpMethod::POST)
        } else if crate::strutil::eq_str(s, "PUT") {
            Some(HttpMethod::PUT)
        } else if crate::strutil::eq_str(s, "DELETE") {
            Some(HttpMethod::DELETE)
        } else if crate::strutil::eq_str(s, "OPTIONS") {
            Some(HttpMethod::OPTIONS)
        } else {
            None
        }
    }

    /// The wire name of the method.
    pub fn name(&self) -> (r: &'static str)
        ensures
            r@ == method_name(*self),
    {
        match self {
            HttpMethod::GET => "GET",
            HttpMethod::POST => "POST",
            HttpMethod::PUT => "PUT",
            HttpMethod::DELETE => "DELETE",
            HttpMethod::OPTIONS => "OPTIONS",
        }
    }
}

// ---------------------------------------------------------------------------
// Query strings
// ---------------------------------------------------------------------------

/// One `key[=value]` pair: the part before the first `=` is the key, the
/// part after it the value, and a pair without `=` has the empty value.
pub open spec fn query_pair_of(p: Seq<char>) -> (Seq<char>, Seq<char>) {
    let i = first_index_of(p, '=');
    if i < 0 {
        (p, Seq::<char>::empty())
    } else {
        (p.subrange(0, i), p.subrange(i + 1, p.len() as int))
    }
}

/// The key/value pairs of a raw query string, split on `&`.
pub open spec fn query_pairs(q: Seq<char>) -> Seq<(Seq<char>, Seq<char>)> {
    split_chars(q, '&').map_values(|p: Seq<char>| query_pair_of(p))
}

/// Parses a raw query string into its key/value map; on a repeated key the
/// last pair wins.
pub fn parse_query_string(query: &str) -> (r: StrMap)
    ensures
        r.map_view() == map_of_entries(query_pairs(query@)),
{
    let pairs = split_str(query, '&');
    let ghost qp = query_pairs(query@);
    let mut r = StrMap::new();
    let n = pairs.len();
    let mut i: usize = 0;
    proof {
        assert(qp.subrange(0, 0) =~= Seq::<(Seq<char>, Seq<char>)>::empty());
    }
    while i < n
        invariant
            n == pairs@.len(),
            pairs.deep_view().len() == n,
            i <= n,
            qp == query_pairs(query@),
            qp.len() == n,
            qp == pairs.deep_view().map_values(|p: Seq<char>| query_pair_of(p)),
            r.map_view() == map_of_entries(qp.subrange(0, i as int)),
        decreases n - i,
    {
        let pair = &pairs[i];
        let ghost pv = pairs.deep_view()[i as int];
        match find_char(pair.as_str(), '=') {
            Some(j) => {
                let k = pair.as_str().substring_char(0, j);
                let pn = pair.as_str().unicode_len();
                let v = pair.as_str().substring_char(j + 1, pn);
                proof {
                    assert(qp[i as int] == query_pair_of(pv));
                }
                r.insert(k, v);
            },
            None => {
                proof {
                    assert(qp[i as int] == query_pair_of(pv));
                }
                r.insert(pair.as_str(), "");
                proof {
                    reveal_strlit("");
                    assert(""@ =~= Seq::<char>::empty());
                }
            },
        }
        proof {
            assert(qp.subrange(0, i as int + 1).drop_last() =~= qp.subrange(0, i as int));
            assert(qp.subrange(0, i as int + 1).last() == qp[i as int]);
        }
        i = i + 1;
    }
    proof {
        assert(qp.subrange(0, n as int) =~= qp);
    }
    r
}

// ---------------------------------------------------------------------------
// Header lines
// ---------------------------------------------------------------------------

/// One header line: the name is everything before the first `:` verbatim,
/// the value everything after it with surrounding whitespace removed; a
/// line without `:` becomes a name with an empty value.
pub open spec fn header_entry_of(line: Seq<char>) -> (Seq<char>, Seq<char>) {
    let i = first_index_of(line, ':');
    if i < 0 {
        (line, Seq::<char>::empty())
    } else {
        (line.subrange(0, i), trim_spec(line.subrange(i + 1, line.len() as int)))
    }
}

/// The index of the first blank line at or after `i`, or the line count if
/// there is none. A line of nothing but whitespace counts as blank.
pub open spec fn header_stop(lines: Seq<Seq<char>>, i: int) -> int
    decreases lines.len() - i,
{
    if i < 0 || i >= lines.len() || trim_right_spec(lines[i]).len() == 0 {
        i
    } else {
        header_stop(lines, i + 1)
    }
}

proof fn lemma_header_stop(lines: Seq<Seq<char>>, i: int, k: int)
    requires
        0 <= i <= k <= lines.len(),
        forall|j: int| i <= j < k ==> trim_right_spec(lines[j]).len() > 0,
        k == lines.len() || trim_right_spec(lines[k]).len() == 0,
    ensures
        header_stop(lines, i) == k,
    decreases k - i,
{
    if i < k {
        lemma_header_stop(lines, i + 1, k);
    }
}

/// The header entries of a message head: the lines after the start line up
/// to the first blank line, each with one trailing carriage return removed.
pub open spec fn header_entries(lines: Seq<Seq<char>>) -> Seq<(Seq<char>, Seq<char>)> {
    lines.subrange(1, header_stop(lines, 1)).map_values(
        |l: Seq<char>| header_entry_of(strip_cr_spec(l)),
    )
}

// ---------------------------------------------------------------------------
// Start line
// ---------------------------------------------------------------------------

/// What a valid start line denotes.
pub ghost struct StartModel {
    pub method: HttpMethod,
    pub path: Seq<char>,
    pub qury: Seq<char>,
    pub version: Seq<char>,
}

/// Parses a start line: after stripping trailing whitespace it must split
/// on single spaces into exactly a known method token, a request target,
/// and a version token; the target splits on the first `?` into path and
/// raw query string.
pub open spec fn start_line_spec(line: Seq<char>) -> Option<StartModel> {
    let toks = split_chars(trim_right_spec(line), ' ');
    if toks.len() != 3 {
        None
    } else {
        match method_of_token(toks[0]) {
            None => None,
            Some(m) => {
                let pq = toks[1];
                let qi = first_index_of(pq, '?');
                Some(
                    StartModel {
                        method: m,
                        path: if qi < 0 {
                            pq
                        } else {
                            pq.subrange(0, qi)
                        },
                        qury: if qi < 0 {
                            Seq::<char>::empty()
                        } else {
                            pq.subrange(qi + 1, pq.len() as int)
                        },
                        version: toks[2],
                    },
                )
            },
        }
    }
}

/// Splits a start line into method, path, raw query string, version and
/// parsed query parameters; rejects a line that is not exactly three
/// tokens or whose method token is unknown.
pub fn process_start_line(s: &str) -> (r: Result<
    (HttpMethod, String, String, String, StrMap),
    HttpError,
>)
    ensures
        match r {
            Ok((m, path, qury, ver, qp)) => {
                &&& start_line_spec(s@) matches Some(sm)
                &&& sm.method == m
                &&& sm.path == path@
                &&& sm.qury == qury@
                &&& sm.version == ver@
                &&& qp.map_view() == map_of_entries(query_pairs(qury@))
            },
            Err(e) => start_line_spec(s@) is None && e == HttpError::MalformedRequest,
        },
{
    let trimmed = trim_right_str(s);
    let toks = split_str(trimmed.as_str(), ' ');
    if toks.len() != 3 {
        return Err(HttpError::MalformedRequest);
    }
    let m = match HttpMethod::from_token(toks[0].as_str()) {
        Some(m) => m,
        None => {
            return Err(HttpError::MalformedRequest);
        },
    };
    let pq = &toks[1];
    let ver = toks[2].clone();
    proof {
        assert(toks.deep_view()[1] == pq@);
        assert(toks.deep_view()[2] == ver@);
    }
    match find_char(pq.as_str(), '?') {
        Some(qi) => {
            let path = pq.as_str().substring_char(0, qi).to_owned();
            let pn = pq.as_str().unicode_len();
            let qury = pq.as_str().substring_char(qi + 1, pn).to_owned();
            let qp = parse_query_string(qury.as_str());
            Ok((m, path, qury, ver, qp))
        },
        None => {
            let path = pq.clone();
            let qury = String::new();
            let qp = parse_query_string(qury.as_str());
            Ok((m, path, qury, ver, qp))
        },
    }
}

// ---------------------------------------------------------------------------
// Body content
// ---------------------------------------------------------------------------

/// A request body that can be read at most once: the first read yields the
/// content, every later read yields the empty string.
pub struct HttpRequestContent {
    data: String,
    consumed: bool,
}

impl HttpRequestContent {
    /// The stored body text.
    pub closed spec fn data_spec(&self) -> Seq<char> {
        self.data@
    }

    /// Whether the body was already read.
    pub closed spec fn consumed_spec(&self) -> bool {
        self.consumed
    }

    /// What the next read will yield.
    pub open spec fn read_result(&self) -> Seq<char> {
        if self.consumed_spec() {
            Seq::<char>::empty()
        } else {
            self.data_spec()
        }
    }

    /// A fresh, unread body.
    pub fn new(data: String) -> (r: HttpRequestContent)
        ensures
            r.data_spec() == data@,
            !r.consumed_spec(),
    {
        HttpRequestContent { data, consumed: false }
    }

    /// Reads the body out. Consuming: a repeated call returns the empty
    /// string.
    pub fn to_string(&mut self) -> (r: String)
        ensures
            r@ == old(self).read_result(),
            final(self).consumed_spec(),
            final(self).data_spec() == old(self).data_spec(),
    {
        if self.consumed {
            String::new()
        } else {
            self.consumed = true;
            self.data.clone()
        }
    }
}

/// The body-read operation is single-consumption: across two consecutive
/// reads of a fresh body, the first yields the original content and the
/// second yields the empty string. The pre/mid/post values and results are
/// related exactly as the contract of `HttpRequestContent::to_string`
/// relates them.
pub proof fn lemma_body_single_consumption(
    pre: HttpRequestContent,
    mid: HttpRequestContent,
    r1: Seq<char>,
    fin: HttpRequestContent,
    r2: Seq<char>,
)
    requires
        !pre.consumed_spec(),
        r1 == pre.read_result(),
        mid.consumed_spec(),
        mid.data_spec() == pre.data_spec(),
        r2 == mid.read_result(),
        fin.consumed_spec(),
        fin.data_spec() == mid.data_spec(),
    ensures
        r1 == pre.data_spec(),
        r2 == Seq::<char>::empty(),
        fin.read_result() == Seq::<char>::empty(),
{
}

// ---------------------------------------------------------------------------
// The request
// ---------------------------------------------------------------------------

/// What a valid message head denotes.
pub ghost struct ReqModel {
    pub method: HttpMethod,
    pub path: Seq<char>,
    pub qury: Seq<char>,
    pub version: Seq<char>,
    pub headers: Seq<(Seq<char>, Seq<char>)>,
}

/// Parses a whole message head: the first line is the start line, the
/// following lines up to the first blank line are headers.
pub open spec fn head_model(head: Seq<char>) -> Option<ReqModel> {
    let lines = split_chars(head, '\n');
    match start_line_spec(lines[0]) {
        None => None,
        Some(sm) => Some(
            ReqModel {
                method: sm.method,
                path: sm.path,
                qury: sm.qury,
                version: sm.version,
                headers: header_entries(lines),
            },
        ),
    }
}

/// One parsed request. The fields mirror the message head; the body is
/// read through `content` at most once.
pub struct HttpRequest {
    pub method: HttpMethod,
    pub path: String,
    pub qury: String,
    pub http_version: String,
    pub headers: StrMap,
    pub query_params: StrMap,
    pub content: HttpRequestContent,
}

impl HttpRequest {
    /// Parses a message head and attaches `body` as the unread content.
    /// Fails exactly when the start line is not three tokens with a known
    /// method.
    pub fn parse(head: &str, body: &str) -> (r: Result<HttpRequest, HttpError>)
        ensures
            match r {
                Ok(req) => {
                    &&& head_model(head@) matches Some(m)
                    &&& req.method == m.method
                    &&& req.path@ == m.path
                    &&& req.qury@ == m.qury
                    &&& req.http_version@ == m.version
                    &&& req.headers.map_view() == map_of_entries(m.headers)
                    &&& req.query_params.map_view() == map_of_entries(query_pairs(m.qury))
                    &&& req.content.data_spec() == body@
                    &&& !req.content.consumed_spec()
                },
                Err(e) => head_model(head@) is None && e == HttpError::MalformedRequest,
            },
    {
        let lines = split_str(head, '\n');
        proof {
            crate::strutil::lemma_split_chars_nonempty(head@, '\n');
        }
        let (method, path, qury, http_version, query_params) = match process_start_line(
            lines[0].as_str(),
        ) {
            Ok(t) => t,
            Err(e) => {
                return Err(e);
            },
        };
        let ghost lv = lines.deep_view();
        let n = lines.len();
        let mut headers = StrMap::new();
        let mut i: usize = 1;
        proof {
            assert(lv.subrange(1, 1) =~= Seq::<Seq<char>>::empty());
            assert(lv.subrange(1, 1).map_values(
                |l: Seq<char>| header_entry_of(strip_cr_spec(l)),
            ) =~= Seq::<(Seq<char>, Seq<char>)>::empty());
        }
        while i < n
            invariant
                1 <= i <= n,
                n == lines@.len(),
                lv == lines.deep_view(),
                lv == split_chars(head@, '\n'),
                lv.len() == n,
                ({
                    &&& start_line_spec(lv[0]) matches Some(sm)
                    &&& sm.method == method
                    &&& sm.path == path@
                    &&& sm.qury == qury@
                    &&& sm.version == http_version@
                }),
                query_params.map_view() == map_of_entries(query_pairs(qury@)),
                forall|j: int| 1 <= j < i ==> trim_right_spec(lv[j]).len() > 0,
                headers.map_view() == map_of_entries(
                    lv.subrange(1, i as int).map_values(
                        |l: Seq<char>| header_entry_of(strip_cr_spec(l)),
                    ),
                ),
            decreases n - i,
        {
            let line = &lines[i];
            proof {
                assert(lv[i as int] == lines@[i as int]@);
            }
            if is_blank(line.as_str()) {
                proof {
                    lemma_header_stop(lv, 1, i as int);
                    assert(lv == split_chars(head@, '\n'));
                    assert(lv[0] == lines@[0]@);
                    assert(header_entries(lv) =~= lv.subrange(1, i as int).map_values(
                        |l: Seq<char>| header_entry_of(strip_cr_spec(l)),
                    ));
                }
                return Ok(Self::assemble(method, path, qury, http_version, headers, query_params, body));
            }
            let stripped = strip_cr(line.as_str());
            let ghost entries_pre = lv.subrange(1, i as int).map_values(
                |l: Seq<char>| header_entry_of(strip_cr_spec(l)),
            );
            let ghost entries_post = lv.subrange(1, i as int + 1).map_values(
                |l: Seq<char>| header_entry_of(strip_cr_spec(l)),
            );
            proof {
                assert(entries_post.drop_last() =~= entries_pre);
                assert(entries_post.last() == header_entry_of(strip_cr_spec(lv[i as int])));
            }
            match find_char(stripped.as_str(), ':') {
                Some(ci) => {
                    let name = stripped.as_str().substring_char(0, ci);
                    let sn = stripped.as_str().unicode_len();
                    let value = trim_str(stripped.as_str().substring_char(ci + 1, sn));
                    headers.insert(name, value.as_str());
                },
                None => {
                    headers.insert(stripped.as_str(), "");
                    proof {
                        reveal_strlit("");
                        assert(""@ =~= Seq::<char>::empty());
                    }
                },
            }
            i = i + 1;
        }
        proof {
            lemma_header_stop(lv, 1, n as int);
            assert(lv == split_chars(head@, '\n'));
            assert(lv[0] == lines@[0]@);
            assert(header_entries(lv) =~= lv.subrange(1, n as int).map_values(
                |l: Seq<char>| header_entry_of(strip_cr_spec(l)),
            ));
        }
        Ok(Self::assemble(method, path, qury, http_version, headers, query_params, body))
    }

    fn assemble(
        method: HttpMethod,
        path: String,
        qury: String,
        http_version: String,
        headers: StrMap,
        query_params: StrMap,
        body: &str,
    ) -> (r: HttpRequest)
        ensures
            r.method == method,
            r.path == path,
            r.qury == qury,
            r.http_version == http_version,
            r.headers == headers,
            r.query_params == query_params,
            r.content.data_spec() == body@,
            !r.content.consumed_spec(),
    {
        HttpRequest {
            method,
            path,
            qury,
            http_version,
            headers,
            query_params,
            content: HttpRequestContent::new(body.to_owned()),
        }
    }
}

} // verus!

