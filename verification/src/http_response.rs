//! The response side of the wire protocol: the status enumeration, the
//! fluent response builder, and the byte-exact serializer.

use vstd::prelude::*;

use crate::strmap::{
    entries_unique, lemma_map_of_entries_at, lemma_map_of_entries_domain, map_of_entries, StrMap,
};
use crate::strutil::{dec_chars, usize_to_string};
use vstd::string::StringSliceAdditionalSpecFns;
use vstd::utf8::encode_utf8;

verus! {

// ---------------------------------------------------------------------------
// Status codes
// ---------------------------------------------------------------------------

/// The response statuses this server emits.
#[derive(Clone, Copy, PartialEq, Eq, Structural, Debug)]
pub enum HttpStatusCode {
    OK,
    Created,
    BadRequest,
    NotFound,
    InternalServerError,
    NotImplemented,
    ServiceUnavailable,
}

impl HttpStatusCode {
    /// The numeric code.
    pub open spec fn code_spec(self) -> int {
        match self {
            HttpStatusCode::OK => 200,
            HttpStatusCode::Created => 201,
            HttpStatusCode::BadRequest => 400,
            HttpStatusCode::NotFound => 404,
            HttpStatusCode::InternalServerError => 500,
            HttpStatusCode::NotImplemented => 501,
            HttpStatusCode::ServiceUnavailable => 503,
        }
    }

    /// The canonical reason phrase.
    pub open spec fn reason_spec(self) -> Seq<char> {
        match self {
            HttpStatusCode::OK => "OK"@,
            HttpStatusCode::Created => "Created"@,
            HttpStatusCode::BadRequest => "Bad Request"@,
            HttpStatusCode::NotFound => "Not Found"@,
            HttpStatusCode::InternalServerError => "Internal Server Error"@,
            HttpStatusCode::NotImplemented => "Not Implemented"@,
            HttpStatusCode::ServiceUnavailable => "Service Unavailable"@,
        }
    }

    /// The numeric code.
    pub fn code(&self) -> (r: u16)
        ensures
            r as int == self.code_spec(),
    {
        match self {
            HttpStatusCode::OK => 200,
            HttpStatusCode::Created => 201,
            HttpStatusCode::BadRequest => 400,
            HttpStatusCode::NotFound => 404,
            HttpStatusCode::InternalServerError => 500,
            HttpStatusCode::NotImplemented => 501,
            HttpStatusCode::ServiceUnavailable => 503,
        }
    }

    /// The canonical reason phrase.
    pub fn reason(&self) -> (r: &'static str)
        ensures
            r@ == self.reason_spec(),
    {
        match self {
            HttpStatusCode::OK => "OK",
            HttpStatusCode::Created => "Created",
            HttpStatusCode::BadRequest => "Bad Request",
            HttpStatusCode::NotFound => "Not Found",
            HttpStatusCode::InternalServerError => "Internal Server Error",
            HttpStatusCode::NotImplemented => "Not Implemented",
            HttpStatusCode::ServiceUnavailable => "Service Unavailable",
        }
    }

    /// The whole status line, carriage return and line feed included.
    pub open spec fn status_line_spec(self) -> Seq<char> {
        "HTTP/1.1 "@ + dec_chars(self.code_spec()) + " "@ + self.reason_spec() + "\r\n"@
    }

    /// Renders the status line.
    pub fn status_line(&self) -> (r: String)
        ensures
            r@ == self.status_line_spec(),
    {
        let mut s = String::new();
        s.append("HTTP/1.1 ");
        let code = self.code();
        let digits = usize_to_string(code as usize);
        s.append(digits.as_str());
        s.append(" ");
        s.append(self.reason());
        s.append("\r\n");
        proof {
            assert(s@ =~= self.status_line_spec());
        }
        s
    }
}

// ---------------------------------------------------------------------------
// Serialization specification
// ---------------------------------------------------------------------------

/// One serialized header line.
pub open spec fn header_line_chars(e: (Seq<char>, Seq<char>)) -> Seq<char> {
    e.0 + ": "@ + e.1 + "\r\n"@
}

/// The serialized header block, one line per entry in entry order.
pub open spec fn headers_chars(es: Seq<(Seq<char>, Seq<char>)>) -> Seq<char>
    decreases es.len(),
{
    if es.len() == 0 {
        Seq::<char>::empty()
    } else {
        headers_chars(es.drop_last()) + header_line_chars(es.last())
    }
}

/// Everything before the body: status line, header block, one blank line.
pub open spec fn head_chars(status: HttpStatusCode, headers: Seq<(Seq<char>, Seq<char>)>) -> Seq<
    char,
> {
    status.status_line_spec() + headers_chars(headers) + "\r\n"@
}

/// The full wire form: the UTF-8 bytes of the head, then the raw body.
pub open spec fn serialize_spec(
    status: HttpStatusCode,
    headers: Seq<(Seq<char>, Seq<char>)>,
    body: Option<Seq<u8>>,
) -> Seq<u8> {
    encode_utf8(head_chars(status, headers)) + (match body {
        Some(b) => b,
        None => Seq::<u8>::empty(),
    })
}

/// `needle` occurs contiguously inside `hay`.
pub open spec fn contains_seq(hay: Seq<char>, needle: Seq<char>) -> bool {
    exists|k: int|
        0 <= k && k + needle.len() <= hay.len() && #[trigger] hay.subrange(k, k + needle.len())
            == needle
}

pub proof fn lemma_headers_chars_has_entry(es: Seq<(Seq<char>, Seq<char>)>, i: int)
    requires
        0 <= i < es.len(),
    ensures
        contains_seq(headers_chars(es), header_line_chars(es[i])),
    decreases es.len(),
{
    let line = header_line_chars(es[i]);
    if i == es.len() - 1 {
        let k = headers_chars(es.drop_last()).len();
        assert(headers_chars(es).subrange(k as int, k as int + line.len() as int) =~= line);
    } else {
        assert(es.drop_last()[i] == es[i]);
        lemma_headers_chars_has_entry(es.drop_last(), i);
        let pre = headers_chars(es.drop_last());
        let k = choose|k: int|
            0 <= k && k + line.len() <= pre.len() && #[trigger] pre.subrange(k, k + line.len()) == line;
        assert(headers_chars(es).subrange(k, k + line.len() as int) =~= line);
    }
}

// ---------------------------------------------------------------------------
// The response
// ---------------------------------------------------------------------------

/// A response under construction: a status, a header map and an optional
/// raw body. Builder methods return the updated value.
pub struct HttpResponse {
    status_code: HttpStatusCode,
    headers: StrMap,
    body: Option<Vec<u8>>,
}

impl HttpResponse {
    /// The status.
    pub closed spec fn status_spec(&self) -> HttpStatusCode {
        self.status_code
    }

    /// The header entries, in insertion order.
    pub closed spec fn headers_seq(&self) -> Seq<(Seq<char>, Seq<char>)> {
        self.headers@
    }

    /// The headers as a map.
    pub open spec fn headers_map(&self) -> Map<Seq<char>, Seq<char>> {
        map_of_entries(self.headers_seq())
    }

    /// The body bytes, if a body was set.
    pub closed spec fn body_spec(&self) -> Option<Seq<u8>> {
        match self.body {
            Some(ref b) => Some(b@),
            None => None,
        }
    }

    /// A bodiless response with the given status and a zero
    /// `Content-Length`.
    pub fn new(status_code: HttpStatusCode) -> (r: HttpResponse)
        ensures
            r.status_spec() == status_code,
            r.headers_seq() == seq![("Content-Length"@, "0"@)],
            r.headers_map() == map_of_entries(seq![("Content-Length"@, "0"@)]),
            r.body_spec() is None,
    {
        let mut headers = StrMap::new();
        headers.insert("Content-Length", "0");
        let r = HttpResponse { status_code, headers, body: None };
        proof {
            assert(r.headers_seq() =~= seq![("Content-Length"@, "0"@)]);
        }
        r
    }

    /// The status.
    pub fn status_code(&self) -> (r: HttpStatusCode)
        ensures
            r == self.status_spec(),
    {
        self.status_code
    }

    /// Binds a header, overwriting an existing binding of the same name.
    pub fn set_header(&mut self, key: &str, value: &str)
        ensures
            final(self).status_spec() == old(self).status_spec(),
            final(self).body_spec() == old(self).body_spec(),
            final(self).headers_map() == old(self).headers_map().insert(key@, value@),
            old(self).headers_map().contains_key(key@) ==> final(self).headers_seq().len() == old(
                self,
            ).headers_seq().len(),
            !old(self).headers_map().contains_key(key@) ==> final(self).headers_seq() == old(
                self,
            ).headers_seq().push((key@, value@)),
    {
        self.headers.insert(key, value);
    }

    /// The value of a header, if bound.
    pub fn get_header(&self, key: &str) -> (r: Option<&String>)
        ensures
            match r {
                Some(v) => self.headers_map().contains_key(key@) && self.headers_map()[key@]
                    == v@,
                None => !self.headers_map().contains_key(key@),
            },
    {
        self.headers.get(key)
    }

    /// Binds a header and hands the response back.
    pub fn with_header(self, key: &str, value: &str) -> (r: HttpResponse)
        ensures
            r.status_spec() == self.status_spec(),
            r.body_spec() == self.body_spec(),
            r.headers_map() == self.headers_map().insert(key@, value@),
            self.headers_map().contains_key(key@) ==> r.headers_seq().len()
                == self.headers_seq().len(),
            !self.headers_map().contains_key(key@) ==> r.headers_seq()
                == self.headers_seq().push((key@, value@)),
    {
        let mut r = self;
        r.set_header(key, value);
        r
    }

    /// Sets a plain-text body; `Content-Length` and `Content-Type` are
    /// recomputed to match.
    pub fn with_body(self, body: &str) -> (r: HttpResponse)
        ensures
            r.status_spec() == self.status_spec(),
            r.body_spec() == Some(body.spec_bytes()),
            r.headers_map() == self.headers_map().insert(
                "Content-Length"@,
                dec_chars(body.spec_bytes().len() as int),
            ).insert("Content-Type"@, "text/plain"@),
    {
        let bytes = body.as_bytes_vec();
        self.with_bytes_body(bytes, "text/plain")
    }

    /// The body bytes, if a body was set.
    pub fn get_body(&self) -> (r: Option<&Vec<u8>>)
        ensures
            match r {
                Some(b) => self.body_spec() == Some(b@),
                None => self.body_spec() is None,
            },
    {
        self.body.as_ref()
    }

    /// Sets a raw body with the given content type; `Content-Length` is
    /// recomputed to the exact byte length.
    pub fn with_bytes_body(self, body: Vec<u8>, content_type: &str) -> (r: HttpResponse)
        ensures
            r.status_spec() == self.status_spec(),
            r.body_spec() == Some(body@),
            r.headers_map() == self.headers_map().insert(
                "Content-Length"@,
                dec_chars(body@.len() as int),
            ).insert("Content-Type"@, content_type@),
    {
        let mut r = self;
        let len_str = usize_to_string(body.len());
        r.set_header("Content-Length", len_str.as_str());
        r.set_header("Content-Type", content_type);
        r.body = Some(body);
        r
    }

    /// Surfaces the header map's invariant for proofs: no header name
    /// repeats in the entry list. Every response satisfies it by
    /// construction; it discharges the hypothesis of
    /// `lemma_content_length_emitted` for callers outside this module.
    pub fn headers_unique(&self) -> (r: bool)
        ensures
            r,
            entries_unique(self.headers_seq()),
    {
        self.headers.keys_unique()
    }

    /// Serializes the response: status line, header lines in entry order,
    /// a blank line, then the raw body bytes.
    pub fn to_bytes(&self) -> (r: Vec<u8>)
        ensures
            r@ == serialize_spec(self.status_spec(), self.headers_seq(), self.body_spec()),
    {
        let mut s = self.status_code.status_line();
        let n = self.headers.len();
        let mut i: usize = 0;
        proof {
            assert(self.headers_seq().subrange(0, 0) =~= Seq::<(Seq<char>, Seq<char>)>::empty());
        }
        while i < n
            invariant
                i <= n,
                n == self.headers_seq().len(),
                s@ == self.status_spec().status_line_spec() + headers_chars(
                    self.headers_seq().subrange(0, i as int),
                ),
        decreases n - i,
        {
            let ghost pre = s@;
            let key = self.headers.key_at(i);
            s.append(key.as_str());
            s.append(": ");
            let value = self.headers.value_at(i);
            s.append(value.as_str());
            s.append("\r\n");
            proof {
                let es = self.headers_seq();
                assert(es.subrange(0, i as int + 1).drop_last() =~= es.subrange(0, i as int));
                assert(es.subrange(0, i as int + 1).last() == es[i as int]);
                assert(s@ =~= pre + header_line_chars(es[i as int]));
                assert(s@ =~= self.status_spec().status_line_spec() + headers_chars(
                    es.subrange(0, i as int + 1),
                ));
            }
            i = i + 1;
        }
        s.append("\r\n");
        proof {
            assert(self.headers_seq().subrange(0, n as int) =~= self.headers_seq());
            assert(s@ =~= head_chars(self.status_spec(), self.headers_seq()));
        }
        let mut out = s.as_str().as_bytes_vec();
        match &self.body {
            Some(b) => {
                out.extend_from_slice(b.as_slice());
                proof {
                    assert(out@ =~= serialize_spec(
                        self.status_spec(),
                        self.headers_seq(),
                        self.body_spec(),
                    ));
                }
            },
            None => {
                proof {
                    assert(out@ =~= serialize_spec(
                        self.status_spec(),
                        self.headers_seq(),
                        self.body_spec(),
                    ));
                }
            },
        }
        out
    }
}

// ---------------------------------------------------------------------------
// The Content-Length law
// ---------------------------------------------------------------------------

/// Setting a body of `n` bytes always leaves a `Content-Length` header of
proof fn lemma_head_contains_line(
    status: HttpStatusCode,
    es: Seq<(Seq<char>, Seq<char>)>,
    i: int,
)
    requires
        0 <= i < es.len(),
    ensures
        contains_seq(head_chars(status, es), header_line_chars(es[i])),
{
    lemma_headers_chars_has_entry(es, i);
    let line = header_line_chars(es[i]);
    let hb = headers_chars(es);
    let k = choose|k: int|
        0 <= k && k + line.len() <= hb.len() && #[trigger] hb.subrange(k, k + line.len()) == line;
    let head = head_chars(status, es);
    let off = status.status_line_spec().len();
    assert(head.subrange(off + k, off + k + line.len() as int) =~= line);
}

/// Setting a body of `n` bytes always leaves a `Content-Length` header of
/// exactly `n`, and serializing such a response emits that exact header
/// line. The hypotheses are what `with_bytes_body` (and `with_body`)
/// ensure about their result, together with the header map's own
/// invariant that no header name repeats, which every response the
/// library builds maintains.
#[verifier::spinoff_prover]
pub proof fn lemma_content_length_emitted(
    pre_map: Map<Seq<char>, Seq<char>>,
    body: Seq<u8>,
    ct: Seq<char>,
    post: HttpResponse,
)
    requires
        entries_unique(post.headers_seq()),
        post.headers_map() == pre_map.insert("Content-Length"@, dec_chars(body.len() as int))
            .insert("Content-Type"@, ct),
        post.body_spec() == Some(body),
    ensures
        post.headers_map().contains_key("Content-Length"@),
        post.headers_map()["Content-Length"@] == dec_chars(body.len() as int),
        contains_seq(
            head_chars(post.status_spec(), post.headers_seq()),
            header_line_chars(("Content-Length"@, dec_chars(body.len() as int))),
        ),
{
    reveal_strlit("Content-Length");
    reveal_strlit("Content-Type");
    assert("Content-Length"@.len() == 14);
    assert("Content-Type"@.len() == 12);
    assert("Content-Length"@ != "Content-Type"@);
    let es = post.headers_seq();
    lemma_map_of_entries_domain(es, "Content-Length"@);
    let i = choose|i: int| 0 <= i < es.len() && es[i].0 == "Content-Length"@;
    lemma_map_of_entries_at(es, i);
    assert(es[i] == ("Content-Length"@, dec_chars(body.len() as int)));
    lemma_head_contains_line(post.status_spec(), es, i);
}

} // verus!
