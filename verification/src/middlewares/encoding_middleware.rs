//! Response compression: when the request's `Accept-Encoding` carries a
//! `gzip` token, the response body is compressed through the gzip codec
//! and the headers are rewritten to match.

use vstd::prelude::*;

use crate::errors::HandlerFault;
use crate::http_request::HttpRequest;
use crate::http_response::HttpResponse;
use crate::strutil::{dec_chars, eq_str, split_chars, split_str, trim_spec, trim_str};
use vstd::string::StringSliceAdditionalSpecFns;

verus! {

// ---------------------------------------------------------------------------
// The gzip codec, named
// ---------------------------------------------------------------------------

/// What the gzip codec produces for `data` at the default level.
pub uninterp spec fn gzip_of(data: Seq<u8>) -> Seq<u8>;

/// Relies on flate2's `write::GzEncoder` over an in-memory buffer at the
/// default compression level. The stream it produces is a function of the
/// input bytes alone: flate2 fixes the gzip header's timestamp and OS
/// byte for cross-platform reproducibility, and the default backend is
/// pure Rust. Writing into a `Vec` sink cannot fail.
#[verifier::external_body]
fn gzip_compress(data: &[u8]) -> (r: Vec<u8>)
    ensures
        r@ == gzip_of(data@),
{
    let mut encoder = flate2::write::GzEncoder::new(Vec::new(), flate2::Compression::default());
    std::io::Write::write_all(&mut encoder, data).unwrap();
    encoder.finish().unwrap()
}

/// What `String::from_utf8_lossy` produces for `bytes`.
pub uninterp spec fn utf8_lossy_of(bytes: Seq<u8>) -> Seq<char>;

/// Relies on `String::from_utf8_lossy`: the result is a function of the
/// bytes alone, and valid UTF-8 input decodes to the string it encodes.
#[verifier::external_body]
fn from_utf8_lossy_string(data: &[u8]) -> (r: String)
    ensures
        r@ == utf8_lossy_of(data@),
        vstd::utf8::valid_utf8(data@) ==> vstd::utf8::encode_utf8(r@) == data@,
{
    String::from_utf8_lossy(data).to_string()
}

// ---------------------------------------------------------------------------
// Accept-Encoding
// ---------------------------------------------------------------------------

/// Whether an `Accept-Encoding` value lists `gzip`: split on commas, trim
/// each token, compare exactly.
pub open spec fn accepts_gzip(v: Seq<char>) -> bool {
    exists|i: int|
        0 <= i < split_chars(v, ',').len() && trim_spec(#[trigger] split_chars(v, ',')[i])
            == "gzip"@
}

/// Whether a request's headers ask for gzip.
pub open spec fn wants_gzip(headers: Map<Seq<char>, Seq<char>>) -> bool {
    headers.contains_key("Accept-Encoding"@) && accepts_gzip(headers["Accept-Encoding"@])
}

/// Checks one `Accept-Encoding` value for a `gzip` token.
pub fn has_gzip_token(v: &str) -> (r: bool)
    ensures
        r == accepts_gzip(v@),
{
    let parts = split_str(v, ',');
    let n = parts.len();
    let mut i: usize = 0;
    while i < n
        invariant
            n == parts@.len(),
            parts.deep_view() == split_chars(v@, ','),
            parts.deep_view().len() == n,
            i <= n,
            forall|j: int|
                0 <= j < i ==> trim_spec(#[trigger] split_chars(v@, ',')[j]) != "gzip"@,
        decreases n - i,
    {
        let t = trim_str(parts[i].as_str());
        proof {
            assert(parts.deep_view()[i as int] == parts@[i as int]@);
        }
        if eq_str(t.as_str(), "gzip") {
            return true;
        }
        i = i + 1;
    }
    false
}

// ---------------------------------------------------------------------------
// The middleware
// ---------------------------------------------------------------------------

/// Compresses response bodies for requests that accept gzip. The decision
/// is taken from the request on its way in and applied to the response on
/// its way out.
pub struct EncodingMiddleware {
    gzip_pending: bool,
}

/// The headers of `r` after compression relative to the headers of the
/// original response `orig`: `Content-Length` is the compressed length,
/// the content type is kept (or defaults to `application/octet-stream`),
/// and `Content-Encoding` is `gzip`.
pub open spec fn gzip_rewritten_headers(
    orig: Map<Seq<char>, Seq<char>>,
    compressed_len: int,
) -> Map<Seq<char>, Seq<char>> {
    orig.insert("Content-Length"@, dec_chars(compressed_len)).insert(
        "Content-Type"@,
        if orig.contains_key("Content-Type"@) {
            orig["Content-Type"@]
        } else {
            "application/octet-stream"@
        },
    ).insert("Content-Encoding"@, "gzip"@)
}

/// A response whose body went through the gzip codec: it is marked
/// `Content-Encoding: gzip`, its body is some input's compressed form,
/// and `Content-Length` is that form's exact length.
pub open spec fn is_gzip_rewritten(r: HttpResponse) -> bool {
    &&& r.headers_map().contains_key("Content-Encoding"@)
    &&& r.headers_map()["Content-Encoding"@] == "gzip"@
    &&& exists|b: Seq<u8>|
        {
            &&& r.body_spec() == Some(#[trigger] gzip_of(b))
            &&& r.headers_map().contains_key("Content-Length"@)
            &&& r.headers_map()["Content-Length"@] == dec_chars(gzip_of(b).len() as int)
        }
}

/// What `gzip_rewritten_headers` and a compressed body amount to: the
/// response is marked as gzip-rewritten.
pub proof fn lemma_gzip_rewrite_marks(orig: Map<Seq<char>, Seq<char>>, b: Seq<u8>, r: HttpResponse)
    requires
        r.headers_map() == gzip_rewritten_headers(orig, gzip_of(b).len() as int),
        r.body_spec() == Some(gzip_of(b)),
    ensures
        is_gzip_rewritten(r),
{
    reveal_strlit("Content-Length");
    reveal_strlit("Content-Type");
    reveal_strlit("Content-Encoding");
    assert("Content-Length"@.len() == 14);
    assert("Content-Type"@.len() == 12);
    assert("Content-Encoding"@.len() == 16);
    assert(r.headers_map()["Content-Encoding"@] == "gzip"@);
    assert(r.headers_map()["Content-Length"@] == dec_chars(gzip_of(b).len() as int));
    assert(r.body_spec() == Some(gzip_of(b)) && r.headers_map().contains_key("Content-Length"@)
        && r.headers_map()["Content-Length"@] == dec_chars(gzip_of(b).len() as int));
}

impl EncodingMiddleware {
    /// Whether the current request asked for gzip.
    pub closed spec fn gzip_pending_spec(&self) -> bool {
        self.gzip_pending
    }

    /// A fresh encoding stage.
    pub fn new() -> (r: EncodingMiddleware)
        ensures
            !r.gzip_pending_spec(),
    {
        EncodingMiddleware { gzip_pending: false }
    }

    /// The example text encoding: a string's UTF-8 bytes.
    pub fn encode(&self, data: &str) -> (r: Vec<u8>)
        ensures
            r@ == data.spec_bytes(),
    {
        data.as_bytes_vec()
    }

    /// The example text decoding: bytes back to a string, with invalid
    /// sequences replaced.
    pub fn decode(&self, data: &[u8]) -> (r: String)
        ensures
            r@ == utf8_lossy_of(data@),
            vstd::utf8::valid_utf8(data@) ==> vstd::utf8::encode_utf8(r@) == data@,
    {
        from_utf8_lossy_string(data)
    }

    /// Reads the request's `Accept-Encoding` on the way in and remembers
    /// whether to compress the response.
    pub fn note_request(&mut self, req: &HttpRequest)
        ensures
            final(self).gzip_pending_spec() == wants_gzip(req.headers.map_view()),
    {
        let pending = match req.headers.get("Accept-Encoding") {
            Some(v) => has_gzip_token(v.as_str()),
            None => false,
        };
        self.gzip_pending = pending;
    }

    /// Applies an already compressed body to a response, rewriting
    /// `Content-Length`, keeping the content type (or defaulting it) and
    /// marking the body `Content-Encoding: gzip`.
    pub fn encode_response(&self, resp: HttpResponse, compressed: Vec<u8>) -> (r: HttpResponse)
        ensures
            r.status_spec() == resp.status_spec(),
            r.body_spec() == Some(compressed@),
            r.headers_map() == gzip_rewritten_headers(resp.headers_map(), compressed@.len() as int),
    {
        let content_type = match resp.get_header("Content-Type") {
            Some(ct) => ct.clone(),
            None => "application/octet-stream".to_owned(),
        };
        resp.with_bytes_body(compressed, content_type.as_str()).with_header(
            "Content-Encoding",
            "gzip",
        )
    }

    /// Compresses a successful response's body when the request asked for
    /// gzip; a fault, or a response nobody asked to compress, passes
    /// through untouched.
    pub fn transform(&self, outcome: Result<HttpResponse, HandlerFault>) -> (r: Result<
        HttpResponse,
        HandlerFault,
    >)
        ensures
            match outcome {
                Ok(resp) => {
                    if self.gzip_pending_spec() {
                        &&& r matches Ok(r2)
                        &&& r2.status_spec() == resp.status_spec()
                        &&& r2.body_spec() == Some(
                            gzip_of(
                                match resp.body_spec() {
                                    Some(b) => b,
                                    None => Seq::<u8>::empty(),
                                },
                            ),
                        )
                        &&& r2.headers_map() == gzip_rewritten_headers(
                            resp.headers_map(),
                            gzip_of(
                                match resp.body_spec() {
                                    Some(b) => b,
                                    None => Seq::<u8>::empty(),
                                },
                            ).len() as int,
                        )
                    } else {
                        r == Ok::<HttpResponse, HandlerFault>(resp)
                    }
                },
                Err(f) => r == Err::<HttpResponse, HandlerFault>(f),
            },
    {
        match outcome {
            Ok(resp) => {
                if self.gzip_pending {
                    let compressed = match resp.get_body() {
                        Some(b) => gzip_compress(b.as_slice()),
                        None => {
                            let empty: Vec<u8> = Vec::new();
                            gzip_compress(empty.as_slice())
                        },
                    };
                    Ok(self.encode_response(resp, compressed))
                } else {
                    Ok(resp)
                }
            },
            Err(f) => Err(f),
        }
    }
}

} // verus!
