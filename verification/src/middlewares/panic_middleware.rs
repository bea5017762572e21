//! Fault isolation: a downstream fault is converted into a plain 500
//! response instead of tearing the connection's worker down.

use vstd::prelude::*;

use crate::errors::HandlerFault;
use crate::http_response::{HttpResponse, HttpStatusCode};
use crate::strutil::dec_chars;
use vstd::string::StringSliceAdditionalSpecFns;
use vstd::utf8::encode_utf8;

verus! {

/// The fixed body of the isolation response.
pub open spec fn internal_error_body() -> Seq<char> {
    "Internal Server Error"@
}

/// The response the isolation stage substitutes for a fault.
pub open spec fn is_internal_error_response(r: HttpResponse) -> bool {
    &&& r.status_spec() == HttpStatusCode::InternalServerError
    &&& r.body_spec() == Some(encode_utf8(internal_error_body()))
    &&& r.headers_map() == Map::<Seq<char>, Seq<char>>::empty().insert(
        "Content-Length"@,
        "0"@,
    ).insert("Content-Length"@, dec_chars(encode_utf8(internal_error_body()).len() as int)).insert(
        "Content-Type"@,
        "text/plain"@,
    )
}

/// Converts a downstream fault into a 500 response with a fixed body;
/// a successful outcome passes through untouched.
pub struct PanicMiddleware;

impl PanicMiddleware {
    /// A fresh isolation stage.
    pub fn new() -> (r: PanicMiddleware) {
        PanicMiddleware {  }
    }

    /// Applies the isolation boundary to a downstream outcome.
    pub fn isolate(&self, outcome: Result<HttpResponse, HandlerFault>) -> (r: Result<
        HttpResponse,
        HandlerFault,
    >)
        ensures
            outcome matches Ok(_) ==> r == outcome,
            outcome matches Err(_) ==> (r matches Ok(resp) && is_internal_error_response(
                resp,
            )),
    {
        match outcome {
            Ok(resp) => Ok(resp),
            Err(_) => {
                let resp = HttpResponse::new(HttpStatusCode::InternalServerError).with_body(
                    "Internal Server Error",
                );
                proof {
                    crate::strmap::lemma_map_of_entries_singleton("Content-Length"@, "0"@);
                    assert(is_internal_error_response(resp));
                }
                Ok(resp)
            },
        }
    }
}

} // verus!
