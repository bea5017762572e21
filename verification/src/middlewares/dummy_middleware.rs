//! A stand-in pipeline stage that answers every request with an empty
//! "not found" response and never passes the request on.

use vstd::prelude::*;

use crate::http_response::{HttpResponse, HttpStatusCode};

verus! {

/// Short-circuits every request with an empty 404.
pub struct DummyMiddleware;

impl DummyMiddleware {
    /// A fresh stand-in stage.
    pub fn new() -> (r: DummyMiddleware) {
        DummyMiddleware {  }
    }

    /// The response this stage gives to everything.
    pub fn respond(&self) -> (r: HttpResponse)
        ensures
            r.status_spec() == HttpStatusCode::NotFound,
            r.headers_seq() == seq![("Content-Length"@, "0"@)],
            r.body_spec() is None,
    {
        HttpResponse::new(HttpStatusCode::NotFound)
    }
}

} // verus!
