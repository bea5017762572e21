//! Observational logging: one line when a request comes in, one line when
//! its response goes out. Nothing is inspected or changed beyond that.

use vstd::prelude::*;

use crate::http_request::{method_name, HttpRequest};
use crate::http_response::HttpResponse;
use std::io::Write;

verus! {

/// Logs each request's method and path, and each response's status.
pub struct LoggingMiddleware;

impl LoggingMiddleware {
    /// A fresh logging stage.
    pub fn new() -> (r: LoggingMiddleware) {
        LoggingMiddleware {  }
    }

    /// The line logged before the request travels on.
    pub fn request_log_line(&self, req: &HttpRequest) -> (r: String)
        ensures
            r@ == "Received request: "@ + method_name(req.method) + " "@ + req.path@,
    {
        let mut s = String::new();
        s.append("Received request: ");
        s.append(req.method.name());
        s.append(" ");
        s.append(req.path.as_str());
        proof {
            assert(s@ =~= "Received request: "@ + method_name(req.method) + " "@ + req.path@);
        }
        s
    }

    /// The line logged when the response comes back.
    pub fn response_log_line(&self, resp: &HttpResponse) -> (r: String)
        ensures
            r@ == "Responding with status: "@ + resp.status_spec().reason_spec(),
    {
        let mut s = String::new();
        s.append("Responding with status: ");
        s.append(resp.status_code().reason());
        proof {
            assert(s@ =~= "Responding with status: "@ + resp.status_spec().reason_spec());
        }
        s
    }

    /// Logs the incoming request.
    pub fn log_request(&self, req: &HttpRequest) {
        let line = self.request_log_line(req);
        emit_log_line(line.as_str());
    }

    /// Logs the outgoing response's status.
    pub fn log_response(&self, resp: &HttpResponse) {
        let line = self.response_log_line(resp);
        emit_log_line(line.as_str());
    }
}

/// Relies on `writeln!` to standard output (`std::io::Stdout::write_fmt`):
/// prints one line; the outcome is ignored, and nothing is promised of it.
#[verifier::external_body]
fn emit_log_line(line: &str) {
    let mut out = std::io::stdout();
    let _ = writeln!(out, "{}", line);
}

} // verus!
