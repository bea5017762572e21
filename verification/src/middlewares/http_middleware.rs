//! The middleware pipeline's vocabulary: one sum type over the shipped
//! pipeline stages, and the step a stage takes on a request's way in.
//!
//! The chain dispatches over this closed set of stages; each variant's
//! behavior is specified on its own type.

use vstd::prelude::*;

use crate::http_response::HttpResponse;
use crate::middlewares::dummy_middleware::DummyMiddleware;
use crate::middlewares::encoding_middleware::EncodingMiddleware;
use crate::middlewares::logging_middleware::LoggingMiddleware;
use crate::middlewares::panic_middleware::PanicMiddleware;
use crate::middlewares::static_files_middleware::StaticFilesMiddleware;
use crate::middlewares::statistic_middleware::StatisticMiddleware;

verus! {

/// What a stage does with a request on the way in: pass it on, or answer
/// it directly without running the rest of the pipeline.
pub enum MiddlewareStep {
    Continue,
    Short(HttpResponse),
}

/// One pipeline stage. The chain holds stages as values of this sum type,
/// outermost first; the router is not among them, it terminates the
/// chain.
pub enum HttpMiddleware {
    Dummy(DummyMiddleware),
    Logging(LoggingMiddleware),
    Panic(PanicMiddleware),
    Statistic(StatisticMiddleware),
    Encoding(EncodingMiddleware),
    StaticFiles(StaticFilesMiddleware),
}

impl HttpMiddleware {
    /// Running the pipeline changes a stage's counters at most: the
    /// variant and its configuration stay what they were.
    pub open spec fn stable_from(&self, pre: HttpMiddleware) -> bool {
        match (pre, *self) {
            (HttpMiddleware::Dummy(_), HttpMiddleware::Dummy(_)) => true,
            (HttpMiddleware::Logging(_), HttpMiddleware::Logging(_)) => true,
            (HttpMiddleware::Panic(_), HttpMiddleware::Panic(_)) => true,
            (HttpMiddleware::Statistic(a), HttpMiddleware::Statistic(b)) => a.path_spec()
                == b.path_spec(),
            (HttpMiddleware::Encoding(_), HttpMiddleware::Encoding(_)) => true,
            (HttpMiddleware::StaticFiles(a), HttpMiddleware::StaticFiles(b)) => a == b,
            _ => false,
        }
    }
}

} // verus!
