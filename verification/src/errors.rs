use vstd::prelude::*;

verus! {

/// Why a request or a route registration was rejected.
#[derive(Clone, Copy, PartialEq, Eq, Structural, Debug)]
pub enum HttpError {
    /// A route pattern that does not follow the pattern grammar.
    InvalidPattern,
    /// A request whose start line cannot be split into method, target and
    /// version, or whose method token is not recognized.
    MalformedRequest,
}

/// An unrecoverable fault raised by a handler or by a downstream pipeline
/// stage. It travels up the middleware chain; a fault-isolation stage may
/// convert it into an error response, otherwise the connection worker stops.
#[derive(Clone, Copy, PartialEq, Eq, Structural, Debug)]
pub struct HandlerFault;

impl HttpError {
    /// A short description of the error.
    pub fn message(&self) -> (r: &'static str)
        ensures
            *self is InvalidPattern ==> r@ == "invalid URL pattern"@,
            *self is MalformedRequest ==> r@ == "malformed request"@,
    {
        match self {
            HttpError::InvalidPattern => "invalid URL pattern",
            HttpError::MalformedRequest => "malformed request",
        }
    }
}

} // verus!
