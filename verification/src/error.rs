//! Error types of the router and of its forwarding path.
use vstd::prelude::*;

verus! {

/// Errors of the router as a whole.
#[derive(Debug, Clone, PartialEq, Eq)]
pub enum RZError {
    ParseError(String),
    Config(String),
    Io(String),
    Http(String),
    Resolver(String),
    NoRoute(String),
    Timeout,
    ConnectionClosed,
    Validation(String),
    System(String),
    Forward(String),
}

/// Errors reported by the forwarding path; each is answered to the client
/// with an error frame.
#[derive(Debug, Clone, PartialEq, Eq)]
pub enum ForwardError {
    UnknownSegment(String),
    NetworkError,
    Timeout,
    Internal(String),
}

} // verus!
