//! The closed set of HTTP request methods understood by the engine.

use vstd::prelude::*;

verus! {

/// An HTTP request method. `EMPTY` stands for "not set": the request
/// parser leaves the method at `EMPTY` when the control line carries a
/// token it does not recognize.
#[derive(Debug, Clone, Copy, PartialEq, Eq, Hash, Structural)]
pub enum HTTPMethod {
    EMPTY,
    GET,
    POST,
    HEAD,
    PUT,
    DELETE,
    CONNECT,
    OPTIONS,
    TRACE,
    PATCH,
}

/// The wire name of a method, `"EMPTY"` for the unset value.
pub open spec fn spec_method_name(m: HTTPMethod) -> Seq<char> {
    match m {
        HTTPMethod::EMPTY => "EMPTY"@,
        HTTPMethod::GET => "GET"@,
        HTTPMethod::POST => "POST"@,
        HTTPMethod::HEAD => "HEAD"@,
        HTTPMethod::PUT => "PUT"@,
        HTTPMethod::DELETE => "DELETE"@,
        HTTPMethod::CONNECT => "CONNECT"@,
        HTTPMethod::OPTIONS => "OPTIONS"@,
        HTTPMethod::TRACE => "TRACE"@,
        HTTPMethod::PATCH => "PATCH"@,
    }
}

impl HTTPMethod {
    /// The wire name of the method as a string.
    pub fn name(&self) -> (r: String)
        ensures
            r@ == spec_method_name(*self),
    {
        match self {
            HTTPMethod::EMPTY => String::from_str("EMPTY"),
            HTTPMethod::GET => String::from_str("GET"),
            HTTPMethod::POST => String::from_str("POST"),
            HTTPMethod::HEAD => String::from_str("HEAD"),
            HTTPMethod::PUT => String::from_str("PUT"),
            HTTPMethod::DELETE => String::from_str("DELETE"),
            HTTPMethod::CONNECT => String::from_str("CONNECT"),
            HTTPMethod::OPTIONS => String::from_str("OPTIONS"),
            HTTPMethod::TRACE => String::from_str("TRACE"),
            HTTPMethod::PATCH => String::from_str("PATCH"),
        }
    }
}

} // verus!
