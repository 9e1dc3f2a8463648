//! The fixed set of response status codes and their reason phrases.

use vstd::prelude::*;
use vstd::string::StringExecFns;

verus! {

/// The status codes a response can carry. The engine uses 501 as
/// "failed to create the resource", a deliberate wire-compatibility
/// choice even though it collides with the standard meaning of 501.
#[derive(Debug, Clone, Copy, PartialEq, Eq, Structural)]
pub enum StatusCodeEnum {
    Code200,
    Code201,
    Code400,
    Code404,
    Code500,
    Code501,
}

/// The code-and-reason text of a status, as it appears on the wire.
pub open spec fn spec_status_phrase(c: StatusCodeEnum) -> Seq<char> {
    match c {
        StatusCodeEnum::Code200 => "200 Ok"@,
        StatusCodeEnum::Code201 => "201 Created"@,
        StatusCodeEnum::Code400 => "400 Bad Request"@,
        StatusCodeEnum::Code404 => "404 Not Found"@,
        StatusCodeEnum::Code500 => "500 Internal Server Error"@,
        StatusCodeEnum::Code501 => "501 Internal Server Error"@,
    }
}

impl StatusCodeEnum {
    /// The code-and-reason text of this status.
    pub fn phrase(&self) -> (r: String)
        ensures
            r@ == spec_status_phrase(*self),
    {
        match self {
            StatusCodeEnum::Code200 => String::from_str("200 Ok"),
            StatusCodeEnum::Code201 => String::from_str("201 Created"),
            StatusCodeEnum::Code400 => String::from_str("400 Bad Request"),
            StatusCodeEnum::Code404 => String::from_str("404 Not Found"),
            StatusCodeEnum::Code500 => String::from_str("500 Internal Server Error"),
            StatusCodeEnum::Code501 => String::from_str("501 Internal Server Error"),
        }
    }
}

} // verus!
