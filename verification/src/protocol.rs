//! The protocol versions the engine recognizes.

use vstd::prelude::*;

verus! {

/// The protocol field of a message. Only HTTP/1.1 is supported;
/// `EMPTY` stands for "not set".
#[derive(Debug, Clone, Copy, PartialEq, Eq, Structural)]
pub enum HTTPProtocol {
    EMPTY,
    Http1_1,
}

/// The wire name of a protocol, `"EMPTY"` for the unset value.
pub open spec fn spec_protocol_name(p: HTTPProtocol) -> Seq<char> {
    match p {
        HTTPProtocol::EMPTY => "EMPTY"@,
        HTTPProtocol::Http1_1 => "HTTP/1.1"@,
    }
}

impl HTTPProtocol {
    /// The wire name of the protocol as a string.
    pub fn name(&self) -> (r: String)
        ensures
            r@ == spec_protocol_name(*self),
    {
        match self {
            HTTPProtocol::EMPTY => String::from_str("EMPTY"),
            HTTPProtocol::Http1_1 => String::from_str("HTTP/1.1"),
        }
    }
}

} // verus!
