//! The route key: a request method paired with a canonical path.

use vstd::prelude::*;

use crate::method::HTTPMethod;
use crate::text::str_eq;

verus! {

/// A routing key: the method and the canonical path it applies to.
#[derive(Debug, Clone)]
pub struct Route(pub HTTPMethod, pub String);

/// The mathematical key of a [`Route`].
pub open spec fn route_key(r: Route) -> (HTTPMethod, Seq<char>) {
    (r.0, r.1@)
}

/// Two routes are equal when method and canonical path agree.
impl PartialEq for Route {
    fn eq(&self, other: &Self) -> (r: bool) {
        self.0 == other.0 && str_eq(self.1.as_str(), other.1.as_str())
    }
}

impl vstd::std_specs::cmp::PartialEqSpecImpl for Route {
    open spec fn obeys_eq_spec() -> bool {
        true
    }

    open spec fn eq_spec(&self, other: &Self) -> bool {
        self.0 == other.0 && self.1@ == other.1@
    }
}

} // verus!
