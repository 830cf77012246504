//! The identifier that pairs a request with its response.
use vstd::prelude::*;

verus! {

/// A process-unique request identifier.
#[derive(Debug, Clone)]
pub struct RequestId(String);

impl RequestId {
    /// The identifier's characters.
    pub closed spec fn key(&self) -> Seq<char> {
        self.0@
    }

    /// The identifier `s`.
    pub fn new(s: String) -> (r: RequestId)
        ensures
            r.key() == s@,
    {
        RequestId(s)
    }

    /// The identifier as text.
    pub fn as_str(&self) -> (r: &str)
        ensures
            r@ == self.key(),
    {
        self.0.as_str()
    }

    /// The identifier as an owned string.
    pub fn to_string(&self) -> (r: String)
        ensures
            r@ == self.key(),
    {
        self.0.clone()
    }
}

} // verus!
