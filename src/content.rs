//! The content type carried by fabric envelopes.
use vstd::prelude::*;

verus! {

/// A content type such as `application/json`.
#[derive(Debug, Clone, PartialEq, Eq, Hash)]
pub struct ContentType(pub String);

impl ContentType {
    /// The content type named `s`.
    pub fn new(s: &str) -> (r: ContentType)
        ensures
            r.0@ == s@,
    {
        ContentType(String::from_str(s))
    }

    /// The content type's name.
    pub fn as_str(&self) -> (r: &str)
        ensures
            r@ == self.0@,
    {
        self.0.as_str()
    }
}

} // verus!
