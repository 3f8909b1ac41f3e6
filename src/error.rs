use vstd::prelude::*;

verus! {

/// Why an encode or decode call failed.
#[derive(Clone, Copy, Debug, PartialEq, Eq, Structural)]
pub enum Reason {
    /// The input ended before a value was complete.
    EndOfStream,
    /// A length or magnitude exceeds the largest size class.
    TooBig,
    /// The tag byte is not one this codec recognizes.
    Invalid,
    /// The tag encodes another kind of value than the one asked for.
    TypeMismatch,
}

/// A failure of an encode or decode call.
#[derive(Clone, Copy, Debug, PartialEq, Eq, Structural)]
pub struct Error {
    pub reason: Reason,
}

impl Error {
    pub fn simple(reason: Reason) -> (r: Error)
        ensures
            r.reason == reason,
    {
        Error { reason }
    }
}

} // verus!
