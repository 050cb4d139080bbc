//! A pause of a fixed length between operations.

use vstd::prelude::*;

verus! {

/// A pause of a fixed length.
#[derive(Clone, Copy, Debug, PartialEq, Eq, Structural)]
pub struct Delay {
    millis: u64,
}

impl View for Delay {
    type V = nat;

    /// The length of the pause in milliseconds.
    closed spec fn view(&self) -> nat {
        self.millis as nat
    }
}

impl Delay {
    /// A pause of `millis` milliseconds.
    pub fn new(millis: u64) -> (delay: Delay)
        ensures
            delay@ == millis,
    {
        Delay { millis }
    }

    /// The length of the pause in milliseconds.
    pub fn millis(&self) -> (millis: u64)
        ensures
            millis == self@,
    {
        self.millis
    }
}

} // verus!
