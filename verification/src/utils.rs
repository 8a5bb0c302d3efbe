//! Small helpers for the host.

use vstd::prelude::*;

verus! {

/// A named stretch of time that the host measures.
pub struct Timer<'a> {
    name: &'a str,
}

impl<'a> Timer<'a> {
    /// The label of the stretch.
    pub closed spec fn label(&self) -> Seq<char> {
        self.name@
    }

    /// A timer called `name`.
    pub fn new(name: &'a str) -> (timer: Timer<'a>)
        ensures
            timer.label() == name@,
    {
        Timer { name }
    }

    /// The label of the stretch.
    pub fn name(&self) -> (name: &'a str)
        ensures
            name@ == self.label(),
    {
        self.name
    }
}

} // verus!
