//! A flag that says whether a tick is being handled.

use vstd::prelude::*;

verus! {

/// Remembers that a tick has begun until the work of the tick is done.
pub struct Ticker {
    ticked: bool,
}

impl Ticker {
    /// Whether a tick has begun and not yet finished.
    pub closed spec fn view(&self) -> bool {
        self.ticked
    }

    /// A ticker between ticks.
    pub fn new() -> (ticker: Self)
        ensures
            !ticker@,
    {
        Self { ticked: false }
    }

    /// Notes that a tick has begun.
    pub fn tick_start(&mut self)
        ensures
            final(self)@,
    {
        self.ticked = true;
    }

    /// Notes that the work of the tick is done.
    pub fn tick_finish(&mut self)
        ensures
            !final(self)@,
    {
        self.ticked = false;
    }

    /// Whether a tick has begun and not yet finished.
    pub fn has_ticked(&self) -> (ticked: bool)
        ensures
            ticked == self@,
    {
        self.ticked
    }
}

} // verus!
