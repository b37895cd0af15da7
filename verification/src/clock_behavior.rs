//! Whether a pin reacts to its inputs at once or on the clock.
use vstd::prelude::*;

verus! {

/// How a pin of a chip takes in new values.
#[derive(Debug, Clone, Copy, PartialEq, Eq, Structural)]
pub enum ClockBehavior {
    /// The pin follows its inputs whenever the chip is evaluated.
    Combinatorial,
    /// The pin only takes new values on a clock tick.
    Sequential,
}

} // verus!
