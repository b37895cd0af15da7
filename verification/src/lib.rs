use vstd::prelude::*;

pub mod assembler;
pub mod channel_range;
pub mod cli;
pub mod clock_behavior;
pub mod jack;
pub mod model;
pub mod text;

verus! {

} // verus!
