//! The simulation model of chips.
use vstd::prelude::*;
use builtin::Nand;
use native::NativeChip;
use state::chip_view;

pub mod bits;
pub mod builder;
pub mod builtin;
pub mod error;
pub mod native;
pub mod state;

pub use builder::{ChipBuilder, ChipInfo};
pub use error::ModelConstructionError;

verus! {

/// The number a part of a native chip is known by.
#[derive(Debug, Clone, Copy, PartialEq, Eq, Hash, Structural)]
pub struct Id(pub u16);

impl Id {
    /// Hands out this number and moves on to the next.
    pub fn next(&mut self) -> (r: Id)
        requires
            old(self).0 < u16::MAX,
        ensures
            r == *old(self),
            final(self).0 == old(self).0 + 1,
    {
        let res = *self;
        self.0 = self.0 + 1;
        res
    }
}

/// A chip that can be simulated: a builtin NAND gate, or a chip made of parts.
pub enum ChipModel {
    Nand(Nand),
    Native(NativeChip),
}

impl ChipModel {
    /// A copy of the chip with all its state.
    pub fn duplicate(&self) -> (r: ChipModel)
        ensures
            chip_view(r) == chip_view(*self),
        decreases self,
    {
        match self {
            ChipModel::Nand(n) => ChipModel::Nand(*n),
            ChipModel::Native(n) => ChipModel::Native(n.duplicate()),
        }
    }
}

} // verus!
