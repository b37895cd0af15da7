//! Errors of the first chip model's builder.
use vstd::prelude::*;

verus! {

/// Why a chip could not be built.
#[derive(Debug, Clone, PartialEq, Eq)]
pub enum ModelConstructionError {
    /// The chip uses a chip of this name, which is not known.
    Needs(String),
    /// A chip of this name was already loaded.
    Rebuilt(String),
    /// This pin was set to a constant, which is not supported.
    ValuesNotSupported(String),
    /// A pin was connected to a bus of another width.
    MismatchedSizes { failed: String, expected: usize, actual: usize },
}

} // verus!
