//! Why a chip could not be built.
use vstd::prelude::*;

verus! {

/// Why a chip could not be built.
#[derive(Debug, Clone, PartialEq, Eq)]
pub enum ModelConstructionError {
    /// The chip uses chips of these names, which are not known.
    Needs(Vec<String>),
    /// A chip of this name was already registered, and has been replaced.
    Rebuilt(String),
    /// This pin was set to a number, which is not supported.
    ValuesNotSupported(String),
    /// A pin was connected to a bus of another width.
    MismatchedSizes { failed_internal: String, failed_external: String, expected: usize, actual: usize },
    /// The pin (first) could not be found in the chip (second).
    PinNotFound(String, String),
    /// The wire has two sources.
    ConflictingSources(String),
    /// The wire has no source.
    NoSource(String),
}

/// Abstract form of a [`ModelConstructionError`].
pub enum ErrorV {
    Needs(Seq<Seq<char>>),
    Rebuilt(Seq<char>),
    ValuesNotSupported(Seq<char>),
    MismatchedSizes { failed_internal: Seq<char>, failed_external: Seq<char>, expected: usize, actual: usize },
    PinNotFound(Seq<char>, Seq<char>),
    ConflictingSources(Seq<char>),
    NoSource(Seq<char>),
}

impl View for ModelConstructionError {
    type V = ErrorV;

    open spec fn view(&self) -> ErrorV {
        match self {
            ModelConstructionError::Needs(v) => ErrorV::Needs(v@.map_values(|s: String| s@)),
            ModelConstructionError::Rebuilt(s) => ErrorV::Rebuilt(s@),
            ModelConstructionError::ValuesNotSupported(s) => ErrorV::ValuesNotSupported(s@),
            ModelConstructionError::MismatchedSizes { failed_internal, failed_external, expected, actual } =>
                ErrorV::MismatchedSizes {
                    failed_internal: failed_internal@,
                    failed_external: failed_external@,
                    expected: *expected,
                    actual: *actual,
                },
            ModelConstructionError::PinNotFound(a, b) => ErrorV::PinNotFound(a@, b@),
            ModelConstructionError::ConflictingSources(s) => ErrorV::ConflictingSources(s@),
            ModelConstructionError::NoSource(s) => ErrorV::NoSource(s@),
        }
    }
}

} // verus!
