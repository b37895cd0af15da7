//! The first design of the chip model, of which only the errors remain in use.
pub mod error;
