//! The VM translator: stack-machine code to Hack assembly.
pub mod translate;
