//! The hardware description language: parsed chips and the simulation model built from them.
pub mod chip;
pub mod chip_v2;
pub mod parser;
