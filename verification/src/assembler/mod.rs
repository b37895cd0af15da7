//! The Hack assembler: parsing assembly text and encoding it as machine words.
pub mod structs;
pub mod convert;
pub mod symbol_table;
pub mod scan;
pub mod err;
pub mod cinstr;
pub mod parse;
pub mod assemble;
pub mod predefined;
pub mod spanned;
pub mod machine;
