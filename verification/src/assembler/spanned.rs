//! The second reading of compute instructions, in which computations may use `!` and jump
//! mnemonics may use letters of either case.
use vstd::prelude::*;
use super::cinstr::{self, instr_of, triple_with, CTripleV};
use super::err::{AssemblyError, AssemblyErrorV};
use super::scan::{string_of, CharClass};
use super::structs::Instruction;

verus! {

/// A representation of a compute instruction triple in string form
#[derive(PartialEq, Debug)]
pub struct CTriple {
    pub dst: Option<String>,
    pub expr: String,
    pub jmp: Option<String>,
}

impl View for CTriple {
    type V = CTripleV;

    open spec fn view(&self) -> CTripleV {
        CTripleV {
            dst: match self.dst {
                Some(d) => Some(d@),
                None => None,
            },
            expr: self.expr@,
            jmp: match self.jmp {
                Some(j) => Some(j@),
                None => None,
            },
        }
    }
}

/// How this reading splits the compute instruction starting at `i`.
pub open spec fn spanned_triple_at(s: Seq<char>, i: int) -> Result<(int, CTripleV), AssemblyErrorV> {
    triple_with(s, i, CharClass::Expression, CharClass::Letter)
}

impl CTriple {
    /// Splits the compute instruction at the start of `s`, returning the input that follows it.
    pub fn from_string(s: &str) -> (r: Result<(String, CTriple), AssemblyError>)
        ensures
            match spanned_triple_at(s@, 0) {
                Ok((end, t)) => r matches Ok((rest, c)) && rest@ == s@.subrange(end, s@.len() as int) && c@ == t,
                Err(e) => r matches Err(x) && x@ == e,
            },
    {
        let chars = crate::text::str_to_chars(s);
        match cinstr::CTriple::from_chars_with(chars.as_slice(), 0, CharClass::Expression, CharClass::Letter) {
            Ok((end, t)) => {
                let cinstr::CTriple { dst, expr, jmp } = t;
                Ok((string_of(chars.as_slice(), end, chars.len()), CTriple { dst, expr, jmp }))
            },
            Err(e) => Err(e),
        }
    }

    /// The compute instruction this triple describes.
    pub fn to_cinstr(&self) -> (r: Result<Instruction, String>)
        ensures
            match instr_of(self@) {
                Ok(i) => r matches Ok(x) && x@ == i,
                Err(m) => r matches Err(x) && x@ == m,
            },
    {
        let dst = match &self.dst {
            Some(d) => Some(d.clone()),
            None => None,
        };
        let jmp = match &self.jmp {
            Some(j) => Some(j.clone()),
            None => None,
        };
        let t = cinstr::CTriple { dst, expr: self.expr.clone(), jmp };
        assert(t@ == self@);
        t.to_cinstr()
    }
}

} // verus!
