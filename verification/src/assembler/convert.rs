//! Encoding of compute instructions as Hack machine words.
use vstd::prelude::*;
use crate::assembler::structs::{CExpr, Dst, JumpCondition, Source};

verus! {

/// The `a` bit of an operand: 0 for the A register, 1 for memory.
pub open spec fn source_bit(s: Source) -> int {
    match s {
        Source::Register => 0,
        Source::Memory => 1,
    }
}

/// The seven `a c1..c6` bits of a computation, as the Hack machine language defines them.
pub open spec fn comp_code(e: CExpr) -> int {
    match e {
        CExpr::Zero => 0b0101010,
        CExpr::One => 0b0111111,
        CExpr::NegOne => 0b0111010,
        CExpr::D => 0b0001100,
        CExpr::X(s) => source_bit(s) * 64 + 0b110000,
        CExpr::NotD => 0b0001101,
        CExpr::NotX(s) => source_bit(s) * 64 + 0b110001,
        CExpr::NegD => 0b0001111,
        CExpr::NegX(s) => source_bit(s) * 64 + 0b110011,
        CExpr::DPlusOne => 0b0011111,
        CExpr::DMinusOne => 0b0001110,
        CExpr::XPlusOne(s) => source_bit(s) * 64 + 0b110111,
        CExpr::XMinusOne(s) => source_bit(s) * 64 + 0b110010,
        CExpr::DPlusX(s) => source_bit(s) * 64 + 0b000010,
        CExpr::DMinusX(s) => source_bit(s) * 64 + 0b010011,
        CExpr::XMinusD(s) => source_bit(s) * 64 + 0b000111,
        CExpr::DAndX(s) => source_bit(s) * 64,
        CExpr::DOrX(s) => source_bit(s) * 64 + 0b010101,
    }
}

/// The three `j` bits of a jump condition.
pub open spec fn jump_code(j: JumpCondition) -> int {
    match j {
        JumpCondition::Never => 0,
        JumpCondition::GreaterThan => 1,
        JumpCondition::Equal => 2,
        JumpCondition::GreaterEqual => 3,
        JumpCondition::LessThan => 4,
        JumpCondition::NEqual => 5,
        JumpCondition::LessEqual => 6,
        JumpCondition::Always => 7,
    }
}

/// The machine word of a compute instruction: `111 a cccccc ddd jjj`.
pub open spec fn encode_c(e: CExpr, d: Dst, j: JumpCondition) -> u16 {
    (0xE000 + comp_code(e) * 64 + d.spec_bits() * 8 + jump_code(j)) as u16
}

/// The computation with the given seven `a c1..c6` bits, if they name one.
pub open spec fn decode_comp(c: int) -> Option<CExpr> {
    if c == 0b0101010 { Some(CExpr::Zero) }
    else if c == 0b0111111 { Some(CExpr::One) }
    else if c == 0b0111010 { Some(CExpr::NegOne) }
    else if c == 0b0001100 { Some(CExpr::D) }
    else if c == 0b0001101 { Some(CExpr::NotD) }
    else if c == 0b0001111 { Some(CExpr::NegD) }
    else if c == 0b0011111 { Some(CExpr::DPlusOne) }
    else if c == 0b0001110 { Some(CExpr::DMinusOne) }
    else {
        let s = if c >= 64 { Source::Memory } else { Source::Register };
        let k = c % 64;
        if c < 0 || c >= 128 { None }
        else if k == 0b110000 { Some(CExpr::X(s)) }
        else if k == 0b110001 { Some(CExpr::NotX(s)) }
        else if k == 0b110011 { Some(CExpr::NegX(s)) }
        else if k == 0b110111 { Some(CExpr::XPlusOne(s)) }
        else if k == 0b110010 { Some(CExpr::XMinusOne(s)) }
        else if k == 0b000010 { Some(CExpr::DPlusX(s)) }
        else if k == 0b010011 { Some(CExpr::DMinusX(s)) }
        else if k == 0b000111 { Some(CExpr::XMinusD(s)) }
        else if k == 0 { Some(CExpr::DAndX(s)) }
        else if k == 0b010101 { Some(CExpr::DOrX(s)) }
        else { None }
    }
}

/// The jump condition with the given three `j` bits.
pub open spec fn decode_jump(j: int) -> JumpCondition {
    if j == 1 { JumpCondition::GreaterThan }
    else if j == 2 { JumpCondition::Equal }
    else if j == 3 { JumpCondition::GreaterEqual }
    else if j == 4 { JumpCondition::LessThan }
    else if j == 5 { JumpCondition::NEqual }
    else if j == 6 { JumpCondition::LessEqual }
    else if j == 7 { JumpCondition::Always }
    else { JumpCondition::Never }
}

/// What a compute-instruction word says: its computation, destination bits and jump.
pub open spec fn decode_c(w: u16) -> Option<(CExpr, u8, JumpCondition)> {
    if w / 0x2000 != 7 {
        None
    } else {
        match decode_comp(((w / 64) % 128) as int) {
            Some(e) => Some((e, ((w / 8) % 8) as u8, decode_jump((w % 8) as int))),
            None => None,
        }
    }
}

pub(crate) proof fn lemma_comp_code(e: CExpr)
    ensures
        comp_code(e) < 128,
        decode_comp(comp_code(e)) == Some(e),
{
}

pub(crate) proof fn lemma_jump_code(j: JumpCondition)
    ensures
        jump_code(j) < 8,
        decode_jump(jump_code(j)) == j,
{
}

/// Decoding a compute-instruction word gives back the computation, destinations and jump
/// it was encoded from.
pub proof fn lemma_encode_decode(e: CExpr, d: Dst, j: JumpCondition)
    requires
        d.spec_bits() < 8,
    ensures
        decode_c(encode_c(e, d, j)) == Some((e, d.spec_bits(), j)),
        encode_c(e, d, j) >= 0xE000,
{
    lemma_comp_code(e);
    lemma_jump_code(j);
    let c = comp_code(e);
    let b = d.spec_bits() as int;
    let k = jump_code(j);
    let w = 0xE000 + c * 64 + b * 8 + k;
    assert(w / 0x2000 == 7 && (w / 64) % 128 == c && (w / 8) % 8 == b && w % 8 == k)
        by (nonlinear_arith)
        requires
            0 <= c < 128,
            0 <= b < 8,
            0 <= k < 8,
            w == 0xE000 + c * 64 + b * 8 + k,
    ;
}

impl CExpr {
    /// The seven `a c1..c6` bits of this computation.
    pub fn comp(&self) -> (c: u16)
        ensures
            c == comp_code(*self),
    {
        let e = *self;
        match e {
            CExpr::Zero => 0b0101010,
            CExpr::One => 0b0111111,
            CExpr::NegOne => 0b0111010,
            CExpr::D => 0b0001100,
            CExpr::NotD => 0b0001101,
            CExpr::NegD => 0b0001111,
            CExpr::DPlusOne => 0b0011111,
            CExpr::DMinusOne => 0b0001110,
            CExpr::X(s) => Self::with_source(s, 0b110000),
            CExpr::NotX(s) => Self::with_source(s, 0b110001),
            CExpr::NegX(s) => Self::with_source(s, 0b110011),
            CExpr::XPlusOne(s) => Self::with_source(s, 0b110111),
            CExpr::XMinusOne(s) => Self::with_source(s, 0b110010),
            CExpr::DPlusX(s) => Self::with_source(s, 0b000010),
            CExpr::DMinusX(s) => Self::with_source(s, 0b010011),
            CExpr::XMinusD(s) => Self::with_source(s, 0b000111),
            CExpr::DAndX(s) => Self::with_source(s, 0b000000),
            CExpr::DOrX(s) => Self::with_source(s, 0b010101),
        }
    }

    fn with_source(s: Source, c: u16) -> (r: u16)
        requires
            c < 64,
        ensures
            r == source_bit(s) * 64 + c,
    {
        match s {
            Source::Register => c,
            Source::Memory => 64 + c,
        }
    }

    /// The bits this computation occupies in an instruction word (including the two
    /// fixed high bits below the instruction-kind bit).
    pub fn as_bits(&self) -> (b: u16)
        ensures
            b == 0x6000 + comp_code(*self) * 64,
    {
        proof {
            lemma_comp_code(*self);
        }
        0x6000 + self.comp() * 64
    }
}

impl Source {
    /// The `a` bit of this operand.
    pub fn a_bit(&self) -> (b: u16)
        ensures
            b == source_bit(*self),
    {
        match self {
            Source::Register => 0,
            Source::Memory => 1,
        }
    }
}

impl Dst {
    /// The bits this destination set occupies in an instruction word.
    pub fn as_bits(&self) -> (b: u16)
        ensures
            b == self.spec_bits() * 8,
            self.spec_bits() < 8,
    {
        (self.bits() as u16) * 8
    }
}

impl JumpCondition {
    /// The bits this jump condition occupies in an instruction word.
    pub fn as_bits(&self) -> (b: u16)
        ensures
            b == jump_code(*self),
    {
        match self {
            JumpCondition::Never => 0,
            JumpCondition::GreaterThan => 1,
            JumpCondition::Equal => 2,
            JumpCondition::GreaterEqual => 3,
            JumpCondition::LessThan => 4,
            JumpCondition::NEqual => 5,
            JumpCondition::LessEqual => 6,
            JumpCondition::Always => 7,
        }
    }
}

/// The machine word of the compute instruction with the given parts.
pub fn convert_cinstr(expr: &CExpr, dst: &Dst, jmp: &JumpCondition) -> (w: u16)
    ensures
        w == encode_c(*expr, *dst, *jmp),
        w >= 0xE000,
        decode_c(w) == Some((*expr, dst.spec_bits(), *jmp)),
{
    let e = expr.as_bits();
    let d = dst.as_bits();
    let j = jmp.as_bits();
    proof {
        lemma_comp_code(*expr);
        lemma_jump_code(*jmp);
        lemma_encode_decode(*expr, *dst, *jmp);
        let c = comp_code(*expr) as u16;
        assert(c < 128 && d < 64 && d % 8 == 0 && j < 8 ==> 0x8000u16 | ((0x6000 + c * 64) as u16)
            | d | j == 0xE000 + c * 64 + d + j) by (bit_vector);
    }
    0x8000 | e | d | j
}

} // verus!
