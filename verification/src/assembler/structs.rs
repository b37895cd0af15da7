//! The parsed form of a Hack assembly program.
use vstd::prelude::*;

verus! {

/// A parsed program: its instructions in order (labels removed).
#[derive(Debug)]
pub struct Program(pub Vec<Instruction>);

/// One instruction of a Hack program.
#[derive(Debug)]
pub enum Instruction {
    A(Ident),
    Label(String),
    C { expr: CExpr, dst: Dst, jump: JumpCondition },
}

/// The operand of an addressing instruction.
#[derive(Debug)]
pub enum Ident {
    Name(String),
    Addr(u16),
}

/// One line of assembly once recognised: an instruction or a label declaration.
#[derive(Debug)]
pub enum Item {
    Instruction(Instruction),
    Label(String),
}

/// The computation of a compute instruction.
#[derive(Debug, Clone, Copy, PartialEq, Eq, Structural)]
pub enum CExpr {
    Zero,
    One,
    NegOne,
    D,
    X(Source),
    NotD,
    NotX(Source),
    NegD,
    NegX(Source),
    DPlusOne,
    DMinusOne,
    XPlusOne(Source),
    XMinusOne(Source),
    DPlusX(Source),
    DMinusX(Source),
    XMinusD(Source),
    DAndX(Source),
    DOrX(Source),
}

/// The second operand of a computation: the A register or the memory word it addresses.
#[derive(Debug, Clone, Copy, PartialEq, Eq, Structural)]
pub enum Source {
    Register,
    Memory,
}

/// The set of destinations a compute instruction stores into (bits: M = 1, D = 2, A = 4).
#[derive(Debug, Clone, Copy, PartialEq, Eq, Structural)]
pub struct Dst {
    bits: u8,
}

/// The jump condition of a compute instruction.
#[derive(Debug, Clone, Copy, PartialEq, Eq, Structural)]
pub enum JumpCondition {
    Never,
    Always,
    GreaterThan,
    LessThan,
    GreaterEqual,
    LessEqual,
    Equal,
    NEqual,
}

/// Abstract form of an [`Ident`].
pub enum IdentV {
    Name(Seq<char>),
    Addr(u16),
}

/// Abstract form of an [`Instruction`]; destinations are given by their bits.
pub enum InstructionV {
    A(IdentV),
    Label(Seq<char>),
    C { expr: CExpr, dst: u8, jump: JumpCondition },
}

/// Abstract form of an [`Item`].
pub enum ItemV {
    Instruction(InstructionV),
    Label(Seq<char>),
}

impl View for Ident {
    type V = IdentV;

    open spec fn view(&self) -> IdentV {
        match self {
            Ident::Name(s) => IdentV::Name(s@),
            Ident::Addr(a) => IdentV::Addr(*a),
        }
    }
}

impl View for Instruction {
    type V = InstructionV;

    open spec fn view(&self) -> InstructionV {
        match self {
            Instruction::A(i) => InstructionV::A(i@),
            Instruction::Label(s) => InstructionV::Label(s@),
            Instruction::C { expr, dst, jump } => InstructionV::C {
                expr: *expr,
                dst: dst.spec_bits(),
                jump: *jump,
            },
        }
    }
}

impl View for Item {
    type V = ItemV;

    open spec fn view(&self) -> ItemV {
        match self {
            Item::Instruction(i) => ItemV::Instruction(i@),
            Item::Label(s) => ItemV::Label(s@),
        }
    }
}

impl View for Program {
    type V = Seq<InstructionV>;

    open spec fn view(&self) -> Seq<InstructionV> {
        self.0@.map_values(|i: Instruction| i@)
    }
}

impl Program {
    /// The number of instructions.
    pub fn len(&self) -> (n: usize)
        ensures
            n == self@.len(),
    {
        self.0.len()
    }
}

impl Instruction {
    /// The name of a label declaration.
    pub fn label(self) -> (s: String)
        requires
            self is Label,
        ensures
            InstructionV::Label(s@) == self@,
    {
        match self {
            Self::Label(x) => x,
            _ => {
                assert(false);
                String::new()
            },
        }
    }
}

impl Dst {
    #[verifier::type_invariant]
    closed spec fn known_bits_only(self) -> bool {
        self.bits < 8
    }

    /// The bit set of the destinations (M = 1, D = 2, A = 4).
    pub closed spec fn spec_bits(self) -> u8 {
        self.bits
    }

    /// No destination.
    pub fn empty() -> (d: Dst)
        ensures
            d.spec_bits() == 0,
    {
        Dst { bits: 0 }
    }

    /// Memory at address A.
    pub fn m() -> (d: Dst)
        ensures
            d.spec_bits() == 1,
    {
        Dst { bits: 1 }
    }

    /// The D register.
    pub fn d() -> (d: Dst)
        ensures
            d.spec_bits() == 2,
    {
        Dst { bits: 2 }
    }

    /// The A register.
    pub fn a() -> (d: Dst)
        ensures
            d.spec_bits() == 4,
    {
        Dst { bits: 4 }
    }

    /// The destination set with the given bits, ignoring unknown ones.
    pub fn from_bits_truncate(bits: u8) -> (d: Dst)
        ensures
            d.spec_bits() == bits & 7,
    {
        assert(bits & 7 < 8) by (bit_vector);
        Dst { bits: bits & 7 }
    }

    /// The bit set of the destinations.
    pub fn bits(&self) -> (b: u8)
        ensures
            b == self.spec_bits(),
            b < 8,
    {
        proof {
            use_type_invariant(self);
        }
        self.bits
    }

    /// Adds the destinations of `other` to this set.
    pub fn insert(&mut self, other: Dst)
        ensures
            final(self).spec_bits() == old(self).spec_bits() | other.spec_bits(),
    {
        proof {
            use_type_invariant(&*self);
            use_type_invariant(other);
        }
        let (a, b) = (self.bits, other.bits);
        assert(a < 8 && b < 8 ==> a | b < 8) by (bit_vector);
        self.bits = self.bits | other.bits;
    }
}

} // verus!
