//! The chips the simulator provides itself.
use vstd::prelude::*;
use crate::channel_range::ChannelRange;
use crate::model::parser::interface::{pins_view, ChannelPin, Interface, PinKind, PinV};
use super::bits::{bits, bv_get, bv_repeat, Bits};
use super::builder::ChipInfo;
use super::ChipModel;

verus! {

/// A NAND gate, remembering its last output.
#[derive(Debug, Clone, Copy)]
pub struct Nand {
    pub bit: bool,
}

impl Nand {
    /// A gate whose last output was 0.
    pub fn new() -> (r: Nand)
        ensures
            r.bit == false,
    {
        Nand { bit: false }
    }

    /// The output for the first two input bits: 0 when both are 1, else 1.
    pub fn eval(&mut self, args: &Bits) -> (r: Bits)
        requires
            bits(*args).len() >= 2,
        ensures
            final(self).bit == !(bits(*args)[0] && bits(*args)[1]),
            bits(r) == seq![final(self).bit],
    {
        let a = bv_get(args, 0);
        let b = bv_get(args, 1);
        self.bit = !(a && b);
        let r = bv_repeat(self.bit, 1);
        assert(bits(r) =~= seq![self.bit]);
        r
    }

    /// A clock tick gives the last output again.
    pub fn clock(&mut self, args: &Bits) -> (r: Bits)
        ensures
            *final(self) == *old(self),
            bits(r) == seq![old(self).bit],
    {
        let r = bv_repeat(self.bit, 1);
        assert(bits(r) =~= seq![self.bit]);
        r
    }
}

/// The pins of the NAND gate: inputs `a` and `b`, output `out`.
pub open spec fn nand_pins() -> Seq<(Seq<char>, PinV)> {
    seq![
        ("a"@, PinV { kind: PinKind::ComIn, lo: 0, hi: 0 }),
        ("b"@, PinV { kind: PinKind::ComIn, lo: 1, hi: 1 }),
        ("out"@, PinV { kind: PinKind::ComOut, lo: 0, hi: 0 }),
    ]
}

/// The NAND gate with its interface.
pub fn nand() -> (r: ChipInfo)
    ensures
        r.interface.name@ == "Nand"@,
        pins_view(r.interface.map@) == nand_pins(),
        r.chip matches ChipModel::Nand(n) && !n.bit,
{
    let map = vec![
        (String::from_str("a"), ChannelPin::ComIn(ChannelRange::new(0, 0))),
        (String::from_str("b"), ChannelPin::ComIn(ChannelRange::new(1, 1))),
        (String::from_str("out"), ChannelPin::ComOut(ChannelRange::new(0, 0))),
    ];
    proof {
        reveal_strlit("a");
        reveal_strlit("b");
        reveal_strlit("out");
    }
    let r = ChipInfo {
        interface: Interface { name: String::from_str("Nand"), map },
        chip: ChipModel::Nand(Nand::new()),
    };
    assert(pins_view(r.interface.map@) =~= nand_pins());
    r
}

} // verus!
