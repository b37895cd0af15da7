//! Building blocks of the generated assembly.
use vstd::prelude::*;
use crate::assembler::structs::{CExpr, Dst, Ident, IdentV, Instruction, InstructionV, Item, ItemV, JumpCondition};

verus! {

/// The abstract form of a list of items.
pub open spec fn items_view(v: Seq<Item>) -> Seq<ItemV> {
    v.map_values(|i: Item| i@)
}

/// `@n`: load the number `n` into A.
pub open spec fn at(n: u16) -> ItemV {
    ItemV::Instruction(InstructionV::A(IdentV::Addr(n)))
}

/// `dst=expr`, without a jump (destinations as bits: M = 1, D = 2, A = 4).
pub open spec fn assign(dst: u8, expr: CExpr) -> ItemV {
    ItemV::Instruction(InstructionV::C { expr, dst, jump: JumpCondition::Never })
}

/// Appends `@n`.
pub fn emit_at(v: &mut Vec<Item>, n: u16)
    ensures
        items_view(final(v)@) == items_view(old(v)@).push(at(n)),
{
    v.push(Item::Instruction(Instruction::A(Ident::Addr(n))));
    assert(items_view(v@) =~= items_view(old(v)@).push(at(n)));
}

/// Appends `dst=expr`.
pub fn emit_set(v: &mut Vec<Item>, dst: Dst, expr: CExpr)
    ensures
        items_view(final(v)@) == items_view(old(v)@).push(assign(dst.spec_bits(), expr)),
{
    v.push(Item::Instruction(Instruction::C { expr, dst, jump: JumpCondition::Never }));
    assert(items_view(v@) =~= items_view(old(v)@).push(assign(dst.spec_bits(), expr)));
}

} // verus!
