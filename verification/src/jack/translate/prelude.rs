//! The code that starts every translated program.
use vstd::prelude::*;
use crate::assembler::structs::{CExpr, Dst, Item, ItemV, Source};
use super::emit::{at, emit_at, emit_set, items_view, assign};
use crate::assembler::machine::{lemma_run_at, run, store, Machine};

verus! {

/// Sets the stack pointer to 256 and the local segment pointer to 1015.
pub open spec fn prelude_items() -> Seq<ItemV> {
    seq![
        at(256),
        assign(2, CExpr::X(Source::Register)),
        at(0),
        assign(1, CExpr::D),
        at(1015),
        assign(2, CExpr::X(Source::Register)),
        at(1),
        assign(1, CExpr::D),
    ]
}

/// The instructions that set up the stack and local segment pointers.
pub fn instruction_prelude() -> (r: Vec<Item>)
    ensures
        items_view(r@) == prelude_items(),
{
    let mut v: Vec<Item> = Vec::new();
    emit_at(&mut v, 256);
    emit_set(&mut v, Dst::d(), CExpr::X(Source::Register));
    emit_at(&mut v, 0);
    emit_set(&mut v, Dst::m(), CExpr::D);
    emit_at(&mut v, 1015);
    emit_set(&mut v, Dst::d(), CExpr::X(Source::Register));
    emit_at(&mut v, 1);
    emit_set(&mut v, Dst::m(), CExpr::D);
    assert(items_view(v@) =~= prelude_items());
    v
}

/// The prelude sets the stack pointer (word 0) to 256 and the local segment pointer (word 1)
/// to 1015, from any machine, and changes no other word.
pub proof fn lemma_prelude(m: Machine)
    ensures
        run(m, prelude_items()) matches Some(n) && n.ram == store(store(m.ram, 0, 256), 1, 1015),
{
    let s = prelude_items();
    let len = s.len() as int;
    assert(s.subrange(0, len) =~= s);
    let m1 = Machine { a: 256, ..m };
    lemma_run_at(m, s, 0);
    let m2 = Machine { d: 256, ..m1 };
    lemma_run_at(m1, s, 1);
    let m3 = Machine { a: 0, ..m2 };
    lemma_run_at(m2, s, 2);
    let r4 = store(m.ram, 0, 256);
    let m4 = Machine { ram: r4, ..m3 };
    lemma_run_at(m3, s, 3);
    let m5 = Machine { a: 1015, ..m4 };
    lemma_run_at(m4, s, 4);
    let m6 = Machine { d: 1015, ..m5 };
    lemma_run_at(m5, s, 5);
    let m7 = Machine { a: 1, ..m6 };
    lemma_run_at(m6, s, 6);
    let m8 = Machine { ram: store(r4, 1, 1015), ..m7 };
    lemma_run_at(m7, s, 7);
    assert(s.subrange(8, len) =~= Seq::<ItemV>::empty());
    assert(run(m8, s.subrange(8, len)) == Some(m8));
}

} // verus!
