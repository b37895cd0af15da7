//! Short instruction sequences the translations are built from.
use vstd::prelude::*;
use crate::assembler::structs::{CExpr, Dst, Item, ItemV, Source};
use super::emit::{emit_set, items_view, assign};
use crate::assembler::machine::{lemma_run_concat, run, step, store, word, Machine};

verus! {

/// Points A at the stack pointer's word (`A=0`).
pub open spec fn fetch_stack_pointer_items() -> Seq<ItemV> {
    seq![assign(4, CExpr::Zero)]
}

/// Pops the stack: the stack pointer is decremented and A points at the old top.
pub open spec fn stack_pop_items() -> Seq<ItemV> {
    seq![
        assign(4, CExpr::Zero),
        assign(1, CExpr::XMinusOne(Source::Memory)),
        assign(4, CExpr::X(Source::Memory)),
    ]
}

/// Sets up a two-parameter operation: a pop, then `D=M` and `A=A-1`.
pub open spec fn stack_call_on_two_items() -> Seq<ItemV> {
    stack_pop_items() + seq![
        assign(2, CExpr::X(Source::Memory)),
        assign(4, CExpr::XMinusOne(Source::Register)),
    ]
}

/// Loads the stack pointer into A (`A=0`).
pub fn fetch_stack_pointer() -> (r: Vec<Item>)
    ensures
        items_view(r@) == fetch_stack_pointer_items(),
{
    let mut v: Vec<Item> = Vec::new();
    emit_set(&mut v, Dst::a(), CExpr::Zero);
    assert(items_view(v@) =~= fetch_stack_pointer_items());
    v
}

/// Decrements the word at A (`M=M-1`).
pub fn decrement_mem() -> (r: Vec<Item>)
    ensures
        items_view(r@) == seq![assign(1, CExpr::XMinusOne(Source::Memory))],
{
    let mut v: Vec<Item> = Vec::new();
    emit_set(&mut v, Dst::m(), CExpr::XMinusOne(Source::Memory));
    assert(items_view(v@) =~= seq![assign(1, CExpr::XMinusOne(Source::Memory))]);
    v
}

/// Decrements the hardware pointer (`A=A-1`).
pub fn decrement_pointer() -> (r: Vec<Item>)
    ensures
        items_view(r@) == seq![assign(4, CExpr::XMinusOne(Source::Register))],
{
    let mut v: Vec<Item> = Vec::new();
    emit_set(&mut v, Dst::a(), CExpr::XMinusOne(Source::Register));
    assert(items_view(v@) =~= seq![assign(4, CExpr::XMinusOne(Source::Register))]);
    v
}

/// Moves the contents of M into D (`D=M`).
pub fn deref_to_d() -> (r: Vec<Item>)
    ensures
        items_view(r@) == seq![assign(2, CExpr::X(Source::Memory))],
{
    let mut v: Vec<Item> = Vec::new();
    emit_set(&mut v, Dst::d(), CExpr::X(Source::Memory));
    assert(items_view(v@) =~= seq![assign(2, CExpr::X(Source::Memory))]);
    v
}

/// Moves the contents of M into A (`A=M`).
pub fn deref_to_a() -> (r: Vec<Item>)
    ensures
        items_view(r@) == seq![assign(4, CExpr::X(Source::Memory))],
{
    let mut v: Vec<Item> = Vec::new();
    emit_set(&mut v, Dst::a(), CExpr::X(Source::Memory));
    assert(items_view(v@) =~= seq![assign(4, CExpr::X(Source::Memory))]);
    v
}

/// Pops the stack: the new stack pointer is stored to A, and also points to the old top.
pub fn stack_pop() -> (r: Vec<Item>)
    ensures
        items_view(r@) == stack_pop_items(),
{
    let mut v: Vec<Item> = Vec::new();
    emit_set(&mut v, Dst::a(), CExpr::Zero);
    emit_set(&mut v, Dst::m(), CExpr::XMinusOne(Source::Memory));
    emit_set(&mut v, Dst::a(), CExpr::X(Source::Memory));
    assert(items_view(v@) =~= stack_pop_items());
    v
}

/// Sets up a two-parameter operation: the first parameter in M, the second in D.
pub fn stack_call_on_two() -> (r: Vec<Item>)
    ensures
        items_view(r@) == stack_call_on_two_items(),
{
    let mut v = stack_pop();
    emit_set(&mut v, Dst::d(), CExpr::X(Source::Memory));
    emit_set(&mut v, Dst::a(), CExpr::XMinusOne(Source::Register));
    assert(items_view(v@) =~= stack_call_on_two_items());
    v
}

/// Popping stores the new stack pointer (one lower) to A and to the stack pointer's word; A
/// then addresses the old top. No other word changes.
pub proof fn lemma_stack_pop(m: Machine)
    requires
        1 <= word(m, 0),
    ensures
        run(m, stack_pop_items()) matches Some(n)
            && n.a == word(m, 0) - 1
            && word(n, 0) == word(m, 0) - 1
            && n.ram == store(m.ram, 0, (word(m, 0) - 1) as u16),
{
    let sp = word(m, 0);
    let s = stack_pop_items();
    reveal_with_fuel(run, 4);
    assert(s.drop_first().drop_first().drop_first() =~= Seq::<ItemV>::empty());
    let m1 = Machine { a: 0, ..m };
    assert(step(m, s[0]) == Some(m1));
    let m2 = Machine { ram: store(m.ram, 0, (sp - 1) as u16), ..m1 };
    assert(step(m1, s.drop_first()[0]) == Some(m2));
    let m3 = Machine { a: (sp - 1) as u16, ..m2 };
    assert(step(m2, s.drop_first().drop_first()[0]) == Some(m3));
}

/// Setting up a two-parameter operation pops the stack; then M is the first parameter (the
/// word below the old top, which A addresses) and D the second (the old top). No word but
/// the stack pointer's changes.
pub proof fn lemma_stack_call_on_two(m: Machine)
    requires
        3 <= word(m, 0),
    ensures
        run(m, stack_call_on_two_items()) matches Some(n)
            && word(n, 0) == word(m, 0) - 1
            && n.a == word(m, 0) - 2
            && (n.ram)(n.a) == word(m, word(m, 0) - 2)
            && n.d == word(m, word(m, 0) - 1)
            && n.ram == store(m.ram, 0, (word(m, 0) - 1) as u16),
{
    let sp = word(m, 0);
    let t = seq![
        assign(2, CExpr::X(Source::Memory)),
        assign(4, CExpr::XMinusOne(Source::Register)),
    ];
    lemma_stack_pop(m);
    lemma_run_concat(m, stack_pop_items(), t);
    let m3 = Machine { a: (sp - 1) as u16, d: m.d, ram: store(m.ram, 0, (sp - 1) as u16) };
    reveal_with_fuel(run, 3);
    assert(t.drop_first().drop_first() =~= Seq::<ItemV>::empty());
    let m4 = Machine { d: word(m, sp - 1), ..m3 };
    assert(step(m3, t[0]) == Some(m4));
    let m5 = Machine { a: (sp - 2) as u16, ..m4 };
    assert(step(m4, t.drop_first()[0]) == Some(m5));
}

} // verus!
