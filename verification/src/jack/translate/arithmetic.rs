//! The arithmetic and logic commands of the VM language.
use vstd::prelude::*;
use crate::assembler::structs::{CExpr, Dst, Item, ItemV, Source};
use crate::text::str_eq;
use super::emit::{at, emit_at, emit_set, items_view, assign};
use crate::assembler::machine::{lemma_run_at, lemma_run_concat, run, step, word, wrap, store, Machine};

verus! {

/// An arithmetic or logic command.
///
/// Note that for test operations (`Eq`, `Lt`, `Gt`), only the highest bit
/// marks the boolean (1 for success, 0 for failure)
#[derive(Debug, Clone, Copy, PartialEq, Eq, Structural)]
pub enum Arithmetic {
    Add,
    Sub,
    Neg,
    Eq,
    Gt,
    Lt,
    And,
    Or,
    Not,
}

/// The command a (lower-case) name denotes.
pub open spec fn arithmetic_named(s: Seq<char>) -> Option<Arithmetic> {
    if s == "add"@ { Some(Arithmetic::Add) }
    else if s == "sub"@ { Some(Arithmetic::Sub) }
    else if s == "neg"@ { Some(Arithmetic::Neg) }
    else if s == "eq"@ { Some(Arithmetic::Eq) }
    else if s == "gt"@ { Some(Arithmetic::Gt) }
    else if s == "lt"@ { Some(Arithmetic::Lt) }
    else if s == "and"@ { Some(Arithmetic::And) }
    else if s == "or"@ { Some(Arithmetic::Or) }
    else if s == "not"@ { Some(Arithmetic::Not) }
    else { None }
}

/// Pops the top of the stack into D and points A at the new top.
pub open spec fn pop_into_d() -> Seq<ItemV> {
    seq![
        at(0),
        assign(1, CExpr::XMinusOne(Source::Memory)),
        assign(4, CExpr::X(Source::Memory)),
        assign(2, CExpr::X(Source::Memory)),
        assign(4, CExpr::XMinusOne(Source::Register)),
    ]
}

/// Keeps only the highest bit of the stack top.
pub open spec fn keep_high_bit() -> Seq<ItemV> {
    seq![
        at(0xffff),
        assign(2, CExpr::XPlusOne(Source::Register)),
        at(0),
        assign(4, CExpr::XMinusOne(Source::Memory)),
        assign(1, CExpr::DAndX(Source::Memory)),
    ]
}

/// Points A at the stack top.
pub open spec fn top() -> Seq<ItemV> {
    seq![at(0), assign(4, CExpr::XMinusOne(Source::Memory))]
}

/// The assembly of each command.
pub open spec fn arithmetic_items(op: Arithmetic) -> Seq<ItemV> {
    match op {
        Arithmetic::Add => pop_into_d().push(assign(1, CExpr::DPlusX(Source::Memory))),
        Arithmetic::Sub => pop_into_d().push(assign(1, CExpr::XMinusD(Source::Memory))),
        Arithmetic::Neg => top().push(assign(1, CExpr::NegX(Source::Memory))),
        Arithmetic::And => pop_into_d().push(assign(1, CExpr::DAndX(Source::Memory))),
        Arithmetic::Or => pop_into_d().push(assign(1, CExpr::DOrX(Source::Memory))),
        Arithmetic::Not => top().push(assign(1, CExpr::NotX(Source::Memory))),
        Arithmetic::Eq => pop_into_d() + seq![
            assign(1, CExpr::XMinusD(Source::Memory)),
            assign(2, CExpr::DPlusX(Source::Memory)),
            assign(4, CExpr::XPlusOne(Source::Register)),
            assign(2, CExpr::XMinusD(Source::Memory)),
            assign(4, CExpr::XMinusOne(Source::Register)),
            assign(1, CExpr::DOrX(Source::Memory)),
            assign(1, CExpr::NotX(Source::Memory)),
        ] + keep_high_bit(),
        Arithmetic::Gt => pop_into_d().push(assign(1, CExpr::DMinusX(Source::Memory))) + keep_high_bit(),
        Arithmetic::Lt => pop_into_d().push(assign(1, CExpr::XMinusD(Source::Memory))) + keep_high_bit(),
    }
}

impl std::str::FromStr for Arithmetic {
    type Err = ();

    fn from_str(s: &str) -> (r: Result<Arithmetic, ()>)
        ensures
            match arithmetic_named(s@) {
                Some(a) => r == Ok::<Arithmetic, ()>(a),
                None => r is Err,
            },
    {
        match Arithmetic::from_name(s) {
            Some(a) => Ok(a),
            None => Err(()),
        }
    }
}

fn emit_pop_into_d(v: &mut Vec<Item>)
    ensures
        items_view(final(v)@) == items_view(old(v)@) + pop_into_d(),
{
    emit_at(v, 0);
    emit_set(v, Dst::m(), CExpr::XMinusOne(Source::Memory));
    emit_set(v, Dst::a(), CExpr::X(Source::Memory));
    emit_set(v, Dst::d(), CExpr::X(Source::Memory));
    emit_set(v, Dst::a(), CExpr::XMinusOne(Source::Register));
    assert(items_view(v@) =~= items_view(old(v)@) + pop_into_d());
}

fn emit_keep_high_bit(v: &mut Vec<Item>)
    ensures
        items_view(final(v)@) == items_view(old(v)@) + keep_high_bit(),
{
    emit_at(v, 0xffff);
    emit_set(v, Dst::d(), CExpr::XPlusOne(Source::Register));
    emit_at(v, 0);
    emit_set(v, Dst::a(), CExpr::XMinusOne(Source::Memory));
    emit_set(v, Dst::m(), CExpr::DAndX(Source::Memory));
    assert(items_view(v@) =~= items_view(old(v)@) + keep_high_bit());
}

fn emit_top(v: &mut Vec<Item>)
    ensures
        items_view(final(v)@) == items_view(old(v)@) + top(),
{
    emit_at(v, 0);
    emit_set(v, Dst::a(), CExpr::XMinusOne(Source::Memory));
    assert(items_view(v@) =~= items_view(old(v)@) + top());
}

impl Arithmetic {
    /// The command of the given name (`add`, `sub`, `neg`, `eq`, `gt`, `lt`, `and`, `or`,
    /// `not`).
    pub fn from_name(s: &str) -> (r: Option<Arithmetic>)
        ensures
            r == arithmetic_named(s@),
    {
        if str_eq(s, "add") { Some(Arithmetic::Add) }
        else if str_eq(s, "sub") { Some(Arithmetic::Sub) }
        else if str_eq(s, "neg") { Some(Arithmetic::Neg) }
        else if str_eq(s, "eq") { Some(Arithmetic::Eq) }
        else if str_eq(s, "gt") { Some(Arithmetic::Gt) }
        else if str_eq(s, "lt") { Some(Arithmetic::Lt) }
        else if str_eq(s, "and") { Some(Arithmetic::And) }
        else if str_eq(s, "or") { Some(Arithmetic::Or) }
        else if str_eq(s, "not") { Some(Arithmetic::Not) }
        else { None }
    }

    /// The assembly that performs the command on the stack.
    pub fn translate(self) -> (r: Vec<Item>)
        ensures
            items_view(r@) == arithmetic_items(self),
    {
        let mut v: Vec<Item> = Vec::new();
        assert(items_view(v@) =~= Seq::<ItemV>::empty());
        match self {
            Arithmetic::Add | Arithmetic::Sub | Arithmetic::And | Arithmetic::Or => {
                emit_pop_into_d(&mut v);
                let e = match self {
                    Arithmetic::Add => CExpr::DPlusX(Source::Memory),
                    Arithmetic::Sub => CExpr::XMinusD(Source::Memory),
                    Arithmetic::And => CExpr::DAndX(Source::Memory),
                    _ => CExpr::DOrX(Source::Memory),
                };
                emit_set(&mut v, Dst::m(), e);
            },
            Arithmetic::Neg | Arithmetic::Not => {
                emit_top(&mut v);
                let e = match self {
                    Arithmetic::Neg => CExpr::NegX(Source::Memory),
                    _ => CExpr::NotX(Source::Memory),
                };
                emit_set(&mut v, Dst::m(), e);
            },
            Arithmetic::Gt | Arithmetic::Lt => {
                emit_pop_into_d(&mut v);
                let e = match self {
                    Arithmetic::Gt => CExpr::DMinusX(Source::Memory),
                    _ => CExpr::XMinusD(Source::Memory),
                };
                emit_set(&mut v, Dst::m(), e);
                emit_keep_high_bit(&mut v);
            },
            Arithmetic::Eq => {
                emit_pop_into_d(&mut v);
                emit_set(&mut v, Dst::m(), CExpr::XMinusD(Source::Memory));
                emit_set(&mut v, Dst::d(), CExpr::DPlusX(Source::Memory));
                emit_set(&mut v, Dst::a(), CExpr::XPlusOne(Source::Register));
                emit_set(&mut v, Dst::d(), CExpr::XMinusD(Source::Memory));
                emit_set(&mut v, Dst::a(), CExpr::XMinusOne(Source::Register));
                emit_set(&mut v, Dst::m(), CExpr::DOrX(Source::Memory));
                emit_set(&mut v, Dst::m(), CExpr::NotX(Source::Memory));
                emit_keep_high_bit(&mut v);
            },
        }
        assert(items_view(v@) =~= arithmetic_items(self));
        v
    }
}

/// Popping into D: the stack pointer drops by one, D holds the old top and A points at the
/// word below it.
proof fn lemma_pop_into_d(m: Machine)
    requires
        3 <= word(m, 0),
    ensures
        run(m, pop_into_d()) == Some(Machine {
            a: (word(m, 0) - 2) as u16,
            d: word(m, word(m, 0) - 1),
            ram: store(m.ram, 0, (word(m, 0) - 1) as u16),
        }),
{
    let sp = word(m, 0);
    let s = pop_into_d();
    let len = s.len() as int;
    assert(s.subrange(0, len) =~= s);
    let m1 = Machine { a: 0, ..m };
    lemma_run_at(m, s, 0);
    let m2 = Machine { ram: store(m.ram, 0, (sp - 1) as u16), ..m1 };
    lemma_run_at(m1, s, 1);
    let m3 = Machine { a: (sp - 1) as u16, ..m2 };
    lemma_run_at(m2, s, 2);
    let m4 = Machine { d: word(m, sp - 1), ..m3 };
    lemma_run_at(m3, s, 3);
    let m5 = Machine { a: (sp - 2) as u16, ..m4 };
    lemma_run_at(m4, s, 4);
    assert(s.subrange(5, len) =~= Seq::<ItemV>::empty());
    assert(run(m5, s.subrange(5, len)) == Some(m5));
}

/// The 16-bit word `v` read as a signed number.
pub open spec fn signed(v: u16) -> int {
    if v < 0x8000 { v as int } else { v - 0x10000 }
}

/// A truth value as the comparisons leave it: only the highest bit set for true.
pub open spec fn truth(b: bool) -> u16 {
    if b { 0x8000 } else { 0 }
}

/// Whether the signed difference `a - b` fits in 16 bits.
pub open spec fn difference_fits(a: u16, b: u16) -> bool {
    -0x8000 <= signed(a) - signed(b) < 0x8000
}

/// Whether the command takes two operands.
pub open spec fn is_binary(op: Arithmetic) -> bool {
    !(op is Neg || op is Not)
}

/// What a two-operand command leaves in place of its operands `x` (below) and `y` (top).
pub open spec fn binary_result(op: Arithmetic, x: u16, y: u16) -> u16 {
    match op {
        Arithmetic::Add => wrap(x + y),
        Arithmetic::Sub => wrap(x - y),
        Arithmetic::And => x & y,
        Arithmetic::Or => x | y,
        Arithmetic::Eq => truth(x == y),
        Arithmetic::Gt => truth(signed(x) > signed(y)),
        Arithmetic::Lt => truth(signed(x) < signed(y)),
        _ => 0,
    }
}

/// What a one-operand command leaves in place of its operand `y`.
pub open spec fn unary_result(op: Arithmetic, y: u16) -> u16 {
    match op {
        Arithmetic::Neg => wrap(-y),
        Arithmetic::Not => !y,
        _ => 0,
    }
}

/// A value between -2^16 and 2^16 taken modulo 2^16.
proof fn lemma_wrap(v: int)
    requires
        -0x10000 <= v < 0x10000,
    ensures
        wrap(v) == if v >= 0 { v } else { v + 0x10000 },
{
}

/// Keeping the highest bit of a word.
proof fn lemma_high_bit(v: u16)
    ensures
        0x8000u16 & v == truth(v >= 0x8000),
{
    assert(0x8000u16 & v == if v >= 0x8000 { 0x8000u16 } else { 0u16 }) by (bit_vector);
}

/// The highest bit of the complement of `p | q`.
proof fn lemma_high_bit_nor(p: u16, q: u16)
    ensures
        0x8000u16 & !(q | p) == truth(!(p >= 0x8000 || q >= 0x8000)),
{
    assert(0x8000u16 & !(q | p) == if p >= 0x8000 || q >= 0x8000 { 0u16 } else { 0x8000u16 }) by (bit_vector);
}

/// Keeping the highest bit of the stack top, the stack pointer being `sp`.
proof fn lemma_keep_high_bit(k: Machine, sp: int)
    requires
        1 <= sp < 0x10000,
        word(k, 0) == sp,
    ensures
        run(k, keep_high_bit()) matches Some(n)
            && n.ram == store(k.ram, (sp - 1) as u16, truth(word(k, sp - 1) >= 0x8000)),
{
    let s = keep_high_bit();
    let len = s.len() as int;
    assert(s.subrange(0, len) =~= s);
    let k1 = Machine { a: 0x7fff, ..k };
    lemma_run_at(k, s, 0);
    let k2 = Machine { d: 0x8000, ..k1 };
    lemma_run_at(k1, s, 1);
    let k3 = Machine { a: 0, ..k2 };
    lemma_run_at(k2, s, 2);
    let k4 = Machine { a: (sp - 1) as u16, ..k3 };
    lemma_run_at(k3, s, 3);
    lemma_high_bit(word(k, sp - 1));
    let k5 = Machine { ram: store(k.ram, (sp - 1) as u16, 0x8000u16 & word(k, sp - 1)), ..k4 };
    lemma_run_at(k4, s, 4);
    assert(s.subrange(5, len) =~= Seq::<ItemV>::empty());
    assert(run(k5, s.subrange(5, len)) == Some(k5));
}

/// The difference of two words, modulo 2^16, has its highest bit set exactly when the first
/// is the smaller as a signed number, provided the signed difference fits in 16 bits.
proof fn lemma_signed_less(x: u16, y: u16)
    requires
        difference_fits(x, y),
    ensures
        (wrap(x - y) >= 0x8000) == (signed(x) < signed(y)),
{
    let v = signed(x) - signed(y);
    assert(wrap(x - y) == wrap(v)) by {
        assert(x - y == v || x - y == v + 0x10000 || x - y == v - 0x10000);
        lemma_wrap(x - y);
        lemma_wrap(v);
    }
    lemma_wrap(v);
}

/// The two differences of two words: both 0 when the words are equal, else one of them has
/// its highest bit set.
proof fn lemma_differences(x: u16, y: u16)
    ensures
        (x == y) == !(wrap(x - y) >= 0x8000 || wrap(y - x) >= 0x8000),
{
    lemma_wrap(x - y);
    lemma_wrap(y - x);
}

/// What a two-operand command should leave: the stack pointer one lower, the result in place
/// of the lower operand, every other word as it was.
pub open spec fn binary_done(op: Arithmetic, m: Machine, r: Option<Machine>) -> bool {
    r matches Some(n)
        && word(n, 0) == word(m, 0) - 1
        && word(n, word(m, 0) - 2) == binary_result(op, word(m, word(m, 0) - 2), word(m, word(m, 0) - 1))
        && forall|i: u16| i != 0 && i != word(m, 0) - 2 ==> #[trigger] (n.ram)(i) == (m.ram)(i)
}

/// The machine after popping into D.
spec fn popped(m: Machine) -> Machine {
    Machine {
        a: (word(m, 0) - 2) as u16,
        d: word(m, word(m, 0) - 1),
        ram: store(m.ram, 0, (word(m, 0) - 1) as u16),
    }
}

proof fn lemma_plain_binary(op: Arithmetic, m: Machine)
    requires
        op is Add || op is Sub || op is And || op is Or,
        3 <= word(m, 0),
    ensures
        binary_done(op, m, run(m, arithmetic_items(op))),
{
    let sp = word(m, 0);
    let x = word(m, sp - 2);
    let y = word(m, sp - 1);
    let p = pop_into_d();
    lemma_pop_into_d(m);
    let m1 = popped(m);
    assert(word(m1, sp - 2) == x);
    let c = arithmetic_items(op).last();
    assert(arithmetic_items(op) =~= p + seq![c]);
    lemma_run_concat(m, p, seq![c]);
    assert(seq![c].drop_first() =~= Seq::<ItemV>::empty());
    reveal_with_fuel(run, 2);
    assert(y & x == x & y) by (bit_vector);
    assert(y | x == x | y) by (bit_vector);
}

proof fn lemma_compare(op: Arithmetic, m: Machine)
    requires
        op is Gt || op is Lt,
        3 <= word(m, 0),
        op is Lt ==> difference_fits(word(m, word(m, 0) - 2), word(m, word(m, 0) - 1)),
        op is Gt ==> difference_fits(word(m, word(m, 0) - 1), word(m, word(m, 0) - 2)),
    ensures
        binary_done(op, m, run(m, arithmetic_items(op))),
{
    let sp = word(m, 0);
    let x = word(m, sp - 2);
    let y = word(m, sp - 1);
    let p = pop_into_d();
    lemma_pop_into_d(m);
    let m1 = popped(m);
    assert(word(m1, sp - 2) == x);
    let c = if op is Gt { assign(1, CExpr::DMinusX(Source::Memory)) } else { assign(1, CExpr::XMinusD(Source::Memory)) };
    let k = keep_high_bit();
    assert(arithmetic_items(op) =~= (p + seq![c]) + k);
    lemma_run_concat(m, p + seq![c], k);
    lemma_run_concat(m, p, seq![c]);
    assert(seq![c].drop_first() =~= Seq::<ItemV>::empty());
    let v = if op is Gt { wrap(y - x) } else { wrap(x - y) };
    let m2 = Machine { ram: store(m1.ram, (sp - 2) as u16, v), ..m1 };
    assert(run(m1, seq![c]) == Some(m2)) by {
        reveal_with_fuel(run, 2);
    }
    assert(word(m2, 0) == sp - 1);
    lemma_keep_high_bit(m2, sp - 1);
    if op is Gt {
        lemma_signed_less(y, x);
    } else {
        lemma_signed_less(x, y);
    }
}

/// The middle of `eq`: the two differences of the operands, or-ed and complemented.
spec fn eq_middle() -> Seq<ItemV> {
    seq![
        assign(1, CExpr::XMinusD(Source::Memory)),
        assign(2, CExpr::DPlusX(Source::Memory)),
        assign(4, CExpr::XPlusOne(Source::Register)),
        assign(2, CExpr::XMinusD(Source::Memory)),
        assign(4, CExpr::XMinusOne(Source::Register)),
        assign(1, CExpr::DOrX(Source::Memory)),
        assign(1, CExpr::NotX(Source::Memory)),
    ]
}

/// Adding back the subtrahend to a difference modulo 2^16.
proof fn lemma_add_back(x: u16, y: u16)
    ensures
        wrap(y + wrap(x - y)) == x,
{
    lemma_wrap(x - y);
    if x >= y {
        lemma_wrap(x as int);
    } else {
        lemma_wrap(x as int);
        vstd::arithmetic::div_mod::lemma_mod_add_multiples_vanish(x as int, 0x10000);
    }
}

proof fn lemma_eq_middle(m1: Machine, sp: int, x: u16, y: u16)
    requires
        3 <= sp < 0x10000,
        m1.a == sp - 2,
        m1.d == y,
        word(m1, sp - 2) == x,
        word(m1, sp - 1) == y,
    ensures
        run(m1, eq_middle()) matches Some(n)
            && n.ram == store(store(store(m1.ram, (sp - 2) as u16, wrap(x - y)), (sp - 2) as u16, wrap(y - x) | wrap(x - y)),
                (sp - 2) as u16, !(wrap(y - x) | wrap(x - y))),
{
    let mid = eq_middle();
    let len = mid.len() as int;
    let pd = wrap(x - y);
    let qd = wrap(y - x);
    lemma_add_back(x, y);
    lemma_wrap(x - y);
    lemma_wrap(y - x);
    let r1 = store(m1.ram, (sp - 2) as u16, pd);
    let r2 = store(r1, (sp - 2) as u16, qd | pd);
    let r3 = store(r2, (sp - 2) as u16, !(qd | pd));
    assert(mid.subrange(0, len) =~= mid);
    let n1 = Machine { ram: r1, ..m1 };
    lemma_run_at(m1, mid, 0);
    let n2 = Machine { d: x, ..n1 };
    lemma_run_at(n1, mid, 1);
    let n3 = Machine { a: (sp - 1) as u16, ..n2 };
    lemma_run_at(n2, mid, 2);
    assert((n3.ram)(n3.a) == y);
    let n4 = Machine { d: qd, ..n3 };
    lemma_run_at(n3, mid, 3);
    let n5 = Machine { a: (sp - 2) as u16, ..n4 };
    lemma_run_at(n4, mid, 4);
    let n6 = Machine { ram: r2, ..n5 };
    lemma_run_at(n5, mid, 5);
    let n7 = Machine { ram: r3, ..n6 };
    lemma_run_at(n6, mid, 6);
    assert(mid.subrange(7, len) =~= Seq::<ItemV>::empty());
    assert(run(n7, mid.subrange(7, len)) == Some(n7));
}

proof fn lemma_eq(m: Machine)
    requires
        3 <= word(m, 0),
    ensures
        binary_done(Arithmetic::Eq, m, run(m, arithmetic_items(Arithmetic::Eq))),
{
    let sp = word(m, 0);
    let x = word(m, sp - 2);
    let y = word(m, sp - 1);
    let p = pop_into_d();
    lemma_pop_into_d(m);
    let m1 = popped(m);
    let mid = eq_middle();
    let k = keep_high_bit();
    assert(arithmetic_items(Arithmetic::Eq) =~= (p + mid) + k);
    lemma_run_concat(m, p + mid, k);
    lemma_run_concat(m, p, mid);
    lemma_eq_middle(m1, sp as int, x, y);
    let m8 = run(m1, mid)->0;
    assert(word(m8, 0) == sp - 1);
    let pd = wrap(x - y);
    let qd = wrap(y - x);
    assert(word(m8, sp - 2) == !(qd | pd));
    lemma_keep_high_bit(m8, sp - 1);
    lemma_high_bit_nor(pd, qd);
    lemma_high_bit(!(qd | pd));
    lemma_differences(x, y);
}

/// A two-operand command (`add`, `sub`, `and`, `or`, `eq`, `gt`, `lt`) pops the top of the
/// stack `y` and replaces the word below it, `x`, by the result; every other word stays as it
/// was. The comparisons leave only the highest bit set for true; `gt` and `lt` compare as
/// signed numbers when the difference they compute (`y - x` for `gt`, `x - y` for `lt`) fits
/// in 16 bits.
pub proof fn lemma_binary_command(op: Arithmetic, m: Machine)
    requires
        is_binary(op),
        3 <= word(m, 0),
        op is Lt ==> difference_fits(word(m, word(m, 0) - 2), word(m, word(m, 0) - 1)),
        op is Gt ==> difference_fits(word(m, word(m, 0) - 1), word(m, word(m, 0) - 2)),
    ensures
        binary_done(op, m, run(m, arithmetic_items(op))),
{
    if op is Gt || op is Lt {
        lemma_compare(op, m);
    } else if op is Eq {
        lemma_eq(m);
    } else {
        lemma_plain_binary(op, m);
    }
}

/// What a one-operand command should leave: the stack pointer as it was, the result in place
/// of the operand, every other word as it was.
pub open spec fn unary_done(op: Arithmetic, m: Machine, r: Option<Machine>) -> bool {
    r matches Some(n)
        && word(n, 0) == word(m, 0)
        && word(n, word(m, 0) - 1) == unary_result(op, word(m, word(m, 0) - 1))
        && forall|i: u16| i != word(m, 0) - 1 ==> #[trigger] (n.ram)(i) == (m.ram)(i)
}

/// A one-operand command (`neg`, `not`) replaces the top of the stack `y` by `-y` (modulo
/// 2^16) or by its complement; every other word stays as it was.
pub proof fn lemma_unary_command(op: Arithmetic, m: Machine)
    requires
        op is Neg || op is Not,
        2 <= word(m, 0),
    ensures
        unary_done(op, m, run(m, arithmetic_items(op))),
{
    let sp = word(m, 0);
    let t = top();
    let c = arithmetic_items(op).last();
    assert(arithmetic_items(op) =~= t + seq![c]);
    lemma_run_concat(m, t, seq![c]);
    reveal_with_fuel(run, 3);
    assert(t.drop_first().drop_first() =~= Seq::<ItemV>::empty());
    assert(seq![c].drop_first() =~= Seq::<ItemV>::empty());
    let m1 = Machine { a: 0, ..m };
    assert(step(m, t[0]) == Some(m1));
    let m2 = Machine { a: (sp - 1) as u16, ..m1 };
    assert(step(m1, t.drop_first()[0]) == Some(m2));
}

} // verus!
