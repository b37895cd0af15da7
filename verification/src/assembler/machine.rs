//! The Hack computer: what straight-line assembly does to its registers and memory, and
//! what the machine word of an instruction does.
use vstd::prelude::*;
use crate::assembler::structs::{CExpr, IdentV, InstructionV, ItemV, JumpCondition, Source};
use crate::assembler::convert::comp_code;
use crate::assembler::assemble::{encode_c_bits, word_step, words_of};
use crate::assembler::symbol_table::TableV;

verus! {

/// The registers and the memory of a Hack machine.
pub struct Machine {
    pub a: u16,
    pub d: u16,
    pub ram: spec_fn(u16) -> u16,
}

/// A value taken modulo 2^16.
pub open spec fn wrap(v: int) -> u16 {
    (v % 0x10000) as u16
}

/// The second operand: the A register or the memory word it addresses.
pub open spec fn operand(s: Source, a: u16, m: u16) -> u16 {
    match s {
        Source::Register => a,
        Source::Memory => m,
    }
}

/// The value a computation gives from A, D and the word M at A.
pub open spec fn compute(e: CExpr, a: u16, d: u16, m: u16) -> u16 {
    match e {
        CExpr::Zero => 0,
        CExpr::One => 1,
        CExpr::NegOne => 0xffff,
        CExpr::D => d,
        CExpr::X(s) => operand(s, a, m),
        CExpr::NotD => !d,
        CExpr::NotX(s) => !operand(s, a, m),
        CExpr::NegD => wrap(-d),
        CExpr::NegX(s) => wrap(-operand(s, a, m)),
        CExpr::DPlusOne => wrap(d + 1),
        CExpr::DMinusOne => wrap(d - 1),
        CExpr::XPlusOne(s) => wrap(operand(s, a, m) + 1),
        CExpr::XMinusOne(s) => wrap(operand(s, a, m) - 1),
        CExpr::DPlusX(s) => wrap(d + operand(s, a, m)),
        CExpr::DMinusX(s) => wrap(d - operand(s, a, m)),
        CExpr::XMinusD(s) => wrap(operand(s, a, m) - d),
        CExpr::DAndX(s) => d & operand(s, a, m),
        CExpr::DOrX(s) => d | operand(s, a, m),
    }
}

/// The memory after `v` is written at `addr`.
pub open spec fn store(ram: spec_fn(u16) -> u16, addr: u16, v: u16) -> spec_fn(u16) -> u16 {
    |i: u16| if i == addr { v } else { ram(i) }
}

/// One item on the machine: an address instruction loads its value (as assembled, the low
/// 15 bits) into A; a computation without a jump stores its value into its destinations
/// (M = 1, D = 2, A = 4), M at the address A held before; labels do nothing. `None` for what
/// straight-line code does not hold: a symbol to resolve, or a jump.
pub open spec fn step(m: Machine, it: ItemV) -> Option<Machine> {
    match it {
        ItemV::Label(_) => Some(m),
        ItemV::Instruction(InstructionV::Label(_)) => Some(m),
        ItemV::Instruction(InstructionV::A(IdentV::Addr(n))) => Some(Machine { a: (n % 0x8000) as u16, ..m }),
        ItemV::Instruction(InstructionV::A(IdentV::Name(_))) => None,
        ItemV::Instruction(InstructionV::C { expr, dst, jump }) => if jump is Never {
            let v = compute(expr, m.a, m.d, (m.ram)(m.a));
            Some(Machine {
                a: if (dst / 4) % 2 == 1 { v } else { m.a },
                d: if (dst / 2) % 2 == 1 { v } else { m.d },
                ram: if dst % 2 == 1 { store(m.ram, m.a, v) } else { m.ram },
            })
        } else {
            None
        },
    }
}

/// The items run one after the other from `m`.
pub open spec fn run(m: Machine, items: Seq<ItemV>) -> Option<Machine>
    decreases items.len(),
{
    if items.len() == 0 {
        Some(m)
    } else {
        match step(m, items[0]) {
            Some(n) => run(n, items.drop_first()),
            None => None,
        }
    }
}

/// Running two sequences one after the other is running them joined.
pub proof fn lemma_run_concat(m: Machine, s: Seq<ItemV>, t: Seq<ItemV>)
    ensures
        run(m, s + t) == match run(m, s) {
            Some(n) => run(n, t),
            None => None,
        },
    decreases s.len(),
{
    if s.len() == 0 {
        assert(s + t =~= t);
    } else {
        assert((s + t).drop_first() =~= s.drop_first() + t);
        assert((s + t)[0] == s[0]);
        match step(m, s[0]) {
            Some(n) => lemma_run_concat(n, s.drop_first(), t),
            None => {},
        }
    }
}

/// Running the items of `s` from the `k`-th on is one step, then running those after it.
pub proof fn lemma_run_at(m: Machine, s: Seq<ItemV>, k: int)
    requires
        0 <= k < s.len(),
    ensures
        run(m, s.subrange(k, s.len() as int)) == match step(m, s[k]) {
            Some(n) => run(n, s.subrange(k + 1, s.len() as int)),
            None => None,
        },
{
    assert(s.subrange(k, s.len() as int).drop_first() =~= s.subrange(k + 1, s.len() as int));
}

/// The word at `addr`.
pub open spec fn word(m: Machine, addr: int) -> u16 {
    (m.ram)(addr as u16)
}

/// The Hack ALU: what the six control bits `zx nx zy ny f no` (`c`, highest first) make of
/// `x` (the D register) and `y`: zero and/or complement each input, add them (modulo 2^16)
/// or `and` them, and complement the output.
#[verifier::opaque]
pub open spec fn alu(x: u16, y: u16, c: int) -> u16 {
    let x1: u16 = if (c / 32) % 2 == 1 { 0 } else { x };
    let x2: u16 = if (c / 16) % 2 == 1 { !x1 } else { x1 };
    let y1: u16 = if (c / 8) % 2 == 1 { 0 } else { y };
    let y2: u16 = if (c / 4) % 2 == 1 { !y1 } else { y1 };
    let o: u16 = if (c / 2) % 2 == 1 { wrap(x2 + y2) } else { x2 & y2 };
    if c % 2 == 1 { !o } else { o }
}

/// The Hack computer executing the word `w` from `m`, apart from where it goes next: a word
/// with the highest bit clear loads A; otherwise the `a` bit picks A or the word at A as the
/// ALU's second input, and the value goes to the destinations (M = 1, D = 2, A = 4), M at the
/// address A held before.
pub open spec fn execute(m: Machine, w: u16) -> Machine {
    if w < 0x8000 {
        Machine { a: w, ..m }
    } else {
        let c = (w / 64) % 128;
        let y = if c >= 64 { (m.ram)(m.a) } else { m.a };
        let v = alu(m.d, y, (c % 64) as int);
        let dst = (w / 8) % 8;
        Machine {
            a: if (dst / 4) % 2 == 1 { v } else { m.a },
            d: if (dst / 2) % 2 == 1 { v } else { m.d },
            ram: if dst % 2 == 1 { store(m.ram, m.a, v) } else { m.ram },
        }
    }
}

/// The identities of 16-bit words the ALU's codes rest on.
proof fn lemma_word_identities(x: u16, y: u16)
    by (bit_vector)
    ensures
        x & 0xffff == x,
        0xffff & y == y,
        0u16 & 0u16 == 0,
        !(((x + 0xffffu16) % 0x10000) as u16) == ((0x10000 - x) % 0x10000) as u16,
        !(((!x + 0xffffu16) % 0x10000) as u16) == ((x + 1) % 0x10000) as u16,
        !(((!x + y) % 0x10000) as u16) == ((x + 0x10000 - y) % 0x10000) as u16,
        !(((x + !y) % 0x10000) as u16) == ((y + 0x10000 - x) % 0x10000) as u16,
        !(!x & !y) == x | y,
        !0u16 == 0xffffu16,
        !0xfffeu16 == 1u16,
{
}

/// Adding 2^16 changes nothing modulo 2^16.
proof fn lemma_wrap_shift(v: int)
    ensures
        wrap(v + 0x10000) == wrap(v),
{
    vstd::arithmetic::div_mod::lemma_mod_add_multiples_vanish(v, 0x10000);
}

/// What the ALU computes for each of the control codes the Hack machine language names.
proof fn lemma_alu_table(x: u16, y: u16)
    ensures
        alu(x, y, 0b101010) == 0,
        alu(x, y, 0b111111) == 1,
        alu(x, y, 0b111010) == 0xffff,
        alu(x, y, 0b001100) == x,
        alu(x, y, 0b110000) == y,
        alu(x, y, 0b001101) == !x,
        alu(x, y, 0b110001) == !y,
        alu(x, y, 0b001111) == wrap(-x),
        alu(x, y, 0b110011) == wrap(-y),
        alu(x, y, 0b011111) == wrap(x + 1),
        alu(x, y, 0b110111) == wrap(y + 1),
        alu(x, y, 0b001110) == wrap(x - 1),
        alu(x, y, 0b110010) == wrap(y - 1),
        alu(x, y, 0b000010) == wrap(x + y),
        alu(x, y, 0b010011) == wrap(x - y),
        alu(x, y, 0b000111) == wrap(y - x),
        alu(x, y, 0b000000) == x & y,
        alu(x, y, 0b010101) == x | y,
{
    assert(alu(x, y, 0b101010) == 0) by {
        reveal(alu);
        lemma_word_identities(x, y);
        lemma_word_identities(y, x);
    }
    assert(alu(x, y, 0b111111) == 1) by {
        reveal(alu);
        lemma_word_identities(x, y);
        lemma_word_identities(y, x);
    }
    assert(alu(x, y, 0b111010) == 0xffff) by {
        reveal(alu);
        lemma_word_identities(x, y);
        lemma_word_identities(y, x);
    }
    assert(alu(x, y, 0b001100) == x) by {
        reveal(alu);
        lemma_word_identities(x, y);
        lemma_word_identities(y, x);
    }
    assert(alu(x, y, 0b110000) == y) by {
        reveal(alu);
        lemma_word_identities(x, y);
        lemma_word_identities(y, x);
    }
    assert(alu(x, y, 0b001101) == !x) by {
        reveal(alu);
        lemma_word_identities(x, y);
        lemma_word_identities(y, x);
    }
    assert(alu(x, y, 0b110001) == !y) by {
        reveal(alu);
        lemma_word_identities(x, y);
        lemma_word_identities(y, x);
    }
    assert(alu(x, y, 0b001111) == wrap(-x)) by {
        reveal(alu);
        lemma_word_identities(x, y);
        lemma_word_identities(y, x);
        lemma_wrap_shift(-x as int);
    }
    assert(alu(x, y, 0b110011) == wrap(-y)) by {
        reveal(alu);
        lemma_word_identities(x, y);
        lemma_word_identities(y, x);
        lemma_wrap_shift(-y as int);
    }
    assert(alu(x, y, 0b011111) == wrap(x + 1)) by {
        reveal(alu);
        lemma_word_identities(x, y);
        lemma_word_identities(y, x);
    }
    assert(alu(x, y, 0b110111) == wrap(y + 1)) by {
        reveal(alu);
        lemma_word_identities(x, y);
        lemma_word_identities(y, x);
    }
    assert(alu(x, y, 0b001110) == wrap(x - 1)) by {
        reveal(alu);
        lemma_word_identities(x, y);
        lemma_word_identities(y, x);
        lemma_wrap_shift(x - 1);
    }
    assert(alu(x, y, 0b110010) == wrap(y - 1)) by {
        reveal(alu);
        lemma_word_identities(x, y);
        lemma_word_identities(y, x);
        lemma_wrap_shift(y - 1);
    }
    assert(alu(x, y, 0b000010) == wrap(x + y)) by {
        reveal(alu);
        lemma_word_identities(x, y);
        lemma_word_identities(y, x);
    }
    assert(alu(x, y, 0b010011) == wrap(x - y)) by {
        reveal(alu);
        lemma_word_identities(x, y);
        lemma_word_identities(y, x);
        lemma_wrap_shift(x - y);
    }
    assert(alu(x, y, 0b000111) == wrap(y - x)) by {
        reveal(alu);
        lemma_word_identities(x, y);
        lemma_word_identities(y, x);
        lemma_wrap_shift(y - x);
    }
    assert(alu(x, y, 0b000000) == x & y) by {
        reveal(alu);
        lemma_word_identities(x, y);
        lemma_word_identities(y, x);
    }
    assert(alu(x, y, 0b010101) == x | y) by {
        reveal(alu);
        lemma_word_identities(x, y);
        lemma_word_identities(y, x);
    }
}

/// Given the control bits the assembler writes for a computation (and the `a` bit choosing M
/// or A), the ALU computes what the computation means.
#[verifier::rlimit(40)]
#[verifier::spinoff_prover]
pub proof fn lemma_alu_codes(e: CExpr, a: u16, d: u16, m: u16)
    ensures
        alu(d, if comp_code(e) >= 64 { m } else { a }, comp_code(e) % 64) == compute(e, a, d, m),
{
    let y = if comp_code(e) >= 64 { m } else { a };
    lemma_alu_table(d, y);
    match e {
        CExpr::X(s) | CExpr::NotX(s) | CExpr::NegX(s) | CExpr::XPlusOne(s) | CExpr::XMinusOne(s)
        | CExpr::DPlusX(s) | CExpr::DMinusX(s) | CExpr::XMinusD(s) | CExpr::DAndX(s) | CExpr::DOrX(s) => {
            match s {
                Source::Register => assert(operand(s, a, m) == y),
                Source::Memory => assert(operand(s, a, m) == y),
            }
        },
        _ => {},
    }
}

/// The machine word the assembler gives a compute instruction without a jump, run on the
/// Hack computer, does what the instruction does.
pub proof fn lemma_execute_compute(m: Machine, e: CExpr, dst: u8)
    requires
        dst < 8,
    ensures
        step(m, ItemV::Instruction(InstructionV::C { expr: e, dst, jump: JumpCondition::Never }))
            == Some(execute(m, encode_c_bits(e, dst, JumpCondition::Never))),
{
    let code = comp_code(e);
    let b = dst as int;
    assert(0 <= code < 128) by {
        crate::assembler::convert::lemma_comp_code(e);
    }
    let w = encode_c_bits(e, dst, JumpCondition::Never);
    assert(w == 0xE000 + code * 64 + b * 8);
    assert(w / 64 == 896 + code && (w / 64) % 128 == code && (w / 8) % 8 == b) by (nonlinear_arith)
        requires
            w == 0xE000 + code * 64 + b * 8,
            0 <= code < 128,
            0 <= b < 8,
    ;
    lemma_alu_codes(e, m.a, m.d, (m.ram)(m.a));
}

/// The machine word the assembler gives an address instruction (its low 15 bits), run on
/// the Hack computer, does what the instruction does.
pub proof fn lemma_execute_address(m: Machine, n: u16)
    ensures
        step(m, ItemV::Instruction(InstructionV::A(IdentV::Addr(n)))) == Some(execute(m, n & 0x7fff)),
{
    assert(n & 0x7fff == n % 0x8000 && n & 0x7fff < 0x8000) by (bit_vector);
}

/// The Hack computer executing the words one after the other.
pub open spec fn execute_all(m: Machine, ws: Seq<u16>) -> Machine
    decreases ws.len(),
{
    if ws.len() == 0 {
        m
    } else {
        execute_all(execute(m, ws[0]), ws.drop_first())
    }
}

/// Executing one more word at the end.
proof fn lemma_execute_all_push(m: Machine, ws: Seq<u16>, w: u16)
    ensures
        execute_all(m, ws.push(w)) == execute(execute_all(m, ws), w),
    decreases ws.len(),
{
    if ws.len() == 0 {
        assert(ws.push(w).drop_first() =~= Seq::<u16>::empty());
        reveal_with_fuel(execute_all, 2);
    } else {
        assert(ws.push(w).drop_first() =~= ws.drop_first().push(w));
        assert(ws.push(w)[0] == ws[0]);
        lemma_execute_all_push(execute(m, ws[0]), ws.drop_first(), w);
    }
}

/// Whether every instruction is an address instruction with a number, or a computation
/// without a jump: code that runs straight through.
pub open spec fn straight(instrs: Seq<InstructionV>) -> bool {
    forall|k: int| 0 <= k < instrs.len() ==> match #[trigger] instrs[k] {
        InstructionV::A(IdentV::Addr(_)) => true,
        InstructionV::C { dst, jump, .. } => jump is Never && dst < 8,
        _ => false,
    }
}

/// The instructions as items.
pub open spec fn as_items(instrs: Seq<InstructionV>) -> Seq<ItemV> {
    instrs.map_values(|i: InstructionV| ItemV::Instruction(i))
}

/// Straight-line code, assembled and run on the Hack computer, does what its instructions
/// do; assembling it leaves the symbol table as it was.
pub proof fn lemma_assembled_code_runs(m: Machine, st: TableV, instrs: Seq<InstructionV>)
    requires
        straight(instrs),
    ensures
        words_of(st, instrs) matches Some((ws, st2))
            && st2 == st
            && run(m, as_items(instrs)) == Some(execute_all(m, ws)),
    decreases instrs.len(),
{
    if instrs.len() == 0 {
        assert(as_items(instrs) =~= Seq::<ItemV>::empty());
    } else {
        let init = instrs.drop_last();
        let last = instrs.last();
        assert(straight(init)) by {
            assert forall|k: int| 0 <= k < init.len() implies match #[trigger] init[k] {
                InstructionV::A(IdentV::Addr(_)) => true,
                InstructionV::C { dst, jump, .. } => jump is Never && dst < 8,
                _ => false,
            } by {
                assert(init[k] == instrs[k]);
            }
        }
        lemma_assembled_code_runs(m, st, init);
        let ws = (words_of(st, init)->0).0;
        assert(as_items(instrs) =~= as_items(init) + seq![ItemV::Instruction(last)]);
        lemma_run_concat(m, as_items(init), seq![ItemV::Instruction(last)]);
        let n = execute_all(m, ws);
        assert(match instrs[instrs.len() - 1] {
            InstructionV::A(IdentV::Addr(_)) => true,
            InstructionV::C { dst, jump, .. } => jump is Never && dst < 8,
            _ => false,
        });
        match last {
            InstructionV::A(IdentV::Addr(a)) => {
                lemma_execute_address(n, a);
                lemma_execute_all_push(m, ws, a & 0x7fff);
            },
            InstructionV::C { expr, dst, jump } => {
                lemma_execute_compute(n, expr, dst);
                lemma_execute_all_push(m, ws, encode_c_bits(expr, dst, jump));
            },
            _ => {},
        }
        reveal_with_fuel(run, 2);
        assert(seq![ItemV::Instruction(last)].drop_first() =~= Seq::<ItemV>::empty());
    }
}

/// The word `v` read as a signed 16-bit number.
pub open spec fn signed_word(v: u16) -> int {
    if v < 0x8000 { v as int } else { v - 0x10000 }
}

/// Whether the Hack computer jumps after computing `v`, given the three jump bits `j` of the
/// instruction: the first bit jumps on a negative value, the second on zero, the third on a
/// positive value.
pub open spec fn jumps_on(j: int, v: u16) -> bool {
    ||| (j / 4) % 2 == 1 && signed_word(v) < 0
    ||| (j / 2) % 2 == 1 && signed_word(v) == 0
    ||| j % 2 == 1 && signed_word(v) > 0
}

} // verus!
