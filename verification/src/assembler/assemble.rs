//! Turning a parsed program into machine words and into `.hack` text.
use vstd::prelude::*;
use crate::assembler::convert::{comp_code, convert_cinstr, jump_code};
use crate::assembler::structs::{Ident, IdentV, Instruction, InstructionV, Program};
use crate::assembler::symbol_table::{free_from, next_free, ram_free, Address, SymbolTable, TableV};
use crate::assembler::err::AssemblyError;
use crate::assembler::parse::{lemma_parsed_no_labels, lines_from, parse_checked, parse_program, symbols_with, values_with, ProgramOutcome, ProgramParse};
use crate::text::string_push;

verus! {

/// The machine word of a compute instruction given its destination bits.
pub open spec fn encode_c_bits(e: crate::assembler::structs::CExpr, d: u8, j: crate::assembler::structs::JumpCondition) -> u16 {
    (0xE000 + comp_code(e) * 64 + d * 8 + jump_code(j)) as u16
}

/// The word of one instruction and the table after it, or `None` when a new variable finds no
/// free data address. A known name stands for its address; an unknown name gets the next free
/// data address. Addresses keep their low fifteen bits.
pub open spec fn word_step(st: TableV, i: InstructionV) -> Option<(u16, TableV)> {
    match i {
        InstructionV::A(IdentV::Addr(a)) => Some((a & 0x7fff, st)),
        InstructionV::A(IdentV::Name(n)) => if st.symbols.contains_key(n) {
            Some((st.symbols[n].number() & 0x7fff, st))
        } else {
            match next_free(st.values, st.next_ram) {
                None => None,
                Some(a) => Some(
                    (
                        a & 0x7fff,
                        TableV {
                            symbols: st.symbols.insert(n, Address::Ram(a)),
                            values: st.values.insert(Address::Ram(a)),
                            next_ram: a,
                        },
                    ),
                ),
            }
        },
        InstructionV::C { expr, dst, jump } => Some((encode_c_bits(expr, dst, jump), st)),
        InstructionV::Label(_) => None,
    }
}

/// The words of `instrs` and the table after them, starting from table `st`; `None` when the
/// data memory runs out.
pub open spec fn words_of(st: TableV, instrs: Seq<InstructionV>) -> Option<(Seq<u16>, TableV)>
    decreases instrs.len(),
{
    if instrs.len() == 0 {
        Some((seq![], st))
    } else {
        match words_of(st, instrs.drop_last()) {
            None => None,
            Some((ws, st2)) => match word_step(st2, instrs.last()) {
                None => None,
                Some((w, st3)) => Some((ws.push(w), st3)),
            },
        }
    }
}

/// Whether no instruction is a label declaration.
pub open spec fn no_labels(instrs: Seq<InstructionV>) -> bool {
    forall|k: int| 0 <= k < instrs.len() ==> !(#[trigger] instrs[k] is Label)
}

/// The sixteen binary digits of `w`, most significant first.
pub open spec fn bin16(w: u16) -> Seq<char> {
    Seq::new(16, |i: int| if (w >> ((15 - i) as u16)) & 1u16 == 1u16 { '1' } else { '0' })
}

/// The `.hack` text of `words`: one line of sixteen binary digits per word.
pub open spec fn hack_text(words: Seq<u16>) -> Seq<char>
    decreases words.len(),
{
    if words.len() == 0 {
        seq![]
    } else {
        hack_text(words.drop_last()) + bin16(words.last()) + seq!['\n']
    }
}

proof fn lemma_words_of_prefix_none(st: TableV, s: Seq<InstructionV>, n: int)
    requires
        0 <= n <= s.len(),
        words_of(st, s.take(n)) is None,
    ensures
        words_of(st, s) is None,
    decreases s.len(),
{
    if n == s.len() {
        assert(s.take(n) == s);
    } else {
        assert(s.drop_last().take(n) == s.take(n));
        lemma_words_of_prefix_none(st, s.drop_last(), n);
    }
}

/// The machine words of a program, or `None` when a new variable finds no free data address.
fn to_raw(sym_table: &mut SymbolTable, program: &Program) -> (r: Option<Vec<u16>>)
    requires
        no_labels(program@),
    ensures
        match words_of(old(sym_table).state(), program@) {
            Some((ws, st)) => r matches Some(v) && v@ == ws && final(sym_table).state() == st,
            None => r is None,
        },
{
    let mut out: Vec<u16> = Vec::new();
    let mut k: usize = 0;
    while k < program.0.len()
        invariant
            k <= program@.len(),
            no_labels(program@),
            words_of(old(sym_table).state(), program@.take(k as int)) == Some((out@, sym_table.state())),
        decreases program@.len() - k,
    {
        assert(program@.take(k + 1).drop_last() == program@.take(k as int));
        assert(program@.take(k + 1).last() == program.0@[k as int]@);
        let w = match &program.0[k] {
            Instruction::A(Ident::Addr(addr)) => *addr & 0x7fff,
            Instruction::A(Ident::Name(name)) => {
                let found = match sym_table.lookup(name.as_str()) {
                    Some(a) => Some(*a),
                    None => None,
                };
                let addr = match found {
                    Some(a) => a,
                    None => match sym_table.assign_available_ram(name.clone()) {
                        Ok(a) => a,
                        Err(_) => {
                            proof {
                                lemma_words_of_prefix_none(old(sym_table).state(), program@, k + 1);
                            }
                            return None;
                        },
                    },
                };
                addr.unwrap() & 0x7fff
            },
            Instruction::C { expr, dst, jump } => {
                convert_cinstr(expr, dst, jump)
            },
            Instruction::Label(_) => {
                assert(program@[k as int] is Label);
                return None;
            },
        };
        out.push(w);
        k += 1;
    }
    assert(program@.take(program@.len() as int) == program@);
    Some(out)
}

/// The machine words of a program, or `None` when a new variable finds no free data address.
pub fn try_to_vec(symbol_table: &mut SymbolTable, program: &Program) -> (r: Option<Vec<u16>>)
    requires
        no_labels(program@),
    ensures
        match words_of(old(symbol_table).state(), program@) {
            Some((ws, st)) => r matches Some(v) && v@ == ws && final(symbol_table).state() == st,
            None => r is None,
        },
{
    to_raw(symbol_table, program)
}

/// The machine words of a program whose variables all find free data addresses.
pub fn to_vec(symbol_table: &mut SymbolTable, program: &Program) -> (r: Vec<u16>)
    requires
        no_labels(program@),
        words_of(old(symbol_table).state(), program@) is Some,
    ensures
        r@ == (words_of(old(symbol_table).state(), program@)->0).0,
        final(symbol_table).state() == (words_of(old(symbol_table).state(), program@)->0).1,
{
    match to_raw(symbol_table, program) {
        Some(v) => v,
        None => {
            assert(false);
            Vec::new()
        },
    }
}

/// The sixteen binary digits of `w`, most significant first.
pub fn binary_digits(w: u16) -> (r: String)
    ensures
        r@ == bin16(w),
{
    let mut r = String::new();
    let mut i: u16 = 0;
    while i < 16
        invariant
            i <= 16,
            r@ == bin16(w).take(i as int),
        decreases 16 - i,
    {
        let bit = (w >> (15 - i)) & 1;
        string_push(&mut r, if bit == 1 { '1' } else { '0' });
        assert(r@ == bin16(w).take(i + 1));
        i += 1;
    }
    assert(bin16(w).take(16) == bin16(w));
    r
}

/// The `.hack` text of the given words.
pub fn words_to_text(words: &Vec<u16>) -> (r: String)
    ensures
        r@ == hack_text(words@),
{
    let mut r = String::new();
    let mut k: usize = 0;
    while k < words.len()
        invariant
            k <= words@.len(),
            r@ == hack_text(words@.take(k as int)),
        decreases words@.len() - k,
    {
        assert(words@.take(k + 1).drop_last() == words@.take(k as int));
        let line = binary_digits(words[k]);
        r.append(line.as_str());
        string_push(&mut r, '\n');
        k += 1;
    }
    assert(words@.take(words@.len() as int) == words@);
    r
}

/// The `.hack` text of a program whose variables all find free data addresses: one line of
/// sixteen binary digits per instruction.
pub fn to_string(sym_table: &mut SymbolTable, program: &Program) -> (r: String)
    requires
        no_labels(program@),
        words_of(old(sym_table).state(), program@) is Some,
    ensures
        r@ == hack_text((words_of(old(sym_table).state(), program@)->0).0),
        final(sym_table).state() == (words_of(old(sym_table).state(), program@)->0).1,
{
    let words = to_vec(sym_table, program);
    words_to_text(&words)
}

/// Assembling gives exactly one machine word per instruction.
pub proof fn lemma_one_word_per_instruction(st: TableV, instrs: Seq<InstructionV>)
    ensures
        words_of(st, instrs) matches Some((ws, _)) ==> ws.len() == instrs.len(),
    decreases instrs.len(),
{
    if instrs.len() > 0 {
        lemma_one_word_per_instruction(st, instrs.drop_last());
    }
}

/// The first free data address found from `a` on is indeed free, and not before `a`.
proof fn lemma_free_from_free(values: Set<Address>, a: int)
    ensures
        free_from(values, a) matches Some(x) ==> ram_free(values, x as int) && a <= x,
    decreases 0x10000 - a,
{
    if 0 <= a <= 0xffff && !ram_free(values, a) {
        lemma_free_from_free(values, a + 1);
    }
}

/// A variable gets a data address that was not in use before.
pub proof fn lemma_new_variable_fresh(values: Set<Address>, start: u16)
    ensures
        next_free(values, start) matches Some(a) ==> !values.contains(Address::Ram(a)),
{
    lemma_free_from_free(values, start as int);
    lemma_free_from_free(values, 0);
}

/// An addressing instruction's word has its top bit clear; a compute instruction's word
/// (with destination bits M, D, A only) has its three top bits set.
pub proof fn lemma_word_kinds(st: TableV, i: InstructionV)
    ensures
        word_step(st, i) matches Some((w, _)) ==> (i is A ==> w < 0x8000)
            && (i matches InstructionV::C { dst, .. } && dst < 8 ==> w >= 0xE000),
{
    match i {
        InstructionV::A(IdentV::Addr(a)) => {
            assert((a & 0x7fffu16) < 0x8000u16) by (bit_vector);
        },
        InstructionV::A(IdentV::Name(n)) => {
            let x = st.symbols[n].number();
            assert((x & 0x7fffu16) < 0x8000u16) by (bit_vector);
            match next_free(st.values, st.next_ram) {
                Some(a) => {
                    assert((a & 0x7fffu16) < 0x8000u16) by (bit_vector);
                },
                None => {},
            }
        },
        InstructionV::C { expr, dst, jump } => {
            crate::assembler::convert::lemma_comp_code(expr);
            crate::assembler::convert::lemma_jump_code(jump);
        },
        InstructionV::Label(_) => {},
    }
}

/// The `.hack` text has one line per word: seventeen characters, the word's sixteen binary
/// digits and a newline.
pub proof fn lemma_text_lines(words: Seq<u16>)
    ensures
        hack_text(words).len() == 17 * words.len(),
        forall|k: int| 0 <= k < words.len() ==> #[trigger] hack_text(words).subrange(17 * k, 17 * k + 16) == bin16(words[k])
            && hack_text(words)[17 * k + 16] == '\n',
    decreases words.len(),
{
    if words.len() > 0 {
        let prev = words.drop_last();
        lemma_text_lines(prev);
        let t = hack_text(words);
        let tp = hack_text(prev);
        assert(t == tp + bin16(words.last()) + seq!['\n']);
        assert forall|k: int| 0 <= k < words.len() implies #[trigger] hack_text(words).subrange(17 * k, 17 * k + 16) == bin16(words[k])
            && hack_text(words)[17 * k + 16] == '\n' by {
            if k < prev.len() {
                assert(tp.subrange(17 * k, 17 * k + 16) == bin16(prev[k]));
                assert(t.subrange(17 * k, 17 * k + 16) =~= tp.subrange(17 * k, 17 * k + 16));
                assert(t[17 * k + 16] == tp[17 * k + 16]);
            } else {
                assert(t.subrange(17 * k, 17 * k + 16) =~= bin16(words.last()));
            }
        }
    }
}

/// How assembling a whole source text ends.
pub enum Assembled {
    /// The `.hack` text.
    Text(String),
    /// The source does not read as a program.
    Failed(AssemblyError),
    /// An address does not fit in 16 bits, or there are more than 65535 instructions.
    Overflow,
    /// A new variable found no free data address.
    OutOfMemory,
}

/// Assembles a source text: reads it (labels name the address of the next instruction),
/// then gives each instruction its word, variables getting free data addresses in order.
pub fn assemble_source(text: &str) -> (r: Assembled)
    ensures
        match parse_program(text@) {
            ProgramOutcome::Done(instrs, labels) => match words_of(
                TableV { symbols: symbols_with(labels), values: values_with(labels), next_ram: 0 },
                instrs,
            ) {
                Some((ws, _)) => r matches Assembled::Text(t) && t@ == hack_text(ws),
                None => r is OutOfMemory,
            },
            ProgramOutcome::Failed(e) => r matches Assembled::Failed(x) && x@ == e,
            ProgramOutcome::Overflow => r is Overflow,
        },
{
    match parse_checked(text) {
        ProgramParse::Done(program, mut table) => {
            proof {
                lemma_parsed_no_labels(lines_from(text@, 0), seq![], seq![]);
            }
            match try_to_vec(&mut table, &program) {
                Some(words) => Assembled::Text(words_to_text(&words)),
                None => Assembled::OutOfMemory,
            }
        },
        ProgramParse::Failed(e) => Assembled::Failed(e),
        ProgramParse::Overflow => Assembled::Overflow,
    }
}

} // verus!
