//! Reading assembly text: one item per line, labels collected into the symbol table.
use vstd::prelude::*;
use crate::assembler::cinstr::{CTriple, instr_of, triple_at};
use crate::assembler::err::{AssemblyError, AssemblyErrorV, ErrorKind, internal, symbol_error};
use crate::assembler::scan::{
    CharClass, dec_value, digits_value, is_digit, line_end, lemma_line_end_bounds, run_end,
    scan_run, skip_space, space_end, string_of, lemma_run_end_bounds, lemma_space_end_bounds,
};
use crate::assembler::structs::{Ident, IdentV, Instruction, InstructionV, Item, ItemV, Program};
use crate::assembler::symbol_table::{
    Address, SymbolTable, predefined_map, predefined_values,
};
use crate::text::{is_ws, is_whitespace};

verus! {

/// What reading one line gives: an item, an error, or an address too large for 16 bits
/// (which the assembler does not survive).
pub enum LineOutcome {
    Parsed(ItemV),
    Failed(AssemblyErrorV),
    Overflow,
}

/// What the symbol starting at `i` is: a number (with where its digits end), a name (with
/// where it ends), or missing.
pub enum SymbolScan {
    Number(int),
    Name(int),
    Missing,
}

/// The symbol starting at `i`.
pub open spec fn symbol_at(s: Seq<char>, i: int) -> SymbolScan {
    let d = run_end(s, i, CharClass::Digit);
    let n = run_end(s, i, CharClass::Symbol);
    if d > i {
        SymbolScan::Number(d)
    } else if n > i {
        SymbolScan::Name(n)
    } else {
        SymbolScan::Missing
    }
}

/// The addressing instruction whose operand starts at `i` (just past the `@`).
pub open spec fn a_instruction_at(s: Seq<char>, i: int) -> LineOutcome {
    match symbol_at(s, i) {
        SymbolScan::Number(d) => {
            let v = dec_value(s.subrange(i, d));
            if v > 0xffff {
                LineOutcome::Overflow
            } else {
                LineOutcome::Parsed(ItemV::Instruction(InstructionV::A(IdentV::Addr(v as u16))))
            }
        },
        SymbolScan::Name(n) => LineOutcome::Parsed(
            ItemV::Instruction(InstructionV::A(IdentV::Name(s.subrange(i, n)))),
        ),
        SymbolScan::Missing => LineOutcome::Failed(symbol_error(s.subrange(i, s.len() as int))),
    }
}

/// The label declaration whose name follows position `i` (just past the `(`).
pub open spec fn label_at(s: Seq<char>, i: int) -> LineOutcome {
    let u = space_end(s, i);
    match symbol_at(s, u) {
        SymbolScan::Number(d) => {
            if dec_value(s.subrange(u, d)) > 0xffff {
                LineOutcome::Overflow
            } else {
                LineOutcome::Failed(AssemblyErrorV::InvalidIdentifier)
            }
        },
        SymbolScan::Name(n) => {
            let w = space_end(s, n);
            if w < s.len() && s[w] == ')' {
                LineOutcome::Parsed(ItemV::Label(s.subrange(u, n)))
            } else {
                LineOutcome::Failed(internal(s.subrange(w, s.len() as int), ErrorKind::Char))
            }
        },
        SymbolScan::Missing => LineOutcome::Failed(symbol_error(s.subrange(u, s.len() as int))),
    }
}

/// The compute instruction starting at `i`.
pub open spec fn c_instruction_at(s: Seq<char>, i: int) -> LineOutcome {
    match triple_at(s, i) {
        Err(e) => LineOutcome::Failed(e),
        Ok((_, t)) => match instr_of(t) {
            Ok(ins) => LineOutcome::Parsed(ItemV::Instruction(ins)),
            Err(_) => LineOutcome::Failed(AssemblyErrorV::InvalidCExpr),
        },
    }
}

/// What reading one line gives. After the blanks, `@` starts an addressing instruction, `(`
/// a label declaration, anything else a compute instruction; what follows the item is ignored.
pub open spec fn line_outcome(s: Seq<char>) -> LineOutcome {
    let p = space_end(s, 0);
    if p >= s.len() {
        LineOutcome::Failed(AssemblyErrorV::Incomplete)
    } else if s[p] == '@' {
        a_instruction_at(s, p + 1)
    } else if s[p] == '(' {
        label_at(s, p + 1)
    } else {
        c_instruction_at(s, p)
    }
}

/// The end of the white space starting at `i`.
pub open spec fn ws_end(s: Seq<char>, i: int) -> int
    decreases s.len() - i,
{
    if 0 <= i < s.len() && is_ws(s[i]) {
        ws_end(s, i + 1)
    } else {
        i
    }
}

/// Whether a line holds an item: after its leading white space it is neither empty nor a
/// comment.
pub open spec fn line_kept(s: Seq<char>) -> bool {
    let t = ws_end(s, 0);
    t < s.len() && !(t + 1 < s.len() && s[t] == '/' && s[t + 1] == '/')
}

/// The lines of `s` from position `i` on, split at each newline.
pub open spec fn lines_from(s: Seq<char>, i: int) -> Seq<Seq<char>>
    decreases s.len() - i,
{
    if i < 0 || i > s.len() {
        seq![]
    } else {
        let e = line_end(s, i);
        proof {
            lemma_line_end_bounds(s, i);
        }
        if e >= s.len() {
            seq![s.subrange(i, s.len() as int)]
        } else {
            seq![s.subrange(i, e)] + lines_from(s, e + 1)
        }
    }
}

/// How reading a whole program ends.
pub enum ProgramOutcome {
    /// The instructions in order, and each label with the instruction address it names.
    Done(Seq<InstructionV>, Seq<(Seq<char>, u16)>),
    Failed(AssemblyErrorV),
    /// An address did not fit in 16 bits, or the program has more than 65535 instructions.
    Overflow,
}

/// Reads `lines` after having read the instructions `instrs` and labels `labels`.
pub open spec fn run_lines(
    lines: Seq<Seq<char>>,
    instrs: Seq<InstructionV>,
    labels: Seq<(Seq<char>, u16)>,
) -> ProgramOutcome
    decreases lines.len(),
{
    if lines.len() == 0 {
        ProgramOutcome::Done(instrs, labels)
    } else if !line_kept(lines[0]) {
        run_lines(lines.drop_first(), instrs, labels)
    } else {
        match line_outcome(lines[0]) {
            LineOutcome::Overflow => ProgramOutcome::Overflow,
            LineOutcome::Failed(e) => ProgramOutcome::Failed(e),
            LineOutcome::Parsed(ItemV::Label(n)) => run_lines(
                lines.drop_first(),
                instrs,
                labels.push((n, instrs.len() as u16)),
            ),
            LineOutcome::Parsed(ItemV::Instruction(i)) => if instrs.len() >= 0xffff {
                ProgramOutcome::Overflow
            } else {
                run_lines(lines.drop_first(), instrs.push(i), labels)
            },
        }
    }
}

/// How reading the program text `s` ends.
pub open spec fn parse_program(s: Seq<char>) -> ProgramOutcome {
    run_lines(lines_from(s, 0), seq![], seq![])
}

/// The symbols after declaring `labels` in order: each names the instruction address given.
pub open spec fn symbols_with(labels: Seq<(Seq<char>, u16)>) -> Map<Seq<char>, Address>
    decreases labels.len(),
{
    if labels.len() == 0 {
        predefined_map()
    } else {
        symbols_with(labels.drop_last()).insert(labels.last().0, Address::Rom(labels.last().1))
    }
}

/// The addresses in use after declaring `labels`.
pub open spec fn values_with(labels: Seq<(Seq<char>, u16)>) -> Set<Address> {
    predefined_values().union(
        Set::new(|a: Address| exists|i: int| 0 <= i < labels.len() && a == Address::Rom(#[trigger] labels[i].1)),
    )
}

/// One line read: an item, an error, or an overflow.
pub enum LineParse {
    Parsed(Item),
    Failed(AssemblyError),
    Overflow,
}

/// What the symbol starting at a position is.
enum SymbolFound {
    Number(Option<u16>),
    Name(String, usize),
    Missing,
}

/// The symbol of `s` starting at `i`.
fn scan_symbol(s: &[char], i: usize) -> (r: SymbolFound)
    requires
        i <= s@.len(),
    ensures
        match symbol_at(s@, i as int) {
            SymbolScan::Number(d) => r matches SymbolFound::Number(v) && (match v {
                Some(x) => x == dec_value(s@.subrange(i as int, d)),
                None => dec_value(s@.subrange(i as int, d)) > 0xffff,
            }),
            SymbolScan::Name(n) => r matches SymbolFound::Name(name, e) && name@ == s@.subrange(i as int, n) && e == n,
            SymbolScan::Missing => r is Missing,
        },
        r matches SymbolFound::Name(_, e) ==> e <= s@.len(),
{
    let d = scan_run(s, i, CharClass::Digit);
    if d > i {
        proof {
            lemma_run_end_bounds(s@, i as int, CharClass::Digit);
        }
        SymbolFound::Number(digits_value(s, i, d))
    } else {
        let n = scan_run(s, i, CharClass::Symbol);
        if n > i {
            SymbolFound::Name(string_of(s, i, n), n)
        } else {
            SymbolFound::Missing
        }
    }
}

/// The error of a missing symbol at `i`.
fn symbol_error_at(s: &[char], i: usize) -> (e: AssemblyError)
    requires
        i <= s@.len(),
    ensures
        e@ == symbol_error(s@.subrange(i as int, s@.len() as int)),
{
    let rest = string_of(s, i, s.len());
    let a = string_of(s, i, s.len());
    let b = string_of(s, i, s.len());
    let innermost = AssemblyError::Internal(b, ErrorKind::IsA, None);
    let ghost v1 = innermost@;
    assert(v1 == internal(s@.subrange(i as int, s@.len() as int), ErrorKind::IsA));
    let middle = AssemblyError::Internal(a, ErrorKind::Alt, Some(Box::new(innermost)));
    let ghost v2 = middle@;
    assert(v2 == AssemblyErrorV::Internal(s@.subrange(i as int, s@.len() as int), ErrorKind::Alt, Some(Box::new(v1))));
    let outer = AssemblyError::Internal(rest, ErrorKind::Many1, Some(Box::new(middle)));
    assert(outer@ == AssemblyErrorV::Internal(s@.subrange(i as int, s@.len() as int), ErrorKind::Many1, Some(Box::new(v2))));
    outer
}

/// Reads the symbol at the start of `text`: a number or a name; returns the input that follows.
pub fn identifier(text: &str) -> (r: Result<(String, Ident), AssemblyError>)
    requires
        !(symbol_at(text@, 0) matches SymbolScan::Number(d) && dec_value(text@.subrange(0, d)) > 0xffff),
    ensures
        match symbol_at(text@, 0) {
            SymbolScan::Number(d) => r matches Ok((rest, Ident::Addr(v))) && v == dec_value(text@.subrange(0, d))
                && rest@ == text@.subrange(d, text@.len() as int),
            SymbolScan::Name(n) => r matches Ok((rest, Ident::Name(x))) && x@ == text@.subrange(0, n)
                && rest@ == text@.subrange(n, text@.len() as int),
            SymbolScan::Missing => r matches Err(e) && e@ == symbol_error(text@),
        },
{
    let chars = crate::text::str_to_chars(text);
    let s = chars.as_slice();
    proof {
        lemma_run_end_bounds(s@, 0, CharClass::Digit);
    }
    match scan_symbol(s, 0) {
        SymbolFound::Number(Some(v)) => {
            let d = scan_run(s, 0, CharClass::Digit);
            Ok((string_of(s, d, s.len()), Ident::Addr(v)))
        },
        SymbolFound::Number(None) => {
            assert(false);
            Err(AssemblyError::Incomplete)
        },
        SymbolFound::Name(name, n) => Ok((string_of(s, n, s.len()), Ident::Name(name))),
        SymbolFound::Missing => {
            let e = symbol_error_at(s, 0);
            assert(s@.subrange(0, s@.len() as int) == text@);
            Err(e)
        },
    }
}

/// Reads a label declaration `(NAME)` at the start of `text` (blanks allowed around the
/// parentheses); returns the input that follows.
pub fn label(text: &str) -> (r: Result<(String, Item), AssemblyError>)
    requires
        !(label_at(text@, space_end(text@, 0) + 1) is Overflow),
    ensures
        ({
            let p = space_end(text@, 0);
            if p < text@.len() && text@[p] == '(' {
                match label_at(text@, p + 1) {
                    LineOutcome::Parsed(ItemV::Label(n)) => r matches Ok((rest, Item::Label(x))) && x@ == n
                        && rest@ == text@.subrange(space_end(text@, space_end(text@, run_end(text@, space_end(text@, p + 1), CharClass::Symbol)) + 1), text@.len() as int),
                    LineOutcome::Failed(e) => r matches Err(x) && x@ == e,
                    _ => false,
                }
            } else {
                r matches Err(x) && x@ == internal(text@.subrange(p, text@.len() as int), ErrorKind::Char)
            }
        }),
{
    let chars = crate::text::str_to_chars(text);
    let s = chars.as_slice();
    let p = skip_space(s, 0);
    if !(p < s.len() && s[p] == '(') {
        return Err(AssemblyError::Internal(string_of(s, p, s.len()), ErrorKind::Char, None));
    }
    let u = skip_space(s, p + 1);
    match scan_symbol(s, u) {
        SymbolFound::Number(Some(_)) => Err(AssemblyError::InvalidIdentifier),
        SymbolFound::Number(None) => {
            assert(false);
            Err(AssemblyError::Incomplete)
        },
        SymbolFound::Name(name, n) => {
            let w = skip_space(s, n);
            if w < s.len() && s[w] == ')' {
                let end = skip_space(s, w + 1);
                Ok((string_of(s, end, s.len()), Item::Label(name)))
            } else {
                Err(AssemblyError::Internal(string_of(s, w, s.len()), ErrorKind::Char, None))
            }
        },
        SymbolFound::Missing => Err(symbol_error_at(s, u)),
    }
}

/// Reads one line.
pub fn parse_line(s: &[char]) -> (r: LineParse)
    ensures
        match line_outcome(s@) {
            LineOutcome::Parsed(i) => r matches LineParse::Parsed(x) && x@ == i,
            LineOutcome::Failed(e) => r matches LineParse::Failed(x) && x@ == e,
            LineOutcome::Overflow => r is Overflow,
        },
{
    let p = skip_space(s, 0);
    if p >= s.len() {
        return LineParse::Failed(AssemblyError::Incomplete);
    }
    if s[p] == '@' {
        match scan_symbol(s, p + 1) {
            SymbolFound::Number(Some(v)) => LineParse::Parsed(Item::Instruction(Instruction::A(Ident::Addr(v)))),
            SymbolFound::Number(None) => LineParse::Overflow,
            SymbolFound::Name(name, _) => LineParse::Parsed(Item::Instruction(Instruction::A(Ident::Name(name)))),
            SymbolFound::Missing => LineParse::Failed(symbol_error_at(s, p + 1)),
        }
    } else if s[p] == '(' {
        let u = skip_space(s, p + 1);
        match scan_symbol(s, u) {
            SymbolFound::Number(Some(_)) => LineParse::Failed(AssemblyError::InvalidIdentifier),
            SymbolFound::Number(None) => LineParse::Overflow,
            SymbolFound::Name(name, n) => {
                let w = skip_space(s, n);
                if w < s.len() && s[w] == ')' {
                    LineParse::Parsed(Item::Label(name))
                } else {
                    LineParse::Failed(AssemblyError::Internal(string_of(s, w, s.len()), ErrorKind::Char, None))
                }
            },
            SymbolFound::Missing => LineParse::Failed(symbol_error_at(s, u)),
        }
    } else {
        match CTriple::from_chars(s, p) {
            Err(e) => LineParse::Failed(e),
            Ok((_, t)) => match t.to_cinstr() {
                Ok(ins) => LineParse::Parsed(Item::Instruction(ins)),
                Err(_) => LineParse::Failed(AssemblyError::InvalidCExpr),
            },
        }
    }
}

/// Whether a line holds an item (it is neither blank nor a comment).
pub fn keep_line(s: &[char]) -> (b: bool)
    ensures
        b == line_kept(s@),
{
    let mut t: usize = 0;
    while t < s.len() && is_whitespace(s[t])
        invariant
            t <= s@.len(),
            ws_end(s@, 0) == ws_end(s@, t as int),
        decreases s@.len() - t,
    {
        t += 1;
    }
    t < s.len() && !(t + 1 < s.len() && s[t] == '/' && s[t + 1] == '/')
}

/// How reading a program ended: the program and its symbol table, an error, or an overflow
/// (an address beyond 16 bits, or more than 65535 instructions).
pub enum ProgramParse {
    Done(Program, SymbolTable),
    Failed(AssemblyError),
    Overflow,
}

/// The end of the line of `s` starting at `i`: the next newline, or the end.
pub(crate) fn find_line_end(s: &[char], i: usize) -> (e: usize)
    requires
        i <= s@.len(),
    ensures
        e == line_end(s@, i as int),
        i <= e <= s@.len(),
{
    proof {
        lemma_line_end_bounds(s@, i as int);
    }
    let mut e = i;
    while e < s.len() && s[e] != '\n'
        invariant
            i <= e <= s@.len(),
            line_end(s@, i as int) == line_end(s@, e as int),
        decreases s@.len() - e,
    {
        e += 1;
    }
    e
}

proof fn lemma_values_with_push(labels: Seq<(Seq<char>, u16)>, x: (Seq<char>, u16))
    ensures
        values_with(labels.push(x)) == values_with(labels).insert(Address::Rom(x.1)),
{
    let l2 = labels.push(x);
    assert forall|a: Address| #[trigger] values_with(l2).contains(a) <==> values_with(labels).insert(Address::Rom(x.1)).contains(a) by {
        if exists|i: int| 0 <= i < l2.len() && a == Address::Rom(#[trigger] l2[i].1) {
            let i = choose|i: int| 0 <= i < l2.len() && a == Address::Rom(#[trigger] l2[i].1);
            if i < labels.len() {
                assert(labels[i] == l2[i]);
            }
        }
        if exists|i: int| 0 <= i < labels.len() && a == Address::Rom(#[trigger] labels[i].1) {
            let i = choose|i: int| 0 <= i < labels.len() && a == Address::Rom(#[trigger] labels[i].1);
            assert(l2[i] == labels[i]);
        }
        if a == Address::Rom(x.1) {
            assert(l2[labels.len() as int] == x);
        }
    }
    assert(values_with(l2) =~= values_with(labels).insert(Address::Rom(x.1)));
}

/// Reads a program: each line that is not blank or a comment holds an instruction or a label
/// declaration; a label names the address of the next instruction. Stops at the first line
/// in error.
pub fn parse_checked(text: &str) -> (r: ProgramParse)
    ensures
        match parse_program(text@) {
            ProgramOutcome::Done(instrs, labels) => r matches ProgramParse::Done(p, t) && p@ == instrs
                && t.symbols() == symbols_with(labels) && t.values() == values_with(labels)
                && t.next_ram() == 0,
            ProgramOutcome::Failed(e) => r matches ProgramParse::Failed(x) && x@ == e,
            ProgramOutcome::Overflow => r is Overflow,
        },
{
    let chars = crate::text::str_to_chars(text);
    let s = chars.as_slice();
    let mut sym_table = SymbolTable::new();
    let mut instrs: Vec<Instruction> = Vec::new();
    let ghost mut labels: Seq<(Seq<char>, u16)> = seq![];
    let mut i: usize = 0;
    proof {
        assert(predefined_values().union(Set::new(|a: Address| exists|i: int| 0 <= i < labels.len() && a == Address::Rom(#[trigger] labels[i].1))) =~= predefined_values());
        assert(instrs@.map_values(|x: Instruction| x@) =~= Seq::<InstructionV>::empty());
    }
    loop
        invariant
            i <= s@.len(),
            s@ == text@,
            instrs@.len() <= 0xffff,
            parse_program(text@) == run_lines(lines_from(s@, i as int), instrs@.map_values(|x: Instruction| x@), labels),
            sym_table.symbols() == symbols_with(labels),
            sym_table.values() == values_with(labels),
            sym_table.next_ram() == 0,
        decreases s@.len() - i,
    {
        let e = find_line_end(s, i);
        let line = &s[i..e];
        let ghost view_before = instrs@.map_values(|x: Instruction| x@);
        let ghost rest = if e >= s@.len() { Seq::<Seq<char>>::empty() } else { lines_from(s@, e + 1) };
        assert(lines_from(s@, i as int) == seq![line@] + rest);
        assert((seq![line@] + rest).drop_first() == rest);
        assert((seq![line@] + rest)[0] == line@);
        if keep_line(line) {
            match parse_line(line) {
                LineParse::Overflow => return ProgramParse::Overflow,
                LineParse::Failed(err) => return ProgramParse::Failed(err),
                LineParse::Parsed(Item::Label(name)) => {
                    let count = instrs.len() as u16;
                    proof {
                        lemma_values_with_push(labels, (name@, count));
                        assert(labels.push((name@, count)).drop_last() == labels);
                        labels = labels.push((name@, count));
                    }
                    sym_table.insert(name, Address::Rom(count));
                },
                LineParse::Parsed(Item::Instruction(ins)) => {
                    if instrs.len() >= 0xffff {
                        return ProgramParse::Overflow;
                    }
                    instrs.push(ins);
                    assert(instrs@.map_values(|x: Instruction| x@) == view_before.push(ins@));
                },
            }
        }
        if e >= s.len() {
            assert(rest.len() == 0);
            return ProgramParse::Done(Program(instrs), sym_table);
        }
        i = e + 1;
    }
}

/// Reads a program (see [`parse_checked`]); for a program without an address beyond 16 bits
/// and with at most 65535 instructions.
pub fn program(text: &str) -> (r: Result<(Program, SymbolTable), AssemblyError>)
    requires
        !(parse_program(text@) is Overflow),
    ensures
        match parse_program(text@) {
            ProgramOutcome::Done(instrs, labels) => r matches Ok((p, t)) && p@ == instrs
                && t.symbols() == symbols_with(labels) && t.values() == values_with(labels)
                && t.next_ram() == 0,
            ProgramOutcome::Failed(e) => r matches Err(x) && x@ == e,
            ProgramOutcome::Overflow => false,
        },
{
    match parse_checked(text) {
        ProgramParse::Done(p, t) => Ok((p, t)),
        ProgramParse::Failed(e) => Err(e),
        ProgramParse::Overflow => {
            assert(false);
            Err(AssemblyError::Incomplete)
        },
    }
}

/// Reading a program gives no label declaration among its instructions: labels are kept
/// apart.
pub proof fn lemma_parsed_no_labels(lines: Seq<Seq<char>>, instrs: Seq<InstructionV>, labels: Seq<(Seq<char>, u16)>)
    requires
        forall|k: int| 0 <= k < instrs.len() ==> !(#[trigger] instrs[k] is Label),
    ensures
        run_lines(lines, instrs, labels) matches ProgramOutcome::Done(out, _) ==> forall|k: int| 0 <= k < out.len() ==> !(#[trigger] out[k] is Label),
    decreases lines.len(),
{
    if lines.len() > 0 {
        if !line_kept(lines[0]) {
            lemma_parsed_no_labels(lines.drop_first(), instrs, labels);
        } else {
            match line_outcome(lines[0]) {
                LineOutcome::Parsed(ItemV::Label(n)) => {
                    lemma_parsed_no_labels(lines.drop_first(), instrs, labels.push((n, instrs.len() as u16)));
                },
                LineOutcome::Parsed(ItemV::Instruction(i)) => {
                    assert(!(i is Label));
                    if instrs.len() < 0xffff {
                        assert forall|k: int| 0 <= k < instrs.push(i).len() implies !(#[trigger] instrs.push(i)[k] is Label) by {
                            if k < instrs.len() {
                                assert(instrs.push(i)[k] == instrs[k]);
                            }
                        }
                        lemma_parsed_no_labels(lines.drop_first(), instrs.push(i), labels);
                    }
                },
                _ => {},
            }
        }
    }
}

} // verus!
