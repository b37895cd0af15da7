//! Compute instructions: splitting `dst=expr;jmp` and decoding its parts.
use vstd::prelude::*;
use crate::assembler::err::{AssemblyError, AssemblyErrorV, ErrorKind, internal};
use crate::assembler::scan::{CharClass, run_end, scan_run, skip_space, space_end, string_of};
use crate::assembler::structs::{CExpr, Dst, Instruction, InstructionV, JumpCondition, Source};
use crate::text::{is_ws, is_whitespace, str_eq, string_push};
use crate::assembler::convert::jump_code;
use crate::assembler::machine::{compute, jumps_on, signed_word, wrap};

verus! {

/// `s` without its white space.
pub open spec fn strip_ws(s: Seq<char>) -> Seq<char>
    decreases s.len(),
{
    if s.len() == 0 {
        seq![]
    } else if is_ws(s.last()) {
        strip_ws(s.drop_last())
    } else {
        strip_ws(s.drop_last()).push(s.last())
    }
}

/// `s` without its white space.
pub fn remove_whitespace(s: &[char]) -> (r: String)
    ensures
        r@ == strip_ws(s@),
{
    let mut r = String::new();
    let mut i: usize = 0;
    while i < s.len()
        invariant
            i <= s@.len(),
            r@ == strip_ws(s@.take(i as int)),
        decreases s@.len() - i,
    {
        assert(s@.take(i + 1).drop_last() == s@.take(i as int));
        if !is_whitespace(s[i]) {
            string_push(&mut r, s[i]);
        }
        i += 1;
    }
    assert(s@.take(s@.len() as int) == s@);
    r
}

/// A representation of a compute instruction triple in string form
#[derive(PartialEq, Debug)]
pub struct CTriple {
    pub dst: Option<String>,
    pub expr: String,
    pub jmp: Option<String>,
}

/// Abstract form of a [`CTriple`].
pub struct CTripleV {
    pub dst: Option<Seq<char>>,
    pub expr: Seq<char>,
    pub jmp: Option<Seq<char>>,
}

impl View for CTriple {
    type V = CTripleV;

    open spec fn view(&self) -> CTripleV {
        CTripleV {
            dst: match self.dst {
                Some(d) => Some(d@),
                None => None,
            },
            expr: self.expr@,
            jmp: match self.jmp {
                Some(j) => Some(j@),
                None => None,
            },
        }
    }
}

/// Where the destination part of a compute instruction starting at `i` ends (just past the
/// `=`), if it has one.
pub open spec fn dst_end(s: Seq<char>, i: int) -> Option<int> {
    let p1 = space_end(s, i);
    let a = run_end(s, p1, CharClass::Destination);
    let p2 = space_end(s, a);
    if a > p1 && p2 < s.len() && s[p2] == '=' {
        Some(p2 + 1)
    } else {
        None
    }
}

/// Splits the compute instruction starting at `i` into its destination, computation (of
/// class-`ek` characters) and jump (of class-`jk` characters), white space removed, with the
/// position where it ends.
pub open spec fn triple_with(s: Seq<char>, i: int, ek: CharClass, jk: CharClass) -> Result<(int, CTripleV), AssemblyErrorV> {
    let p1 = space_end(s, i);
    let a = run_end(s, p1, CharClass::Destination);
    let dst = match dst_end(s, i) {
        Some(_) => Some(strip_ws(s.subrange(p1, a))),
        None => None,
    };
    let q = match dst_end(s, i) {
        Some(e) => e,
        None => i,
    };
    let q1 = space_end(s, q);
    let e = run_end(s, q1, ek);
    let r = space_end(s, e);
    let r1 = space_end(s, r + 1);
    let j = run_end(s, r1, jk);
    if e == q1 {
        Err(internal(s.subrange(q1, s.len() as int), ErrorKind::TakeWhile1))
    } else if r < s.len() && s[r] == ';' && j > r1 {
        Ok(
            (
                space_end(s, j),
                CTripleV {
                    dst,
                    expr: strip_ws(s.subrange(q1, e)),
                    jmp: Some(s.subrange(r1, j)),
                },
            ),
        )
    } else {
        Ok((r, CTripleV { dst, expr: strip_ws(s.subrange(q1, e)), jmp: None }))
    }
}

/// Splits the compute instruction starting at `i` into its destination, computation and jump
/// (white space removed), with the position where it ends.
pub open spec fn triple_at(s: Seq<char>, i: int) -> Result<(int, CTripleV), AssemblyErrorV> {
    triple_with(s, i, CharClass::Computation, CharClass::Upper)
}

/// The computation a compute expression names.
pub open spec fn comp_of(e: Seq<char>) -> Option<CExpr> {
    if e == "0"@ { Some(CExpr::Zero) }
    else if e == "1"@ { Some(CExpr::One) }
    else if e == "-1"@ { Some(CExpr::NegOne) }
    else if e == "D"@ { Some(CExpr::D) }
    else if e == "A"@ { Some(CExpr::X(Source::Register)) }
    else if e == "M"@ { Some(CExpr::X(Source::Memory)) }
    else if e == "!D"@ { Some(CExpr::NotD) }
    else if e == "!A"@ { Some(CExpr::NotX(Source::Register)) }
    else if e == "!M"@ { Some(CExpr::NotX(Source::Memory)) }
    else if e == "-D"@ { Some(CExpr::NegD) }
    else if e == "-A"@ { Some(CExpr::NegX(Source::Register)) }
    else if e == "-M"@ { Some(CExpr::NegX(Source::Memory)) }
    else if e == "D+1"@ { Some(CExpr::DPlusOne) }
    else if e == "A+1"@ { Some(CExpr::XPlusOne(Source::Register)) }
    else if e == "M+1"@ { Some(CExpr::XPlusOne(Source::Memory)) }
    else if e == "D-1"@ { Some(CExpr::DMinusOne) }
    else if e == "A-1"@ { Some(CExpr::XMinusOne(Source::Register)) }
    else if e == "M-1"@ { Some(CExpr::XMinusOne(Source::Memory)) }
    else if e == "D+A"@ || e == "A+D"@ { Some(CExpr::DPlusX(Source::Register)) }
    else if e == "D+M"@ || e == "M+D"@ { Some(CExpr::DPlusX(Source::Memory)) }
    else if e == "D-A"@ { Some(CExpr::DMinusX(Source::Register)) }
    else if e == "D-M"@ { Some(CExpr::DMinusX(Source::Memory)) }
    else if e == "A-D"@ { Some(CExpr::XMinusD(Source::Register)) }
    else if e == "M-D"@ { Some(CExpr::XMinusD(Source::Memory)) }
    else if e == "D&A"@ || e == "A&D"@ { Some(CExpr::DAndX(Source::Register)) }
    else if e == "D&M"@ || e == "M&D"@ { Some(CExpr::DAndX(Source::Memory)) }
    else if e == "D|A"@ || e == "A|D"@ { Some(CExpr::DOrX(Source::Register)) }
    else if e == "D|M"@ || e == "M|D"@ { Some(CExpr::DOrX(Source::Memory)) }
    else { None }
}

/// The jump condition a jump mnemonic names.
pub open spec fn jump_of(j: Seq<char>) -> Option<JumpCondition> {
    if j == "JMP"@ { Some(JumpCondition::Always) }
    else if j == "JGT"@ { Some(JumpCondition::GreaterThan) }
    else if j == "JLT"@ { Some(JumpCondition::LessThan) }
    else if j == "JGE"@ { Some(JumpCondition::GreaterEqual) }
    else if j == "JLE"@ { Some(JumpCondition::LessEqual) }
    else if j == "JEQ"@ { Some(JumpCondition::Equal) }
    else if j == "JNE"@ { Some(JumpCondition::NEqual) }
    else { None }
}

/// The destination bits a destination string names: A = 4, D = 2, M = 1 for each letter it
/// contains.
pub open spec fn dst_bits_of(d: Option<Seq<char>>) -> u8 {
    match d {
        None => 0,
        Some(s) => ((if s.contains('A') { 4u8 } else { 0u8 }) + (if s.contains('M') { 1u8 } else { 0u8 }) + (if s.contains('D') { 2u8 } else { 0u8 })) as u8,
    }
}

/// The compute instruction a triple describes, or why it does not describe one.
pub open spec fn instr_of(t: CTripleV) -> Result<InstructionV, Seq<char>> {
    match comp_of(t.expr) {
        None => Err("Malformed Compute expression"@),
        Some(expr) => match t.jmp {
            None => Ok(InstructionV::C { expr, dst: dst_bits_of(t.dst), jump: JumpCondition::Never }),
            Some(j) => match jump_of(j) {
                Some(jump) => Ok(InstructionV::C { expr, dst: dst_bits_of(t.dst), jump }),
                None => Err("Malformed jump expression"@),
            },
        },
    }
}

/// Whether `s` contains `c`.
fn string_contains(s: &String, c: char) -> (b: bool)
    ensures
        b == s@.contains(c),
{
    let v = crate::text::str_to_chars(s.as_str());
    let mut i: usize = 0;
    while i < v.len()
        invariant
            i <= v@.len(),
            v@ == s@,
            forall|j: int| 0 <= j < i ==> v@[j] != c,
        decreases v@.len() - i,
    {
        if v[i] == c {
            return true;
        }
        i += 1;
    }
    false
}

impl CTriple {
    /// Splits the compute instruction at the start of `s`, returning the input that follows it.
    pub fn from_string(s: &str) -> (r: Result<(String, CTriple), AssemblyError>)
        ensures
            match triple_at(s@, 0) {
                Ok((end, t)) => r matches Ok((rest, c)) && rest@ == s@.subrange(end, s@.len() as int) && c@ == t,
                Err(e) => r matches Err(x) && x@ == e,
            },
    {
        let chars = crate::text::str_to_chars(s);
        match Self::from_chars(chars.as_slice(), 0) {
            Ok((end, t)) => Ok((string_of(chars.as_slice(), end, chars.len()), t)),
            Err(e) => Err(e),
        }
    }

    /// Splits the compute instruction of `s` starting at `i`, returning where it ends.
    pub fn from_chars(s: &[char], i: usize) -> (r: Result<(usize, CTriple), AssemblyError>)
        requires
            i <= s@.len(),
        ensures
            match triple_at(s@, i as int) {
                Ok((end, t)) => r matches Ok((e, c)) && e == end && c@ == t && e <= s@.len(),
                Err(e) => r matches Err(x) && x@ == e,
            },
    {
        Self::from_chars_with(s, i, CharClass::Computation, CharClass::Upper)
    }

    /// Splits the compute instruction of `s` starting at `i`, with the given classes of
    /// computation and jump characters.
    pub fn from_chars_with(s: &[char], i: usize, ek: CharClass, jk: CharClass) -> (r: Result<(usize, CTriple), AssemblyError>)
        requires
            i <= s@.len(),
        ensures
            match triple_with(s@, i as int, ek, jk) {
                Ok((end, t)) => r matches Ok((e, c)) && e == end && c@ == t && e <= s@.len(),
                Err(e) => r matches Err(x) && x@ == e,
            },
    {
        let p1 = skip_space(s, i);
        let a = scan_run(s, p1, CharClass::Destination);
        let p2 = skip_space(s, a);
        let (dst, q) = if a > p1 && p2 < s.len() && s[p2] == '=' {
            (Some(remove_whitespace(&s[p1..a])), p2 + 1)
        } else {
            (None, i)
        };
        let q1 = skip_space(s, q);
        let e = scan_run(s, q1, ek);
        if e == q1 {
            return Err(AssemblyError::Internal(string_of(s, q1, s.len()), ErrorKind::TakeWhile1, None));
        }
        let expr = remove_whitespace(&s[q1..e]);
        let r = skip_space(s, e);
        if r < s.len() && s[r] == ';' {
            let r1 = skip_space(s, r + 1);
            let j = scan_run(s, r1, jk);
            if j > r1 {
                let end = skip_space(s, j);
                return Ok((end, CTriple { dst, expr, jmp: Some(string_of(s, r1, j)) }));
            }
        }
        Ok((r, CTriple { dst, expr, jmp: None }))
    }

    /// The compute instruction this triple describes.
    pub fn to_cinstr(&self) -> (r: Result<Instruction, String>)
        ensures
            match instr_of(self@) {
                Ok(i) => r matches Ok(x) && x@ == i,
                Err(m) => r matches Err(x) && x@ == m,
            },
    {
        // convert destination
        let mut bits: u8 = 0;
        match &self.dst {
            Some(d) => {
                if string_contains(d, 'A') {
                    bits = bits + 4;
                }
                if string_contains(d, 'M') {
                    bits = bits + 1;
                }
                if string_contains(d, 'D') {
                    bits = bits + 2;
                }
            },
            None => {},
        }
        assert(bits < 8 ==> bits & 7 == bits) by (bit_vector);
        let dst = Dst::from_bits_truncate(bits);
        let expr = match Self::comp(self.expr.as_str()) {
            Some(e) => e,
            None => return Err(String::from_str("Malformed Compute expression")),
        };
        let jump = match &self.jmp {
            None => JumpCondition::Never,
            Some(j) => match Self::jump(j.as_str()) {
                Some(c) => c,
                None => return Err(String::from_str("Malformed jump expression")),
            },
        };
        Ok(Instruction::C { expr, dst, jump })
    }

    /// The computation a compute expression names.
    fn comp(e: &str) -> (r: Option<CExpr>)
        ensures
            r == comp_of(e@),
    {
        if str_eq(e, "0") { Some(CExpr::Zero) }
        else if str_eq(e, "1") { Some(CExpr::One) }
        else if str_eq(e, "-1") { Some(CExpr::NegOne) }
        else if str_eq(e, "D") { Some(CExpr::D) }
        else if str_eq(e, "A") { Some(CExpr::X(Source::Register)) }
        else if str_eq(e, "M") { Some(CExpr::X(Source::Memory)) }
        else if str_eq(e, "!D") { Some(CExpr::NotD) }
        else if str_eq(e, "!A") { Some(CExpr::NotX(Source::Register)) }
        else if str_eq(e, "!M") { Some(CExpr::NotX(Source::Memory)) }
        else if str_eq(e, "-D") { Some(CExpr::NegD) }
        else if str_eq(e, "-A") { Some(CExpr::NegX(Source::Register)) }
        else if str_eq(e, "-M") { Some(CExpr::NegX(Source::Memory)) }
        else if str_eq(e, "D+1") { Some(CExpr::DPlusOne) }
        else if str_eq(e, "A+1") { Some(CExpr::XPlusOne(Source::Register)) }
        else if str_eq(e, "M+1") { Some(CExpr::XPlusOne(Source::Memory)) }
        else if str_eq(e, "D-1") { Some(CExpr::DMinusOne) }
        else if str_eq(e, "A-1") { Some(CExpr::XMinusOne(Source::Register)) }
        else if str_eq(e, "M-1") { Some(CExpr::XMinusOne(Source::Memory)) }
        else if str_eq(e, "D+A") || str_eq(e, "A+D") { Some(CExpr::DPlusX(Source::Register)) }
        else if str_eq(e, "D+M") || str_eq(e, "M+D") { Some(CExpr::DPlusX(Source::Memory)) }
        else if str_eq(e, "D-A") { Some(CExpr::DMinusX(Source::Register)) }
        else if str_eq(e, "D-M") { Some(CExpr::DMinusX(Source::Memory)) }
        else if str_eq(e, "A-D") { Some(CExpr::XMinusD(Source::Register)) }
        else if str_eq(e, "M-D") { Some(CExpr::XMinusD(Source::Memory)) }
        else if str_eq(e, "D&A") || str_eq(e, "A&D") { Some(CExpr::DAndX(Source::Register)) }
        else if str_eq(e, "D&M") || str_eq(e, "M&D") { Some(CExpr::DAndX(Source::Memory)) }
        else if str_eq(e, "D|A") || str_eq(e, "A|D") { Some(CExpr::DOrX(Source::Register)) }
        else if str_eq(e, "D|M") || str_eq(e, "M|D") { Some(CExpr::DOrX(Source::Memory)) }
        else { None }
    }

    /// The jump condition a jump mnemonic names.
    fn jump(j: &str) -> (r: Option<JumpCondition>)
        ensures
            r == jump_of(j@),
    {
        if str_eq(j, "JMP") { Some(JumpCondition::Always) }
        else if str_eq(j, "JGT") { Some(JumpCondition::GreaterThan) }
        else if str_eq(j, "JLT") { Some(JumpCondition::LessThan) }
        else if str_eq(j, "JGE") { Some(JumpCondition::GreaterEqual) }
        else if str_eq(j, "JLE") { Some(JumpCondition::LessEqual) }
        else if str_eq(j, "JEQ") { Some(JumpCondition::Equal) }
        else if str_eq(j, "JNE") { Some(JumpCondition::NEqual) }
        else { None }
    }
}

/// What the letters after `J` of a jump mnemonic say of a value `v`: `GT` greater than zero,
/// `EQ` equal to zero, `GE` at least zero, `LT` less than zero, `NE` not zero, `LE` at most
/// zero, `MP` always.
pub open spec fn mnemonic_holds(m: Seq<char>, v: int) -> bool {
    if m.len() != 3 || m[0] != 'J' {
        false
    } else {
        let (x, y) = (m[1], m[2]);
        if x == 'G' && y == 'T' { v > 0 }
        else if x == 'E' && y == 'Q' { v == 0 }
        else if x == 'G' && y == 'E' { v >= 0 }
        else if x == 'L' && y == 'T' { v < 0 }
        else if x == 'N' && y == 'E' { v != 0 }
        else if x == 'L' && y == 'E' { v <= 0 }
        else if x == 'M' && y == 'P' { true }
        else { false }
    }
}

/// Every jump mnemonic becomes jump bits on which the Hack computer jumps exactly when the
/// mnemonic's comparison of the computed value with zero holds.
pub proof fn lemma_jump_mnemonics(m: Seq<char>, v: u16)
    ensures
        jump_of(m) matches Some(j) ==> (jumps_on(jump_code(j), v) <==> mnemonic_holds(m, signed_word(v))),
{
    reveal_strlit("JMP");
    reveal_strlit("JGT");
    reveal_strlit("JLT");
    reveal_strlit("JGE");
    reveal_strlit("JLE");
    reveal_strlit("JEQ");
    reveal_strlit("JNE");
}

/// The value of a one-character operand: the registers `A` and `D`, the memory word `M`, or
/// the constants `0` and `1`.
pub open spec fn operand_value(c: char, a: u16, d: u16, m: u16) -> Option<int> {
    if c == 'A' { Some(a as int) }
    else if c == 'D' { Some(d as int) }
    else if c == 'M' { Some(m as int) }
    else if c == '0' { Some(0) }
    else if c == '1' { Some(1) }
    else { None }
}

/// The value the text of a computation denotes, read by its symbols: an operand; `-` or `!`
/// before an operand (negation modulo 2^16, complement); or two operands joined by `+`, `-`
/// (modulo 2^16), `&` or `|` (bitwise).
pub open spec fn text_value(e: Seq<char>, a: u16, d: u16, m: u16) -> Option<u16> {
    if e.len() == 1 {
        match operand_value(e[0], a, d, m) {
            Some(x) => Some(x as u16),
            None => None,
        }
    } else if e.len() == 2 {
        match operand_value(e[1], a, d, m) {
            Some(x) => if e[0] == '-' { Some(wrap(-x)) } else if e[0] == '!' { Some(!(x as u16)) } else { None },
            None => None,
        }
    } else if e.len() == 3 {
        match (operand_value(e[0], a, d, m), operand_value(e[2], a, d, m)) {
            (Some(x), Some(y)) => if e[1] == '+' { Some(wrap(x + y)) }
                else if e[1] == '-' { Some(wrap(x - y)) }
                else if e[1] == '&' { Some((x as u16) & (y as u16)) }
                else if e[1] == '|' { Some((x as u16) | (y as u16)) }
                else { None },
            _ => None,
        }
    } else {
        None
    }
}

/// Every computation mnemonic names the computation its symbols say: for any registers and
/// memory word, the computation it becomes gives the value its text denotes (so `M|D` is `D`
/// or `M`, the same as `D|M`).
pub proof fn lemma_comp_mnemonics(e: Seq<char>, a: u16, d: u16, m: u16)
    ensures
        comp_of(e) matches Some(c) ==> text_value(e, a, d, m) == Some(compute(c, a, d, m)),
{
    assert(m | d == d | m && a | d == d | a && m & d == d & m && a & d == d & a) by (bit_vector);
    if e == "0"@ {
        reveal_strlit("0");
    } else if e == "1"@ {
        reveal_strlit("1");
    } else if e == "-1"@ {
        reveal_strlit("-1");
    } else if e == "D"@ {
        reveal_strlit("D");
    } else if e == "A"@ {
        reveal_strlit("A");
    } else if e == "M"@ {
        reveal_strlit("M");
    } else if e == "!D"@ {
        reveal_strlit("!D");
    } else if e == "!A"@ {
        reveal_strlit("!A");
    } else if e == "!M"@ {
        reveal_strlit("!M");
    } else if e == "-D"@ {
        reveal_strlit("-D");
    } else if e == "-A"@ {
        reveal_strlit("-A");
    } else if e == "-M"@ {
        reveal_strlit("-M");
    } else if e == "D+1"@ {
        reveal_strlit("D+1");
    } else if e == "A+1"@ {
        reveal_strlit("A+1");
    } else if e == "M+1"@ {
        reveal_strlit("M+1");
    } else if e == "D-1"@ {
        reveal_strlit("D-1");
    } else if e == "A-1"@ {
        reveal_strlit("A-1");
    } else if e == "M-1"@ {
        reveal_strlit("M-1");
    } else if e == "D+A"@ || e == "A+D"@ {
        if e == "D+A"@ {
            reveal_strlit("D+A");
        } else {
            reveal_strlit("A+D");
        }
    } else if e == "D+M"@ || e == "M+D"@ {
        if e == "D+M"@ {
            reveal_strlit("D+M");
        } else {
            reveal_strlit("M+D");
        }
    } else if e == "D-A"@ {
        reveal_strlit("D-A");
    } else if e == "D-M"@ {
        reveal_strlit("D-M");
    } else if e == "A-D"@ {
        reveal_strlit("A-D");
    } else if e == "M-D"@ {
        reveal_strlit("M-D");
    } else if e == "D&A"@ || e == "A&D"@ {
        if e == "D&A"@ {
            reveal_strlit("D&A");
        } else {
            reveal_strlit("A&D");
        }
    } else if e == "D&M"@ || e == "M&D"@ {
        if e == "D&M"@ {
            reveal_strlit("D&M");
        } else {
            reveal_strlit("M&D");
        }
    } else if e == "D|A"@ || e == "A|D"@ {
        if e == "D|A"@ {
            reveal_strlit("D|A");
        } else {
            reveal_strlit("A|D");
        }
    } else if e == "D|M"@ || e == "M|D"@ {
        if e == "D|M"@ {
            reveal_strlit("D|M");
        } else {
            reveal_strlit("M|D");
        }
    }
}

} // verus!
