use n2t::assembler::assemble::{assemble_source, Assembled};
use n2t::assembler::structs::{CExpr, Ident, Instruction, Item, JumpCondition, Source};
use n2t::jack::translate::arithmetic::Arithmetic;
use n2t::jack::translate::common::{stack_call_on_two, stack_pop};
use n2t::jack::translate::prelude::instruction_prelude;
use n2t::jack::translate::stack::{parse_offset, push_const, segment_static_addr, segment_table_addr, Segment, Stack};
use n2t::jack::translate::{compile, program_of, split_words, translate, translate_checked, translate_instruction};
use std::str::FromStr;

fn at(item: &Item) -> Option<u16> {
    match item {
        Item::Instruction(Instruction::A(Ident::Addr(n))) => Some(*n),
        _ => None,
    }
}

fn comp(item: &Item) -> Option<(u8, CExpr)> {
    match item {
        Item::Instruction(Instruction::C { expr, dst, jump: JumpCondition::Never }) => Some((dst.bits(), *expr)),
        _ => None,
    }
}

#[test]
fn arithmetic_names() {
    assert_eq!(Arithmetic::from_str("add"), Ok(Arithmetic::Add));
    assert_eq!(Arithmetic::from_str("not"), Ok(Arithmetic::Not));
    assert_eq!(Arithmetic::from_str("Add"), Err(()));
    assert_eq!(Stack::from_str("pop"), Ok(Stack::Pop));
    assert!(Segment::from_str("constant").is_ok());
    assert!(Segment::from_str("heap").is_err());
}

#[test]
fn add_pops_two_and_pushes_sum() {
    let items = Arithmetic::Add.translate();
    assert_eq!(items.len(), 6);
    assert_eq!(at(&items[0]), Some(0));
    assert_eq!(comp(&items[1]), Some((1, CExpr::XMinusOne(Source::Memory))));
    assert_eq!(comp(&items[5]), Some((1, CExpr::DPlusX(Source::Memory))));
}

#[test]
fn comparisons_keep_the_high_bit() {
    let eq = Arithmetic::Eq.translate();
    assert_eq!(eq.len(), 17);
    assert_eq!(at(&eq[12]), Some(0xffff));
    assert_eq!(comp(&eq[16]), Some((1, CExpr::DAndX(Source::Memory))));
    assert_eq!(Arithmetic::Lt.translate().len(), 11);
    assert_eq!(Arithmetic::Gt.translate().len(), 11);
    assert_eq!(Arithmetic::Neg.translate().len(), 3);
}

#[test]
fn push_constant() {
    let items = push_const(7);
    assert_eq!(items.len(), 6);
    assert_eq!(at(&items[0]), Some(7));
    assert_eq!(comp(&items[1]), Some((2, CExpr::X(Source::Register))));
}

#[test]
fn table_and_fixed_segments() {
    let push = segment_table_addr(1, 3, &Stack::Push);
    assert_eq!(push.len(), 9);
    assert_eq!(at(&push[0]), Some(1));
    assert_eq!(at(&push[2]), Some(3));
    let pop = segment_table_addr(2, 4, &Stack::Pop);
    assert_eq!(pop.len(), 13);
    let fixed = segment_static_addr(16, 4, &Stack::Push);
    assert_eq!(at(&fixed[0]), Some(20));
    let fixed_pop = segment_static_addr(5, 2, &Stack::Pop);
    assert_eq!(at(&fixed_pop[4]), Some(7));
}

#[test]
fn segment_translation_outcomes() {
    assert!(Segment::Constant.translate(3, &Stack::Pop).is_err());
    assert!(Segment::Pointer.translate(2, &Stack::Push).is_err());
    assert_eq!(Segment::Temp.translate(1, &Stack::Push).unwrap().len(), 6);
    assert_eq!(Segment::Local.translate(1, &Stack::Pop).unwrap().len(), 13);
}

#[test]
fn offsets() {
    assert_eq!(parse_offset("12"), Some(12));
    assert_eq!(parse_offset("+12"), Some(12));
    assert_eq!(parse_offset("-1"), None);
    assert_eq!(parse_offset("70000"), None);
    assert_eq!(parse_offset(""), None);
}

#[test]
fn instructions_and_words() {
    let chars: Vec<char> = "  push \t constant  5 ".chars().collect();
    assert_eq!(split_words(&chars), vec!["push", "constant", "5"]);
    assert_eq!(translate_instruction("push constant 5").unwrap().len(), 6);
    assert_eq!(translate_instruction("add").unwrap().len(), 6);
    assert!(translate_instruction("push nowhere 5").is_err());
    assert!(translate_instruction("push constant").is_err());
    assert!(translate_instruction("").is_err());
}

#[test]
fn program_translation() {
    let text = "// comment\npush constant 7\n\n  push constant 8 // eight\nadd\r\n";
    let items = translate(text);
    assert_eq!(items.len(), 6 + 6 + 6);
    assert_eq!(at(&items[0]), Some(7));
    assert_eq!(at(&items[6]), Some(8));
    // refused commands give nothing
    assert_eq!(translate("pop constant 1\nadd").len(), 6);
    assert!(translate_checked("push pointer 0").is_none());
    assert!(translate_checked("call f 0").is_none());
    assert!(translate_checked("push static 65530").is_none());
}

#[test]
fn translation_is_line_by_line() {
    let a = "push constant 1";
    let b = "neg";
    let joined = format!("{a}\n{b}");
    assert_eq!(translate(&joined).len(), translate(a).len() + translate(b).len());
}

#[test]
fn compile_to_hack() {
    let code = compile("push constant 2\n").unwrap();
    assert_eq!(
        code,
        "0000000000000010\n1110110000010000\n0000000000000000\n1111110111001000\n1111110010100000\n1110001100001000\n"
    );
    assert!(compile("label LOOP").is_none());
}

#[test]
fn program_of_keeps_instructions() {
    let p = program_of(vec![Item::Label("X".to_string()), Item::Instruction(Instruction::A(Ident::Addr(3)))]);
    assert_eq!(p.len(), 1);
}

#[test]
fn prelude_sets_pointers() {
    let p = instruction_prelude();
    assert_eq!(p.len(), 8);
    assert_eq!(at(&p[0]), Some(256));
    assert_eq!(at(&p[4]), Some(1015));
}

#[test]
fn common_sequences() {
    assert_eq!(stack_pop().len(), 3);
    assert_eq!(stack_call_on_two().len(), 5);
}

#[test]
fn assemble_whole_source() {
    match assemble_source("@2\nD=A\n") {
        Assembled::Text(t) => assert_eq!(t, "0000000000000010\n1110110000010000\n"),
        _ => panic!("assembles"),
    }
    assert!(matches!(assemble_source("@99999"), Assembled::Overflow));
    assert!(matches!(assemble_source("D=X"), Assembled::Failed(_)));
}

/// Runs Hack machine code (one 16-bit word per line, as `compile` gives it) from the given
/// memory, straight through, and gives back the memory.
fn run_hack(code: &str, mut ram: Vec<u16>) -> Vec<u16> {
    let words: Vec<u16> = code.lines().map(|l| u16::from_str_radix(l, 2).unwrap()).collect();
    let (mut a, mut d, mut pc): (u16, u16, usize) = (0, 0, 0);
    while pc < words.len() {
        let w = words[pc];
        pc += 1;
        if w & 0x8000 == 0 {
            a = w;
            continue;
        }
        let bit = |n: u16| (w >> n) & 1 == 1;
        let y = if bit(12) { ram[a as usize] } else { a };
        let mut x = if bit(11) { 0 } else { d };
        if bit(10) {
            x = !x;
        }
        let mut yy = if bit(9) { 0 } else { y };
        if bit(8) {
            yy = !yy;
        }
        let mut out = if bit(7) { x.wrapping_add(yy) } else { x & yy };
        if bit(6) {
            out = !out;
        }
        if bit(3) {
            ram[a as usize] = out;
        }
        if bit(4) {
            d = out;
        }
        if bit(5) {
            a = out;
        }
        let neg = out & 0x8000 != 0;
        let zero = out == 0;
        let jump = (bit(2) && neg) || (bit(1) && zero) || (bit(0) && !neg && !zero);
        if jump {
            pc = a as usize;
        }
    }
    ram
}

fn machine() -> Vec<u16> {
    let mut ram = vec![0u16; 0x10000];
    ram[0] = 256;
    ram
}

fn run_vm(program: &str) -> Vec<u16> {
    run_hack(&compile(program).unwrap(), machine())
}

#[test]
fn arithmetic_runs_on_the_machine() {
    let ram = run_vm("push constant 7\npush constant 5\nsub\n");
    assert_eq!((ram[0], ram[256]), (257, 2));
    let ram = run_vm("push constant 7\npush constant 5\nadd\n");
    assert_eq!((ram[0], ram[256]), (257, 12));
    let ram = run_vm("push constant 12\npush constant 10\nand\n");
    assert_eq!(ram[256], 8);
    let ram = run_vm("push constant 12\npush constant 10\nor\n");
    assert_eq!(ram[256], 14);
    let ram = run_vm("push constant 5\nneg\n");
    assert_eq!((ram[0], ram[256]), (257, 0xfffb));
    let ram = run_vm("push constant 5\nnot\n");
    assert_eq!(ram[256], !5u16);
}

#[test]
fn comparisons_leave_the_high_bit_on_the_machine() {
    assert_eq!(run_vm("push constant 3\npush constant 3\neq\n")[256], 0x8000);
    assert_eq!(run_vm("push constant 3\npush constant 4\neq\n")[256], 0);
    assert_eq!(run_vm("push constant 3\npush constant 4\nlt\n")[256], 0x8000);
    assert_eq!(run_vm("push constant 4\npush constant 3\nlt\n")[256], 0);
    assert_eq!(run_vm("push constant 4\npush constant 3\ngt\n")[256], 0x8000);
    assert_eq!(run_vm("push constant 3\npush constant 3\ngt\n")[256], 0);
    // -1 < 2 as signed numbers
    assert_eq!(run_vm("push constant 1\nneg\npush constant 2\nlt\n")[256], 0x8000);
    // equal words whose difference overflows still compare equal
    assert_eq!(run_vm("push constant 1\nneg\npush constant 1\nneg\neq\n")[256], 0x8000);
}

#[test]
fn comparison_past_sixteen_bits() {
    // 32767 - (-1) does not fit in 16 bits: the high bit then says "less".
    let ram = run_vm("push constant 32767\npush constant 1\nneg\nlt\n");
    assert_eq!(ram[256], 0x8000);
}

#[test]
fn push_and_pop_through_segments_on_the_machine() {
    let mut ram = machine();
    ram[1] = 300;
    ram[2] = 400;
    ram[402] = 42;
    let ram = run_hack(&compile("push argument 2\npop local 3\n").unwrap(), ram);
    assert_eq!(ram[0], 256);
    assert_eq!(ram[303], 42);
    let ram = run_vm("push constant 9\npop temp 2\npush temp 2\npush constant 1\nadd\npop static 4\n");
    assert_eq!(ram[7], 9);
    assert_eq!(ram[20], 10);
    assert_eq!(ram[0], 256);
}

#[test]
fn prelude_runs_on_the_machine() {
    let mut table = n2t::assembler::symbol_table::SymbolTable::new();
    let words = n2t::assembler::assemble::to_vec(&mut table, &program_of(instruction_prelude()));
    let code: String = words.iter().map(|w| format!("{w:016b}\n")).collect();
    let ram = run_hack(&code, vec![0u16; 0x10000]);
    assert_eq!((ram[0], ram[1], ram[2]), (256, 1015, 0));
}

#[test]
fn every_computation_runs_on_the_machine() {
    // D = 12, A = 100, M = RAM[100] = 5
    let (d, a, m): (u16, u16, u16) = (12, 100, 5);
    let cases: Vec<(&str, u16)> = vec![
        ("0", 0),
        ("1", 1),
        ("-1", 0xffff),
        ("D", d),
        ("A", a),
        ("M", m),
        ("-D", d.wrapping_neg()),
        ("-A", a.wrapping_neg()),
        ("-M", m.wrapping_neg()),
        ("D+1", d + 1),
        ("A+1", a + 1),
        ("M+1", m + 1),
        ("D-1", d - 1),
        ("A-1", a - 1),
        ("M-1", m - 1),
        ("D+A", d + a),
        ("D+M", d + m),
        ("D-A", d.wrapping_sub(a)),
        ("D-M", d - m),
        ("A-D", a - d),
        ("M-D", m.wrapping_sub(d)),
        ("D&A", d & a),
        ("D&M", d & m),
        ("D|A", d | a),
        ("D|M", d | m),
    ];
    for (comp, expected) in cases {
        let source = format!("@12\nD=A\n@100\nM=1\nM=M+1\nM=M+1\nM=M+1\nM=M+1\n@100\nD={comp}\n@1000\nM=D\n");
        let code = match assemble_source(&source) {
            Assembled::Text(t) => t,
            _ => panic!("{comp} does not assemble"),
        };
        let ram = run_hack(&code, vec![0u16; 0x10000]);
        assert_eq!(ram[100], m, "{comp}");
        assert_eq!(ram[1000], expected, "{comp}");
    }
    // The assembler's expressions are made of `A M D + - 0 1 | &`: complements are refused.
    for comp in ["!D", "!A", "!M"] {
        assert!(matches!(assemble_source(&format!("D={comp}\n")), Assembled::Failed(_)), "{comp}");
    }
}
