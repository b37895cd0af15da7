use n2t::assembler::predefined::{Address as OldAddress, SymbolTable as OldTable};
use n2t::assembler::spanned::CTriple as Spanned;
use n2t::assembler::assemble::{to_string, to_vec, try_to_vec, words_to_text, binary_digits};
use n2t::assembler::cinstr::{remove_whitespace, CTriple};
use n2t::assembler::convert::convert_cinstr;
use n2t::assembler::err::{legible_string, AssemblyError, ErrorKind};
use n2t::assembler::parse::{identifier, label, program};
use n2t::assembler::structs::{CExpr, Dst, Ident, Instruction, Item, JumpCondition, Program, Source};
use n2t::assembler::symbol_table::{Address, SymbolTable};

const MULT: &str = r#"
@R2
M=0

(MULT_LOOP)

// exit if R0 == 0
@R0
D=M
@EXIT
D;JEQ

// increase R2 by R1
@R1
D=M
@R2
M=M+D

// decrement R0
@R0
M=M-1

// loop
@MULT_LOOP
0;JMP

(EXIT)
@EXIT
0;JMP
        "#;

#[test]
fn mult() {
    let (mult, mut mult_symbols) = program(MULT).unwrap();

    let mult_code = to_vec(&mut mult_symbols, &mult);

    let compare = &[
        0b0000_0000_0000_0010u16,
        0b1110_1010_1000_1000,
        0b0000_0000_0000_0000,
        0b1111_1100_0001_0000,
        0b0000_0000_0000_1110,
        0b1110_0011_0000_0010,
        0b0000_0000_0000_0001,
        0b1111_1100_0001_0000,
        0b0000_0000_0000_0010,
        0b1111_0000_1000_1000,
        0b0000_0000_0000_0000,
        0b1111_1100_1000_1000,
        0b0000_0000_0000_0010,
        0b1110_1010_1000_0111,
        0b0000_0000_0000_1110,
        0b1110_1010_1000_0111,
    ];

    mult_code.iter().enumerate().for_each(|(i, n)| {
        assert_eq!(&compare[i], n, "assertion failed on instruction {i}");
    });
}

#[test]
fn fill() {
    let (fill, mut fill_symbols) = program(
        r#"

(ELOOP)

    @24576 //keyboard signal
    D=M

    @KY
    D;JGT

    @NOKY
    1; JGT

(KY)

    @8192
    D=A // initialize counter to "end" of screen buffer
    (SET)
        @SCREEN
        D=D-1 // advance to next iteration
        A=A+D // jump ptr to pixel in current iteration
        M=-1  // color current string

        // condition: The page clear has visited the last string (0)
        @ELOOP
        D;JEQ

        @SET
        0;JMP

(NOKY)

    @SCREEN
    M=0

    @8192
    D=A // initialize counter to "end" of screen buffer
    (USET)
        @SCREEN
        D=D-1 // advance to next iteration
        A=A+D // jump ptr to pixel in current iteration
        M=0  // color current string

        // condition: The page clear has visited the last string (0)
        @ELOOP
        D;JEQ

        @USET
        0;JMP

        "#,
    )
    .unwrap();

    let compare = &[
        0b0110_0000_0000_0000u16,
        0b1111_1100_0001_0000,
        0b0000_0000_0000_0110,
        0b1110_0011_0000_0001,
        0b0000_0000_0001_0000,
        0b1110_1111_1100_0001,
        0b0010_0000_0000_0000,
        0b1110_1100_0001_0000,
        0b0100_0000_0000_0000,
        0b1110_0011_1001_0000,
        0b1110_0000_1010_0000,
        0b1110_1110_1000_1000,
        0b0000_0000_0000_0000,
        0b1110_0011_0000_0010,
        0b0000_0000_0000_1000,
        0b1110_1010_1000_0111,
        0b0100_0000_0000_0000,
        0b1110_1010_1000_1000,
        0b0010_0000_0000_0000,
        0b1110_1100_0001_0000,
        0b0100_0000_0000_0000,
        0b1110_0011_1001_0000,
        0b1110_0000_1010_0000,
        0b1110_1010_1000_1000,
        0b0000_0000_0000_0000,
        0b1110_0011_0000_0010,
        0b0000_0000_0001_0100,
        0b1110_1010_1000_0111,
    ];

    to_vec(&mut fill_symbols, &fill)
        .iter()
        .enumerate()
        .for_each(|(i, n)| assert_eq!(&compare[i], n, "assertion failed on instruction {i}"));
}

fn triple(dst: Option<&str>, expr: &str, jmp: Option<&str>) -> CTriple {
    CTriple {
        dst: dst.map(|s| s.to_string()),
        expr: expr.to_string(),
        jmp: jmp.map(|s| s.to_string()),
    }
}

#[test]
fn cinstr_test_make_c_triple() {
    // check that a c instruction with no jmp works
    assert_eq!(
        CTriple::from_string("DM=M+D"),
        Ok(("".to_string(), triple(Some("DM"), "M+D", None)))
    );

    // check that a c instruction with jmp works
    assert_eq!(
        CTriple::from_string("   D   M     =M+D;JMP"),
        Ok(("".to_string(), triple(Some("DM"), "M+D", Some("JMP"))))
    );

    assert_eq!(
        CTriple::from_string("DM=    M    +   D  \t;JMP\n dee"),
        Ok(("\n dee".to_string(), triple(Some("DM"), "M+D", Some("JMP"))))
    );

    // nothing except for expression
    assert_eq!(CTriple::from_string("M"), Ok(("".to_string(), triple(None, "M", None))));

    // some other test cases
    assert_eq!(CTriple::from_string("M=0"), Ok(("".to_string(), triple(Some("M"), "0", None))));

    assert_eq!(
        CTriple::from_string("D;JMP"),
        Ok(("".to_string(), triple(None, "D", Some("JMP"))))
    )
}

#[test]
fn mod_theoretical() {
    let (single_instruction, _) = program(
        r#"

        DM=M+D

        "#,
    )
    .unwrap();

    println!("{single_instruction:#?}");
    assert_eq!(single_instruction.0.len(), 1);

    let (a_c_instruction, _) = program(
        r#"

        @42069
        DM=M+D

        "#,
    )
    .unwrap();

    println!("{a_c_instruction:#?}");
    assert_eq!(a_c_instruction.0.len(), 2);
    assert!(matches!(a_c_instruction.0[0], Instruction::A(Ident::Addr(42069))));
}

#[test]
fn problems() {
    let p = program("D;JGT\n").unwrap().0;
    println!("{:?}", p);
    assert!(matches!(
        p.0[0],
        Instruction::C { expr: CExpr::D, jump: JumpCondition::GreaterThan, .. }
    ));
}

#[test]
fn mod_practical() {
    let mult = program(MULT).unwrap().0;

    println!("{mult:#?}");
    assert_eq!(mult.0.len(), 16);
}

#[test]
fn parse_theoretical() {
    let mut single_instruction = program(
        r#"

        DM=M+D

        "#,
    )
    .unwrap()
    .1;

    assert_eq!(single_instruction.get("R1"), Some(&Address::Ram(1)));

    let mut a_c_instruction = program(
        r#"

        @42069
        DM=M+D

        "#,
    )
    .unwrap()
    .1;

    assert_eq!(a_c_instruction.get("SCREEN"), Some(&Address::Ram(0x4000)));
}

#[test]
fn parse_practical() {
    let (mult, mut table) = program(MULT).unwrap();
    println!("{mult:#?}");
    assert_eq!(table.get("MULT_LOOP"), Some(&Address::Rom(2)));
    assert_eq!(table.get("EXIT"), Some(&Address::Rom(14)));
}

#[test]
fn test_identifier() {
    assert!(matches!(identifier("MAIN_LOOP"), Ok((_, Ident::Name(x))) if x == "MAIN_LOOP"));

    label("(WHEN_DEEZ)").unwrap();
}

// ---- further cases ----

#[test]
fn identifier_number_and_rest() {
    assert!(matches!(identifier("123 rest"), Ok((r, Ident::Addr(123))) if r == " rest"));
    assert!(matches!(identifier("FOO.bar$1_x:1"), Ok((r, Ident::Name(n))) if n == "FOO.bar$1_x" && r == ":1"));
}

#[test]
fn identifier_missing_is_an_error() {
    let e = identifier("+x").unwrap_err();
    assert_eq!(
        e,
        AssemblyError::Internal(
            "+x".to_string(),
            ErrorKind::Many1,
            Some(Box::new(AssemblyError::Internal(
                "+x".to_string(),
                ErrorKind::Alt,
                Some(Box::new(AssemblyError::Internal("+x".to_string(), ErrorKind::IsA, None)))
            )))
        )
    );
}

#[test]
fn label_with_blanks() {
    match label("  ( LOOP )  next") {
        Ok((rest, Item::Label(n))) => {
            assert_eq!(n, "LOOP");
            assert_eq!(rest, "next");
        }
        other => panic!("unexpected {:?}", other),
    }
    assert!(label("LOOP").is_err());
}

#[test]
fn c_triple_errors() {
    assert!(CTriple::from_string("").is_err());
}

#[test]
fn c_triple_to_instruction() {
    let (_, t) = CTriple::from_string("AMD=D|M;JNE").unwrap();
    match t.to_cinstr().unwrap() {
        Instruction::C { expr, dst, jump } => {
            assert_eq!(expr, CExpr::DOrX(Source::Memory));
            assert_eq!(dst.bits(), 7);
            assert_eq!(jump, JumpCondition::NEqual);
        }
        _ => panic!("not a compute instruction"),
    }
    let (_, bad) = CTriple::from_string("D=M+A").unwrap();
    assert!(bad.to_cinstr().is_err());
    let (_, badj) = CTriple::from_string("D;JXX").unwrap();
    assert!(badj.to_cinstr().is_err());
}

#[test]
fn remove_whitespace_drops_blanks() {
    let chars: Vec<char> = " A M\tD \n".chars().collect();
    assert_eq!(remove_whitespace(&chars), "AMD");
}

#[test]
fn convert_known_words() {
    // D=M
    assert_eq!(convert_cinstr(&CExpr::X(Source::Memory), &Dst::d(), &JumpCondition::Never), 0b1111_1100_0001_0000);
    // 0;JMP
    assert_eq!(convert_cinstr(&CExpr::Zero, &Dst::empty(), &JumpCondition::Always), 0b1110_1010_1000_0111);
    // AM=M+1
    let mut am = Dst::a();
    am.insert(Dst::m());
    assert_eq!(convert_cinstr(&CExpr::XPlusOne(Source::Memory), &am, &JumpCondition::Never), 0b1111_1101_1110_1000);
}

#[test]
fn variables_get_fresh_data_addresses() {
    let (p, mut t) = program("@foo\n@bar\n@foo\n").unwrap();
    let words = try_to_vec(&mut t, &p).unwrap();
    assert_eq!(words, vec![16, 17, 16]);
    assert_eq!(t.get("foo"), Some(&Address::Ram(16)));
    assert_eq!(t.get("bar"), Some(&Address::Ram(17)));
}

#[test]
fn hack_text_lines() {
    let (p, mut t) = program("@2\nD=A\n").unwrap();
    let text = to_string(&mut t, &p);
    assert_eq!(text, "0000000000000010\n1110110000010000\n");
    assert_eq!(binary_digits(5), "0000000000000101");
    assert_eq!(words_to_text(&vec![]), "");
}

#[test]
fn empty_and_comment_programs() {
    let (p, _) = program("   \n// nothing\n\n").unwrap();
    assert_eq!(p.0.len(), 0);
    let (q, _) = program("").unwrap();
    assert_eq!(q.0.len(), 0);
}

#[test]
fn bad_line_fails() {
    assert!(program("@R0\n%%%\n").is_err());
}

#[test]
fn symbol_table_insert_and_lookup() {
    let mut t = SymbolTable::new();
    assert_eq!(t.get("KBD"), Some(&Address::Ram(0x6000)));
    assert_eq!(t.insert("X".to_string(), Address::Rom(3)), None);
    assert_eq!(t.insert("X".to_string(), Address::Rom(4)), Some(Address::Rom(3)));
    assert_eq!(t.get("X"), Some(&Address::Rom(4)));
    assert!(t.contains_value(&Address::Rom(3)));
    assert_eq!(t.available_ram(), Some(Address::Ram(16)));
    assert_eq!(t.assign_available_ram("v".to_string()), Ok(Address::Ram(16)));
    assert_eq!(t.assign_available_ram("w".to_string()), Ok(Address::Ram(17)));
    assert_eq!(
        t.assign_available_ram("X".to_string()),
        Err("The given name is associated with a ROM address".to_string())
    );
    assert!(t.assign_available_ram("v".to_string()).is_err());
}

#[test]
fn address_unwrap() {
    assert_eq!(Address::Rom(7).unwrap(), 7);
    assert_eq!(Address::Ram(9).unwrap(), 9);
}

#[test]
fn instruction_label_name() {
    assert_eq!(Instruction::Label("L".to_string()).label(), "L");
}

#[test]
fn legible_short_and_long() {
    assert_eq!(legible_string("abc"), "abc");
    assert_eq!(legible_string("a\r\nb"), "a,b");
    assert_eq!(legible_string("0123456789012345678901234567890"), "0123456789012345678...");
}

#[test]
fn raise_wraps_error() {
    let inner = AssemblyError::Internal("x".to_string(), ErrorKind::Tag, None);
    let e = AssemblyError::Internal("yx".to_string(), ErrorKind::Alt, Some(Box::new(inner)));
    assert_eq!(e.raise(), AssemblyError::Internal("x".to_string(), ErrorKind::Tag, None));
    assert_eq!(AssemblyError::InvalidCExpr.raise(), AssemblyError::InvalidCExpr);
    assert_eq!(
        AssemblyError::InvalidIdentifier.message(),
        "A problem was encountered while parsing an identifier"
    );
}

#[test]
fn program_len() {
    let p = Program(vec![Instruction::A(Ident::Addr(1))]);
    assert_eq!(p.len(), 1);
}

#[test]
fn spanned_make_c_triple() {
    let t = |d: Option<&str>, e: &str, j: Option<&str>| Spanned {
        dst: d.map(|s| s.to_string()),
        expr: e.to_string(),
        jmp: j.map(|s| s.to_string()),
    };
    assert_eq!(Spanned::from_string("DM=M+D"), Ok(("".to_string(), t(Some("DM"), "M+D", None))));
    assert_eq!(
        Spanned::from_string("   D   M     =M+D;JMP"),
        Ok(("".to_string(), t(Some("DM"), "M+D", Some("JMP"))))
    );
    assert_eq!(
        Spanned::from_string("DM=    M    +   D  \t;JMP\n dee"),
        Ok(("\n dee".to_string(), t(Some("DM"), "M+D", Some("JMP"))))
    );
    assert_eq!(Spanned::from_string("M"), Ok(("".to_string(), t(None, "M", None))));
    assert_eq!(Spanned::from_string("M=0"), Ok(("".to_string(), t(Some("M"), "0", None))));
    assert_eq!(Spanned::from_string("D;JMP"), Ok(("".to_string(), t(None, "D", Some("JMP")))));
    // this reading also takes `!` and lower-case mnemonics
    assert_eq!(Spanned::from_string("D=!M;jmp"), Ok(("".to_string(), t(Some("D"), "!M", Some("jmp")))));
    let (_, ok) = Spanned::from_string("A=!D").unwrap();
    assert!(matches!(ok.to_cinstr(), Ok(Instruction::C { expr: CExpr::NotD, .. })));
    let (_, bad) = Spanned::from_string("D;jmp").unwrap();
    assert_eq!(bad.to_cinstr().unwrap_err(), "Malformed jump expression");
}

#[test]
fn first_symbol_table_offers_one_address() {
    let mut t = OldTable::new();
    assert!(t.contains(&OldAddress::Ram(0)));
    assert!(!t.contains(&OldAddress::Rom(0)));
    t.set("LOOP".to_string(), OldAddress::Rom(4));
    assert!(t.contains(&OldAddress::Rom(4)));
    assert_eq!(t.index("LOOP"), OldAddress::Rom(4));
    assert_eq!(t.index("SCREEN"), OldAddress::Ram(0x4000));
    assert_eq!(
        t.assign_available_ram("LOOP".to_string()),
        Err("The given name is associated with a ROM address".to_string())
    );
}
