//! The memory access commands (`push` and `pop`) of the VM language.
use vstd::prelude::*;
use crate::assembler::scan::{dec_value, digits_value, is_digit};
use crate::assembler::structs::{CExpr, Dst, Item, ItemV, Source};
use crate::text::{str_eq, str_to_chars};
use super::emit::{at, emit_at, emit_set, items_view, assign};
use crate::assembler::machine::{lemma_run_at, run, store, word, wrap, Machine};

verus! {

/// The direction of a memory access.
#[derive(Debug, Clone, Copy, PartialEq, Eq, Structural)]
pub enum Stack {
    Push,
    Pop,
}

/// The memory segment a command addresses.
#[derive(Debug, Clone, Copy, PartialEq, Eq, Structural)]
pub enum Segment {
    Local,
    Argument,
    This,
    That,
    Pointer,
    Temp,
    Static,
    Constant,
}

/// What translating a command gives: its assembly, a refusal, or nothing because the
/// translation of this command is not provided.
pub enum Translation {
    Items(Seq<ItemV>),
    Rejected,
    Aborts,
}

/// The result of translating a command, as [`Translation`] describes it.
pub enum Outcome {
    Items(Vec<Item>),
    Rejected,
    Aborts,
}

/// Whether an outcome is the given translation.
pub open spec fn outcome_is(o: Outcome, t: Translation) -> bool {
    match t {
        Translation::Items(s) => o matches Outcome::Items(v) && items_view(v@) == s,
        Translation::Rejected => o is Rejected,
        Translation::Aborts => o is Aborts,
    }
}

/// The direction a (lower-case) name denotes.
pub open spec fn stack_named(s: Seq<char>) -> Option<Stack> {
    if s == "push"@ { Some(Stack::Push) } else if s == "pop"@ { Some(Stack::Pop) } else { None }
}

/// The segment a (lower-case) name denotes.
pub open spec fn segment_named(s: Seq<char>) -> Option<Segment> {
    if s == "local"@ { Some(Segment::Local) }
    else if s == "argument"@ { Some(Segment::Argument) }
    else if s == "this"@ { Some(Segment::This) }
    else if s == "that"@ { Some(Segment::That) }
    else if s == "pointer"@ { Some(Segment::Pointer) }
    else if s == "temp"@ { Some(Segment::Temp) }
    else if s == "static"@ { Some(Segment::Static) }
    else if s == "constant"@ { Some(Segment::Constant) }
    else { None }
}

/// Whether `d` is a non-empty string of decimal digits.
pub open spec fn all_digits(d: Seq<char>) -> bool {
    d.len() > 0 && forall|k: int| 0 <= k < d.len() ==> is_digit(#[trigger] d[k])
}

/// The value of a decimal offset, with an optional leading `+`, when it fits in 16 bits.
pub open spec fn offset_value(w: Seq<char>) -> Option<u16> {
    let d = if w.len() > 0 && w[0] == '+' { w.drop_first() } else { w };
    if all_digits(d) && dec_value(d) <= 0xffff {
        Some(dec_value(d) as u16)
    } else {
        None
    }
}

/// Pushing or popping through a segment whose base address is stored at `table`.
pub open spec fn table_items(table: u16, offset: u16, st: Stack) -> Seq<ItemV> {
    match st {
        Stack::Push => seq![
            at(table),
            assign(2, CExpr::X(Source::Memory)),
            at(offset),
            assign(4, CExpr::DPlusX(Source::Register)),
            assign(2, CExpr::X(Source::Memory)),
            at(0),
            assign(1, CExpr::XPlusOne(Source::Memory)),
            assign(4, CExpr::XMinusOne(Source::Memory)),
            assign(1, CExpr::D),
        ],
        Stack::Pop => seq![
            at(table),
            assign(2, CExpr::X(Source::Memory)),
            at(offset),
            assign(2, CExpr::DPlusX(Source::Register)),
            at(0),
            assign(1, CExpr::XMinusOne(Source::Memory)),
            assign(4, CExpr::XPlusOne(Source::Memory)),
            assign(1, CExpr::D),
            assign(4, CExpr::XMinusOne(Source::Register)),
            assign(2, CExpr::X(Source::Memory)),
            assign(4, CExpr::XPlusOne(Source::Register)),
            assign(4, CExpr::X(Source::Memory)),
            assign(1, CExpr::D),
        ],
    }
}

/// Pushing or popping the word at the fixed address `dest`.
pub open spec fn fixed_items(dest: u16, st: Stack) -> Seq<ItemV> {
    match st {
        Stack::Push => seq![
            at(dest),
            assign(2, CExpr::X(Source::Memory)),
            at(0),
            assign(1, CExpr::XPlusOne(Source::Memory)),
            assign(4, CExpr::XMinusOne(Source::Memory)),
            assign(1, CExpr::D),
        ],
        Stack::Pop => seq![
            at(0),
            assign(1, CExpr::XMinusOne(Source::Memory)),
            assign(4, CExpr::X(Source::Memory)),
            assign(2, CExpr::X(Source::Memory)),
            at(dest),
            assign(1, CExpr::D),
        ],
    }
}

/// Pushing the constant `value`.
pub open spec fn const_items(value: u16) -> Seq<ItemV> {
    seq![
        at(value),
        assign(2, CExpr::X(Source::Register)),
        at(0),
        assign(1, CExpr::XPlusOne(Source::Memory)),
        assign(4, CExpr::XMinusOne(Source::Memory)),
        assign(1, CExpr::D),
    ]
}

/// Accessing the word at `base + offset`, which must fit in 16 bits.
pub open spec fn fixed_translation(base: u16, offset: u16, st: Stack) -> Translation {
    if base + offset > 0xffff {
        Translation::Aborts
    } else {
        Translation::Items(fixed_items((base + offset) as u16, st))
    }
}

/// The translation of an access to word `offset` of segment `seg`.
pub open spec fn segment_translation(seg: Segment, offset: u16, st: Stack) -> Translation {
    match seg {
        Segment::Local => Translation::Items(table_items(1, offset, st)),
        Segment::Argument => Translation::Items(table_items(2, offset, st)),
        Segment::This => Translation::Items(table_items(3, offset, st)),
        Segment::That => Translation::Items(table_items(4, offset, st)),
        Segment::Constant => match st {
            Stack::Push => Translation::Items(const_items(offset)),
            Stack::Pop => Translation::Rejected,
        },
        Segment::Static => fixed_translation(16, offset, st),
        Segment::Temp => fixed_translation(5, offset, st),
        Segment::Pointer => if offset <= 1 { Translation::Aborts } else { Translation::Rejected },
    }
}

/// The translation of an access given by the words that follow `push` or `pop`: a segment
/// and an offset.
pub open spec fn stack_translation(st: Stack, words: Seq<Seq<char>>) -> Translation {
    if words.len() == 0 {
        Translation::Rejected
    } else {
        match segment_named(words[0]) {
            None => Translation::Rejected,
            Some(seg) => if words.len() < 2 {
                Translation::Rejected
            } else {
                match offset_value(words[1]) {
                    None => Translation::Rejected,
                    Some(off) => segment_translation(seg, off, st),
                }
            },
        }
    }
}

impl std::str::FromStr for Stack {
    type Err = ();

    fn from_str(s: &str) -> (r: Result<Stack, ()>)
        ensures
            match stack_named(s@) {
                Some(a) => r == Ok::<Stack, ()>(a),
                None => r is Err,
            },
    {
        match Stack::from_name(s) {
            Some(a) => Ok(a),
            None => Err(()),
        }
    }
}

impl std::str::FromStr for Segment {
    type Err = ();

    fn from_str(s: &str) -> (r: Result<Segment, ()>)
        ensures
            match segment_named(s@) {
                Some(a) => r == Ok::<Segment, ()>(a),
                None => r is Err,
            },
    {
        match Segment::from_name(s) {
            Some(a) => Ok(a),
            None => Err(()),
        }
    }
}

/// Pushes or pops through the segment whose base address is stored at `table_offset`.
pub fn segment_table_addr(table_offset: u16, segment_offset: u16, push_or_pop: &Stack) -> (r: Vec<Item>)
    ensures
        items_view(r@) == table_items(table_offset, segment_offset, *push_or_pop),
{
    let mut v: Vec<Item> = Vec::new();
    match push_or_pop {
        Stack::Push => {
            emit_at(&mut v, table_offset);
            emit_set(&mut v, Dst::d(), CExpr::X(Source::Memory));
            emit_at(&mut v, segment_offset);
            emit_set(&mut v, Dst::a(), CExpr::DPlusX(Source::Register));
            emit_set(&mut v, Dst::d(), CExpr::X(Source::Memory));
            emit_at(&mut v, 0);
            emit_set(&mut v, Dst::m(), CExpr::XPlusOne(Source::Memory));
            emit_set(&mut v, Dst::a(), CExpr::XMinusOne(Source::Memory));
            emit_set(&mut v, Dst::m(), CExpr::D);
        },
        Stack::Pop => {
            emit_at(&mut v, table_offset);
            emit_set(&mut v, Dst::d(), CExpr::X(Source::Memory));
            emit_at(&mut v, segment_offset);
            emit_set(&mut v, Dst::d(), CExpr::DPlusX(Source::Register));
            emit_at(&mut v, 0);
            emit_set(&mut v, Dst::m(), CExpr::XMinusOne(Source::Memory));
            emit_set(&mut v, Dst::a(), CExpr::XPlusOne(Source::Memory));
            emit_set(&mut v, Dst::m(), CExpr::D);
            emit_set(&mut v, Dst::a(), CExpr::XMinusOne(Source::Register));
            emit_set(&mut v, Dst::d(), CExpr::X(Source::Memory));
            emit_set(&mut v, Dst::a(), CExpr::XPlusOne(Source::Register));
            emit_set(&mut v, Dst::a(), CExpr::X(Source::Memory));
            emit_set(&mut v, Dst::m(), CExpr::D);
        },
    }
    assert(items_view(v@) =~= table_items(table_offset, segment_offset, *push_or_pop));
    v
}

/// Pushes or pops the word at `addr + segment_offset`.
pub fn segment_static_addr(addr: u16, segment_offset: u16, push_or_pop: &Stack) -> (r: Vec<Item>)
    requires
        addr + segment_offset <= 0xffff,
    ensures
        items_view(r@) == fixed_items((addr + segment_offset) as u16, *push_or_pop),
{
    let destination = addr + segment_offset;
    let mut v: Vec<Item> = Vec::new();
    match push_or_pop {
        Stack::Push => {
            emit_at(&mut v, destination);
            emit_set(&mut v, Dst::d(), CExpr::X(Source::Memory));
            emit_at(&mut v, 0);
            emit_set(&mut v, Dst::m(), CExpr::XPlusOne(Source::Memory));
            emit_set(&mut v, Dst::a(), CExpr::XMinusOne(Source::Memory));
            emit_set(&mut v, Dst::m(), CExpr::D);
        },
        Stack::Pop => {
            emit_at(&mut v, 0);
            emit_set(&mut v, Dst::m(), CExpr::XMinusOne(Source::Memory));
            emit_set(&mut v, Dst::a(), CExpr::X(Source::Memory));
            emit_set(&mut v, Dst::d(), CExpr::X(Source::Memory));
            emit_at(&mut v, destination);
            emit_set(&mut v, Dst::m(), CExpr::D);
        },
    }
    assert(items_view(v@) =~= fixed_items(destination, *push_or_pop));
    v
}

/// Pushes the constant `value`.
pub fn push_const(value: u16) -> (r: Vec<Item>)
    ensures
        items_view(r@) == const_items(value),
{
    let mut v: Vec<Item> = Vec::new();
    emit_at(&mut v, value);
    emit_set(&mut v, Dst::d(), CExpr::X(Source::Register));
    emit_at(&mut v, 0);
    emit_set(&mut v, Dst::m(), CExpr::XPlusOne(Source::Memory));
    emit_set(&mut v, Dst::a(), CExpr::XMinusOne(Source::Memory));
    emit_set(&mut v, Dst::m(), CExpr::D);
    assert(items_view(v@) =~= const_items(value));
    v
}

/// The value of a decimal offset, with an optional leading `+`, when it fits in 16 bits.
pub fn parse_offset(w: &str) -> (r: Option<u16>)
    ensures
        r == offset_value(w@),
{
    let chars = str_to_chars(w);
    let s = chars.as_slice();
    let start: usize = if s.len() > 0 && s[0] == '+' { 1 } else { 0 };
    let ghost d = if w@.len() > 0 && w@[0] == '+' { w@.drop_first() } else { w@ };
    assert(d == s@.subrange(start as int, s@.len() as int));
    if start >= s.len() {
        return None;
    }
    let mut k = start;
    while k < s.len()
        invariant
            start <= k <= s@.len(),
            d == s@.subrange(start as int, s@.len() as int),
            d == (if w@.len() > 0 && w@[0] == '+' { w@.drop_first() } else { w@ }),
            d.len() > 0,
            forall|m: int| start <= m < k ==> is_digit(#[trigger] s@[m]),
        decreases s@.len() - k,
    {
        if !('0' <= s[k] && s[k] <= '9') {
            assert(!is_digit(d[k - start]));
            return None;
        }
        k += 1;
    }
    assert forall|m: int| 0 <= m < d.len() implies is_digit(#[trigger] d[m]) by {
        assert(d[m] == s@[start + m]);
    }
    digits_value(s, start, s.len())
}

impl Stack {
    /// The direction of the given name (`push`, `pop`).
    pub fn from_name(s: &str) -> (r: Option<Stack>)
        ensures
            r == stack_named(s@),
    {
        if str_eq(s, "push") {
            Some(Stack::Push)
        } else if str_eq(s, "pop") {
            Some(Stack::Pop)
        } else {
            None
        }
    }

    /// Translates the access given by the words that follow the command: the segment and the
    /// offset; later words are ignored.
    pub fn translate(&self, words: &[String]) -> (r: Result<Vec<Item>, ()>)
        requires
            !(stack_translation(*self, words@.map_values(|w: String| w@)) is Aborts),
        ensures
            match stack_translation(*self, words@.map_values(|w: String| w@)) {
                Translation::Items(s) => r matches Ok(v) && items_view(v@) == s,
                _ => r is Err,
            },
    {
        match self.translate_checked(words) {
            Outcome::Items(v) => Ok(v),
            _ => Err(()),
        }
    }

    /// Translates the access given by the words that follow the command, telling when the
    /// translation is not provided.
    pub fn translate_checked(&self, words: &[String]) -> (r: Outcome)
        ensures
            outcome_is(r, stack_translation(*self, words@.map_values(|w: String| w@))),
    {
        let ghost ws = words@.map_values(|w: String| w@);
        if words.len() == 0 {
            return Outcome::Rejected;
        }
        match Segment::from_name(words[0].as_str()) {
            None => Outcome::Rejected,
            Some(segment) => {
                if words.len() < 2 {
                    return Outcome::Rejected;
                }
                match parse_offset(words[1].as_str()) {
                    None => Outcome::Rejected,
                    Some(offset) => segment.translate_checked(offset, self),
                }
            },
        }
    }
}

impl Segment {
    /// The segment of the given name (`local`, `argument`, `this`, `that`, `pointer`, `temp`,
    /// `static`, `constant`).
    pub fn from_name(s: &str) -> (r: Option<Segment>)
        ensures
            r == segment_named(s@),
    {
        if str_eq(s, "local") { Some(Segment::Local) }
        else if str_eq(s, "argument") { Some(Segment::Argument) }
        else if str_eq(s, "this") { Some(Segment::This) }
        else if str_eq(s, "that") { Some(Segment::That) }
        else if str_eq(s, "pointer") { Some(Segment::Pointer) }
        else if str_eq(s, "temp") { Some(Segment::Temp) }
        else if str_eq(s, "static") { Some(Segment::Static) }
        else if str_eq(s, "constant") { Some(Segment::Constant) }
        else { None }
    }

    /// Translates an access to word `offset` of the segment; popping into a constant and
    /// pointer words other than 0 and 1 are refused.
    pub fn translate(&self, offset: u16, push_or_pop: &Stack) -> (r: Result<Vec<Item>, ()>)
        requires
            !(segment_translation(*self, offset, *push_or_pop) is Aborts),
        ensures
            match segment_translation(*self, offset, *push_or_pop) {
                Translation::Items(s) => r matches Ok(v) && items_view(v@) == s,
                _ => r is Err,
            },
    {
        match self.translate_checked(offset, push_or_pop) {
            Outcome::Items(v) => Ok(v),
            _ => Err(()),
        }
    }

    /// Translates an access to word `offset` of the segment, telling when the translation is
    /// not provided (pointer words 0 and 1, addresses beyond 16 bits).
    pub fn translate_checked(&self, offset: u16, push_or_pop: &Stack) -> (r: Outcome)
        ensures
            outcome_is(r, segment_translation(*self, offset, *push_or_pop)),
    {
        match self {
            Segment::Local => Outcome::Items(segment_table_addr(1, offset, push_or_pop)),
            Segment::Argument => Outcome::Items(segment_table_addr(2, offset, push_or_pop)),
            Segment::This => Outcome::Items(segment_table_addr(3, offset, push_or_pop)),
            Segment::That => Outcome::Items(segment_table_addr(4, offset, push_or_pop)),
            Segment::Constant => match push_or_pop {
                Stack::Push => Outcome::Items(push_const(offset)),
                Stack::Pop => Outcome::Rejected,
            },
            Segment::Static => if offset > 0xffff - 16 {
                Outcome::Aborts
            } else {
                Outcome::Items(segment_static_addr(16, offset, push_or_pop))
            },
            Segment::Temp => if offset > 0xffff - 5 {
                Outcome::Aborts
            } else {
                Outcome::Items(segment_static_addr(5, offset, push_or_pop))
            },
            Segment::Pointer => if offset <= 1 { Outcome::Aborts } else { Outcome::Rejected },
        }
    }
}

/// Pushing the constant `value` (below 2^15, as an address instruction holds): the stack
/// grows by one word holding `value`; no other word changes.
pub proof fn lemma_push_constant(value: u16, m: Machine)
    requires
        value < 0x8000,
        1 <= word(m, 0) < 0xffff,
    ensures
        run(m, const_items(value)) matches Some(n)
            && n.ram == store(store(m.ram, 0, (word(m, 0) + 1) as u16), word(m, 0) as u16, value),
{
    let sp = word(m, 0);
    let s = const_items(value);
    let len = s.len() as int;
    assert(s.subrange(0, len) =~= s);
    let m1 = Machine { a: value, ..m };
    lemma_run_at(m, s, 0);
    let m2 = Machine { d: value, ..m1 };
    lemma_run_at(m1, s, 1);
    let m3 = Machine { a: 0, ..m2 };
    lemma_run_at(m2, s, 2);
    let r4 = store(m.ram, 0, (sp + 1) as u16);
    let m4 = Machine { ram: r4, ..m3 };
    lemma_run_at(m3, s, 3);
    let m5 = Machine { a: sp as u16, ..m4 };
    lemma_run_at(m4, s, 4);
    let m6 = Machine { ram: store(r4, sp as u16, value), ..m5 };
    lemma_run_at(m5, s, 5);
    assert(s.subrange(6, len) =~= Seq::<ItemV>::empty());
    assert(run(m6, s.subrange(6, len)) == Some(m6));
}

/// Pushing the word at `dest` (below 2^15): the stack grows by one word holding it; no
/// other word changes.
pub proof fn lemma_push_fixed(dest: u16, m: Machine)
    requires
        dest < 0x8000,
        1 <= word(m, 0) < 0xffff,
    ensures
        run(m, fixed_items(dest, Stack::Push)) matches Some(n)
            && n.ram == store(store(m.ram, 0, (word(m, 0) + 1) as u16), word(m, 0) as u16, word(m, dest as int)),
{
    let sp = word(m, 0);
    let s = fixed_items(dest, Stack::Push);
    let len = s.len() as int;
    assert(s.subrange(0, len) =~= s);
    let m1 = Machine { a: dest, ..m };
    lemma_run_at(m, s, 0);
    let m2 = Machine { d: word(m, dest as int), ..m1 };
    lemma_run_at(m1, s, 1);
    let m3 = Machine { a: 0, ..m2 };
    lemma_run_at(m2, s, 2);
    let r4 = store(m.ram, 0, (sp + 1) as u16);
    let m4 = Machine { ram: r4, ..m3 };
    lemma_run_at(m3, s, 3);
    let m5 = Machine { a: sp as u16, ..m4 };
    lemma_run_at(m4, s, 4);
    let m6 = Machine { ram: store(r4, sp as u16, word(m, dest as int)), ..m5 };
    lemma_run_at(m5, s, 5);
    assert(s.subrange(6, len) =~= Seq::<ItemV>::empty());
    assert(run(m6, s.subrange(6, len)) == Some(m6));
}

/// Popping into the word at `dest` (below 2^15): the stack shrinks by one and its old top is
/// written at `dest`; no other word changes.
pub proof fn lemma_pop_fixed(dest: u16, m: Machine)
    requires
        dest < 0x8000,
        2 <= word(m, 0),
    ensures
        run(m, fixed_items(dest, Stack::Pop)) matches Some(n)
            && n.ram == store(store(m.ram, 0, (word(m, 0) - 1) as u16), dest, word(m, word(m, 0) - 1)),
{
    let sp = word(m, 0);
    let y = word(m, sp - 1);
    let s = fixed_items(dest, Stack::Pop);
    let len = s.len() as int;
    assert(s.subrange(0, len) =~= s);
    let m1 = Machine { a: 0, ..m };
    lemma_run_at(m, s, 0);
    let r2 = store(m.ram, 0, (sp - 1) as u16);
    let m2 = Machine { ram: r2, ..m1 };
    lemma_run_at(m1, s, 1);
    let m3 = Machine { a: (sp - 1) as u16, ..m2 };
    lemma_run_at(m2, s, 2);
    let m4 = Machine { d: y, ..m3 };
    lemma_run_at(m3, s, 3);
    let m5 = Machine { a: dest, ..m4 };
    lemma_run_at(m4, s, 4);
    let m6 = Machine { ram: store(r2, dest, y), ..m5 };
    lemma_run_at(m5, s, 5);
    assert(s.subrange(6, len) =~= Seq::<ItemV>::empty());
    assert(run(m6, s.subrange(6, len)) == Some(m6));
}

/// Pushing word `offset` (below 2^15) of the segment whose base address is stored at `table`
/// (below 2^15): the stack grows by one word holding the word at base + offset (modulo
/// 2^16); no other word changes.
pub proof fn lemma_push_table(table: u16, offset: u16, m: Machine)
    requires
        table < 0x8000,
        offset < 0x8000,
        1 <= word(m, 0) < 0xffff,
    ensures
        run(m, table_items(table, offset, Stack::Push)) matches Some(n)
            && n.ram == store(store(m.ram, 0, (word(m, 0) + 1) as u16), word(m, 0) as u16,
                word(m, wrap(word(m, table as int) + offset) as int)),
{
    let sp = word(m, 0);
    let s = table_items(table, offset, Stack::Push);
    let len = s.len() as int;
    let addr = wrap(word(m, table as int) + offset);
    let v = word(m, addr as int);
    assert(s.subrange(0, len) =~= s);
    let m1 = Machine { a: table, ..m };
    lemma_run_at(m, s, 0);
    let m2 = Machine { d: word(m, table as int), ..m1 };
    lemma_run_at(m1, s, 1);
    let m3 = Machine { a: offset, ..m2 };
    lemma_run_at(m2, s, 2);
    let m4 = Machine { a: addr, ..m3 };
    lemma_run_at(m3, s, 3);
    let m5 = Machine { d: v, ..m4 };
    lemma_run_at(m4, s, 4);
    let m6 = Machine { a: 0, ..m5 };
    lemma_run_at(m5, s, 5);
    let r7 = store(m.ram, 0, (sp + 1) as u16);
    let m7 = Machine { ram: r7, ..m6 };
    lemma_run_at(m6, s, 6);
    let m8 = Machine { a: sp as u16, ..m7 };
    lemma_run_at(m7, s, 7);
    let m9 = Machine { ram: store(r7, sp as u16, v), ..m8 };
    lemma_run_at(m8, s, 8);
    assert(s.subrange(9, len) =~= Seq::<ItemV>::empty());
    assert(run(m9, s.subrange(9, len)) == Some(m9));
}

/// Popping into word `offset` (below 2^15) of the segment whose base address is stored at
/// `table` (below 2^15): the stack shrinks by one and its old top is written at base + offset
/// (modulo 2^16); the address is first kept in the word just above the new top, the old top's
/// place. No other word changes.
pub proof fn lemma_pop_table(table: u16, offset: u16, m: Machine)
    requires
        table < 0x8000,
        offset < 0x8000,
        2 <= word(m, 0),
    ensures
        run(m, table_items(table, offset, Stack::Pop)) matches Some(n)
            && n.ram == store(store(store(m.ram, 0, (word(m, 0) - 1) as u16), word(m, 0) as u16,
                wrap(word(m, table as int) + offset)), wrap(word(m, table as int) + offset), word(m, word(m, 0) - 1)),
{
    let sp = word(m, 0);
    let y = word(m, sp - 1);
    let s = table_items(table, offset, Stack::Pop);
    let len = s.len() as int;
    let addr = wrap(word(m, table as int) + offset);
    assert(s.subrange(0, len) =~= s);
    let m1 = Machine { a: table, ..m };
    lemma_run_at(m, s, 0);
    let m2 = Machine { d: word(m, table as int), ..m1 };
    lemma_run_at(m1, s, 1);
    let m3 = Machine { a: offset, ..m2 };
    lemma_run_at(m2, s, 2);
    let m4 = Machine { d: addr, ..m3 };
    lemma_run_at(m3, s, 3);
    let m5 = Machine { a: 0, ..m4 };
    lemma_run_at(m4, s, 4);
    let r6 = store(m.ram, 0, (sp - 1) as u16);
    let m6 = Machine { ram: r6, ..m5 };
    lemma_run_at(m5, s, 5);
    let m7 = Machine { a: sp as u16, ..m6 };
    lemma_run_at(m6, s, 6);
    let r8 = store(r6, sp as u16, addr);
    let m8 = Machine { ram: r8, ..m7 };
    lemma_run_at(m7, s, 7);
    let m9 = Machine { a: (sp - 1) as u16, ..m8 };
    lemma_run_at(m8, s, 8);
    let m10 = Machine { d: y, ..m9 };
    lemma_run_at(m9, s, 9);
    let m11 = Machine { a: sp as u16, ..m10 };
    lemma_run_at(m10, s, 10);
    let m12 = Machine { a: addr, ..m11 };
    lemma_run_at(m11, s, 11);
    let m13 = Machine { ram: store(r8, addr, y), ..m12 };
    lemma_run_at(m12, s, 12);
    assert(s.subrange(13, len) =~= Seq::<ItemV>::empty());
    assert(run(m13, s.subrange(13, len)) == Some(m13));
}

/// The word a `push` or `pop` of word `offset` of `seg` reaches on the machine `m`: through
/// the base address stored at 1 (`local`), 2 (`argument`), 3 (`this`), 4 (`that`), or at the
/// fixed places from 5 (`temp`) and 16 (`static`).
pub open spec fn segment_address(seg: Segment, offset: u16, m: Machine) -> u16 {
    match seg {
        Segment::Local => wrap(word(m, 1) + offset),
        Segment::Argument => wrap(word(m, 2) + offset),
        Segment::This => wrap(word(m, 3) + offset),
        Segment::That => wrap(word(m, 4) + offset),
        Segment::Temp => wrap(5 + offset),
        Segment::Static => wrap(16 + offset),
        _ => 0,
    }
}

/// The word pushed by `push seg offset`: the offset itself for `constant`, else the word the
/// segment reaches.
pub open spec fn pushed_value(seg: Segment, offset: u16, m: Machine) -> u16 {
    if seg is Constant {
        offset
    } else {
        word(m, segment_address(seg, offset, m) as int)
    }
}

/// Whether the fixed place of word `offset` of `seg`, if it has one, is below 2^15 (as an
/// address instruction holds it).
pub open spec fn fixed_place_fits(seg: Segment, offset: u16) -> bool {
    &&& seg is Temp ==> 5 + offset < 0x8000
    &&& seg is Static ==> 16 + offset < 0x8000
}

/// `push seg offset` (any segment but `pointer`, offset below 2^15) grows the stack by one
/// word holding the segment's word, or the offset itself for `constant`; no other word
/// changes.
pub proof fn lemma_push_command(seg: Segment, offset: u16, m: Machine)
    requires
        !(seg is Pointer),
        offset < 0x8000,
        fixed_place_fits(seg, offset),
        1 <= word(m, 0) < 0xffff,
    ensures
        segment_translation(seg, offset, Stack::Push) matches Translation::Items(s)
            && run(m, s) matches Some(n)
            && n.ram == store(store(m.ram, 0, (word(m, 0) + 1) as u16), word(m, 0) as u16, pushed_value(seg, offset, m)),
{
    match seg {
        Segment::Local => lemma_push_table(1, offset, m),
        Segment::Argument => lemma_push_table(2, offset, m),
        Segment::This => lemma_push_table(3, offset, m),
        Segment::That => lemma_push_table(4, offset, m),
        Segment::Constant => lemma_push_constant(offset, m),
        Segment::Temp => lemma_push_fixed((5 + offset) as u16, m),
        Segment::Static => lemma_push_fixed((16 + offset) as u16, m),
        Segment::Pointer => {},
    }
}

/// `pop seg offset` (any segment but `constant` and `pointer`, offset below 2^15) shrinks
/// the stack by one and writes its old top into the segment's word; only the stack pointer,
/// that word and the old top's place may change.
pub proof fn lemma_pop_command(seg: Segment, offset: u16, m: Machine)
    requires
        !(seg is Pointer || seg is Constant),
        offset < 0x8000,
        fixed_place_fits(seg, offset),
        2 <= word(m, 0),
        segment_address(seg, offset, m) != 0,
    ensures
        segment_translation(seg, offset, Stack::Pop) matches Translation::Items(s)
            && run(m, s) matches Some(n)
            && word(n, 0) == word(m, 0) - 1
            && word(n, segment_address(seg, offset, m) as int) == word(m, word(m, 0) - 1)
            && forall|i: u16| i != 0 && i != segment_address(seg, offset, m) && i != word(m, 0)
                ==> #[trigger] (n.ram)(i) == (m.ram)(i),
{
    match seg {
        Segment::Local => lemma_pop_table(1, offset, m),
        Segment::Argument => lemma_pop_table(2, offset, m),
        Segment::This => lemma_pop_table(3, offset, m),
        Segment::That => lemma_pop_table(4, offset, m),
        Segment::Temp => lemma_pop_fixed((5 + offset) as u16, m),
        Segment::Static => lemma_pop_fixed((16 + offset) as u16, m),
        _ => {},
    }
}

/// The segment names are distinct words.
proof fn lemma_segment_names_differ()
    ensures
        "local"@ != "argument"@,
        "local"@ != "this"@,
        "local"@ != "that"@,
        "local"@ != "pointer"@,
        "local"@ != "temp"@,
        "local"@ != "static"@,
        "local"@ != "constant"@,
        "argument"@ != "this"@,
        "argument"@ != "that"@,
        "argument"@ != "pointer"@,
        "argument"@ != "temp"@,
        "argument"@ != "static"@,
        "argument"@ != "constant"@,
        "this"@ != "that"@,
        "this"@ != "pointer"@,
        "this"@ != "temp"@,
        "this"@ != "static"@,
        "this"@ != "constant"@,
        "that"@ != "pointer"@,
        "that"@ != "temp"@,
        "that"@ != "static"@,
        "that"@ != "constant"@,
        "pointer"@ != "temp"@,
        "pointer"@ != "static"@,
        "pointer"@ != "constant"@,
        "temp"@ != "static"@,
        "temp"@ != "constant"@,
        "static"@ != "constant"@,
{
    reveal_strlit("local");
    reveal_strlit("argument");
    reveal_strlit("this");
    reveal_strlit("that");
    reveal_strlit("pointer");
    reveal_strlit("temp");
    reveal_strlit("static");
    reveal_strlit("constant");
    assert("local"@.len() == 5 && "local"@[0] == 'l' && "local"@[2] == 'c');
    assert("argument"@.len() == 8 && "argument"@[0] == 'a' && "argument"@[2] == 'g');
    assert("this"@.len() == 4 && "this"@[0] == 't' && "this"@[2] == 'i');
    assert("that"@.len() == 4 && "that"@[0] == 't' && "that"@[2] == 'a');
    assert("pointer"@.len() == 7 && "pointer"@[0] == 'p' && "pointer"@[2] == 'i');
    assert("temp"@.len() == 4 && "temp"@[0] == 't' && "temp"@[2] == 'm');
    assert("static"@.len() == 6 && "static"@[0] == 's' && "static"@[2] == 'a');
    assert("constant"@.len() == 8 && "constant"@[0] == 'c' && "constant"@[2] == 'n');
}

/// Where word `offset` of the segment called `name` in a VM command lies on the Hack VM
/// platform: through the base address kept in RAM[1] (`local`), RAM[2] (`argument`),
/// RAM[3] (`this`) or RAM[4] (`that`), or from RAM[5] (`temp`) or RAM[16] (`static`).
pub open spec fn vm_address(name: Seq<char>, offset: u16, m: Machine) -> Option<u16> {
    if name == "local"@ { Some(wrap(word(m, 1) + offset)) }
    else if name == "argument"@ { Some(wrap(word(m, 2) + offset)) }
    else if name == "this"@ { Some(wrap(word(m, 3) + offset)) }
    else if name == "that"@ { Some(wrap(word(m, 4) + offset)) }
    else if name == "temp"@ { Some(wrap(5 + offset)) }
    else if name == "static"@ { Some(wrap(16 + offset)) }
    else { None }
}

/// What `push name offset` puts on the stack on the Hack VM platform: the word at
/// [`vm_address`], or the offset itself for `constant`.
pub open spec fn vm_pushed(name: Seq<char>, offset: u16, m: Machine) -> Option<u16> {
    if name == "constant"@ {
        Some(offset)
    } else {
        match vm_address(name, offset, m) {
            Some(a) => Some(word(m, a as int)),
            None => None,
        }
    }
}

/// `push name offset`, for every segment name the platform places ([`vm_pushed`]), grows the
/// stack by one word holding what the platform says it pushes: the word of `this` is found
/// through RAM[3], that of `that` through RAM[4], and so on; no other word changes. The offset
/// is below 2^15, as an address instruction holds it, and so are the fixed places of `temp`
/// and `static`.
pub proof fn lemma_push_by_name(name: Seq<char>, offset: u16, m: Machine)
    requires
        vm_pushed(name, offset, m) is Some,
        offset < 0x8000,
        name == "temp"@ ==> 5 + offset < 0x8000,
        name == "static"@ ==> 16 + offset < 0x8000,
        1 <= word(m, 0) < 0xffff,
    ensures
        segment_named(name) matches Some(seg)
            && segment_translation(seg, offset, Stack::Push) matches Translation::Items(s)
            && run(m, s) matches Some(n)
            && n.ram == store(store(m.ram, 0, (word(m, 0) + 1) as u16), word(m, 0) as u16, vm_pushed(name, offset, m)->0),
{
    lemma_segment_names_differ();
    if name == "local"@ {
        lemma_push_command(Segment::Local, offset, m);
    } else if name == "argument"@ {
        lemma_push_command(Segment::Argument, offset, m);
    } else if name == "this"@ {
        lemma_push_command(Segment::This, offset, m);
    } else if name == "that"@ {
        lemma_push_command(Segment::That, offset, m);
    } else if name == "pointer"@ {
    } else if name == "temp"@ {
        lemma_push_command(Segment::Temp, offset, m);
    } else if name == "static"@ {
        lemma_push_command(Segment::Static, offset, m);
    } else if name == "constant"@ {
        lemma_push_command(Segment::Constant, offset, m);
    }
}

/// `pop name offset`, for every segment name the platform places at an address
/// ([`vm_address`]), shrinks the stack by one and writes its old top at that address; only the
/// stack pointer, that word and the old top's place may change. The offset is below 2^15, and
/// so are the fixed places of `temp` and `static`; the address is not the stack pointer's.
pub proof fn lemma_pop_by_name(name: Seq<char>, offset: u16, m: Machine)
    requires
        vm_address(name, offset, m) is Some,
        vm_address(name, offset, m)->0 != 0,
        offset < 0x8000,
        name == "temp"@ ==> 5 + offset < 0x8000,
        name == "static"@ ==> 16 + offset < 0x8000,
        2 <= word(m, 0),
    ensures
        segment_named(name) matches Some(seg)
            && segment_translation(seg, offset, Stack::Pop) matches Translation::Items(s)
            && run(m, s) matches Some(n)
            && word(n, 0) == word(m, 0) - 1
            && word(n, vm_address(name, offset, m)->0 as int) == word(m, word(m, 0) - 1)
            && forall|i: u16| i != 0 && i != vm_address(name, offset, m)->0 && i != word(m, 0)
                ==> #[trigger] (n.ram)(i) == (m.ram)(i),
{
    lemma_segment_names_differ();
    if name == "local"@ {
        lemma_pop_command(Segment::Local, offset, m);
    } else if name == "argument"@ {
        lemma_pop_command(Segment::Argument, offset, m);
    } else if name == "this"@ {
        lemma_pop_command(Segment::This, offset, m);
    } else if name == "that"@ {
        lemma_pop_command(Segment::That, offset, m);
    } else if name == "pointer"@ {
    } else if name == "temp"@ {
        lemma_pop_command(Segment::Temp, offset, m);
    } else if name == "static"@ {
        lemma_pop_command(Segment::Static, offset, m);
    }
}

} // verus!
