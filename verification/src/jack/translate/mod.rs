//! Translating VM commands into Hack assembly items.
use vstd::prelude::*;
use crate::assembler::parse::{find_line_end, lines_from, ws_end};
use crate::assembler::assemble::{hack_text, try_to_vec, words_of, words_to_text};
use crate::assembler::scan::{lemma_line_end_bounds, line_end, string_of};
use crate::assembler::symbol_table::{predefined_map, predefined_values, SymbolTable, TableV};
use crate::assembler::structs::{IdentV, Instruction, InstructionV, Item, ItemV, Program};
use crate::text::{is_whitespace, is_ws, str_to_chars};
use arithmetic::{arithmetic_items, arithmetic_named, Arithmetic};
use emit::items_view;
use crate::assembler::machine::{as_items, execute_all, lemma_assembled_code_runs, run, straight, Machine};
use stack::{outcome_is, stack_named, stack_translation, Outcome, Stack, Translation};

pub mod arithmetic;
pub mod common;
pub mod emit;
pub mod prelude;
pub mod stack;

verus! {

/// The end of the run of characters other than white space starting at `i`.
pub open spec fn word_end(s: Seq<char>, i: int) -> int
    decreases s.len() - i,
{
    if 0 <= i < s.len() && !is_ws(s[i]) {
        word_end(s, i + 1)
    } else {
        i
    }
}

pub proof fn lemma_ws_end_bounds(s: Seq<char>, i: int)
    requires
        0 <= i <= s.len(),
    ensures
        i <= ws_end(s, i) <= s.len(),
        ws_end(s, i) < s.len() ==> !is_ws(s[ws_end(s, i)]),
    decreases s.len() - i,
{
    if i < s.len() && is_ws(s[i]) {
        lemma_ws_end_bounds(s, i + 1);
    }
}

pub proof fn lemma_word_end_bounds(s: Seq<char>, i: int)
    requires
        0 <= i <= s.len(),
    ensures
        i <= word_end(s, i) <= s.len(),
        i < s.len() && !is_ws(s[i]) ==> i < word_end(s, i),
    decreases s.len() - i,
{
    if i < s.len() && !is_ws(s[i]) {
        lemma_word_end_bounds(s, i + 1);
    }
}

/// The white-space separated words of `s` from position `i` on.
pub open spec fn words_from(s: Seq<char>, i: int) -> Seq<Seq<char>>
    decreases s.len() - i,
{
    if i < 0 || i > s.len() {
        seq![]
    } else {
        let j = ws_end(s, i);
        proof {
            lemma_ws_end_bounds(s, i);
        }
        if j >= s.len() {
            seq![]
        } else {
            let e = word_end(s, j);
            proof {
                lemma_word_end_bounds(s, j);
            }
            seq![s.subrange(j, e)] + words_from(s, e)
        }
    }
}

/// The translation of a command given as its words.
pub open spec fn translate_words(w: Seq<Seq<char>>) -> Translation {
    if w.len() == 0 {
        Translation::Rejected
    } else {
        match arithmetic_named(w[0]) {
            Some(op) => Translation::Items(arithmetic_items(op)),
            None => match stack_named(w[0]) {
                Some(st) => stack_translation(st, w.drop_first()),
                None => Translation::Aborts,
            },
        }
    }
}

/// Where the comment of a line starts (its first `//`), or the line's end.
pub open spec fn comment_start(l: Seq<char>, i: int) -> int
    decreases l.len() - i,
{
    if i < 0 || i + 1 >= l.len() {
        l.len() as int
    } else if l[i] == '/' && l[i + 1] == '/' {
        i
    } else {
        comment_start(l, i + 1)
    }
}

/// The words of a line without its comment.
pub open spec fn line_words(l: Seq<char>) -> Seq<Seq<char>> {
    words_from(l.take(comment_start(l, 0)), 0)
}

/// The translation of the lines in order: each line's command, lines without one or with a
/// refused one giving nothing.
pub open spec fn lines_translation(lines: Seq<Seq<char>>) -> Translation
    decreases lines.len(),
{
    if lines.len() == 0 {
        Translation::Items(seq![])
    } else {
        let w = line_words(lines[0]);
        let here = if w.len() == 0 { Translation::Rejected } else { translate_words(w) };
        match here {
            Translation::Aborts => Translation::Aborts,
            Translation::Rejected => lines_translation(lines.drop_first()),
            Translation::Items(s) => match lines_translation(lines.drop_first()) {
                Translation::Items(t) => Translation::Items(s + t),
                other => other,
            },
        }
    }
}

/// The translation of a whole program text.
pub open spec fn program_translation(text: Seq<char>) -> Translation {
    lines_translation(lines_from(text, 0))
}

/// The words of `s`, split at white space.
pub fn split_words(s: &[char]) -> (r: Vec<String>)
    ensures
        r@.map_values(|w: String| w@) == words_from(s@, 0),
{
    let mut r: Vec<String> = Vec::new();
    let mut i: usize = 0;
    while i < s.len()
        invariant
            i <= s@.len(),
            words_from(s@, 0) == r@.map_values(|w: String| w@) + words_from(s@, i as int),
        decreases s@.len() - i,
    {
        proof {
            lemma_ws_end_bounds(s@, i as int);
        }
        let mut j = i;
        while j < s.len() && is_whitespace(s[j])
            invariant
                i <= j <= s@.len(),
                ws_end(s@, i as int) == ws_end(s@, j as int),
            decreases s@.len() - j,
        {
            j += 1;
        }
        if j >= s.len() {
            assert(words_from(s@, i as int) == Seq::<Seq<char>>::empty());
            assert(r@.map_values(|w: String| w@) + Seq::<Seq<char>>::empty() == r@.map_values(|w: String| w@));
            return r;
        }
        proof {
            lemma_word_end_bounds(s@, j as int);
        }
        let mut e = j;
        while e < s.len() && !is_whitespace(s[e])
            invariant
                j <= e <= s@.len(),
                word_end(s@, j as int) == word_end(s@, e as int),
            decreases s@.len() - e,
        {
            e += 1;
        }
        let ghost before = r@.map_values(|w: String| w@);
        r.push(string_of(s, j, e));
        proof {
            assert(r@.map_values(|w: String| w@) == before.push(s@.subrange(j as int, e as int)));
            assert(words_from(s@, i as int) == seq![s@.subrange(j as int, e as int)] + words_from(s@, e as int));
            assert(before + (seq![s@.subrange(j as int, e as int)] + words_from(s@, e as int)) == before.push(s@.subrange(j as int, e as int)) + words_from(s@, e as int));
        }
        i = e;
    }
    assert(words_from(s@, i as int) == Seq::<Seq<char>>::empty());
    assert(r@.map_values(|w: String| w@) + Seq::<Seq<char>>::empty() == r@.map_values(|w: String| w@));
    r
}

/// Translates one command given as its words, telling when its translation is not provided.
pub fn translate_words_checked(words: &Vec<String>) -> (r: Outcome)
    ensures
        outcome_is(r, translate_words(words@.map_values(|w: String| w@))),
{
    let ghost ws = words@.map_values(|w: String| w@);
    if words.len() == 0 {
        return Outcome::Rejected;
    }
    if let Some(op) = Arithmetic::from_name(words[0].as_str()) {
        Outcome::Items(op.translate())
    } else if let Some(stack_access) = Stack::from_name(words[0].as_str()) {
        let mut rest: Vec<String> = Vec::new();
        let mut k: usize = 1;
        while k < words.len()
            invariant
                1 <= k <= words@.len(),
                ws == words@.map_values(|w: String| w@),
                rest@.map_values(|w: String| w@) == ws.subrange(1, k as int),
            decreases words@.len() - k,
        {
            let ghost before = rest@.map_values(|w: String| w@);
            let w = words[k].clone();
            assert(w@ == ws[k as int]);
            rest.push(w);
            assert(rest@.map_values(|w: String| w@) =~= before.push(ws[k as int]));
            assert(ws.subrange(1, k + 1) =~= ws.subrange(1, k as int).push(ws[k as int]));
            k += 1;
        }
        assert(ws.subrange(1, ws.len() as int) == ws.drop_first());
        stack_access.translate_checked(rest.as_slice())
    } else {
        Outcome::Aborts
    }
}

/// Translates one command: an arithmetic command, or `push`/`pop` with a segment and an
/// offset. Later words are ignored.
pub fn translate_instruction(instruction: &str) -> (r: Result<Vec<Item>, ()>)
    requires
        !(translate_words(words_from(instruction@, 0)) is Aborts),
    ensures
        match translate_words(words_from(instruction@, 0)) {
            Translation::Items(s) => r matches Ok(v) && items_view(v@) == s,
            _ => r is Err,
        },
{
    let chars = str_to_chars(instruction);
    let words = split_words(chars.as_slice());
    match translate_words_checked(&words) {
        Outcome::Items(v) => Ok(v),
        _ => Err(()),
    }
}

/// Where the comment of `l` starts, or its end.
fn find_comment(l: &[char]) -> (p: usize)
    ensures
        p == comment_start(l@, 0),
        p <= l@.len(),
{
    let mut i: usize = 0;
    while l.len() - i > 1
        invariant
            i <= l@.len(),
            comment_start(l@, 0) == comment_start(l@, i as int),
        decreases l@.len() - i,
    {
        if l[i] == '/' && l[i + 1] == '/' {
            return i;
        }
        i += 1;
    }
    l.len()
}

/// Translates a program, or gives `None` when a command's translation is not provided
/// (an unknown command, a `pointer` access, an address beyond 16 bits).
pub fn translate_checked(program: &str) -> (r: Option<Vec<Item>>)
    ensures
        match program_translation(program@) {
            Translation::Items(s) => r matches Some(v) && items_view(v@) == s,
            _ => r is None,
        },
{
    let chars = str_to_chars(program);
    let s = chars.as_slice();
    let mut out: Vec<Item> = Vec::new();
    let mut i: usize = 0;
    loop
        invariant
            i <= s@.len(),
            s@ == program@,
            program_translation(program@) == match lines_translation(lines_from(s@, i as int)) {
                Translation::Items(t) => Translation::Items(items_view(out@) + t),
                other => other,
            },
        decreases s@.len() - i,
    {
        let e = find_line_end(s, i);
        let line = &s[i..e];
        let ghost rest = if e >= s@.len() { Seq::<Seq<char>>::empty() } else { lines_from(s@, e + 1) };
        assert(lines_from(s@, i as int) == seq![line@] + rest);
        assert((seq![line@] + rest).drop_first() == rest);
        assert((seq![line@] + rest)[0] == line@);
        let p = find_comment(line);
        let part = &line[0..p];
        assert(part@ == line@.take(p as int));
        let words = split_words(part);
        let ghost w = line_words(line@);
        assert(words@.map_values(|x: String| x@) == w);
        let ghost t_rest = lines_translation(rest);
        if words.len() > 0 {
            match translate_words_checked(&words) {
                Outcome::Aborts => return None,
                Outcome::Rejected => {},
                Outcome::Items(mut items) => {
                    let ghost before = items_view(out@);
                    let ghost added = items_view(items@);
                    out.append(&mut items);
                    assert(items_view(out@) =~= before + added);
                    proof {
                        if let Translation::Items(t) = t_rest {
                            assert(before + (added + t) =~= (before + added) + t);
                        }
                    }
                },
            }
        }
        if e >= s.len() {
            assert(lines_translation(rest) == Translation::Items(seq![]));
            assert(items_view(out@) + Seq::<ItemV>::empty() == items_view(out@));
            return Some(out);
        }
        i = e + 1;
    }
}

/// The instructions among `items`, in order.
pub open spec fn instructions_among(items: Seq<ItemV>) -> Seq<InstructionV>
    decreases items.len(),
{
    if items.len() == 0 {
        seq![]
    } else {
        match items[0] {
            ItemV::Instruction(i) => seq![i] + instructions_among(items.drop_first()),
            ItemV::Label(_) => instructions_among(items.drop_first()),
        }
    }
}

/// The program made of the instructions among `items`, label declarations dropped.
pub fn program_of(items: Vec<Item>) -> (p: Program)
    ensures
        p@ == instructions_among(items_view(items@)),
{
    let ghost iv = items_view(items@);
    let mut src = items;
    let mut out: Vec<Instruction> = Vec::new();
    while src.len() > 0
        invariant
            instructions_among(iv) == out@.map_values(|x: Instruction| x@) + instructions_among(items_view(src@)),
        decreases src@.len(),
    {
        let ghost before = items_view(src@);
        let ghost done = out@.map_values(|x: Instruction| x@);
        let it = src.remove(0);
        assert(items_view(src@) == before.drop_first());
        match it {
            Item::Instruction(x) => {
                out.push(x);
                assert(out@.map_values(|x: Instruction| x@) == done.push(before[0]->Instruction_0));
                assert(done.push(before[0]->Instruction_0) + instructions_among(before.drop_first())
                    == done + (seq![before[0]->Instruction_0] + instructions_among(before.drop_first())));
            },
            Item::Label(_) => {},
        }
    }
    assert(out@.map_values(|x: Instruction| x@) + Seq::<InstructionV>::empty() == out@.map_values(|x: Instruction| x@));
    Program(out)
}

/// A program is never refused as a whole: it translates, or a command's translation is not
/// provided.
pub proof fn lemma_lines_never_rejected(lines: Seq<Seq<char>>)
    ensures
        !(lines_translation(lines) is Rejected),
    decreases lines.len(),
{
    if lines.len() > 0 {
        lemma_lines_never_rejected(lines.drop_first());
    }
}

/// Translates a program: each line's command (text after `//` is a comment), lines without a
/// command or with a refused one giving nothing. Every command's translation must be
/// provided (see [`translate_checked`]).
pub fn translate(program: &str) -> (r: Vec<Item>)
    requires
        !(program_translation(program@) is Aborts),
    ensures
        match program_translation(program@) {
            Translation::Items(s) => items_view(r@) == s,
            _ => false,
        },
{
    proof {
        lemma_lines_never_rejected(lines_from(program@, 0));
    }
    match translate_checked(program) {
        Some(v) => v,
        None => Vec::new(),
    }
}

/// The translation of one text followed by the translation of another.
pub open spec fn then_translation(x: Translation, y: Translation) -> Translation {
    match x {
        Translation::Items(s) => match y {
            Translation::Items(t) => Translation::Items(s + t),
            other => other,
        },
        other => other,
    }
}

proof fn lemma_line_end_prefix(a: Seq<char>, b: Seq<char>, i: int)
    requires
        0 <= i <= a.len(),
    ensures
        line_end(a + seq!['\n'] + b, i) == line_end(a, i),
    decreases a.len() - i,
{
    let c = a + seq!['\n'] + b;
    if i < a.len() {
        assert(c[i] == a[i]);
        if a[i] != '\n' {
            lemma_line_end_prefix(a, b, i + 1);
        }
    } else {
        assert(c[i] == '\n');
    }
}

proof fn lemma_line_end_shift(p: Seq<char>, b: Seq<char>, j: int)
    requires
        0 <= j <= b.len(),
    ensures
        line_end(p + b, p.len() + j) == p.len() + line_end(b, j),
    decreases b.len() - j,
{
    if j < b.len() {
        assert((p + b)[p.len() + j] == b[j]);
        if b[j] != '\n' {
            lemma_line_end_shift(p, b, j + 1);
        }
    }
}

proof fn lemma_lines_shift(p: Seq<char>, b: Seq<char>, j: int)
    requires
        0 <= j <= b.len(),
    ensures
        lines_from(p + b, p.len() + j) == lines_from(b, j),
    decreases b.len() - j,
{
    let c = p + b;
    lemma_line_end_shift(p, b, j);
    lemma_line_end_bounds(b, j);
    let e = line_end(b, j);
    if e >= b.len() {
        assert(c.subrange(p.len() + j, c.len() as int) =~= b.subrange(j, b.len() as int));
    } else {
        assert(c.subrange(p.len() + j, p.len() + e) =~= b.subrange(j, e));
        lemma_lines_shift(p, b, e + 1);
    }
}

proof fn lemma_lines_join(a: Seq<char>, b: Seq<char>, i: int)
    requires
        0 <= i <= a.len(),
    ensures
        lines_from(a + seq!['\n'] + b, i) == lines_from(a, i) + lines_from(b, 0),
    decreases a.len() - i,
{
    let c = a + seq!['\n'] + b;
    lemma_line_end_prefix(a, b, i);
    lemma_line_end_bounds(a, i);
    let e = line_end(a, i);
    assert(c.subrange(i, e) =~= a.subrange(i, e));
    if e >= a.len() {
        let p = a + seq!['\n'];
        assert(c == p + b);
        lemma_lines_shift(p, b, 0);
        assert(a.subrange(i, a.len() as int) == a.subrange(i, e));
        assert(lines_from(c, i) == seq![c.subrange(i, e)] + lines_from(c, e + 1));
        assert(seq![a.subrange(i, e)] + lines_from(b, 0) =~= seq![a.subrange(i, a.len() as int)] + lines_from(b, 0));
    } else {
        lemma_lines_join(a, b, e + 1);
        assert(seq![a.subrange(i, e)] + (lines_from(a, e + 1) + lines_from(b, 0)) =~= (seq![a.subrange(i, e)] + lines_from(a, e + 1)) + lines_from(b, 0));
    }
}

proof fn lemma_lines_translation_concat(l1: Seq<Seq<char>>, l2: Seq<Seq<char>>)
    ensures
        lines_translation(l1 + l2) == then_translation(lines_translation(l1), lines_translation(l2)),
    decreases l1.len(),
{
    if l1.len() == 0 {
        assert(l1 + l2 =~= l2);
        lemma_lines_never_rejected(l2);
        if let Translation::Items(t) = lines_translation(l2) {
            assert(Seq::<ItemV>::empty() + t =~= t);
        }
    } else {
        assert((l1 + l2).drop_first() =~= l1.drop_first() + l2);
        assert((l1 + l2)[0] == l1[0]);
        lemma_lines_translation_concat(l1.drop_first(), l2);
        lemma_lines_never_rejected(l1.drop_first());
        lemma_lines_never_rejected(l2);
        let w = line_words(l1[0]);
        let here = if w.len() == 0 { Translation::Rejected } else { translate_words(w) };
        if let Translation::Items(s) = here {
            if let Translation::Items(t1) = lines_translation(l1.drop_first()) {
                if let Translation::Items(t2) = lines_translation(l2) {
                    assert(s + (t1 + t2) =~= (s + t1) + t2);
                }
            }
        }
    }
}

/// Each line is translated on its own: the translation of two texts joined by a newline is
/// the translation of the first followed by that of the second (a command whose translation
/// is not provided, in either, makes the whole lack one).
pub proof fn lemma_translation_by_lines(a: Seq<char>, b: Seq<char>)
    ensures
        program_translation(a + seq!['\n'] + b) == then_translation(program_translation(a), program_translation(b)),
{
    lemma_lines_join(a, b, 0);
    lemma_lines_translation_concat(lines_from(a, 0), lines_from(b, 0));
}

/// Whether an item is an instruction with a numeric address or a compute instruction.
pub open spec fn plain_item(x: ItemV) -> bool {
    ||| x matches ItemV::Instruction(InstructionV::A(IdentV::Addr(_)))
    ||| x matches ItemV::Instruction(InstructionV::C { .. })
}

/// Whether all items are plain.
pub open spec fn plain(items: Seq<ItemV>) -> bool {
    forall|k: int| 0 <= k < items.len() ==> #[trigger] plain_item(items[k])
}

proof fn lemma_plain_concat(a: Seq<ItemV>, b: Seq<ItemV>)
    requires
        plain(a),
        plain(b),
    ensures
        plain(a + b),
{
    assert forall|k: int| 0 <= k < (a + b).len() implies #[trigger] plain_item((a + b)[k]) by {
        if k < a.len() {
            assert((a + b)[k] == a[k]);
        } else {
            assert((a + b)[k] == b[k - a.len()]);
        }
    }
}

proof fn lemma_words_plain(w: Seq<Seq<char>>)
    ensures
        translate_words(w) matches Translation::Items(s) ==> plain(s),
{
    if w.len() > 0 {
        match arithmetic_named(w[0]) {
            Some(op) => {
                let s = arithmetic_items(op);
                assert forall|k: int| 0 <= k < s.len() implies #[trigger] plain_item(s[k]) by {
                }
            },
            None => match stack_named(w[0]) {
                Some(st) => {
                    if let Translation::Items(s) = stack_translation(st, w.drop_first()) {
                        assert forall|k: int| 0 <= k < s.len() implies #[trigger] plain_item(s[k]) by {
                        }
                    }
                },
                None => {},
            },
        }
    }
}

proof fn lemma_lines_plain(lines: Seq<Seq<char>>)
    ensures
        lines_translation(lines) matches Translation::Items(s) ==> plain(s),
    decreases lines.len(),
{
    if lines.len() > 0 {
        let w = line_words(lines[0]);
        lemma_words_plain(w);
        lemma_lines_plain(lines.drop_first());
        let here = if w.len() == 0 { Translation::Rejected } else { translate_words(w) };
        if let Translation::Items(a) = here {
            if let Translation::Items(b) = lines_translation(lines.drop_first()) {
                lemma_plain_concat(a, b);
            }
        }
    }
}

/// Whether every instruction has a numeric address or computes.
pub open spec fn plain_instructions(instrs: Seq<InstructionV>) -> bool {
    forall|k: int| 0 <= k < instrs.len() ==> (#[trigger] instrs[k] matches InstructionV::A(IdentV::Addr(_)))
        || instrs[k] is C
}

proof fn lemma_among_plain(items: Seq<ItemV>)
    requires
        plain(items),
    ensures
        plain_instructions(instructions_among(items)),
    decreases items.len(),
{
    if items.len() > 0 {
        let rest = items.drop_first();
        assert forall|k: int| 0 <= k < rest.len() implies #[trigger] plain_item(rest[k]) by {
            assert(rest[k] == items[k + 1]);
        }
        lemma_among_plain(rest);
        assert(plain_item(items[0]));
        if let ItemV::Instruction(i) = items[0] {
            let r = instructions_among(rest);
            assert forall|k: int| 0 <= k < (seq![i] + r).len() implies (#[trigger] (seq![i] + r)[k] matches InstructionV::A(IdentV::Addr(_)))
                || (seq![i] + r)[k] is C by {
                if k > 0 {
                    assert((seq![i] + r)[k] == r[k - 1]);
                }
            }
        }
    }
}

proof fn lemma_words_of_plain(st: TableV, instrs: Seq<InstructionV>)
    requires
        plain_instructions(instrs),
    ensures
        words_of(st, instrs) is Some,
        words_of(st, instrs) matches Some((_, st2)) ==> st2 == st,
    decreases instrs.len(),
{
    if instrs.len() > 0 {
        let prev = instrs.drop_last();
        assert forall|k: int| 0 <= k < prev.len() implies (#[trigger] prev[k] matches InstructionV::A(IdentV::Addr(_)))
            || prev[k] is C by {
            assert(prev[k] == instrs[k]);
        }
        lemma_words_of_plain(st, prev);
        assert(instrs[instrs.len() - 1] == instrs.last());
    }
}

/// The `.hack` text of a VM program, translated and assembled with the predefined symbols;
/// `None` when a command's translation is not provided.
pub fn compile(program: &str) -> (r: Option<String>)
    ensures
        match program_translation(program@) {
            Translation::Items(s) => r matches Some(t) && t@ == hack_text((words_of(initial_table(), instructions_among(s))->0).0),
            _ => r is None,
        },
{
    let items = match translate_checked(program) {
        Some(v) => v,
        None => return None,
    };
    let ghost s = items_view(items@);
    proof {
        lemma_lines_plain(lines_from(program@, 0));
        lemma_among_plain(s);
    }
    let p = program_of(items);
    let mut table = SymbolTable::new();
    proof {
        assert(table.state() == initial_table());
        lemma_words_of_plain(table.state(), p@);
        assert forall|k: int| 0 <= k < p@.len() implies !(#[trigger] p@[k] is Label) by {
            assert(p@[k] matches InstructionV::A(IdentV::Addr(_)) || p@[k] is C);
        }
    }
    match try_to_vec(&mut table, &p) {
        Some(words) => Some(words_to_text(&words)),
        None => None,
    }
}

/// The state of a fresh symbol table.
pub open spec fn initial_table() -> TableV {
    TableV { symbols: predefined_map(), values: predefined_values(), next_ram: 0 }
}

/// Whether no item declares a label.
pub open spec fn no_label_items(s: Seq<ItemV>) -> bool {
    forall|k: int| 0 <= k < s.len() ==> (#[trigger] s[k]) is Instruction
}

/// Items that declare no label are their instructions.
proof fn lemma_instructions_of_plain(s: Seq<ItemV>)
    requires
        no_label_items(s),
    ensures
        as_items(instructions_among(s)) == s,
    decreases s.len(),
{
    if s.len() > 0 {
        assert(s[0] is Instruction);
        assert(no_label_items(s.drop_first())) by {
            assert forall|k: int| 0 <= k < s.drop_first().len() implies (#[trigger] s.drop_first()[k]) is Instruction by {
                assert(s.drop_first()[k] == s[k + 1]);
            }
        }
        lemma_instructions_of_plain(s.drop_first());
        let i = s[0]->Instruction_0;
        assert(as_items(seq![i] + instructions_among(s.drop_first())) =~= seq![ItemV::Instruction(i)] + as_items(instructions_among(s.drop_first())));
        assert(seq![ItemV::Instruction(i)] + s.drop_first() =~= s);
    } else {
        assert(as_items(instructions_among(s)) =~= s);
    }
}

/// Whether an item is an address instruction with a number or a computation without a jump.
pub open spec fn straight_item(it: ItemV) -> bool {
    match it {
        ItemV::Instruction(InstructionV::A(IdentV::Addr(_))) => true,
        ItemV::Instruction(InstructionV::C { dst, jump, .. }) => jump is Never && dst < 8,
        _ => false,
    }
}

/// Whether every item runs straight through.
pub open spec fn all_straight(s: Seq<ItemV>) -> bool {
    forall|k: int| 0 <= k < s.len() ==> straight_item(#[trigger] s[k])
}

/// Joining straight items gives straight items.
proof fn lemma_straight_concat(s: Seq<ItemV>, t: Seq<ItemV>)
    requires
        all_straight(s),
        all_straight(t),
    ensures
        all_straight(s + t),
{
    assert forall|k: int| 0 <= k < (s + t).len() implies straight_item(#[trigger] (s + t)[k]) by {
        if k < s.len() {
            assert((s + t)[k] == s[k]);
        } else {
            assert((s + t)[k] == t[k - s.len()]);
        }
    }
}

/// Every command's translation runs straight through.
proof fn lemma_command_straight(w: Seq<Seq<char>>)
    ensures
        translate_words(w) matches Translation::Items(s) ==> all_straight(s),
{
    if w.len() > 0 {
        match arithmetic_named(w[0]) {
            Some(op) => {
                let s = arithmetic_items(op);
                assert forall|k: int| 0 <= k < s.len() implies straight_item(#[trigger] s[k]) by {
                }
            },
            None => match stack_named(w[0]) {
                Some(st) => {
                    if let Translation::Items(s) = stack_translation(st, w.drop_first()) {
                        assert forall|k: int| 0 <= k < s.len() implies straight_item(#[trigger] s[k]) by {
                        }
                    }
                },
                None => {},
            },
        }
    }
}

/// Every translated program runs straight through.
proof fn lemma_lines_straight(lines: Seq<Seq<char>>)
    ensures
        lines_translation(lines) matches Translation::Items(s) ==> all_straight(s),
    decreases lines.len(),
{
    if lines.len() > 0 {
        lemma_lines_straight(lines.drop_first());
        lemma_command_straight(line_words(lines[0]));
        let w = line_words(lines[0]);
        if w.len() > 0 {
            if let Translation::Items(s) = translate_words(w) {
                if let Translation::Items(t) = lines_translation(lines.drop_first()) {
                    lemma_straight_concat(s, t);
                }
            }
        }
    }
}

/// The machine words a program compiles to, run on the Hack computer, do what its
/// translation does.
pub proof fn lemma_compiled_program_runs(program: Seq<char>, m: Machine)
    requires
        program_translation(program) is Items,
    ensures
        words_of(initial_table(), instructions_among(program_translation(program)->Items_0)) matches Some((ws, _))
            && run(m, program_translation(program)->Items_0) == Some(execute_all(m, ws)),
{
    let s = program_translation(program)->Items_0;
    lemma_lines_straight(lines_from(program, 0));
    assert(no_label_items(s)) by {
        assert forall|k: int| 0 <= k < s.len() implies (#[trigger] s[k]) is Instruction by {
            assert(straight_item(s[k]));
        }
    }
    lemma_instructions_of_plain(s);
    let instrs = instructions_among(s);
    assert(straight(instrs)) by {
        assert forall|k: int| 0 <= k < instrs.len() implies match #[trigger] instrs[k] {
            InstructionV::A(IdentV::Addr(_)) => true,
            InstructionV::C { dst, jump, .. } => jump is Never && dst < 8,
            _ => false,
        } by {
            assert(as_items(instrs)[k] == s[k]);
            assert(straight_item(s[k]));
        }
    }
    lemma_assembled_code_runs(m, initial_table(), instrs);
}

} // verus!
