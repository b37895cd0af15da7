//! Character classes and scanners the assembly grammar is built from.
use vstd::prelude::*;

verus! {

/// The character classes the assembly grammar scans runs of.
#[derive(Clone, Copy, PartialEq, Eq, Structural)]
pub enum CharClass {
    /// ASCII decimal digits.
    Digit,
    /// ASCII letters and digits, `_`, `.` and `$`: the characters of a symbol.
    Symbol,
    /// `A`, `M`, `D` and space: the characters of a destination.
    Destination,
    /// `A`, `M`, `D`, `+`, `-`, space, `0`, `1`, `|`, `&`: the characters of a computation.
    Computation,
    /// ASCII upper-case letters: the characters of a jump mnemonic.
    Upper,
    /// ASCII letters and digits, and `_`: the characters of an HDL symbol.
    Word,
    /// ASCII letters and digits: the characters of an HDL chip name.
    Alnum,
    /// The computation characters and `!`.
    Expression,
    /// ASCII letters.
    Letter,
}

/// Whether `c` is an ASCII decimal digit.
pub open spec fn is_digit(c: char) -> bool {
    '0' <= c && c <= '9'
}

/// Whether `c` is an ASCII letter.
pub open spec fn is_alpha(c: char) -> bool {
    ('a' <= c && c <= 'z') || ('A' <= c && c <= 'Z')
}

/// Whether `c` belongs to class `k`.
pub open spec fn in_class(k: CharClass, c: char) -> bool {
    match k {
        CharClass::Digit => is_digit(c),
        CharClass::Symbol => is_alpha(c) || is_digit(c) || c == '_' || c == '.' || c == '$',
        CharClass::Destination => c == 'A' || c == 'M' || c == 'D' || c == ' ',
        CharClass::Computation => c == 'A' || c == 'M' || c == 'D' || c == '+' || c == '-' || c
            == ' ' || c == '0' || c == '1' || c == '|' || c == '&',
        CharClass::Upper => 'A' <= c && c <= 'Z',
        CharClass::Word => is_alpha(c) || is_digit(c) || c == '_',
        CharClass::Alnum => is_alpha(c) || is_digit(c),
        CharClass::Expression => c == 'A' || c == 'M' || c == 'D' || c == '+' || c == '-' || c
            == ' ' || c == '0' || c == '1' || c == '|' || c == '&' || c == '!',
        CharClass::Letter => is_alpha(c),
    }
}

/// The end of the longest run of class-`k` characters of `s` starting at `i`.
pub open spec fn run_end(s: Seq<char>, i: int, k: CharClass) -> int
    decreases s.len() - i,
{
    if 0 <= i < s.len() && in_class(k, s[i]) {
        run_end(s, i + 1, k)
    } else {
        i
    }
}

/// Whether a comment (`//` followed by at least one character other than a newline)
/// starts at `i`.
pub open spec fn comment_at(s: Seq<char>, i: int) -> bool {
    0 <= i && i + 2 < s.len() && s[i] == '/' && s[i + 1] == '/' && s[i + 2] != '\n'
}

/// The end of the comment body starting at `i`: the next newline, or the end.
pub open spec fn line_end(s: Seq<char>, i: int) -> int
    decreases s.len() - i,
{
    if 0 <= i < s.len() && s[i] != '\n' {
        line_end(s, i + 1)
    } else {
        i
    }
}

/// The end of the blanks starting at `i`: spaces, tabs and comments, in any order.
pub open spec fn space_end(s: Seq<char>, i: int) -> int
    decreases s.len() - i,
{
    if 0 <= i < s.len() && (s[i] == ' ' || s[i] == '\t') {
        space_end(s, i + 1)
    } else if comment_at(s, i) {
        proof {
            lemma_line_end_bounds(s, i + 2);
        }
        space_end(s, line_end(s, i + 2))
    } else {
        i
    }
}

/// The value of a string of decimal digits.
pub open spec fn dec_value(s: Seq<char>) -> int
    decreases s.len(),
{
    if s.len() == 0 {
        0
    } else {
        dec_value(s.drop_last()) * 10 + (s.last() as int - '0' as int)
    }
}

pub proof fn lemma_run_end_bounds(s: Seq<char>, i: int, k: CharClass)
    requires
        0 <= i <= s.len(),
    ensures
        i <= run_end(s, i, k) <= s.len(),
        forall|j: int| i <= j < run_end(s, i, k) ==> in_class(k, #[trigger] s[j]),
        run_end(s, i, k) < s.len() ==> !in_class(k, s[run_end(s, i, k)]),
    decreases s.len() - i,
{
    if i < s.len() && in_class(k, s[i]) {
        lemma_run_end_bounds(s, i + 1, k);
    }
}

pub proof fn lemma_line_end_bounds(s: Seq<char>, i: int)
    ensures
        0 <= i <= s.len() ==> i <= line_end(s, i) <= s.len(),
    decreases s.len() - i,
{
    if 0 <= i < s.len() && s[i] != '\n' {
        lemma_line_end_bounds(s, i + 1);
    }
}

pub proof fn lemma_space_end_bounds(s: Seq<char>, i: int)
    requires
        0 <= i <= s.len(),
    ensures
        i <= space_end(s, i) <= s.len(),
    decreases s.len() - i,
{
    if i < s.len() && (s[i] == ' ' || s[i] == '\t') {
        lemma_space_end_bounds(s, i + 1);
    } else if comment_at(s, i) {
        lemma_line_end_bounds(s, i + 2);
        lemma_space_end_bounds(s, line_end(s, i + 2));
    }
}

/// Whether `c` belongs to class `k`.
pub fn char_in_class(k: CharClass, c: char) -> (b: bool)
    ensures
        b == in_class(k, c),
{
    match k {
        CharClass::Digit => '0' <= c && c <= '9',
        CharClass::Symbol => ('a' <= c && c <= 'z') || ('A' <= c && c <= 'Z') || ('0' <= c && c
            <= '9') || c == '_' || c == '.' || c == '$',
        CharClass::Destination => c == 'A' || c == 'M' || c == 'D' || c == ' ',
        CharClass::Computation => c == 'A' || c == 'M' || c == 'D' || c == '+' || c == '-' || c
            == ' ' || c == '0' || c == '1' || c == '|' || c == '&',
        CharClass::Upper => 'A' <= c && c <= 'Z',
        CharClass::Word => ('a' <= c && c <= 'z') || ('A' <= c && c <= 'Z') || ('0' <= c && c <= '9') || c == '_',
        CharClass::Alnum => ('a' <= c && c <= 'z') || ('A' <= c && c <= 'Z') || ('0' <= c && c <= '9'),
        CharClass::Expression => c == 'A' || c == 'M' || c == 'D' || c == '+' || c == '-' || c
            == ' ' || c == '0' || c == '1' || c == '|' || c == '&' || c == '!',
        CharClass::Letter => ('a' <= c && c <= 'z') || ('A' <= c && c <= 'Z'),
    }
}

/// The end of the longest run of class-`k` characters of `s` starting at `i`.
pub fn scan_run(s: &[char], i: usize, k: CharClass) -> (e: usize)
    requires
        i <= s@.len(),
    ensures
        e == run_end(s@, i as int, k),
        i <= e <= s@.len(),
{
    proof {
        lemma_run_end_bounds(s@, i as int, k);
    }
    let mut j = i;
    while j < s.len() && char_in_class(k, s[j])
        invariant
            i <= j <= s@.len(),
            run_end(s@, i as int, k) == run_end(s@, j as int, k),
        decreases s@.len() - j,
    {
        j += 1;
    }
    j
}

/// The end of the blanks (spaces, tabs, comments) of `s` starting at `i`.
pub fn skip_space(s: &[char], i: usize) -> (e: usize)
    requires
        i <= s@.len(),
    ensures
        e == space_end(s@, i as int),
        i <= e <= s@.len(),
{
    proof {
        lemma_space_end_bounds(s@, i as int);
    }
    let mut j = i;
    loop
        invariant
            i <= j <= s@.len(),
            space_end(s@, i as int) == space_end(s@, j as int),
        decreases s@.len() - j,
    {
        if j < s.len() && (s[j] == ' ' || s[j] == '\t') {
            j += 1;
        } else if j < s.len() && s.len() - j > 2 && s[j] == '/' && s[j + 1] == '/' && s[j + 2] != '\n' {
            let ghost start = j as int;
            j += 2;
            while j < s.len() && s[j] != '\n'
                invariant
                    start + 2 <= j <= s@.len(),
                    line_end(s@, start + 2) == line_end(s@, j as int),
                decreases s@.len() - j,
            {
                j += 1;
            }
            assert(space_end(s@, start) == space_end(s@, j as int));
        } else {
            return j;
        }
    }
}

/// The characters of `s` from `i` to `j`, as a string.
pub fn string_of(s: &[char], i: usize, j: usize) -> (r: String)
    requires
        i <= j <= s@.len(),
    ensures
        r@ == s@.subrange(i as int, j as int),
{
    let mut r = String::new();
    let mut k = i;
    while k < j
        invariant
            i <= k <= j,
            j <= s@.len(),
            r@ == s@.subrange(i as int, k as int),
        decreases j - k,
    {
        crate::text::string_push(&mut r, s[k]);
        assert(s@.subrange(i as int, k + 1) == s@.subrange(i as int, k as int).push(s@[k as int]));
        k += 1;
    }
    r
}

/// The value of the digits `s[i..j]` when it fits in 16 bits, else `None`.
pub fn digits_value(s: &[char], i: usize, j: usize) -> (r: Option<u16>)
    requires
        i <= j <= s@.len(),
        forall|k: int| i <= k < j ==> is_digit(#[trigger] s@[k]),
    ensures
        r matches Some(v) ==> v == dec_value(s@.subrange(i as int, j as int)),
        r is None <==> dec_value(s@.subrange(i as int, j as int)) > 0xffff,
{
    let mut v: u32 = 0;
    let mut k = i;
    while k < j
        invariant
            i <= k <= j,
            j <= s@.len(),
            forall|m: int| i <= m < j ==> is_digit(#[trigger] s@[m]),
            v == dec_value(s@.subrange(i as int, k as int)),
            v <= 0xffff,
        decreases j - k,
    {
        let d = (s[k] as u32) - ('0' as u32);
        assert(s@.subrange(i as int, k + 1).drop_last() == s@.subrange(i as int, k as int));
        proof {
            let t = s@.subrange(i as int, j as int);
            assert(t.take(k + 1 - i) == s@.subrange(i as int, k + 1));
            lemma_dec_value_grows(t, k + 1 - i);
        }
        if v * 10 + d > 0xffff {
            return None;
        }
        v = v * 10 + d;
        k += 1;
    }
    Some(v as u16)
}

/// A string of digits is worth at least as much as any of its prefixes.
pub proof fn lemma_dec_value_grows(s: Seq<char>, n: int)
    requires
        0 <= n <= s.len(),
        forall|k: int| 0 <= k < s.len() ==> is_digit(#[trigger] s[k]),
    ensures
        dec_value(s.take(n)) <= dec_value(s),
    decreases s.len(),
{
    if n == s.len() {
        assert(s.take(n) == s);
    } else {
        assert(s.drop_last().take(n) == s.take(n));
        lemma_dec_value_grows(s.drop_last(), n);
        lemma_dec_value_nonneg(s.drop_last());
    }
}

pub proof fn lemma_dec_value_nonneg(s: Seq<char>)
    requires
        forall|k: int| 0 <= k < s.len() ==> is_digit(#[trigger] s[k]),
    ensures
        0 <= dec_value(s),
    decreases s.len(),
{
    if s.len() > 0 {
        lemma_dec_value_nonneg(s.drop_last());
    }
}

} // verus!
