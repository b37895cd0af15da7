//! Errors the assembler reports.
use vstd::prelude::*;
use crate::text::string_push;

verus! {

/// Which grammar rule failed, for errors the assembler cannot explain further.
#[derive(Debug, Clone, Copy, PartialEq, Eq, Structural)]
pub enum ErrorKind {
    Tag,
    Char,
    IsA,
    IsNot,
    TakeWhile1,
    Digit,
    AlphaNumeric,
    Space,
    Alt,
    Many0,
    Many1,
}

/// What went wrong while assembling.
#[derive(Debug, PartialEq)]
pub enum AssemblyError {
    InvalidIdentifier,
    InvalidCExpr,
    Incomplete,
    /// A grammar rule failed on the given remaining input; the rule it was nested in, if any,
    /// failed first.
    Internal(String, ErrorKind, Option<Box<AssemblyError>>),
}

/// Abstract form of an [`AssemblyError`].
pub enum AssemblyErrorV {
    InvalidIdentifier,
    InvalidCExpr,
    Incomplete,
    Internal(Seq<char>, ErrorKind, Option<Box<AssemblyErrorV>>),
}

impl View for AssemblyError {
    type V = AssemblyErrorV;

    open spec fn view(&self) -> AssemblyErrorV
        decreases self,
    {
        match self {
            AssemblyError::InvalidIdentifier => AssemblyErrorV::InvalidIdentifier,
            AssemblyError::InvalidCExpr => AssemblyErrorV::InvalidCExpr,
            AssemblyError::Incomplete => AssemblyErrorV::Incomplete,
            AssemblyError::Internal(s, k, None) => AssemblyErrorV::Internal(s@, *k, None),
            AssemblyError::Internal(s, k, Some(inner)) => AssemblyErrorV::Internal(
                s@,
                *k,
                Some(Box::new((**inner).view())),
            ),
        }
    }
}

/// The innermost error of a chain of nested grammar failures.
pub open spec fn raised(e: AssemblyErrorV) -> AssemblyErrorV
    decreases e,
{
    match e {
        AssemblyErrorV::Internal(_, _, Some(inner)) => raised(*inner),
        _ => e,
    }
}

/// The error a grammar rule reports for the remaining input `rest`.
pub open spec fn internal(rest: Seq<char>, k: ErrorKind) -> AssemblyErrorV {
    AssemblyErrorV::Internal(rest, k, None)
}

/// The error of a symbol that starts with no symbol character: the run of symbol characters
/// was empty, so each alternative failed, so the repetition failed.
pub open spec fn symbol_error(rest: Seq<char>) -> AssemblyErrorV {
    AssemblyErrorV::Internal(
        rest,
        ErrorKind::Many1,
        Some(
            Box::new(
                AssemblyErrorV::Internal(
                    rest,
                    ErrorKind::Alt,
                    Some(Box::new(AssemblyErrorV::Internal(rest, ErrorKind::IsA, None))),
                ),
            ),
        ),
    )
}

impl AssemblyError {
    /// The innermost error of a chain of nested grammar failures.
    pub fn raise(self) -> (r: Self)
        ensures
            r@ == raised(self@),
        decreases self,
    {
        match self {
            Self::Internal(_, _, Some(inner)) => (*inner).raise(),
            x => x,
        }
    }

    /// The message that describes this error to a user.
    pub fn message(&self) -> (m: String)
        ensures
            m@ == error_message(self@),
    {
        match self {
            Self::InvalidIdentifier => String::from_str(
                "A problem was encountered while parsing an identifier",
            ),
            Self::InvalidCExpr => String::from_str(
                "A problem was detected while parsing a compute instruction",
            ),
            _ => String::from_str("The assembler had an internal problem -- please report"),
        }
    }
}

/// The message that describes an error to a user.
pub open spec fn error_message(e: AssemblyErrorV) -> Seq<char> {
    match e {
        AssemblyErrorV::InvalidIdentifier => "A problem was encountered while parsing an identifier"@,
        AssemblyErrorV::InvalidCExpr => "A problem was detected while parsing a compute instruction"@,
        _ => "The assembler had an internal problem -- please report"@,
    }
}

/// How many bytes `c` takes in UTF-8.
pub open spec fn utf8_width(c: char) -> int {
    vstd::utf8::encode_scalar(c as u32).len() as int
}

/// How many bytes `c` takes in UTF-8.
pub fn char_width(c: char) -> (n: usize)
    ensures
        n == utf8_width(c),
        1 <= n <= 4,
{
    let v = c as u32;
    proof {
        vstd::utf8::char_is_scalar(c);
    }
    if v < 0x80 {
        1
    } else if v < 0x800 {
        2
    } else if v < 0x10000 {
        3
    } else {
        4
    }
}

/// How a character shows in a one-line excerpt: newlines become commas, carriage returns
/// vanish.
pub open spec fn excerpt_piece(c: char) -> Seq<char> {
    if c == '\n' {
        seq![',']
    } else if c == '\r' {
        seq![]
    } else {
        seq![c]
    }
}

/// How many bytes [`excerpt_piece`] of `c` takes.
pub open spec fn excerpt_piece_len(c: char) -> int {
    if c == '\n' {
        1
    } else if c == '\r' {
        0
    } else {
        utf8_width(c)
    }
}

/// The pieces of the characters of `s`, as long as the bytes taken so far stay below `budget`.
pub open spec fn excerpt_prefix(s: Seq<char>, budget: int) -> Seq<char>
    decreases s.len(),
{
    if s.len() == 0 {
        seq![]
    } else if excerpt_piece_len(s[0]) < budget {
        excerpt_piece(s[0]) + excerpt_prefix(s.drop_first(), budget - excerpt_piece_len(s[0]))
    } else {
        seq![]
    }
}

/// The context shown with an error: the start of the input on one line, at most about
/// twenty bytes, with `...` when the input is longer than twenty bytes.
pub open spec fn legible(s: Seq<char>) -> Seq<char> {
    excerpt_prefix(s, 20) + if vstd::utf8::encode_utf8(s).len() > 20 {
        "..."@
    } else {
        seq![]
    }
}

proof fn lemma_excerpt_step(s: Seq<char>, i: int, budget: int)
    requires
        0 <= i < s.len(),
        excerpt_piece_len(s[i]) < budget,
    ensures
        excerpt_prefix(s.skip(i), budget) == excerpt_piece(s[i]) + excerpt_prefix(
            s.skip(i + 1),
            budget - excerpt_piece_len(s[i]),
        ),
{
    assert(s.skip(i).drop_first() == s.skip(i + 1));
}

proof fn lemma_encode_utf8_skip(s: Seq<char>, i: int)
    requires
        0 <= i < s.len(),
    ensures
        vstd::utf8::encode_utf8(s.skip(i)).len() == utf8_width(s[i]) + vstd::utf8::encode_utf8(
            s.skip(i + 1),
        ).len(),
{
    assert(s.skip(i).drop_first() == s.skip(i + 1));
}

/// Whether `chars` takes more than `limit` bytes in UTF-8.
fn longer_than(chars: &Vec<char>, limit: usize) -> (b: bool)
    ensures
        b == (vstd::utf8::encode_utf8(chars@).len() > limit),
{
    let mut total: usize = 0;
    let mut i: usize = 0;
    assert(chars@.skip(0) == chars@);
    while i < chars.len()
        invariant
            i <= chars@.len(),
            total <= limit,
            vstd::utf8::encode_utf8(chars@).len() == total + vstd::utf8::encode_utf8(chars@.skip(i as int)).len(),
        decreases chars@.len() - i,
    {
        let w = char_width(chars[i]);
        proof {
            lemma_encode_utf8_skip(chars@, i as int);
        }
        if w > limit - total {
            return true;
        }
        total = total + w;
        i += 1;
    }
    assert(chars@.skip(i as int).len() == 0);
    false
}

/// The start of `s` shown on one line (newlines as commas, carriage returns dropped) within
/// twenty bytes, followed by `...` when `s` is longer than twenty bytes.
pub fn legible_string(s: &str) -> (r: String)
    ensures
        r@ == legible(s@),
{
    let chars = crate::text::str_to_chars(s);
    let mut out = String::new();
    let mut len: usize = 0;
    let mut i: usize = 0;
    assert(chars@.skip(0) == chars@);
    assert(out@ + excerpt_prefix(chars@.skip(0), 20) == excerpt_prefix(chars@, 20));
    while i < chars.len()
        invariant
            i <= chars@.len(),
            chars@ == s@,
            len < 20,
            out@ + excerpt_prefix(chars@.skip(i as int), 20 - len) == excerpt_prefix(chars@, 20),
        ensures
            out@ == excerpt_prefix(chars@, 20),
        decreases chars@.len() - i,
    {
        let c = chars[i];
        let w: usize = if c == '\n' {
            1
        } else if c == '\r' {
            0
        } else {
            char_width(c)
        };
        if len + w >= 20 {
            proof {
                assert(chars@.skip(i as int)[0] == c);
                assert(excerpt_prefix(chars@.skip(i as int), 20 - len) == Seq::<char>::empty());
                assert(out@ + Seq::<char>::empty() == out@);
            }
            break;
        }
        proof {
            lemma_excerpt_step(chars@, i as int, 20 - len);
        }
        if c == '\n' {
            string_push(&mut out, ',');
        } else if c != '\r' {
            string_push(&mut out, c);
        }
        proof {
            assert(out@ + excerpt_prefix(chars@.skip(i + 1), 20 - len - w) == excerpt_prefix(chars@, 20));
        }
        len = len + w;
        i += 1;
    }
    if longer_than(&chars, 20) {
        out.append("...");
    }
    out
}

/// The start of `s`, at most two hundred characters, with newlines and carriage returns
/// written as escapes, followed by `...` when `s` is longer than two hundred bytes.
pub open spec fn escaped(s: Seq<char>) -> Seq<char> {
    escaped_prefix(s.take(if s.len() < 200 { s.len() as int } else { 200 })) + if vstd::utf8::encode_utf8(s).len() > 200 {
        "..."@
    } else {
        seq![]
    }
}

/// The characters of `s` with newlines and carriage returns written as escapes.
pub open spec fn escaped_prefix(s: Seq<char>) -> Seq<char>
    decreases s.len(),
{
    if s.len() == 0 {
        seq![]
    } else {
        escaped_prefix(s.drop_last()) + if s.last() == '\n' {
            seq!['\\', 'n']
        } else if s.last() == '\r' {
            seq!['\\', 'r']
        } else {
            seq![s.last()]
        }
    }
}

/// The start of `s` on one line, for internal diagnostics.
fn legible_escaped(s: &str) -> (r: String)
    ensures
        r@ == escaped(s@),
{
    let chars = crate::text::str_to_chars(s);
    let n: usize = if chars.len() < 200 { chars.len() } else { 200 };
    let mut out = String::new();
    let mut i: usize = 0;
    while i < n
        invariant
            i <= n <= chars@.len(),
            chars@ == s@,
            n == if chars@.len() < 200 { chars@.len() as int } else { 200 },
            out@ == escaped_prefix(chars@.take(i as int)),
        decreases n - i,
    {
        let c = chars[i];
        if c == '\n' {
            string_push(&mut out, '\\');
            string_push(&mut out, 'n');
        } else if c == '\r' {
            string_push(&mut out, '\\');
            string_push(&mut out, 'r');
        } else {
            string_push(&mut out, c);
        }
        assert(chars@.take(i + 1).drop_last() == chars@.take(i as int));
        i += 1;
    }
    assert(chars@.take(n as int) == s@.take(if s@.len() < 200 { s@.len() as int } else { 200 }));
    if longer_than(&chars, 200) {
        out.append("...");
    }
    out
}

} // verus!
