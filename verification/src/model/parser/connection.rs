//! Reading the parts of a chip: `Name(pin[bus] = wire[bus], ...);`.
use vstd::prelude::*;
use crate::assembler::parse::ws_end;
use crate::assembler::scan::{dec_value, digits_value, lemma_run_end_bounds, run_end, scan_run, string_of, CharClass};
use crate::channel_range::{span, ChannelRange};
use crate::jack::translate::lemma_ws_end_bounds;
use crate::text::{is_whitespace, str_to_chars};
use super::{Argument, ArgumentV, Connection, ConnectionV, Symbol, SymbolV, Value};

verus! {

/// Why reading failed, and where.
#[derive(Debug, Clone, Copy, PartialEq, Eq, Structural)]
pub enum HdlParseError {
    /// The input at this position does not fit the grammar.
    Unexpected(usize),
    /// The symbol at this position is neither a name, a constant nor a 16-bit number.
    BadSymbol(usize),
}

/// How reading ends: the position after what was read and what was read, an error, or
/// `Aborts` on a bus range whose start is after its end, which no range can hold.
pub enum Scan<T> {
    Read(int, T),
    Fail(HdlParseError),
    Aborts,
}

/// The first `]` at or after `i`, or the end.
pub open spec fn close_bracket(s: Seq<char>, i: int) -> int
    decreases s.len() - i,
{
    if i < 0 || i >= s.len() {
        s.len() as int
    } else if s[i] == ']' {
        i
    } else {
        close_bracket(s, i + 1)
    }
}

/// The two bounds written between the brackets of a bus: `a..b` or `a`, blanks allowed
/// around the numbers; what follows is ignored. `None` when there is no number or a number
/// does not fit in 16 bits.
pub open spec fn bus_content(c: Seq<char>) -> Option<(int, int)> {
    let p1 = ws_end(c, 0);
    let d1 = run_end(c, p1, CharClass::Digit);
    if d1 == p1 {
        None
    } else {
        let v1 = dec_value(c.subrange(p1, d1));
        let q = ws_end(c, d1);
        let p2 = ws_end(c, q + 2);
        let d2 = run_end(c, p2, CharClass::Digit);
        if q + 1 < c.len() && c[q] == '.' && c[q + 1] == '.' && d2 > p2 {
            let v2 = dec_value(c.subrange(p2, d2));
            if v1 > 0xffff || v2 > 0xffff { None } else { Some((v1, v2)) }
        } else if v1 > 0xffff {
            None
        } else {
            Some((v1, v1))
        }
    }
}

/// A bus `[a..b]` (or `[a]`) at `i`, blanks allowed before and after.
pub open spec fn bus_scan(s: Seq<char>, i: int) -> Scan<(int, int)> {
    let a = ws_end(s, i);
    if !(a < s.len() && s[a] == '[') {
        Scan::Fail(HdlParseError::Unexpected(a as usize))
    } else {
        let c = close_bracket(s, a + 1);
        if c >= s.len() || c == a + 1 {
            Scan::Fail(HdlParseError::Unexpected((a + 1) as usize))
        } else {
            match bus_content(s.subrange(a + 1, c)) {
                None => Scan::Fail(HdlParseError::Unexpected((a + 1) as usize)),
                Some((x, y)) => if x > y { Scan::Aborts } else { Scan::Read(ws_end(s, c + 1), (x, y)) },
            }
        }
    }
}

/// Where the symbol after the blanks at `i` starts and ends.
pub open spec fn symbol_span(s: Seq<char>, i: int) -> Option<(int, int)> {
    let a = ws_end(s, i);
    let e = run_end(s, a, CharClass::Word);
    if e > a { Some((a, e)) } else { None }
}

/// A symbol with an optional bus at `i`: the symbol's start and end, and the bus bounds.
/// A bus that cannot be read is left unread.
pub open spec fn symbol_bus_scan(s: Seq<char>, i: int) -> Scan<(int, int, Option<(int, int)>)> {
    match symbol_span(s, i) {
        None => Scan::Fail(HdlParseError::Unexpected(ws_end(s, i) as usize)),
        Some((a, e)) => {
            let t = ws_end(s, e);
            match bus_scan(s, t) {
                Scan::Read(n, r) => Scan::Read(n, (a, e, Some(r))),
                Scan::Aborts => Scan::Aborts,
                Scan::Fail(_) => Scan::Read(t, (a, e, None)),
            }
        },
    }
}

/// Whether all characters of `w` are digits.
pub open spec fn only_digits(w: Seq<char>) -> bool {
    forall|k: int| 0 <= k < w.len() ==> crate::assembler::scan::is_digit(#[trigger] w[k])
}

/// What a symbol stands for: `true`, `false`, a 16-bit number, or a name starting with a
/// letter or `_`.
pub open spec fn symbol_value(w: Seq<char>) -> Option<SymbolV> {
    if w == "true"@ {
        Some(SymbolV::Value(Value::True))
    } else if w == "false"@ {
        Some(SymbolV::Value(Value::False))
    } else if w.len() > 0 && only_digits(w) {
        if dec_value(w) <= 0xffff { Some(SymbolV::Number(dec_value(w) as u16)) } else { None }
    } else if w.len() > 0 && !crate::assembler::scan::is_digit(w[0]) {
        Some(SymbolV::Name(w))
    } else {
        None
    }
}

/// The range of bus bounds.
pub open spec fn bus_range_of(b: Option<(int, int)>) -> Option<ChannelRange> {
    match b {
        Some((x, y)) => Some(span(x as u16, y as u16)),
        None => None,
    }
}

/// A pin assignment `pin[bus] = wire[bus]` at `i`, followed by blanks and an optional comma.
pub open spec fn arg_scan(s: Seq<char>, i: int) -> Scan<ArgumentV> {
    match symbol_bus_scan(s, i) {
        Scan::Fail(e) => Scan::Fail(e),
        Scan::Aborts => Scan::Aborts,
        Scan::Read(n1, (a1, e1, b1)) => if !(n1 < s.len() && s[n1] == '=') {
            Scan::Fail(HdlParseError::Unexpected(n1 as usize))
        } else {
            match symbol_bus_scan(s, n1 + 1) {
                Scan::Fail(e) => Scan::Fail(e),
                Scan::Aborts => Scan::Aborts,
                Scan::Read(n2, (a2, e2, b2)) => {
                    let n3 = ws_end(s, n2);
                    let n4 = if n3 < s.len() && s[n3] == ',' { ws_end(s, n3 + 1) } else { n3 };
                    match symbol_value(s.subrange(a2, e2)) {
                        None => Scan::Fail(HdlParseError::BadSymbol(a2 as usize)),
                        Some(sym) => Scan::Read(n4, ArgumentV {
                            internal: s.subrange(a1, e1),
                            internal_bus: bus_range_of(b1),
                            external: sym,
                            external_bus: bus_range_of(b2),
                        }),
                    }
                },
            }
        }
    }
}

/// Pin assignments from `i` on, as many as can be read; where they end.
pub open spec fn args_from(s: Seq<char>, i: int) -> Scan<Seq<ArgumentV>>
    decreases s.len() - i,
{
    match arg_scan(s, i) {
        Scan::Aborts => Scan::Aborts,
        Scan::Fail(_) => Scan::Read(i, seq![]),
        Scan::Read(n, a) => if n <= i || n > s.len() {
            Scan::Read(i, seq![])
        } else {
            match args_from(s, n) {
                Scan::Read(m, rest) => Scan::Read(m, seq![a] + rest),
                other => other,
            }
        },
    }
}

/// The pin assignments `( ... )` at `i`.
pub open spec fn args_scan(s: Seq<char>, i: int) -> Scan<Seq<ArgumentV>> {
    if !(0 <= i < s.len() && s[i] == '(') {
        Scan::Fail(HdlParseError::Unexpected(i as usize))
    } else {
        match args_from(s, i + 1) {
            Scan::Read(p, list) => if p < s.len() && s[p] == ')' {
                Scan::Read(p + 1, list)
            } else {
                Scan::Fail(HdlParseError::Unexpected(p as usize))
            },
            other => other,
        }
    }
}

/// A part `Name(...);` at `i`, blanks allowed around the name and the semicolon.
pub open spec fn connection_scan(s: Seq<char>, i: int) -> Scan<ConnectionV> {
    let a = ws_end(s, i);
    let e = run_end(s, a, CharClass::Alnum);
    if e == a {
        Scan::Fail(HdlParseError::Unexpected(a as usize))
    } else {
        match args_scan(s, ws_end(s, e)) {
            Scan::Read(n, list) => {
                let p = ws_end(s, n);
                if p < s.len() && s[p] == ';' {
                    Scan::Read(ws_end(s, p + 1), ConnectionV { chip_name: s.subrange(a, e), inputs: list })
                } else {
                    Scan::Fail(HdlParseError::Unexpected(p as usize))
                }
            },
            Scan::Fail(x) => Scan::Fail(x),
            Scan::Aborts => Scan::Aborts,
        }
    }
}

/// How a read ends, for the executable readers.
pub enum Parsed<T> {
    Read(usize, T),
    Fail(HdlParseError),
    Aborts,
}

/// The end of the blanks of `s` starting at `i`.
fn skip_blanks(s: &[char], i: usize) -> (e: usize)
    requires
        i <= s@.len(),
    ensures
        e == ws_end(s@, i as int),
        i <= e <= s@.len(),
{
    proof {
        lemma_ws_end_bounds(s@, i as int);
    }
    let mut j = i;
    while j < s.len() && is_whitespace(s[j])
        invariant
            i <= j <= s@.len(),
            ws_end(s@, i as int) == ws_end(s@, j as int),
        decreases s@.len() - j,
    {
        j += 1;
    }
    j
}

/// The first `]` of `s` at or after `i`, or the end.
fn find_close(s: &[char], i: usize) -> (e: usize)
    requires
        i <= s@.len(),
    ensures
        e == close_bracket(s@, i as int),
        i <= e <= s@.len(),
{
    let mut j = i;
    while j < s.len() && s[j] != ']'
        invariant
            i <= j <= s@.len(),
            close_bracket(s@, i as int) == close_bracket(s@, j as int),
        decreases s@.len() - j,
    {
        j += 1;
    }
    j
}

/// Reads the bounds between the brackets `s[lo..hi]`.
fn read_bus_content(s: &[char], lo: usize, hi: usize) -> (r: Option<(u16, u16)>)
    requires
        lo <= hi <= s@.len(),
    ensures
        match bus_content(s@.subrange(lo as int, hi as int)) {
            Some((x, y)) => r matches Some((a, b)) && a == x && b == y,
            None => r is None,
        },
{
    let c = &s[lo..hi];
    assert(c@ == s@.subrange(lo as int, hi as int));
    let p1 = skip_blanks(c, 0);
    let d1 = scan_run(c, p1, CharClass::Digit);
    if d1 == p1 {
        return None;
    }
    proof {
        lemma_run_end_bounds(c@, p1 as int, CharClass::Digit);
    }
    let v1 = digits_value(c, p1, d1);
    let q = skip_blanks(c, d1);
    if q < c.len() && c.len() - q > 1 && c[q] == '.' && c[q + 1] == '.' {
        let p2 = skip_blanks(c, q + 2);
        let d2 = scan_run(c, p2, CharClass::Digit);
        if d2 > p2 {
            proof {
                lemma_run_end_bounds(c@, p2 as int, CharClass::Digit);
            }
            let v2 = digits_value(c, p2, d2);
            return match (v1, v2) {
                (Some(x), Some(y)) => Some((x, y)),
                _ => None,
            };
        }
    }
    match v1 {
        Some(x) => Some((x, x)),
        None => None,
    }
}

/// Reads a bus at `i`.
fn read_bus(s: &[char], i: usize) -> (r: Parsed<(u16, u16)>)
    requires
        i <= s@.len(),
    ensures
        match bus_scan(s@, i as int) {
            Scan::Read(n, (x, y)) => r matches Parsed::Read(m, (a, b)) && m == n && a == x && b == y && m <= s@.len(),
            Scan::Fail(e) => r matches Parsed::Fail(f) && f == e,
            Scan::Aborts => r is Aborts,
        },
{
    let a = skip_blanks(s, i);
    if !(a < s.len() && s[a] == '[') {
        return Parsed::Fail(HdlParseError::Unexpected(a));
    }
    let c = find_close(s, a + 1);
    if c >= s.len() || c == a + 1 {
        return Parsed::Fail(HdlParseError::Unexpected(a + 1));
    }
    match read_bus_content(s, a + 1, c) {
        None => Parsed::Fail(HdlParseError::Unexpected(a + 1)),
        Some((x, y)) => if x > y {
            Parsed::Aborts
        } else {
            Parsed::Read(skip_blanks(s, c + 1), (x, y))
        },
    }
}

/// Reads a symbol with an optional bus at `i`.
fn read_symbol_bus(s: &[char], i: usize) -> (r: Parsed<(usize, usize, Option<(u16, u16)>)>)
    requires
        i <= s@.len(),
    ensures
        match symbol_bus_scan(s@, i as int) {
            Scan::Read(n, (a, e, b)) => r matches Parsed::Read(m, (x, y, c)) && m == n && x == a && y == e
                && m <= s@.len() && x <= y <= s@.len() && match b {
                    Some((p, q)) => c matches Some((u, v)) && u == p && v == q,
                    None => c is None,
                },
            Scan::Fail(e) => r matches Parsed::Fail(f) && f == e,
            Scan::Aborts => r is Aborts,
        },
{
    let a = skip_blanks(s, i);
    let e = scan_run(s, a, CharClass::Word);
    if e == a {
        return Parsed::Fail(HdlParseError::Unexpected(a));
    }
    let t = skip_blanks(s, e);
    match read_bus(s, t) {
        Parsed::Read(n, r) => Parsed::Read(n, (a, e, Some(r))),
        Parsed::Aborts => Parsed::Aborts,
        Parsed::Fail(_) => Parsed::Read(t, (a, e, None)),
    }
}

/// What the symbol `s[a..e]` stands for.
fn read_symbol_value(s: &[char], a: usize, e: usize) -> (r: Option<Symbol>)
    requires
        a <= e <= s@.len(),
    ensures
        match symbol_value(s@.subrange(a as int, e as int)) {
            Some(v) => r matches Some(x) && x@ == v,
            None => r is None,
        },
{
    let w = string_of(s, a, e);
    proof {
        reveal_strlit("true");
        reveal_strlit("false");
    }
    if crate::text::str_eq(w.as_str(), "true") {
        return Some(Symbol::Value(Value::True));
    }
    if crate::text::str_eq(w.as_str(), "false") {
        return Some(Symbol::Value(Value::False));
    }
    if e == a {
        return None;
    }
    let t = &s[a..e];
    assert(t@ == w@);
    let d = scan_run(t, 0, CharClass::Digit);
    proof {
        lemma_run_end_bounds(t@, 0, CharClass::Digit);
    }
    if d == t.len() {
        return match digits_value(t, 0, d) {
            Some(v) => {
                assert(t@.subrange(0, d as int) == w@);
                Some(Symbol::Number(v))
            },
            None => {
                assert(t@.subrange(0, d as int) == w@);
                None
            },
        };
    }
    assert(!only_digits(w@)) by {
        assert(!crate::assembler::scan::is_digit(t@[d as int]));
    }
    if '0' <= s[a] && s[a] <= '9' {
        assert(w@[0] == s@[a as int]);
        return None;
    }
    assert(w@[0] == s@[a as int]);
    Some(Symbol::Name(w))
}

/// Reads a pin assignment at `i`.
fn read_arg(s: &[char], i: usize) -> (r: Parsed<Argument>)
    requires
        i <= s@.len(),
    ensures
        match arg_scan(s@, i as int) {
            Scan::Read(n, a) => r matches Parsed::Read(m, x) && m == n && x@ == a && m <= s@.len(),
            Scan::Fail(e) => r matches Parsed::Fail(f) && f == e,
            Scan::Aborts => r is Aborts,
        },
{
    let (n1, a1, e1, b1) = match read_symbol_bus(s, i) {
        Parsed::Read(n, (a, e, b)) => (n, a, e, b),
        Parsed::Fail(e) => return Parsed::Fail(e),
        Parsed::Aborts => return Parsed::Aborts,
    };
    if !(n1 < s.len() && s[n1] == '=') {
        return Parsed::Fail(HdlParseError::Unexpected(n1));
    }
    let (n2, a2, e2, b2) = match read_symbol_bus(s, n1 + 1) {
        Parsed::Read(n, (a, e, b)) => (n, a, e, b),
        Parsed::Fail(e) => return Parsed::Fail(e),
        Parsed::Aborts => return Parsed::Aborts,
    };
    let n3 = skip_blanks(s, n2);
    let n4 = if n3 < s.len() && s[n3] == ',' { skip_blanks(s, n3 + 1) } else { n3 };
    let external = match read_symbol_value(s, a2, e2) {
        Some(x) => x,
        None => return Parsed::Fail(HdlParseError::BadSymbol(a2)),
    };
    let internal_bus = match b1 {
        Some((x, y)) => Some(ChannelRange::new(x, y)),
        None => None,
    };
    let external_bus = match b2 {
        Some((x, y)) => Some(ChannelRange::new(x, y)),
        None => None,
    };
    proof {
        crate::channel_range::lemma_range_ext(internal_bus->0);
        crate::channel_range::lemma_range_ext(external_bus->0);
    }
    Parsed::Read(n4, Argument { internal: string_of(s, a1, e1), internal_bus, external, external_bus })
}

/// Reads pin assignments from `i` on, as many as there are.
fn read_args_from(s: &[char], i: usize) -> (r: Parsed<Vec<Argument>>)
    requires
        i <= s@.len(),
    ensures
        match args_from(s@, i as int) {
            Scan::Read(n, l) => r matches Parsed::Read(m, v) && m == n && v@.map_values(|a: Argument| a@) == l && m <= s@.len(),
            Scan::Fail(e) => r matches Parsed::Fail(f) && f == e,
            Scan::Aborts => r is Aborts,
        },
{
    let mut list: Vec<Argument> = Vec::new();
    let mut pos = i;
    loop
        invariant
            i <= pos <= s@.len(),
            args_from(s@, i as int) == match args_from(s@, pos as int) {
                Scan::Read(m, rest) => Scan::Read(m, list@.map_values(|a: Argument| a@) + rest),
                other => other,
            },
        decreases s@.len() - pos,
    {
        let ghost before = list@.map_values(|a: Argument| a@);
        match read_arg(s, pos) {
            Parsed::Aborts => return Parsed::Aborts,
            Parsed::Fail(_) => {
                assert(before + Seq::<ArgumentV>::empty() == before);
                return Parsed::Read(pos, list);
            },
            Parsed::Read(n, a) => {
                if n <= pos {
                    assert(before + Seq::<ArgumentV>::empty() == before);
                    return Parsed::Read(pos, list);
                }
                let ghost av = a@;
                list.push(a);
                proof {
                    assert(list@.map_values(|a: Argument| a@) =~= before.push(av));
                    if let Scan::Read(m, rest) = args_from(s@, n as int) {
                        assert(before + (seq![av] + rest) =~= before.push(av) + rest);
                    }
                }
                pos = n;
            },
        }
    }
}

/// Reads the pin assignments `( ... )` at `i`.
fn read_args(s: &[char], i: usize) -> (r: Parsed<Vec<Argument>>)
    requires
        i <= s@.len(),
    ensures
        match args_scan(s@, i as int) {
            Scan::Read(n, l) => r matches Parsed::Read(m, v) && m == n && v@.map_values(|a: Argument| a@) == l && m <= s@.len(),
            Scan::Fail(e) => r matches Parsed::Fail(f) && f == e,
            Scan::Aborts => r is Aborts,
        },
{
    if !(i < s.len() && s[i] == '(') {
        return Parsed::Fail(HdlParseError::Unexpected(i));
    }
    match read_args_from(s, i + 1) {
        Parsed::Read(p, list) => if p < s.len() && s[p] == ')' {
            Parsed::Read(p + 1, list)
        } else {
            Parsed::Fail(HdlParseError::Unexpected(p))
        },
        Parsed::Fail(e) => Parsed::Fail(e),
        Parsed::Aborts => Parsed::Aborts,
    }
}

/// Reads a part `Name(...);` at `i`.
fn read_connection(s: &[char], i: usize) -> (r: Parsed<Connection>)
    requires
        i <= s@.len(),
    ensures
        match connection_scan(s@, i as int) {
            Scan::Read(n, c) => r matches Parsed::Read(m, x) && m == n && x@ == c && m <= s@.len(),
            Scan::Fail(e) => r matches Parsed::Fail(f) && f == e,
            Scan::Aborts => r is Aborts,
        },
{
    let a = skip_blanks(s, i);
    let e = scan_run(s, a, CharClass::Alnum);
    if e == a {
        return Parsed::Fail(HdlParseError::Unexpected(a));
    }
    let t = skip_blanks(s, e);
    match read_args(s, t) {
        Parsed::Read(n, list) => {
            let p = skip_blanks(s, n);
            if p < s.len() && s[p] == ';' {
                Parsed::Read(skip_blanks(s, p + 1), Connection { chip_name: string_of(s, a, e), inputs: list })
            } else {
                Parsed::Fail(HdlParseError::Unexpected(p))
            }
        },
        Parsed::Fail(x) => Parsed::Fail(x),
        Parsed::Aborts => Parsed::Aborts,
    }
}

/// Reads a bus `[a..b]` or `[a]` at the start of `arg` (blanks allowed inside and around);
/// returns the input that follows. The start must not be after the end.
pub fn bus_range(arg: &str) -> (r: Result<(String, ChannelRange), HdlParseError>)
    requires
        !(bus_scan(arg@, 0) is Aborts),
    ensures
        match bus_scan(arg@, 0) {
            Scan::Read(n, (x, y)) => r matches Ok((rest, c)) && rest@ == arg@.subrange(n, arg@.len() as int)
                && c.lo() == x && c.hi() == y,
            Scan::Fail(e) => r == Err::<(String, ChannelRange), HdlParseError>(e),
            Scan::Aborts => false,
        },
{
    let chars = str_to_chars(arg);
    let s = chars.as_slice();
    match read_bus(s, 0) {
        Parsed::Read(n, (x, y)) => Ok((string_of(s, n, s.len()), ChannelRange::new(x, y))),
        Parsed::Fail(e) => Err(e),
        Parsed::Aborts => {
            assert(false);
            Err(HdlParseError::Unexpected(0))
        },
    }
}

/// Reads a symbol with an optional bus at the start of `arg`; returns the input that
/// follows, the symbol and the bus.
pub fn symbol_bus(arg: &str) -> (r: Result<(String, (String, Option<ChannelRange>)), HdlParseError>)
    requires
        !(symbol_bus_scan(arg@, 0) is Aborts),
    ensures
        match symbol_bus_scan(arg@, 0) {
            Scan::Read(n, (a, e, b)) => r matches Ok((rest, (name, c))) && rest@ == arg@.subrange(n, arg@.len() as int)
                && name@ == arg@.subrange(a, e) && c == bus_range_of(b),
            Scan::Fail(e) => r == Err::<(String, (String, Option<ChannelRange>)), HdlParseError>(e),
            Scan::Aborts => false,
        },
{
    let chars = str_to_chars(arg);
    let s = chars.as_slice();
    match read_symbol_bus(s, 0) {
        Parsed::Read(n, (a, e, b)) => {
            let bus = match b {
                Some((x, y)) => Some(ChannelRange::new(x, y)),
                None => None,
            };
            proof {
                crate::channel_range::lemma_range_ext(bus->0);
            }
            Ok((string_of(s, n, s.len()), (string_of(s, a, e), bus)))
        },
        Parsed::Fail(e) => Err(e),
        Parsed::Aborts => {
            assert(false);
            Err(HdlParseError::Unexpected(0))
        },
    }
}

/// Reads a pin assignment `pin[bus] = wire[bus]` at the start of `arg`, with the blanks
/// and the comma that follow it; returns the input that follows.
pub fn single_arg(arg: &str) -> (r: Result<(String, Argument), HdlParseError>)
    requires
        !(arg_scan(arg@, 0) is Aborts),
    ensures
        match arg_scan(arg@, 0) {
            Scan::Read(n, a) => r matches Ok((rest, x)) && rest@ == arg@.subrange(n, arg@.len() as int) && x@ == a,
            Scan::Fail(e) => r matches Err(f) && f == e,
            Scan::Aborts => false,
        },
{
    let chars = str_to_chars(arg);
    let s = chars.as_slice();
    match read_arg(s, 0) {
        Parsed::Read(n, a) => Ok((string_of(s, n, s.len()), a)),
        Parsed::Fail(e) => Err(e),
        Parsed::Aborts => {
            assert(false);
            Err(HdlParseError::Unexpected(0))
        },
    }
}

/// Reads the pin assignments `( ... )` at the start of `arg`; returns the input that
/// follows.
pub fn args(arg: &str) -> (r: Result<(String, Vec<Argument>), HdlParseError>)
    requires
        !(args_scan(arg@, 0) is Aborts),
    ensures
        match args_scan(arg@, 0) {
            Scan::Read(n, l) => r matches Ok((rest, v)) && rest@ == arg@.subrange(n, arg@.len() as int)
                && v@.map_values(|a: Argument| a@) == l,
            Scan::Fail(e) => r matches Err(f) && f == e,
            Scan::Aborts => false,
        },
{
    let chars = str_to_chars(arg);
    let s = chars.as_slice();
    match read_args(s, 0) {
        Parsed::Read(n, v) => Ok((string_of(s, n, s.len()), v)),
        Parsed::Fail(e) => Err(e),
        Parsed::Aborts => {
            assert(false);
            Err(HdlParseError::Unexpected(0))
        },
    }
}

/// Reads a part `Name(...);` at the start of `arg`; returns the input that follows.
pub fn connection(arg: &str) -> (r: Result<(String, Connection), HdlParseError>)
    requires
        !(connection_scan(arg@, 0) is Aborts),
    ensures
        match connection_scan(arg@, 0) {
            Scan::Read(n, c) => r matches Ok((rest, x)) && rest@ == arg@.subrange(n, arg@.len() as int) && x@ == c,
            Scan::Fail(e) => r matches Err(f) && f == e,
            Scan::Aborts => false,
        },
{
    let chars = str_to_chars(arg);
    let s = chars.as_slice();
    match read_connection(s, 0) {
        Parsed::Read(n, c) => Ok((string_of(s, n, s.len()), c)),
        Parsed::Fail(e) => Err(e),
        Parsed::Aborts => {
            assert(false);
            Err(HdlParseError::Unexpected(0))
        },
    }
}

/// What a checked reader gives: the input that follows and what was read, the error, or
/// `Aborts` where the plain reader's input is refused by its `requires`: a bus whose start
/// is after its end.
pub enum Reading<T> {
    Done(String, T),
    Failed(HdlParseError),
    Aborts,
}

/// [`bus_range`] on any input.
pub fn bus_range_checked(arg: &str) -> (r: Reading<ChannelRange>)
    ensures
        match bus_scan(arg@, 0) {
            Scan::Read(n, (x, y)) => r matches Reading::Done(rest, c) && rest@ == arg@.subrange(n, arg@.len() as int)
                && c.lo() == x && c.hi() == y,
            Scan::Fail(e) => r matches Reading::Failed(f) && f == e,
            Scan::Aborts => r is Aborts,
        },
{
    let chars = str_to_chars(arg);
    let s = chars.as_slice();
    match read_bus(s, 0) {
        Parsed::Read(n, (x, y)) => Reading::Done(string_of(s, n, s.len()), ChannelRange::new(x, y)),
        Parsed::Fail(e) => Reading::Failed(e),
        Parsed::Aborts => Reading::Aborts,
    }
}

/// [`symbol_bus`] on any input.
pub fn symbol_bus_checked(arg: &str) -> (r: Reading<(String, Option<ChannelRange>)>)
    ensures
        match symbol_bus_scan(arg@, 0) {
            Scan::Read(n, (a, e, b)) => r matches Reading::Done(rest, (name, c)) && rest@ == arg@.subrange(n, arg@.len() as int)
                && name@ == arg@.subrange(a, e) && c == bus_range_of(b),
            Scan::Fail(e) => r matches Reading::Failed(f) && f == e,
            Scan::Aborts => r is Aborts,
        },
{
    let chars = str_to_chars(arg);
    let s = chars.as_slice();
    match read_symbol_bus(s, 0) {
        Parsed::Read(n, (a, e, b)) => {
            let bus = match b {
                Some((x, y)) => Some(ChannelRange::new(x, y)),
                None => None,
            };
            proof {
                crate::channel_range::lemma_range_ext(bus->0);
            }
            Reading::Done(string_of(s, n, s.len()), (string_of(s, a, e), bus))
        },
        Parsed::Fail(e) => Reading::Failed(e),
        Parsed::Aborts => Reading::Aborts,
    }
}

/// [`single_arg`] on any input.
pub fn single_arg_checked(arg: &str) -> (r: Reading<Argument>)
    ensures
        match arg_scan(arg@, 0) {
            Scan::Read(n, a) => r matches Reading::Done(rest, x) && rest@ == arg@.subrange(n, arg@.len() as int) && x@ == a,
            Scan::Fail(e) => r matches Reading::Failed(f) && f == e,
            Scan::Aborts => r is Aborts,
        },
{
    let chars = str_to_chars(arg);
    let s = chars.as_slice();
    match read_arg(s, 0) {
        Parsed::Read(n, a) => Reading::Done(string_of(s, n, s.len()), a),
        Parsed::Fail(e) => Reading::Failed(e),
        Parsed::Aborts => Reading::Aborts,
    }
}

/// [`args`] on any input.
pub fn args_checked(arg: &str) -> (r: Reading<Vec<Argument>>)
    ensures
        match args_scan(arg@, 0) {
            Scan::Read(n, l) => r matches Reading::Done(rest, v) && rest@ == arg@.subrange(n, arg@.len() as int)
                && v@.map_values(|a: Argument| a@) == l,
            Scan::Fail(e) => r matches Reading::Failed(f) && f == e,
            Scan::Aborts => r is Aborts,
        },
{
    let chars = str_to_chars(arg);
    let s = chars.as_slice();
    match read_args(s, 0) {
        Parsed::Read(n, v) => Reading::Done(string_of(s, n, s.len()), v),
        Parsed::Fail(e) => Reading::Failed(e),
        Parsed::Aborts => Reading::Aborts,
    }
}

/// [`connection`] on any input.
pub fn connection_checked(arg: &str) -> (r: Reading<Connection>)
    ensures
        match connection_scan(arg@, 0) {
            Scan::Read(n, c) => r matches Reading::Done(rest, x) && rest@ == arg@.subrange(n, arg@.len() as int) && x@ == c,
            Scan::Fail(e) => r matches Reading::Failed(f) && f == e,
            Scan::Aborts => r is Aborts,
        },
{
    let chars = str_to_chars(arg);
    let s = chars.as_slice();
    match read_connection(s, 0) {
        Parsed::Read(n, c) => Reading::Done(string_of(s, n, s.len()), c),
        Parsed::Fail(e) => Reading::Failed(e),
        Parsed::Aborts => Reading::Aborts,
    }
}

} // verus!
