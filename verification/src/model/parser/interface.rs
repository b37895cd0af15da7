//! The pin layout of a chip: where each pin sits in the chip's input or output bits.
use vstd::prelude::*;
use super::{Builtin, Channel, ChannelV, Chip, Form};
use crate::channel_range::ChannelRange;
use crate::clock_behavior::ClockBehavior;
use crate::text::str_eq;

verus! {

/// A pin of a chip's interface: its direction, whether it is clocked, and its bits.
#[derive(PartialEq, Eq, Debug, Clone, Copy)]
pub enum ChannelPin {
    ComIn(ChannelRange),
    ComOut(ChannelRange),
    SeqIn(ChannelRange),
    SeqOut(ChannelRange),
}

/// The four kinds of pin.
#[derive(PartialEq, Eq, Debug, Clone, Copy, Structural)]
pub enum PinKind {
    ComIn,
    ComOut,
    SeqIn,
    SeqOut,
}

impl PinKind {
    pub open spec fn is_input(self) -> bool {
        self is ComIn || self is SeqIn
    }

    pub open spec fn is_output(self) -> bool {
        self is ComOut || self is SeqOut
    }

    pub open spec fn is_combinatorial(self) -> bool {
        self is ComIn || self is ComOut
    }

    pub open spec fn is_sequential(self) -> bool {
        self is SeqIn || self is SeqOut
    }
}

/// Abstract form of a [`ChannelPin`]: its kind and its first and last bit.
pub struct PinV {
    pub kind: PinKind,
    pub lo: u16,
    pub hi: u16,
}

impl ChannelPin {
    /// The bits of the pin.
    pub open spec fn range(self) -> ChannelRange {
        match self {
            ChannelPin::ComIn(c) => c,
            ChannelPin::ComOut(c) => c,
            ChannelPin::SeqIn(c) => c,
            ChannelPin::SeqOut(c) => c,
        }
    }

    /// The kind of the pin.
    pub open spec fn kind(self) -> PinKind {
        match self {
            ChannelPin::ComIn(_) => PinKind::ComIn,
            ChannelPin::ComOut(_) => PinKind::ComOut,
            ChannelPin::SeqIn(_) => PinKind::SeqIn,
            ChannelPin::SeqOut(_) => PinKind::SeqOut,
        }
    }

    /// The bits of the pin, whatever its kind.
    pub fn unwrap(&self) -> (r: ChannelRange)
        ensures
            r == self.range(),
    {
        match self {
            ChannelPin::ComIn(c) => *c,
            ChannelPin::ComOut(c) => *c,
            ChannelPin::SeqIn(c) => *c,
            ChannelPin::SeqOut(c) => *c,
        }
    }
}

impl View for ChannelPin {
    type V = PinV;

    open spec fn view(&self) -> PinV {
        PinV { kind: self.kind(), lo: self.range().lo(), hi: self.range().hi() }
    }
}

/// The pins of a chip by name, with where each one sits.
///
/// The entries of `map` have distinct names when built by [`Chip::interface`].
#[derive(PartialEq, Eq, Debug, Clone)]
pub struct Interface {
    pub name: String,
    pub map: Vec<(String, ChannelPin)>,
}

/// The abstract entries of a pin list.
pub open spec fn pins_view(v: Seq<(String, ChannelPin)>) -> Seq<(Seq<char>, PinV)> {
    v.map_values(|e: (String, ChannelPin)| (e.0@, e.1@))
}

/// Whether no two entries share a name.
pub open spec fn distinct_names(p: Seq<(Seq<char>, PinV)>) -> bool {
    forall|i: int, j: int| 0 <= i < j < p.len() ==> p[i].0 != p[j].0
}

/// `m` with the entry `e`: replacing the entry of the same name, or added at the end.
pub open spec fn upsert(m: Seq<(Seq<char>, PinV)>, e: (Seq<char>, PinV)) -> Seq<(Seq<char>, PinV)> {
    if exists|j: int| 0 <= j < m.len() && m[j].0 == e.0 {
        m.update(choose|j: int| 0 <= j < m.len() && m[j].0 == e.0, e)
    } else {
        m.push(e)
    }
}

/// The entries collected one after the other, a later entry replacing an earlier one of the
/// same name.
pub open spec fn gather(es: Seq<(Seq<char>, PinV)>) -> Seq<(Seq<char>, PinV)>
    decreases es.len(),
{
    if es.len() == 0 {
        Seq::empty()
    } else {
        upsert(gather(es.drop_last()), es.last())
    }
}

/// The width of a declared pin: its bus size, or one bit.
pub open spec fn pin_width(c: ChannelV) -> int {
    match c.size {
        Some(n) => n as int,
        None => 1,
    }
}

/// The total width of the declared pins.
pub open spec fn total_width(cs: Seq<ChannelV>) -> int
    decreases cs.len(),
{
    if cs.len() == 0 {
        0
    } else {
        total_width(cs.drop_last()) + pin_width(cs.last())
    }
}

/// Whether the pins can be laid out: none is empty and together they fit in 16-bit indices.
pub open spec fn widths_ok(cs: Seq<ChannelV>) -> bool {
    &&& forall|i: int| 0 <= i < cs.len() ==> cs[i].size != Some(0u16)
    &&& total_width(cs) <= 0xffff
}

/// The kind of a declared pin.
pub open spec fn kind_of(input: bool, clocked: bool) -> PinKind {
    if input {
        if clocked { PinKind::SeqIn } else { PinKind::ComIn }
    } else {
        if clocked { PinKind::SeqOut } else { PinKind::ComOut }
    }
}

/// The declared pins of one side laid out one after the other from bit 0.
pub open spec fn side_entries(cs: Seq<ChannelV>, clocked: Seq<Seq<char>>, input: bool) -> Seq<(Seq<char>, PinV)> {
    Seq::new(
        cs.len(),
        |k: int|
            (
                cs[k].name,
                PinV {
                    kind: kind_of(input, clocked.contains(cs[k].name)),
                    lo: total_width(cs.take(k)) as u16,
                    hi: (total_width(cs.take(k)) + pin_width(cs[k]) - 1) as u16,
                },
            ),
    )
}

/// The layout of a chip's declared inputs and outputs.
pub open spec fn pin_entries(inputs: Seq<ChannelV>, outputs: Seq<ChannelV>, clocked: Seq<Seq<char>>) -> Seq<(Seq<char>, PinV)> {
    side_entries(inputs, clocked, true) + side_entries(outputs, clocked, false)
}

/// The names of the clocked pins, none when there is no list.
pub open spec fn clocked_names(clocked: Option<&[String]>) -> Seq<Seq<char>> {
    match clocked {
        Some(c) => c@.map_values(|s: String| s@),
        None => Seq::empty(),
    }
}

/// The abstract form of a list of declared pins.
pub open spec fn channels_view(cs: Seq<Channel>) -> Seq<ChannelV> {
    cs.map_values(|c: Channel| c@)
}

proof fn lemma_total_width_prefix(cs: Seq<ChannelV>, k: int)
    requires
        0 <= k <= cs.len(),
        forall|i: int| 0 <= i < cs.len() ==> cs[i].size != Some(0u16),
    ensures
        total_width(cs.take(k)) <= total_width(cs),
        0 <= total_width(cs.take(k)),
    decreases cs.len(),
{
    if k == cs.len() {
        assert(cs.take(k) == cs);
    } else {
        assert(cs.drop_last().take(k) == cs.take(k));
        lemma_total_width_prefix(cs.drop_last(), k);
    }
    lemma_total_width_nonneg(cs.take(k));
}

proof fn lemma_total_width_nonneg(cs: Seq<ChannelV>)
    ensures
        0 <= total_width(cs),
    decreases cs.len(),
{
    if cs.len() > 0 {
        lemma_total_width_nonneg(cs.drop_last());
    }
}

/// Whether the pins `cs` can be laid out: none is empty and together they fit in 16-bit
/// indices.
pub fn widths_fit(cs: &Vec<Channel>) -> (b: bool)
    ensures
        b == widths_ok(channels_view(cs@)),
{
    let ghost v = channels_view(cs@);
    let mut i: usize = 0;
    while i < cs.len()
        invariant
            i <= cs@.len(),
            v == channels_view(cs@),
            forall|j: int| 0 <= j < i ==> v[j].size != Some(0u16),
        decreases cs@.len() - i,
    {
        assert(v[i as int] == cs@[i as int]@);
        match cs[i].size {
            Some(0) => return false,
            _ => {},
        }
        i += 1;
    }
    let mut total: u32 = 0;
    let mut k: usize = 0;
    assert(v.take(0) =~= Seq::<ChannelV>::empty());
    while k < cs.len()
        invariant
            k <= cs@.len(),
            v == channels_view(cs@),
            forall|j: int| 0 <= j < v.len() ==> v[j].size != Some(0u16),
            total == total_width(v.take(k as int)),
            total <= 0xffff,
        decreases cs@.len() - k,
    {
        assert(v[k as int] == cs@[k as int]@);
        let w: u32 = match cs[k].size {
            Some(n) => n as u32,
            None => 1,
        };
        assert(v.take(k + 1).drop_last() =~= v.take(k as int));
        assert(v.take(k + 1).last() == v[k as int]);
        if total + w > 0xffff {
            proof {
                lemma_total_width_prefix(v, k + 1);
            }
            return false;
        }
        total = total + w;
        k += 1;
    }
    assert(v.take(k as int) =~= v);
    true
}

/// Whether `name` is among `clocked`.
fn is_listed(clocked: &[String], name: &str) -> (b: bool)
    ensures
        b == clocked@.map_values(|s: String| s@).contains(name@),
{
    let ghost names = clocked@.map_values(|s: String| s@);
    let mut i: usize = 0;
    while i < clocked.len()
        invariant
            i <= clocked@.len(),
            names == clocked@.map_values(|s: String| s@),
            forall|j: int| 0 <= j < i ==> names[j] != name@,
        decreases clocked@.len() - i,
    {
        if str_eq(clocked[i].as_str(), name) {
            assert(names[i as int] == name@);
            return true;
        }
        i += 1;
    }
    false
}

/// Adds `pin` under `name`, replacing an entry of the same name.
fn upsert_pin(m: &mut Vec<(String, ChannelPin)>, name: String, pin: ChannelPin)
    requires
        distinct_names(pins_view(old(m)@)),
    ensures
        pins_view(final(m)@) == upsert(pins_view(old(m)@), (name@, pin@)),
        distinct_names(pins_view(final(m)@)),
{
    let ghost before = pins_view(m@);
    let mut j: usize = 0;
    while j < m.len()
        invariant
            j <= m@.len(),
            m@ == old(m)@,
            before == pins_view(m@),
            distinct_names(before),
            forall|k: int| 0 <= k < j ==> before[k].0 != name@,
        decreases m@.len() - j,
    {
        if str_eq(m[j].0.as_str(), name.as_str()) {
            proof {
                assert(before[j as int].0 == name@);
                let c = choose|k: int| 0 <= k < before.len() && before[k].0 == name@;
                assert(c == j);
            }
            m.set(j, (name, pin));
            proof {
                assert(pins_view(m@) =~= before.update(j as int, (name@, pin@)));
            }
            return;
        }
        j += 1;
    }
    m.push((name, pin));
    proof {
        assert(pins_view(m@) =~= before.push((name@, pin@)));
    }
}

/// Lays out the pins of one side, continuing the list `m`.
fn lay_out_side(m: &mut Vec<(String, ChannelPin)>, cs: &[Channel], clocked: &[String], input: bool, Ghost(prefix): Ghost<Seq<(Seq<char>, PinV)>>)
    requires
        widths_ok(channels_view(cs@)),
        distinct_names(pins_view(old(m)@)),
        pins_view(old(m)@) == gather(prefix),
    ensures
        distinct_names(pins_view(final(m)@)),
        pins_view(final(m)@) == gather(prefix + side_entries(channels_view(cs@), clocked@.map_values(|s: String| s@), input)),
{
    let ghost cv = channels_view(cs@);
    let ghost names = clocked@.map_values(|s: String| s@);
    let ghost es = side_entries(cv, names, input);
    let mut next: u16 = 0;
    let mut k: usize = 0;
    while k < cs.len()
        invariant
            k <= cs@.len(),
            cv == channels_view(cs@),
            names == clocked@.map_values(|s: String| s@),
            es == side_entries(cv, names, input),
            widths_ok(cv),
            next == total_width(cv.take(k as int)),
            distinct_names(pins_view(m@)),
            pins_view(m@) == gather(prefix + es.take(k as int)),
        decreases cs@.len() - k,
    {
        proof {
            lemma_total_width_prefix(cv, k + 1);
            assert(cv.take(k + 1).drop_last() == cv.take(k as int));
            assert(cv[k as int] == cs@[k as int]@);
        }
        let size: u16 = match cs[k].size {
            Some(n) => n,
            None => 1,
        };
        let listed = is_listed(clocked, cs[k].name.as_str());
        next = next + size;
        let range = ChannelRange::new(next - size, next - 1);
        let pin = if input {
            if listed { ChannelPin::SeqIn(range) } else { ChannelPin::ComIn(range) }
        } else {
            if listed { ChannelPin::SeqOut(range) } else { ChannelPin::ComOut(range) }
        };
        let name = cs[k].name.clone();
        upsert_pin(m, name, pin);
        proof {
            assert(pin@ == es[k as int].1);
            assert((prefix + es.take(k + 1)).drop_last() == prefix + es.take(k as int));
            assert((prefix + es.take(k + 1)).last() == es[k as int]);
        }
        k += 1;
    }
    assert(es.take(cs@.len() as int) == es);
}

/// Lays out the declared pins: inputs from bit 0 of the input bits, outputs from bit 0 of the
/// output bits, each after the previous one of its side; a listed pin is clocked.
pub fn sort_pins(inputs: &[Channel], outputs: &[Channel], clocked: Option<&[String]>) -> (r: Vec<(String, ChannelPin)>)
    requires
        widths_ok(channels_view(inputs@)),
        widths_ok(channels_view(outputs@)),
    ensures
        pins_view(r@) == gather(pin_entries(channels_view(inputs@), channels_view(outputs@), clocked_names(clocked))),
        distinct_names(pins_view(r@)),
{
    let empty: Vec<String> = Vec::new();
    let names: &[String] = match clocked {
        Some(c) => c,
        None => empty.as_slice(),
    };
    assert(names@.map_values(|s: String| s@) == clocked_names(clocked));
    let mut m: Vec<(String, ChannelPin)> = Vec::new();
    assert(pins_view(m@) == gather(Seq::<(Seq<char>, PinV)>::empty()));
    lay_out_side(&mut m, inputs, names, true, Ghost(Seq::empty()));
    let ghost ins = side_entries(channels_view(inputs@), clocked_names(clocked), true);
    assert(Seq::<(Seq<char>, PinV)>::empty() + ins == ins);
    lay_out_side(&mut m, outputs, names, false, Ghost(ins));
    m
}

/// The entries of `p` that pass `keep`, as name and bits.
pub open spec fn select(p: Seq<(Seq<char>, PinV)>, keep: spec_fn(PinKind) -> bool) -> Seq<(Seq<char>, PinV)>
    decreases p.len(),
{
    if p.len() == 0 {
        Seq::empty()
    } else if keep(p.last().1.kind) {
        select(p.drop_last(), keep).push(p.last())
    } else {
        select(p.drop_last(), keep)
    }
}

/// The abstract form of a list of named ranges.
pub open spec fn ranges_view(v: Seq<(String, ChannelRange)>) -> Seq<(Seq<char>, u16, u16)> {
    v.map_values(|e: (String, ChannelRange)| (e.0@, e.1.lo(), e.1.hi()))
}

/// Name and bits of the entries.
pub open spec fn as_ranges(p: Seq<(Seq<char>, PinV)>) -> Seq<(Seq<char>, u16, u16)> {
    p.map_values(|e: (Seq<char>, PinV)| (e.0, e.1.lo, e.1.hi))
}

/// The pin a name refers to: the first entry of that name.
pub open spec fn find_pin(p: Seq<(Seq<char>, PinV)>, name: Seq<char>) -> Option<PinV>
    decreases p.len(),
{
    if p.len() == 0 {
        None
    } else if p[0].0 == name {
        Some(p[0].1)
    } else {
        find_pin(p.drop_first(), name)
    }
}

/// One past the highest bit of the entries, or 0 without entries.
pub open spec fn bits_needed(p: Seq<(Seq<char>, PinV)>) -> int
    decreases p.len(),
{
    if p.len() == 0 {
        0
    } else {
        let rest = bits_needed(p.drop_last());
        let here = p.last().1.hi + 1;
        if rest < here { here } else { rest }
    }
}

/// Which pins a listing keeps.
#[derive(Clone, Copy, PartialEq, Eq, Structural)]
enum Which {
    Inputs,
    Outputs,
    All,
    Combinatorial,
    Sequential,
}

spec fn keeps(w: Which) -> spec_fn(PinKind) -> bool {
    match w {
        Which::Inputs => |k: PinKind| k.is_input(),
        Which::Outputs => |k: PinKind| k.is_output(),
        Which::All => |k: PinKind| true,
        Which::Combinatorial => |k: PinKind| k.is_combinatorial(),
        Which::Sequential => |k: PinKind| k.is_sequential(),
    }
}

impl Chip {
    /// The pin layout of the chip; a builtin chip's listed pins are clocked.
    pub fn interface(&self) -> (r: Interface)
        requires
            widths_ok(channels_view(self.in_pins@)),
            widths_ok(channels_view(self.out_pins@)),
        ensures
            r.name@ == self.name@,
            pins_view(r.map@) == gather(pin_entries(channels_view(self.in_pins@), channels_view(self.out_pins@), match &self.logic {
                Form::Builtin(Builtin { clocked: Some(c), .. }) => c@.map_values(|s: String| s@),
                _ => Seq::empty(),
            })),
            distinct_names(pins_view(r.map@)),
    {
        let clocked: Option<&[String]> = match &self.logic {
            Form::Builtin(Builtin { clocked: Some(c), .. }) => Some(c.as_slice()),
            _ => None,
        };
        Interface {
            name: self.name.clone(),
            map: sort_pins(self.in_pins.as_slice(), self.out_pins.as_slice(), clocked),
        }
    }
}

impl Interface {
    /// The abstract pin list.
    pub open spec fn pins(&self) -> Seq<(Seq<char>, PinV)> {
        pins_view(self.map@)
    }

    fn listing(&self, which: Which) -> (r: Vec<(String, ChannelRange)>)
        ensures
            ranges_view(r@) == as_ranges(select(self.pins(), keeps(which))),
    {
        let ghost p = self.pins();
        let mut r: Vec<(String, ChannelRange)> = Vec::new();
        let mut i: usize = 0;
        while i < self.map.len()
            invariant
                i <= self.map@.len(),
                p == self.pins(),
                ranges_view(r@) == as_ranges(select(p.take(i as int), keeps(which))),
            decreases self.map@.len() - i,
        {
            let pin = self.map[i].1;
            let keep = match which {
                Which::Inputs => matches!(pin, ChannelPin::ComIn(_) | ChannelPin::SeqIn(_)),
                Which::Outputs => matches!(pin, ChannelPin::ComOut(_) | ChannelPin::SeqOut(_)),
                Which::All => true,
                Which::Combinatorial => matches!(pin, ChannelPin::ComIn(_) | ChannelPin::ComOut(_)),
                Which::Sequential => matches!(pin, ChannelPin::SeqIn(_) | ChannelPin::SeqOut(_)),
            };
            proof {
                assert(p.take(i + 1).drop_last() == p.take(i as int));
                assert(p.take(i + 1).last() == p[i as int]);
                assert(keep == keeps(which)(p[i as int].1.kind));
            }
            if keep {
                let ghost before = r@;
                r.push((self.map[i].0.clone(), pin.unwrap()));
                proof {
                    assert(ranges_view(r@) =~= ranges_view(before).push((p[i as int].0, p[i as int].1.lo, p[i as int].1.hi)));
                    assert(as_ranges(select(p.take(i as int), keeps(which)).push(p[i as int])) =~= as_ranges(select(p.take(i as int), keeps(which))).push((p[i as int].0, p[i as int].1.lo, p[i as int].1.hi)));
                }
            }
            i += 1;
        }
        assert(p.take(self.map@.len() as int) == p);
        r
    }

    /// A copy of the interface.
    pub fn duplicate(&self) -> (r: Interface)
        ensures
            r.name@ == self.name@,
            r.pins() == self.pins(),
    {
        let mut map: Vec<(String, ChannelPin)> = Vec::new();
        let mut i: usize = 0;
        while i < self.map.len()
            invariant
                i <= self.map@.len(),
                pins_view(map@) == pins_view(self.map@).take(i as int),
            decreases self.map@.len() - i,
        {
            let ghost before = pins_view(map@);
            let name = self.map[i].0.clone();
            let pin = self.map[i].1;
            assert(name@ == self.map@[i as int].0@);
            map.push((name, pin));
            assert(pins_view(map@) =~= before.push((self.map@[i as int].0@, self.map@[i as int].1@)));
            assert(pins_view(self.map@).take(i + 1) =~= pins_view(self.map@).take(i as int).push(pins_view(self.map@)[i as int]));
            i += 1;
        }
        assert(pins_view(self.map@).take(self.map@.len() as int) == pins_view(self.map@));
        Interface { name: self.name.clone(), map }
    }

    /// Whether the chip has an output pin.
    pub fn has_outputs(&self) -> (b: bool)
        ensures
            b == (select(self.pins(), |k: PinKind| k.is_output()).len() > 0),
    {
        let l = self.listing(Which::Outputs);
        assert(ranges_view(l@).len() == l@.len());
        l.len() > 0
    }

    /// The input pins, with their bits.
    pub fn iter_inputs(&self) -> (r: Vec<(String, ChannelRange)>)
        ensures
            ranges_view(r@) == as_ranges(select(self.pins(), |k: PinKind| k.is_input())),
    {
        self.listing(Which::Inputs)
    }

    /// The output pins, with their bits.
    pub fn iter_outputs(&self) -> (r: Vec<(String, ChannelRange)>)
        ensures
            ranges_view(r@) == as_ranges(select(self.pins(), |k: PinKind| k.is_output())),
    {
        self.listing(Which::Outputs)
    }

    /// All pins, with their bits.
    pub fn iter_all(&self) -> (r: Vec<(String, ChannelRange)>)
        ensures
            ranges_view(r@) == as_ranges(select(self.pins(), |k: PinKind| true)),
    {
        self.listing(Which::All)
    }

    /// The pins that are not clocked, with their bits.
    pub fn iter_combinatorial(&self) -> (r: Vec<(String, ChannelRange)>)
        ensures
            ranges_view(r@) == as_ranges(select(self.pins(), |k: PinKind| k.is_combinatorial())),
    {
        self.listing(Which::Combinatorial)
    }

    /// The clocked pins, with their bits.
    pub fn iter_sequential(&self) -> (r: Vec<(String, ChannelRange)>)
        ensures
            ranges_view(r@) == as_ranges(select(self.pins(), |k: PinKind| k.is_sequential())),
    {
        self.listing(Which::Sequential)
    }
    /// The bits of the pin `name`; with `relative`, the bits of that part of the pin, counted
    /// from the pin's first bit. Fails when there is no such pin or the part is wider than it.
    pub fn real_range(&self, name: &str, relative: Option<&ChannelRange>) -> (r: Result<ChannelRange, ()>)
        requires
            find_pin(self.pins(), name@) matches Some(p) ==> (relative matches Some(rel) ==> (
                p.hi - p.lo + 1 >= rel.width() ==> p.lo + rel.hi() <= u16::MAX)),
        ensures
            match find_pin(self.pins(), name@) {
                None => r is Err,
                Some(p) => match relative {
                    None => r matches Ok(c) && c.lo() == p.lo && c.hi() == p.hi,
                    Some(rel) => if p.hi - p.lo + 1 < rel.width() {
                        r is Err
                    } else {
                        r matches Ok(c) && c.lo() == p.lo + rel.lo() && c.hi() == p.lo + rel.hi()
                    },
                },
            },
    {
        let ghost p = self.pins();
        let mut i: usize = 0;
        assert(p.subrange(0, p.len() as int) == p);
        while i < self.map.len()
            invariant
                i <= self.map@.len(),
                p == self.pins(),
                find_pin(p, name@) == find_pin(p.subrange(i as int, p.len() as int), name@),
                find_pin(p, name@) matches Some(q) ==> (relative matches Some(rel) ==> (
                    q.hi - q.lo + 1 >= rel.width() ==> q.lo + rel.hi() <= u16::MAX)),
            decreases self.map@.len() - i,
        {
            proof {
                assert(p.subrange(i as int, p.len() as int).drop_first() == p.subrange(i + 1, p.len() as int));
            }
            if str_eq(self.map[i].0.as_str(), name) {
                let raw = self.map[i].1.unwrap();
                assert(p[i as int].0 == name@);
                assert(find_pin(p, name@) == Some(p[i as int].1));
                return match relative {
                    Some(rel) => {
                        if raw.size() < rel.size() {
                            Err(())
                        } else {
                            let lo = rel.start();
                            let hi = rel.end();
                            Ok(ChannelRange::new(raw.start() + lo, raw.start() + hi))
                        }
                    },
                    None => Ok(raw),
                };
            }
            i += 1;
        }
        Err(())
    }

    /// Whether `name` is an input pin.
    pub fn is_input(&self, name: &str) -> (b: bool)
        ensures
            b == exists|i: int| 0 <= i < self.pins().len() && #[trigger] self.pins()[i].0 == name@
                && self.pins()[i].1.kind.is_input(),
    {
        self.has_pin(name, Which::Inputs)
    }

    fn has_pin(&self, name: &str, which: Which) -> (b: bool)
        ensures
            b == exists|i: int| 0 <= i < self.pins().len() && #[trigger] self.pins()[i].0 == name@
                && keeps(which)(self.pins()[i].1.kind),
    {
        let ghost p = self.pins();
        let mut i: usize = 0;
        while i < self.map.len()
            invariant
                i <= self.map@.len(),
                p == self.pins(),
                forall|j: int| 0 <= j < i ==> !(#[trigger] p[j].0 == name@ && keeps(which)(p[j].1.kind)),
            decreases self.map@.len() - i,
        {
            let pin = self.map[i].1;
            let keep = match which {
                Which::Inputs => matches!(pin, ChannelPin::ComIn(_) | ChannelPin::SeqIn(_)),
                Which::Outputs => matches!(pin, ChannelPin::ComOut(_) | ChannelPin::SeqOut(_)),
                Which::All => true,
                Which::Combinatorial => matches!(pin, ChannelPin::ComIn(_) | ChannelPin::ComOut(_)),
                Which::Sequential => matches!(pin, ChannelPin::SeqIn(_) | ChannelPin::SeqOut(_)),
            };
            assert(keep == keeps(which)(p[i as int].1.kind));
            if keep && str_eq(self.map[i].0.as_str(), name) {
                assert(p[i as int].0 == name@);
                return true;
            }
            i += 1;
        }
        false
    }

    /// Whether `name` reacts at once (a pin that is not clocked) or only on the clock
    /// (any other name).
    pub fn clocked(&self, name: &str) -> (c: ClockBehavior)
        ensures
            (c == ClockBehavior::Combinatorial) == exists|i: int| 0 <= i < self.pins().len()
                && #[trigger] self.pins()[i].0 == name@ && self.pins()[i].1.kind.is_combinatorial(),
    {
        if self.has_pin(name, Which::Combinatorial) {
            ClockBehavior::Combinatorial
        } else {
            ClockBehavior::Sequential
        }
    }

    /// Whether the chip has a clocked pin.
    pub fn has_clocked(&self) -> (b: bool)
        ensures
            b == (select(self.pins(), |k: PinKind| k.is_sequential()).len() > 0),
    {
        let l = self.listing(Which::Sequential);
        assert(ranges_view(l@).len() == l@.len());
        l.len() > 0
    }

    fn extent(&self, which: Which) -> (n: usize)
        ensures
            n == bits_needed(select(self.pins(), keeps(which))),
            n <= 0x10000,
    {
        let ghost p = self.pins();
        let mut n: usize = 0;
        let mut i: usize = 0;
        while i < self.map.len()
            invariant
                i <= self.map@.len(),
                p == self.pins(),
                n == bits_needed(select(p.take(i as int), keeps(which))),
                n <= 0x10000,
            decreases self.map@.len() - i,
        {
            let pin = self.map[i].1;
            let keep = match which {
                Which::Inputs => matches!(pin, ChannelPin::ComIn(_) | ChannelPin::SeqIn(_)),
                Which::Outputs => matches!(pin, ChannelPin::ComOut(_) | ChannelPin::SeqOut(_)),
                Which::All => true,
                Which::Combinatorial => matches!(pin, ChannelPin::ComIn(_) | ChannelPin::ComOut(_)),
                Which::Sequential => matches!(pin, ChannelPin::SeqIn(_) | ChannelPin::SeqOut(_)),
            };
            proof {
                assert(p.take(i + 1).drop_last() == p.take(i as int));
                assert(p.take(i + 1).last() == p[i as int]);
                assert(keep == keeps(which)(p[i as int].1.kind));
            }
            proof {
                let sel = select(p.take(i as int), keeps(which));
                assert(sel.push(p[i as int]).drop_last() == sel);
            }
            if keep {
                let here = pin.unwrap().end() as usize + 1;
                if n < here {
                    n = here;
                }
            }
            i += 1;
        }
        assert(p.take(self.map@.len() as int) == p);
        n
    }

    /// How many input bits the chip takes: one past the highest input bit, 0 without inputs.
    pub fn size_in(&self) -> (n: usize)
        ensures
            n == bits_needed(select(self.pins(), |k: PinKind| k.is_input())),
            n <= 0x10000,
    {
        self.extent(Which::Inputs)
    }

    /// How many output bits the chip gives: one past the highest output bit.
    pub fn size_out(&self) -> (n: usize)
        requires
            select(self.pins(), |k: PinKind| k.is_output()).len() > 0,
        ensures
            n == bits_needed(select(self.pins(), |k: PinKind| k.is_output())),
            n <= 0x10000,
    {
        self.extent(Which::Outputs)
    }
}

/// The declared pins of a side are laid out one after the other without gaps: the first
/// starts at bit 0, each one ends where its width says and the next starts right after, and
/// the last ends at the total width minus one.
pub proof fn lemma_layout_contiguous(cs: Seq<ChannelV>, clocked: Seq<Seq<char>>, input: bool)
    requires
        widths_ok(cs),
    ensures
        ({
            let es = side_entries(cs, clocked, input);
            &&& es.len() == cs.len()
            &&& cs.len() > 0 ==> es[0].1.lo == 0
            &&& forall|k: int| 0 <= k < cs.len() ==> (#[trigger] es[k]).1.lo + pin_width(cs[k]) - 1 == es[k].1.hi
                && es[k].1.lo <= es[k].1.hi
            &&& forall|k: int| 0 <= k < cs.len() - 1 ==> (#[trigger] es[k + 1]).1.lo == es[k].1.hi + 1
            &&& cs.len() > 0 ==> es[cs.len() - 1].1.hi == total_width(cs) - 1
        }),
{
    let es = side_entries(cs, clocked, input);
    assert forall|k: int| 0 <= k < cs.len() implies total_width(cs.take(k + 1)) == total_width(cs.take(k)) + pin_width(cs[k])
        && 1 <= pin_width(cs[k]) && total_width(cs.take(k + 1)) <= 0xffff && 0 <= total_width(cs.take(k)) by {
        assert(cs.take(k + 1).drop_last() == cs.take(k));
        lemma_total_width_prefix(cs, k + 1);
        lemma_total_width_prefix(cs, k);
    }
    assert forall|k: int| 0 <= k < cs.len() implies (#[trigger] es[k]).1.lo + pin_width(cs[k]) - 1 == es[k].1.hi
        && es[k].1.lo <= es[k].1.hi by {
        assert(total_width(cs.take(k + 1)) == total_width(cs.take(k)) + pin_width(cs[k]));
    }
    assert forall|k: int| 0 <= k < cs.len() - 1 implies (#[trigger] es[k + 1]).1.lo == es[k].1.hi + 1 by {
        assert(total_width(cs.take(k + 1)) == total_width(cs.take(k)) + pin_width(cs[k]));
        assert(total_width(cs.take(k + 2)) == total_width(cs.take(k + 1)) + pin_width(cs[k + 1]));
    }
    if cs.len() > 0 {
        assert(cs.take(0) =~= Seq::<ChannelV>::empty());
        let n = cs.len() - 1;
        assert(total_width(cs.take(n + 1)) == total_width(cs.take(n)) + pin_width(cs[n]));
        assert(cs.take(n + 1) == cs);
    }
}

/// Selecting by two complementary kinds splits the pins: as multisets, those kept by `a`
/// and those kept by `b` together are all of them.
proof fn lemma_select_split(p: Seq<(Seq<char>, PinV)>, a: spec_fn(PinKind) -> bool, b: spec_fn(PinKind) -> bool)
    requires
        forall|k: PinKind| #[trigger] a(k) != b(k),
    ensures
        as_ranges(p).to_multiset() == as_ranges(select(p, a)).to_multiset().add(as_ranges(select(p, b)).to_multiset()),
    decreases p.len(),
{
    broadcast use vstd::seq_lib::group_to_multiset_ensures, vstd::multiset::group_multiset_axioms;
    if p.len() == 0 {
        assert(as_ranges(p) =~= Seq::<(Seq<char>, u16, u16)>::empty());
        assert(as_ranges(select(p, a)) =~= Seq::<(Seq<char>, u16, u16)>::empty());
        assert(as_ranges(select(p, b)) =~= Seq::<(Seq<char>, u16, u16)>::empty());
        assert(Seq::<(Seq<char>, u16, u16)>::empty().to_multiset() =~= vstd::multiset::Multiset::empty());
        assert(as_ranges(p).to_multiset() =~= vstd::multiset::Multiset::<(Seq<char>, u16, u16)>::empty().add(vstd::multiset::Multiset::empty()));
    } else {
        let init = p.drop_last();
        let e = p.last();
        let x = (e.0, e.1.lo, e.1.hi);
        lemma_select_split(init, a, b);
        assert(as_ranges(p) =~= as_ranges(init).push(x));
        if a(e.1.kind) {
            assert(as_ranges(select(p, a)) =~= as_ranges(select(init, a)).push(x));
            assert(as_ranges(select(p, b)) =~= as_ranges(select(init, b)));
        } else {
            assert(b(e.1.kind));
            assert(as_ranges(select(p, a)) =~= as_ranges(select(init, a)));
            assert(as_ranges(select(p, b)) =~= as_ranges(select(init, b)).push(x));
        }
        assert(as_ranges(p).to_multiset() =~= as_ranges(select(p, a)).to_multiset().add(as_ranges(select(p, b)).to_multiset()));
    }
}

/// Keeping every kind keeps every pin.
proof fn lemma_select_every(p: Seq<(Seq<char>, PinV)>)
    ensures
        select(p, |k: PinKind| true) == p,
    decreases p.len(),
{
    if p.len() > 0 {
        lemma_select_every(p.drop_last());
        assert(p.drop_last().push(p.last()) =~= p);
    }
}

/// The listings of a chip's pins: the list of all pins is the pins themselves, each once;
/// as multisets it is the inputs together with the outputs, and also the combinatorial pins
/// together with the sequential pins.
pub proof fn lemma_listings_partition(p: Seq<(Seq<char>, PinV)>)
    ensures
        select(p, |k: PinKind| true) == p,
        as_ranges(select(p, |k: PinKind| true)).len() == p.len(),
        as_ranges(select(p, |k: PinKind| true)).to_multiset()
            == as_ranges(select(p, |k: PinKind| k.is_input())).to_multiset().add(as_ranges(select(p, |k: PinKind| k.is_output())).to_multiset()),
        as_ranges(select(p, |k: PinKind| true)).to_multiset()
            == as_ranges(select(p, |k: PinKind| k.is_combinatorial())).to_multiset().add(as_ranges(select(p, |k: PinKind| k.is_sequential())).to_multiset()),
{
    lemma_select_every(p);
    lemma_select_split(p, |k: PinKind| k.is_input(), |k: PinKind| k.is_output());
    lemma_select_split(p, |k: PinKind| k.is_combinatorial(), |k: PinKind| k.is_sequential());
}

} // verus!
