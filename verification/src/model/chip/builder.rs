//! Building the simulation model of a chip from its parts.
use vstd::prelude::*;
use std::collections::VecDeque;
use crate::channel_range::{lemma_range_ext, lemma_span, span, ChannelRange};
use crate::model::parser::{Argument, ArgumentV, Chip as ChipRepr, Connection, ConnectionV, Form, Symbol, SymbolV};
use crate::model::parser::interface::{bits_needed, channels_view, find_pin, gather, pin_entries, select, widths_fit, widths_ok, ChannelPin, Interface, PinKind, PinV};
use crate::text::str_eq;
use super::bits::{bits, bv_clone, bv_fill, bv_repeat, Bits};
use super::builtin;
use super::error::{ErrorV, ModelConstructionError};
use super::native::{Barrier, Hook, NativeChip, Router};
use super::state::{chip_view, native_view, BarrierV, ChipV, NativeV, RequestV};
use super::{ChipModel, Id};

verus! {

broadcast use lemma_span, lemma_range_ext;

/// A chip the builder knows: its interface and its model.
pub struct ChipInfo {
    pub interface: Interface,
    pub chip: ChipModel,
}

/// The chips known so far, by name; each chip built is registered under its name.
pub struct ChipBuilder {
    registered: Vec<(String, ChipInfo)>,
}

/// A part of the chip being built: its model and interface, where its outputs go, and its
/// input bits before any input arrives (constants set).
struct IncompleteBarrier {
    chip: ChipModel,
    interface: Interface,
    router: Router,
    default: Bits,
    clock_mask: Bits,
}

/// A wire inside the chip being built: the part output that drives it and the part inputs
/// it drives.
struct EdgeSet {
    output: Option<Hook>,
    inputs: Vec<Hook>,
}

/// A part of the chip's own pins: bits of its inputs, or of its outputs.
#[derive(Debug, Clone, Copy)]
pub enum OuterHook {
    Output(ChannelRange),
    Input(ChannelRange),
}

/// Abstract form of an [`EdgeSet`].
pub struct EdgeSetV {
    pub output: Option<Hook>,
    pub inputs: Seq<Hook>,
}

/// The connections found so far: the inner wires by name, the parts of the chip's own pins,
/// and the input bits of each part before any input arrives.
pub struct WiringV {
    pub edges: Seq<(Seq<char>, EdgeSetV)>,
    pub outer: Seq<(OuterHook, Seq<Hook>)>,
    pub defaults: Seq<Seq<bool>>,
}

/// How connecting pins ends: the connections, an error, or `Aborts` where a bus lies past
/// 16 bits or a constant is set on bits past the end of the part's input bits.
pub enum Wired {
    Done(WiringV),
    Failed(ErrorV),
    Aborts,
}

/// The routing of a finished chip: where its inputs go, where each part's outputs go, and
/// each part's input bits before any input arrives.
pub struct BuiltV {
    pub in_router: Seq<(ChannelRange, Hook)>,
    pub routers: Seq<Seq<(ChannelRange, Hook)>>,
    pub defaults: Seq<Seq<bool>>,
    pub masks: Seq<Seq<bool>>,
}

/// How building a chip ends.
pub enum BuildV {
    Done(BuiltV),
    Failed(ErrorV),
    Aborts,
}

/// The bits `bus` of the pin `name` (all its bits without `bus`), as `Interface::real_range`
/// finds them.
pub open spec fn resolve(pins: Seq<(Seq<char>, PinV)>, name: Seq<char>, bus: Option<ChannelRange>) -> Option<ChannelRange> {
    match find_pin(pins, name) {
        None => None,
        Some(p) => match bus {
            None => Some(span(p.lo, p.hi)),
            Some(rel) => if p.hi - p.lo + 1 < rel.width() {
                None
            } else {
                Some(span((p.lo + rel.lo()) as u16, (p.lo + rel.hi()) as u16))
            },
        },
    }
}

/// Whether finding the bits `bus` of the pin `name` would go beyond 16 bits.
pub open spec fn resolve_overflows(pins: Seq<(Seq<char>, PinV)>, name: Seq<char>, bus: Option<ChannelRange>) -> bool {
    &&& find_pin(pins, name) matches Some(p)
    &&& bus matches Some(rel)
    &&& p.hi - p.lo + 1 >= rel.width()
    &&& p.lo + rel.hi() > u16::MAX
}

/// Whether `name` is an input pin.
pub open spec fn is_input_pin(pins: Seq<(Seq<char>, PinV)>, name: Seq<char>) -> bool {
    exists|i: int| 0 <= i < pins.len() && #[trigger] pins[i].0 == name && pins[i].1.kind.is_input()
}

/// The number of input bits of a chip with these pins.
pub open spec fn inputs_needed(pins: Seq<(Seq<char>, PinV)>) -> int {
    bits_needed(select(pins, |k: PinKind| k.is_input()))
}

/// `s` with the bits `lo..=hi` set to `b`.
pub open spec fn fill(s: Seq<bool>, lo: int, hi: int, b: bool) -> Seq<bool> {
    Seq::new(s.len(), |j: int| if lo <= j <= hi { b } else { s[j] })
}

/// The wires after `hook` is connected to the wire `name`, as an input or as its source;
/// `None` when the wire already has a source.
pub open spec fn edge_insert(edges: Seq<(Seq<char>, EdgeSetV)>, name: Seq<char>, hook: Hook, as_input: bool) -> Option<Seq<(Seq<char>, EdgeSetV)>> {
    if exists|j: int| 0 <= j < edges.len() && edges[j].0 == name {
        let j = choose|j: int| 0 <= j < edges.len() && edges[j].0 == name;
        let e = edges[j].1;
        if as_input {
            Some(edges.update(j, (name, EdgeSetV { output: e.output, inputs: e.inputs.push(hook) })))
        } else if e.output is Some {
            None
        } else {
            Some(edges.update(j, (name, EdgeSetV { output: Some(hook), inputs: e.inputs })))
        }
    } else if as_input {
        Some(edges.push((name, EdgeSetV { output: None, inputs: seq![hook] })))
    } else {
        Some(edges.push((name, EdgeSetV { output: Some(hook), inputs: seq![] })))
    }
}

/// The parts of the chip's own pins after `hook` is attached to `key`.
pub open spec fn outer_push(outer: Seq<(OuterHook, Seq<Hook>)>, key: OuterHook, hook: Hook) -> Seq<(OuterHook, Seq<Hook>)> {
    if exists|j: int| 0 <= j < outer.len() && outer[j].0 == key {
        let j = choose|j: int| 0 <= j < outer.len() && outer[j].0 == key;
        outer.update(j, (key, outer[j].1.push(hook)))
    } else {
        outer.push((key, seq![hook]))
    }
}

/// Connects one pin assignment of part `k` (with pins `inner`) of the chip `top_name`
/// (with pins `top`).
pub open spec fn wire_arg(
    w: WiringV,
    k: int,
    inner: Seq<(Seq<char>, PinV)>,
    a: ArgumentV,
    top: Seq<(Seq<char>, PinV)>,
    top_name: Seq<char>,
) -> Wired {
    if resolve_overflows(inner, a.internal, a.internal_bus) {
        Wired::Aborts
    } else {
        match resolve(inner, a.internal, a.internal_bus) {
            None => Wired::Failed(ErrorV::PinNotFound(a.internal, top_name)),
            Some(ib) => match a.external {
                SymbolV::Name(ext) => {
                    let hook = Hook { id: Id((k + 1) as u16), range: ib };
                    let as_input = is_input_pin(inner, a.internal);
                    if resolve_overflows(top, ext, a.external_bus) {
                        Wired::Aborts
                    } else {
                        match resolve(top, ext, a.external_bus) {
                            Some(outer) => Wired::Done(WiringV {
                                edges: w.edges,
                                outer: outer_push(
                                    w.outer,
                                    if as_input { OuterHook::Input(outer) } else { OuterHook::Output(outer) },
                                    hook,
                                ),
                                defaults: w.defaults,
                            }),
                            None => match edge_insert(w.edges, ext, hook, as_input) {
                                Some(e) => Wired::Done(WiringV { edges: e, outer: w.outer, defaults: w.defaults }),
                                None => Wired::Failed(ErrorV::ConflictingSources(ext)),
                            },
                        }
                    }
                },
                SymbolV::Value(v) => if ib.hi() >= w.defaults[k].len() {
                    Wired::Aborts
                } else {
                    Wired::Done(WiringV {
                        edges: w.edges,
                        outer: w.outer,
                        defaults: w.defaults.update(k, fill(w.defaults[k], ib.lo() as int, ib.hi() as int, v.truth())),
                    })
                },
                SymbolV::Number(_) => Wired::Failed(ErrorV::ValuesNotSupported(a.internal)),
            },
        }
    }
}

/// Connects the pin assignments `args` of part `k` in order.
pub open spec fn wire_args(
    w: WiringV,
    k: int,
    inner: Seq<(Seq<char>, PinV)>,
    args: Seq<ArgumentV>,
    top: Seq<(Seq<char>, PinV)>,
    top_name: Seq<char>,
) -> Wired
    decreases args.len(),
{
    if args.len() == 0 {
        Wired::Done(w)
    } else {
        match wire_args(w, k, inner, args.drop_last(), top, top_name) {
            Wired::Done(w2) => wire_arg(w2, k, inner, args.last(), top, top_name),
            other => other,
        }
    }
}

/// Connects the first `n` parts in order; a part is given by its pins and its assignments.
pub open spec fn wire_parts(
    w0: WiringV,
    parts: Seq<(Seq<(Seq<char>, PinV)>, Seq<ArgumentV>)>,
    n: int,
    top: Seq<(Seq<char>, PinV)>,
    top_name: Seq<char>,
) -> Wired
    decreases n,
{
    if n <= 0 {
        Wired::Done(w0)
    } else {
        match wire_parts(w0, parts, n - 1, top, top_name) {
            Wired::Done(w) => wire_args(w, n - 1, parts[n - 1].0, parts[n - 1].1, top, top_name),
            other => other,
        }
    }
}

/// The connections before any assignment: no wires, and every input bit of every part 0.
pub open spec fn initial_wiring(parts: Seq<(Seq<(Seq<char>, PinV)>, Seq<ArgumentV>)>) -> WiringV {
    WiringV {
        edges: seq![],
        outer: seq![],
        defaults: Seq::new(parts.len(), |k: int| zeros(inputs_needed(parts[k].0))),
    }
}

/// Where the chip's inputs go: each part of an input pin to the part inputs attached to it.
pub open spec fn in_routes(outer: Seq<(OuterHook, Seq<Hook>)>) -> Seq<(ChannelRange, Hook)>
    decreases outer.len(),
{
    if outer.len() == 0 {
        seq![]
    } else {
        in_routes(outer.drop_last()) + match outer.last().0 {
            OuterHook::Input(r) => outer.last().1.map_values(|h: Hook| (r, h)),
            OuterHook::Output(_) => seq![],
        }
    }
}

/// The routes from the hooks of part `id` among `hs` to the output bits `r` of the chip.
pub open spec fn to_output(hs: Seq<Hook>, id: Id, r: ChannelRange) -> Seq<(ChannelRange, Hook)>
    decreases hs.len(),
{
    if hs.len() == 0 {
        seq![]
    } else {
        to_output(hs.drop_last(), id, r) + if hs.last().id == id {
            seq![(hs.last().range, Hook { id: Id(0), range: r })]
        } else {
            seq![]
        }
    }
}

/// Where the outputs of part `id` go among the chip's own output pins.
pub open spec fn out_routes(outer: Seq<(OuterHook, Seq<Hook>)>, id: Id) -> Seq<(ChannelRange, Hook)>
    decreases outer.len(),
{
    if outer.len() == 0 {
        seq![]
    } else {
        out_routes(outer.drop_last(), id) + match outer.last().0 {
            OuterHook::Output(r) => to_output(outer.last().1, id, r),
            OuterHook::Input(_) => seq![],
        }
    }
}

/// Where the outputs of part `id` go along the inner wires it drives.
pub open spec fn edge_routes(edges: Seq<(Seq<char>, EdgeSetV)>, id: Id) -> Seq<(ChannelRange, Hook)>
    decreases edges.len(),
{
    if edges.len() == 0 {
        seq![]
    } else {
        edge_routes(edges.drop_last(), id) + match edges.last().1.output {
            Some(o) => if o.id == id {
                edges.last().1.inputs.map_values(|i: Hook| (o.range, i))
            } else {
                seq![]
            },
            None => seq![],
        }
    }
}

/// The first inner wire without a source.
pub open spec fn first_sourceless(edges: Seq<(Seq<char>, EdgeSetV)>) -> Option<Seq<char>>
    decreases edges.len(),
{
    if edges.len() == 0 {
        None
    } else if edges[0].1.output is None {
        Some(edges[0].0)
    } else {
        first_sourceless(edges.drop_first())
    }
}

/// The pins of the registered chip `name`: the first of that name.
pub open spec fn registered_pins(reg: Seq<(Seq<char>, Seq<(Seq<char>, PinV)>)>, name: Seq<char>) -> Option<Seq<(Seq<char>, PinV)>>
    decreases reg.len(),
{
    if reg.len() == 0 {
        None
    } else if reg[0].0 == name {
        Some(reg[0].1)
    } else {
        registered_pins(reg.drop_first(), name)
    }
}

/// The names of the parts' chips that are not registered, in order.
pub open spec fn missing_names(reg: Seq<(Seq<char>, Seq<(Seq<char>, PinV)>)>, conns: Seq<ConnectionV>) -> Seq<Seq<char>>
    decreases conns.len(),
{
    if conns.len() == 0 {
        seq![]
    } else {
        missing_names(reg, conns.drop_last()) + if registered_pins(reg, conns.last().chip_name) is None {
            seq![conns.last().chip_name]
        } else {
            seq![]
        }
    }
}

/// The parts of a chip: each registered chip's pins with the part's assignments.
pub open spec fn parts_of(reg: Seq<(Seq<char>, Seq<(Seq<char>, PinV)>)>, conns: Seq<ConnectionV>) -> Seq<(Seq<(Seq<char>, PinV)>, Seq<ArgumentV>)> {
    Seq::new(conns.len(), |k: int| (registered_pins(reg, conns[k].chip_name)->0, conns[k].inputs))
}

/// How building the chip `top_name` (pins `top`) from the parts `conns` ends, given the
/// registered chips.
pub open spec fn build_outcome(
    reg: Seq<(Seq<char>, Seq<(Seq<char>, PinV)>)>,
    top: Seq<(Seq<char>, PinV)>,
    top_name: Seq<char>,
    conns: Seq<ConnectionV>,
) -> BuildV {
    if conns.len() >= 0xffff {
        BuildV::Aborts
    } else if missing_names(reg, conns).len() > 0 {
        BuildV::Failed(ErrorV::Needs(missing_names(reg, conns)))
    } else {
        let parts = parts_of(reg, conns);
        match wire_parts(initial_wiring(parts), parts, parts.len() as int, top, top_name) {
            Wired::Aborts => BuildV::Aborts,
            Wired::Failed(e) => BuildV::Failed(e),
            Wired::Done(w) => match first_sourceless(w.edges) {
                Some(name) => BuildV::Failed(ErrorV::NoSource(name)),
                None => if select(top, |k: PinKind| k.is_output()).len() == 0 {
                    BuildV::Aborts
                } else {
                    BuildV::Done(BuiltV {
                        in_router: in_routes(w.outer),
                        routers: Seq::new(parts.len(), |k: int| out_routes(w.outer, Id((k + 1) as u16)) + edge_routes(w.edges, Id((k + 1) as u16))),
                        defaults: w.defaults,
                        masks: initial_masks(parts),
                    })
                },
            },
        }
    }
}

/// The abstract form of the inner wires.
spec fn edges_view(v: Seq<(String, EdgeSet)>) -> Seq<(Seq<char>, EdgeSetV)> {
    v.map_values(|e: (String, EdgeSet)| (e.0@, EdgeSetV { output: e.1.output, inputs: e.1.inputs@ }))
}

/// The abstract form of the parts of the chip's own pins.
spec fn outer_view(v: Seq<(OuterHook, Vec<Hook>)>) -> Seq<(OuterHook, Seq<Hook>)> {
    v.map_values(|e: (OuterHook, Vec<Hook>)| (e.0, e.1@))
}

/// Whether no two wires share a name.
pub open spec fn edge_names_distinct(e: Seq<(Seq<char>, EdgeSetV)>) -> bool {
    forall|i: int, j: int| 0 <= i < j < e.len() ==> e[i].0 != e[j].0
}

/// Whether no two entries share a key.
pub open spec fn outer_keys_distinct(o: Seq<(OuterHook, Seq<Hook>)>) -> bool {
    forall|i: int, j: int| 0 <= i < j < o.len() ==> o[i].0 != o[j].0
}

/// The parts being built: each one's pins and assignments.
spec fn chips_parts(c: Seq<(IncompleteBarrier, Vec<Argument>)>) -> Seq<(Seq<(Seq<char>, PinV)>, Seq<ArgumentV>)> {
    c.map_values(|e: (IncompleteBarrier, Vec<Argument>)| (e.0.interface.pins(), e.1@.map_values(|a: Argument| a@)))
}

/// The input bits of the parts being built before any input arrives.
spec fn chips_defaults(c: Seq<(IncompleteBarrier, Vec<Argument>)>) -> Seq<Seq<bool>> {
    c.map_values(|e: (IncompleteBarrier, Vec<Argument>)| bits(e.0.default))
}

/// The routes of the parts being built.
spec fn chips_routers(c: Seq<(IncompleteBarrier, Vec<Argument>)>) -> Seq<Seq<(ChannelRange, Hook)>> {
    c.map_values(|e: (IncompleteBarrier, Vec<Argument>)| e.0.router.map@)
}

/// The clock masks of the parts being built.
spec fn chips_masks(c: Seq<(IncompleteBarrier, Vec<Argument>)>) -> Seq<Seq<bool>> {
    c.map_values(|e: (IncompleteBarrier, Vec<Argument>)| bits(e.0.clock_mask))
}

/// The states of the chips of the parts being built.
spec fn chips_models(c: Seq<(IncompleteBarrier, Vec<Argument>)>) -> Seq<ChipV> {
    c.map_values(|e: (IncompleteBarrier, Vec<Argument>)| chip_view(e.0.chip))
}

/// One step of connecting: done, failed, or `Aborts` as [`Wired::Aborts`] describes.
enum Step {
    Done,
    Failed(ModelConstructionError),
    Aborts,
}

/// How connecting all parts ends.
enum Connected {
    Done(Vec<(String, EdgeSet)>, Vec<(OuterHook, Vec<Hook>)>),
    Failed(ModelConstructionError),
    Aborts,
}

/// How building a chip ends.
enum Built {
    Done(ChipInfo),
    Failed(ModelConstructionError),
    Aborts,
}

fn same_key(a: &OuterHook, b: &OuterHook) -> (r: bool)
    ensures
        r == (*a == *b),
{
    match (a, b) {
        (OuterHook::Output(x), OuterHook::Output(y)) => x.same(y),
        (OuterHook::Input(x), OuterHook::Input(y)) => x.same(y),
        _ => false,
    }
}

impl EdgeSet {
    /// Connects `item` to the wire `key`: as one more input, or as its source; fails when the
    /// wire already has a source.
    fn insert(map: &mut Vec<(String, EdgeSet)>, key: &String, item: Hook, as_input: bool) -> (r: Result<(), ModelConstructionError>)
        requires
            edge_names_distinct(edges_view(old(map)@)),
        ensures
            edge_names_distinct(edges_view(final(map)@)),
            match edge_insert(edges_view(old(map)@), key@, item, as_input) {
                Some(e) => r is Ok && edges_view(final(map)@) == e,
                None => r matches Err(x) && x@ == ErrorV::ConflictingSources(key@)
                    && edges_view(final(map)@) == edges_view(old(map)@),
            },
    {
        let ghost before = edges_view(map@);
        let mut j: usize = 0;
        while j < map.len()
            invariant
                j <= map@.len(),
                map@ == old(map)@,
                before == edges_view(map@),
                edge_names_distinct(before),
                forall|m: int| 0 <= m < j ==> before[m].0 != key@,
            decreases map@.len() - j,
        {
            if str_eq(map[j].0.as_str(), key.as_str()) {
                proof {
                    assert(before[j as int].0 == key@);
                    let c = choose|m: int| 0 <= m < before.len() && before[m].0 == key@;
                    assert(c == j);
                }
                if !as_input && map[j].1.output.is_some() {
                    return Err(ModelConstructionError::ConflictingSources(key.clone()));
                }
                let (name, mut entry) = map.remove(j);
                if as_input {
                    entry.inputs.push(item);
                } else {
                    entry.output = Some(item);
                }
                map.insert(j, (name, entry));
                proof {
                    assert(edges_view(map@) =~= before.update(j as int, (key@, EdgeSetV { output: entry.output, inputs: entry.inputs@ })));
                }
                return Ok(());
            }
            j += 1;
        }
        let entry = if as_input {
            EdgeSet { output: None, inputs: vec![item] }
        } else {
            EdgeSet { output: Some(item), inputs: Vec::new() }
        };
        map.push((key.clone(), entry));
        proof {
            assert(entry.inputs@ =~= if as_input { seq![item] } else { Seq::<Hook>::empty() });
            assert(edges_view(map@) =~= before.push((key@, EdgeSetV { output: entry.output, inputs: entry.inputs@ })));
        }
        Ok(())
    }
}

/// Attaches `value` to the entry `key`, making the entry if there is none.
fn push_to_entry(map: &mut Vec<(OuterHook, Vec<Hook>)>, key: OuterHook, value: Hook)
    requires
        outer_keys_distinct(outer_view(old(map)@)),
    ensures
        outer_keys_distinct(outer_view(final(map)@)),
        outer_view(final(map)@) == outer_push(outer_view(old(map)@), key, value),
{
    let ghost before = outer_view(map@);
    let mut j: usize = 0;
    while j < map.len()
        invariant
            j <= map@.len(),
            map@ == old(map)@,
            before == outer_view(map@),
            outer_keys_distinct(before),
            forall|m: int| 0 <= m < j ==> before[m].0 != key,
        decreases map@.len() - j,
    {
        if same_key(&map[j].0, &key) {
            proof {
                let c = choose|m: int| 0 <= m < before.len() && before[m].0 == key;
                assert(c == j);
            }
            let (k, mut hooks) = map.remove(j);
            hooks.push(value);
            map.insert(j, (k, hooks));
            proof {
                assert(outer_view(map@) =~= before.update(j as int, (key, before[j as int].1.push(value))));
            }
            return;
        }
        j += 1;
    }
    let hooks = vec![value];
    assert(hooks@ =~= seq![value]);
    map.push((key, hooks));
    proof {
        assert(outer_view(map@) =~= before.push((key, seq![value])));
    }
}

/// The bits a pin part names, as `Interface::real_range` finds them.
fn find_range(iface: &Interface, name: &str, bus: &Option<ChannelRange>) -> (r: Option<ChannelRange>)
    requires
        !resolve_overflows(iface.pins(), name@, *bus),
    ensures
        r == resolve(iface.pins(), name@, *bus),
{
    let res = match bus {
        Some(b) => iface.real_range(name, Some(b)),
        None => iface.real_range(name, None),
    };
    match res {
        Ok(c) => {
            proof {
                lemma_range_ext(c);
            }
            Some(c)
        },
        Err(_) => None,
    }
}

/// Whether finding the bits of a pin part would go beyond 16 bits.
fn range_overflows(iface: &Interface, name: &str, bus: &Option<ChannelRange>) -> (b: bool)
    ensures
        b == resolve_overflows(iface.pins(), name@, *bus),
{
    match bus {
        None => false,
        Some(rel) => {
            match iface.real_range(name, None) {
                Err(_) => false,
                Ok(p) => {
                    let w = p.size();
                    let rw = rel.size();
                    w >= rw && (p.start() as usize + rel.end() as usize) > 0xffff
                },
            }
        },
    }
}

/// Connects one pin assignment `a` of part `k`, whose default input bits are `default`.
fn wire_one(
    default: &mut Bits,
    inner: &Interface,
    k: usize,
    a: &Argument,
    top: &Interface,
    edges: &mut Vec<(String, EdgeSet)>,
    outer: &mut Vec<(OuterHook, Vec<Hook>)>,
    Ghost(ds): Ghost<Seq<Seq<bool>>>,
) -> (r: Step)
    requires
        k < 0xffff,
        k < ds.len(),
        ds[k as int] == bits(*old(default)),
        edge_names_distinct(edges_view(old(edges)@)),
        outer_keys_distinct(outer_view(old(outer)@)),
    ensures
        edge_names_distinct(edges_view(final(edges)@)),
        outer_keys_distinct(outer_view(final(outer)@)),
        match wire_arg(WiringV { edges: edges_view(old(edges)@), outer: outer_view(old(outer)@), defaults: ds }, k as int, inner.pins(), a@, top.pins(), top.name@) {
            Wired::Done(w) => r is Done && edges_view(final(edges)@) == w.edges && outer_view(final(outer)@) == w.outer
                && w.defaults == ds.update(k as int, bits(*final(default))),
            Wired::Failed(e) => r matches Step::Failed(x) && x@ == e,
            Wired::Aborts => r is Aborts,
        },
{
    let ghost w = WiringV { edges: edges_view(edges@), outer: outer_view(outer@), defaults: ds };
    assert(ds.update(k as int, bits(*default)) =~= ds);
    if range_overflows(inner, a.internal.as_str(), &a.internal_bus) {
        return Step::Aborts;
    }
    let internal_bus = match find_range(inner, a.internal.as_str(), &a.internal_bus) {
        Some(c) => c,
        None => {
            return Step::Failed(ModelConstructionError::PinNotFound(a.internal.clone(), top.name.clone()));
        },
    };
    match &a.external {
        Symbol::Name(external) => {
            let hook = Hook { id: Id((k + 1) as u16), range: internal_bus };
            let as_input = inner.is_input(a.internal.as_str());
            if range_overflows(top, external.as_str(), &a.external_bus) {
                return Step::Aborts;
            }
            match find_range(top, external.as_str(), &a.external_bus) {
                Some(outer_range) => {
                    let key = if as_input { OuterHook::Input(outer_range) } else { OuterHook::Output(outer_range) };
                    push_to_entry(outer, key, hook);
                    Step::Done
                },
                None => match EdgeSet::insert(edges, external, hook, as_input) {
                    Ok(()) => Step::Done,
                    Err(e) => Step::Failed(e),
                },
            }
        },
        Symbol::Value(val) => {
            let lo = internal_bus.start() as usize;
            let hi = internal_bus.end() as usize;
            if hi >= super::bits::bv_len(default) {
                return Step::Aborts;
            }
            let b: bool = (*val).into();
            bv_fill(default, lo, hi, b);
            assert(bits(*default) == fill(ds[k as int], lo as int, hi as int, val.truth()));
            Step::Done
        },
        Symbol::Number(_) => Step::Failed(ModelConstructionError::ValuesNotSupported(a.internal.clone())),
    }
}

/// Connects the pins of all parts in order: wires inside the chip, parts of the chip's own
/// pins, and constant inputs.
fn create_connection_maps(chips: &mut Vec<(IncompleteBarrier, Vec<Argument>)>, top_interface: &Interface) -> (r: Connected)
    requires
        old(chips)@.len() < 0xffff,
    ensures
        chips_parts(final(chips)@) == chips_parts(old(chips)@),
        chips_routers(final(chips)@) == chips_routers(old(chips)@),
        chips_masks(final(chips)@) == chips_masks(old(chips)@),
        chips_models(final(chips)@) == chips_models(old(chips)@),
        match wire_parts(
            WiringV { edges: seq![], outer: seq![], defaults: chips_defaults(old(chips)@) },
            chips_parts(old(chips)@),
            old(chips)@.len() as int,
            top_interface.pins(),
            top_interface.name@,
        ) {
            Wired::Done(w) => r matches Connected::Done(e, o) && edges_view(e@) == w.edges
                && outer_view(o@) == w.outer && chips_defaults(final(chips)@) == w.defaults,
            Wired::Failed(e) => r matches Connected::Failed(x) && x@ == e,
            Wired::Aborts => r is Aborts,
        },
{
    let ghost parts = chips_parts(chips@);
    let ghost routers = chips_routers(chips@);
    let ghost masks = chips_masks(chips@);
    let ghost models = chips_models(chips@);
    let ghost w0 = WiringV { edges: seq![], outer: seq![], defaults: chips_defaults(chips@) };
    let ghost top = top_interface.pins();
    let ghost top_name = top_interface.name@;
    let mut edges: Vec<(String, EdgeSet)> = Vec::new();
    let mut outer: Vec<(OuterHook, Vec<Hook>)> = Vec::new();
    assert(edges_view(edges@) =~= Seq::<(Seq<char>, EdgeSetV)>::empty());
    assert(outer_view(outer@) =~= Seq::<(OuterHook, Seq<Hook>)>::empty());
    let n = chips.len();
    let mut k: usize = 0;
    while k < n
        invariant
            k <= n,
            n == chips@.len(),
            n < 0xffff,
            chips_parts(chips@) == parts,
            chips_routers(chips@) == routers,
            chips_masks(chips@) == masks,
            chips_models(chips@) == models,
            models == chips_models(old(chips)@),
            parts == chips_parts(old(chips)@),
            routers == chips_routers(old(chips)@),
            masks == chips_masks(old(chips)@),
            w0 == (WiringV { edges: seq![], outer: seq![], defaults: chips_defaults(old(chips)@) }),
            top == top_interface.pins(),
            top_name == top_interface.name@,
            edge_names_distinct(edges_view(edges@)),
            outer_keys_distinct(outer_view(outer@)),
            wire_parts(w0, parts, k as int, top, top_name) == Wired::Done(
                WiringV { edges: edges_view(edges@), outer: outer_view(outer@), defaults: chips_defaults(chips@) },
            ),
        decreases n - k,
    {
        let ghost before = chips@;
        let ghost ds = chips_defaults(chips@);
        let ghost wk = WiringV { edges: edges_view(edges@), outer: outer_view(outer@), defaults: ds };
        let (mut b, args) = chips.remove(k);
        assert(b.interface.pins() == parts[k as int].0);
        assert(args@.map_values(|a: Argument| a@) == parts[k as int].1);
        let ghost argv = parts[k as int].1;
        let mut j: usize = 0;
        assert(ds.update(k as int, bits(b.default)) =~= ds);
        assert(argv.take(0) =~= Seq::<ArgumentV>::empty());
        while j < args.len()
            invariant
                j <= args@.len(),
                k < n,
                n < 0xffff,
                k < ds.len(),
                before.len() == n,
                chips@ == before.remove(k as int),
                chips_parts(before) == parts,
                chips_routers(before) == routers,
                chips_masks(before) == masks,
                chips_models(before) == models,
                models == chips_models(old(chips)@),
                b.chip == before[k as int].0.chip,
                parts == chips_parts(old(chips)@),
                routers == chips_routers(old(chips)@),
                masks == chips_masks(old(chips)@),
                w0 == (WiringV { edges: seq![], outer: seq![], defaults: chips_defaults(old(chips)@) }),
                ds == chips_defaults(before),
                wire_parts(w0, parts, k as int, top, top_name) == Wired::Done(wk),
                b.router.map@ == before[k as int].0.router.map@,
                bits(b.clock_mask) == bits(before[k as int].0.clock_mask),
                args@ == before[k as int].1@,
                argv == args@.map_values(|a: Argument| a@),
                b.interface.pins() == parts[k as int].0,
                top == top_interface.pins(),
                top_name == top_interface.name@,
                edge_names_distinct(edges_view(edges@)),
                outer_keys_distinct(outer_view(outer@)),
                wire_args(wk, k as int, parts[k as int].0, argv.take(j as int), top, top_name) == Wired::Done(
                    WiringV { edges: edges_view(edges@), outer: outer_view(outer@), defaults: ds.update(k as int, bits(b.default)) },
                ),
            decreases args@.len() - j,
        {
            let ghost cur = WiringV { edges: edges_view(edges@), outer: outer_view(outer@), defaults: ds.update(k as int, bits(b.default)) };
            assert(argv.take(j + 1).drop_last() == argv.take(j as int));
            assert(argv.take(j + 1).last() == argv[j as int]);
            let step = wire_one(&mut b.default, &b.interface, k, &args[j], top_interface, &mut edges, &mut outer, Ghost(cur.defaults));
            match step {
                Step::Done => {
                    assert(cur.defaults.update(k as int, bits(b.default)) =~= ds.update(k as int, bits(b.default)));
                },
                Step::Failed(e) => {
                    proof {
                        lemma_wire_args_stops(wk, k as int, parts[k as int].0, argv, j as int + 1, top, top_name);
                        lemma_wire_parts_stops(w0, parts, k as int + 1, n as int, top, top_name);
                    }
                    chips.insert(k, (b, args));
                    assert(chips_parts(chips@) =~= parts);
                    assert(chips_routers(chips@) =~= routers);
                    assert(chips_masks(chips@) =~= masks);
                    assert(chips_models(chips@) =~= models);
                    return Connected::Failed(e);
                },
                Step::Aborts => {
                    proof {
                        lemma_wire_args_stops(wk, k as int, parts[k as int].0, argv, j as int + 1, top, top_name);
                        lemma_wire_parts_stops(w0, parts, k as int + 1, n as int, top, top_name);
                    }
                    chips.insert(k, (b, args));
                    assert(chips_parts(chips@) =~= parts);
                    assert(chips_routers(chips@) =~= routers);
                    assert(chips_masks(chips@) =~= masks);
                    assert(chips_models(chips@) =~= models);
                    return Connected::Aborts;
                },
            }
            j += 1;
        }
        assert(argv.take(args@.len() as int) == argv);
        chips.insert(k, (b, args));
        assert(chips_parts(chips@) =~= parts);
        assert(chips_routers(chips@) =~= routers);
        assert(chips_masks(chips@) =~= masks);
        assert(chips_models(chips@) =~= models);
        assert(chips_defaults(chips@) =~= ds.update(k as int, bits(b.default)));
        k += 1;
    }
    Connected::Done(edges, outer)
}

/// Once connecting assignments stops, later assignments change nothing.
proof fn lemma_wire_args_stops(
    w: WiringV,
    k: int,
    inner: Seq<(Seq<char>, PinV)>,
    args: Seq<ArgumentV>,
    j: int,
    top: Seq<(Seq<char>, PinV)>,
    top_name: Seq<char>,
)
    requires
        0 <= j <= args.len(),
        !(wire_args(w, k, inner, args.take(j), top, top_name) is Done),
    ensures
        wire_args(w, k, inner, args, top, top_name) == wire_args(w, k, inner, args.take(j), top, top_name),
    decreases args.len() - j,
{
    if j < args.len() {
        assert(args.take(j + 1).drop_last() == args.take(j));
        lemma_wire_args_stops(w, k, inner, args, j + 1, top, top_name);
    } else {
        assert(args.take(j) == args);
    }
}

/// Once connecting parts stops, later parts change nothing.
proof fn lemma_wire_parts_stops(
    w0: WiringV,
    parts: Seq<(Seq<(Seq<char>, PinV)>, Seq<ArgumentV>)>,
    k: int,
    n: int,
    top: Seq<(Seq<char>, PinV)>,
    top_name: Seq<char>,
)
    requires
        0 <= k <= n,
        !(wire_parts(w0, parts, k, top, top_name) is Done),
    ensures
        wire_parts(w0, parts, n, top, top_name) == wire_parts(w0, parts, k, top, top_name),
    decreases n - k,
{
    if k < n {
        lemma_wire_parts_stops(w0, parts, k, n - 1, top, top_name);
    }
}

/// The value the constants among the assignments `args` of a part with pins `inner` give
/// bit `j` of its inputs: that of the last assignment of `true` or `false` to a pin (or bus)
/// whose bits cover `j`; `None` when no such assignment covers it.
pub open spec fn constant_at(inner: Seq<(Seq<char>, PinV)>, args: Seq<ArgumentV>, j: int) -> Option<bool>
    decreases args.len(),
{
    if args.len() == 0 {
        None
    } else {
        let a = args.last();
        let earlier = constant_at(inner, args.drop_last(), j);
        match a.external {
            SymbolV::Value(v) => match resolve(inner, a.internal, a.internal_bus) {
                Some(r) => if r.lo() <= j <= r.hi() {
                    Some(v is True)
                } else {
                    earlier
                },
                None => earlier,
            },
            _ => earlier,
        }
    }
}

/// The input bits `d` of a part after its constants are set: each bit as [`constant_at`]
/// says, or as it was in `d` where no constant covers it.
pub open spec fn with_constants(d: Seq<bool>, inner: Seq<(Seq<char>, PinV)>, args: Seq<ArgumentV>) -> Seq<bool> {
    Seq::new(d.len(), |j: int| match constant_at(inner, args, j) {
        Some(t) => t,
        None => d[j],
    })
}

/// Connecting the assignments of part `k` sets its input bits as its constants say and
/// leaves every other part's input bits as they were.
proof fn lemma_wire_args_constants(
    w: WiringV,
    k: int,
    inner: Seq<(Seq<char>, PinV)>,
    args: Seq<ArgumentV>,
    top: Seq<(Seq<char>, PinV)>,
    top_name: Seq<char>,
)
    requires
        0 <= k < w.defaults.len(),
    ensures
        wire_args(w, k, inner, args, top, top_name) matches Wired::Done(w2) ==> {
            &&& w2.defaults.len() == w.defaults.len()
            &&& w2.defaults[k] == with_constants(w.defaults[k], inner, args)
            &&& forall|q: int| 0 <= q < w.defaults.len() && q != k ==> #[trigger] w2.defaults[q] == w.defaults[q]
        },
    decreases args.len(),
{
    if args.len() == 0 {
        assert(with_constants(w.defaults[k], inner, args) =~= w.defaults[k]);
    } else {
        let init = args.drop_last();
        lemma_wire_args_constants(w, k, inner, init, top, top_name);
        if let Wired::Done(w1) = wire_args(w, k, inner, init, top, top_name) {
            let a = args.last();
            if let Wired::Done(w2) = wire_arg(w1, k, inner, a, top, top_name) {
                let d = w.defaults[k];
                assert(w2.defaults[k] =~= with_constants(d, inner, args)) by {
                    match a.external {
                        SymbolV::Value(v) => {
                            let r = resolve(inner, a.internal, a.internal_bus)->0;
                            assert(w2.defaults[k] == fill(w1.defaults[k], r.lo() as int, r.hi() as int, v.truth()));
                        },
                        _ => {},
                    }
                }
            }
        }
    }
}

/// Connecting the first `n` parts sets each one's input bits as its constants say.
proof fn lemma_wire_parts_constants(
    w0: WiringV,
    parts: Seq<(Seq<(Seq<char>, PinV)>, Seq<ArgumentV>)>,
    n: int,
    top: Seq<(Seq<char>, PinV)>,
    top_name: Seq<char>,
)
    requires
        0 <= n <= parts.len(),
        w0.defaults.len() == parts.len(),
    ensures
        wire_parts(w0, parts, n, top, top_name) matches Wired::Done(w) ==> {
            &&& w.defaults.len() == w0.defaults.len()
            &&& forall|q: int| 0 <= q < n ==> #[trigger] w.defaults[q] == with_constants(w0.defaults[q], parts[q].0, parts[q].1)
            &&& forall|q: int| n <= q < w0.defaults.len() ==> #[trigger] w.defaults[q] == w0.defaults[q]
        },
    decreases n,
{
    if n > 0 {
        lemma_wire_parts_constants(w0, parts, n - 1, top, top_name);
        if let Wired::Done(w1) = wire_parts(w0, parts, n - 1, top, top_name) {
            lemma_wire_args_constants(w1, n - 1, parts[n - 1].0, parts[n - 1].1, top, top_name);
        }
    }
}

/// A part pin assigned the constant `true` (`false`) starts with its bits 1 (0): in a chip
/// built from the parts `conns`, every input bit of part `k` starts at the value of the last
/// constant assigned to a pin of that part covering it, and at 0 where none does.
pub proof fn lemma_built_constants(
    reg: Seq<(Seq<char>, Seq<(Seq<char>, PinV)>)>,
    top: Seq<(Seq<char>, PinV)>,
    top_name: Seq<char>,
    conns: Seq<ConnectionV>,
)
    ensures
        build_outcome(reg, top, top_name, conns) matches BuildV::Done(b) ==> {
            &&& b.defaults.len() == conns.len()
            &&& forall|k: int, j: int| 0 <= k < conns.len() && 0 <= j < inputs_needed(parts_of(reg, conns)[k].0) ==> {
                &&& b.defaults[k].len() == inputs_needed(parts_of(reg, conns)[k].0)
                &&& (#[trigger] b.defaults[k][j]) == match constant_at(parts_of(reg, conns)[k].0, conns[k].inputs, j) {
                    Some(t) => t,
                    None => false,
                }
            }
        },
{
    let parts = parts_of(reg, conns);
    let w0 = initial_wiring(parts);
    lemma_wire_parts_constants(w0, parts, parts.len() as int, top, top_name);
}

/// No input bits set yet.
pub open spec fn zeros(n: int) -> Seq<bool> {
    Seq::new(n as nat, |j: int| false)
}

/// Whether bit `j` lies in a combinatorial input pin of `pins`.
pub open spec fn in_com_input(pins: Seq<(Seq<char>, PinV)>, j: int) -> bool {
    exists|k: int| 0 <= k < pins.len() && (#[trigger] pins[k]).1.kind is ComIn && pins[k].1.lo <= j <= pins[k].1.hi
}

/// Whether bit `j` lies in a combinatorial input pin among the first `n` of `pins`.
spec fn in_com_input_before(pins: Seq<(Seq<char>, PinV)>, n: int, j: int) -> bool {
    exists|k: int| 0 <= k < n && (#[trigger] pins[k]).1.kind is ComIn && pins[k].1.lo <= j <= pins[k].1.hi
}

/// The clock mask of a part with the pins `pins`: set for the bits of its combinatorial
/// inputs, which pass on at every evaluation, and clear for its clocked inputs, which pass on
/// only at a clock tick.
pub open spec fn unclocked_mask(pins: Seq<(Seq<char>, PinV)>) -> Seq<bool> {
    Seq::new(inputs_needed(pins) as nat, |j: int| in_com_input(pins, j))
}

/// The clock masks of the parts.
pub open spec fn initial_masks(parts: Seq<(Seq<(Seq<char>, PinV)>, Seq<ArgumentV>)>) -> Seq<Seq<bool>> {
    Seq::new(parts.len(), |k: int| unclocked_mask(parts[k].0))
}

/// The clock mask of `n` bits for the pins of `iface`.
fn unclocked_bits(iface: &Interface, n: usize) -> (r: Bits)
    requires
        n <= 0x10000,
    ensures
        bits(r) == Seq::new(n as nat, |j: int| in_com_input(iface.pins(), j)),
{
    let ghost p = iface.pins();
    let mut mask = bv_repeat(false, n);
    let mut i: usize = 0;
    while i < iface.map.len()
        invariant
            i <= iface.map@.len(),
            p == iface.pins(),
            p.len() == iface.map@.len(),
            n <= 0x10000,
            bits(mask) == Seq::new(n as nat, |j: int| in_com_input_before(p, i as int, j)),
        decreases iface.map@.len() - i,
    {
        let ghost before = bits(mask);
        assert(p[i as int].1 == iface.map@[i as int].1@);
        match &iface.map[i].1 {
            ChannelPin::ComIn(r) => {
                let lo = r.start() as usize;
                let hi = r.end() as usize;
                if lo < n {
                    let top = if hi < n { hi } else { n - 1 };
                    bv_fill(&mut mask, lo, top, true);
                }
            },
            _ => {},
        }
        proof {
            assert forall|j: int| 0 <= j < n implies #[trigger] bits(mask)[j] == in_com_input_before(p, i + 1, j) by {
                if in_com_input_before(p, i + 1, j) && !in_com_input_before(p, i as int, j) {
                    let k = choose|k: int| 0 <= k < i + 1 && (#[trigger] p[k]).1.kind is ComIn && p[k].1.lo <= j <= p[k].1.hi;
                    assert(k == i);
                }
                if in_com_input_before(p, i as int, j) {
                    let k = choose|k: int| 0 <= k < i && (#[trigger] p[k]).1.kind is ComIn && p[k].1.lo <= j <= p[k].1.hi;
                    assert(0 <= k < i + 1 && p[k].1.kind is ComIn && p[k].1.lo <= j <= p[k].1.hi);
                }
                assert(before[j] == in_com_input_before(p, i as int, j));
            }
            assert(bits(mask) =~= Seq::new(n as nat, |j: int| in_com_input_before(p, i + 1, j)));
        }
        i += 1;
    }
    assert(bits(mask) =~= Seq::new(n as nat, |j: int| in_com_input(p, j)));
    mask
}

impl IncompleteBarrier {
    /// A part for the chip `info`: no routes yet, every input bit 0; the bits of its
    /// combinatorial inputs are marked unclocked.
    fn new(info: ChipInfo) -> (r: IncompleteBarrier)
        ensures
            r.interface.pins() == info.interface.pins(),
            r.router.map@ == Seq::<(ChannelRange, Hook)>::empty(),
            bits(r.default) == zeros(inputs_needed(info.interface.pins())),
            bits(r.clock_mask) == unclocked_mask(info.interface.pins()),
            r.chip == info.chip,
    {
        let storage_size = info.interface.size_in();
        let clock_mask = unclocked_bits(&info.interface, storage_size);
        IncompleteBarrier {
            chip: info.chip,
            interface: info.interface,
            router: Router::new(),
            default: bv_repeat(false, storage_size),
            clock_mask,
        }
    }

    /// The finished part: its input bits start at the defaults, its output bits at 0.
    fn complete(self) -> (r: Barrier)
        ensures
            bits(r.in_buffer) == bits(self.default),
            bits(r.intermediate) == bits(self.default),
            bits(r.clock_mask) == bits(self.clock_mask),
            bits(r.out_buffer) == zeros(bits(self.default).len() as int),
            r.router.map@ == self.router.map@,
            r.chip == self.chip,
    {
        let mut out = bv_clone(&self.default);
        let len = super::bits::bv_len(&out);
        if len > 0 {
            bv_fill(&mut out, 0, len - 1, false);
        }
        assert(bits(out) =~= zeros(bits(self.default).len() as int));
        Barrier {
            in_buffer: bv_clone(&self.default),
            intermediate: bv_clone(&self.default),
            clock_mask: self.clock_mask,
            out_buffer: out,
            chip: self.chip,
            router: self.router,
        }
    }
}

/// Adds the route `(range, hook)` to the outputs of part `idx`.
fn add_route(chips: &mut Vec<(IncompleteBarrier, Vec<Argument>)>, idx: usize, range: ChannelRange, hook: Hook)
    requires
        idx < old(chips)@.len(),
    ensures
        final(chips)@.len() == old(chips)@.len(),
        chips_routers(final(chips)@) == chips_routers(old(chips)@).update(idx as int, chips_routers(old(chips)@)[idx as int].push((range, hook))),
        chips_parts(final(chips)@) == chips_parts(old(chips)@),
        chips_defaults(final(chips)@) == chips_defaults(old(chips)@),
        chips_masks(final(chips)@) == chips_masks(old(chips)@),
        chips_models(final(chips)@) == chips_models(old(chips)@),
{
    let (mut b, args) = chips.remove(idx);
    b.router.add_hook(range, hook);
    chips.insert(idx, (b, args));
    assert(chips_routers(chips@) =~= chips_routers(old(chips)@).update(idx as int, chips_routers(old(chips)@)[idx as int].push((range, hook))));
    assert(chips_parts(chips@) =~= chips_parts(old(chips)@));
    assert(chips_defaults(chips@) =~= chips_defaults(old(chips)@));
    assert(chips_masks(chips@) =~= chips_masks(old(chips)@));
    assert(chips_models(chips@) =~= chips_models(old(chips)@));
}

/// The routes of the first `j` hooks of an entry into the chip's inputs.
spec fn entry_in(e: (OuterHook, Seq<Hook>), j: int) -> Seq<(ChannelRange, Hook)> {
    match e.0 {
        OuterHook::Input(r) => e.1.take(j).map_values(|h: Hook| (r, h)),
        OuterHook::Output(_) => seq![],
    }
}

/// The routes of the first `j` hooks of an entry out of part `id`.
spec fn entry_out(e: (OuterHook, Seq<Hook>), j: int, id: Id) -> Seq<(ChannelRange, Hook)> {
    match e.0 {
        OuterHook::Output(r) => to_output(e.1.take(j), id, r),
        OuterHook::Input(_) => seq![],
    }
}

/// Writes back the parts of the chip's own pins: inputs into `in_router`, outputs into the
/// routes of the parts attached.
fn write_outer(chips: &mut Vec<(IncompleteBarrier, Vec<Argument>)>, outer: &Vec<(OuterHook, Vec<Hook>)>, in_router: &mut Router)
    requires
        old(chips)@.len() < 0xffff,
    ensures
        final(in_router).map@ == old(in_router).map@ + in_routes(outer_view(outer@)),
        chips_routers(final(chips)@).len() == chips_routers(old(chips)@).len(),
        forall|k: int| 0 <= k < chips_routers(old(chips)@).len() ==> #[trigger] chips_routers(final(chips)@)[k]
            == chips_routers(old(chips)@)[k] + out_routes(outer_view(outer@), Id((k + 1) as u16)),
        chips_parts(final(chips)@) == chips_parts(old(chips)@),
        chips_defaults(final(chips)@) == chips_defaults(old(chips)@),
        chips_masks(final(chips)@) == chips_masks(old(chips)@),
        chips_models(final(chips)@) == chips_models(old(chips)@),
{
    let ghost ov = outer_view(outer@);
    let ghost r0 = chips_routers(chips@);
    let ghost in0 = in_router.map@;
    let n = chips.len();
    let mut i: usize = 0;
    while i < outer.len()
        invariant
            i <= outer@.len(),
            ov == outer_view(outer@),
            n == chips@.len(),
            n < 0xffff,
            r0 == chips_routers(old(chips)@),
            in0 == old(in_router).map@,
            in_router.map@ == in0 + in_routes(ov.take(i as int)),
            forall|k: int| 0 <= k < n ==> #[trigger] chips_routers(chips@)[k] == r0[k] + out_routes(ov.take(i as int), Id((k + 1) as u16)),
            chips_parts(chips@) == chips_parts(old(chips)@),
            chips_defaults(chips@) == chips_defaults(old(chips)@),
            chips_masks(chips@) == chips_masks(old(chips)@),
            chips_models(chips@) == chips_models(old(chips)@),
        decreases outer@.len() - i,
    {
        let key = outer[i].0;
        let hooks = &outer[i].1;
        let ghost e = ov[i as int];
        assert(e == (key, hooks@));
        let ghost base_in = in_router.map@;
        let ghost base = chips_routers(chips@);
        assert(e.1.take(0) =~= Seq::<Hook>::empty());
        assert(entry_in(e, 0) =~= Seq::<(ChannelRange, Hook)>::empty());
        assert forall|k: int| 0 <= k < n implies #[trigger] entry_out(e, 0, Id((k + 1) as u16)) == Seq::<(ChannelRange, Hook)>::empty() by {
            assert(e.1.take(0) =~= Seq::<Hook>::empty());
        }
        let mut j: usize = 0;
        while j < hooks.len()
            invariant
                j <= hooks@.len(),
                e == (key, hooks@),
                n == chips@.len(),
                n < 0xffff,
                in_router.map@ == base_in + entry_in(e, j as int),
                forall|k: int| 0 <= k < n ==> #[trigger] chips_routers(chips@)[k] == base[k] + entry_out(e, j as int, Id((k + 1) as u16)),
                base.len() == n,
                chips_parts(chips@) == chips_parts(old(chips)@),
                chips_defaults(chips@) == chips_defaults(old(chips)@),
                chips_masks(chips@) == chips_masks(old(chips)@),
                chips_models(chips@) == chips_models(old(chips)@),
            chips_models(chips@) == chips_models(old(chips)@),
            decreases hooks@.len() - j,
        {
            let hook = hooks[j];
            assert(e.1.take(j + 1).drop_last() == e.1.take(j as int));
            assert(e.1.take(j + 1).last() == hook);
            match key {
                OuterHook::Input(r) => {
                    in_router.add_hook(r, hook);
                    assert(e.1.take(j + 1).map_values(|h: Hook| (r, h)) =~= e.1.take(j as int).map_values(|h: Hook| (r, h)).push((r, hook)));
                    assert forall|k: int| 0 <= k < n implies #[trigger] chips_routers(chips@)[k] == base[k] + entry_out(e, j + 1, Id((k + 1) as u16)) by {
                    }
                },
                OuterHook::Output(r) => {
                    let idx = hook.id.0 as usize;
                    let ghost before = chips_routers(chips@);
                    if 1 <= idx && idx <= chips.len() {
                        add_route(chips, idx - 1, hook.range, Hook { id: Id(0), range: r });
                    }
                    assert forall|k: int| 0 <= k < n implies #[trigger] chips_routers(chips@)[k] == base[k] + entry_out(e, j + 1, Id((k + 1) as u16)) by {
                        assert(to_output(e.1.take(j + 1), Id((k + 1) as u16), r) == to_output(e.1.take(j as int), Id((k + 1) as u16), r) + if hook.id == Id((k + 1) as u16) {
                            seq![(hook.range, Hook { id: Id(0), range: r })]
                        } else {
                            seq![]
                        });
                        if hook.id == Id((k + 1) as u16) {
                            assert(idx == k + 1);
                            assert(base[k] + entry_out(e, j as int, Id((k + 1) as u16)) + seq![(hook.range, Hook { id: Id(0), range: r })]
                                =~= base[k] + entry_out(e, j + 1, Id((k + 1) as u16)));
                        } else {
                            assert(idx != k + 1);
                            assert(base[k] + entry_out(e, j as int, Id((k + 1) as u16)) =~= base[k] + entry_out(e, j + 1, Id((k + 1) as u16)));
                        }
                    }
                },
            }
            j += 1;
        }
        proof {
            assert(ov.take(i + 1).drop_last() == ov.take(i as int));
            assert(ov.take(i + 1).last() == e);
            assert(e.1.take(hooks@.len() as int) == e.1);
            assert(in_routes(ov.take(i + 1)) == in_routes(ov.take(i as int)) + entry_in(e, hooks@.len() as int));
            assert(in0 + in_routes(ov.take(i as int)) + entry_in(e, hooks@.len() as int) =~= in0 + in_routes(ov.take(i + 1)));
            assert forall|k: int| 0 <= k < n implies #[trigger] chips_routers(chips@)[k] == r0[k] + out_routes(ov.take(i + 1), Id((k + 1) as u16)) by {
                assert(out_routes(ov.take(i + 1), Id((k + 1) as u16)) == out_routes(ov.take(i as int), Id((k + 1) as u16)) + entry_out(e, hooks@.len() as int, Id((k + 1) as u16)));
                assert(r0[k] + out_routes(ov.take(i as int), Id((k + 1) as u16)) + entry_out(e, hooks@.len() as int, Id((k + 1) as u16))
                    =~= r0[k] + out_routes(ov.take(i + 1), Id((k + 1) as u16)));
            }
        }
        i += 1;
    }
    assert(ov.take(outer@.len() as int) == ov);
}

/// The first wire without a source comes after wires that all have one.
proof fn lemma_first_sourceless(ev: Seq<(Seq<char>, EdgeSetV)>, i: int)
    requires
        0 <= i <= ev.len(),
        forall|m: int| 0 <= m < i ==> (#[trigger] ev[m]).1.output is Some,
    ensures
        i < ev.len() && ev[i].1.output is None ==> first_sourceless(ev) == Some(ev[i].0),
        i == ev.len() ==> first_sourceless(ev) is None,
    decreases i,
{
    if i > 0 && ev.len() > 0 {
        let rest = ev.drop_first();
        assert forall|m: int| 0 <= m < i - 1 implies (#[trigger] rest[m]).1.output is Some by {
            assert(rest[m] == ev[m + 1]);
        }
        lemma_first_sourceless(rest, i - 1);
        assert(ev[0].1.output is Some);
        if i < ev.len() {
            assert(rest[i - 1] == ev[i]);
        }
    }
}

/// The routes of the first `j` inputs of a wire out of part `id`.
spec fn wire_out(e: EdgeSetV, j: int, id: Id) -> Seq<(ChannelRange, Hook)> {
    match e.output {
        Some(o) => if o.id == id { e.inputs.take(j).map_values(|i: Hook| (o.range, i)) } else { seq![] },
        None => seq![],
    }
}

/// Writes back the inner wires: each source's routes to the inputs it drives. Gives the name
/// of the first wire without a source, if any.
fn write_edges(chips: &mut Vec<(IncompleteBarrier, Vec<Argument>)>, edges: &Vec<(String, EdgeSet)>) -> (r: Option<String>)
    requires
        old(chips)@.len() < 0xffff,
    ensures
        final(chips)@.len() == old(chips)@.len(),
        chips_parts(final(chips)@) == chips_parts(old(chips)@),
        chips_defaults(final(chips)@) == chips_defaults(old(chips)@),
        chips_masks(final(chips)@) == chips_masks(old(chips)@),
        chips_models(final(chips)@) == chips_models(old(chips)@),
        match first_sourceless(edges_view(edges@)) {
            Some(name) => r matches Some(x) && x@ == name,
            None => r is None && forall|k: int| 0 <= k < old(chips)@.len() ==> #[trigger] chips_routers(final(chips)@)[k]
                == chips_routers(old(chips)@)[k] + edge_routes(edges_view(edges@), Id((k + 1) as u16)),
        },
{
    let ghost ev = edges_view(edges@);
    let ghost r0 = chips_routers(chips@);
    let n = chips.len();
    let mut i: usize = 0;
    while i < edges.len()
        invariant
            i <= edges@.len(),
            ev == edges_view(edges@),
            n == chips@.len(),
            n == old(chips)@.len(),
            n < 0xffff,
            r0 == chips_routers(old(chips)@),
            forall|m: int| 0 <= m < i ==> (#[trigger] ev[m]).1.output is Some,
            forall|k: int| 0 <= k < n ==> #[trigger] chips_routers(chips@)[k] == r0[k] + edge_routes(ev.take(i as int), Id((k + 1) as u16)),
            chips_parts(chips@) == chips_parts(old(chips)@),
            chips_defaults(chips@) == chips_defaults(old(chips)@),
            chips_masks(chips@) == chips_masks(old(chips)@),
            chips_models(chips@) == chips_models(old(chips)@),
        decreases edges@.len() - i,
    {
        let ghost e = ev[i as int].1;
        let output = match edges[i].1.output {
            Some(o) => o,
            None => {
                proof {
                    lemma_first_sourceless(ev, i as int);
                }
                return Some(edges[i].0.clone());
            },
        };
        let inputs = &edges[i].1.inputs;
        let ghost base = chips_routers(chips@);
        assert(e.inputs.take(0) =~= Seq::<Hook>::empty());
        assert forall|k: int| 0 <= k < n implies #[trigger] wire_out(e, 0, Id((k + 1) as u16)) == Seq::<(ChannelRange, Hook)>::empty() by {
            assert(e.inputs.take(0).map_values(|x: Hook| (output.range, x)) =~= Seq::<(ChannelRange, Hook)>::empty());
        }
        let idx = output.id.0 as usize;
        let mut j: usize = 0;
        while j < inputs.len()
            invariant
                j <= inputs@.len(),
                e.inputs == inputs@,
                e.output == Some(output),
                idx == output.id.0,
                n == chips@.len(),
                n < 0xffff,
                base.len() == n,
                forall|k: int| 0 <= k < n ==> #[trigger] chips_routers(chips@)[k] == base[k] + wire_out(e, j as int, Id((k + 1) as u16)),
                chips_parts(chips@) == chips_parts(old(chips)@),
                chips_defaults(chips@) == chips_defaults(old(chips)@),
                chips_masks(chips@) == chips_masks(old(chips)@),
                chips_models(chips@) == chips_models(old(chips)@),
            chips_models(chips@) == chips_models(old(chips)@),
            decreases inputs@.len() - j,
        {
            let input = inputs[j];
            if 1 <= idx && idx <= chips.len() {
                add_route(chips, idx - 1, output.range, input);
            }
            assert forall|k: int| 0 <= k < n implies #[trigger] chips_routers(chips@)[k] == base[k] + wire_out(e, j + 1, Id((k + 1) as u16)) by {
                assert(e.inputs.take(j + 1).map_values(|x: Hook| (output.range, x)) =~= e.inputs.take(j as int).map_values(|x: Hook| (output.range, x)).push((output.range, input)));
                if output.id == Id((k + 1) as u16) {
                    assert(idx == k + 1);
                    assert(base[k] + wire_out(e, j as int, Id((k + 1) as u16)) + seq![(output.range, input)] =~= base[k] + wire_out(e, j + 1, Id((k + 1) as u16)));
                } else {
                    assert(idx != k + 1);
                }
            }
            j += 1;
        }
        proof {
            assert(ev.take(i + 1).drop_last() == ev.take(i as int));
            assert(ev.take(i + 1).last() == ev[i as int]);
            assert(e.inputs.take(inputs@.len() as int) == e.inputs);
            assert forall|k: int| 0 <= k < n implies #[trigger] chips_routers(chips@)[k] == r0[k] + edge_routes(ev.take(i + 1), Id((k + 1) as u16)) by {
                assert(edge_routes(ev.take(i + 1), Id((k + 1) as u16)) == edge_routes(ev.take(i as int), Id((k + 1) as u16)) + wire_out(e, inputs@.len() as int, Id((k + 1) as u16)));
                assert(r0[k] + edge_routes(ev.take(i as int), Id((k + 1) as u16)) + wire_out(e, inputs@.len() as int, Id((k + 1) as u16))
                    =~= r0[k] + edge_routes(ev.take(i + 1), Id((k + 1) as u16)));
            }
        }
        i += 1;
    }
    proof {
        lemma_first_sourceless(ev, i as int);
        assert(ev.take(edges@.len() as int) == ev);
    }
    None
}

/// Part `k` of a built chip: its number, routes and buffers.
pub open spec fn part_as(e: (Id, Barrier), k: int, b: BuiltV) -> bool {
    &&& e.0 == Id((k + 1) as u16)
    &&& e.1.router.map@ == b.routers[k]
    &&& bits(e.1.in_buffer) == b.defaults[k]
    &&& bits(e.1.intermediate) == b.defaults[k]
    &&& bits(e.1.clock_mask) == b.masks[k]
    &&& bits(e.1.out_buffer) == zeros(b.defaults[k].len() as int)
}

/// A native chip routed as `b`, with output bits for the pins `top`.
pub open spec fn native_as(n: NativeChip, top: Seq<(Seq<char>, PinV)>, b: BuiltV) -> bool {
    &&& n.out_chip == Id(0)
    &&& n.in_router.map@ == b.in_router
    &&& n.registry@.len() == b.routers.len()
    &&& n.registry@.len() == b.defaults.len()
    &&& n.registry@.len() == b.masks.len()
    &&& forall|k: int| 0 <= k < n.registry@.len() ==> part_as(#[trigger] n.registry@[k], k, b)
    &&& bits(n.out_buffer) == zeros(bits_needed(select(top, |k: PinKind| k.is_output())))
    &&& n.request_queue@.len() == 0
}

/// The chip `name` with pins `top`, built as `b`.
pub open spec fn built_as(info: ChipInfo, name: Seq<char>, top: Seq<(Seq<char>, PinV)>, b: BuiltV) -> bool {
    &&& info.interface.name@ == name
    &&& info.interface.pins() == top
    &&& info.chip matches ChipModel::Native(n) && native_as(n, top, b)
}

/// The abstract form of a list of parts.
pub open spec fn connections_view(v: Seq<Connection>) -> Seq<ConnectionV> {
    v.map_values(|c: Connection| c@)
}

/// The registered chips after `name` is registered with the pins `pins`, replacing a chip of
/// that name.
pub open spec fn reg_upsert(reg: Seq<(Seq<char>, Seq<(Seq<char>, PinV)>)>, name: Seq<char>, pins: Seq<(Seq<char>, PinV)>) -> Seq<(Seq<char>, Seq<(Seq<char>, PinV)>)> {
    if exists|j: int| 0 <= j < reg.len() && reg[j].0 == name {
        reg.update(choose|j: int| 0 <= j < reg.len() && reg[j].0 == name, (name, pins))
    } else {
        reg.push((name, pins))
    }
}

/// The state of the registered chip `name`.
pub open spec fn model_named(models: Seq<(Seq<char>, ChipV)>, name: Seq<char>) -> Option<ChipV> {
    if exists|j: int| 0 <= j < models.len() && models[j].0 == name {
        Some(models[choose|j: int| 0 <= j < models.len() && models[j].0 == name].1)
    } else {
        None
    }
}

/// The registered states after `name` is registered with the state `c`, replacing a chip of
/// that name.
pub open spec fn model_upsert(models: Seq<(Seq<char>, ChipV)>, name: Seq<char>, c: ChipV) -> Seq<(Seq<char>, ChipV)> {
    if exists|j: int| 0 <= j < models.len() && models[j].0 == name {
        models.update(choose|j: int| 0 <= j < models.len() && models[j].0 == name, (name, c))
    } else {
        models.push((name, c))
    }
}

/// The states of the parts' chips: each a copy of the registered chip it names.
pub open spec fn part_models(models: Seq<(Seq<char>, ChipV)>, conns: Seq<ConnectionV>) -> Seq<ChipV> {
    Seq::new(conns.len(), |k: int| model_named(models, conns[k].chip_name)->0)
}

/// The state of a chip just built as `b` with output pins from `top` and parts in the states
/// `parts`: part `k` is numbered `k + 1`, its input bits start at the defaults, its output
/// bits at 0; nothing is queued.
pub open spec fn built_model(b: BuiltV, top: Seq<(Seq<char>, PinV)>, parts: Seq<ChipV>) -> ChipV {
    ChipV::Native(NativeV {
        registry: Seq::new(b.routers.len(), |k: int| (Id((k + 1) as u16), BarrierV {
            in_buffer: b.defaults[k],
            intermediate: b.defaults[k],
            clock_mask: b.masks[k],
            out_buffer: zeros(b.defaults[k].len() as int),
            chip: parts[k],
            router: b.routers[k],
        })),
        in_router: b.in_router,
        out_chip: Id(0),
        out_buffer: zeros(bits_needed(select(top, |k: PinKind| k.is_output()))),
        queue: Seq::empty(),
    })
}

impl ChipInfo {
    /// A copy of the chip: the same interface and a copy of the model.
    pub fn duplicate(&self) -> (r: ChipInfo)
        ensures
            r.interface.name@ == self.interface.name@,
            r.interface.pins() == self.interface.pins(),
            chip_view(r.chip) == chip_view(self.chip),
    {
        ChipInfo { interface: self.interface.duplicate(), chip: self.chip.duplicate() }
    }
}

impl ChipBuilder {
    #[verifier::type_invariant]
    closed spec fn names_distinct(self) -> bool {
        &&& forall|i: int, j: int| 0 <= i < j < self.registered@.len() ==> self.registered@[i].0@ != self.registered@[j].0@
        &&& forall|i: int| 0 <= i < self.registered@.len() ==> (#[trigger] self.registered@[i]).1.interface.name@ == self.registered@[i].0@
    }

    /// The registered chips: each one's name and pins, in order of registration.
    pub closed spec fn registry(&self) -> Seq<(Seq<char>, Seq<(Seq<char>, PinV)>)> {
        self.registered@.map_values(|e: (String, ChipInfo)| (e.0@, e.1.interface.pins()))
    }

    /// The registered chips' states: each one's name and model, in order of registration.
    pub closed spec fn models(&self) -> Seq<(Seq<char>, ChipV)> {
        self.registered@.map_values(|e: (String, ChipInfo)| (e.0@, chip_view(e.1.chip)))
    }

    /// The chip registered at `i` is the state found for its name.
    proof fn lemma_model_at(&self, i: int)
        requires
            self.names_distinct(),
            0 <= i < self.registered@.len(),
        ensures
            model_named(self.models(), self.registered@[i].0@) == Some(chip_view(self.registered@[i].1.chip)),
    {
        let m = self.models();
        let name = self.registered@[i].0@;
        assert(m[i].0 == name);
        let j = choose|j: int| 0 <= j < m.len() && m[j].0 == name;
        assert(m[j].0 == self.registered@[j].0@);
        assert(j == i);
    }

    /// A builder that knows no chip.
    pub fn new() -> (r: ChipBuilder)
        ensures
            r.registry() == Seq::<(Seq<char>, Seq<(Seq<char>, PinV)>)>::empty(),
            r.models() == Seq::<(Seq<char>, ChipV)>::empty(),
            reg_names_distinct(r.registry()),
    {
        let r = ChipBuilder { registered: Vec::new() };
        assert(r.registry() =~= Seq::<(Seq<char>, Seq<(Seq<char>, PinV)>)>::empty());
        assert(r.models() =~= Seq::<(Seq<char>, ChipV)>::empty());
        r
    }

    /// The registered chips by name.
    pub fn get_registry(&self) -> (r: &Vec<(String, ChipInfo)>)
        ensures
            r@.map_values(|e: (String, ChipInfo)| (e.0@, e.1.interface.pins())) == self.registry(),
            r@.map_values(|e: (String, ChipInfo)| (e.0@, chip_view(e.1.chip))) == self.models(),
            forall|i: int| 0 <= i < r@.len() ==> (#[trigger] r@[i]).1.interface.name@ == r@[i].0@,
            reg_names_distinct(self.registry()),
    {
        proof {
            use_type_invariant(self);
        }
        &self.registered
    }

    /// Where the chip `name` is registered.
    fn position(&self, name: &str) -> (r: Option<usize>)
        ensures
            match registered_pins(self.registry(), name@) {
                Some(p) => r matches Some(i) && i < self.registered@.len() && self.registered@[i as int].1.interface.pins() == p
                    && self.registered@[i as int].0@ == name@,
                None => r is None && forall|j: int| 0 <= j < self.registered@.len() ==> self.registered@[j].0@ != name@,
            },
    {
        let ghost reg = self.registry();
        let mut i: usize = 0;
        assert(reg.subrange(0, reg.len() as int) == reg);
        while i < self.registered.len()
            invariant
                i <= self.registered@.len(),
                reg == self.registry(),
                registered_pins(reg, name@) == registered_pins(reg.subrange(i as int, reg.len() as int), name@),
                forall|j: int| 0 <= j < i ==> self.registered@[j].0@ != name@,
            decreases self.registered@.len() - i,
        {
            assert(reg.subrange(i as int, reg.len() as int).drop_first() == reg.subrange(i + 1, reg.len() as int));
            if str_eq(self.registered[i].0.as_str(), name) {
                return Some(i);
            }
            i += 1;
        }
        None
    }

    /// A copy of the registered chip `name`.
    pub fn get_chip_info(&self, name: &str) -> (r: Option<ChipInfo>)
        ensures
            match registered_pins(self.registry(), name@) {
                Some(p) => r matches Some(c) && c.interface.pins() == p && c.interface.name@ == name@
                    && model_named(self.models(), name@) == Some(chip_view(c.chip)),
                None => r is None,
            },
    {
        proof {
            use_type_invariant(self);
        }
        match self.position(name) {
            Some(i) => {
                proof {
                    self.lemma_model_at(i as int);
                }
                Some(self.registered[i].1.duplicate())
            },
            None => None,
        }
    }

    /// Registers `info` under `name`, replacing a chip of that name; tells whether one was
    /// replaced.
    fn insert(&mut self, name: String, info: ChipInfo) -> (replaced: bool)
        requires
            info.interface.name@ == name@,
        ensures
            final(self).registry() == reg_upsert(old(self).registry(), name@, info.interface.pins()),
            final(self).models() == model_upsert(old(self).models(), name@, chip_view(info.chip)),
            replaced == (registered_pins(old(self).registry(), name@) is Some),
    {
        proof {
            use_type_invariant(&*self);
        }
        let ghost reg = self.registry();
        let ghost mods = self.models();
        match self.position(name.as_str()) {
            Some(i) => {
                proof {
                    assert(reg[i as int].0 == name@);
                    let c = choose|j: int| 0 <= j < reg.len() && reg[j].0 == name@;
                    assert(c == i);
                    assert(mods[i as int].0 == name@);
                    let d = choose|j: int| 0 <= j < mods.len() && mods[j].0 == name@;
                    assert(mods[d].0 == reg[d].0);
                    assert(d == i);
                }
                let mut registered: Vec<(String, ChipInfo)> = Vec::new();
                std::mem::swap(&mut registered, &mut self.registered);
                registered.set(i, (name, info));
                self.registered = registered;
                assert(self.registry() =~= reg.update(i as int, (name@, info.interface.pins())));
                assert(self.models() =~= mods.update(i as int, (name@, chip_view(info.chip))));
                true
            },
            None => {
                let mut registered: Vec<(String, ChipInfo)> = Vec::new();
                std::mem::swap(&mut registered, &mut self.registered);
                registered.push((name, info));
                self.registered = registered;
                assert(self.registry() =~= reg.push((name@, info.interface.pins())));
                assert forall|j: int| 0 <= j < mods.len() implies mods[j].0 != name@ by {
                    assert(mods[j].0 == reg[j].0);
                }
                assert(self.models() =~= mods.push((name@, chip_view(info.chip))));
                false
            },
        }
    }

    /// Registers the builtin chips (the NAND gate).
    pub fn with_builtins(&mut self)
        ensures
            final(self).registry() == reg_upsert(old(self).registry(), "Nand"@, builtin::nand_pins()),
            final(self).models() == model_upsert(old(self).models(), "Nand"@, ChipV::Nand(false)),
            reg_names_distinct(final(self).registry()),
    {
        let nand = builtin::nand();
        proof {
            reveal_strlit("Nand");
        }
        let _ = self.insert(String::from_str("Nand"), nand);
        proof {
            use_type_invariant(&*self);
        }
    }
}

impl ChipBuilder {
    /// Builds the chip with interface `top_interface` from the parts `connections`: every
    /// part's chip must be registered; pins are connected part by part, assignment by
    /// assignment; then each wire's source is routed to the inputs it drives.
    fn build_native(&self, top_interface: Interface, connections: Vec<Connection>) -> (r: Built)
        ensures
            match build_outcome(self.registry(), top_interface.pins(), top_interface.name@, connections_view(connections@)) {
                BuildV::Done(b) => r matches Built::Done(info) && built_as(info, top_interface.name@, top_interface.pins(), b)
                    && chip_view(info.chip) == built_model(b, top_interface.pins(), part_models(self.models(), connections_view(connections@))),
                BuildV::Failed(e) => r matches Built::Failed(x) && x@ == e,
                BuildV::Aborts => r is Aborts,
            },
    {
        proof {
            use_type_invariant(self);
        }
        let ghost mods = self.models();
        let ghost reg = self.registry();
        let ghost cv = connections_view(connections@);
        let ghost top = top_interface.pins();
        let n = connections.len();
        if n >= 0xffff {
            return Built::Aborts;
        }
        let mut conns = connections;
        let mut chips: Vec<(IncompleteBarrier, Vec<Argument>)> = Vec::new();
        let mut needed: Vec<String> = Vec::new();
        let mut k: usize = 0;
        assert(cv.take(0) =~= Seq::<ConnectionV>::empty());
        assert(conns@ =~= connections@.subrange(0, n as int));
        while k < n
            invariant
                k <= n,
                n == connections@.len(),
                n < 0xffff,
                reg == self.registry(),
                cv == connections_view(connections@),
                conns@ == connections@.subrange(k as int, n as int),
                needed@.map_values(|s: String| s@) == missing_names(reg, cv.take(k as int)),
                missing_names(reg, cv.take(k as int)).len() == 0 ==> chips@.len() == k,
                missing_names(reg, cv.take(k as int)).len() == 0 ==> chips_parts(chips@) == parts_of(reg, cv.take(k as int)),
                missing_names(reg, cv.take(k as int)).len() == 0 ==> chips_defaults(chips@) == initial_wiring(parts_of(reg, cv.take(k as int))).defaults,
                missing_names(reg, cv.take(k as int)).len() == 0 ==> chips_masks(chips@) == initial_masks(parts_of(reg, cv.take(k as int))),
                missing_names(reg, cv.take(k as int)).len() == 0 ==> forall|m: int| 0 <= m < chips@.len() ==> #[trigger] chips_routers(chips@)[m] == Seq::<(ChannelRange, Hook)>::empty(),
                missing_names(reg, cv.take(k as int)).len() == 0 ==> chips_models(chips@) == part_models(mods, cv.take(k as int)),
                mods == self.models(),
                self.names_distinct(),
            decreases n - k,
        {
            let conn = conns.remove(0);
            assert(conn == connections@[k as int]);
            assert(conns@ =~= connections@.subrange(k + 1, n as int));
            let ghost c = cv[k as int];
            assert(conn@ == c);
            assert(cv.take(k + 1).drop_last() == cv.take(k as int));
            assert(cv.take(k + 1).last() == c);
            let ghost before_missing = missing_names(reg, cv.take(k as int));
            match self.position(conn.chip_name.as_str()) {
                Some(i) => {
                    proof {
                        self.lemma_model_at(i as int);
                    }
                    let info = self.registered[i].1.duplicate();
                    let barrier = IncompleteBarrier::new(info);
                    let ghost old_chips = chips@;
                    chips.push((barrier, conn.inputs));
                    proof {
                        assert(missing_names(reg, cv.take(k + 1)) =~= before_missing);
                        if before_missing.len() == 0 {
                            assert forall|q: int| 0 <= q < k + 1 implies #[trigger] chips_models(chips@)[q] == part_models(mods, cv.take(k + 1))[q] by {
                                if q < k {
                                    assert(chips_models(chips@)[q] == chips_models(old_chips)[q]);
                                    assert(cv.take(k + 1)[q] == cv.take(k as int)[q]);
                                } else {
                                    assert(chips_models(chips@)[q] == chip_view(barrier.chip));
                                }
                            }
                            assert(chips_models(chips@) =~= part_models(mods, cv.take(k + 1)));
                            let p = parts_of(reg, cv.take(k + 1));
                            let p0 = parts_of(reg, cv.take(k as int));
                            assert(registered_pins(reg, c.chip_name) == Some(barrier.interface.pins()));
                            assert(p[k as int] == (barrier.interface.pins(), c.inputs));
                            assert(conn.inputs@.map_values(|a: Argument| a@) == c.inputs);
                            assert forall|q: int| 0 <= q < k implies #[trigger] p[q] == p0[q] by {
                                assert(cv.take(k + 1)[q] == cv.take(k as int)[q]);
                            }
                            assert(chips_parts(chips@) =~= p);
                            assert forall|q: int| 0 <= q < k + 1 implies #[trigger] chips_defaults(chips@)[q] == initial_wiring(p).defaults[q] by {
                                if q < k {
                                    assert(chips_defaults(chips@)[q] == chips_defaults(old_chips)[q]);
                                    assert(initial_wiring(p0).defaults[q] == zeros(inputs_needed(p0[q].0)));
                                } else {
                                    assert(chips_defaults(chips@)[q] == bits(barrier.default));
                                }
                            }
                            assert forall|q: int| 0 <= q < k + 1 implies #[trigger] chips_masks(chips@)[q] == initial_masks(p)[q] by {
                                if q < k {
                                    assert(chips_masks(chips@)[q] == chips_masks(old_chips)[q]);
                                    assert(initial_masks(p0)[q] == unclocked_mask(p0[q].0));
                                } else {
                                    assert(chips_masks(chips@)[q] == bits(barrier.clock_mask));
                                }
                            }
                            assert(chips_defaults(chips@) =~= initial_wiring(p).defaults);
                            assert(chips_masks(chips@) =~= initial_masks(p));
                            assert forall|m: int| 0 <= m < chips@.len() implies #[trigger] chips_routers(chips@)[m] == Seq::<(ChannelRange, Hook)>::empty() by {
                                if m < k {
                                    assert(chips_routers(chips@)[m] == chips_routers(old_chips)[m]);
                                }
                            }
                        }
                    }
                },
                None => {
                    let ghost old_needed = needed@.map_values(|s: String| s@);
                    needed.push(conn.chip_name);
                    assert(needed@.map_values(|s: String| s@) =~= old_needed.push(c.chip_name));
                    assert(missing_names(reg, cv.take(k + 1)) =~= before_missing + seq![c.chip_name]);
                },
            }
            k += 1;
        }
        assert(cv.take(n as int) == cv);
        if needed.len() > 0 {
            return Built::Failed(ModelConstructionError::Needs(needed));
        }
        assert(needed@.map_values(|s: String| s@).len() == needed@.len());
        let ghost parts = parts_of(reg, cv);
        assert(WiringV { edges: seq![], outer: seq![], defaults: chips_defaults(chips@) } == initial_wiring(parts));
        let (edges, outer) = match create_connection_maps(&mut chips, &top_interface) {
            Connected::Done(e, o) => (e, o),
            Connected::Failed(e) => return Built::Failed(e),
            Connected::Aborts => return Built::Aborts,
        };
        let ghost w = WiringV { edges: edges_view(edges@), outer: outer_view(outer@), defaults: chips_defaults(chips@) };
        let mut in_router = Router::new();
        let ghost r_start = chips_routers(chips@);
        write_outer(&mut chips, &outer, &mut in_router);
        assert(in_router.map@ =~= in_routes(w.outer));
        let ghost r_mid = chips_routers(chips@);
        match write_edges(&mut chips, &edges) {
            Some(name) => return Built::Failed(ModelConstructionError::NoSource(name)),
            None => {},
        }
        if !top_interface.has_outputs() {
            return Built::Aborts;
        }
        let out_buffer = bv_repeat(false, top_interface.size_out());
        let ghost b = BuiltV {
            in_router: in_routes(w.outer),
            routers: Seq::new(n as nat, |m: int| out_routes(w.outer, Id((m + 1) as u16)) + edge_routes(w.edges, Id((m + 1) as u16))),
            defaults: w.defaults,
            masks: initial_masks(parts),
        };
        assert forall|m: int| 0 <= m < n implies #[trigger] chips_routers(chips@)[m] == b.routers[m] by {
            assert(r_start[m] == Seq::<(ChannelRange, Hook)>::empty());
            assert(r_start[m] + out_routes(w.outer, Id((m + 1) as u16)) =~= out_routes(w.outer, Id((m + 1) as u16)));
        }
        let ghost final_chips = chips@;
        let mut registry: Vec<(Id, Barrier)> = Vec::new();
        let mut m: usize = 0;
        assert(chips@ =~= final_chips.subrange(0, n as int));
        while m < n
            invariant
                m <= n,
                n < 0xffff,
                final_chips.len() == n,
                chips@ == final_chips.subrange(m as int, n as int),
                registry@.len() == m,
                b.routers.len() == n,
                b.defaults.len() == n,
                b.masks.len() == n,
                forall|q: int| 0 <= q < n ==> #[trigger] chips_routers(final_chips)[q] == b.routers[q],
                chips_defaults(final_chips) == b.defaults,
                chips_masks(final_chips) == b.masks,
                forall|q: int| 0 <= q < m ==> part_as(#[trigger] registry@[q], q, b),
                chips_models(final_chips) == part_models(mods, cv),
                forall|q: int| 0 <= q < m ==> chip_view((#[trigger] registry@[q]).1.chip) == part_models(mods, cv)[q],
            decreases n - m,
        {
            let (barrier, _args) = chips.remove(0);
            assert(barrier == final_chips[m as int].0);
            assert(chips@ =~= final_chips.subrange(m + 1, n as int));
            assert(chips_routers(final_chips)[m as int] == barrier.router.map@);
            assert(chips_defaults(final_chips)[m as int] == bits(barrier.default));
            assert(chips_masks(final_chips)[m as int] == bits(barrier.clock_mask));
            assert(chips_models(final_chips)[m as int] == chip_view(barrier.chip));
            let done = barrier.complete();
            registry.push((Id((m + 1) as u16), done));
            m += 1;
        }
        let chip = NativeChip {
            registry,
            in_router,
            out_chip: Id(0),
            out_buffer,
            request_queue: VecDeque::new(),
        };
        proof {
            let pm = part_models(mods, cv);
            let bm = built_model(b, top, pm);
            assert(native_view(chip).registry =~= bm->Native_0.registry) by {
                assert forall|q: int| 0 <= q < n implies #[trigger] native_view(chip).registry[q] == bm->Native_0.registry[q] by {
                    assert(part_as(registry@[q], q, b));
                }
            }
            assert(native_view(chip).queue =~= Seq::<RequestV>::empty());
        }
        Built::Done(ChipInfo { interface: top_interface, chip: ChipModel::Native(chip) })
    }
}

/// The pins a chip description declares, laid out; none is clocked.
pub open spec fn declared_pins(chip: ChipRepr) -> Seq<(Seq<char>, PinV)> {
    gather(pin_entries(channels_view(chip.in_pins@), channels_view(chip.out_pins@), Seq::empty()))
}

/// How a checked registration ends: what [`ChipBuilder::register_hdl`] returns, or `Aborts`
/// where its `requires` refuses the description.
pub enum Registration {
    Done(Result<(), ModelConstructionError>),
    Aborts,
}

/// Whether a description can be registered by [`ChipBuilder::register_hdl`]: its pins can be
/// laid out, it is made of parts, and building it does not abort.
pub open spec fn registrable(reg: Seq<(Seq<char>, Seq<(Seq<char>, PinV)>)>, chip: ChipRepr) -> bool {
    &&& widths_ok(channels_view(chip.in_pins@))
    &&& widths_ok(channels_view(chip.out_pins@))
    &&& chip.logic is Native
    &&& !(build_outcome(reg, declared_pins(chip), chip.name@, connections_view(chip.logic->Native_0@)) is Aborts)
}

impl ChipBuilder {
    /// Builds the chip described by `chip` from registered chips and registers it under its
    /// name. A chip of the same name is replaced, and then `Rebuilt` is reported.
    pub fn register_hdl(&mut self, chip: ChipRepr) -> (r: Result<(), ModelConstructionError>)
        requires
            widths_ok(channels_view(chip.in_pins@)),
            widths_ok(channels_view(chip.out_pins@)),
            chip.logic is Native,
            !(build_outcome(old(self).registry(), declared_pins(chip), chip.name@, connections_view(chip.logic->Native_0@)) is Aborts),
        ensures
            match build_outcome(old(self).registry(), declared_pins(chip), chip.name@, connections_view(chip.logic->Native_0@)) {
                BuildV::Done(b) => final(self).registry() == reg_upsert(old(self).registry(), chip.name@, declared_pins(chip))
                    && final(self).models() == model_upsert(old(self).models(), chip.name@,
                        built_model(b, declared_pins(chip), part_models(old(self).models(), connections_view(chip.logic->Native_0@))))
                    && (r is Ok <==> registered_pins(old(self).registry(), chip.name@) is None)
                    && (r matches Err(e) ==> e@ == ErrorV::Rebuilt(chip.name@)),
                BuildV::Failed(e) => r matches Err(x) && x@ == e && final(self).registry() == old(self).registry()
                    && final(self).models() == old(self).models(),
                BuildV::Aborts => false,
            },
            reg_names_distinct(final(self).registry()),
    {
        match self.register_hdl_checked(chip) {
            Registration::Done(r) => r,
            Registration::Aborts => {
                assert(false);
                Ok(())
            },
        }
    }

    /// [`ChipBuilder::register_hdl`] on any description: `Aborts`, with nothing registered,
    /// where that function's `requires` refuses it.
    pub fn register_hdl_checked(&mut self, chip: ChipRepr) -> (r: Registration)
        ensures
            match r {
                Registration::Aborts => !registrable(old(self).registry(), chip)
                    && final(self).registry() == old(self).registry() && final(self).models() == old(self).models(),
                Registration::Done(x) => registrable(old(self).registry(), chip) && match build_outcome(
                    old(self).registry(), declared_pins(chip), chip.name@, connections_view(chip.logic->Native_0@)) {
                    BuildV::Done(b) => final(self).registry() == reg_upsert(old(self).registry(), chip.name@, declared_pins(chip))
                        && final(self).models() == model_upsert(old(self).models(), chip.name@,
                            built_model(b, declared_pins(chip), part_models(old(self).models(), connections_view(chip.logic->Native_0@))))
                        && (x is Ok <==> registered_pins(old(self).registry(), chip.name@) is None)
                        && (x matches Err(e) ==> e@ == ErrorV::Rebuilt(chip.name@)),
                    BuildV::Failed(e) => x matches Err(y) && y@ == e && final(self).registry() == old(self).registry()
                        && final(self).models() == old(self).models(),
                    BuildV::Aborts => false,
                },
            },
            reg_names_distinct(final(self).registry()),
    {
        proof {
            use_type_invariant(&*self);
        }
        if !widths_fit(&chip.in_pins) || !widths_fit(&chip.out_pins) {
            return Registration::Aborts;
        }
        let top_interface = chip.interface();
        let ChipRepr { name, logic, .. } = chip;
        match logic {
            Form::Native(conns) => match self.build_native(top_interface, conns) {
                Built::Done(info) => {
                    let replaced = self.insert(name.clone(), info);
                    proof {
                        use_type_invariant(&*self);
                    }
                    if replaced {
                        Registration::Done(Err(ModelConstructionError::Rebuilt(name)))
                    } else {
                        Registration::Done(Ok(()))
                    }
                },
                Built::Failed(e) => Registration::Done(Err(e)),
                Built::Aborts => Registration::Aborts,
            },
            Form::Builtin(_) => Registration::Aborts,
        }
    }
}

/// Whether no two registered chips share a name.
pub open spec fn reg_names_distinct(reg: Seq<(Seq<char>, Seq<(Seq<char>, PinV)>)>) -> bool {
    forall|i: int, j: int| 0 <= i < j < reg.len() ==> reg[i].0 != reg[j].0
}

proof fn lemma_registered_at(reg: Seq<(Seq<char>, Seq<(Seq<char>, PinV)>)>, n: Seq<char>, j: int)
    requires
        0 <= j < reg.len(),
        reg[j].0 == n,
        forall|i: int| 0 <= i < j ==> reg[i].0 != n,
    ensures
        registered_pins(reg, n) == Some(reg[j].1),
    decreases j,
{
    if j > 0 {
        let rest = reg.drop_first();
        assert forall|i: int| 0 <= i < j - 1 implies rest[i].0 != n by {
            assert(rest[i] == reg[i + 1]);
        }
        lemma_registered_at(rest, n, j - 1);
        assert(reg[0].0 != n);
    }
}

proof fn lemma_registered_none(reg: Seq<(Seq<char>, Seq<(Seq<char>, PinV)>)>, n: Seq<char>)
    requires
        forall|i: int| 0 <= i < reg.len() ==> reg[i].0 != n,
    ensures
        registered_pins(reg, n) is None,
    decreases reg.len(),
{
    if reg.len() > 0 {
        let rest = reg.drop_first();
        assert forall|i: int| 0 <= i < rest.len() implies rest[i].0 != n by {
            assert(rest[i] == reg[i + 1]);
        }
        lemma_registered_none(rest, n);
    }
}

/// Two lists with the same names in the same places, and the same pins wherever the name is
/// `n`, find the same pins for `n`.
proof fn lemma_registered_same(a: Seq<(Seq<char>, Seq<(Seq<char>, PinV)>)>, b: Seq<(Seq<char>, Seq<(Seq<char>, PinV)>)>, n: Seq<char>)
    requires
        a.len() <= b.len(),
        forall|i: int| 0 <= i < a.len() ==> b[i].0 == a[i].0 && (a[i].0 == n ==> b[i].1 == a[i].1),
        forall|i: int| a.len() <= i < b.len() ==> b[i].0 != n,
    ensures
        registered_pins(b, n) == registered_pins(a, n),
{
    if exists|i: int| 0 <= i < a.len() && a[i].0 == n {
        let i = choose|i: int| 0 <= i < a.len() && a[i].0 == n;
        let ghost first = first_index(a, n, i);
        lemma_registered_at(a, n, first);
        lemma_registered_at(b, n, first);
    } else {
        lemma_registered_none(a, n);
        lemma_registered_none(b, n);
    }
}

/// The first place at or before `i` where the name `n` is, given that it is at `i`.
proof fn first_index(a: Seq<(Seq<char>, Seq<(Seq<char>, PinV)>)>, n: Seq<char>, i: int) -> (f: int)
    requires
        0 <= i < a.len(),
        a[i].0 == n,
    ensures
        0 <= f <= i,
        a[f].0 == n,
        forall|m: int| 0 <= m < f ==> a[m].0 != n,
    decreases i,
{
    if exists|m: int| 0 <= m < i && a[m].0 == n {
        let m = choose|m: int| 0 <= m < i && a[m].0 == n;
        first_index(a, n, m)
    } else {
        i
    }
}

/// Registering a chip under a name makes the name find that chip's pins and leaves every
/// other name as it was; names stay distinct.
pub proof fn lemma_register_then_lookup(
    reg: Seq<(Seq<char>, Seq<(Seq<char>, PinV)>)>,
    name: Seq<char>,
    pins: Seq<(Seq<char>, PinV)>,
    other: Seq<char>,
)
    requires
        reg_names_distinct(reg),
    ensures
        registered_pins(reg_upsert(reg, name, pins), name) == Some(pins),
        other != name ==> registered_pins(reg_upsert(reg, name, pins), other) == registered_pins(reg, other),
        reg_names_distinct(reg_upsert(reg, name, pins)),
{
    let up = reg_upsert(reg, name, pins);
    if exists|j: int| 0 <= j < reg.len() && reg[j].0 == name {
        let j = choose|j: int| 0 <= j < reg.len() && reg[j].0 == name;
        assert(up == reg.update(j, (name, pins)));
        lemma_registered_at(up, name, j);
        if other != name {
            lemma_registered_same(reg, up, other);
        }
    } else {
        assert(up == reg.push((name, pins)));
        lemma_registered_at(up, name, reg.len() as int);
        if other != name {
            lemma_registered_same(reg, up, other);
        }
    }
}

} // verus!
