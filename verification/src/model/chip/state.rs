//! What a chip holds, as plain values: the state the simulation reads and writes.
use vstd::prelude::*;
use crate::channel_range::ChannelRange;
use super::bits::{bits, Bits};
use super::native::{Barrier, Hook, NativeChip, Request};
use super::{ChipModel, Id};

verus! {

/// A request as plain values.
pub struct RequestV {
    pub id: Id,
    pub data: Seq<bool>,
    pub range: ChannelRange,
}

/// A part of a native chip as plain values.
pub struct BarrierV {
    pub in_buffer: Seq<bool>,
    pub intermediate: Seq<bool>,
    pub clock_mask: Seq<bool>,
    pub out_buffer: Seq<bool>,
    pub chip: ChipV,
    pub router: Seq<(ChannelRange, Hook)>,
}

/// A native chip as plain values.
pub struct NativeV {
    pub registry: Seq<(Id, BarrierV)>,
    pub in_router: Seq<(ChannelRange, Hook)>,
    pub out_chip: Id,
    pub out_buffer: Seq<bool>,
    pub queue: Seq<RequestV>,
}

/// A chip as plain values: a NAND gate's last output, or a native chip.
pub enum ChipV {
    Nand(bool),
    Native(NativeV),
}

/// The plain values of a request.
pub open spec fn request_view(r: Request) -> RequestV {
    RequestV { id: r.id, data: bits(r.data), range: r.range }
}

/// The plain values of requests, in order.
pub open spec fn requests_view(q: Seq<Request>) -> Seq<RequestV> {
    q.map_values(|r: Request| request_view(r))
}

/// The plain values of a chip.
pub open spec fn chip_view(c: ChipModel) -> ChipV
    decreases c,
{
    match c {
        ChipModel::Nand(n) => ChipV::Nand(n.bit),
        ChipModel::Native(n) => ChipV::Native(native_view(n)),
    }
}

/// The plain values of a native chip.
pub open spec fn native_view(n: NativeChip) -> NativeV
    decreases n,
{
    NativeV {
        registry: Seq::new(n.registry@.len(), |k: int|
            if 0 <= k < n.registry@.len() {
                (n.registry@[k].0, barrier_view(n.registry@[k].1))
            } else {
                arbitrary()
            }),
        in_router: n.in_router.map@,
        out_chip: n.out_chip,
        out_buffer: bits(n.out_buffer),
        queue: requests_view(n.request_queue@),
    }
}

/// The plain values of a part.
pub open spec fn barrier_view(b: Barrier) -> BarrierV
    decreases b,
{
    BarrierV {
        in_buffer: bits(b.in_buffer),
        intermediate: bits(b.intermediate),
        clock_mask: bits(b.clock_mask),
        out_buffer: bits(b.out_buffer),
        chip: chip_view(b.chip),
        router: b.router.map@,
    }
}

/// The bits an optional result holds.
pub open spec fn opt_bits(r: Option<Bits>) -> Option<Seq<bool>> {
    match r {
        Some(b) => Some(bits(b)),
        None => None,
    }
}

/// The plain values of optional requests.
pub open spec fn opt_requests(r: Option<Vec<Request>>) -> Option<Seq<RequestV>> {
    match r {
        Some(v) => Some(requests_view(v@)),
        None => None,
    }
}

/// The requests that send the bits of `data` along each route of `router`, in order.
pub open spec fn requests_for(router: Seq<(ChannelRange, Hook)>, data: Seq<bool>) -> Seq<RequestV> {
    Seq::new(router.len(), |i: int| RequestV {
        id: router[i].1.id,
        data: data.subrange(router[i].0.lo() as int, router[i].0.hi() + 1),
        range: router[i].1.range,
    })
}

/// `buf` with the bits `range` replaced by `data`.
pub open spec fn write_bits(buf: Seq<bool>, range: ChannelRange, data: Seq<bool>) -> Seq<bool> {
    Seq::new(buf.len(), |j: int| if range.lo() <= j <= range.hi() { data[j - range.lo()] } else { buf[j] })
}

/// The chip's inputs after the input bits that are not clocked (those set in `mask`) pass on.
pub open spec fn pass_unclocked(inter: Seq<bool>, input: Seq<bool>, mask: Seq<bool>) -> Seq<bool> {
    Seq::new(inter.len(), |j: int|
        if j < input.len() && j < mask.len() {
            (mask[j] && input[j]) || (!mask[j] && inter[j])
        } else {
            inter[j]
        })
}

/// Whether every bit is set.
pub open spec fn all_set(s: Seq<bool>) -> bool {
    forall|j: int| 0 <= j < s.len() ==> s[j]
}

/// Whether `k` is the first place of the part `id`.
pub open spec fn first_part(reg: Seq<(Id, BarrierV)>, id: Id, k: int) -> bool {
    &&& 0 <= k < reg.len()
    &&& reg[k].0 == id
    &&& forall|j: int| 0 <= j < k ==> reg[j].0 != id
}

/// The first place of the part `id` is `k` when the part is there and nowhere before.
pub proof fn lemma_part_index(reg: Seq<(Id, BarrierV)>, id: Id, k: int)
    requires
        first_part(reg, id, k),
    ensures
        part_index(reg, id) == Some(k),
{
    let c = choose|c: int| first_part(reg, id, c);
    assert(first_part(reg, id, c));
    if c < k {
        assert(reg[c].0 != id);
    } else if c > k {
        assert(reg[k].0 != id);
    }
}

/// The first place of the part `id`, if there is one.
pub open spec fn part_index(reg: Seq<(Id, BarrierV)>, id: Id) -> Option<int> {
    if exists|k: int| first_part(reg, id, k) {
        Some(choose|k: int| first_part(reg, id, k))
    } else {
        None
    }
}

/// A step of a chip: an evaluation (or, when `clocked`, a clock tick) on `args`, allowing
/// `limit` deliveries at each level. The chip's new state, and its output unless it did not
/// settle.
pub open spec fn chip_step(c: ChipV, args: Seq<bool>, limit: nat, clocked: bool) -> (ChipV, Option<Seq<bool>>)
    decreases limit, 2nat, 0nat,
{
    match c {
        ChipV::Nand(bit) => if clocked {
            (c, Some(seq![bit]))
        } else {
            let o = !(args[0] && args[1]);
            (ChipV::Nand(o), Some(seq![o]))
        },
        ChipV::Native(n) => if limit == 0 {
            (c, None)
        } else {
            let (m, o) = native_run(n, args, limit, clocked);
            (ChipV::Native(m), o)
        },
    }
}

/// A step of a native chip: the requests for its inputs join the queue, which is then
/// delivered.
pub open spec fn native_run(n: NativeV, args: Seq<bool>, limit: nat, clocked: bool) -> (NativeV, Option<Seq<bool>>)
    decreases limit, 1nat, limit + 1,
{
    deliver(NativeV { queue: n.queue + requests_for(n.in_router, args), ..n }, limit, limit, clocked)
}

/// Delivers the queued requests one at a time, at most `rem` of them: a request for the
/// chip's output writes into the output; one for a part writes into the part's inputs, steps
/// the part and queues what the part sends. The output once the queue is empty; `None` when
/// `rem` ran out or a part did not settle.
pub open spec fn deliver(n: NativeV, rem: nat, limit: nat, clocked: bool) -> (NativeV, Option<Seq<bool>>)
    decreases limit, 1nat, rem,
{
    if n.queue.len() == 0 {
        (n, Some(n.out_buffer))
    } else if rem == 0 || limit == 0 {
        (n, None)
    } else {
        let req = n.queue[0];
        let rest = NativeV { queue: n.queue.drop_first(), ..n };
        if req.id == n.out_chip {
            deliver(NativeV { out_buffer: write_bits(n.out_buffer, req.range, req.data), ..rest }, (rem - 1) as nat, limit, clocked)
        } else {
            match part_index(n.registry, req.id) {
                None => (rest, None),
                Some(k) => {
                    let b = n.registry[k].1;
                    let b1 = BarrierV { in_buffer: write_bits(b.in_buffer, req.range, req.data), ..b };
                    let (b2, out) = barrier_step(b1, (limit - 1) as nat, clocked);
                    let after = NativeV { registry: n.registry.update(k, (n.registry[k].0, b2)), ..rest };
                    match out {
                        None => (after, None),
                        Some(reqs) => deliver(NativeV { queue: after.queue + reqs, ..after }, (rem - 1) as nat, limit, clocked),
                    }
                },
            }
        }
    }
}

/// A step of a part: on an evaluation the input bits that are not clocked pass on, on a
/// clock tick all of them (unless no bit is clocked: then nothing happens and nothing is
/// sent); the chip steps, and its output is sent along the part's routes.
pub open spec fn barrier_step(b: BarrierV, limit: nat, clocked: bool) -> (BarrierV, Option<Seq<RequestV>>)
    decreases limit, 3nat, 0nat,
{
    if clocked && all_set(b.clock_mask) {
        (b, Some(Seq::empty()))
    } else {
        let b1 = BarrierV {
            intermediate: if clocked { b.in_buffer } else { pass_unclocked(b.intermediate, b.in_buffer, b.clock_mask) },
            ..b
        };
        let (c, out) = chip_step(b1.chip, b1.intermediate, limit, clocked);
        match out {
            Some(o) => (BarrierV { chip: c, out_buffer: o, ..b1 }, Some(requests_for(b.router, o))),
            None => (BarrierV { chip: c, ..b1 }, None),
        }
    }
}

} // verus!
