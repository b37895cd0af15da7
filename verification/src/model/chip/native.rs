//! Chips made of parts, and how bits travel between the parts.
use vstd::prelude::*;
use std::collections::VecDeque;
use crate::channel_range::ChannelRange;
use super::bits::{bits, bv_all, bv_clone, bv_copy_into, bv_get, bv_len, bv_set, bv_slice, Bits};
use super::state::{
    barrier_step, barrier_view, chip_step, chip_view, native_run, native_view, opt_bits, opt_requests,
    deliver, lemma_part_index, pass_unclocked, request_view, requests_for, requests_view, write_bits,
    BarrierV, NativeV, RequestV,
};
use super::{ChipModel, Id};

verus! {

/// Where bits go: the bits `range` of the part `id` (or of the chip's output).
#[derive(Debug, Clone, Copy)]
pub struct Hook {
    pub id: Id,
    pub range: ChannelRange,
}

/// For each entry `(from, hook)`: the bits `from` of a source go to `hook`.
pub struct Router {
    pub map: Vec<(ChannelRange, Hook)>,
}

/// A request to write `data` into the bits `range` of the part `id`.
pub struct Request {
    pub id: Id,
    pub data: Bits,
    pub range: ChannelRange,
}

/// A part inside a native chip, with its buffers.
///
/// clock_mask is set true for bits which are not clocked. When a clock cycle
/// occurs, all bits pass from in_buffer to intermediate. But when a non-clock
/// eval occurs, only those marked as true in clock_mask pass from in_buffer to
/// intermediate.
pub struct Barrier {
    pub in_buffer: Bits,
    pub intermediate: Bits,
    pub clock_mask: Bits,
    pub out_buffer: Bits,
    pub chip: ChipModel,
    pub router: Router,
}

/// A chip made of parts: the parts by number, where the chip's inputs go, the number that
/// stands for the chip's own output, its output bits and the requests still to deliver.
pub struct NativeChip {
    pub registry: Vec<(Id, Barrier)>,
    pub in_router: Router,
    pub out_chip: Id,
    pub out_buffer: Bits,
    pub request_queue: VecDeque<Request>,
}

impl Clone for Router {
    fn clone(&self) -> (r: Router)
        ensures
            r.map@ == self.map@,
    {
        let mut map: Vec<(ChannelRange, Hook)> = Vec::new();
        let mut i: usize = 0;
        while i < self.map.len()
            invariant
                i <= self.map@.len(),
                map@ == self.map@.take(i as int),
            decreases self.map@.len() - i,
        {
            map.push(self.map[i]);
            i += 1;
            assert(map@ =~= self.map@.take(i as int));
        }
        assert(self.map@.take(i as int) =~= self.map@);
        Router { map }
    }
}

impl Clone for Request {
    fn clone(&self) -> (r: Request)
        ensures
            request_view(r) == request_view(*self),
    {
        Request { id: self.id, data: bv_clone(&self.data), range: self.range }
    }
}

impl Barrier {
    /// A copy of the part with its buffers, its chip's state and its routes.
    pub fn duplicate(&self) -> (r: Barrier)
        ensures
            barrier_view(r) == barrier_view(*self),
        decreases self,
    {
        Barrier {
            in_buffer: self.in_buffer.clone(),
            intermediate: self.intermediate.clone(),
            clock_mask: self.clock_mask.clone(),
            out_buffer: self.out_buffer.clone(),
            chip: self.chip.duplicate(),
            router: self.router.clone(),
        }
    }
}

impl NativeChip {
    /// A copy of the chip with all its parts and the requests still to deliver.
    pub fn duplicate(&self) -> (r: NativeChip)
        ensures
            native_view(r) == native_view(*self),
        decreases self,
    {
        let mut registry: Vec<(Id, Barrier)> = Vec::new();
        let mut i: usize = 0;
        while i < self.registry.len()
            invariant
                i <= self.registry@.len(),
                registry@.len() == i,
                forall|j: int| 0 <= j < i ==> (#[trigger] registry@[j]).0 == self.registry@[j].0
                    && barrier_view(registry@[j].1) == barrier_view(self.registry@[j].1),
            decreases self.registry@.len() - i,
        {
            assert(decreases_to!(self => self.registry@[i as int].1));
            registry.push((self.registry[i].0, self.registry[i].1.duplicate()));
            i += 1;
        }
        let mut queue: VecDeque<Request> = VecDeque::new();
        let mut j: usize = 0;
        while j < self.request_queue.len()
            invariant
                j <= self.request_queue@.len(),
                requests_view(queue@) == requests_view(self.request_queue@.take(j as int)),
            decreases self.request_queue@.len() - j,
        {
            let ghost q = queue@;
            queue.push_back(self.request_queue[j].clone());
            assert(requests_view(queue@) =~= requests_view(q).push(request_view(self.request_queue@[j as int])));
            j += 1;
            assert(requests_view(self.request_queue@.take(j as int)) =~= requests_view(self.request_queue@.take(j - 1)).push(request_view(self.request_queue@[j - 1])));
        }
        assert(self.request_queue@.take(j as int) =~= self.request_queue@);
        let r = NativeChip {
            registry,
            in_router: self.in_router.clone(),
            out_chip: self.out_chip,
            out_buffer: self.out_buffer.clone(),
            request_queue: queue,
        };
        assert(native_view(r).registry =~= native_view(*self).registry);
        r
    }
}

impl Router {
    /// A router that sends nothing anywhere.
    pub fn new() -> (r: Router)
        ensures
            r.map@ == Seq::<(ChannelRange, Hook)>::empty(),
    {
        Router { map: Vec::new() }
    }

    /// Sends the bits `range` to `hook` as well.
    pub fn add_hook(&mut self, range: ChannelRange, hook: Hook)
        ensures
            final(self).map@ == old(self).map@.push((range, hook)),
    {
        self.map.push((range, hook));
    }
}

/// The parts of a native chip as far as delivering bits goes: each part's number and
/// input width, the number standing for the chip's output, and the output width.
pub struct ShapeV {
    pub ids: Seq<Id>,
    pub in_lens: Seq<int>,
    pub out_chip: Id,
    pub out_len: int,
}

/// The delivery shape of a native chip.
pub open spec fn shape_of(n: NativeChip) -> ShapeV {
    ShapeV {
        ids: n.registry@.map_values(|e: (Id, Barrier)| e.0),
        in_lens: n.registry@.map_values(|e: (Id, Barrier)| bits(e.1.in_buffer).len() as int),
        out_chip: n.out_chip,
        out_len: bits(n.out_buffer).len() as int,
    }
}

/// Whether part numbers are distinct, and distinct from the output's number.
pub open spec fn ids_distinct(s: ShapeV) -> bool {
    &&& s.ids.len() == s.in_lens.len()
    &&& forall|i: int, j: int| 0 <= i < j < s.ids.len() ==> s.ids[i] != s.ids[j]
    &&& forall|i: int| 0 <= i < s.ids.len() ==> s.ids[i] != s.out_chip
}

/// Whether `width` bits sent to `h` fit where they land.
pub open spec fn lands(s: ShapeV, h: Hook, width: int) -> bool {
    &&& h.range.hi() - h.range.lo() + 1 == width
    &&& if h.id == s.out_chip {
        h.range.hi() < s.out_len
    } else {
        exists|k: int| 0 <= k < s.ids.len() && s.ids[k] == h.id && h.range.hi() < #[trigger] s.in_lens[k]
    }
}

/// Whether every route of `m` lands.
pub open spec fn routes_land(s: ShapeV, m: Seq<(ChannelRange, Hook)>) -> bool {
    forall|i: int| 0 <= i < m.len() ==> lands(s, (#[trigger] m[i]).1, m[i].0.hi() - m[i].0.lo() + 1)
}

/// Whether every route of `m` takes bits below `len`.
pub open spec fn routes_from(m: Seq<(ChannelRange, Hook)>, len: int) -> bool {
    forall|i: int| 0 <= i < m.len() ==> (#[trigger] m[i]).0.hi() < len
}

/// Whether every queued request lands.
pub open spec fn queue_lands(s: ShapeV, q: Seq<Request>) -> bool {
    forall|i: int| 0 <= i < q.len() ==> lands(s, Hook { id: (#[trigger] q[i]).id, range: q[i].range }, bits(q[i].data).len() as int)
}

/// How many bits a chip's evaluation gives.
pub open spec fn out_len(c: ChipModel) -> int {
    match c {
        ChipModel::Nand(_) => 1,
        ChipModel::Native(n) => bits(n.out_buffer).len() as int,
    }
}

/// Whether a chip reads only its first `len` input bits.
pub open spec fn reads_within(c: ChipModel, len: int) -> bool {
    match c {
        ChipModel::Nand(_) => len >= 2,
        ChipModel::Native(n) => routes_from(n.in_router.map@, len),
    }
}

/// Whether two states of a chip take and give the same bits.
pub open spec fn same_face(a: ChipModel, b: ChipModel) -> bool {
    &&& out_len(a) == out_len(b)
    &&& (a is Nand <==> b is Nand)
    &&& (a is Native ==> a->Native_0.in_router.map@ == b->Native_0.in_router.map@)
}

/// Whether a part of a native chip of shape `s` can be evaluated and its outputs delivered.
pub open spec fn part_ok(s: ShapeV, b: Barrier) -> bool {
    &&& bits(b.intermediate).len() == bits(b.in_buffer).len()
    &&& reads_within(b.chip, bits(b.intermediate).len() as int)
    &&& routes_from(b.router.map@, out_len(b.chip))
    &&& routes_land(s, b.router.map@)
}

/// Whether a chip can be simulated without any bit going astray: in every native chip,
/// down to the gates, every route takes bits that exist and writes them where they fit.
pub open spec fn well(c: ChipModel) -> bool
    decreases c,
{
    match c {
        ChipModel::Nand(_) => true,
        ChipModel::Native(n) => {
            &&& ids_distinct(shape_of(n))
            &&& routes_land(shape_of(n), n.in_router.map@)
            &&& queue_lands(shape_of(n), n.request_queue@)
            &&& forall|k: int| 0 <= k < n.registry@.len() ==> part_ok(shape_of(n), #[trigger] n.registry@[k].1)
                && well(n.registry@[k].1.chip)
        },
    }
}

impl Router {
    /// The requests that send the bits of `data` along each route, in order.
    pub fn gen_requests(&self, data: &Bits) -> (r: Vec<Request>)
        requires
            routes_from(self.map@, bits(*data).len() as int),
        ensures
            r@.len() == self.map@.len(),
            forall|i: int| 0 <= i < r@.len() ==> (#[trigger] r@[i]).id == self.map@[i].1.id
                && r@[i].range == self.map@[i].1.range
                && bits(r@[i].data) == bits(*data).subrange(self.map@[i].0.lo() as int, self.map@[i].0.hi() + 1)
                && bits(r@[i].data).len() == self.map@[i].0.hi() + 1 - self.map@[i].0.lo(),
            requests_view(r@) == requests_for(self.map@, bits(*data)),
    {
        let mut r: Vec<Request> = Vec::new();
        let mut i: usize = 0;
        while i < self.map.len()
            invariant
                i <= self.map@.len(),
                routes_from(self.map@, bits(*data).len() as int),
                r@.len() == i,
                forall|j: int| 0 <= j < i ==> (#[trigger] r@[j]).id == self.map@[j].1.id
                    && r@[j].range == self.map@[j].1.range
                    && bits(r@[j].data) == bits(*data).subrange(self.map@[j].0.lo() as int, self.map@[j].0.hi() + 1)
                    && bits(r@[j].data).len() == self.map@[j].0.hi() + 1 - self.map@[j].0.lo(),
            decreases self.map@.len() - i,
        {
            let (in_range, hook) = self.map[i];
            assert(self.map@[i as int].0.hi() < bits(*data).len());
            let lo = in_range.start() as usize;
            let hi = in_range.end() as usize;
            r.push(Request { id: hook.id, data: bv_slice(data, lo, hi), range: hook.range });
            i += 1;
        }
        assert(requests_view(r@) =~= requests_for(self.map@, bits(*data)));
        r
    }
}

impl Barrier {
    /// Writes the request's bits into the input buffer.
    pub fn accept(&mut self, req: &Request)
        requires
            req.range.hi() < bits(old(self).in_buffer).len(),
            req.range.hi() - req.range.lo() + 1 == bits(req.data).len(),
        ensures
            bits(final(self).in_buffer) == write_bits(bits(old(self).in_buffer), req.range, bits(req.data)),
            bits(final(self).intermediate) == bits(old(self).intermediate),
            bits(final(self).clock_mask) == bits(old(self).clock_mask),
            bits(final(self).out_buffer) == bits(old(self).out_buffer),
            final(self).chip == old(self).chip,
            final(self).router == old(self).router,
    {
        let lo = req.range.start() as usize;
        let hi = req.range.end() as usize;
        bv_copy_into(&mut self.in_buffer, lo, hi, &req.data);
    }

    /// Passes the input bits that are not clocked on to the chip's inputs.
    pub fn switch_buffers_eval(&mut self)
        ensures
            bits(final(self).intermediate) == pass_unclocked(bits(old(self).intermediate), bits(old(self).in_buffer), bits(old(self).clock_mask)),
            bits(final(self).in_buffer) == bits(old(self).in_buffer),
            bits(final(self).clock_mask) == bits(old(self).clock_mask),
            bits(final(self).out_buffer) == bits(old(self).out_buffer),
            final(self).chip == old(self).chip,
            final(self).router == old(self).router,
    {
        let ghost inter0 = bits(self.intermediate);
        let n_in = bv_len(&self.in_buffer);
        let n_mask = bv_len(&self.clock_mask);
        let n = bv_len(&self.intermediate);
        let mut i: usize = 0;
        while i < n
            invariant
                i <= n,
                n == inter0.len(),
                n_in == bits(self.in_buffer).len(),
                n_mask == bits(self.clock_mask).len(),
                bits(self.in_buffer) == bits(old(self).in_buffer),
                bits(self.clock_mask) == bits(old(self).clock_mask),
                bits(self.out_buffer) == bits(old(self).out_buffer),
                self.chip == old(self).chip,
                self.router == old(self).router,
                inter0 == bits(old(self).intermediate),
                bits(self.intermediate).len() == n,
                forall|j: int| 0 <= j < n ==> #[trigger] bits(self.intermediate)[j] == if j < i && j < n_in && j < n_mask {
                    (bits(self.clock_mask)[j] && bits(self.in_buffer)[j]) || (!bits(self.clock_mask)[j] && inter0[j])
                } else {
                    inter0[j]
                },
            decreases n - i,
        {
            if i < n_in && i < n_mask {
                let m = bv_get(&self.clock_mask, i);
                let b = bv_get(&self.in_buffer, i);
                let o = bv_get(&self.intermediate, i);
                bv_set(&mut self.intermediate, i, (m && b) || (!m && o));
            }
            i += 1;
        }
        assert(bits(self.intermediate) =~= Seq::new(inter0.len(), |j: int|
            if j < bits(old(self).in_buffer).len() && j < bits(old(self).clock_mask).len() {
                (bits(old(self).clock_mask)[j] && bits(old(self).in_buffer)[j]) || (!bits(old(self).clock_mask)[j] && inter0[j])
            } else {
                inter0[j]
            }));
    }

    /// Passes all input bits on to the chip's inputs.
    pub fn switch_buffers_clock(&mut self)
        requires
            bits(old(self).intermediate).len() == bits(old(self).in_buffer).len(),
        ensures
            bits(final(self).intermediate) == bits(old(self).in_buffer),
            bits(final(self).in_buffer) == bits(old(self).in_buffer),
            bits(final(self).clock_mask) == bits(old(self).clock_mask),
            bits(final(self).out_buffer) == bits(old(self).out_buffer),
            final(self).chip == old(self).chip,
            final(self).router == old(self).router,
    {
        let n = bv_len(&self.in_buffer);
        if n > 0 {
            bv_copy_into(&mut self.intermediate, 0, n - 1, &self.in_buffer);
            assert(bits(self.intermediate) =~= bits(self.in_buffer));
        } else {
            assert(bits(self.intermediate) =~= bits(self.in_buffer));
        }
    }
}

/// Whether the requests all land.
pub open spec fn requests_land(s: ShapeV, v: Seq<Request>) -> bool {
    forall|i: int| 0 <= i < v.len() ==> lands(s, Hook { id: (#[trigger] v[i]).id, range: v[i].range }, bits(v[i].data).len() as int)
}

/// The requests of a router's routes land where the routes do.
proof fn lemma_requests_land(s: ShapeV, m: Seq<(ChannelRange, Hook)>, v: Seq<Request>, len: int)
    requires
        routes_land(s, m),
        routes_from(m, len),
        v.len() == m.len(),
        forall|i: int| 0 <= i < v.len() ==> (#[trigger] v[i]).id == m[i].1.id && v[i].range == m[i].1.range
            && bits(v[i].data).len() == m[i].0.hi() + 1 - m[i].0.lo(),
    ensures
        requests_land(s, v),
{
    assert forall|i: int| 0 <= i < v.len() implies lands(s, Hook { id: (#[trigger] v[i]).id, range: v[i].range }, bits(v[i].data).len() as int) by {
        assert(lands(s, m[i].1, m[i].0.hi() - m[i].0.lo() + 1));
        assert(Hook { id: v[i].id, range: v[i].range } == m[i].1);
    }
}

impl Barrier {
    /// Evaluates the part: the bits that are not clocked pass on, the chip is evaluated and
    /// its outputs are sent along the part's routes. `None` when the chip did not settle
    /// within `limit` deliveries.
    pub(crate) fn eval(&mut self, limit: usize, Ghost(s): Ghost<ShapeV>) -> (r: Option<Vec<Request>>)
        requires
            part_ok(s, *old(self)),
            well(old(self).chip),
        ensures
            part_ok(s, *final(self)),
            well(final(self).chip),
            bits(final(self).in_buffer) == bits(old(self).in_buffer),
            same_face(old(self).chip, final(self).chip),
            r matches Some(v) ==> requests_land(s, v@),
            (barrier_view(*final(self)), opt_requests(r)) == barrier_step(barrier_view(*old(self)), limit as nat, false),
        decreases limit, 3int,
    {
        self.switch_buffers_eval();
        match self.chip.eval_within(&self.intermediate, limit) {
            Some(out) => {
                self.out_buffer = out;
                let reqs = self.router.gen_requests(&self.out_buffer);
                proof {
                    lemma_requests_land(s, self.router.map@, reqs@, bits(self.out_buffer).len() as int);
                }
                Some(reqs)
            },
            None => None,
        }
    }

    /// A clock tick on the part: when some input bit is clocked, all input bits pass on, the
    /// chip ticks and its outputs are sent along the part's routes; otherwise nothing is
    /// sent. `None` when the chip did not settle within `limit` deliveries.
    pub(crate) fn clock(&mut self, limit: usize, Ghost(s): Ghost<ShapeV>) -> (r: Option<Vec<Request>>)
        requires
            part_ok(s, *old(self)),
            well(old(self).chip),
        ensures
            part_ok(s, *final(self)),
            well(final(self).chip),
            bits(final(self).in_buffer) == bits(old(self).in_buffer),
            same_face(old(self).chip, final(self).chip),
            r matches Some(v) ==> requests_land(s, v@),
            (barrier_view(*final(self)), opt_requests(r)) == barrier_step(barrier_view(*old(self)), limit as nat, true),
        decreases limit, 3int,
    {
        if bv_all(&self.clock_mask) {
            return Some(Vec::new());
        }
        self.switch_buffers_clock();
        match self.chip.clock_within(&self.intermediate, limit) {
            Some(out) => {
                self.out_buffer = out;
                let reqs = self.router.gen_requests(&self.out_buffer);
                proof {
                    lemma_requests_land(s, self.router.map@, reqs@, bits(self.out_buffer).len() as int);
                }
                Some(reqs)
            },
            None => None,
        }
    }
}

/// Where the part `id` is, if there is one.
fn find_part(registry: &Vec<(Id, Barrier)>, id: Id) -> (r: Option<usize>)
    ensures
        r matches Some(k) ==> k < registry@.len() && registry@[k as int].0 == id
            && forall|j: int| 0 <= j < k ==> registry@[j].0 != id,
        r is None ==> forall|k: int| 0 <= k < registry@.len() ==> registry@[k].0 != id,
{
    let mut k: usize = 0;
    while k < registry.len()
        invariant
            k <= registry@.len(),
            forall|j: int| 0 <= j < k ==> registry@[j].0 != id,
        decreases registry@.len() - k,
    {
        if registry[k].0 == id {
            return Some(k);
        }
        k += 1;
    }
    None
}

impl NativeChip {
    /// Delivers requests until none is left: the chip's inputs first, then each part's
    /// outputs as the part is evaluated (or, for a clock tick, ticks). `None` when more than
    /// `limit` deliveries were needed.
    pub fn run(&mut self, args: &Bits, limit: usize, clocked: bool) -> (r: Option<Bits>)
        requires
            well(ChipModel::Native(*old(self))),
            routes_from(old(self).in_router.map@, bits(*args).len() as int),
        ensures
            well(ChipModel::Native(*final(self))),
            final(self).in_router.map@ == old(self).in_router.map@,
            bits(final(self).out_buffer).len() == bits(old(self).out_buffer).len(),
            r matches Some(o) ==> bits(o).len() == bits(old(self).out_buffer).len(),
            (native_view(*final(self)), opt_bits(r)) == native_run(native_view(*old(self)), bits(*args), limit as nat, clocked),
        decreases limit, 1int,
    {
        let ghost s = shape_of(*self);
        let ghost v0 = native_view(*self);
        let ghost reqs0 = requests_for(v0.in_router, bits(*args));
        let first = self.in_router.gen_requests(args);
        proof {
            lemma_requests_land(s, self.in_router.map@, first@, bits(*args).len() as int);
        }
        let mut i: usize = 0;
        while i < first.len()
            invariant
                i <= first@.len(),
                requests_land(s, first@),
                s == shape_of(*self),
                s.out_len == bits(old(self).out_buffer).len(),
                ids_distinct(s),
                routes_land(s, self.in_router.map@),
                self.in_router.map@ == old(self).in_router.map@,
                queue_lands(s, self.request_queue@),
                forall|k: int| 0 <= k < self.registry@.len() ==> part_ok(s, #[trigger] self.registry@[k].1)
                    && well(self.registry@[k].1.chip),
                requests_view(first@) == reqs0,
                v0 == native_view(*old(self)),
                reqs0 == requests_for(v0.in_router, bits(*args)),
                native_view(*self) == (NativeV { queue: v0.queue + reqs0.take(i as int), ..v0 }),
            decreases first@.len() - i,
        {
            let ghost q = self.request_queue@;
            let ghost before = *self;
            self.request_queue.push_back(first[i].clone());
            assert forall|j: int| 0 <= j < self.request_queue@.len() implies lands(s, Hook { id: (#[trigger] self.request_queue@[j]).id, range: self.request_queue@[j].range }, bits(self.request_queue@[j].data).len() as int) by {
                if j < q.len() {
                    assert(self.request_queue@[j] == q[j]);
                } else {
                        assert(self.request_queue@[j].id == first@[i as int].id);
                }
            }
            proof {
                assert(reqs0[i as int] == request_view(first@[i as int]));
                assert(requests_view(self.request_queue@) =~= requests_view(q).push(reqs0[i as int]));
                assert(requests_view(q) == native_view(before).queue);
                assert(reqs0.take(i + 1) =~= reqs0.take(i as int).push(reqs0[i as int]));
                assert(requests_view(self.request_queue@) =~= v0.queue + reqs0.take(i + 1));
            }
            i += 1;
        }
        proof {
            assert(reqs0.take(i as int) =~= reqs0);
        }
        let mut steps: usize = 0;
        while self.request_queue.len() > 0
            invariant
                s == shape_of(*self),
                s.out_len == bits(old(self).out_buffer).len(),
                ids_distinct(s),
                routes_land(s, old(self).in_router.map@),
                self.in_router.map@ == old(self).in_router.map@,
                queue_lands(s, self.request_queue@),
                forall|k: int| 0 <= k < self.registry@.len() ==> part_ok(s, #[trigger] self.registry@[k].1)
                    && well(self.registry@[k].1.chip),
                steps <= limit,
                v0 == native_view(*old(self)),
                deliver(native_view(*self), (limit - steps) as nat, limit as nat, clocked)
                    == native_run(v0, bits(*args), limit as nat, clocked),
            decreases limit - steps,
        {
            let ghost v = native_view(*self);
            let ghost rem = (limit - steps) as nat;
            if steps >= limit {
                return None;
            }
            steps += 1;
            let ghost q = self.request_queue@;
            let req = match self.request_queue.pop_front() {
                Some(x) => x,
                None => return None,
            };
            let ghost rest = NativeV { queue: v.queue.drop_first(), ..v };
            proof {
                assert(request_view(req) == v.queue[0]);
                assert(requests_view(self.request_queue@) =~= v.queue.drop_first());
            }
            assert(lands(s, Hook { id: req.id, range: req.range }, bits(req.data).len() as int));
            if req.id == self.out_chip {
                let lo = req.range.start() as usize;
                let hi = req.range.end() as usize;
                bv_copy_into(&mut self.out_buffer, lo, hi, &req.data);
                assert(shape_of(*self) == s);
                proof {
                    assert(bits(self.out_buffer) =~= write_bits(v.out_buffer, req.range, bits(req.data)));
                    assert(native_view(*self) == (NativeV { out_buffer: write_bits(v.out_buffer, req.range, bits(req.data)), ..rest }));
                }
            } else {
                let k = match find_part(&self.registry, req.id) {
                    Some(k) => k,
                    None => {
                        assert(false);
                        return None;
                    },
                };
                proof {
                    lemma_part_index(v.registry, req.id, k as int);
                }
                let ghost before = self.registry@;
                assert(s.ids[k as int] == req.id);
                let (id, mut b) = self.registry.remove(k);
                proof {
                    assert(before[k as int].1 == b);
                    assert(s.in_lens[k as int] == bits(b.in_buffer).len());
                    assert(barrier_view(b) == v.registry[k as int].1);
                }
                b.accept(&req);
                proof {
                    let b0 = v.registry[k as int].1;
                    assert(barrier_view(b) == (BarrierV { in_buffer: write_bits(b0.in_buffer, req.range, bits(req.data)), ..b0 }));
                }
                let sub = limit - 1;
                let out = if clocked { b.clock(sub, Ghost(s)) } else { b.eval(sub, Ghost(s)) };
                self.registry.insert(k, (id, b));
                proof {
                    assert(self.registry@ =~= before.update(k as int, (id, b)));
                    assert(shape_of(*self).ids =~= s.ids);
                    assert(shape_of(*self).in_lens =~= s.in_lens);
                    assert forall|m: int| 0 <= m < self.registry@.len() implies part_ok(s, #[trigger] self.registry@[m].1)
                        && well(self.registry@[m].1.chip) by {
                        if m != k {
                            assert(self.registry@[m] == before[m]);
                        }
                    }
                    assert(native_view(*self).registry =~= v.registry.update(k as int, (v.registry[k as int].0, barrier_view(b))));
                }
                let ghost after = NativeV { registry: v.registry.update(k as int, (v.registry[k as int].0, barrier_view(b))), ..rest };
                assert(native_view(*self) == after);
                match out {
                    Some(reqs) => {
                        let ghost sent = requests_view(reqs@);
                        let mut j: usize = 0;
                        while j < reqs.len()
                            invariant
                                j <= reqs@.len(),
                                requests_land(s, reqs@),
                                s == shape_of(*self),
                                queue_lands(s, self.request_queue@),
                                self.in_router.map@ == old(self).in_router.map@,
                                forall|k: int| 0 <= k < self.registry@.len() ==> part_ok(s, #[trigger] self.registry@[k].1)
                                    && well(self.registry@[k].1.chip),
                                sent == requests_view(reqs@),
                                native_view(*self) == (NativeV { queue: after.queue + sent.take(j as int), ..after }),
                            decreases reqs@.len() - j,
                        {
                            let ghost q = self.request_queue@;
                            let ghost before_push = *self;
                            self.request_queue.push_back(reqs[j].clone());
                            assert forall|m: int| 0 <= m < self.request_queue@.len() implies lands(s, Hook { id: (#[trigger] self.request_queue@[m]).id, range: self.request_queue@[m].range }, bits(self.request_queue@[m].data).len() as int) by {
                                if m < q.len() {
                                    assert(self.request_queue@[m] == q[m]);
                                } else {
                                    assert(self.request_queue@[m].id == reqs@[j as int].id);
                                }
                            }
                            proof {
                                assert(sent[j as int] == request_view(reqs@[j as int]));
                                assert(requests_view(self.request_queue@) =~= requests_view(q).push(sent[j as int]));
                                assert(requests_view(q) == native_view(before_push).queue);
                                assert(sent.take(j + 1) =~= sent.take(j as int).push(sent[j as int]));
                                assert(requests_view(self.request_queue@) =~= after.queue + sent.take(j + 1));
                            }
                            j += 1;
                        }
                        proof {
                            assert(sent.take(j as int) =~= sent);
                        }
                    },
                    None => return None,
                }
            }
        }
        Some(bv_clone(&self.out_buffer))
    }
}

impl ChipModel {
    /// Evaluates the chip on `args`; `None` when it did not settle within `limit`
    /// deliveries at some level.
    pub fn eval_within(&mut self, args: &Bits, limit: usize) -> (r: Option<Bits>)
        requires
            well(*old(self)),
            reads_within(*old(self), bits(*args).len() as int),
        ensures
            well(*final(self)),
            same_face(*old(self), *final(self)),
            r matches Some(o) ==> bits(o).len() == out_len(*old(self)),
            (chip_view(*final(self)), opt_bits(r)) == chip_step(chip_view(*old(self)), bits(*args), limit as nat, false),
        decreases limit, 2int,
    {
        match self {
            ChipModel::Nand(n) => Some(n.eval(args)),
            ChipModel::Native(n) => {
                if limit == 0 {
                    return None;
                }
                n.run(args, limit, false)
            },
        }
    }

    /// A clock tick of the chip with `args`; `None` when it did not settle within `limit`
    /// deliveries at some level.
    pub fn clock_within(&mut self, args: &Bits, limit: usize) -> (r: Option<Bits>)
        requires
            well(*old(self)),
            reads_within(*old(self), bits(*args).len() as int),
        ensures
            well(*final(self)),
            same_face(*old(self), *final(self)),
            r matches Some(o) ==> bits(o).len() == out_len(*old(self)),
            (chip_view(*final(self)), opt_bits(r)) == chip_step(chip_view(*old(self)), bits(*args), limit as nat, true),
        decreases limit, 2int,
    {
        match self {
            ChipModel::Nand(n) => Some(n.clock(args)),
            ChipModel::Native(n) => {
                if limit == 0 {
                    return None;
                }
                n.run(args, limit, true)
            },
        }
    }

    /// Evaluates the chip on `args` until it settles; `None` only for a chip that keeps
    /// changing (a loop without a clocked part).
    pub fn eval(&mut self, args: &Bits) -> (r: Option<Bits>)
        requires
            well(*old(self)),
            reads_within(*old(self), bits(*args).len() as int),
        ensures
            well(*final(self)),
            same_face(*old(self), *final(self)),
            r matches Some(o) ==> bits(o).len() == out_len(*old(self)),
            (chip_view(*final(self)), opt_bits(r)) == chip_step(chip_view(*old(self)), bits(*args), usize::MAX as nat, false),
    {
        self.eval_within(args, usize::MAX)
    }

    /// A clock tick of the chip with `args`, run until it settles; `None` only for a chip
    /// that keeps changing.
    pub fn clock(&mut self, args: &Bits) -> (r: Option<Bits>)
        requires
            well(*old(self)),
            reads_within(*old(self), bits(*args).len() as int),
        ensures
            well(*final(self)),
            same_face(*old(self), *final(self)),
            r matches Some(o) ==> bits(o).len() == out_len(*old(self)),
            (chip_view(*final(self)), opt_bits(r)) == chip_step(chip_view(*old(self)), bits(*args), usize::MAX as nat, true),
    {
        self.clock_within(args, usize::MAX)
    }
}

/// Whether `width` bits sent to `h` fit where they land in `n`.
fn lands_in(n: &NativeChip, h: Hook, width: usize) -> (b: bool)
    ensures
        b == lands(shape_of(*n), h, width as int),
{
    let ghost s = shape_of(*n);
    let lo = h.range.start() as usize;
    let hi = h.range.end() as usize;
    if hi - lo + 1 != width {
        return false;
    }
    if h.id == n.out_chip {
        return hi < bv_len(&n.out_buffer);
    }
    let mut k: usize = 0;
    while k < n.registry.len()
        invariant
            k <= n.registry@.len(),
            s == shape_of(*n),
            hi == h.range.hi(),
            h.range.hi() - h.range.lo() + 1 == width,
            h.id != s.out_chip,
            s.ids.len() == n.registry@.len(),
            s.in_lens.len() == n.registry@.len(),
            forall|j: int| 0 <= j < k ==> !(s.ids[j] == h.id && h.range.hi() < #[trigger] s.in_lens[j]),
        decreases n.registry@.len() - k,
    {
        assert(s.ids[k as int] == n.registry@[k as int].0);
        assert(s.in_lens[k as int] == bits(n.registry@[k as int].1.in_buffer).len());
        if n.registry[k].0 == h.id && hi < bv_len(&n.registry[k].1.in_buffer) {
            assert(0 <= k < s.ids.len() && s.ids[k as int] == h.id && h.range.hi() < s.in_lens[k as int]);
            return true;
        }
        k += 1;
    }
    false
}

/// Whether every route of `m` lands in `n`.
fn routes_land_in(n: &NativeChip, m: &Vec<(ChannelRange, Hook)>) -> (b: bool)
    ensures
        b == routes_land(shape_of(*n), m@),
{
    let mut i: usize = 0;
    while i < m.len()
        invariant
            i <= m@.len(),
            forall|j: int| 0 <= j < i ==> lands(shape_of(*n), (#[trigger] m@[j]).1, m@[j].0.hi() - m@[j].0.lo() + 1),
        decreases m@.len() - i,
    {
        let width = (m[i].0.end() - m[i].0.start()) as usize + 1;
        if !lands_in(n, m[i].1, width) {
            return false;
        }
        i += 1;
    }
    true
}

/// Whether every route of `m` takes bits below `len`.
fn routes_below(m: &Vec<(ChannelRange, Hook)>, len: usize) -> (b: bool)
    ensures
        b == routes_from(m@, len as int),
{
    let mut i: usize = 0;
    while i < m.len()
        invariant
            i <= m@.len(),
            forall|j: int| 0 <= j < i ==> (#[trigger] m@[j]).0.hi() < len,
        decreases m@.len() - i,
    {
        if m[i].0.end() as usize >= len {
            return false;
        }
        i += 1;
    }
    true
}

/// Whether every queued request of `n` lands.
fn queue_lands_in(n: &NativeChip) -> (b: bool)
    ensures
        b == queue_lands(shape_of(*n), n.request_queue@),
{
    let mut i: usize = 0;
    while i < n.request_queue.len()
        invariant
            i <= n.request_queue@.len(),
            forall|j: int| 0 <= j < i ==> lands(shape_of(*n), Hook { id: (#[trigger] n.request_queue@[j]).id, range: n.request_queue@[j].range },
                bits(n.request_queue@[j].data).len() as int),
        decreases n.request_queue@.len() - i,
    {
        let r = &n.request_queue[i];
        if !lands_in(n, Hook { id: r.id, range: r.range }, bv_len(&r.data)) {
            return false;
        }
        i += 1;
    }
    true
}

/// Whether the part numbers of `n` are distinct and distinct from its output's number.
fn ids_distinct_in(n: &NativeChip) -> (b: bool)
    ensures
        b == ids_distinct(shape_of(*n)),
{
    let ghost s = shape_of(*n);
    let mut i: usize = 0;
    while i < n.registry.len()
        invariant
            i <= n.registry@.len(),
            s == shape_of(*n),
            s.ids.len() == n.registry@.len(),
            s.in_lens.len() == n.registry@.len(),
            forall|a: int, c: int| 0 <= a < c < s.ids.len() && a < i ==> s.ids[a] != s.ids[c],
            forall|a: int| 0 <= a < i ==> s.ids[a] != s.out_chip,
        decreases n.registry@.len() - i,
    {
        assert(s.ids[i as int] == n.registry@[i as int].0);
        if n.registry[i].0 == n.out_chip {
            assert(s.ids[i as int] == s.out_chip);
            return false;
        }
        let mut j: usize = i + 1;
        while j < n.registry.len()
            invariant
                i < j <= n.registry@.len(),
                s == shape_of(*n),
                forall|a: int, c: int| 0 <= a < c < s.ids.len() && a < i ==> s.ids[a] != s.ids[c],
                s.ids.len() == n.registry@.len(),
                s.ids[i as int] == n.registry@[i as int].0,
                forall|c: int| i < c < j ==> s.ids[i as int] != s.ids[c],
            decreases n.registry@.len() - j,
        {
            assert(s.ids[j as int] == n.registry@[j as int].0);
            if n.registry[i].0 == n.registry[j].0 {
                assert(s.ids[i as int] == s.ids[j as int]);
                return false;
            }
            j += 1;
        }
        i += 1;
    }
    true
}

impl ChipModel {
    /// How many bits the chip's evaluation gives.
    fn output_len(&self) -> (n: usize)
        ensures
            n == out_len(*self),
    {
        match self {
            ChipModel::Nand(_) => 1,
            ChipModel::Native(n) => bv_len(&n.out_buffer),
        }
    }

    /// Whether the chip reads only its first `len` input bits.
    fn reads_below(&self, len: usize) -> (b: bool)
        ensures
            b == reads_within(*self, len as int),
    {
        match self {
            ChipModel::Nand(_) => len >= 2,
            ChipModel::Native(n) => routes_below(&n.in_router.map, len),
        }
    }

    /// Whether every route of the chip, down to the gates, takes bits that exist and writes
    /// them where they fit.
    fn is_well(&self) -> (b: bool)
        ensures
            b == well(*self),
        decreases self,
    {
        match self {
            ChipModel::Nand(_) => true,
            ChipModel::Native(n) => n.is_well(),
        }
    }
}

impl NativeChip {
    /// Whether the chip and all its parts, down to the gates, route bits only where they exist
    /// and fit.
    fn is_well(&self) -> (b: bool)
        ensures
            b == well(ChipModel::Native(*self)),
        decreases self,
    {
        let ghost s = shape_of(*self);
        if !ids_distinct_in(self) || !routes_land_in(self, &self.in_router.map) || !queue_lands_in(self) {
            return false;
        }
        let mut k: usize = 0;
        while k < self.registry.len()
            invariant
                k <= self.registry@.len(),
                s == shape_of(*self),
                ids_distinct(s),
                routes_land(s, self.in_router.map@),
                queue_lands(s, self.request_queue@),
                forall|j: int| 0 <= j < k ==> part_ok(s, #[trigger] self.registry@[j].1) && well(self.registry@[j].1.chip),
            decreases self.registry@.len() - k,
        {
            assert(decreases_to!(self => self.registry@[k as int].1.chip));
            let b = &self.registry[k].1;
            let len = bv_len(&b.intermediate);
            let ok = len == bv_len(&b.in_buffer) && b.chip.reads_below(len)
                && routes_below(&b.router.map, b.chip.output_len()) && routes_land_in(self, &b.router.map)
                && b.chip.is_well();
            if !ok {
                assert(!(part_ok(s, self.registry@[k as int].1) && well(self.registry@[k as int].1.chip)));
                return false;
            }
            k += 1;
        }
        true
    }
}

impl ChipModel {
    /// Whether the chip can be evaluated, or clocked, on `n` input bits: what
    /// [`ChipModel::eval`] and [`ChipModel::clock`] require.
    pub fn can_simulate(&self, n: usize) -> (b: bool)
        ensures
            b == (well(*self) && reads_within(*self, n as int)),
    {
        self.is_well() && self.reads_below(n)
    }
}

} // verus!
