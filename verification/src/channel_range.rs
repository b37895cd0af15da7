//! Inclusive index ranges of sub-buses.
use vstd::prelude::*;

verus! {

/// The range of a sub-bus of a non-internal bus (i.e., specified as IN or OUT)
///
/// Inclusive on `start` and `end`; `start <= end` always holds.
#[derive(Debug, Eq, PartialEq, Clone, Copy)]
pub struct ChannelRange {
    pub(crate) start: u16,
    pub(crate) end: u16,
}

/// The range from `lo` to `hi`.
pub closed spec fn span(lo: u16, hi: u16) -> ChannelRange {
    ChannelRange { start: lo, end: hi }
}

/// A span has the bounds it was made with.
pub broadcast proof fn lemma_span(lo: u16, hi: u16)
    ensures
        #[trigger] span(lo, hi).lo() == lo,
        span(lo, hi).hi() == hi,
{
}

/// A range is the span of its bounds.
pub broadcast proof fn lemma_range_ext(a: ChannelRange)
    ensures
        #[trigger] span(a.lo(), a.hi()) == a,
{
}

impl ChannelRange {
    #[verifier::type_invariant]
    closed spec fn ordered(self) -> bool {
        self.start <= self.end
    }

    /// The first index of the range.
    pub closed spec fn lo(self) -> u16 {
        self.start
    }

    /// The last index of the range.
    pub closed spec fn hi(self) -> u16 {
        self.end
    }

    /// The number of indices the range covers.
    pub open spec fn width(self) -> int {
        self.hi() - self.lo() + 1
    }

    /// Whether two ranges have the same bounds.
    pub fn same(&self, other: &ChannelRange) -> (b: bool)
        ensures
            b == (*self == *other),
    {
        self.start == other.start && self.end == other.end
    }

    /// Creates a new `ChannelRange` with the specified start and end
    pub fn new(start: u16, end: u16) -> (r: Self)
        requires
            start <= end,
        ensures
            r.lo() == start,
            r.hi() == end,
    {
        Self { start, end }
    }

    /// Returns the width of the sub-bus
    pub fn size(&self) -> (n: usize)
        ensures
            n == self.width(),
            1 <= n <= 0x10000,
            self.lo() <= self.hi(),
    {
        proof {
            use_type_invariant(self);
        }
        (self.end - self.start) as usize + 1
    }

    /// Returns a range from `start` to `end`
    pub fn as_range(&self) -> (r: std::ops::RangeInclusive<usize>)
        ensures
            r@.start == self.lo() as usize,
            r@.end == self.hi() as usize,
            !r@.exhausted,
    {
        std::ops::RangeInclusive::new(self.start as usize, self.end as usize)
    }

    /// Returns the value of `start`
    pub fn start(&self) -> (s: u16)
        ensures
            s == self.lo(),
            self.lo() <= self.hi(),
    {
        proof {
            use_type_invariant(self);
        }
        self.start
    }

    /// Returns the value of `end`
    pub fn end(&self) -> (e: u16)
        ensures
            e == self.hi(),
            self.lo() <= self.hi(),
    {
        proof {
            use_type_invariant(self);
        }
        self.end
    }

    /// Sets the value of `start` to the specified value
    pub fn set_start(&mut self, start: u16)
        requires
            start <= old(self).hi(),
        ensures
            final(self).lo() == start,
            final(self).hi() == old(self).hi(),
    {
        self.start = start;
    }

    /// Sets the value of `end` to the specified value
    pub fn set_end(&mut self, end: u16)
        requires
            old(self).lo() <= end,
        ensures
            final(self).lo() == old(self).lo(),
            final(self).hi() == end,
    {
        self.end = end;
    }

    /// The range with the given bounds, when both fit in 16 bits and are in order.
    pub fn from_bounds(start: usize, end: usize) -> (r: Option<Self>)
        ensures
            r is Some <==> (start <= end && end <= u16::MAX),
            r matches Some(c) ==> c.lo() == start && c.hi() == end,
    {
        if start <= end && end <= 0xffff {
            Some(Self { start: start as u16, end: end as u16 })
        } else {
            None
        }
    }
}

} // verus!
