//! Bit vectors, held in `bitvec`'s `BitVec`.
use vstd::prelude::*;
use bitvec::vec::BitVec;

verus! {

/// A bit vector, held in a `bitvec::vec::BitVec`; [`bits`] names what it holds.
#[verifier::external_body]
pub struct Bits {
    inner: BitVec,
}

/// The bits a bit vector holds, first to last.
pub uninterp spec fn bits(v: Bits) -> Seq<bool>;

impl Clone for Bits {
    fn clone(&self) -> (r: Bits)
        ensures
            bits(r) == bits(*self),
    {
        bv_clone(self)
    }
}

impl Bits {
    /// The bit vector holding `v`.
    pub fn from_bools(v: &[bool]) -> (r: Bits)
        requires
            v@.len() <= 0x10000,
        ensures
            bits(r) == v@,
    {
        bv_from_bools(v)
    }

    /// The bits held, first to last.
    pub fn to_bools(&self) -> (r: Vec<bool>)
        ensures
            r@ == bits(*self),
    {
        bv_to_bools(self)
    }

    /// The number of bits held.
    pub fn len(&self) -> (n: usize)
        ensures
            n == bits(*self).len(),
    {
        bv_len(self)
    }
}

/// `BitVec::repeat`: `len` copies of `bit`.
#[verifier::external_body]
pub(crate) fn bv_repeat(bit: bool, len: usize) -> (r: Bits)
    requires
        len <= 0x10000,
    ensures
        bits(r) == Seq::new(len as nat, |i: int| bit),
{
    Bits { inner: BitVec::repeat(bit, len) }
}

/// `BitVec::len`: the number of bits.
#[verifier::external_body]
pub(crate) fn bv_len(v: &Bits) -> (n: usize)
    ensures
        n == bits(*v).len(),
{
    v.inner.len()
}

/// Indexing a `BitVec`: the bit at `i`.
#[verifier::external_body]
pub(crate) fn bv_get(v: &Bits, i: usize) -> (b: bool)
    requires
        i < bits(*v).len(),
    ensures
        b == bits(*v)[i as int],
{
    v.inner[i]
}

/// `BitSlice::set`: writes `b` at `i`.
#[verifier::external_body]
pub(crate) fn bv_set(v: &mut Bits, i: usize, b: bool)
    requires
        i < bits(*old(v)).len(),
    ensures
        bits(*final(v)) == bits(*old(v)).update(i as int, b),
{
    v.inner.set(i, b)
}

/// `BitSlice::fill` on the bits `lo..=hi`.
#[verifier::external_body]
pub(crate) fn bv_fill(v: &mut Bits, lo: usize, hi: usize, b: bool)
    requires
        lo <= hi < bits(*old(v)).len(),
    ensures
        bits(*final(v)) == Seq::new(bits(*old(v)).len(), |j: int| if lo <= j <= hi { b } else { bits(*old(v))[j] }),
{
    v.inner[lo..=hi].fill(b)
}

/// `BitSlice::copy_from_bitslice` into the bits `lo..=hi`.
#[verifier::external_body]
pub(crate) fn bv_copy_into(v: &mut Bits, lo: usize, hi: usize, src: &Bits)
    requires
        lo <= hi < bits(*old(v)).len(),
        hi - lo + 1 == bits(*src).len(),
    ensures
        bits(*final(v)) == Seq::new(bits(*old(v)).len(), |j: int| if lo <= j <= hi { bits(*src)[j - lo] } else { bits(*old(v))[j] }),
{
    v.inner[lo..=hi].copy_from_bitslice(src.inner.as_bitslice())
}

/// `BitSlice::to_bitvec` of the bits `lo..=hi`.
#[verifier::external_body]
pub(crate) fn bv_slice(v: &Bits, lo: usize, hi: usize) -> (r: Bits)
    requires
        lo <= hi < bits(*v).len(),
    ensures
        bits(r) == bits(*v).subrange(lo as int, hi + 1),
{
    Bits { inner: v.inner[lo..=hi].to_bitvec() }
}

/// `BitVec::clone`.
#[verifier::external_body]
pub(crate) fn bv_clone(v: &Bits) -> (r: Bits)
    ensures
        bits(r) == bits(*v),
{
    Bits { inner: v.inner.clone() }
}

/// `BitSlice::all`: whether every bit is set.
#[verifier::external_body]
pub(crate) fn bv_all(v: &Bits) -> (b: bool)
    ensures
        b == forall|j: int| 0 <= j < bits(*v).len() ==> bits(*v)[j],
{
    v.inner.all()
}

/// Collecting booleans into a `BitVec`.
#[verifier::external_body]
pub(crate) fn bv_from_bools(v: &[bool]) -> (r: Bits)
    requires
        v@.len() <= 0x10000,
    ensures
        bits(r) == v@,
{
    Bits { inner: v.iter().copied().collect() }
}

/// Iterating a `BitVec` into booleans.
#[verifier::external_body]
pub(crate) fn bv_to_bools(v: &Bits) -> (r: Vec<bool>)
    ensures
        r@ == bits(*v),
{
    v.inner.iter().by_vals().collect()
}

} // verus!
