//! Small-buffer stacks and bit sets used by the path search, backed by the
//! `smallvec` and `fixedbitset` crates.
use fixedbitset::FixedBitSet;
use smallvec::SmallVec;
use vstd::prelude::*;

use super::{FactorId, PortId};

verus! {

#[verifier::external_type_specification]
#[verifier::external_body]
pub struct ExFixedBitSet(FixedBitSet);

/// The indices whose bit is set in a `FixedBitSet`.
pub uninterp spec fn bitset_members(s: FixedBitSet) -> Set<usize>;

/// The number of bits a `FixedBitSet` holds (its `len()`).
pub uninterp spec fn bitset_len(s: FixedBitSet) -> nat;

/// `FixedBitSet::with_capacity`: a set of `bits` bits, all clear.
#[verifier::external_body]
pub(crate) fn bitset_with_capacity(bits: usize) -> (s: FixedBitSet)
    ensures
        bitset_members(s) == Set::<usize>::empty(),
        bitset_len(s) == bits,
{
    FixedBitSet::with_capacity(bits)
}

/// `FixedBitSet::contains`: whether the bit is set (false past the end).
#[verifier::external_body]
pub(crate) fn bitset_contains(s: &FixedBitSet, bit: usize) -> (b: bool)
    ensures
        b == bitset_members(*s).contains(bit),
{
    s.contains(bit)
}

/// `FixedBitSet::insert`: sets the bit; the crate asserts `bit < len()`.
#[verifier::external_body]
pub(crate) fn bitset_insert(s: &mut FixedBitSet, bit: usize)
    requires
        bit < bitset_len(*old(s)),
    ensures
        bitset_members(*final(s)) == bitset_members(*old(s)).insert(bit),
        bitset_len(*final(s)) == bitset_len(*old(s)),
{
    s.insert(bit)
}

/// `FixedBitSet::set(bit, false)`: clears the bit; the crate asserts `bit < len()`.
#[verifier::external_body]
pub(crate) fn bitset_clear_bit(s: &mut FixedBitSet, bit: usize)
    requires
        bit < bitset_len(*old(s)),
    ensures
        bitset_members(*final(s)) == bitset_members(*old(s)).remove(bit),
        bitset_len(*final(s)) == bitset_len(*old(s)),
{
    s.set(bit, false)
}

/// A stack of ports kept inline for up to 64 entries (`SmallVec<[PortId; 64]>`).
#[verifier::external_body]
pub struct PortStack {
    inner: SmallVec<[PortId; 64]>,
}

/// A stack of factors kept inline for up to 64 entries (`SmallVec<[FactorId; 64]>`).
#[verifier::external_body]
pub struct FactorStack {
    inner: SmallVec<[FactorId; 64]>,
}

/// A short buffer of ports kept inline for up to 8 entries (`SmallVec<[PortId; 8]>`).
#[verifier::external_body]
pub struct NeighborBuf {
    inner: SmallVec<[PortId; 8]>,
}

/// The items of a port stack, bottom first.
pub uninterp spec fn port_stack_items(s: PortStack) -> Seq<PortId>;

/// The items of a factor stack, bottom first.
pub uninterp spec fn factor_stack_items(s: FactorStack) -> Seq<FactorId>;

/// The items of a neighbor buffer, first pushed first.
pub uninterp spec fn neighbor_buf_items(s: NeighborBuf) -> Seq<PortId>;

/// `SmallVec::new` for a port stack.
#[verifier::external_body]
pub(crate) fn port_stack_new() -> (s: PortStack)
    ensures
        port_stack_items(s) == Seq::<PortId>::empty(),
{
    PortStack { inner: SmallVec::new() }
}

/// `SmallVec::push` on a port stack.
#[verifier::external_body]
pub(crate) fn port_stack_push(s: &mut PortStack, p: PortId)
    ensures
        port_stack_items(*final(s)) == port_stack_items(*old(s)).push(p),
{
    s.inner.push(p)
}

/// `SmallVec::pop` on a port stack.
#[verifier::external_body]
pub(crate) fn port_stack_pop(s: &mut PortStack) -> (r: Option<PortId>)
    ensures
        port_stack_items(*old(s)).len() > 0 ==> r == Some(port_stack_items(*old(s)).last())
            && port_stack_items(*final(s)) == port_stack_items(*old(s)).drop_last(),
        port_stack_items(*old(s)).len() == 0 ==> r is None && port_stack_items(*final(s))
            == port_stack_items(*old(s)),
{
    s.inner.pop()
}

/// `SmallVec::len` on a port stack.
#[verifier::external_body]
pub(crate) fn port_stack_len(s: &PortStack) -> (n: usize)
    ensures
        n == port_stack_items(*s).len(),
{
    s.inner.len()
}

/// Copies the items of a port stack into a `Vec` (`<[T]>::to_vec` through the deref).
#[verifier::external_body]
pub(crate) fn port_stack_to_vec(s: &PortStack) -> (v: Vec<PortId>)
    ensures
        v@ == port_stack_items(*s),
{
    s.inner.to_vec()
}

/// `SmallVec::new` for a factor stack.
#[verifier::external_body]
pub(crate) fn factor_stack_new() -> (s: FactorStack)
    ensures
        factor_stack_items(s) == Seq::<FactorId>::empty(),
{
    FactorStack { inner: SmallVec::new() }
}

/// `SmallVec::push` on a factor stack.
#[verifier::external_body]
pub(crate) fn factor_stack_push(s: &mut FactorStack, f: FactorId)
    ensures
        factor_stack_items(*final(s)) == factor_stack_items(*old(s)).push(f),
{
    s.inner.push(f)
}

/// `SmallVec::pop` on a factor stack.
#[verifier::external_body]
pub(crate) fn factor_stack_pop(s: &mut FactorStack) -> (r: Option<FactorId>)
    ensures
        factor_stack_items(*old(s)).len() > 0 ==> r == Some(factor_stack_items(*old(s)).last())
            && factor_stack_items(*final(s)) == factor_stack_items(*old(s)).drop_last(),
        factor_stack_items(*old(s)).len() == 0 ==> r is None && factor_stack_items(*final(s))
            == factor_stack_items(*old(s)),
{
    s.inner.pop()
}

/// Copies the items of a factor stack into a `Vec` (`<[T]>::to_vec` through the deref).
#[verifier::external_body]
pub(crate) fn factor_stack_to_vec(s: &FactorStack) -> (v: Vec<FactorId>)
    ensures
        v@ == factor_stack_items(*s),
{
    s.inner.to_vec()
}

/// `SmallVec::new` for a neighbor buffer.
#[verifier::external_body]
pub(crate) fn neighbor_buf_new() -> (s: NeighborBuf)
    ensures
        neighbor_buf_items(s) == Seq::<PortId>::empty(),
{
    NeighborBuf { inner: SmallVec::new() }
}

/// `SmallVec::push` on a neighbor buffer.
#[verifier::external_body]
pub(crate) fn neighbor_buf_push(s: &mut NeighborBuf, p: PortId)
    ensures
        neighbor_buf_items(*final(s)) == neighbor_buf_items(*old(s)).push(p),
{
    s.inner.push(p)
}

/// `<[T]>::contains` on the items of a neighbor buffer.
#[verifier::external_body]
pub(crate) fn neighbor_buf_contains(s: &NeighborBuf, p: PortId) -> (b: bool)
    ensures
        b == neighbor_buf_items(*s).contains(p),
{
    s.inner.contains(&p)
}

} // verus!
