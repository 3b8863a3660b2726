//! Trusted view of the compact integer set that backs a stack map.
//!
//! Each (type, offsets) pair of a finished stack map stores its absolute
//! frame offsets in a `cranelift_bitset::CompoundBitSet`: a growable bit
//! set over `usize` elements in which duplicate insertion collapses. This
//! module gives that outside type a mathematical contents function and
//! contracts for the handful of operations the builder and the query
//! surface call.

use vstd::prelude::*;

verus! {

#[verifier::external_type_specification]
#[verifier::external_body]
#[verifier::reject_recursive_types(T)]
pub struct ExCompoundBitSet<T>(cranelift_bitset::CompoundBitSet<T>);

/// The set of elements a `CompoundBitSet` holds.
pub uninterp spec fn bitset_elems(s: cranelift_bitset::CompoundBitSet) -> Set<usize>;

/// Relies on cranelift_bitset::CompoundBitSet::with_capacity: constructs an
/// empty set, with backing storage reserved for elements below `capacity`.
#[verifier::external_body]
pub(crate) fn bitset_with_capacity(capacity: usize) -> (s: cranelift_bitset::CompoundBitSet)
    ensures
        bitset_elems(s) == Set::<usize>::empty(),
{
    cranelift_bitset::CompoundBitSet::with_capacity(capacity)
}

/// Relies on cranelift_bitset::CompoundBitSet::insert: adds `i` to the set
/// and reports whether it was newly inserted. The set itself refuses
/// elements above `u32::MAX`, and growing its storage needs room for
/// `i + 1` elements.
#[verifier::external_body]
pub(crate) fn bitset_insert(s: &mut cranelift_bitset::CompoundBitSet, i: usize) -> (newly: bool)
    requires
        i <= u32::MAX,
        i < usize::MAX,
    ensures
        bitset_elems(*final(s)) == bitset_elems(*old(s)).insert(i),
        newly == !bitset_elems(*old(s)).contains(i),
{
    s.insert(i)
}

/// Relies on cranelift_bitset::CompoundBitSet::contains: membership test.
#[verifier::external_body]
pub(crate) fn bitset_contains(s: &cranelift_bitset::CompoundBitSet, i: usize) -> (r: bool)
    ensures
        r == bitset_elems(*s).contains(i),
{
    s.contains(i)
}

/// Relies on cranelift_bitset::CompoundBitSet::len: the number of elements.
#[verifier::external_body]
pub(crate) fn bitset_len(s: &cranelift_bitset::CompoundBitSet) -> (n: usize)
    ensures
        bitset_elems(*s).finite() ==> n == bitset_elems(*s).len(),
{
    s.len()
}

/// Relies on cranelift_bitset::CompoundBitSet::iter: yields exactly the
/// elements of the set, in sorted order.
#[verifier::external_body]
pub(crate) fn bitset_to_sorted_vec(s: &cranelift_bitset::CompoundBitSet) -> (r: Vec<usize>)
    ensures
        forall|x: usize| r@.contains(x) <==> bitset_elems(*s).contains(x),
        forall|i: int, j: int| 0 <= i < j < r@.len() ==> r@[i] < r@[j],
{
    s.iter().collect()
}

} // verus!
