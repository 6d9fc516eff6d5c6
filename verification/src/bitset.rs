//! Fixed-capacity bit-sets over node ids, the adjacency representation the
//! validator is built on. The sets themselves come from the `fixedbitset`
//! crate; each operation the validator needs is wrapped here with a contract
//! over the set of indices the bits stand for.

use vstd::prelude::*;

verus! {

#[verifier::external_type_specification]
#[verifier::external_body]
pub struct ExFixedBitSet(fixedbitset::FixedBitSet);

/// The set of indices whose bit is one.
pub uninterp spec fn bits_of(s: fixedbitset::FixedBitSet) -> Set<usize>;

/// The number of bits the set was created with; only indices below it can be
/// inserted.
pub uninterp spec fn bit_capacity(s: fixedbitset::FixedBitSet) -> usize;

/// Relies on FixedBitSet::with_capacity: a fresh set of `bits` bits, all
/// clear.
#[verifier::external_body]
pub fn bitset_with_capacity(bits: usize) -> (r: fixedbitset::FixedBitSet)
    ensures
        bits_of(r) == Set::<usize>::empty(),
        bit_capacity(r) == bits,
{
    fixedbitset::FixedBitSet::with_capacity(bits)
}

/// Relies on FixedBitSet::contains: whether the bit at `i` is one; an index
/// at or past the capacity reads as zero.
#[verifier::external_body]
pub fn bitset_contains(s: &fixedbitset::FixedBitSet, i: usize) -> (r: bool)
    ensures
        r == bits_of(*s).contains(i),
{
    s.contains(i)
}

/// Relies on FixedBitSet::insert: sets the bit at `i` to one and changes no
/// other bit. It panics at or past the capacity, so that is required away.
#[verifier::external_body]
pub fn bitset_insert(s: &mut fixedbitset::FixedBitSet, i: usize)
    requires
        i < bit_capacity(*old(s)),
    ensures
        bits_of(*final(s)) == bits_of(*old(s)).insert(i),
        bit_capacity(*final(s)) == bit_capacity(*old(s)),
{
    s.insert(i)
}

/// Relies on FixedBitSet's Clone: the copy has the same bits and the same
/// capacity.
#[verifier::external_body]
pub fn bitset_clone(s: &fixedbitset::FixedBitSet) -> (r: fixedbitset::FixedBitSet)
    ensures
        bits_of(r) == bits_of(*s),
        bit_capacity(r) == bit_capacity(*s),
{
    s.clone()
}

/// Relies on FixedBitSet::ones: the indices of the one bits, in ascending
/// order, each exactly once.
#[verifier::external_body]
pub fn bitset_ones(s: &fixedbitset::FixedBitSet) -> (r: Vec<usize>)
    ensures
        forall|k: int| 0 <= k < r@.len() ==> bits_of(*s).contains(#[trigger] r@[k]),
        forall|b: usize| bits_of(*s).contains(b) ==> r@.contains(b),
        forall|k1: int, k2: int| 0 <= k1 < k2 < r@.len() ==> r@[k1] < r@[k2],
{
    s.ones().collect()
}

} // verus!
