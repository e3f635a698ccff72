//! The trusted interface to `bit_set`'s `BitSet`.
use vstd::prelude::*;
use bit_set::BitSet;

verus! {

#[verifier::external_type_specification]
#[verifier::external_body]
#[verifier::reject_recursive_types(B)]
pub struct ExBitSet<B>(BitSet<B>);

/// The indices held by a `BitSet`.
pub uninterp spec fn bit_set_indices(s: BitSet) -> Set<usize>;

/// `BitSet::with_capacity`: an empty set.
#[verifier::external_body]
pub(crate) fn bit_set_with_capacity(nbits: usize) -> (s: BitSet)
    ensures
        bit_set_indices(s) == Set::<usize>::empty(),
{
    BitSet::with_capacity(nbits)
}

/// `BitSet::default`: an empty set.
#[verifier::external_body]
pub(crate) fn bit_set_default() -> (s: BitSet)
    ensures
        bit_set_indices(s) == Set::<usize>::empty(),
{
    BitSet::default()
}

/// `BitSet::insert`: adds the index (growing the storage as needed); returns whether it
/// was absent.
#[verifier::external_body]
pub(crate) fn bit_set_insert(s: &mut BitSet, value: usize) -> (r: bool)
    requires
        value < usize::MAX,
    ensures
        bit_set_indices(*final(s)) == bit_set_indices(*old(s)).insert(value),
        r == !bit_set_indices(*old(s)).contains(value),
{
    s.insert(value)
}

/// `BitSet::contains`: whether the index is in the set.
#[verifier::external_body]
pub(crate) fn bit_set_contains(s: &BitSet, value: usize) -> (r: bool)
    ensures
        r == bit_set_indices(*s).contains(value),
{
    s.contains(value)
}

/// `BitSet::len`: the number of indices in the set.
#[verifier::external_body]
pub(crate) fn bit_set_len(s: &BitSet) -> (r: usize)
    ensures
        r == bit_set_indices(*s).len(),
{
    s.len()
}

} // verus!
