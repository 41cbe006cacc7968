//! Numbers of which each may be there several times.

use vstd::multiset::Multiset;
use vstd::prelude::*;

verus! {

/// `multiset::HashMultiSet`, a multiset that hashes its items.
#[verifier::external_type_specification]
#[verifier::external_body]
#[verifier::reject_recursive_types(K)]
pub struct ExHashMultiSet<K>(multiset::HashMultiSet<K>);

/// The items of a `multiset::HashMultiSet`.
pub uninterp spec fn items(set: multiset::HashMultiSet<u64>) -> Multiset<u64>;

/// `multiset::HashMultiSet::new`: a multiset without items.
#[verifier::external_body]
pub(crate) fn empty() -> (r: multiset::HashMultiSet<u64>)
    ensures
        items(r) == Multiset::<u64>::empty(),
{
    multiset::HashMultiSet::new()
}

/// `multiset::HashMultiSet::insert`: puts `item` in once more.
#[verifier::external_body]
pub(crate) fn insert(set: &mut multiset::HashMultiSet<u64>, item: u64)
    ensures
        items(*final(set)) == items(*old(set)).insert(item),
{
    set.insert(item)
}

/// `multiset::HashMultiSet::len`: how many items there are, each counted as often
/// as it is there.
#[verifier::external_body]
pub(crate) fn len(set: &multiset::HashMultiSet<u64>) -> (r: usize)
    ensures
        r == items(*set).len(),
{
    set.len()
}

/// `multiset::HashMultiSet::iter`: all items in some order, each as often as it
/// is there.
#[verifier::external_body]
pub(crate) fn list(set: &multiset::HashMultiSet<u64>) -> (r: Vec<u64>)
    ensures
        r@.to_multiset() == items(*set),
{
    set.iter().cloned().collect()
}

} // verus!
