//! The interval tree of the `bio` crate, as the index uses it.
use vstd::prelude::*;
use vstd::multiset::Multiset;
use bio::data_structures::interval_tree::IntervalTree;
use crate::interval::intersects;
use crate::strand::GeneStrand;

verus! {

#[verifier::external_type_specification]
#[verifier::external_body]
#[verifier::reject_recursive_types(N)]
#[verifier::reject_recursive_types(D)]
pub struct ExIntervalTree<N: Ord + Clone, D>(IntervalTree<N, D>);

/// An interval stored in a tree, with the strand label it carries.
pub type Hit = (u64, u64, GeneStrand);

/// The intervals held by a tree, each with its label.
pub uninterp spec fn tree_entries(t: IntervalTree<u64, GeneStrand>) -> Multiset<Hit>;

/// The entries of `m` whose interval intersects `[start, end)`.
pub open spec fn overlapping(m: Multiset<Hit>, start: u64, end: u64) -> Multiset<Hit> {
    m.filter(|h: Hit| intersects(h.0 as int, h.1 as int, start as int, end as int))
}

/// Relies on `IntervalTree::new`: the new tree holds no interval.
#[verifier::external_body]
pub(crate) fn tree_new() -> (t: IntervalTree<u64, GeneStrand>)
    ensures
        tree_entries(t) == Multiset::<Hit>::empty(),
{
    IntervalTree::new()
}

/// Relies on `IntervalTree::insert`: the interval joins the tree with its
/// label. The range is converted with `Interval::from`, which panics when
/// `end < start`.
#[verifier::external_body]
pub(crate) fn tree_insert(t: &mut IntervalTree<u64, GeneStrand>, start: u64, end: u64, label: GeneStrand)
    requires
        start <= end,
    ensures
        tree_entries(*final(t)) == tree_entries(*old(t)).insert((start, end, label)),
{
    t.insert(start..end, label)
}

/// Relies on `IntervalTree::find`: its iterator yields each stored entry whose
/// interval intersects the query once (the crate's `intersect` test, which is
/// `max(starts) < min(ends)` for well-formed ranges). Each entry is copied
/// out as its start, end and label.
#[verifier::external_body]
pub(crate) fn tree_find(t: &IntervalTree<u64, GeneStrand>, start: u64, end: u64) -> (r: Vec<Hit>)
    requires
        start <= end,
    ensures
        r@.to_multiset() == overlapping(tree_entries(*t), start, end),
{
    t.find(start..end).map(|e| (e.interval().start, e.interval().end, *e.data())).collect()
}

} // verus!
