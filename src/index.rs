//! Per-chromosome interval index: one interval tree per chromosome name.
use vstd::prelude::*;
use vstd::multiset::Multiset;
use bio::data_structures::interval_tree::IntervalTree;
use crate::interval::intersects;
use crate::strand::GeneStrand;
use crate::tree::{Hit, tree_entries, overlapping, tree_new, tree_insert, tree_find};

verus! {

/// Maps each chromosome name to the intervals annotated on it.
pub struct IntervalIndex {
    chroms: Vec<String>,
    trees: Vec<IntervalTree<u64, GeneStrand>>,
}

impl IntervalIndex {
    /// One tree per chromosome, names pairwise distinct.
    pub closed spec fn wf(&self) -> bool {
        &&& self.chroms.len() == self.trees.len()
        &&& forall|i: int, j: int|
            0 <= i < j < self.chroms.len() ==> self.chroms[i]@ != self.chroms[j]@
    }

    pub closed spec fn has_chrom(&self, chrom: Seq<char>) -> bool {
        exists|i: int| 0 <= i < self.chroms.len() && #[trigger] self.chroms[i]@ == chrom
    }

    /// The intervals, with their labels, annotated on `chrom`; none for a
    /// chromosome the index has never seen.
    pub closed spec fn entries(&self, chrom: Seq<char>) -> Multiset<Hit> {
        if self.has_chrom(chrom) {
            let i = choose|i: int| 0 <= i < self.chroms.len() && #[trigger] self.chroms[i]@ == chrom;
            tree_entries(self.trees[i])
        } else {
            Multiset::empty()
        }
    }

    proof fn lemma_entries_at(&self, i: int)
        requires
            self.wf(),
            0 <= i < self.chroms.len(),
        ensures
            self.entries(self.chroms[i]@) == tree_entries(self.trees[i]),
    {
        let c = self.chroms[i]@;
        assert(self.has_chrom(c));
        let j = choose|j: int| 0 <= j < self.chroms.len() && #[trigger] self.chroms[j]@ == c;
        assert(j == i);
    }

    /// An index with no chromosome.
    pub fn new() -> (r: IntervalIndex)
        ensures
            r.wf(),
            forall|c: Seq<char>| #[trigger] r.entries(c) == Multiset::<Hit>::empty(),
    {
        IntervalIndex { chroms: Vec::new(), trees: Vec::new() }
    }

    /// Position of `chrom`'s tree, if the index has one.
    fn find_chrom(&self, chrom: &String) -> (r: Option<usize>)
        requires
            self.wf(),
        ensures
            r is None ==> !self.has_chrom(chrom@),
            r matches Some(i) ==> i < self.chroms.len() && self.chroms[i as int]@ == chrom@,
    {
        let mut i: usize = 0;
        while i < self.chroms.len()
            invariant
                i <= self.chroms.len(),
                forall|j: int| 0 <= j < i ==> self.chroms[j]@ != chrom@,
            decreases self.chroms.len() - i,
        {
            if self.chroms[i] == *chrom {
                return Some(i);
            }
            i = i + 1;
        }
        None
    }

    /// Adds `[start, end)` with `label` on `chrom`, creating the chromosome's
    /// tree on first sight.
    pub fn insert(&mut self, chrom: &String, start: u64, end: u64, label: GeneStrand)
        requires
            old(self).wf(),
            start <= end,
        ensures
            final(self).wf(),
            final(self).entries(chrom@) == old(self).entries(chrom@).insert((start, end, label)),
            forall|c: Seq<char>|
                c != chrom@ ==> #[trigger] final(self).entries(c) == old(self).entries(c),
    {
        let ghost pre = *self;
        match self.find_chrom(chrom) {
            Some(i) => {
                proof {
                    pre.lemma_entries_at(i as int);
                }
                let mut t = tree_new();
                std::mem::swap(&mut t, &mut self.trees[i]);
                tree_insert(&mut t, start, end, label);
                self.trees.set(i, t);
                proof {
                    assert(self.wf());
                    self.lemma_entries_at(i as int);
                    assert forall|c: Seq<char>| c != chrom@ implies #[trigger] self.entries(c) == pre.entries(c) by {
                        if pre.has_chrom(c) {
                            let j = choose|j: int| 0 <= j < pre.chroms.len() && #[trigger] pre.chroms[j]@ == c;
                            pre.lemma_entries_at(j);
                            self.lemma_entries_at(j);
                        } else {
                            assert(!self.has_chrom(c));
                        }
                    }
                }
            },
            None => {
                let mut t = tree_new();
                tree_insert(&mut t, start, end, label);
                self.chroms.push(chrom.clone());
                self.trees.push(t);
                proof {
                    let n = pre.chroms.len() as int;
                    assert(self.wf());
                    self.lemma_entries_at(n);
                    assert(Multiset::<Hit>::empty().insert((start, end, label))
                        =~= tree_entries(t));
                    assert forall|c: Seq<char>| c != chrom@ implies #[trigger] self.entries(c) == pre.entries(c) by {
                        if pre.has_chrom(c) {
                            let j = choose|j: int| 0 <= j < pre.chroms.len() && #[trigger] pre.chroms[j]@ == c;
                            pre.lemma_entries_at(j);
                            self.lemma_entries_at(j);
                        } else {
                            assert(!self.has_chrom(c));
                        }
                    }
                }
            },
        }
    }

    /// Every interval on `chrom` that intersects `[start, end)`, with its
    /// label; empty when the chromosome is absent or nothing intersects.
    pub fn query(&self, chrom: &String, start: u64, end: u64) -> (r: Vec<Hit>)
        requires
            self.wf(),
            start <= end,
        ensures
            r@.to_multiset() == overlapping(self.entries(chrom@), start, end),
    {
        match self.find_chrom(chrom) {
            Some(i) => {
                proof {
                    self.lemma_entries_at(i as int);
                }
                tree_find(&self.trees[i], start, end)
            },
            None => {
                let r: Vec<Hit> = Vec::new();
                proof {
                    broadcast use vstd::seq_lib::group_to_multiset_ensures, vstd::multiset::group_multiset_axioms;
                    assert(r@.to_multiset() =~= overlapping(Multiset::empty(), start, end));
                }
                r
            },
        }
    }
}

/// A query whose range meets none of the stored intervals yields nothing
/// (an empty result, not a failure).
pub proof fn lemma_query_without_overlap_is_empty(m: Multiset<Hit>, start: u64, end: u64, r: Seq<Hit>)
    requires
        forall|h: Hit| m.contains(h) ==> !intersects(h.0 as int, h.1 as int, start as int, end as int),
        r.to_multiset() == overlapping(m, start, end),
    ensures
        r.len() == 0,
{
    broadcast use vstd::seq_lib::group_to_multiset_ensures, vstd::multiset::group_multiset_axioms;
    if r.len() > 0 {
        let h = r[0];
        assert(r.contains(h));
        assert(overlapping(m, start, end).count(h) > 0);
        assert(m.contains(h));
        assert(false);
    }
}

/// A stored non-empty interval is found by a query over exactly its range.
pub proof fn lemma_query_finds_stored(m: Multiset<Hit>, h: Hit, r: Seq<Hit>)
    requires
        m.contains(h),
        h.0 < h.1,
        r.to_multiset() == overlapping(m, h.0, h.1),
    ensures
        r.contains(h),
{
    broadcast use vstd::seq_lib::group_to_multiset_ensures, vstd::multiset::group_multiset_axioms;
    assert(overlapping(m, h.0, h.1).count(h) == m.count(h));
}

/// After `[start, end)` is inserted on `chrom` with `label`, a query on
/// `chrom` over exactly `[start, end)` returns that label (for a non-empty
/// range).
pub proof fn lemma_inserted_interval_is_found(
    before: IntervalIndex,
    after: IntervalIndex,
    chrom: Seq<char>,
    start: u64,
    end: u64,
    label: GeneStrand,
    r: Seq<Hit>,
)
    requires
        after.entries(chrom) == before.entries(chrom).insert((start, end, label)),
        start < end,
        r.to_multiset() == overlapping(after.entries(chrom), start, end),
    ensures
        r.contains((start, end, label)),
{
    broadcast use vstd::multiset::group_multiset_axioms;
    lemma_query_finds_stored(after.entries(chrom), (start, end, label), r);
}

} // verus!
