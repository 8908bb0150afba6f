//! Frequency tables: one counter per slot, with their running total.
use vstd::prelude::*;

verus! {

/// Sum of the counters.
pub open spec fn sum(s: Seq<u64>) -> int
    decreases s.len(),
{
    if s.len() == 0 {
        0
    } else {
        sum(s.drop_last()) + s.last()
    }
}

/// Sum of the counters at the given slots.
pub open spec fn pick_sum(s: Seq<u64>, slots: Seq<int>) -> int
    decreases slots.len(),
{
    if slots.len() == 0 {
        0
    } else {
        pick_sum(s, slots.drop_last()) + s[slots.last()]
    }
}

pub proof fn lemma_sum_nonneg(s: Seq<u64>)
    ensures
        sum(s) >= 0,
    decreases s.len(),
{
    if s.len() > 0 {
        lemma_sum_nonneg(s.drop_last());
    }
}

/// Changing one counter changes the sum by the difference.
pub proof fn lemma_sum_update(s: Seq<u64>, i: int, v: u64)
    requires
        0 <= i < s.len(),
    ensures
        sum(s.update(i, v)) == sum(s) - s[i] + v,
    decreases s.len(),
{
    let t = s.update(i, v);
    if i == s.len() - 1 {
        assert(t.drop_last() =~= s.drop_last());
    } else {
        assert(t.drop_last() =~= s.drop_last().update(i, v));
        lemma_sum_update(s.drop_last(), i, v);
    }
}

proof fn lemma_pick_sum_agree(s: Seq<u64>, t: Seq<u64>, slots: Seq<int>)
    requires
        forall|j: int| 0 <= j < slots.len() ==> s[#[trigger] slots[j]] == t[slots[j]],
    ensures
        pick_sum(s, slots) == pick_sum(t, slots),
    decreases slots.len(),
{
    if slots.len() > 0 {
        let d = slots.drop_last();
        assert forall|j: int| 0 <= j < d.len() implies s[#[trigger] d[j]] == t[d[j]] by {
            assert(d[j] == slots[j]);
        }
        lemma_pick_sum_agree(s, t, d);
        assert(s[slots[slots.len() - 1]] == t[slots[slots.len() - 1]]);
    }
}

/// Counters at distinct slots add up to no more than the sum of all.
pub proof fn lemma_pick_sum_le_sum(s: Seq<u64>, slots: Seq<int>)
    requires
        forall|j: int| 0 <= j < slots.len() ==> 0 <= #[trigger] slots[j] < s.len(),
        forall|j: int, k: int| 0 <= j < k < slots.len() ==> slots[j] != slots[k],
    ensures
        pick_sum(s, slots) <= sum(s),
    decreases slots.len(),
{
    if slots.len() == 0 {
        lemma_sum_nonneg(s);
    } else {
        let i = slots.last();
        let d = slots.drop_last();
        let t = s.update(i, 0);
        assert(0 <= slots[slots.len() - 1] < s.len());
        lemma_sum_update(s, i, 0);
        assert forall|j: int| 0 <= j < d.len() implies 0 <= #[trigger] d[j] < t.len() by {
            assert(d[j] == slots[j]);
        }
        assert forall|j: int, k: int| 0 <= j < k < d.len() implies d[j] != d[k] by {
            assert(d[j] == slots[j] && d[k] == slots[k]);
        }
        lemma_pick_sum_le_sum(t, d);
        assert forall|j: int| 0 <= j < d.len() implies s[#[trigger] d[j]] == t[d[j]] by {
            assert(d[j] == slots[j]);
            assert(slots[j] != slots[slots.len() - 1]);
        }
        lemma_pick_sum_agree(s, t, d);
    }
}

/// A counter for each slot, with the total of all counters.
pub struct FreqTable {
    counts: Vec<u64>,
    total: u64,
}

impl FreqTable {
    pub closed spec fn counts(&self) -> Seq<u64> {
        self.counts@
    }

    pub closed spec fn total_count(&self) -> nat {
        self.total as nat
    }

    pub closed spec fn wf(&self) -> bool {
        self.total as int == sum(self.counts@)
    }

    pub proof fn lemma_total_is_sum(&self)
        requires
            self.wf(),
        ensures
            self.total_count() == sum(self.counts()),
    {
    }

    proof fn lemma_zeros_sum(n: nat)
        ensures
            sum(Seq::new(n, |i: int| 0u64)) == 0,
        decreases n,
    {
        if n > 0 {
            assert(Seq::new(n, |i: int| 0u64).drop_last() =~= Seq::new((n - 1) as nat, |i: int| 0u64));
            FreqTable::lemma_zeros_sum((n - 1) as nat);
        }
    }

    /// A table of `n` counters, all zero.
    pub fn new(n: usize) -> (r: FreqTable)
        ensures
            r.wf(),
            r.counts() == Seq::new(n as nat, |i: int| 0u64),
            r.total_count() == 0,
    {
        let mut counts: Vec<u64> = Vec::new();
        let mut i: usize = 0;
        while i < n
            invariant
                i <= n,
                counts@ == Seq::new(i as nat, |j: int| 0u64),
            decreases n - i,
        {
            counts.push(0);
            i = i + 1;
            proof {
                assert(counts@ =~= Seq::new(i as nat, |j: int| 0u64));
            }
        }
        proof {
            FreqTable::lemma_zeros_sum(n as nat);
        }
        FreqTable { counts, total: 0 }
    }

    /// The counter at `slot`.
    pub fn get(&self, slot: usize) -> (r: u64)
        requires
            slot < self.counts().len(),
        ensures
            r == self.counts()[slot as int],
    {
        self.counts[slot]
    }

    /// The total of all counters.
    pub fn total(&self) -> (r: u64)
        ensures
            r == self.total_count(),
    {
        self.total
    }

    /// Adds one at `slot`.
    pub fn add_one(&mut self, slot: usize)
        requires
            old(self).wf(),
            slot < old(self).counts().len(),
            old(self).total_count() < u64::MAX,
        ensures
            final(self).wf(),
            final(self).counts() == old(self).counts().update(slot as int, (old(self).counts()[slot as int] + 1) as u64),
            final(self).counts()[slot as int] == old(self).counts()[slot as int] + 1,
            final(self).total_count() == old(self).total_count() + 1,
    {
        proof {
            lemma_sum_update(self.counts@, slot as int, 0);
            lemma_sum_nonneg(self.counts@.update(slot as int, 0));
            lemma_sum_update(self.counts@, slot as int, (self.counts@[slot as int] + 1) as u64);
        }
        let c = self.counts[slot];
        self.counts.set(slot, c + 1);
        self.total = self.total + 1;
    }
}

} // verus!
