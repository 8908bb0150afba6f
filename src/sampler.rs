//! The read filter and the strand classifier with its accumulator.
use vstd::prelude::*;
use vstd::multiset::Multiset;
use crate::index::IntervalIndex;
use crate::key::{MateTag, LabelSet, StrandKey, labels_of};
use crate::strand::GeneStrand;
use crate::table::{FreqTable, pick_sum, lemma_pick_sum_le_sum};
use crate::tree::{Hit, overlapping};

verus! {

/// What the classifier reads of one alignment record.
pub struct AlignedRead {
    pub paired: bool,
    pub first_in_template: bool,
    pub last_in_template: bool,
    pub reverse: bool,
    pub qc_failed: bool,
    pub duplicate: bool,
    pub secondary: bool,
    pub unmapped: bool,
    pub mapq: u8,
    /// Name of the reference sequence the read maps to.
    pub chrom: String,
    /// 0-based leftmost mapped position.
    pub start: u64,
    /// Length of the read's sequence.
    pub len: u64,
}

/// The record passes the filter: not QC-failed, not a duplicate, primary,
/// mapped, and with mapping quality at least `min_mapq`.
pub open spec fn eligible(r: AlignedRead, min_mapq: u8) -> bool {
    !r.qc_failed && !r.duplicate && !r.secondary && !r.unmapped && r.mapq >= min_mapq
}

/// Applies the filter, in the order QC, duplicate, secondary, unmapped,
/// mapping quality.
pub fn is_eligible(read: &AlignedRead, min_mapq: u8) -> (r: bool)
    ensures
        r == eligible(*read, min_mapq),
{
    if read.qc_failed {
        return false;
    }
    if read.duplicate {
        return false;
    }
    if read.secondary {
        return false;
    }
    if read.unmapped {
        return false;
    }
    read.mapq >= min_mapq
}

pub open spec fn mate_of(r: AlignedRead) -> MateTag {
    if !r.paired {
        MateTag::Unpaired
    } else if r.first_in_template {
        MateTag::First
    } else if r.last_in_template {
        MateTag::Second
    } else {
        MateTag::Unmarked
    }
}

/// The read's mate tag.
pub fn mate_tag(read: &AlignedRead) -> (r: MateTag)
    ensures
        r == mate_of(*read),
{
    if !read.paired {
        MateTag::Unpaired
    } else if read.first_in_template {
        MateTag::First
    } else if read.last_in_template {
        MateTag::Second
    } else {
        MateTag::Unmarked
    }
}

/// The read's span `[start, start + len)` fits in 64 bits.
pub open spec fn span_fits(r: AlignedRead) -> bool {
    r.start + r.len <= u64::MAX
}

/// The index entries that the read's span meets.
pub open spec fn read_hits(index: IntervalIndex, r: AlignedRead) -> Multiset<Hit> {
    overlapping(index.entries(r.chrom@), r.start, (r.start + r.len) as u64)
}

/// The distinct labels among the entries `m`.
pub open spec fn hit_labels(m: Multiset<Hit>) -> Set<GeneStrand> {
    Set::new(|l: GeneStrand| exists|h: Hit| #[trigger] m.contains(h) && h.2 == l)
}

/// What became of one record.
#[derive(Clone, Copy, Debug, PartialEq, Eq, Structural)]
pub enum Observation {
    /// Rejected by the read filter.
    Filtered,
    /// Its span meets no annotated interval (or its chromosome has none).
    NoOverlap,
    /// Counted under this key.
    Counted(StrandKey),
}

/// What observing `r` does, given the index and the mapping-quality threshold.
pub open spec fn outcome(index: IntervalIndex, r: AlignedRead, min_mapq: u8) -> Observation {
    if !eligible(r, min_mapq) {
        Observation::Filtered
    } else if read_hits(index, r).len() == 0 {
        Observation::NoOverlap
    } else {
        Observation::Counted(
            StrandKey { mate: mate_of(r), reverse: r.reverse, genes: LabelSet::of_set(hit_labels(read_hits(index, r))) },
        )
    }
}

/// Slot of a key in its layout's table: the paired table has three mate tags
/// of 32 slots each, the single-end table 32 slots.
pub open spec fn slot(k: StrandKey) -> nat {
    let mate: nat = match k.mate {
        MateTag::Unpaired => 0,
        MateTag::First => 0,
        MateTag::Second => 32,
        MateTag::Unmarked => 64,
    };
    mate + (if k.reverse { 16nat } else { 0 }) + k.genes.code()
}

pub open spec fn is_paired_key(k: StrandKey) -> bool {
    k.mate != MateTag::Unpaired
}

pub open spec fn table_len(paired: bool) -> nat {
    if paired { 96 } else { 32 }
}

/// Computes `slot`.
pub fn slot_of(k: &StrandKey) -> (r: usize)
    ensures
        r == slot(*k),
        r < table_len(is_paired_key(*k)),
{
    let mate: usize = match k.mate {
        MateTag::Unpaired => 0,
        MateTag::First => 0,
        MateTag::Second => 32,
        MateTag::Unmarked => 64,
    };
    let strand: usize = if k.reverse { 16 } else { 0 };
    mate + strand + k.genes.code_of()
}

proof fn lemma_slot_injective(a: StrandKey, b: StrandKey)
    requires
        is_paired_key(a) == is_paired_key(b),
        slot(a) == slot(b),
    ensures
        a == b,
{
}

/// Running classification state: the paired and single-end frequency
/// tables, the number of usable reads, and the configuration.
pub struct Sampler {
    paired: FreqTable,
    single: FreqTable,
    usable: usize,
    sample_size: usize,
    min_mapq: u8,
}

impl Sampler {
    pub closed spec fn wf(&self) -> bool {
        &&& self.paired.wf()
        &&& self.single.wf()
        &&& self.paired.counts().len() == 96
        &&& self.single.counts().len() == 32
        &&& self.usable == self.paired.total_count() + self.single.total_count()
        &&& self.usable <= self.sample_size
    }

    /// Reads counted so far.
    pub closed spec fn usable_count(&self) -> nat {
        self.usable as nat
    }

    /// The most reads that will be counted.
    pub closed spec fn budget(&self) -> nat {
        self.sample_size as nat
    }

    pub closed spec fn mapq_threshold(&self) -> u8 {
        self.min_mapq
    }

    /// How many reads were counted under `k`.
    pub closed spec fn freq(&self, k: StrandKey) -> nat {
        if is_paired_key(k) {
            self.paired.counts()[slot(k) as int] as nat
        } else {
            self.single.counts()[slot(k) as int] as nat
        }
    }

    /// Total of the paired table (`paired == true`) or the single-end one.
    pub closed spec fn layout_total(&self, paired: bool) -> nat {
        if paired { self.paired.total_count() } else { self.single.total_count() }
    }

    /// A sampler with empty tables that counts at most `sample_size` reads
    /// of mapping quality at least `min_mapq`.
    pub fn new(sample_size: usize, min_mapq: u8) -> (r: Sampler)
        ensures
            r.wf(),
            r.usable_count() == 0,
            r.budget() == sample_size,
            r.mapq_threshold() == min_mapq,
            forall|k: StrandKey| #[trigger] r.freq(k) == 0,
            r.layout_total(true) == 0,
            r.layout_total(false) == 0,
    {
        let r = Sampler {
            paired: FreqTable::new(96),
            single: FreqTable::new(32),
            usable: 0,
            sample_size,
            min_mapq,
        };
        proof {
            assert forall|k: StrandKey| #[trigger] r.freq(k) == 0 by {
                assert(slot(k) < table_len(is_paired_key(k)));
            }
        }
        r
    }

    /// The usable-read counter never exceeds the sampling budget, in any
    /// state the sampler can reach.
    pub proof fn lemma_usable_within_budget(&self)
        requires
            self.wf(),
        ensures
            self.usable_count() <= self.budget(),
            self.usable_count() == self.layout_total(true) + self.layout_total(false),
            self.budget() <= usize::MAX,
    {
    }

    /// Reads counted so far.
    pub fn usable(&self) -> (r: usize)
        ensures
            r == self.usable_count(),
    {
        self.usable
    }

    /// The configured sample size.
    pub fn sample_size(&self) -> (r: usize)
        ensures
            r == self.budget(),
    {
        self.sample_size
    }

    /// Whether the sampling budget leaves room for another usable read.
    pub fn wants_more(&self) -> (r: bool)
        ensures
            r == (self.usable_count() < self.budget()),
    {
        self.usable < self.sample_size
    }

    /// Classifies one record and counts it if it is usable: it passes the
    /// filter and its span meets at least one annotated interval. The key is
    /// made of the mate tag, the mapped strand and the distinct labels of the
    /// intervals met; the table of the read's layout gains one under it.
    pub fn observe(&mut self, index: &IntervalIndex, read: &AlignedRead) -> (o: Observation)
        requires
            old(self).wf(),
            index.wf(),
            old(self).usable_count() < old(self).budget(),
            span_fits(*read),
        ensures
            final(self).wf(),
            final(self).budget() == old(self).budget(),
            final(self).mapq_threshold() == old(self).mapq_threshold(),
            o == outcome(*index, *read, old(self).mapq_threshold()),
            final(self).usable_count() == old(self).usable_count() + (if o is Counted { 1nat } else { 0nat }),
            forall|k: StrandKey|
                #[trigger] final(self).freq(k) == old(self).freq(k) + (if o == Observation::Counted(k) { 1nat } else { 0nat }),
            forall|p: bool|
                #[trigger] final(self).layout_total(p) == old(self).layout_total(p) + (if (o matches Observation::Counted(k) && is_paired_key(k) == p) { 1nat } else { 0nat }),
    {
        broadcast use vstd::seq_lib::group_to_multiset_ensures;
        if !is_eligible(read, self.min_mapq) {
            return Observation::Filtered;
        }
        let end = read.start + read.len;
        let hits = index.query(&read.chrom, read.start, end);
        if hits.len() == 0 {
            return Observation::NoOverlap;
        }
        let genes = LabelSet::of_hits(&hits);
        proof {
            lemma_labels_of_multiset(hits@);
        }
        let key = StrandKey { mate: mate_tag(read), reverse: read.reverse, genes };
        let s = slot_of(&key);
        let ghost pre = *self;
        if is_paired(&key) {
            self.paired.add_one(s);
            assert(self.paired.counts()[s as int] == pre.paired.counts()[s as int] + 1);
        } else {
            self.single.add_one(s);
            assert(self.single.counts()[s as int] == pre.single.counts()[s as int] + 1);
        }
        assert(self.freq(key) == pre.freq(key) + 1);
        self.usable = self.usable + 1;
        proof {
            assert forall|k: StrandKey|
                #[trigger] self.freq(k) == pre.freq(k) + (if Observation::Counted(key) == Observation::Counted(k) { 1nat } else { 0nat }) by {
                assert(slot(k) < table_len(is_paired_key(k)));
                if k == key {
                    assert(self.freq(k) == pre.freq(k) + 1);
                } else if is_paired_key(k) == is_paired_key(key) {
                    if slot(k) == slot(key) {
                        lemma_slot_injective(k, key);
                    }
                    assert(slot(k) != slot(key));
                    if is_paired_key(k) {
                        assert(self.paired.counts()[slot(k) as int] == pre.paired.counts()[slot(k) as int]);
                    } else {
                        assert(self.single.counts()[slot(k) as int] == pre.single.counts()[slot(k) as int]);
                    }
                } else {
                    if is_paired_key(k) {
                        assert(self.paired == pre.paired);
                    } else {
                        assert(self.single == pre.single);
                    }
                }
            }
        }
        Observation::Counted(key)
    }

    proof fn lemma_freq_sum_as_pick(&self, keys: Seq<StrandKey>, paired: bool)
        requires
            forall|j: int| 0 <= j < keys.len() ==> is_paired_key(#[trigger] keys[j]) == paired,
        ensures
            freq_sum(*self, keys) == pick_sum(
                if paired { self.paired.counts() } else { self.single.counts() },
                keys.map_values(|k: StrandKey| slot(k) as int),
            ),
        decreases keys.len(),
    {
        if keys.len() > 0 {
            let d = keys.drop_last();
            assert forall|j: int| 0 <= j < d.len() implies is_paired_key(#[trigger] d[j]) == paired by {
                assert(d[j] == keys[j]);
            }
            self.lemma_freq_sum_as_pick(d, paired);
            assert(keys.map_values(|k: StrandKey| slot(k) as int).drop_last()
                =~= d.map_values(|k: StrandKey| slot(k) as int));
            assert(is_paired_key(keys[keys.len() - 1]) == paired);
        }
    }

    /// Reads counted under distinct keys of one layout add up to no more than
    /// that layout's total.
    pub proof fn lemma_freq_sum_le_total(&self, keys: Seq<StrandKey>, paired: bool)
        requires
            self.wf(),
            forall|j: int| 0 <= j < keys.len() ==> is_paired_key(#[trigger] keys[j]) == paired,
            forall|j: int, k: int| 0 <= j < k < keys.len() ==> keys[j] != keys[k],
        ensures
            freq_sum(*self, keys) <= self.layout_total(paired),
    {
        self.lemma_freq_sum_as_pick(keys, paired);
        let slots = keys.map_values(|k: StrandKey| slot(k) as int);
        let counts = if paired { self.paired.counts() } else { self.single.counts() };
        assert forall|j: int| 0 <= j < slots.len() implies 0 <= #[trigger] slots[j] < counts.len() by {
            assert(is_paired_key(keys[j]) == paired);
            assert(slot(keys[j]) < table_len(is_paired_key(keys[j])));
        }
        assert forall|j: int, k: int| 0 <= j < k < slots.len() implies slots[j] != slots[k] by {
            assert(is_paired_key(keys[j]) == paired && is_paired_key(keys[k]) == paired);
            if slots[j] == slots[k] {
                lemma_slot_injective(keys[j], keys[k]);
            }
        }
        lemma_pick_sum_le_sum(counts, slots);
        self.paired.lemma_total_is_sum();
        self.single.lemma_total_is_sum();
    }

    /// Observes `reads` in order until the budget is reached or the reads run
    /// out; returns how many were examined. Reads after the budget is reached
    /// are not examined.
    pub fn observe_all(&mut self, index: &IntervalIndex, reads: &Vec<AlignedRead>) -> (examined: usize)
        requires
            old(self).wf(),
            index.wf(),
            forall|i: int| 0 <= i < reads.len() ==> span_fits(#[trigger] reads[i]),
        ensures
            final(self).wf(),
            final(self).budget() == old(self).budget(),
            final(self).mapq_threshold() == old(self).mapq_threshold(),
            examined <= reads.len(),
            final(self).usable_count() == old(self).usable_count()
                + usable_in(*index, reads@.subrange(0, examined as int), old(self).mapq_threshold()),
            forall|k: StrandKey| #[trigger] final(self).freq(k) == old(self).freq(k)
                + counted_under(*index, reads@.subrange(0, examined as int), old(self).mapq_threshold(), k),
            examined < reads.len() ==> final(self).usable_count() == final(self).budget(),
            examined > 0 ==> old(self).usable_count()
                + usable_in(*index, reads@.subrange(0, examined - 1), old(self).mapq_threshold()) < old(self).budget(),
    {
        let ghost start = *self;
        let ghost q = self.min_mapq;
        let mut i: usize = 0;
        while i < reads.len()
            invariant
                i <= reads.len(),
                index.wf(),
                self.wf(),
                self.budget() == start.budget(),
                self.mapq_threshold() == q,
                q == start.mapq_threshold(),
                forall|j: int| 0 <= j < reads.len() ==> span_fits(#[trigger] reads[j]),
                self.usable_count() == start.usable_count() + usable_in(*index, reads@.subrange(0, i as int), q),
                forall|k: StrandKey| #[trigger] self.freq(k) == start.freq(k)
                    + counted_under(*index, reads@.subrange(0, i as int), q, k),
                i > 0 ==> start.usable_count() + usable_in(*index, reads@.subrange(0, i - 1), q) < start.budget(),
            ensures
                i < reads.len() ==> self.usable_count() == self.budget(),
            decreases reads.len() - i,
        {
            if !self.wants_more() {
                break;
            }
            let ghost pre = *self;
            let o = self.observe(index, &reads[i]);
            proof {
                let p = reads@.subrange(0, i + 1);
                assert(p.drop_last() =~= reads@.subrange(0, i as int));
                assert(p.last() == reads[i as int]);
                assert forall|k: StrandKey| #[trigger] self.freq(k) == start.freq(k)
                    + counted_under(*index, p, q, k) by {
                    assert(self.freq(k) == pre.freq(k) + (if o == Observation::Counted(k) { 1nat } else { 0nat }));
                }
            }
            i = i + 1;
        }
        i
    }

    /// How many reads were counted under `k`.
    pub fn count(&self, k: &StrandKey) -> (r: u64)
        requires
            self.wf(),
        ensures
            r == self.freq(*k),
    {
        let s = slot_of(k);
        if is_paired(k) {
            self.paired.get(s)
        } else {
            self.single.get(s)
        }
    }

    /// Total of the paired table (`paired == true`) or the single-end one.
    pub fn total(&self, paired: bool) -> (r: u64)
        ensures
            r == self.layout_total(paired),
    {
        if paired {
            self.paired.total()
        } else {
            self.single.total()
        }
    }
}

/// How many of `reads`, observed in order, are counted under `k`.
pub open spec fn counted_under(index: IntervalIndex, reads: Seq<AlignedRead>, min_mapq: u8, k: StrandKey) -> nat
    decreases reads.len(),
{
    if reads.len() == 0 {
        0
    } else {
        counted_under(index, reads.drop_last(), min_mapq, k)
            + (if outcome(index, reads.last(), min_mapq) == Observation::Counted(k) { 1nat } else { 0nat })
    }
}

/// How many of `reads` are usable.
pub open spec fn usable_in(index: IntervalIndex, reads: Seq<AlignedRead>, min_mapq: u8) -> nat
    decreases reads.len(),
{
    if reads.len() == 0 {
        0
    } else {
        usable_in(index, reads.drop_last(), min_mapq)
            + (if outcome(index, reads.last(), min_mapq) is Counted { 1nat } else { 0nat })
    }
}

/// The number of reads counted under the keys `keys`, added up.
pub open spec fn freq_sum(s: Sampler, keys: Seq<StrandKey>) -> nat
    decreases keys.len(),
{
    if keys.len() == 0 {
        0
    } else {
        freq_sum(s, keys.drop_last()) + s.freq(keys.last())
    }
}

pub proof fn lemma_freq_sum_append(s: Sampler, a: Seq<StrandKey>, b: Seq<StrandKey>)
    ensures
        freq_sum(s, a + b) == freq_sum(s, a) + freq_sum(s, b),
    decreases b.len(),
{
    if b.len() == 0 {
        assert(a + b =~= a);
    } else {
        assert((a + b).drop_last() =~= a + b.drop_last());
        lemma_freq_sum_append(s, a, b.drop_last());
    }
}

proof fn lemma_labels_of_multiset(hits: Seq<Hit>)
    ensures
        labels_of(hits) == hit_labels(hits.to_multiset()),
{
    broadcast use vstd::seq_lib::group_to_multiset_ensures;
    assert forall|l: GeneStrand| labels_of(hits).contains(l) implies hit_labels(hits.to_multiset()).contains(l) by {
        let j = choose|j: int| 0 <= j < hits.len() && (#[trigger] hits[j]).2 == l;
        assert(hits.contains(hits[j]));
        assert(hits.to_multiset().contains(hits[j]));
    }
    assert forall|l: GeneStrand| hit_labels(hits.to_multiset()).contains(l) implies labels_of(hits).contains(l) by {
        let h = choose|h: Hit| #[trigger] hits.to_multiset().contains(h) && h.2 == l;
        assert(hits.to_multiset().count(h) > 0);
        assert(hits.contains(h));
        let j = choose|j: int| 0 <= j < hits.len() && hits[j] == h;
        assert(hits[j].2 == l);
    }
    assert(labels_of(hits) =~= hit_labels(hits.to_multiset()));
}

fn is_paired(k: &StrandKey) -> (r: bool)
    ensures
        r == is_paired_key(*k),
{
    match k.mate {
        MateTag::Unpaired => false,
        _ => true,
    }
}

} // verus!
