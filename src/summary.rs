//! From the frequency tables to the protocol report, in read counts; a
//! fraction is a count over the layout's total.
use vstd::prelude::*;
use crate::key::{MateTag, LabelSet, StrandKey};
use crate::sampler::{Sampler, freq_sum, is_paired_key, lemma_freq_sum_append};
use crate::strand::GeneStrand;

verus! {

/// The library layout the tables point to.
#[derive(Clone, Copy, Debug, PartialEq, Eq, Structural)]
pub enum Layout {
    PairedEnd,
    SingleEnd,
    /// Both tables empty (no usable read) or both non-empty (mixed input).
    Unknown,
}

/// The report, in counts. For a known layout, `spec1_parts` and `spec2_parts`
/// hold the counts of the protocol keys (`"1++","1--","2+-","2-+"` and
/// `"1+-","1-+","2++","2--"` for paired-end, `"++","--"` and `"+-","-+"`
/// for single-end), `spec1` and `spec2` their sums, `undetermined` the reads
/// explained by neither, and `total` the layout's table total. For an
/// unknown layout all of these are empty or zero.
pub struct Summary {
    pub usable: usize,
    pub layout: Layout,
    pub total: u64,
    pub spec1: u64,
    pub spec1_parts: Vec<u64>,
    pub spec2: u64,
    pub spec2_parts: Vec<u64>,
    pub undetermined: u64,
}

pub open spec fn key_of(mate: MateTag, reverse: bool, gene: GeneStrand) -> StrandKey {
    StrandKey { mate, reverse, genes: LabelSet::single(gene) }
}

/// `"1++"`, `"1--"`, `"2+-"`, `"2-+"`.
pub open spec fn paired_spec1_keys() -> Seq<StrandKey> {
    seq![
        key_of(MateTag::First, false, GeneStrand::Forward),
        key_of(MateTag::First, true, GeneStrand::Reverse),
        key_of(MateTag::Second, false, GeneStrand::Reverse),
        key_of(MateTag::Second, true, GeneStrand::Forward),
    ]
}

/// `"1+-"`, `"1-+"`, `"2++"`, `"2--"`.
pub open spec fn paired_spec2_keys() -> Seq<StrandKey> {
    seq![
        key_of(MateTag::First, false, GeneStrand::Reverse),
        key_of(MateTag::First, true, GeneStrand::Forward),
        key_of(MateTag::Second, false, GeneStrand::Forward),
        key_of(MateTag::Second, true, GeneStrand::Reverse),
    ]
}

/// `"++"`, `"--"`.
pub open spec fn single_spec1_keys() -> Seq<StrandKey> {
    seq![
        key_of(MateTag::Unpaired, false, GeneStrand::Forward),
        key_of(MateTag::Unpaired, true, GeneStrand::Reverse),
    ]
}

/// `"+-"`, `"-+"`.
pub open spec fn single_spec2_keys() -> Seq<StrandKey> {
    seq![
        key_of(MateTag::Unpaired, false, GeneStrand::Reverse),
        key_of(MateTag::Unpaired, true, GeneStrand::Forward),
    ]
}

pub open spec fn layout_of(paired_total: nat, single_total: nat) -> Layout {
    if paired_total > 0 && single_total == 0 {
        Layout::PairedEnd
    } else if single_total > 0 && paired_total == 0 {
        Layout::SingleEnd
    } else {
        Layout::Unknown
    }
}

/// The summary's parts are the counts of `keys`, in order.
pub open spec fn parts_match(s: Sampler, parts: Seq<u64>, keys: Seq<StrandKey>) -> bool {
    &&& parts.len() == keys.len()
    &&& forall|j: int| 0 <= j < keys.len() ==> parts[j] == s.freq(#[trigger] keys[j])
}

fn key_from(mate: MateTag, reverse: bool, gene: GeneStrand) -> (r: StrandKey)
    ensures
        r == key_of(mate, reverse, gene),
{
    let genes = LabelSet {
        forward: gene == GeneStrand::Forward,
        reverse: gene == GeneStrand::Reverse,
        unknown: gene == GeneStrand::Unknown,
        missing: gene == GeneStrand::Missing,
    };
    proof {
        assert(genes == LabelSet::single(gene));
    }
    StrandKey { mate, reverse, genes }
}

/// The counts of `keys`, in order, and their sum.
fn counts_of(s: &Sampler, keys: &Vec<StrandKey>, paired: bool) -> (r: (Vec<u64>, u64))
    requires
        s.wf(),
        forall|j: int| 0 <= j < keys.len() ==> is_paired_key(#[trigger] keys[j]) == paired,
        forall|j: int, k: int| 0 <= j < k < keys.len() ==> keys[j] != keys[k],
    ensures
        parts_match(*s, r.0@, keys@),
        r.1 == freq_sum(*s, keys@),
{
    let mut parts: Vec<u64> = Vec::new();
    let mut acc: u64 = 0;
    let mut i: usize = 0;
    while i < keys.len()
        invariant
            s.wf(),
            i <= keys.len(),
            forall|j: int| 0 <= j < keys.len() ==> is_paired_key(#[trigger] keys[j]) == paired,
            forall|j: int, k: int| 0 <= j < k < keys.len() ==> keys[j] != keys[k],
            parts_match(*s, parts@, keys@.subrange(0, i as int)),
            acc == freq_sum(*s, keys@.subrange(0, i as int)),
        decreases keys.len() - i,
    {
        let c = s.count(&keys[i]);
        proof {
            let p = keys@.subrange(0, i + 1);
            assert(p.drop_last() =~= keys@.subrange(0, i as int));
            assert(p.last() == keys[i as int]);
            assert forall|j: int| 0 <= j < p.len() implies is_paired_key(#[trigger] p[j]) == paired by {
                assert(p[j] == keys[j]);
            }
            assert forall|j: int, k: int| 0 <= j < k < p.len() implies p[j] != p[k] by {
                assert(p[j] == keys[j] && p[k] == keys[k]);
            }
            s.lemma_freq_sum_le_total(p, paired);
            s.lemma_usable_within_budget();
        }
        parts.push(c);
        acc = acc + c;
        i = i + 1;
    }
    proof {
        assert(keys@.subrange(0, keys.len() as int) =~= keys@);
    }
    (parts, acc)
}

/// Counts of the two protocols over one layout's table, with what neither
/// explains. `keys1` and `keys2` together are distinct keys of that layout.
fn protocol_counts(s: &Sampler, keys1: &Vec<StrandKey>, keys2: &Vec<StrandKey>, paired: bool) -> (r: (
    Vec<u64>,
    u64,
    Vec<u64>,
    u64,
    u64,
))
    requires
        s.wf(),
        forall|j: int| 0 <= j < (keys1@ + keys2@).len() ==> is_paired_key(#[trigger] (keys1@ + keys2@)[j]) == paired,
        forall|j: int, k: int| 0 <= j < k < (keys1@ + keys2@).len() ==> (keys1@ + keys2@)[j] != (keys1@ + keys2@)[k],
    ensures
        parts_match(*s, r.0@, keys1@),
        r.1 == freq_sum(*s, keys1@),
        parts_match(*s, r.2@, keys2@),
        r.3 == freq_sum(*s, keys2@),
        r.4 == s.layout_total(paired) - r.1 - r.3,
{
    let ghost all = keys1@ + keys2@;
    proof {
        assert forall|j: int| 0 <= j < keys1.len() implies is_paired_key(#[trigger] keys1[j]) == paired by {
            assert(all[j] == keys1[j]);
        }
        assert forall|j: int, k: int| 0 <= j < k < keys1.len() implies keys1[j] != keys1[k] by {
            assert(all[j] == keys1[j] && all[k] == keys1[k]);
        }
        assert forall|j: int| 0 <= j < keys2.len() implies is_paired_key(#[trigger] keys2[j]) == paired by {
            assert(all[keys1.len() + j] == keys2[j]);
        }
        assert forall|j: int, k: int| 0 <= j < k < keys2.len() implies keys2[j] != keys2[k] by {
            assert(all[keys1.len() + j] == keys2[j] && all[keys1.len() + k] == keys2[k]);
        }
        s.lemma_freq_sum_le_total(all, paired);
        lemma_freq_sum_append(*s, keys1@, keys2@);
    }
    let (parts1, sum1) = counts_of(s, keys1, paired);
    let (parts2, sum2) = counts_of(s, keys2, paired);
    let total = s.total(paired);
    (parts1, sum1, parts2, sum2, total - sum1 - sum2)
}

/// In every reachable state, the reads explained by the two protocols never
/// outnumber the layout's total, so the undetermined share is never negative.
pub proof fn lemma_undetermined_nonnegative(s: Sampler)
    requires
        s.wf(),
    ensures
        freq_sum(s, paired_spec1_keys()) + freq_sum(s, paired_spec2_keys()) <= s.layout_total(true),
        freq_sum(s, single_spec1_keys()) + freq_sum(s, single_spec2_keys()) <= s.layout_total(false),
{
    let p = paired_spec1_keys() + paired_spec2_keys();
    assert forall|j: int| 0 <= j < p.len() implies is_paired_key(#[trigger] p[j]) by {}
    s.lemma_freq_sum_le_total(p, true);
    lemma_freq_sum_append(s, paired_spec1_keys(), paired_spec2_keys());
    let q = single_spec1_keys() + single_spec2_keys();
    assert forall|j: int| 0 <= j < q.len() implies !is_paired_key(#[trigger] q[j]) by {}
    s.lemma_freq_sum_le_total(q, false);
    lemma_freq_sum_append(s, single_spec1_keys(), single_spec2_keys());
}

impl Sampler {
    /// The report over the frequency tables: the layout whose table alone is
    /// non-empty, the counts of each protocol's keys and their sums, and the
    /// reads explained by neither protocol, which is never negative.
    pub fn summarize(&self) -> (r: Summary)
        requires
            self.wf(),
        ensures
            r.usable == self.usable_count(),
            r.layout == layout_of(self.layout_total(true), self.layout_total(false)),
            r.layout == Layout::PairedEnd ==> {
                &&& r.total == self.layout_total(true)
                &&& parts_match(*self, r.spec1_parts@, paired_spec1_keys())
                &&& parts_match(*self, r.spec2_parts@, paired_spec2_keys())
                &&& r.spec1 == freq_sum(*self, paired_spec1_keys())
                &&& r.spec2 == freq_sum(*self, paired_spec2_keys())
            },
            r.layout == Layout::SingleEnd ==> {
                &&& r.total == self.layout_total(false)
                &&& parts_match(*self, r.spec1_parts@, single_spec1_keys())
                &&& parts_match(*self, r.spec2_parts@, single_spec2_keys())
                &&& r.spec1 == freq_sum(*self, single_spec1_keys())
                &&& r.spec2 == freq_sum(*self, single_spec2_keys())
            },
            r.layout == Layout::Unknown ==> {
                &&& r.total == 0
                &&& r.spec1_parts@.len() == 0
                &&& r.spec2_parts@.len() == 0
                &&& r.spec1 == 0
                &&& r.spec2 == 0
            },
            r.undetermined == r.total - r.spec1 - r.spec2,
    {
        let usable = self.usable();
        let paired_total = self.total(true);
        let single_total = self.total(false);
        if paired_total > 0 && single_total == 0 {
            let keys1 = vec![
                key_from(MateTag::First, false, GeneStrand::Forward),
                key_from(MateTag::First, true, GeneStrand::Reverse),
                key_from(MateTag::Second, false, GeneStrand::Reverse),
                key_from(MateTag::Second, true, GeneStrand::Forward),
            ];
            let keys2 = vec![
                key_from(MateTag::First, false, GeneStrand::Reverse),
                key_from(MateTag::First, true, GeneStrand::Forward),
                key_from(MateTag::Second, false, GeneStrand::Forward),
                key_from(MateTag::Second, true, GeneStrand::Reverse),
            ];
            proof {
                assert(keys1@ =~= paired_spec1_keys());
                assert(keys2@ =~= paired_spec2_keys());
            }
            let (spec1_parts, spec1, spec2_parts, spec2, undetermined) = protocol_counts(self, &keys1, &keys2, true);
            Summary { usable, layout: Layout::PairedEnd, total: paired_total, spec1, spec1_parts, spec2, spec2_parts, undetermined }
        } else if single_total > 0 && paired_total == 0 {
            let keys1 = vec![
                key_from(MateTag::Unpaired, false, GeneStrand::Forward),
                key_from(MateTag::Unpaired, true, GeneStrand::Reverse),
            ];
            let keys2 = vec![
                key_from(MateTag::Unpaired, false, GeneStrand::Reverse),
                key_from(MateTag::Unpaired, true, GeneStrand::Forward),
            ];
            proof {
                assert(keys1@ =~= single_spec1_keys());
                assert(keys2@ =~= single_spec2_keys());
            }
            let (spec1_parts, spec1, spec2_parts, spec2, undetermined) = protocol_counts(self, &keys1, &keys2, false);
            Summary { usable, layout: Layout::SingleEnd, total: single_total, spec1, spec1_parts, spec2, spec2_parts, undetermined }
        } else {
            Summary {
                usable,
                layout: Layout::Unknown,
                total: 0,
                spec1: 0,
                spec1_parts: Vec::new(),
                spec2: 0,
                spec2_parts: Vec::new(),
                undetermined: 0,
            }
        }
    }
}

} // verus!
