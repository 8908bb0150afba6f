//! Building the interval index from annotation records.
use vstd::prelude::*;
use vstd::multiset::Multiset;
use crate::index::{IntervalIndex, lemma_query_finds_stored};
use crate::strand::{Strand, GeneStrand, bed_label, gtf_label, bed_strand_label, gtf_strand_label};
use crate::tree::{Hit, overlapping};

verus! {

/// One record of an interval-list (BED) source: 0-based, half-open.
pub struct BedRecord {
    pub chrom: String,
    pub start: u64,
    pub end: u64,
    pub strand: Option<Strand>,
}

/// One record of a gene-model (GTF) source: 1-based, both ends inclusive.
pub struct GtfRecord {
    pub seqname: String,
    pub feature_type: String,
    pub start: u64,
    pub end: u64,
    pub strand: Option<Strand>,
}

/// Why an annotation source could not be indexed.
#[derive(Clone, Copy, Debug, PartialEq, Eq, Structural)]
pub enum LoadError {
    /// The record at this position (counted from 0) has no valid range.
    MalformedRecord(usize),
}

pub open spec fn bed_valid(r: BedRecord) -> bool {
    r.start <= r.end
}

/// A gene-model range `[start, end]` must start at 1 or later and not end
/// before it starts.
pub open spec fn gtf_valid(r: GtfRecord) -> bool {
    1 <= r.start && r.start <= r.end
}

/// A gene-model record is kept when its feature type is the requested one.
pub open spec fn gtf_kept(r: GtfRecord, feature: Seq<char>) -> bool {
    r.feature_type@ == feature
}

/// The index entry a record becomes.
pub open spec fn bed_hit(r: BedRecord) -> Hit {
    (r.start, r.end, bed_label(r.strand))
}

/// The index entry a gene-model record becomes, normalised to 0-based,
/// half-open coordinates.
pub open spec fn gtf_hit(r: GtfRecord) -> Hit {
    ((r.start - 1) as u64, r.end, gtf_label(r.strand))
}

/// The entries that the records put on `chrom`.
pub open spec fn bed_entries(recs: Seq<BedRecord>, chrom: Seq<char>) -> Multiset<Hit>
    decreases recs.len(),
{
    if recs.len() == 0 {
        Multiset::empty()
    } else {
        let rest = bed_entries(recs.drop_last(), chrom);
        if recs.last().chrom@ == chrom {
            rest.insert(bed_hit(recs.last()))
        } else {
            rest
        }
    }
}

/// The entries that the kept gene-model records put on `chrom`.
pub open spec fn gtf_entries(recs: Seq<GtfRecord>, feature: Seq<char>, chrom: Seq<char>) -> Multiset<Hit>
    decreases recs.len(),
{
    if recs.len() == 0 {
        Multiset::empty()
    } else {
        let rest = gtf_entries(recs.drop_last(), feature, chrom);
        if recs.last().seqname@ == chrom && gtf_kept(recs.last(), feature) {
            rest.insert(gtf_hit(recs.last()))
        } else {
            rest
        }
    }
}

proof fn lemma_bed_entries_contains(recs: Seq<BedRecord>, i: int)
    requires
        0 <= i < recs.len(),
    ensures
        bed_entries(recs, recs[i].chrom@).contains(bed_hit(recs[i])),
    decreases recs.len(),
{
    broadcast use vstd::multiset::group_multiset_axioms;
    if i < recs.len() - 1 {
        lemma_bed_entries_contains(recs.drop_last(), i);
        assert(recs.drop_last()[i] == recs[i]);
    }
}

/// Round trip: once the index is built from `recs`, querying the chromosome
/// of any record over exactly that record's (non-empty) range returns the
/// record's interval with its label.
pub proof fn lemma_bed_round_trip(recs: Seq<BedRecord>, i: int, r: Seq<Hit>)
    requires
        0 <= i < recs.len(),
        recs[i].start < recs[i].end,
        r.to_multiset() == overlapping(bed_entries(recs, recs[i].chrom@), recs[i].start, recs[i].end),
    ensures
        r.contains(bed_hit(recs[i])),
        r.contains((recs[i].start, recs[i].end, bed_label(recs[i].strand))),
{
    lemma_bed_entries_contains(recs, i);
    lemma_query_finds_stored(bed_entries(recs, recs[i].chrom@), bed_hit(recs[i]), r);
}

/// Builds the index from interval-list records. Fails on the first record
/// whose end lies before its start.
pub fn load_bed(records: &Vec<BedRecord>) -> (r: Result<IntervalIndex, LoadError>)
    ensures
        r matches Ok(idx) ==> {
            &&& idx.wf()
            &&& forall|i: int| 0 <= i < records.len() ==> bed_valid(#[trigger] records[i])
            &&& forall|c: Seq<char>| #[trigger] idx.entries(c) == bed_entries(records@, c)
        },
        r matches Err(LoadError::MalformedRecord(i)) ==> {
            &&& i < records.len()
            &&& !bed_valid(records[i as int])
            &&& forall|j: int| 0 <= j < i ==> bed_valid(#[trigger] records[j])
        },
{
    let mut idx = IntervalIndex::new();
    let mut i: usize = 0;
    while i < records.len()
        invariant
            i <= records.len(),
            idx.wf(),
            forall|j: int| 0 <= j < i ==> bed_valid(#[trigger] records[j]),
            forall|c: Seq<char>| #[trigger] idx.entries(c) == bed_entries(records@.subrange(0, i as int), c),
        decreases records.len() - i,
    {
        let rec = &records[i];
        if rec.start > rec.end {
            return Err(LoadError::MalformedRecord(i));
        }
        let ghost pre = idx;
        idx.insert(&rec.chrom, rec.start, rec.end, bed_strand_label(rec.strand));
        proof {
            let s = records@.subrange(0, i + 1);
            assert(s.drop_last() =~= records@.subrange(0, i as int));
            assert forall|c: Seq<char>| #[trigger] idx.entries(c) == bed_entries(s, c) by {
                if c != rec.chrom@ {
                    assert(idx.entries(c) == pre.entries(c));
                }
            }
        }
        i = i + 1;
    }
    proof {
        assert(records@.subrange(0, records.len() as int) =~= records@);
    }
    Ok(idx)
}

/// Builds the index from the gene-model records whose feature type is
/// `feature`, turning each range into 0-based, half-open coordinates. Fails on
/// the first kept record whose range is not valid.
pub fn load_gtf(records: &Vec<GtfRecord>, feature: &String) -> (r: Result<IntervalIndex, LoadError>)
    ensures
        r matches Ok(idx) ==> {
            &&& idx.wf()
            &&& forall|i: int| 0 <= i < records.len() && gtf_kept(records[i], feature@)
                ==> gtf_valid(#[trigger] records[i])
            &&& forall|c: Seq<char>| #[trigger] idx.entries(c) == gtf_entries(records@, feature@, c)
        },
        r matches Err(LoadError::MalformedRecord(i)) ==> {
            &&& i < records.len()
            &&& gtf_kept(records[i as int], feature@)
            &&& !gtf_valid(records[i as int])
            &&& forall|j: int| 0 <= j < i && gtf_kept(records[j], feature@) ==> gtf_valid(#[trigger] records[j])
        },
{
    let mut idx = IntervalIndex::new();
    let mut i: usize = 0;
    while i < records.len()
        invariant
            i <= records.len(),
            idx.wf(),
            forall|j: int| 0 <= j < i && gtf_kept(records[j], feature@) ==> gtf_valid(#[trigger] records[j]),
            forall|c: Seq<char>| #[trigger] idx.entries(c) == gtf_entries(records@.subrange(0, i as int), feature@, c),
        decreases records.len() - i,
    {
        let rec = &records[i];
        let ghost pre = idx;
        let s = Ghost(records@.subrange(0, i + 1));
        proof {
            assert(s@.drop_last() =~= records@.subrange(0, i as int));
        }
        if rec.feature_type == *feature {
            if rec.start == 0 || rec.start > rec.end {
                return Err(LoadError::MalformedRecord(i));
            }
            idx.insert(&rec.seqname, rec.start - 1, rec.end, gtf_strand_label(rec.strand));
            proof {
                assert forall|c: Seq<char>| #[trigger] idx.entries(c) == gtf_entries(s@, feature@, c) by {
                    if c != rec.seqname@ {
                        assert(idx.entries(c) == pre.entries(c));
                    }
                }
            }
        } else {
            proof {
                assert forall|c: Seq<char>| #[trigger] idx.entries(c) == gtf_entries(s@, feature@, c) by {
                    assert(idx.entries(c) == pre.entries(c));
                }
            }
        }
        i = i + 1;
    }
    proof {
        assert(records@.subrange(0, records.len() as int) =~= records@);
    }
    Ok(idx)
}

} // verus!
