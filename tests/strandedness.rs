use infer_experiment::annotation::{load_bed, load_gtf, BedRecord, GtfRecord, LoadError};
use infer_experiment::index::IntervalIndex;
use infer_experiment::interval::ranges_intersect;
use infer_experiment::key::{LabelSet, MateTag, StrandKey};
use infer_experiment::params::{is_small_sample, ConfigError, ParsedParas};
use infer_experiment::sampler::{is_eligible, mate_tag, AlignedRead, Observation, Sampler};
use infer_experiment::strand::{bed_strand_label, gtf_strand_label, GeneStrand, Strand};
use infer_experiment::summary::Layout;

fn bed(chrom: &str, start: u64, end: u64, strand: Option<Strand>) -> BedRecord {
    BedRecord { chrom: chrom.to_string(), start, end, strand }
}

fn gtf(chrom: &str, feature: &str, start: u64, end: u64, strand: Option<Strand>) -> GtfRecord {
    GtfRecord { seqname: chrom.to_string(), feature_type: feature.to_string(), start, end, strand }
}

fn read(chrom: &str, start: u64, len: u64) -> AlignedRead {
    AlignedRead {
        paired: false,
        first_in_template: false,
        last_in_template: false,
        reverse: false,
        qc_failed: false,
        duplicate: false,
        secondary: false,
        unmapped: false,
        mapq: 60,
        chrom: chrom.to_string(),
        start,
        len,
    }
}

fn paired_read(chrom: &str, start: u64, len: u64, first: bool, reverse: bool) -> AlignedRead {
    let mut r = read(chrom, start, len);
    r.paired = true;
    r.first_in_template = first;
    r.last_in_template = !first;
    r.reverse = reverse;
    r
}

fn chr1_plus_index() -> IntervalIndex {
    load_bed(&vec![bed("chr1", 100, 200, Some(Strand::Forward))]).unwrap()
}

fn labels(hits: &[(u64, u64, GeneStrand)]) -> Vec<GeneStrand> {
    hits.iter().map(|h| h.2).collect()
}

fn key(mate: MateTag, reverse: bool, gene: GeneStrand) -> StrandKey {
    let genes = LabelSet {
        forward: gene == GeneStrand::Forward,
        reverse: gene == GeneStrand::Reverse,
        unknown: gene == GeneStrand::Unknown,
        missing: gene == GeneStrand::Missing,
    };
    StrandKey { mate, reverse, genes }
}

#[test]
fn intersection_matches_brute_force() {
    for a in 0..6u64 {
        for b in a..7u64 {
            for c in 0..6u64 {
                for d in c..7u64 {
                    let brute = (0..8u64).any(|x| a <= x && x < b && c <= x && x < d);
                    assert_eq!(ranges_intersect(a, b, c, d), brute, "{a} {b} {c} {d}");
                }
            }
        }
    }
}

#[test]
fn intersection_examples() {
    assert!(ranges_intersect(100, 200, 150, 170));
    assert!(!ranges_intersect(100, 200, 200, 300));
    assert!(!ranges_intersect(100, 200, 0, 100));
    assert!(ranges_intersect(100, 200, 199, 300));
}

#[test]
fn query_without_overlap_is_empty() {
    let idx = chr1_plus_index();
    assert!(idx.query(&"chr1".to_string(), 0, 100).is_empty());
    assert!(idx.query(&"chr1".to_string(), 200, 500).is_empty());
    assert!(idx.query(&"chr2".to_string(), 100, 200).is_empty());
    let empty = IntervalIndex::new();
    assert!(empty.query(&"chr1".to_string(), 0, 1000).is_empty());
}

#[test]
fn query_over_inserted_range_returns_label() {
    let mut idx = IntervalIndex::new();
    idx.insert(&"chrX".to_string(), 10, 20, GeneStrand::Reverse);
    idx.insert(&"chrX".to_string(), 15, 40, GeneStrand::Forward);
    idx.insert(&"chrY".to_string(), 10, 20, GeneStrand::Missing);
    let hits = idx.query(&"chrX".to_string(), 10, 20);
    assert!(hits.contains(&(10, 20, GeneStrand::Reverse)));
    assert_eq!(hits.len(), 2);
    assert_eq!(labels(&idx.query(&"chrY".to_string(), 10, 20)), vec![GeneStrand::Missing]);
}

#[test]
fn query_does_not_deduplicate_labels() {
    let mut idx = IntervalIndex::new();
    idx.insert(&"c".to_string(), 0, 10, GeneStrand::Forward);
    idx.insert(&"c".to_string(), 5, 15, GeneStrand::Forward);
    let hits = idx.query(&"c".to_string(), 6, 7);
    assert_eq!(labels(&hits), vec![GeneStrand::Forward, GeneStrand::Forward]);
}

#[test]
fn round_trip_every_source_range() {
    let recs = vec![
        bed("chr1", 0, 50, Some(Strand::Forward)),
        bed("chr1", 40, 90, Some(Strand::Reverse)),
        bed("chr2", 5, 6, None),
        bed("chr3", 1000, 2000, Some(Strand::Unknown)),
        bed("chr1", 40, 90, Some(Strand::Forward)),
    ];
    let idx = load_bed(&recs).unwrap();
    for r in &recs {
        let hits = idx.query(&r.chrom, r.start, r.end);
        assert!(hits.contains(&(r.start, r.end, bed_strand_label(r.strand))));
    }
}

#[test]
fn bed_missing_strand_is_star() {
    assert_eq!(bed_strand_label(None), GeneStrand::Unknown);
    assert_eq!(bed_strand_label(Some(Strand::Unknown)), GeneStrand::Unknown);
    assert_eq!(GeneStrand::Unknown.text(), "*");
    assert_eq!(bed_strand_label(Some(Strand::Reverse)), GeneStrand::Reverse);
}

#[test]
fn gtf_missing_strand_is_empty() {
    assert_eq!(gtf_strand_label(None), GeneStrand::Missing);
    assert_eq!(gtf_strand_label(Some(Strand::Unknown)), GeneStrand::Missing);
    assert_eq!(GeneStrand::Missing.text(), "");
    assert_eq!(gtf_strand_label(Some(Strand::Forward)), GeneStrand::Forward);
}

#[test]
fn bed_malformed_record_is_an_error() {
    let recs = vec![bed("chr1", 0, 10, None), bed("chr1", 30, 20, None), bed("chr1", 50, 40, None)];
    assert_eq!(load_bed(&recs).err(), Some(LoadError::MalformedRecord(1)));
}

#[test]
fn gtf_filters_by_feature_and_creates_chromosomes() {
    let recs = vec![
        gtf("chr7", "exon", 1, 10, Some(Strand::Forward)),
        gtf("chr7", "gene", 101, 200, Some(Strand::Reverse)),
        gtf("chr9", "gene", 1, 5, None),
    ];
    let idx = load_gtf(&recs, &"gene".to_string()).unwrap();
    assert!(idx.query(&"chr7".to_string(), 0, 10).is_empty());
    assert_eq!(idx.query(&"chr7".to_string(), 100, 101), vec![(100, 200, GeneStrand::Reverse)]);
    assert!(idx.query(&"chr7".to_string(), 99, 100).is_empty());
    assert_eq!(idx.query(&"chr9".to_string(), 0, 5), vec![(0, 5, GeneStrand::Missing)]);
    let exons = load_gtf(&recs, &"exon".to_string()).unwrap();
    assert_eq!(exons.query(&"chr7".to_string(), 0, 1000), vec![(0, 10, GeneStrand::Forward)]);
}

#[test]
fn gtf_malformed_kept_record_is_an_error() {
    let recs = vec![
        gtf("chr1", "exon", 0, 10, None),
        gtf("chr1", "gene", 5, 9, None),
        gtf("chr1", "gene", 0, 9, None),
    ];
    assert_eq!(load_gtf(&recs, &"gene".to_string()).err(), Some(LoadError::MalformedRecord(2)));
    let recs = vec![gtf("chr1", "gene", 10, 9, None)];
    assert_eq!(load_gtf(&recs, &"gene".to_string()).err(), Some(LoadError::MalformedRecord(0)));
}

#[test]
fn filter_rejects_each_flag() {
    let base = read("chr1", 150, 20);
    assert!(is_eligible(&base, 30));
    let mut r = read("chr1", 150, 20);
    r.qc_failed = true;
    assert!(!is_eligible(&r, 30));
    let mut r = read("chr1", 150, 20);
    r.duplicate = true;
    assert!(!is_eligible(&r, 30));
    let mut r = read("chr1", 150, 20);
    r.secondary = true;
    assert!(!is_eligible(&r, 30));
    let mut r = read("chr1", 150, 20);
    r.unmapped = true;
    assert!(!is_eligible(&r, 30));
    let mut r = read("chr1", 150, 20);
    r.mapq = 30;
    assert!(is_eligible(&r, 30));
}

#[test]
fn mate_tags() {
    assert_eq!(mate_tag(&read("c", 0, 1)), MateTag::Unpaired);
    assert_eq!(mate_tag(&paired_read("c", 0, 1, true, false)), MateTag::First);
    assert_eq!(mate_tag(&paired_read("c", 0, 1, false, false)), MateTag::Second);
    let mut r = paired_read("c", 0, 1, true, false);
    r.first_in_template = false;
    r.last_in_template = false;
    assert_eq!(mate_tag(&r), MateTag::Unmarked);
}

#[test]
fn key_texts() {
    assert_eq!(key(MateTag::First, false, GeneStrand::Forward).text(), "1++");
    assert_eq!(key(MateTag::Second, true, GeneStrand::Reverse).text(), "2--");
    assert_eq!(key(MateTag::Unpaired, true, GeneStrand::Forward).text(), "-+");
    assert_eq!(key(MateTag::Unmarked, false, GeneStrand::Forward).text(), "0++");
    let all = StrandKey {
        mate: MateTag::First,
        reverse: false,
        genes: LabelSet { forward: true, reverse: true, unknown: true, missing: true },
    };
    assert_eq!(all.text(), "1+:*:+:-");
    let none_and_plus = StrandKey {
        mate: MateTag::Unpaired,
        reverse: false,
        genes: LabelSet { forward: true, reverse: false, unknown: false, missing: true },
    };
    assert_eq!(none_and_plus.text(), "+:+");
}

#[test]
fn key_is_independent_of_overlap_order() {
    let hits1 = vec![(0, 10, GeneStrand::Reverse), (5, 20, GeneStrand::Forward), (7, 9, GeneStrand::Reverse)];
    let hits2 = vec![(7, 9, GeneStrand::Reverse), (0, 10, GeneStrand::Reverse), (5, 20, GeneStrand::Forward)];
    let a = LabelSet::of_hits(&hits1);
    let b = LabelSet::of_hits(&hits2);
    assert_eq!(a, b);
    assert_eq!(a, LabelSet { forward: true, reverse: true, unknown: false, missing: false });
    assert_eq!(a.text(), "+:-");
}

#[test]
fn sample_paired_first_forward() {
    let idx = chr1_plus_index();
    let mut s = Sampler::new(200000, 30);
    let o = s.observe(&idx, &paired_read("chr1", 150, 20, true, false));
    let k = key(MateTag::First, false, GeneStrand::Forward);
    assert_eq!(o, Observation::Counted(k));
    assert_eq!(k.text(), "1++");
    assert_eq!(s.count(&k), 1);
    assert_eq!(s.total(true), 1);
    assert_eq!(s.total(false), 0);
    let sum = s.summarize();
    assert_eq!(sum.layout, Layout::PairedEnd);
    assert_eq!(sum.usable, 1);
    assert_eq!(sum.spec1_parts, vec![1, 0, 0, 0]);
    assert_eq!(sum.spec2_parts, vec![0, 0, 0, 0]);
    assert_eq!(sum.spec1, 1);
    assert_eq!(sum.spec2, 0);
    assert_eq!(sum.undetermined, 0);
    assert_eq!(sum.spec1_parts[0] as f64 / sum.total as f64, 1.0);
    assert_eq!(sum.spec2 as f64 / sum.total as f64, 0.0);
}

#[test]
fn sample_absent_chromosome_is_discarded() {
    let idx = chr1_plus_index();
    let mut s = Sampler::new(10, 30);
    assert_eq!(s.observe(&idx, &read("chr2", 150, 20)), Observation::NoOverlap);
    assert_eq!(s.usable(), 0);
    assert_eq!(s.observe(&idx, &read("chr1", 300, 20)), Observation::NoOverlap);
    assert_eq!(s.usable(), 0);
    assert_eq!(s.summarize().layout, Layout::Unknown);
}

#[test]
fn sample_budget_of_one_stops_scan() {
    let idx = chr1_plus_index();
    let mut s = Sampler::new(1, 30);
    let reads = vec![read("chr1", 150, 20), read("chr1", 160, 20)];
    let examined = s.observe_all(&idx, &reads);
    assert_eq!(examined, 1);
    assert_eq!(s.usable(), 1);
    assert!(!s.wants_more());
}

#[test]
fn budget_counts_only_usable_reads() {
    let idx = chr1_plus_index();
    let mut s = Sampler::new(2, 30);
    let mut low = read("chr1", 150, 20);
    low.mapq = 3;
    let reads = vec![read("chr2", 150, 20), low, read("chr1", 150, 20), read("chr1", 0, 10), read("chr1", 199, 5), read("chr1", 150, 20)];
    assert_eq!(s.observe_all(&idx, &reads), 5);
    assert_eq!(s.usable(), 2);
    assert!(s.usable() <= s.sample_size());
}

#[test]
fn sample_low_mapq_is_filtered() {
    let idx = chr1_plus_index();
    let mut s = Sampler::new(10, 30);
    let mut r = paired_read("chr1", 150, 20, true, false);
    r.mapq = 29;
    assert_eq!(s.observe(&idx, &r), Observation::Filtered);
    assert_eq!(s.usable(), 0);
}

#[test]
fn sample_unpaired_reverse_on_minus_gene() {
    let idx = load_bed(&vec![bed("chr1", 100, 200, Some(Strand::Reverse))]).unwrap();
    let mut s = Sampler::new(10, 30);
    let mut r = read("chr1", 150, 20);
    r.reverse = true;
    let o = s.observe(&idx, &r);
    let k = key(MateTag::Unpaired, true, GeneStrand::Reverse);
    assert_eq!(o, Observation::Counted(k));
    assert_eq!(k.text(), "--");
    let sum = s.summarize();
    assert_eq!(sum.layout, Layout::SingleEnd);
    assert_eq!(sum.spec1, 1);
    assert_eq!(sum.spec1_parts, vec![0, 1]);
    assert_eq!(sum.spec2, 0);
    assert_eq!(sum.undetermined, 0);
}

#[test]
fn summary_mixed_paired_counts() {
    let idx = load_bed(&vec![
        bed("chr1", 100, 200, Some(Strand::Forward)),
        bed("chr1", 300, 400, Some(Strand::Reverse)),
        bed("chr1", 350, 360, Some(Strand::Forward)),
    ])
    .unwrap();
    let mut s = Sampler::new(100, 0);
    let reads = vec![
        paired_read("chr1", 110, 10, true, false),
        paired_read("chr1", 110, 10, false, true),
        paired_read("chr1", 310, 10, false, false),
        paired_read("chr1", 110, 10, false, false),
        paired_read("chr1", 340, 20, true, false),
    ];
    assert_eq!(s.observe_all(&idx, &reads), 5);
    let sum = s.summarize();
    assert_eq!(sum.layout, Layout::PairedEnd);
    assert_eq!(sum.total, 5);
    assert_eq!(sum.spec1_parts, vec![1, 0, 1, 1]);
    assert_eq!(sum.spec2_parts, vec![0, 0, 1, 0]);
    assert_eq!(sum.spec1, 3);
    assert_eq!(sum.spec2, 1);
    assert_eq!(sum.undetermined, 1);
    let mixed = key(MateTag::First, false, GeneStrand::Forward);
    let mixed = StrandKey { genes: LabelSet { reverse: true, ..mixed.genes }, ..mixed };
    assert_eq!(mixed.text(), "1++:-");
    assert_eq!(s.count(&mixed), 1);
}

#[test]
fn summary_unknown_when_both_layouts_seen() {
    let idx = chr1_plus_index();
    let mut s = Sampler::new(100, 0);
    s.observe(&idx, &read("chr1", 150, 20));
    s.observe(&idx, &paired_read("chr1", 150, 20, true, false));
    let sum = s.summarize();
    assert_eq!(sum.layout, Layout::Unknown);
    assert_eq!(sum.usable, 2);
    assert!(sum.spec1_parts.is_empty());
}

#[test]
fn unmarked_mate_counts_but_matches_no_protocol() {
    let idx = chr1_plus_index();
    let mut s = Sampler::new(100, 0);
    let mut r = paired_read("chr1", 150, 20, true, false);
    r.first_in_template = false;
    r.last_in_template = false;
    s.observe(&idx, &r);
    let sum = s.summarize();
    assert_eq!(sum.layout, Layout::PairedEnd);
    assert_eq!(sum.spec1 + sum.spec2, 0);
    assert_eq!(sum.undetermined, 1);
}

#[test]
fn empty_read_span_meets_nothing() {
    let idx = chr1_plus_index();
    let mut s = Sampler::new(10, 0);
    assert_eq!(s.observe(&idx, &read("chr1", 150, 0)), Observation::NoOverlap);
}

#[test]
fn config_defaults_and_conflicts() {
    let p = ParsedParas::resolve("in.bam".to_string(), Some("a.bed".to_string()), None, None, None, None).unwrap();
    assert_eq!(p.feature, "gene");
    assert_eq!(p.sample_size, 200000);
    assert_eq!(p.mapq, 30);
    let p = ParsedParas::resolve(
        "in.bam".to_string(),
        None,
        Some("a.gtf".to_string()),
        Some("exon".to_string()),
        Some(500),
        Some(10),
    )
    .unwrap();
    assert_eq!(p.feature, "exon");
    assert_eq!(p.sample_size, 500);
    assert_eq!(p.mapq, 10);
    assert_eq!(
        ParsedParas::resolve("x".to_string(), Some("a".to_string()), Some("b".to_string()), None, None, None).err(),
        Some(ConfigError::BothSources)
    );
    assert_eq!(ParsedParas::resolve("x".to_string(), None, None, None, None, None).err(), Some(ConfigError::NoSource));
    assert!(is_small_sample(999));
    assert!(!is_small_sample(1000));
}
