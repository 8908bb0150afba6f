use vstd::prelude::*;

verus! {

/// The strand of an annotation record, as the annotation reader reports it.
#[derive(Clone, Copy, Debug, PartialEq, Eq, Structural)]
pub enum Strand {
    Forward,
    Reverse,
    Unknown,
}

/// The strand label that an annotated interval carries in the index.
///
/// Interval-list sources render a missing strand as `"*"` (`Unknown`),
/// gene-model sources as the empty string (`Missing`); the two stay distinct
/// because they lead to different strand-relationship keys.
#[derive(Clone, Copy, Debug, PartialEq, Eq, Structural)]
pub enum GeneStrand {
    Forward,
    Reverse,
    Unknown,
    Missing,
}

/// The text of a label: `"+"`, `"-"`, `"*"` or `""`.
pub open spec fn label_text(l: GeneStrand) -> Seq<char> {
    match l {
        GeneStrand::Forward => seq!['+'],
        GeneStrand::Reverse => seq!['-'],
        GeneStrand::Unknown => seq!['*'],
        GeneStrand::Missing => Seq::<char>::empty(),
    }
}

/// Label of an interval-list record: a missing or unknown strand is `"*"`.
pub open spec fn bed_label(s: Option<Strand>) -> GeneStrand {
    match s {
        Some(Strand::Forward) => GeneStrand::Forward,
        Some(Strand::Reverse) => GeneStrand::Reverse,
        _ => GeneStrand::Unknown,
    }
}

/// Label of a gene-model record: a missing or unknown strand is `""`.
pub open spec fn gtf_label(s: Option<Strand>) -> GeneStrand {
    match s {
        Some(Strand::Forward) => GeneStrand::Forward,
        Some(Strand::Reverse) => GeneStrand::Reverse,
        _ => GeneStrand::Missing,
    }
}

/// The label an interval-list record's strand becomes.
pub fn bed_strand_label(s: Option<Strand>) -> (r: GeneStrand)
    ensures
        r == bed_label(s),
{
    match s {
        Some(Strand::Forward) => GeneStrand::Forward,
        Some(Strand::Reverse) => GeneStrand::Reverse,
        _ => GeneStrand::Unknown,
    }
}

/// The label a gene-model record's strand becomes.
pub fn gtf_strand_label(s: Option<Strand>) -> (r: GeneStrand)
    ensures
        r == gtf_label(s),
{
    match s {
        Some(Strand::Forward) => GeneStrand::Forward,
        Some(Strand::Reverse) => GeneStrand::Reverse,
        _ => GeneStrand::Missing,
    }
}

impl GeneStrand {
    /// The label's text.
    pub fn text(&self) -> (r: String)
        ensures
            r@ == label_text(*self),
    {
        let r = match self {
            GeneStrand::Forward => String::from_str("+"),
            GeneStrand::Reverse => String::from_str("-"),
            GeneStrand::Unknown => String::from_str("*"),
            GeneStrand::Missing => String::new(),
        };
        proof {
            reveal_strlit("+");
            reveal_strlit("-");
            reveal_strlit("*");
        }
        r
    }
}

} // verus!
