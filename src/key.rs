//! Strand-relationship keys: mate order, mapped strand and the set of strand
//! labels of the genes a read overlaps.
use vstd::prelude::*;
use crate::strand::{GeneStrand, label_text};
use crate::tree::Hit;

verus! {

/// Which member of a pair a read is, if any.
#[derive(Clone, Copy, Debug, PartialEq, Eq, Structural)]
pub enum MateTag {
    /// A read of a single-end library.
    Unpaired,
    /// First in template.
    First,
    /// Last in template.
    Second,
    /// Paired, but marked neither first nor last; its keys match no protocol.
    Unmarked,
}

/// A set of gene strand labels, one flag per label.
#[derive(Clone, Copy, Debug, PartialEq, Eq, Structural)]
pub struct LabelSet {
    pub forward: bool,
    pub reverse: bool,
    pub unknown: bool,
    pub missing: bool,
}

/// The key a usable read is counted under.
#[derive(Clone, Copy, Debug, PartialEq, Eq, Structural)]
pub struct StrandKey {
    pub mate: MateTag,
    /// The read maps to the reverse strand.
    pub reverse: bool,
    pub genes: LabelSet,
}

impl LabelSet {
    /// The flags of a set of labels.
    pub open spec fn of_set(s: Set<GeneStrand>) -> LabelSet {
        LabelSet {
            forward: s.contains(GeneStrand::Forward),
            reverse: s.contains(GeneStrand::Reverse),
            unknown: s.contains(GeneStrand::Unknown),
            missing: s.contains(GeneStrand::Missing),
        }
    }

    /// The set holding just `l`.
    pub open spec fn single(l: GeneStrand) -> LabelSet {
        LabelSet::of_set(Set::empty().insert(l))
    }

    /// Position of the set among the sixteen subsets of labels.
    pub open spec fn code(self) -> nat {
        (if self.forward { 1nat } else { 0 }) + (if self.reverse { 2nat } else { 0 })
            + (if self.unknown { 4nat } else { 0 }) + (if self.missing { 8nat } else { 0 })
    }

    /// Computes `code`.
    pub fn code_of(&self) -> (r: usize)
        ensures
            r == self.code(),
            r < 16,
    {
        let mut r: usize = 0;
        if self.forward {
            r = r + 1;
        }
        if self.reverse {
            r = r + 2;
        }
        if self.unknown {
            r = r + 4;
        }
        if self.missing {
            r = r + 8;
        }
        r
    }

    /// The labels carried by `hits`, each once, whatever their order.
    pub fn of_hits(hits: &Vec<Hit>) -> (r: LabelSet)
        ensures
            r == LabelSet::of_set(labels_of(hits@)),
    {
        let mut r = LabelSet { forward: false, reverse: false, unknown: false, missing: false };
        let mut i: usize = 0;
        while i < hits.len()
            invariant
                i <= hits.len(),
                r == LabelSet::of_set(labels_of(hits@.subrange(0, i as int))),
            decreases hits.len() - i,
        {
            let l = hits[i].2;
            match l {
                GeneStrand::Forward => r.forward = true,
                GeneStrand::Reverse => r.reverse = true,
                GeneStrand::Unknown => r.unknown = true,
                GeneStrand::Missing => r.missing = true,
            }
            proof {
                let s = hits@.subrange(0, i + 1);
                let t = hits@.subrange(0, i as int);
                assert(labels_of(s) =~= labels_of(t).insert(l)) by {
                    assert forall|x: GeneStrand| labels_of(s).contains(x) implies labels_of(t).contains(x) || x == l by {
                        let j = choose|j: int| 0 <= j < s.len() && (#[trigger] s[j]).2 == x;
                        if j < i {
                            assert(t[j] == s[j]);
                        }
                    }
                    assert forall|x: GeneStrand| labels_of(t).contains(x) implies labels_of(s).contains(x) by {
                        let j = choose|j: int| 0 <= j < t.len() && (#[trigger] t[j]).2 == x;
                        assert(s[j] == t[j]);
                    }
                    assert(s[i as int].2 == l);
                }
            }
            i = i + 1;
        }
        proof {
            assert(hits@.subrange(0, hits.len() as int) =~= hits@);
        }
        r
    }

    /// The labels' texts in canonical (lexicographic) order: `""`, `"*"`,
    /// `"+"`, `"-"`, each joined to the next by `":"`.
    pub fn text(&self) -> (r: String)
        ensures
            r@ == genes_text(*self),
    {
        let mut out = String::new();
        let mut first = true;
        let ghost mut parts: Seq<Seq<char>> = Seq::empty();
        if self.missing {
            append_part(&mut out, first, "");
            proof {
                reveal_strlit("");
                lemma_join_push(parts, label_text(GeneStrand::Missing));
                parts = parts.push(label_text(GeneStrand::Missing));
                assert(out@ =~= join_colon(parts));
            }
            first = false;
        }
        if self.unknown {
            append_part(&mut out, first, "*");
            proof {
                reveal_strlit("*");
                lemma_join_push(parts, label_text(GeneStrand::Unknown));
                parts = parts.push(label_text(GeneStrand::Unknown));
                assert(out@ =~= join_colon(parts));
            }
            first = false;
        }
        if self.forward {
            append_part(&mut out, first, "+");
            proof {
                reveal_strlit("+");
                lemma_join_push(parts, label_text(GeneStrand::Forward));
                parts = parts.push(label_text(GeneStrand::Forward));
                assert(out@ =~= join_colon(parts));
            }
            first = false;
        }
        if self.reverse {
            append_part(&mut out, first, "-");
            proof {
                reveal_strlit("-");
                lemma_join_push(parts, label_text(GeneStrand::Reverse));
                parts = parts.push(label_text(GeneStrand::Reverse));
                assert(out@ =~= join_colon(parts));
            }
            first = false;
        }
        proof {
            assert(parts =~= present_parts(*self));
        }
        out
    }
}

/// The distinct labels among `hits`.
pub open spec fn labels_of(hits: Seq<Hit>) -> Set<GeneStrand> {
    Set::new(|l: GeneStrand| exists|j: int| 0 <= j < hits.len() && (#[trigger] hits[j]).2 == l)
}

/// The texts of the labels present, in canonical order.
pub open spec fn present_parts(g: LabelSet) -> Seq<Seq<char>> {
    let p0: Seq<Seq<char>> = if g.missing { seq![label_text(GeneStrand::Missing)] } else { Seq::empty() };
    let p1 = if g.unknown { p0.push(label_text(GeneStrand::Unknown)) } else { p0 };
    let p2 = if g.forward { p1.push(label_text(GeneStrand::Forward)) } else { p1 };
    if g.reverse { p2.push(label_text(GeneStrand::Reverse)) } else { p2 }
}

/// Joins texts with `":"` between neighbours.
pub open spec fn join_colon(parts: Seq<Seq<char>>) -> Seq<char>
    decreases parts.len(),
{
    if parts.len() == 0 {
        Seq::empty()
    } else if parts.len() == 1 {
        parts[0]
    } else {
        join_colon(parts.drop_last()) + seq![':'] + parts.last()
    }
}

pub open spec fn genes_text(g: LabelSet) -> Seq<char> {
    join_colon(present_parts(g))
}

pub open spec fn mate_text(m: MateTag) -> Seq<char> {
    match m {
        MateTag::Unpaired => Seq::empty(),
        MateTag::First => seq!['1'],
        MateTag::Second => seq!['2'],
        MateTag::Unmarked => seq!['0'],
    }
}

pub open spec fn mapped_text(reverse: bool) -> Seq<char> {
    if reverse { seq!['-'] } else { seq!['+'] }
}

/// The key's text: mate tag, mapped strand, then the joined gene labels.
pub open spec fn key_text(k: StrandKey) -> Seq<char> {
    mate_text(k.mate) + mapped_text(k.reverse) + genes_text(k.genes)
}

/// The key of a read with mate tag `mate` and mapped strand `reverse` whose
/// span meets the entries `hits`.
pub open spec fn strand_key(mate: MateTag, reverse: bool, hits: Seq<Hit>) -> StrandKey {
    StrandKey { mate, reverse, genes: LabelSet::of_set(labels_of(hits)) }
}

impl StrandKey {
    /// The key's text, such as `"1++"` or `"-+:-"`.
    pub fn text(&self) -> (r: String)
        ensures
            r@ == key_text(*self),
    {
        let mut out = match self.mate {
            MateTag::Unpaired => String::new(),
            MateTag::First => String::from_str("1"),
            MateTag::Second => String::from_str("2"),
            MateTag::Unmarked => String::from_str("0"),
        };
        proof {
            reveal_strlit("1");
            reveal_strlit("2");
            reveal_strlit("0");
        }
        if self.reverse {
            out.append("-");
        } else {
            out.append("+");
        }
        proof {
            reveal_strlit("-");
            reveal_strlit("+");
        }
        let genes = self.genes.text();
        out.append(genes.as_str());
        out
    }
}

/// The key does not depend on the order in which the overlapping entries
/// are reported: any two listings of the same entries give the same key.
pub proof fn lemma_key_order_independent(mate: MateTag, reverse: bool, h1: Seq<Hit>, h2: Seq<Hit>)
    requires
        h1.to_multiset() == h2.to_multiset(),
    ensures
        strand_key(mate, reverse, h1) == strand_key(mate, reverse, h2),
{
    lemma_same_labels(h1, h2);
    lemma_same_labels(h2, h1);
    assert(labels_of(h1) =~= labels_of(h2));
}

proof fn lemma_same_labels(h1: Seq<Hit>, h2: Seq<Hit>)
    requires
        h1.to_multiset() == h2.to_multiset(),
    ensures
        forall|l: GeneStrand| labels_of(h1).contains(l) ==> labels_of(h2).contains(l),
{
    broadcast use vstd::seq_lib::group_to_multiset_ensures;
    assert forall|l: GeneStrand| labels_of(h1).contains(l) implies labels_of(h2).contains(l) by {
        let j = choose|j: int| 0 <= j < h1.len() && (#[trigger] h1[j]).2 == l;
        assert(h1.contains(h1[j]));
        assert(h1.to_multiset().count(h1[j]) > 0);
        assert(h2.to_multiset().count(h1[j]) > 0);
        assert(h2.contains(h1[j]));
        let k = choose|k: int| 0 <= k < h2.len() && h2[k] == h1[j];
        assert(h2[k].2 == l);
    }
}

proof fn lemma_join_push(parts: Seq<Seq<char>>, p: Seq<char>)
    ensures
        join_colon(parts.push(p)) == if parts.len() == 0 { p } else { join_colon(parts) + seq![':'] + p },
{
    assert(parts.push(p).drop_last() =~= parts);
}

fn append_part(out: &mut String, first: bool, part: &str)
    ensures
        final(out)@ == if first { old(out)@ + part@ } else { old(out)@ + seq![':'] + part@ },
{
    if !first {
        out.append(":");
        proof {
            reveal_strlit(":");
        }
    }
    out.append(part);
}

} // verus!
