use vstd::prelude::*;

verus! {

/// Two half-open ranges `[a, b)` and `[c, d)` intersect when the larger start
/// lies before the smaller end.
pub open spec fn intersects(a: int, b: int, c: int, d: int) -> bool {
    let lo = if a < c { c } else { a };
    let hi = if b < d { b } else { d };
    lo < hi
}

/// Position `x` lies in the half-open range `[a, b)`.
pub open spec fn in_range(x: int, a: int, b: int) -> bool {
    a <= x < b
}

/// Brute-force notion of intersection: some position lies in both ranges.
pub open spec fn share_a_point(a: int, b: int, c: int, d: int) -> bool {
    exists|x: int| #[trigger] in_range(x, a, b) && in_range(x, c, d)
}

/// Decides whether `[a, b)` and `[c, d)` intersect.
pub fn ranges_intersect(a: u64, b: u64, c: u64, d: u64) -> (r: bool)
    ensures
        r == intersects(a as int, b as int, c as int, d as int),
{
    let lo: u64 = if a < c { c } else { a };
    let hi: u64 = if b < d { b } else { d };
    lo < hi
}

/// The max/min test agrees with the brute-force test for every pair of ranges:
/// two half-open ranges intersect exactly when some position lies in both.
pub proof fn lemma_intersects_iff_shared_point(a: int, b: int, c: int, d: int)
    ensures
        intersects(a, b, c, d) <==> share_a_point(a, b, c, d),
{
    let lo = if a < c { c } else { a };
    if intersects(a, b, c, d) {
        assert(in_range(lo, a, b) && in_range(lo, c, d));
    }
    if share_a_point(a, b, c, d) {
        let x = choose|x: int| #[trigger] in_range(x, a, b) && in_range(x, c, d);
        assert(lo <= x);
    }
}

} // verus!
