//! Overlap of two rasterized masks: how many cells are set in both
//! (intersection) and in either (union). A cell is set when it is nonzero.
//! The intersection-over-union score of two primitives is
//! `intersection / union`, and 0 when the union is empty.
use vstd::prelude::*;

verus! {

#[derive(Clone, Copy, Debug, PartialEq, Eq, Structural)]
pub struct Overlap {
    pub intersection_area: usize,
    pub union_area: usize,
}

/// Cells among the first `n` that are set in both masks.
pub open spec fn count_both(a: Seq<u8>, b: Seq<u8>, n: int) -> nat
    decreases n,
{
    if n <= 0 {
        0
    } else {
        count_both(a, b, n - 1) + if a[n - 1] != 0 && b[n - 1] != 0 {
            1nat
        } else {
            0nat
        }
    }
}

/// Cells among the first `n` that are set in at least one mask.
pub open spec fn count_either(a: Seq<u8>, b: Seq<u8>, n: int) -> nat
    decreases n,
{
    if n <= 0 {
        0
    } else {
        count_either(a, b, n - 1) + if a[n - 1] != 0 || b[n - 1] != 0 {
            1nat
        } else {
            0nat
        }
    }
}

/// The overlap of two masks of one size.
pub open spec fn overlap_of(a: Seq<u8>, b: Seq<u8>) -> Overlap {
    Overlap {
        intersection_area: count_both(a, b, a.len() as int) as usize,
        union_area: count_either(a, b, a.len() as int) as usize,
    }
}

/// The empty overlap, which scores 0: what a pair whose masks could not be
/// compared gets.
pub open spec fn no_overlap() -> Overlap {
    Overlap { intersection_area: 0, union_area: 0 }
}

/// Both counts are at most `n`, and the intersection is at most the union.
pub proof fn lemma_counts_bounded(a: Seq<u8>, b: Seq<u8>, n: int)
    requires
        0 <= n,
    ensures
        count_both(a, b, n) <= count_either(a, b, n) <= n,
    decreases n,
{
    if n > 0 {
        lemma_counts_bounded(a, b, n - 1);
    }
}

/// Compares two masks cell by cell. Masks of different sizes cannot be
/// compared.
pub fn mask_overlap(a: &[u8], b: &[u8]) -> (r: Option<Overlap>)
    ensures
        a@.len() != b@.len() ==> r is None,
        a@.len() == b@.len() ==> r == Some(overlap_of(a@, b@)),
        r matches Some(o) ==> o.intersection_area <= o.union_area,
{
    if a.len() != b.len() {
        return None;
    }
    let mut both: usize = 0;
    let mut either: usize = 0;
    let mut i: usize = 0;
    while i < a.len()
        invariant
            a@.len() == b@.len(),
            i <= a@.len(),
            both == count_both(a@, b@, i as int),
            either == count_either(a@, b@, i as int),
        decreases a@.len() - i,
    {
        proof {
            lemma_counts_bounded(a@, b@, i as int);
        }
        if a[i] != 0 && b[i] != 0 {
            both = both + 1;
        }
        if a[i] != 0 || b[i] != 0 {
            either = either + 1;
        }
        i = i + 1;
    }
    proof {
        lemma_counts_bounded(a@, b@, a@.len() as int);
    }
    Some(Overlap { intersection_area: both, union_area: either })
}

/// The score of a pair from the masks its rasterizer gave: the overlap of
/// the two masks, or the empty overlap when rasterizing failed or the
/// masks differ in size.
pub open spec fn pair_score_spec(masks: Option<(Vec<u8>, Vec<u8>)>) -> Overlap {
    match masks {
        Some((a, b)) => if a@.len() == b@.len() {
            overlap_of(a@, b@)
        } else {
            no_overlap()
        },
        None => no_overlap(),
    }
}

pub fn pair_score(masks: &Option<(Vec<u8>, Vec<u8>)>) -> (r: Overlap)
    ensures
        r == pair_score_spec(*masks),
        r.intersection_area <= r.union_area,
{
    match masks {
        Some((a, b)) => match mask_overlap(a.as_slice(), b.as_slice()) {
            Some(o) => o,
            None => Overlap { intersection_area: 0, union_area: 0 },
        },
        None => Overlap { intersection_area: 0, union_area: 0 },
    }
}

/// A mask compared with itself: the intersection is the whole union, so
/// the score is exactly 1 whenever any cell is set.
pub proof fn lemma_overlap_identity(a: Seq<u8>)
    ensures
        overlap_of(a, a).intersection_area == overlap_of(a, a).union_area,
{
    lemma_identity_counts(a, a.len() as int);
}

/// A pair whose two masks are the same scores exactly 1 whenever any cell
/// is set: its intersection is its whole union.
pub proof fn lemma_pair_score_identity(a: Vec<u8>)
    ensures
        pair_score_spec(Some((a, a))).intersection_area == pair_score_spec(
            Some((a, a)),
        ).union_area,
{
    lemma_overlap_identity(a@);
}

proof fn lemma_identity_counts(a: Seq<u8>, n: int)
    ensures
        count_both(a, a, n) == count_either(a, a, n),
    decreases n,
{
    if n > 0 {
        lemma_identity_counts(a, n - 1);
    }
}

/// Masks with no cell set in both have an empty intersection, so they
/// score 0.
pub proof fn lemma_overlap_disjoint(a: Seq<u8>, b: Seq<u8>)
    requires
        a.len() == b.len(),
        forall|k: int| 0 <= k < a.len() ==> !(a[k] != 0 && #[trigger] b[k] != 0),
    ensures
        overlap_of(a, b).intersection_area == 0,
{
    lemma_disjoint_counts(a, b, a.len() as int);
}

proof fn lemma_disjoint_counts(a: Seq<u8>, b: Seq<u8>, n: int)
    requires
        n <= a.len(),
        forall|k: int| 0 <= k < a.len() ==> !(a[k] != 0 && #[trigger] b[k] != 0),
    ensures
        count_both(a, b, n) == 0,
    decreases n,
{
    if n > 0 {
        lemma_disjoint_counts(a, b, n - 1);
    }
}

/// The overlap does not depend on the order of the two masks.
pub proof fn lemma_overlap_symmetric(a: Seq<u8>, b: Seq<u8>)
    requires
        a.len() == b.len(),
    ensures
        overlap_of(a, b) == overlap_of(b, a),
{
    lemma_symmetric_counts(a, b, a.len() as int);
}

proof fn lemma_symmetric_counts(a: Seq<u8>, b: Seq<u8>, n: int)
    ensures
        count_both(a, b, n) == count_both(b, a, n),
        count_either(a, b, n) == count_either(b, a, n),
    decreases n,
{
    if n > 0 {
        lemma_symmetric_counts(a, b, n - 1);
    }
}

/// Every score lies between 0 and 1: the intersection never exceeds the
/// union.
pub proof fn lemma_overlap_bounded(a: Seq<u8>, b: Seq<u8>)
    requires
        a.len() == b.len(),
        a.len() <= usize::MAX,
    ensures
        overlap_of(a, b).intersection_area <= overlap_of(a, b).union_area <= a.len(),
{
    lemma_counts_bounded(a, b, a.len() as int);
}

} // verus!
