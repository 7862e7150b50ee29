//! The compatibility matrix: the pairwise overlap of `n` primitives.
use vstd::prelude::*;
use crate::overlap::{pair_score, pair_score_spec, Overlap};

verus! {

/// The matrix holds `n` rows of `n` entries.
pub open spec fn is_square(m: Seq<Vec<Overlap>>, n: int) -> bool {
    &&& m.len() == n
    &&& forall|i: int| 0 <= i < n ==> (#[trigger] m[i])@.len() == n
}

/// Entry `(i, j)` equals entry `(j, i)`.
pub open spec fn is_symmetric(m: Seq<Vec<Overlap>>) -> bool {
    forall|i: int, j: int|
        0 <= i < m.len() && 0 <= j < m.len() ==> (#[trigger] m[i]@[j]) == m[j]@[i]
}

/// No entry's intersection exceeds its union_area: every score is in `[0, 1]`.
pub open spec fn is_bounded(m: Seq<Vec<Overlap>>) -> bool {
    forall|i: int, j: int|
        0 <= i < m.len() && 0 <= j < m.len() ==> (#[trigger] m[i]@[j]).intersection_area
            <= m[i]@[j].union_area
}

/// `o` is the score of the masks that `raster` gave for the pair `(i, j)`.
pub open spec fn scored_by<F: Fn(usize, usize) -> Option<(Vec<u8>, Vec<u8>)>>(
    raster: F,
    i: usize,
    j: usize,
    o: Overlap,
) -> bool {
    exists|masks: Option<(Vec<u8>, Vec<u8>)>|
        #[trigger] raster.ensures((i, j), masks) && o == pair_score_spec(masks)
}

/// Builds the compatibility matrix of `n` primitives. For each pair
/// `i <= j`, `raster(i, j)` draws both primitives as filled masks on a
/// common canvas (`None` when drawing failed); the pair's entry is the
/// overlap of the two masks, stored at `(i, j)` and `(j, i)`.
pub fn generate_compatibility_matrix<F: Fn(usize, usize) -> Option<(Vec<u8>, Vec<u8>)>>(
    n: usize,
    raster: F,
) -> (m: Vec<Vec<Overlap>>)
    requires
        forall|i: usize, j: usize| i <= j < n ==> raster.requires((i, j)),
    ensures
        is_square(m@, n as int),
        is_symmetric(m@),
        is_bounded(m@),
        forall|i: usize, j: usize|
            i <= j < n ==> scored_by(raster, i, j, #[trigger] m@[i as int]@[j as int]),
{
    let mut m: Vec<Vec<Overlap>> = Vec::new();
    let mut i: usize = 0;
    while i < n
        invariant
            i <= n,
            m@.len() == i,
            forall|r: int| 0 <= r < i ==> (#[trigger] m@[r])@.len() == n,
            forall|r: int, c: int|
                0 <= r < i && 0 <= c < i ==> (#[trigger] m@[r]@[c]) == m@[c]@[r],
            forall|r: int, c: int|
                0 <= r < i && 0 <= c < n ==> (#[trigger] m@[r]@[c]).intersection_area
                    <= m@[r]@[c].union_area,
            forall|r: usize, c: usize|
                r <= c < n && r < i ==> scored_by(raster, r, c, #[trigger] m@[r as int]@[c as int]),
            forall|a: usize, b: usize| a <= b < n ==> raster.requires((a, b)),
        decreases n - i,
    {
        let mut row: Vec<Overlap> = Vec::new();
        let mut j: usize = 0;
        while j < i
            invariant
                j <= i < n,
                m@.len() == i,
                row@.len() == j,
                forall|c: int| 0 <= c < j ==> (#[trigger] row@[c]) == m@[c]@[i as int],
                forall|r: int| 0 <= r < i ==> (#[trigger] m@[r])@.len() == n,
            decreases i - j,
        {
            row.push(m[j][i]);
            j = j + 1;
        }
        while j < n
            invariant
                i <= j <= n,
                m@.len() == i,
                row@.len() == j,
                forall|c: int| 0 <= c < i ==> (#[trigger] row@[c]) == m@[c]@[i as int],
                forall|c: int| 0 <= c < j ==> (#[trigger] row@[c]).intersection_area <= row@[c].union_area,
                forall|c: usize| i <= c < j ==> scored_by(raster, i, c, #[trigger] row@[c as int]),
                forall|a: usize, b: usize| a <= b < n ==> raster.requires((a, b)),
            decreases n - j,
        {
            let masks = raster(i, j);
            let score = pair_score(&masks);
            row.push(score);
            proof {
                assert(raster.ensures((i, j), masks) && row@[j as int] == pair_score_spec(masks));
                assert(scored_by(raster, i, j, row@[j as int]));
            }
            j = j + 1;
        }
        m.push(row);
        i = i + 1;
    }
    m
}

} // verus!
