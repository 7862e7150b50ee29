//! The text form of a compatibility matrix: one line per row, each score
//! written with four decimals (`0.3333`) and followed by a space.
use vstd::prelude::*;
use crate::overlap::Overlap;

verus! {

/// A score in ten-thousandths, rounded half up: `round(10000 * i / u)`,
/// and 0 when the union is empty.
pub open spec fn score_e4(o: Overlap) -> int {
    if o.union_area == 0 {
        0
    } else {
        (20000 * o.intersection_area + o.union_area) / (2 * o.union_area as int)
    }
}

pub open spec fn digit(d: int) -> u8 {
    (0x30 + d) as u8
}

/// `v` ten-thousandths written as `D.DDDD`.
pub open spec fn fixed4_text(v: int) -> Seq<u8> {
    seq![
        digit(v / 10000),
        0x2e,
        digit((v / 1000) % 10),
        digit((v / 100) % 10),
        digit((v / 10) % 10),
        digit(v % 10),
    ]
}

/// Reads `D.DDDD` back as ten-thousandths.
pub open spec fn fixed4_value(t: Seq<u8>) -> int {
    (t[0] - 0x30) * 10000 + (t[2] - 0x30) * 1000 + (t[3] - 0x30) * 100 + (t[4] - 0x30) * 10 + (
    t[5] - 0x30)
}

pub open spec fn entry_text(o: Overlap) -> Seq<u8> {
    fixed4_text(score_e4(o)).push(0x20)
}

pub open spec fn row_text(row: Seq<Overlap>) -> Seq<u8>
    decreases row.len(),
{
    if row.len() == 0 {
        seq![]
    } else {
        row_text(row.drop_last()) + entry_text(row.last())
    }
}

pub open spec fn matrix_text(m: Seq<Vec<Overlap>>) -> Seq<u8>
    decreases m.len(),
{
    if m.len() == 0 {
        seq![]
    } else {
        matrix_text(m.drop_last()) + row_text(m.last()@).push(0x0a)
    }
}

/// Where entry `(r, c)` of an `n` by `n` matrix stands in its text.
pub open spec fn entry_offset(n: int, r: int, c: int) -> int {
    r * (7 * n + 1) + 7 * c
}

proof fn lemma_score_range(o: Overlap)
    requires
        o.intersection_area <= o.union_area,
    ensures
        0 <= score_e4(o) <= 10000,
{
    if o.union_area != 0 {
        lemma_rounded_ratio(o.intersection_area as int, o.union_area as int);
    }
}

proof fn lemma_rounded_ratio(i: int, u: int) by (nonlinear_arith)
    requires
        0 <= i <= u,
        u >= 1,
    ensures
        0 <= (20000 * i + u) / (2 * u) <= 10000,
        20000 * i + u <= 20001 * u,
{
    assert(20000 * i + u <= 10000 * (2 * u) + (2 * u - 1));
}

proof fn lemma_place_values(v: int) by (nonlinear_arith)
    requires
        0 <= v <= 10000,
    ensures
        (v / 10000) * 10000 + ((v / 1000) % 10) * 1000 + ((v / 100) % 10) * 100 + ((v / 10) % 10)
            * 10 + v % 10 == v,
{
}

proof fn lemma_rows_before(r: int, last: int, n: int) by (nonlinear_arith)
    requires
        0 <= r < last,
        n >= 0,
    ensures
        r * (7 * n + 1) + 7 * n + 1 <= last * (7 * n + 1),
{
}

proof fn lemma_rows_len(k: int, n: int) by (nonlinear_arith)
    requires
        k >= 1,
    ensures
        k * (7 * n + 1) == (k - 1) * (7 * n + 1) + (7 * n + 1),
{
}

/// Writing a score and reading it back gives the same ten-thousandths.
pub proof fn lemma_fixed4_round_trip(v: int)
    requires
        0 <= v <= 10000,
    ensures
        fixed4_text(v).len() == 6,
        fixed4_value(fixed4_text(v)) == v,
{
    let t = fixed4_text(v);
    assert(0 <= v / 10000 <= 1);
    assert(0 <= (v / 1000) % 10 < 10);
    assert(0 <= (v / 100) % 10 < 10);
    assert(0 <= (v / 10) % 10 < 10);
    assert(0 <= v % 10 < 10);
    assert(t[0] - 0x30 == v / 10000);
    assert(t[2] - 0x30 == (v / 1000) % 10);
    assert(t[3] - 0x30 == (v / 100) % 10);
    assert(t[4] - 0x30 == (v / 10) % 10);
    assert(t[5] - 0x30 == v % 10);
    lemma_place_values(v);
}

proof fn lemma_row_text_len(row: Seq<Overlap>)
    ensures
        row_text(row).len() == 7 * row.len(),
    decreases row.len(),
{
    if row.len() > 0 {
        lemma_row_text_len(row.drop_last());
    }
}

proof fn lemma_row_text_entry(row: Seq<Overlap>, c: int)
    requires
        0 <= c < row.len(),
    ensures
        row_text(row).subrange(7 * c, 7 * c + 7) == entry_text(row[c]),
    decreases row.len(),
{
    lemma_row_text_len(row.drop_last());
    let p = row_text(row.drop_last());
    if c == row.len() - 1 {
        assert(row_text(row).subrange(7 * c, 7 * c + 7) =~= entry_text(row[c]));
    } else {
        lemma_row_text_entry(row.drop_last(), c);
        assert(row_text(row).subrange(7 * c, 7 * c + 7) =~= p.subrange(7 * c, 7 * c + 7));
    }
}

proof fn lemma_matrix_text_len(m: Seq<Vec<Overlap>>, n: int)
    requires
        forall|r: int| 0 <= r < m.len() ==> (#[trigger] m[r])@.len() == n,
    ensures
        matrix_text(m).len() == m.len() * (7 * n + 1),
    decreases m.len(),
{
    if m.len() > 0 {
        lemma_matrix_text_len(m.drop_last(), n);
        lemma_row_text_len(m.last()@);
        lemma_rows_len(m.len() as int, n);
    }
}

/// In the text of a matrix whose rows all hold `n` scores, entry `(r, c)`
/// stands at `entry_offset(n, r, c)` and reads back as its score in
/// ten-thousandths; a space follows each entry and a line feed each row.
pub proof fn lemma_matrix_text_round_trip(m: Seq<Vec<Overlap>>, n: int, r: int, c: int)
    requires
        forall|k: int| 0 <= k < m.len() ==> (#[trigger] m[k])@.len() == n,
        forall|k: int, j: int|
            0 <= k < m.len() && 0 <= j < n ==> (#[trigger] m[k]@[j]).intersection_area
                <= m[k]@[j].union_area,
        0 <= r < m.len(),
        0 <= c < n,
    ensures
        matrix_text(m).len() == m.len() * (7 * n + 1),
        fixed4_value(matrix_text(m).subrange(entry_offset(n, r, c), entry_offset(n, r, c) + 6))
            == score_e4(m[r]@[c]),
        matrix_text(m)[entry_offset(n, r, c) + 6] == 0x20,
        matrix_text(m)[entry_offset(n, r, n)] == 0x0a,
    decreases m.len(),
{
    lemma_matrix_text_len(m, n);
    let last = m.len() - 1;
    let prefix = m.drop_last();
    assert forall|k: int| 0 <= k < prefix.len() implies (#[trigger] prefix[k])@.len() == n by {
        assert(prefix[k] == m[k]);
    }
    lemma_matrix_text_len(prefix, n);
    let base = last * (7 * n + 1);
    assert(matrix_text(prefix).len() == base);
    let off = entry_offset(n, r, c);
    if r == last {
        let row = m[r]@;
        lemma_row_text_entry(row, c);
        lemma_row_text_len(row);
        lemma_score_range(m[r]@[c]);
        lemma_fixed4_round_trip(score_e4(m[r]@[c]));
        assert(off == base + 7 * c);
        let rt = row_text(row).push(0x0a);
        assert(matrix_text(m) == matrix_text(prefix) + rt);
        assert(matrix_text(m).subrange(off, off + 6) =~= row_text(row).subrange(7 * c, 7 * c + 7)
            .subrange(0, 6));
        assert(entry_text(m[r]@[c]).subrange(0, 6) =~= fixed4_text(score_e4(m[r]@[c])));
        assert(matrix_text(m)[off + 6] == row_text(row).subrange(7 * c, 7 * c + 7)[6]);
        assert(entry_offset(n, r, n) == base + 7 * n);
        assert(matrix_text(m)[entry_offset(n, r, n)] == rt[7 * n]);
    } else {
        assert forall|k: int, j: int|
            0 <= k < prefix.len() && 0 <= j < n implies (#[trigger] prefix[k]@[j]).intersection_area
            <= prefix[k]@[j].union_area by {
            assert(prefix[k] == m[k]);
        }
        lemma_matrix_text_round_trip(prefix, n, r, c);
        assert(prefix[r] == m[r]);
        lemma_rows_before(r, last, n);
        assert(matrix_text(m) == matrix_text(prefix) + row_text(m.last()@).push(0x0a));
        assert(matrix_text(m).subrange(off, off + 6) =~= matrix_text(prefix).subrange(
            off,
            off + 6,
        ));
    }
}

fn push_digit(out: &mut Vec<u8>, d: u64)
    requires
        d < 10,
    ensures
        final(out)@ == old(out)@.push(digit(d as int)),
{
    out.push(0x30 + d as u8);
}

/// Appends one entry: its score with four decimals, then a space.
fn push_entry(out: &mut Vec<u8>, o: Overlap)
    requires
        o.intersection_area <= o.union_area,
    ensures
        final(out)@ == old(out)@ + entry_text(o),
{
    proof {
        lemma_score_range(o);
    }
    let v: u64 = if o.union_area == 0 {
        0
    } else {
        let i = o.intersection_area as u128;
        let u = o.union_area as u128;
        proof {
            lemma_rounded_ratio(i as int, u as int);
        }
        ((20000 * i + u) / (2 * u)) as u64
    };
    assert(v as int == score_e4(o));
    push_digit(out, v / 10000);
    out.push(0x2e);
    push_digit(out, (v / 1000) % 10);
    push_digit(out, (v / 100) % 10);
    push_digit(out, (v / 10) % 10);
    push_digit(out, v % 10);
    out.push(0x20);
    assert(final(out)@ =~= old(out)@ + entry_text(o));
}

/// The text of a matrix: for each row, its scores rounded half up to four
/// decimals, each followed by a space, then a line feed. Every score must
/// lie in `[0, 1]`.
pub fn format_matrix(m: &Vec<Vec<Overlap>>) -> (r: Vec<u8>)
    requires
        forall|k: int, j: int|
            0 <= k < m@.len() && 0 <= j < m@[k]@.len() ==> (#[trigger] m@[k]@[j]).intersection_area
                <= m@[k]@[j].union_area,
    ensures
        r@ == matrix_text(m@),
{
    let mut out: Vec<u8> = Vec::new();
    let mut k: usize = 0;
    while k < m.len()
        invariant
            k <= m@.len(),
            out@ == matrix_text(m@.take(k as int)),
            forall|a: int, j: int|
                0 <= a < m@.len() && 0 <= j < m@[a]@.len() ==> (#[trigger] m@[a]@[j]).intersection_area
                    <= m@[a]@[j].union_area,
        decreases m@.len() - k,
    {
        let row = &m[k];
        let mut j: usize = 0;
        let ghost before = out@;
        while j < row.len()
            invariant
                j <= row@.len(),
                row == m@[k as int],
                k < m@.len(),
                out@ == before + row_text(row@.take(j as int)),
                forall|a: int, b: int|
                    0 <= a < m@.len() && 0 <= b < m@[a]@.len() ==> (#[trigger] m@[a]@[b]).intersection_area
                        <= m@[a]@[b].union_area,
            decreases row@.len() - j,
        {
            push_entry(&mut out, row[j]);
            proof {
                assert(row@.take(j + 1).drop_last() =~= row@.take(j as int));
                assert(row@.take(j + 1).last() == row@[j as int]);
            }
            j = j + 1;
            assert(out@ =~= before + row_text(row@.take(j as int)));
        }
        out.push(0x0a);
        proof {
            assert(row@.take(j as int) =~= row@);
            assert(m@.take(k + 1).drop_last() =~= m@.take(k as int));
            assert(m@.take(k + 1).last() == m@[k as int]);
        }
        k = k + 1;
        assert(out@ =~= matrix_text(m@.take(k as int)));
    }
    assert(m@.take(k as int) =~= m@);
    out
}

} // verus!
