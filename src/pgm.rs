//! The grayscale PGM format: a magic line (`P2` for ASCII samples, `P5`
//! for binary ones), a header of width, height and depth that may be
//! interleaved with comment lines starting with `#`, then the samples.
use vstd::prelude::*;
use crate::text::{
    find_line_end, find_tokens, is_space, is_space_byte, lemma_line_end_bounds,
    lemma_next_line_advances, lemma_token_spans_shape, line_end, next_line, parse_usize,
    parse_usize_spec, spans_match, token_spans,
};

verus! {

pub const HASH: u8 = 0x23;

/// The header fields, and the offset where the samples begin.
#[derive(Clone, Copy, Debug, PartialEq, Eq, Structural)]
pub struct PgmHeader {
    pub width: usize,
    pub height: usize,
    pub depth: usize,
    pub data_start: usize,
}

#[derive(Clone, Copy, Debug, PartialEq, Eq, Structural)]
pub enum PgmError {
    /// The first line does not start with `P2` or `P5`.
    NotPgm,
    /// The input ends before the header or the samples are complete.
    UnexpectedEof,
    InvalidWidth,
    InvalidHeight,
    InvalidDepth,
    /// `width * height` does not fit in `usize`.
    TooLarge,
}

/// Follows the lines from `pos` on, skipping those that start with `#`,
/// until `need` tokens are found. Gives their spans, and where the line
/// holding the last of them ends (past its line feed).
pub open spec fn header_scan(s: Seq<u8>, pos: int, need: nat) -> Option<(Seq<(int, int)>, int)>
    decreases s.len() - pos,
    via header_scan_decreases
{
    if pos < 0 || pos >= s.len() {
        None
    } else if s[pos] == HASH {
        header_scan(s, next_line(s, pos), need)
    } else {
        let t = token_spans(s, pos, line_end(s, pos));
        if t.len() >= need {
            Some((t.take(need as int), next_line(s, pos)))
        } else {
            match header_scan(s, next_line(s, pos), (need - t.len()) as nat) {
                Some((u, end)) => Some((t + u, end)),
                None => None,
            }
        }
    }
}

#[via_fn]
proof fn header_scan_decreases(s: Seq<u8>, pos: int, need: nat) {
    if 0 <= pos < s.len() {
        lemma_next_line_advances(s, pos);
    }
}

pub open spec fn span_text(s: Seq<u8>, sp: (int, int)) -> Seq<u8> {
    s.subrange(sp.0, sp.1)
}

/// What the header starting at `pos` holds.
pub open spec fn header_spec(s: Seq<u8>, pos: int) -> Result<PgmHeader, PgmError> {
    match header_scan(s, pos, 3) {
        None => Err(PgmError::UnexpectedEof),
        Some((t, end)) => {
            let w = parse_usize_spec(span_text(s, t[0]));
            let h = parse_usize_spec(span_text(s, t[1]));
            let d = parse_usize_spec(span_text(s, t[2]));
            if w is None {
                Err(PgmError::InvalidWidth)
            } else if h is None {
                Err(PgmError::InvalidHeight)
            } else if d is None {
                Err(PgmError::InvalidDepth)
            } else {
                Ok(PgmHeader { width: w->0, height: h->0, depth: d->0, data_start: end as usize })
            }
        }
    }
}

spec fn prepend(v: Seq<(int, int)>, r: Option<(Seq<(int, int)>, int)>) -> Option<
    (Seq<(int, int)>, int),
> {
    match r {
        Some((u, end)) => Some((v + u, end)),
        None => None,
    }
}

proof fn lemma_header_scan_shape(s: Seq<u8>, pos: int, need: nat)
    requires
        0 <= pos,
        need > 0,
    ensures
        header_scan(s, pos, need) matches Some((t, end)) ==> t.len() == need && pos < end
            <= s.len() && forall|k: int|
            0 <= k < t.len() ==> 0 <= (#[trigger] t[k]).0 <= t[k].1 <= s.len(),
    decreases s.len() - pos,
{
    if 0 <= pos < s.len() {
        lemma_next_line_advances(s, pos);
        lemma_line_end_bounds(s, pos);
        lemma_token_spans_shape(s, pos, line_end(s, pos));
        let t = token_spans(s, pos, line_end(s, pos));
        if s[pos] == HASH {
            lemma_header_scan_shape(s, next_line(s, pos), need);
        } else if t.len() < need {
            lemma_header_scan_shape(s, next_line(s, pos), (need - t.len()) as nat);
            if let Some((u, end)) = header_scan(s, next_line(s, pos), (need - t.len()) as nat) {
                assert forall|k: int| 0 <= k < (t + u).len() implies 0 <= (#[trigger] (t
                    + u)[k]).0 <= (t + u)[k].1 <= s.len() by {
                    if k >= t.len() {
                        assert((t + u)[k] == u[k - t.len()]);
                    }
                }
            }
        }
    }
}

/// Reads the header that starts at offset `pos`: the first three
/// whitespace-separated tokens of the lines that do not start with `#`,
/// as width, height and depth. The samples start on the line after the
/// one holding the depth.
pub fn read_pgm_header(s: &[u8], pos: usize) -> (r: Result<PgmHeader, PgmError>)
    requires
        pos <= s@.len(),
    ensures
        r == header_spec(s@, pos as int),
{
    let mut spans: Vec<(usize, usize)> = Vec::new();
    let ghost mut acc: Seq<(int, int)> = seq![];
    let mut p: usize = pos;
    let mut end: usize;
    loop
        invariant_except_break
            spans@.len() < 3,
            header_scan(s@, pos as int, 3) == prepend(
                acc,
                header_scan(s@, p as int, (3 - spans@.len()) as nat),
            ),
        invariant
            pos <= p <= s@.len(),
            spans_match(spans@, acc),
        ensures
            spans@.len() == 3,
            header_scan(s@, pos as int, 3) == Some((acc, end as int)),
        decreases s@.len() - p,
    {
        if p >= s.len() {
            return Err(PgmError::UnexpectedEof);
        }
        let e = find_line_end(s, p);
        proof {
            lemma_line_end_bounds(s@, p as int);
            lemma_next_line_advances(s@, p as int);
        }
        let next: usize = if e < s.len() { e + 1 } else { e };
        if s[p] == HASH {
            p = next;
        } else {
            let toks = find_tokens(s, p, e);
            let ghost t = token_spans(s@, p as int, e as int);
            let ghost need: nat = (3 - spans@.len()) as nat;
            let ghost acc0 = acc;
            let ghost len0 = spans@.len();
            let mut k: usize = 0;
            while k < toks.len() && spans.len() < 3
                invariant
                    k <= toks@.len(),
                    spans_match(toks@, t),
                    spans@.len() == len0 + k,
                    len0 + k <= 3,
                    spans_match(spans@, acc0 + t.take(k as int)),
                decreases toks@.len() - k,
            {
                spans.push(toks[k]);
                k = k + 1;
                proof {
                    assert(t.take(k as int) == t.take(k - 1).push(t[k - 1]));
                    assert(acc0 + t.take(k as int) == (acc0 + t.take(k - 1)).push(t[k - 1]));
                }
            }
            proof {
                acc = acc0 + t.take(k as int);
            }
            if spans.len() == 3 {
                end = next;
                proof {
                    assert(t.len() >= need);
                    assert(k == need);
                }
                break ;
            }
            proof {
                assert(t.take(k as int) == t);
                assert forall|u: Seq<(int, int)>| (acc0 + t) + u == acc0 + (t + u) by {
                    assert((acc0 + t) + u =~= acc0 + (t + u));
                }
            }
            p = next;
        }
    }
    proof {
        lemma_header_scan_shape(s@, pos as int, 3);
    }
    let w = parse_usize(s, spans[0].0, spans[0].1);
    let h = parse_usize(s, spans[1].0, spans[1].1);
    let d = parse_usize(s, spans[2].0, spans[2].1);
    match (w, h, d) {
        (None, _, _) => Err(PgmError::InvalidWidth),
        (_, None, _) => Err(PgmError::InvalidHeight),
        (_, _, None) => Err(PgmError::InvalidDepth),
        (Some(width), Some(height), Some(depth)) => Ok(
            PgmHeader { width, height, depth, data_start: end },
        ),
    }
}

/// The samples of a PGM image, as they stand in the input.
#[derive(Debug)]
pub enum PgmSamples {
    /// `P5`: one byte per sample.
    Binary(Vec<u8>),
    /// `P2`: one sample per line; the span of each line's text without its
    /// surrounding whitespace.
    Ascii(Vec<(usize, usize)>),
}

#[derive(Debug)]
pub struct PgmImage {
    pub header: PgmHeader,
    pub samples: PgmSamples,
}

pub enum PgmSamplesView {
    Binary(Seq<u8>),
    Ascii(Seq<(int, int)>),
}

impl View for PgmImage {
    type V = (PgmHeader, PgmSamplesView);

    open spec fn view(&self) -> (PgmHeader, PgmSamplesView) {
        match self.samples {
            PgmSamples::Binary(v) => (self.header, PgmSamplesView::Binary(v@)),
            PgmSamples::Ascii(v) => (
                self.header,
                PgmSamplesView::Ascii(v@.map_values(|p: (usize, usize)| (p.0 as int, p.1 as int))),
            ),
        }
    }
}

pub open spec fn magic_ok(s: Seq<u8>) -> bool {
    s.len() >= 2 && s[0] == 0x50 && (s[1] == 0x32 || s[1] == 0x35)
}

pub open spec fn trim_lo(s: Seq<u8>, lo: int, hi: int) -> int
    decreases hi - lo,
{
    if lo < hi && is_space(s[lo]) {
        trim_lo(s, lo + 1, hi)
    } else {
        lo
    }
}

pub open spec fn trim_hi(s: Seq<u8>, lo: int, hi: int) -> int
    decreases hi - lo,
{
    if lo < hi && is_space(s[hi - 1]) {
        trim_hi(s, lo, hi - 1)
    } else {
        hi
    }
}

/// The span of the line starting at `pos`, without surrounding whitespace.
pub open spec fn trimmed_line(s: Seq<u8>, pos: int) -> (int, int) {
    let a = trim_lo(s, pos, line_end(s, pos));
    (a, trim_hi(s, a, line_end(s, pos)))
}

/// The trimmed spans of the `n` lines from `pos` on; `None` when the input
/// holds fewer lines.
pub open spec fn ascii_rows(s: Seq<u8>, pos: int, n: nat) -> Option<Seq<(int, int)>>
    decreases n,
{
    if n == 0 {
        Some(seq![])
    } else if pos < 0 || pos >= s.len() {
        None
    } else {
        match ascii_rows(s, next_line(s, pos), (n - 1) as nat) {
            Some(r) => Some(seq![trimmed_line(s, pos)] + r),
            None => None,
        }
    }
}

/// What a whole PGM file holds.
pub open spec fn pgm_spec(s: Seq<u8>) -> Result<(PgmHeader, PgmSamplesView), PgmError> {
    if !magic_ok(s) {
        Err(PgmError::NotPgm)
    } else {
        match header_spec(s, next_line(s, 0)) {
            Err(e) => Err(e),
            Ok(h) => {
                let n = h.width * h.height;
                let start = h.data_start as int;
                if n > usize::MAX {
                    Err(PgmError::TooLarge)
                } else if s[1] == 0x35 {
                    if start + n > s.len() {
                        Err(PgmError::UnexpectedEof)
                    } else {
                        Ok((h, PgmSamplesView::Binary(s.subrange(start, start + n))))
                    }
                } else {
                    match ascii_rows(s, start, n as nat) {
                        None => Err(PgmError::UnexpectedEof),
                        Some(rows) => Ok((h, PgmSamplesView::Ascii(rows))),
                    }
                }
            }
        }
    }
}

spec fn prefix_rows(v: Seq<(int, int)>, r: Option<Seq<(int, int)>>) -> Option<Seq<(int, int)>> {
    match r {
        Some(u) => Some(v + u),
        None => None,
    }
}

/// The span of the line from `pos` to `e` without surrounding whitespace.
fn trim_span(s: &[u8], pos: usize, e: usize) -> (r: (usize, usize))
    requires
        pos <= e <= s@.len(),
    ensures
        r.0 as int == trim_lo(s@, pos as int, e as int),
        r.1 as int == trim_hi(s@, r.0 as int, e as int),
        pos <= r.0 <= r.1 <= e,
{
    let mut a: usize = pos;
    while a < e && is_space_byte(s[a])
        invariant
            pos <= a <= e <= s@.len(),
            trim_lo(s@, a as int, e as int) == trim_lo(s@, pos as int, e as int),
        decreases e - a,
    {
        a = a + 1;
    }
    let mut b: usize = e;
    while b > a && is_space_byte(s[b - 1])
        invariant
            a <= b <= e <= s@.len(),
            trim_hi(s@, a as int, b as int) == trim_hi(s@, a as int, e as int),
        decreases b - a,
    {
        b = b - 1;
    }
    (a, b)
}

/// Parses a whole PGM file: the magic line, the header, and `width *
/// height` samples after it (bytes for `P5`, one per line for `P2`).
pub fn parse_pgm(s: &[u8]) -> (r: Result<PgmImage, PgmError>)
    ensures
        match pgm_spec(s@) {
            Ok(v) => r matches Ok(img) && img@ == v,
            Err(e) => r == Err::<PgmImage, PgmError>(e),
        },
{
    if !(s.len() >= 2 && s[0] == 0x50 && (s[1] == 0x32 || s[1] == 0x35)) {
        return Err(PgmError::NotPgm);
    }
    let binary = s[1] == 0x35;
    let e0 = find_line_end(s, 0);
    proof {
        lemma_line_end_bounds(s@, 0);
    }
    let start0: usize = if e0 < s.len() { e0 + 1 } else { e0 };
    let header = match read_pgm_header(s, start0) {
        Err(e) => return Err(e),
        Ok(h) => h,
    };
    proof {
        lemma_header_scan_shape(s@, start0 as int, 3);
    }
    let n = match header.width.checked_mul(header.height) {
        None => return Err(PgmError::TooLarge),
        Some(n) => n,
    };
    let start = header.data_start;
    if binary {
        if n > s.len() - start {
            return Err(PgmError::UnexpectedEof);
        }
        let stop = start + n;
        let mut data: Vec<u8> = Vec::new();
        let mut i: usize = start;
        while i < stop
            invariant
                start <= i <= stop <= s@.len(),
                data@ == s@.subrange(start as int, i as int),
            decreases stop - i,
        {
            data.push(s[i]);
            i = i + 1;
            assert(data@ =~= s@.subrange(start as int, i as int));
        }
        Ok(PgmImage { header, samples: PgmSamples::Binary(data) })
    } else {
        let mut rows: Vec<(usize, usize)> = Vec::new();
        let ghost mut acc: Seq<(int, int)> = seq![];
        let mut p: usize = start;
        let mut k: usize = 0;
        while k < n
            invariant
                k <= n,
                p <= s@.len(),
                magic_ok(s@),
                s@[1] != 0x35,
                header_spec(s@, next_line(s@, 0)) == Ok::<PgmHeader, PgmError>(header),
                n == header.width * header.height,
                start == header.data_start,
                spans_match(rows@, acc),
                ascii_rows(s@, start as int, n as nat) == prefix_rows(
                    acc,
                    ascii_rows(s@, p as int, (n - k) as nat),
                ),
            decreases n - k,
        {
            if p >= s.len() {
                assert(ascii_rows(s@, p as int, (n - k) as nat) is None);
                return Err(PgmError::UnexpectedEof);
            }
            let e = find_line_end(s, p);
            proof {
                lemma_line_end_bounds(s@, p as int);
            }
            let sp = trim_span(s, p, e);
            rows.push(sp);
            proof {
                let t = trimmed_line(s@, p as int);
                assert forall|u: Seq<(int, int)>| acc + (seq![t] + u) == acc.push(t) + u by {
                    assert(acc + (seq![t] + u) =~= acc.push(t) + u);
                }
                acc = acc.push(t);
            }
            p = if e < s.len() { e + 1 } else { e };
            k = k + 1;
        }
        proof {
            assert(acc + seq![] == acc);
            assert(rows@.map_values(|p: (usize, usize)| (p.0 as int, p.1 as int)) =~= acc);
        }
        Ok(PgmImage { header, samples: PgmSamples::Ascii(rows) })
    }
}

} // verus!
