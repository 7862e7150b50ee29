//! Byte-level text scanning: lines, whitespace-separated tokens and
//! unsigned decimal numbers.
use vstd::prelude::*;

verus! {

pub const NEWLINE: u8 = 0x0a;

/// ASCII whitespace: space, tab, line feed, vertical tab, form feed,
/// carriage return.
pub open spec fn is_space(b: u8) -> bool {
    b == 0x20 || b == 0x09 || b == 0x0a || b == 0x0b || b == 0x0c || b == 0x0d
}

pub open spec fn is_digit(b: u8) -> bool {
    0x30 <= b && b <= 0x39
}

/// Index of the first line feed at or after `pos`, or the end of `s`.
pub open spec fn line_end(s: Seq<u8>, pos: int) -> int
    decreases s.len() - pos,
{
    if pos >= s.len() {
        s.len() as int
    } else if s[pos] == NEWLINE {
        pos
    } else {
        line_end(s, pos + 1)
    }
}

/// Where the line after the one starting at `pos` begins.
pub open spec fn next_line(s: Seq<u8>, pos: int) -> int {
    if line_end(s, pos) < s.len() {
        line_end(s, pos) + 1
    } else {
        s.len() as int
    }
}

/// The spans `(start, end)` of the maximal runs of non-whitespace bytes in
/// `s[lo..hi]`, from left to right.
pub open spec fn token_spans(s: Seq<u8>, lo: int, hi: int) -> Seq<(int, int)>
    decreases hi - lo,
{
    if hi <= lo {
        seq![]
    } else {
        let r = token_spans(s, lo, hi - 1);
        if is_space(s[hi - 1]) {
            r
        } else if hi - 1 > lo && !is_space(s[hi - 2]) {
            r.update(r.len() - 1, (r.last().0, hi))
        } else {
            r.push((hi - 1, hi))
        }
    }
}

/// The value of a sequence of decimal digits.
pub open spec fn digits_value(d: Seq<u8>) -> nat
    decreases d.len(),
{
    if d.len() == 0 {
        0
    } else {
        digits_value(d.drop_last()) * 10 + (d.last() - 0x30) as nat
    }
}

pub open spec fn all_digits(d: Seq<u8>) -> bool {
    forall|i: int| 0 <= i < d.len() ==> is_digit(#[trigger] d[i])
}

/// An unsigned decimal number: an optional `+`, then one or more digits,
/// with a value that fits in `usize`.
pub open spec fn parse_usize_spec(t: Seq<u8>) -> Option<usize> {
    let d = if t.len() > 0 && t[0] == 0x2b { t.drop_first() } else { t };
    if d.len() > 0 && all_digits(d) && digits_value(d) <= usize::MAX {
        Some(digits_value(d) as usize)
    } else {
        None
    }
}

pub proof fn lemma_line_end_bounds(s: Seq<u8>, pos: int)
    requires
        0 <= pos <= s.len(),
    ensures
        pos <= line_end(s, pos) <= s.len(),
        line_end(s, pos) < s.len() ==> s[line_end(s, pos)] == NEWLINE,
        forall|k: int| pos <= k < line_end(s, pos) ==> s[k] != NEWLINE,
    decreases s.len() - pos,
{
    if pos < s.len() && s[pos] != NEWLINE {
        lemma_line_end_bounds(s, pos + 1);
    }
}

pub proof fn lemma_next_line_advances(s: Seq<u8>, pos: int)
    requires
        0 <= pos < s.len(),
    ensures
        pos < next_line(s, pos) <= s.len(),
{
    lemma_line_end_bounds(s, pos);
}

pub proof fn lemma_token_spans_shape(s: Seq<u8>, lo: int, hi: int)
    requires
        lo <= hi,
    ensures
        hi > lo && !is_space(s[hi - 1]) ==> token_spans(s, lo, hi).len() > 0
            && token_spans(s, lo, hi).last().1 == hi,
        forall|k: int|
            0 <= k < token_spans(s, lo, hi).len() ==> lo <= (#[trigger] token_spans(s, lo, hi)[k]).0
                < token_spans(s, lo, hi)[k].1 <= hi,
    decreases hi - lo,
{
    if hi > lo {
        lemma_token_spans_shape(s, lo, hi - 1);
    }
}

/// Index of the first line feed at or after `pos`, or `s.len()`.
pub fn find_line_end(s: &[u8], pos: usize) -> (r: usize)
    requires
        pos <= s@.len(),
    ensures
        r == line_end(s@, pos as int),
{
    let mut i: usize = pos;
    while i < s.len() && s[i] != NEWLINE
        invariant
            pos <= i <= s@.len(),
            line_end(s@, i as int) == line_end(s@, pos as int),
        decreases s@.len() - i,
    {
        i = i + 1;
    }
    i
}

/// The spans of the whitespace-separated tokens of `s[lo..hi]`.
pub fn find_tokens(s: &[u8], lo: usize, hi: usize) -> (r: Vec<(usize, usize)>)
    requires
        lo <= hi <= s@.len(),
    ensures
        spans_match(r@, token_spans(s@, lo as int, hi as int)),
{
    let mut v: Vec<(usize, usize)> = Vec::new();
    let mut i: usize = lo;
    while i < hi
        invariant
            lo <= i <= hi <= s@.len(),
            spans_match(v@, token_spans(s@, lo as int, i as int)),
        decreases hi - i,
    {
        proof {
            lemma_token_spans_shape(s@, lo as int, i as int);
        }
        let b = s[i];
        if is_space_byte(b) {
        } else if i > lo && !is_space_byte(s[i - 1]) {
            let last = v.len() - 1;
            let start = v[last].0;
            v.set(last, (start, i + 1));
        } else {
            v.push((i, i + 1));
        }
        i = i + 1;
    }
    v
}

/// The exec spans `v` and the spec spans `t` are the same.
pub open spec fn spans_match(v: Seq<(usize, usize)>, t: Seq<(int, int)>) -> bool {
    &&& v.len() == t.len()
    &&& forall|k: int|
        0 <= k < v.len() ==> (#[trigger] v[k]).0 as int == t[k].0 && v[k].1 as int == t[k].1
}

pub fn is_space_byte(b: u8) -> (r: bool)
    ensures
        r == is_space(b),
{
    b == 0x20 || b == 0x09 || b == 0x0a || b == 0x0b || b == 0x0c || b == 0x0d
}

proof fn lemma_digits_value_prefix(d: Seq<u8>, k: int)
    requires
        0 <= k <= d.len(),
    ensures
        digits_value(d.take(k)) <= digits_value(d),
    decreases d.len() - k,
{
    if k < d.len() {
        lemma_digits_value_prefix(d, k + 1);
        assert(d.take(k + 1).drop_last() == d.take(k));
    } else {
        assert(d.take(k) == d);
    }
}

/// Parses `s[lo..hi]` as an unsigned decimal number: an optional `+`, then
/// one or more digits, with no overflow.
pub fn parse_usize(s: &[u8], lo: usize, hi: usize) -> (r: Option<usize>)
    requires
        lo <= hi <= s@.len(),
    ensures
        r == parse_usize_spec(s@.subrange(lo as int, hi as int)),
{
    let ghost t = s@.subrange(lo as int, hi as int);
    let start: usize = if lo < hi && s[lo] == 0x2b { lo + 1 } else { lo };
    let ghost d = s@.subrange(start as int, hi as int);
    assert(d == (if t.len() > 0 && t[0] == 0x2b { t.drop_first() } else { t }));
    if start == hi {
        return None;
    }
    let mut value: usize = 0;
    let mut i: usize = start;
    while i < hi
        invariant
            start <= i <= hi <= s@.len(),
            d == s@.subrange(start as int, hi as int),
            t == s@.subrange(lo as int, hi as int),
            d == (if t.len() > 0 && t[0] == 0x2b { t.drop_first() } else { t }),
            value as nat == digits_value(d.take(i - start)),
            all_digits(d.take(i - start)),
        decreases hi - i,
    {
        let b = s[i];
        if !(0x30 <= b && b <= 0x39) {
            assert(d[i - start] == b && !is_digit(d[i - start]));
            assert(!all_digits(d));
            return None;
        }
        proof {
            assert(d.take(i - start + 1).drop_last() == d.take(i - start));
            assert(d.take(i - start + 1).last() == b);
            lemma_digits_value_prefix(d, i - start + 1);
        }
        let digit = (b - 0x30) as usize;
        assert(digits_value(d.take(i - start + 1)) == value * 10 + digit);
        match value.checked_mul(10) {
            None => {
                assert(digits_value(d) > usize::MAX);
                return None;
            },
            Some(m) => match m.checked_add(digit) {
                None => {
                    assert(digits_value(d) > usize::MAX);
                    return None;
                },
                Some(v) => {
                    value = v;
                },
            },
        }
        i = i + 1;
        assert(all_digits(d.take(i - start))) by {
            assert forall|k: int| 0 <= k < d.take(i - start).len() implies is_digit(
                #[trigger] d.take(i - start)[k],
            ) by {
                if k < i - 1 - start {
                    assert(d.take(i - start)[k] == d.take(i - 1 - start)[k]);
                }
            }
        }
    }
    assert(d.take(i - start) == d);
    Some(value)
}

} // verus!
