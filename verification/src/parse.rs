//! Parsing one input line as a non-negative integer.
//!
//! A line is trimmed of surrounding whitespace and read as a decimal `u32`,
//! with an optional leading plus sign. The parse either yields the number or
//! says exactly why it cannot: the trimmed line is empty, holds a character
//! that is no digit, or names a number too large for `u32`.

use vstd::prelude::*;

verus! {

/// Why an input line is not a valid non-negative integer.
#[derive(Clone, Copy, Debug, PartialEq, Eq, Structural)]
pub enum ParseError {
    /// Nothing but whitespace on the line.
    Empty,
    /// A character that is neither a digit nor the optional leading plus.
    InvalidChar,
    /// A well-formed number that does not fit in a `u32`.
    Overflow,
}

/// ASCII whitespace: space, tab, line feed, vertical tab, form feed,
/// carriage return.
pub open spec fn is_space(b: u8) -> bool {
    b == 32 || b == 9 || b == 10 || b == 11 || b == 12 || b == 13
}

/// An ASCII decimal digit.
pub open spec fn is_digit(b: u8) -> bool {
    48 <= b <= 57
}

/// The line with leading whitespace removed.
pub open spec fn trim_front(s: Seq<u8>) -> Seq<u8>
    decreases s.len(),
{
    if s.len() > 0 && is_space(s[0]) {
        trim_front(s.drop_first())
    } else {
        s
    }
}

/// The line with trailing whitespace removed.
pub open spec fn trim_back(s: Seq<u8>) -> Seq<u8>
    decreases s.len(),
{
    if s.len() > 0 && is_space(s.last()) {
        trim_back(s.drop_last())
    } else {
        s
    }
}

/// The line with surrounding whitespace removed.
pub open spec fn trimmed(s: Seq<u8>) -> Seq<u8> {
    trim_back(trim_front(s))
}

/// Every byte is a decimal digit.
pub open spec fn all_digits(s: Seq<u8>) -> bool {
    forall|i: int| 0 <= i < s.len() ==> is_digit(#[trigger] s[i])
}

/// The number a sequence of decimal digits denotes.
pub open spec fn digits_value(s: Seq<u8>) -> int
    decreases s.len(),
{
    if s.len() == 0 {
        0
    } else {
        digits_value(s.drop_last()) * 10 + (s.last() - 48)
    }
}

/// The digits of a trimmed line, once an optional leading plus is stripped.
pub open spec fn digits_part(t: Seq<u8>) -> Seq<u8> {
    if t.len() > 0 && t[0] == 43 {
        t.drop_first()
    } else {
        t
    }
}

/// What parsing an input line yields: the denoted number, or the exact
/// reason the line is no valid non-negative integer.
pub open spec fn parse_spec(s: Seq<u8>) -> Result<u32, ParseError> {
    let t = trimmed(s);
    let d = digits_part(t);
    if t.len() == 0 {
        Err(ParseError::Empty)
    } else if d.len() == 0 || !all_digits(d) {
        Err(ParseError::InvalidChar)
    } else if digits_value(d) > u32::MAX {
        Err(ParseError::Overflow)
    } else {
        Ok(digits_value(d) as u32)
    }
}

fn is_space_byte(b: u8) -> (r: bool)
    ensures
        r == is_space(b),
{
    b == 32 || b == 9 || b == 10 || b == 11 || b == 12 || b == 13
}

proof fn lemma_trim_front_is_subrange(s: Seq<u8>, k: int)
    requires
        0 <= k <= s.len(),
        forall|j: int| 0 <= j < k ==> is_space(#[trigger] s[j]),
        k < s.len() ==> !is_space(s[k]),
    ensures
        trim_front(s) == s.subrange(k, s.len() as int),
    decreases k,
{
    if k == 0 {
        if s.len() == 0 || !is_space(s[0]) {
            assert(trim_front(s) == s);
            assert(s.subrange(0, s.len() as int) =~= s);
        }
    } else {
        assert(is_space(s[0]));
        let d = s.drop_first();
        assert forall|j: int| 0 <= j < k - 1 implies is_space(#[trigger] d[j]) by {
            assert(d[j] == s[j + 1]);
        }
        lemma_trim_front_is_subrange(d, k - 1);
        assert(d.subrange(k - 1, d.len() as int) =~= s.subrange(k, s.len() as int));
    }
}

proof fn lemma_trim_back_is_subrange(s: Seq<u8>, k: int)
    requires
        0 <= k <= s.len(),
        forall|j: int| k <= j < s.len() ==> is_space(#[trigger] s[j]),
        k > 0 ==> !is_space(s[k - 1]),
    ensures
        trim_back(s) == s.subrange(0, k),
    decreases s.len() - k,
{
    if k == s.len() {
        if s.len() == 0 || !is_space(s.last()) {
            assert(trim_back(s) == s);
            assert(s.subrange(0, k) =~= s);
        } else {
            let d = s.drop_last();
            lemma_trim_back_is_subrange(d, k - 1);
            assert(false);
        }
    } else {
        assert(is_space(s.last()));
        let d = s.drop_last();
        assert forall|j: int| k <= j < d.len() implies is_space(#[trigger] d[j]) by {
            assert(d[j] == s[j]);
        }
        lemma_trim_back_is_subrange(d, k);
        assert(d.subrange(0, k) =~= s.subrange(0, k));
    }
}

proof fn lemma_digits_value_nonneg(s: Seq<u8>)
    requires
        all_digits(s),
    ensures
        digits_value(s) >= 0,
    decreases s.len(),
{
    if s.len() > 0 {
        let d = s.drop_last();
        assert forall|i: int| 0 <= i < d.len() implies is_digit(#[trigger] d[i]) by {
            assert(d[i] == s[i]);
        }
        lemma_digits_value_nonneg(d);
        assert(is_digit(s[s.len() - 1]));
    }
}

proof fn lemma_digits_value_prefix_le(s: Seq<u8>, m: int)
    requires
        all_digits(s),
        0 <= m <= s.len(),
    ensures
        digits_value(s.subrange(0, m)) <= digits_value(s),
    decreases s.len() - m,
{
    if m == s.len() {
        assert(s.subrange(0, m) =~= s);
    } else {
        let p = s.subrange(0, m);
        let pext = s.subrange(0, m + 1);
        assert(pext.drop_last() =~= p);
        assert(pext.last() == s[m]);
        assert forall|i: int| 0 <= i < p.len() implies is_digit(#[trigger] p[i]) by {
            assert(p[i] == s[i]);
        }
        lemma_digits_value_nonneg(p);
        assert(is_digit(s[m]));
        assert(digits_value(pext) == digits_value(p) * 10 + (s[m] - 48));
        lemma_digits_value_prefix_le(s, m + 1);
    }
}

/// Parses one input line, given as bytes, as a decimal `u32`. Surrounding
/// whitespace is ignored and one leading plus sign is allowed; the result is
/// exactly what `parse_spec` says of the line.
pub fn parse_input(s: &[u8]) -> (r: Result<u32, ParseError>)
    ensures
        r == parse_spec(s@),
{
    let n = s.len();
    let mut lo: usize = 0;
    while lo < n && is_space_byte(s[lo])
        invariant
            0 <= lo <= n,
            n == s@.len(),
            forall|j: int| 0 <= j < lo ==> is_space(#[trigger] s@[j]),
        decreases n - lo,
    {
        lo += 1;
    }
    let mut hi: usize = n;
    while hi > lo && is_space_byte(s[hi - 1])
        invariant
            lo <= hi <= n,
            n == s@.len(),
            forall|j: int| 0 <= j < lo ==> is_space(#[trigger] s@[j]),
            lo < n ==> !is_space(s@[lo as int]),
            forall|j: int| hi <= j < n ==> is_space(#[trigger] s@[j]),
        decreases hi,
    {
        hi -= 1;
    }
    proof {
        lemma_trim_front_is_subrange(s@, lo as int);
        let f = s@.subrange(lo as int, n as int);
        assert forall|j: int| hi - lo <= j < f.len() implies is_space(#[trigger] f[j]) by {
            assert(f[j] == s@[j + lo]);
        }
        if hi > lo {
            assert(f[hi - lo - 1] == s@[hi - 1]);
        }
        lemma_trim_back_is_subrange(f, hi - lo);
        assert(f.subrange(0, hi - lo) =~= s@.subrange(lo as int, hi as int));
        assert(trimmed(s@) == s@.subrange(lo as int, hi as int));
    }
    let ghost t = trimmed(s@);
    if lo == hi {
        proof {
            assert(t.len() == 0);
        }
        return Err(ParseError::Empty);
    }
    let start: usize = if s[lo] == 43 { lo + 1 } else { lo };
    let ghost d = digits_part(t);
    proof {
        assert(t[0] == s@[lo as int]);
        if s@[lo as int] == 43 {
            assert(t.drop_first() =~= s@.subrange(start as int, hi as int));
        }
        assert(d == s@.subrange(start as int, hi as int));
    }
    if start == hi {
        proof {
            assert(d.len() == 0);
        }
        return Err(ParseError::InvalidChar);
    }
    let mut k: usize = start;
    while k < hi
        invariant
            start <= k <= hi <= n,
            start < hi,
            n == s@.len(),
            trimmed(s@).len() > 0,
            d == digits_part(trimmed(s@)),
            d == s@.subrange(start as int, hi as int),
            forall|j: int| start <= j < k ==> is_digit(#[trigger] s@[j]),
        decreases hi - k,
    {
        let b = s[k];
        if b < 48 || b > 57 {
            proof {
                assert(d[k - start] == s@[k as int]);
                assert(!all_digits(d));
            }
            return Err(ParseError::InvalidChar);
        }
        k += 1;
    }
    proof {
        assert forall|i: int| 0 <= i < d.len() implies is_digit(#[trigger] d[i]) by {
            assert(d[i] == s@[i + start]);
        }
    }
    let mut acc: u32 = 0;
    let mut m: usize = start;
    while m < hi
        invariant
            start <= m <= hi <= n,
            start < hi,
            n == s@.len(),
            trimmed(s@).len() > 0,
            d == digits_part(trimmed(s@)),
            d == s@.subrange(start as int, hi as int),
            all_digits(d),
            forall|j: int| start <= j < hi ==> is_digit(#[trigger] s@[j]),
            acc as int == digits_value(d.subrange(0, m - start)),
        decreases hi - m,
    {
        let b = s[m];
        let next: u64 = acc as u64 * 10 + (b - 48) as u64;
        proof {
            let p = d.subrange(0, m - start);
            let pext = d.subrange(0, m - start + 1);
            assert(pext.drop_last() =~= p);
            assert(pext.last() == s@[m as int]);
            assert(digits_value(pext) == digits_value(p) * 10 + (s@[m as int] - 48));
        }
        if next > 0xffff_ffff {
            proof {
                lemma_digits_value_prefix_le(d, m - start + 1);
            }
            return Err(ParseError::Overflow);
        }
        acc = next as u32;
        m += 1;
    }
    proof {
        assert(d.subrange(0, (hi - start) as int) =~= d);
    }
    Ok(acc)
}

} // verus!
