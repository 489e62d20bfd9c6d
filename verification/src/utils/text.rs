//! Text as bytes: comparison without regard to ASCII case, decimal
//! numbers, and fields between separators.

use vstd::prelude::*;

verus! {

/// The lower-case form of an ASCII letter; any other byte as it is.
pub open spec fn lower(b: u8) -> u8 {
    if 0x41 <= b <= 0x5a {
        (b + 32) as u8
    } else {
        b
    }
}

/// A text with its ASCII letters in lower case.
pub open spec fn lowered(s: Seq<u8>) -> Seq<u8> {
    Seq::new(s.len(), |i: int| lower(s[i]))
}

/// Whether `s` ends with `suffix`.
pub open spec fn ends_with(s: Seq<u8>, suffix: Seq<u8>) -> bool {
    s.len() >= suffix.len() && s.subrange(s.len() - suffix.len(), s.len() as int) == suffix
}

/// Whether the byte is a decimal digit.
pub open spec fn is_digit(b: u8) -> bool {
    0x30 <= b <= 0x39
}

/// Whether every byte is a decimal digit.
pub open spec fn all_digits(s: Seq<u8>) -> bool {
    forall|i: int| 0 <= i < s.len() ==> is_digit(#[trigger] s[i])
}

/// The number that a sequence of decimal digits writes.
pub open spec fn decimal_value(s: Seq<u8>) -> nat
    decreases s.len(),
{
    if s.len() == 0 {
        0
    } else {
        decimal_value(s.drop_last()) * 10 + (s.last() - 0x30) as nat
    }
}

/// The digits of a decimal number that may begin with a plus sign.
pub open spec fn unsigned_digits(s: Seq<u8>) -> Seq<u8> {
    if s.len() > 0 && s[0] == 0x2b {
        s.subrange(1, s.len() as int)
    } else {
        s
    }
}

/// The machine-sized number that a text writes in decimal: digits only,
/// at least one, after at most one plus sign, and a value that fits.
pub open spec fn parsed_usize(s: Seq<u8>) -> Option<usize> {
    let digits = unsigned_digits(s);
    if digits.len() > 0 && all_digits(digits) && decimal_value(digits) <= usize::MAX {
        Some(decimal_value(digits) as usize)
    } else {
        None
    }
}

/// Whether the byte is ASCII white space: a blank, a tab, a line feed, a
/// vertical tab, a form feed or a carriage return.
pub open spec fn is_space(b: u8) -> bool {
    b == 0x20 || (0x09 <= b <= 0x0d)
}

/// The lower-case form of an ASCII letter; any other byte as it is.
pub fn to_lower(b: u8) -> (r: u8)
    ensures
        r == lower(b),
{
    if 0x41 <= b && b <= 0x5a {
        b + 32
    } else {
        b
    }
}

/// Whether the text, its ASCII letters taken in lower case, ends with
/// `suffix`.
pub fn lowered_ends_with(text: &[u8], suffix: &[u8]) -> (r: bool)
    ensures
        r == ends_with(lowered(text@), suffix@),
{
    let n = text.len();
    let m = suffix.len();
    if n < m {
        return false;
    }
    let start = n - m;
    let mut i: usize = 0;
    while i < m
        invariant
            i <= m,
            n == text@.len(),
            m == suffix@.len(),
            start == n - m,
            forall|j: int| 0 <= j < i ==> lower(text@[start + j]) == suffix@[j],
        decreases m - i,
    {
        if to_lower(text[start + i]) != suffix[i] {
            proof {
                let tail = lowered(text@).subrange(start as int, n as int);
                assert(tail[i as int] == lower(text@[start + i]));
            }
            return false;
        }
        i = i + 1;
    }
    proof {
        assert(lowered(text@).subrange(start as int, n as int) =~= suffix@);
    }
    true
}

/// Whether the text, its ASCII letters taken in lower case, is `word`.
pub fn lowered_equals(text: &[u8], word: &[u8]) -> (r: bool)
    ensures
        r == (lowered(text@) == word@),
{
    if text.len() != word.len() {
        return false;
    }
    let r = lowered_ends_with(text, word);
    proof {
        assert(lowered(text@).subrange(0, text@.len() as int) =~= lowered(text@));
    }
    r
}

/// A decimal value grows by a digit as the text does.
pub proof fn lemma_decimal_value_push(s: Seq<u8>, b: u8)
    requires
        is_digit(b),
    ensures
        decimal_value(s.push(b)) == decimal_value(s) * 10 + (b - 0x30),
{
    assert(s.push(b).drop_last() =~= s);
}

/// A longer number is no smaller than the number it begins with.
pub proof fn lemma_decimal_value_prefix(s: Seq<u8>, n: int)
    requires
        0 <= n <= s.len(),
        all_digits(s),
    ensures
        decimal_value(s.subrange(0, n)) <= decimal_value(s),
    decreases s.len() - n,
{
    if n < s.len() {
        lemma_decimal_value_prefix(s, n + 1);
        assert(s.subrange(0, n + 1).drop_last() =~= s.subrange(0, n));
        assert(is_digit(s[n]));
    } else {
        assert(s.subrange(0, n) =~= s);
    }
}

/// Reads a decimal number as `str::parse::<usize>` does: an optional plus
/// sign, then digits only, and a value that fits the machine word.
pub fn parse_usize(text: &[u8]) -> (r: Option<usize>)
    ensures
        r == parsed_usize(text@),
{
    let n = text.len();
    let first: usize = if n > 0 && text[0] == 0x2b {
        1
    } else {
        0
    };
    let ghost digits = unsigned_digits(text@);
    proof {
        assert(digits =~= text@.subrange(first as int, n as int));
    }
    if first == n {
        return None;
    }
    let mut value: usize = 0;
    let mut i: usize = first;
    while i < n
        invariant
            first <= i <= n,
            n == text@.len(),
            digits == text@.subrange(first as int, n as int),
            digits == unsigned_digits(text@),
            all_digits(digits.subrange(0, i - first)),
            value == decimal_value(digits.subrange(0, i - first)),
        decreases n - i,
    {
        let b = text[i];
        let ghost seen = digits.subrange(0, i - first);
        proof {
            assert(digits[i - first] == b);
            assert(digits.subrange(0, i - first + 1) =~= seen.push(b));
        }
        if b < 0x30 || b > 0x39 {
            proof {
                assert(!is_digit(digits[i - first]));
            }
            return None;
        }
        proof {
            lemma_decimal_value_push(seen, b);
        }
        let d: usize = (b - 0x30) as usize;
        if value > (usize::MAX - d) / 10 {
            proof {
                if all_digits(digits) {
                    lemma_decimal_value_prefix(digits, i - first + 1);
                }
            }
            return None;
        }
        value = value * 10 + d;
        i = i + 1;
    }
    proof {
        assert(digits.subrange(0, n - first) =~= digits);
    }
    Some(value)
}

} // verus!
