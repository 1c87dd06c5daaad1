//! Decoding of polymorphic numeric reply fields.
//!
//! The remote service may send a count as a number, as a decimal string,
//! or not at all. The ambiguity is resolved here, in one verified step
//! producing a canonical signed integer, so nothing past the gateway
//! boundary ever handles it: an unparsable or out-of-range string decodes
//! to zero, exactly like a missing field.

use vstd::prelude::*;

verus! {

/// A count field as it may arrive from the remote service.
#[derive(Debug, Clone)]
pub enum CountValue {
    /// The count came as a decimal string.
    Text(String),
    /// The count came as a number.
    Number(i64),
    /// The field was missing or null.
    Absent,
}

/// A decimal digit.
pub open spec fn is_digit(c: char) -> bool {
    '0' <= c && c <= '9'
}

/// Numeric value of a digit character.
pub open spec fn digit_val(c: char) -> int {
    c as int - 48
}

/// Every character is a decimal digit.
pub open spec fn all_digits(s: Seq<char>) -> bool {
    forall|i: int| 0 <= i < s.len() ==> is_digit(#[trigger] s[i])
}

/// Value of a digit string read in base ten.
pub open spec fn digits_value(s: Seq<char>) -> int
    decreases s.len(),
{
    if s.len() == 0 {
        0
    } else {
        digits_value(s.drop_last()) * 10 + digit_val(s.last())
    }
}

/// A digit string's value is not negative.
proof fn lemma_digits_nonneg(s: Seq<char>)
    requires
        all_digits(s),
    ensures
        digits_value(s) >= 0,
    decreases s.len(),
{
    if s.len() > 0 {
        let s0 = s.drop_last();
        assert forall|i: int| 0 <= i < s0.len() implies is_digit(#[trigger] s0[i]) by {
            assert(s0[i] == s[i]);
        }
        lemma_digits_nonneg(s0);
        assert(is_digit(s.last()));
    }
}

/// A digit string is worth at least any of its prefixes.
proof fn lemma_digits_prefix(s: Seq<char>, i: int)
    requires
        all_digits(s),
        0 <= i <= s.len(),
    ensures
        digits_value(s.take(i)) <= digits_value(s),
    decreases s.len() - i,
{
    if i == s.len() {
        assert(s.take(i) =~= s);
    } else {
        assert(s.take(i + 1).drop_last() =~= s.take(i));
        assert(s.take(i + 1).last() == s[i]);
        assert forall|k: int| 0 <= k < s.take(i).len() implies is_digit(
            #[trigger] s.take(i)[k],
        ) by {
            assert(s.take(i)[k] == s[k]);
        }
        lemma_digits_nonneg(s.take(i));
        assert(digits_value(s.take(i + 1)) == digits_value(s.take(i)) * 10 + digit_val(s[i]));
        assert(digit_val(s[i]) >= 0);
        lemma_digits_prefix(s, i + 1);
    }
}

/// The integer a string decodes to, exactly as the standard decimal parse
/// reads it: an optional sign followed by at least one digit, within the
/// 64-bit signed range; anything else is worth zero.
pub open spec fn spec_parse_i64(s: Seq<char>) -> int {
    if s.len() == 0 {
        0
    } else if s[0] == '-' {
        let ds = s.skip(1);
        if ds.len() > 0 && all_digits(ds) && -digits_value(ds) >= i64::MIN as int {
            -digits_value(ds)
        } else {
            0
        }
    } else if s[0] == '+' {
        let ds = s.skip(1);
        if ds.len() > 0 && all_digits(ds) && digits_value(ds) <= i64::MAX as int {
            digits_value(ds)
        } else {
            0
        }
    } else {
        if all_digits(s) && digits_value(s) <= i64::MAX as int {
            digits_value(s)
        } else {
            0
        }
    }
}

/// The canonical integer a polymorphic count field stands for.
pub open spec fn spec_count_value(v: CountValue) -> int {
    match v {
        CountValue::Text(s) => spec_parse_i64(s@),
        CountValue::Number(n) => n as int,
        CountValue::Absent => 0,
    }
}

/// Reads a decimal string as a signed 64-bit integer; an unparsable or
/// out-of-range string is worth zero.
pub fn parse_i64_or_zero(s: &str) -> (r: i64)
    ensures
        r as int == spec_parse_i64(s@),
{
    let n = s.unicode_len();
    if n == 0 {
        return 0;
    }
    let c0 = s.get_char(0);
    let negative = c0 == '-';
    let start: usize = if c0 == '-' || c0 == '+' {
        1
    } else {
        0
    };
    let ghost ds: Seq<char> = s@.skip(start as int);
    proof {
        if start == 0 {
            assert(ds =~= s@);
        }
    }
    if start >= n {
        return 0;
    }
    let mut acc: u64 = 0;
    let mut i: usize = start;
    while i < n
        invariant
            n == s@.len(),
            start <= i <= n,
            start <= 1,
            ds == s@.skip(start as int),
            start == 0 ==> ds == s@,
            negative == (s@[0] == '-'),
            start == 0 ==> s@[0] != '-' && s@[0] != '+',
            start == 1 ==> s@[0] == '-' || s@[0] == '+',
            forall|k: int| 0 <= k < i - start ==> is_digit(#[trigger] ds[k]),
            acc == digits_value(ds.take(i - start)),
            acc <= 9223372036854775808u64,
        decreases n - i,
    {
        let c = s.get_char(i);
        let cu = c as u32;
        proof {
            assert(ds[i - start] == s@[i as int]);
            assert(ds.take(i - start + 1).drop_last() =~= ds.take(i - start));
            assert(ds.take(i - start + 1).last() == ds[i - start]);
        }
        if cu < 48 || cu > 57 {
            proof {
                assert(!is_digit(ds[i - start]));
                assert(!all_digits(ds));
            }
            return 0;
        }
        let d = (cu - 48) as u64;
        let next: u128 = acc as u128 * 10 + d as u128;
        if next > 9223372036854775808u128 {
            proof {
                let j = i - start + 1;
                assert(digits_value(ds.take(j as int)) == acc * 10 + d);
                assert(digits_value(ds.take(j as int)) > 9223372036854775808int);
                if all_digits(ds) {
                    lemma_digits_prefix(ds, j as int);
                    assert(digits_value(ds) > 9223372036854775808int);
                }
            }
            return 0;
        }
        acc = next as u64;
        i = i + 1;
    }
    proof {
        assert(ds.take(n - start) =~= ds);
        assert(acc == digits_value(ds));
        assert(all_digits(ds));
    }
    if negative {
        if acc == 9223372036854775808u64 {
            i64::MIN
        } else {
            -(acc as i64)
        }
    } else {
        if acc > 9223372036854775807u64 {
            proof {
                assert(digits_value(ds) == 9223372036854775808int);
            }
            0
        } else {
            proof {
                if start == 0 {
                    assert(ds =~= s@);
                }
            }
            acc as i64
        }
    }
}

/// Resolves a polymorphic count field to its canonical integer.
pub fn decode_count(v: &CountValue) -> (r: i64)
    ensures
        r as int == spec_count_value(*v),
{
    match v {
        CountValue::Text(s) => parse_i64_or_zero(s.as_str()),
        CountValue::Number(n) => *n,
        CountValue::Absent => 0,
    }
}

} // verus!
