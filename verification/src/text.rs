//! Verified text helpers: equality, substring search, and case-insensitive
//! substring search over character sequences.
//!
//! The remote service's state vocabulary is not stable across versions, so
//! the polling engine matches state names case-insensitively and by
//! substring; the deletion path recognises "not found" replies by searching
//! the error text. Both searches are implemented and verified here.

use vstd::prelude::*;

verus! {

/// Character code with an upper-case Latin letter folded to lower case.
pub open spec fn lower_code(c: char) -> int {
    if 65 <= c as int && c as int <= 90 {
        c as int + 32
    } else {
        c as int
    }
}

/// Case-insensitive character equality (ASCII folding).
pub open spec fn chars_eq_ci(a: char, b: char) -> bool {
    lower_code(a) == lower_code(b)
}

/// The pattern occurs in `s` at position `i`, character for character.
pub open spec fn matches_at(s: Seq<char>, pat: Seq<char>, i: int) -> bool {
    forall|j: int| 0 <= j < pat.len() ==> s[i + j] == pat[j]
}

/// The pattern occurs somewhere in `s`, character for character.
pub open spec fn str_has(s: Seq<char>, pat: Seq<char>) -> bool {
    exists|i: int| 0 <= i && i + pat.len() <= s.len() && #[trigger] matches_at(s, pat, i)
}

/// The pattern occurs in `s` at position `i`, up to case folding.
pub open spec fn matches_at_ci(s: Seq<char>, pat: Seq<char>, i: int) -> bool {
    forall|j: int| 0 <= j < pat.len() ==> chars_eq_ci(s[i + j], pat[j])
}

/// The pattern occurs somewhere in `s`, up to case folding.
pub open spec fn str_has_ci(s: Seq<char>, pat: Seq<char>) -> bool {
    exists|i: int| 0 <= i && i + pat.len() <= s.len() && #[trigger] matches_at_ci(s, pat, i)
}

/// Character-wise string equality.
pub fn str_eq(a: &str, b: &str) -> (r: bool)
    ensures
        r == (a@ == b@),
{
    let n = a.unicode_len();
    let m = b.unicode_len();
    if n != m {
        return false;
    }
    let mut i: usize = 0;
    while i < n
        invariant
            n == a@.len(),
            n == b@.len(),
            i <= n,
            forall|k: int| 0 <= k < i ==> a@[k] == b@[k],
        decreases n - i,
    {
        if a.get_char(i) != b.get_char(i) {
            return false;
        }
        i = i + 1;
    }
    proof {
        assert(a@ =~= b@);
    }
    true
}

/// Whether `pat` occurs in `s` as a contiguous substring.
pub fn str_contains(s: &str, pat: &str) -> (r: bool)
    ensures
        r == str_has(s@, pat@),
{
    let n = s.unicode_len();
    let m = pat.unicode_len();
    if m > n {
        return false;
    }
    let mut i: usize = 0;
    while i <= n - m
        invariant
            n == s@.len(),
            m == pat@.len(),
            m <= n,
            i <= n - m + 1,
            forall|k: int| 0 <= k < i ==> !matches_at(s@, pat@, k),
        decreases n - m + 1 - i,
    {
        let mut j: usize = 0;
        let mut hit = true;
        while j < m
            invariant
                n == s@.len(),
                m == pat@.len(),
                m <= n,
                i <= n - m,
                j <= m,
                hit ==> forall|k: int| 0 <= k < j ==> s@[i + k] == pat@[k],
                !hit ==> !matches_at(s@, pat@, i as int),
            decreases m - j,
        {
            if s.get_char(i + j) != pat.get_char(j) {
                proof {
                    assert(!matches_at(s@, pat@, i as int)) by {
                        assert(s@[i + j] != pat@[j as int]);
                    }
                }
                hit = false;
                j = m;
            } else {
                j = j + 1;
            }
        }
        if hit {
            proof {
                assert(matches_at(s@, pat@, i as int));
            }
            return true;
        }
        i = i + 1;
    }
    proof {
        assert(forall|k: int| 0 <= k && k + pat@.len() <= s@.len() ==> !matches_at(s@, pat@, k));
    }
    false
}

/// Whether `pat` occurs in `s` as a contiguous substring, ignoring the case
/// of Latin letters.
pub fn str_contains_ci(s: &str, pat: &str) -> (r: bool)
    ensures
        r == str_has_ci(s@, pat@),
{
    let n = s.unicode_len();
    let m = pat.unicode_len();
    if m > n {
        return false;
    }
    let mut i: usize = 0;
    while i <= n - m
        invariant
            n == s@.len(),
            m == pat@.len(),
            m <= n,
            i <= n - m + 1,
            forall|k: int| 0 <= k < i ==> !matches_at_ci(s@, pat@, k),
        decreases n - m + 1 - i,
    {
        let mut j: usize = 0;
        let mut hit = true;
        while j < m
            invariant
                n == s@.len(),
                m == pat@.len(),
                m <= n,
                i <= n - m,
                j <= m,
                hit ==> forall|k: int| 0 <= k < j ==> chars_eq_ci(s@[i + k], pat@[k]),
                !hit ==> !matches_at_ci(s@, pat@, i as int),
            decreases m - j,
        {
            if !char_eq_ci(s.get_char(i + j), pat.get_char(j)) {
                proof {
                    assert(!matches_at_ci(s@, pat@, i as int)) by {
                        assert(!chars_eq_ci(s@[i + j], pat@[j as int]));
                    }
                }
                hit = false;
                j = m;
            } else {
                j = j + 1;
            }
        }
        if hit {
            proof {
                assert(matches_at_ci(s@, pat@, i as int));
            }
            return true;
        }
        i = i + 1;
    }
    proof {
        assert(forall|k: int| 0 <= k && k + pat@.len() <= s@.len() ==> !matches_at_ci(s@, pat@, k));
    }
    false
}

/// Case-insensitive character comparison (ASCII folding).
fn char_eq_ci(a: char, b: char) -> (r: bool)
    ensures
        r == chars_eq_ci(a, b),
{
    let au = a as u32;
    let bu = b as u32;
    let af = if 65 <= au && au <= 90 {
        au + 32
    } else {
        au
    };
    let bf = if 65 <= bu && bu <= 90 {
        bu + 32
    } else {
        bu
    };
    af == bf
}

} // verus!
