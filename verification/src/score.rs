//! Fractional scores as exact fixed-point values.
//!
//! A score in `[0, 1]` is held as an integer number of millionths
//! ([`SCORE_UNIT`] is the value one), so that checker verdicts and subtask
//! totals are computed exactly, with no floating-point rounding.  Decimal
//! score texts such as `0.12` are read to six fractional digits; further
//! digits are ignored, and any value of one or more reads as one.

use vstd::prelude::*;

use crate::text::{is_digit, spec_is_digit};

verus! {

/// The fixed-point representation of the score `1.0`.
pub const SCORE_UNIT: u64 = 1000000;

/// True when `s` is a decimal score token: digits with at most one decimal
/// point, and at least one digit.
pub open spec fn is_score_token(s: Seq<u8>) -> bool {
    &&& forall|i: int| 0 <= i < s.len() ==> (spec_is_digit(s[i]) || s[i] == 0x2e)
    &&& forall|i: int, j: int|
        0 <= i < s.len() && 0 <= j < s.len() && s[i] == 0x2e && s[j] == 0x2e ==> i == j
    &&& exists|i: int| 0 <= i < s.len() && spec_is_digit(#[trigger] s[i])
}

/// Position of the decimal point of `s`, or `s.len()` when there is none.
pub open spec fn spec_dot_pos(s: Seq<u8>) -> int {
    if s.contains(0x2e) {
        s.index_of_first(0x2e).unwrap()
    } else {
        s.len() as int
    }
}

/// The digits before the decimal point.
pub open spec fn spec_int_part(s: Seq<u8>) -> Seq<u8> {
    if 0 <= spec_dot_pos(s) <= s.len() {
        s.subrange(0, spec_dot_pos(s))
    } else {
        s
    }
}

/// The digits after the decimal point.
pub open spec fn spec_frac_part(s: Seq<u8>) -> Seq<u8> {
    if 0 <= spec_dot_pos(s) < s.len() {
        s.subrange(spec_dot_pos(s) + 1, s.len() as int)
    } else {
        Seq::empty()
    }
}

/// Value of the fractional digit at position `i`, or `0` past the end.
pub open spec fn spec_frac_digit(s: Seq<u8>, i: int) -> int {
    if 0 <= i < s.len() {
        s[i] - 0x30
    } else {
        0
    }
}

/// The first six fractional digits read as millionths.
pub open spec fn spec_frac_micros(s: Seq<u8>) -> int {
    spec_frac_digit(s, 0) * 100000 + spec_frac_digit(s, 1) * 10000 + spec_frac_digit(s, 2) * 1000
        + spec_frac_digit(s, 3) * 100 + spec_frac_digit(s, 4) * 10 + spec_frac_digit(s, 5)
}

/// True when some digit of `s` is not zero.
pub open spec fn spec_has_nonzero(s: Seq<u8>) -> bool {
    exists|i: int| 0 <= i < s.len() && s[i] != 0x30
}

/// Value in millionths of a score token, already clamped to `[0, 1]`: one
/// when the integer part is not zero, else the fractional digits.
pub open spec fn spec_score_value(s: Seq<u8>) -> int {
    if spec_has_nonzero(spec_int_part(s)) {
        SCORE_UNIT as int
    } else {
        spec_frac_micros(spec_frac_part(s))
    }
}

/// The score a decimal token denotes, in millionths clamped to `[0, 1]`,
/// or `None` when the token is not a decimal number.
pub open spec fn spec_parse_score(s: Seq<u8>) -> Option<int> {
    if is_score_token(s) {
        Some(spec_score_value(s))
    } else {
        None
    }
}

/// Every score a token denotes lies within `[0, 1]`.
pub proof fn lemma_score_value_bounds(s: Seq<u8>)
    requires
        is_score_token(s),
    ensures
        0 <= spec_score_value(s) <= SCORE_UNIT as int,
{
    if !spec_has_nonzero(spec_int_part(s)) {
        let fp = spec_frac_part(s);
        assert forall|i: int| 0 <= i < 6 implies 0 <= #[trigger] spec_frac_digit(fp, i) <= 9 by {
            if 0 <= i < fp.len() {
                let dot = spec_dot_pos(s);
                if s.contains(0x2e) {
                    s.index_of_first_ensures(0x2e);
                    assert(s[dot] == 0x2e);
                    assert(fp[i] == s[dot + 1 + i]);
                    if s[dot + 1 + i] == 0x2e {
                        assert(dot + 1 + i == dot);
                    }
                    assert(spec_is_digit(fp[i]));
                } else {
                    assert(fp.len() == 0);
                }
            }
        }
    }
}

/// Whatever `parse_score` accepts lies within `[0, 1]`.
pub proof fn lemma_parse_score_bounds(s: Seq<u8>)
    ensures
        match spec_parse_score(s) {
            Some(v) => 0 <= v <= SCORE_UNIT as int,
            None => true,
        },
{
    if is_score_token(s) {
        lemma_score_value_bounds(s);
    }
}

/// Reads a decimal score token (digits with at most one decimal point and at
/// least one digit) as an exact count of millionths, clamped to `[0, 1]`.
/// Returns `None` on any other text.
pub fn parse_score(s: &[u8]) -> (r: Option<u64>)
    ensures
        match r {
            Some(v) => spec_parse_score(s@) == Some(v as int) && v <= SCORE_UNIT,
            None => spec_parse_score(s@) is None,
        },
{
    let n = s.len();
    let mut dot: usize = n;
    let mut seen_digit = false;
    let mut i: usize = 0;
    while i < n
        invariant
            0 <= i <= n == s@.len(),
            forall|j: int| 0 <= j < i ==> (spec_is_digit(s@[j]) || s@[j] == 0x2e),
            dot == n || (0 <= dot < i && s@[dot as int] == 0x2e),
            forall|j: int| 0 <= j < i && s@[j] == 0x2e ==> j == dot,
            seen_digit == exists|j: int| 0 <= j < i && spec_is_digit(#[trigger] s@[j]),
        decreases n - i,
    {
        let b = s[i];
        if b == 0x2e {
            if dot != n {
                assert(!is_score_token(s@)) by {
                    assert(s@[dot as int] == 0x2e && s@[i as int] == 0x2e);
                }
                return None;
            }
            dot = i;
        } else if is_digit(b) {
            seen_digit = true;
        } else {
            assert(!is_score_token(s@));
            return None;
        }
        i += 1;
    }
    if !seen_digit {
        assert(!is_score_token(s@));
        return None;
    }
    assert(is_score_token(s@));
    proof {
        if dot < n {
            s@.index_of_first_ensures(0x2e);
            assert(s@.contains(0x2e));
            let k = s@.index_of_first(0x2e).unwrap();
            assert(s@[k] == 0x2e);
            assert(k == dot);
            assert(spec_dot_pos(s@) == dot);
        } else {
            assert(forall|j: int| 0 <= j < s@.len() ==> s@[j] != 0x2e);
            assert(!s@.contains(0x2e));
            assert(spec_dot_pos(s@) == n);
        }
    }
    // integer part: any nonzero digit means a value of at least one
    let mut nonzero = false;
    let mut j: usize = 0;
    while j < dot
        invariant
            0 <= j <= dot <= n == s@.len(),
            spec_dot_pos(s@) == dot,
            nonzero == exists|k: int| 0 <= k < j && s@[k] != 0x30,
        decreases dot - j,
    {
        if s[j] != 0x30 {
            nonzero = true;
        }
        j += 1;
    }
    let ghost ip = spec_int_part(s@);
    proof {
        assert(ip =~= s@.subrange(0, dot as int));
        assert(spec_has_nonzero(ip) == nonzero) by {
            if nonzero {
                let k = choose|k: int| 0 <= k < dot && s@[k] != 0x30;
                assert(ip[k] != 0x30);
            }
            if spec_has_nonzero(ip) {
                let k = choose|k: int| 0 <= k < ip.len() && ip[k] != 0x30;
                assert(s@[k] != 0x30);
            }
        }
    }
    if nonzero {
        return Some(SCORE_UNIT);
    }
    // fractional part: the first six digits as millionths
    let ghost fp = spec_frac_part(s@);
    let mut v: u64 = 0;
    if dot < n {
        proof {
            assert(fp =~= s@.subrange(dot + 1 as int, s@.len() as int));
        }
        let start = dot + 1;
        let mut d: Vec<u64> = Vec::new();
        let mut k: usize = 0;
        while k < 6
            invariant
                0 <= k <= 6,
                start == dot + 1 <= n == s@.len(),
                fp == s@.subrange(dot + 1 as int, s@.len() as int),
                spec_dot_pos(s@) == dot < n,
                s@[dot as int] == 0x2e,
                is_score_token(s@),
                d@.len() == k,
                forall|m: int| 0 <= m < k ==> d@[m] == spec_frac_digit(fp, m),
            decreases 6 - k,
        {
            if n - start > k {
                proof {
                    if s@[start + k] == 0x2e {
                        assert(start + k == dot);
                    }
                }
                assert(spec_is_digit(s@[start + k]));
                assert(fp[k as int] == s@[start + k]);
                d.push((s[start + k] - 0x30) as u64);
            } else {
                assert(spec_frac_digit(fp, k as int) == 0);
                d.push(0);
            }
            k += 1;
        }
        proof {
            assert(forall|m: int| 0 <= m < 6 ==> 0 <= #[trigger] spec_frac_digit(fp, m) <= 9);
        }
        v = d[0] * 100000 + d[1] * 10000 + d[2] * 1000 + d[3] * 100 + d[4] * 10 + d[5];
        proof {
            assert(v as int == spec_frac_micros(fp));
        }
    } else {
        proof {
            assert(fp =~= Seq::<u8>::empty());
            assert(spec_frac_micros(fp) == 0);
        }
    }
    assert(v as int == spec_score_value(s@));
    Some(v)
}

} // verus!
