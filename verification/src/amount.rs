//! Monetary amounts as fixed-point decimals.
//!
//! An [`Amount`] is a signed count of millionths of a currency unit, so the
//! engine works with six decimal places internally and rounds statements to
//! four. All balance arithmetic is exact integer arithmetic; rounding happens
//! only when a statement snapshot is taken.

use vstd::prelude::*;
use vstd::arithmetic::div_mod::{lemma_fundamental_div_mod, lemma_fundamental_div_mod_converse};

verus! {

/// A signed fixed-point decimal with six decimal places, stored as a count of
/// millionths of a currency unit.
pub type Amount = i64;

/// How many [`Amount`] steps make one whole currency unit.
pub const MICROS_PER_UNIT: i64 = 1_000_000;

/// Rounding of `v` to the nearest multiple of 100 (that is, of a count of
/// millionths to four decimal places), ties going to the even multiple
/// (banker's rounding). Division and remainder here are Euclidean, so the
/// definition covers negative values uniformly.
pub open spec fn spec_round4(v: int) -> int {
    let q = v / 100;
    let r = v % 100;
    if r < 50 {
        100 * q
    } else if r > 50 {
        100 * (q + 1)
    } else if q % 2 == 0 {
        100 * q
    } else {
        100 * (q + 1)
    }
}

/// Negating a number preserves whether it is even.
proof fn lemma_neg_parity(x: int)
    ensures
        ((-x) % 2 == 0) <==> (x % 2 == 0),
{
    let q = x / 2;
    let r = x % 2;
    lemma_fundamental_div_mod(x, 2);
    if r == 0 {
        lemma_fundamental_div_mod_converse(-x, 2, -q, 0);
    } else {
        lemma_fundamental_div_mod_converse(-x, 2, -q - 1, 1);
    }
}

/// Rounds an amount to four decimal places, ties to the even step
/// (banker's rounding), exactly as [`spec_round4`] describes.
pub fn round_dp4(v: i64) -> (r: i64)
    ensures
        r as int == spec_round4(v as int),
{
    if v >= 0 {
        let u = v as u64;
        let q = u / 100;
        let rem = u % 100;
        proof {
            lemma_fundamental_div_mod(v as int, 100);
            lemma_fundamental_div_mod_converse(v as int, 100, q as int, rem as int);
        }
        if rem < 50 || (rem == 50 && q % 2 == 0) {
            let down = q * 100;
            down as i64
        } else {
            let up = (q + 1) * 100;
            up as i64
        }
    } else if v == i64::MIN {
        proof {
            lemma_fundamental_div_mod_converse(v as int, 100, -92233720368547759int, 92);
        }
        -9223372036854775800i64
    } else {
        let n = (-v) as u64;
        let qn = n / 100;
        let rn = n % 100;
        proof {
            lemma_fundamental_div_mod(n as int, 100);
        }
        if rn == 0 {
            proof {
                lemma_fundamental_div_mod_converse(v as int, 100, -(qn as int), 0);
            }
            v
        } else {
            let rf = 100 - rn;
            proof {
                lemma_fundamental_div_mod_converse(v as int, 100, -(qn as int) - 1, rf as int);
                lemma_neg_parity(qn as int + 1);
            }
            if rf < 50 || (rf == 50 && (qn + 1) % 2 == 0) {
                // Down to the multiple of 100 just below `v`; it cannot fall
                // below `i64::MIN`, which is 8 above a multiple of 100.
                v - (rf as i64)
            } else {
                v + (rn as i64)
            }
        }
    }
}

} // verus!
