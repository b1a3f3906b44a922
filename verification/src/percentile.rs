//! Percentiles as exact fractions.

use vstd::prelude::*;

verus! {

/// A percentile: `100 * part / whole` percent. With `whole == 0` it is no
/// number, and counts as 100 percent where a histogram is asked for a value.
#[derive(Clone, Copy, Debug, PartialEq, Eq, Structural)]
pub struct Percentile {
    /// The numerator of the fraction.
    pub part: u64,
    /// The denominator of the fraction.
    pub whole: u64,
}

/// A percentile that an iteration has stepped to: `100 * part / whole`
/// percent, with parts of up to 128 bits. With `whole == 0` it is no number.
#[derive(Clone, Copy, Debug, PartialEq, Eq, Structural)]
pub struct PercentileLevel {
    /// The numerator of the fraction.
    pub part: u128,
    /// The denominator of the fraction.
    pub whole: u128,
}

impl Percentile {
    /// The percentile is 0 percent.
    pub open spec fn is_zero(self) -> bool {
        self.part == 0 && self.whole != 0
    }

    /// The percentile is 100 percent or more, or no number.
    pub open spec fn is_full(self) -> bool {
        self.part >= self.whole
    }

    /// The percentile is a number, and at most `other`, which is one too.
    pub open spec fn le(self, other: Percentile) -> bool {
        &&& self.whole > 0
        &&& other.whole > 0
        &&& self.part * other.whole <= other.part * self.whole
    }

    /// The number of values, out of `total`, that the percentile asks for:
    /// `total` times the fraction, rounded to the nearest whole number, a half
    /// rounded up; at most `total`, and at least 1.
    pub open spec fn target_count(self, total: u64) -> nat {
        let scaled = if self.is_full() {
            total as int
        } else {
            (2 * self.part * total + self.whole) / (2 * self.whole)
        };
        if scaled < 1 {
            1
        } else {
            scaled as nat
        }
    }

    /// The percentile `100 * part / whole` percent.
    pub fn new(part: u64, whole: u64) -> (r: Percentile)
        ensures
            r.part == part,
            r.whole == whole,
    {
        Percentile { part, whole }
    }

    /// The percentile of `percent` percent.
    pub fn from_percent(percent: u64) -> (r: Percentile)
        ensures
            r.part == percent,
            r.whole == 100,
    {
        Percentile { part: percent, whole: 100 }
    }

    /// The number of values, out of `total`, that the percentile asks for.
    pub fn count_at_percentile(&self, total: u64) -> (r: u64)
        ensures
            r == self.target_count(total),
            1 <= r,
            total >= 1 ==> r <= total,
    {
        let scaled: u64 = if self.part >= self.whole {
            total
        } else {
            proof {
                assert(self.part * total <= 0xffff_ffff_ffff_ffff * 0xffff_ffff_ffff_ffff)
                    by (nonlinear_arith)
                    requires
                        self.part <= 0xffff_ffff_ffff_ffff,
                        total <= 0xffff_ffff_ffff_ffff,
                ;
            }
            let product: u128 = (self.part as u128) * (total as u128);
            let whole: u128 = self.whole as u128;
            let quotient: u128 = product / whole;
            let remainder: u128 = product % whole;
            proof {
                lemma_round_half_up(product as int, whole as int);
                assert(product <= whole * total) by (nonlinear_arith)
                    requires
                        product == self.part * total,
                        self.part < whole,
                ;
                assert(quotient <= total) by (nonlinear_arith)
                    requires
                        product == whole * quotient + remainder,
                        0 <= remainder < whole,
                        product <= whole * total,
                ;
                assert(quotient == total ==> remainder == 0) by (nonlinear_arith)
                    requires
                        product == whole * quotient + remainder,
                        0 <= remainder < whole,
                        product <= whole * total,
                ;
                assert(2 * self.part * total == 2 * product) by (nonlinear_arith)
                    requires
                        product == self.part * total,
                ;
            }
            if 2 * remainder >= whole {
                (quotient + 1) as u64
            } else {
                quotient as u64
            }
        };
        if scaled < 1 {
            1
        } else {
            scaled
        }
    }
}

/// Rounding a fraction to the nearest whole number, a half rounded up, by the
/// quotient and the remainder of its parts.
pub proof fn lemma_round_half_up(n: int, w: int)
    requires
        n >= 0,
        w > 0,
    ensures
        n == w * (n / w) + n % w,
        0 <= n % w < w,
        (2 * n + w) / (2 * w) == n / w + if 2 * (n % w) >= w {
            1int
        } else {
            0int
        },
{
    let q = n / w;
    let r = n % w;
    vstd::arithmetic::div_mod::lemma_fundamental_div_mod(n, w);
    vstd::arithmetic::div_mod::lemma_mod_bound(n, w);
    if 2 * r >= w {
        assert(2 * n + w == (2 * w) * (q + 1) + (2 * r - w)) by (nonlinear_arith)
            requires
                n == w * q + r,
        ;
        vstd::arithmetic::div_mod::lemma_fundamental_div_mod_converse(
            2 * n + w,
            2 * w,
            q + 1,
            2 * r - w,
        );
    } else {
        assert(2 * n + w == (2 * w) * q + (2 * r + w)) by (nonlinear_arith)
            requires
                n == w * q + r,
        ;
        vstd::arithmetic::div_mod::lemma_fundamental_div_mod_converse(
            2 * n + w,
            2 * w,
            q,
            2 * r + w,
        );
    }
}

} // verus!
