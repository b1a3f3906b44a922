//! How the construction parameters of a histogram fix the shape of its
//! counts array.

use vstd::prelude::*;
use vstd::arithmetic::power2::*;
use vstd::arithmetic::div_mod::*;
use vstd::bits::*;
use crate::index::{
    buckets_needed_of,
    ceil_log2,
    floor_log2,
    lemma_floor_log2_bounds,
    lemma_floor_log2_unique,
    lemma_value_at_bucket_start,
    lemma_value_at_index_monotone,
    value_at_index,
};

verus! {

/// Ten to the power of `d`.
pub open spec fn pow10(d: nat) -> nat
    decreases d,
{
    if d == 0 {
        1
    } else {
        10 * pow10((d - 1) as nat)
    }
}

/// The unit magnitude of a histogram whose smallest discernible value is
/// `lowest`: the exponent of the largest power of two that is at most `lowest`.
pub open spec fn unit_magnitude_of(lowest: u64) -> nat {
    floor_log2(lowest as nat)
}

/// The half-count magnitude of a histogram with `digits` significant decimal
/// digits: one less than the exponent of the smallest power of two that holds
/// `2 * 10^digits` sub-buckets.
pub open spec fn half_count_magnitude_of(digits: u32) -> nat {
    let m = ceil_log2(2 * pow10(digits as nat));
    if m > 1 {
        (m - 1) as nat
    } else {
        0
    }
}

/// The number of buckets of a histogram with these parameters.
pub open spec fn bucket_count_of(lowest: u64, highest: u64, digits: u32) -> nat {
    buckets_needed_of(
        highest as nat,
        pow2(unit_magnitude_of(lowest) + half_count_magnitude_of(digits) + 1),
    )
}

/// The number of slots of a histogram with these parameters.
pub open spec fn counts_len_of(lowest: u64, highest: u64, digits: u32) -> nat {
    (bucket_count_of(lowest, highest, digits) + 1) * pow2(half_count_magnitude_of(digits))
}

/// The parameters that a histogram can be made with: a smallest discernible
/// value of at least 1, a highest trackable value of at least twice that, at
/// most five significant digits, and a first bucket that ends within 64 bits.
pub open spec fn valid_parameters(lowest: u64, highest: u64, digits: u32) -> bool {
    &&& lowest >= 1
    &&& highest >= 2 * lowest
    &&& digits <= 5
    &&& unit_magnitude_of(lowest) + half_count_magnitude_of(digits) <= 62
}

/// The half-count magnitudes of the six precisions.
pub proof fn lemma_half_count_magnitude_values()
    ensures
        half_count_magnitude_of(0) == 0,
        half_count_magnitude_of(1) == 4,
        half_count_magnitude_of(2) == 7,
        half_count_magnitude_of(3) == 10,
        half_count_magnitude_of(4) == 14,
        half_count_magnitude_of(5) == 17,
{
    reveal_with_fuel(pow10, 6);
    lemma2_to64();
    lemma_floor_log2_unique(1, 0);
    lemma_floor_log2_unique(19, 4);
    lemma_floor_log2_unique(199, 7);
    lemma_floor_log2_unique(1999, 10);
    lemma_floor_log2_unique(19999, 14);
    lemma_floor_log2_unique(199999, 17);
}

/// With valid parameters the magnitudes are small, the array is short, and
/// the last bucket ends within 64 bits.
pub proof fn lemma_layout_bounds(lowest: u64, highest: u64, digits: u32)
    requires
        valid_parameters(lowest, highest, digits),
    ensures
        unit_magnitude_of(lowest) <= 62,
        half_count_magnitude_of(digits) <= 17,
        1 <= bucket_count_of(lowest, highest, digits) <= 64,
        unit_magnitude_of(lowest) + half_count_magnitude_of(digits) + bucket_count_of(
            lowest,
            highest,
            digits,
        ) <= 64,
        highest < pow2(
            unit_magnitude_of(lowest) + half_count_magnitude_of(digits) + bucket_count_of(
                lowest,
                highest,
                digits,
            ),
        ),
        2 <= counts_len_of(lowest, highest, digits) <= 65 * 0x20000,
        counts_len_of(lowest, highest, digits) >= 2 * pow2(half_count_magnitude_of(digits)),
{
    let um = unit_magnitude_of(lowest);
    let hm = half_count_magnitude_of(digits);
    let first = pow2(um + hm + 1);
    let k = bucket_count_of(lowest, highest, digits);
    lemma_half_count_magnitude_values();
    lemma_pow2_pos(um + hm + 1);
    lemma_buckets_needed(highest as nat, first);
    lemma_pow2_pos(hm);
    lemma2_to64();
    lemma2_to64_rest();
    assert(um + hm + k == (um + hm + 1) + (k - 1) as nat);
    lemma_pow2_adds(um + hm + 1, (k - 1) as nat);
    if k > 1 {
        // first * 2^(k - 2) <= highest < 2^64
        assert(um + hm + k - 1 == (um + hm + 1) + (k - 2) as nat);
        lemma_pow2_adds(um + hm + 1, (k - 2) as nat);
        if um + hm + k - 1 >= 64 {
            if um + hm + k - 1 > 64 {
                lemma_pow2_strictly_increases(64, (um + hm + k - 1) as nat);
            }
            assert(false);
        }
    }
    let h = pow2(hm) as int;
    if hm < 17 {
        lemma_pow2_strictly_increases(hm, 17);
    }
    assert((k + 1) * h <= 65 * 0x20000 && (k + 1) * h >= 2 * h) by (nonlinear_arith)
        requires
            1 <= k <= 64,
            0 < h <= 0x20000,
    ;
}

/// The first value beyond the last slot: where the last bucket ends.
pub open spec fn top_value_of(lowest: u64, highest: u64, digits: u32) -> nat {
    pow2(
        unit_magnitude_of(lowest) + half_count_magnitude_of(digits) + bucket_count_of(
            lowest,
            highest,
            digits,
        ),
    )
}

/// The smallest value of every slot of the array is below the end of the
/// last bucket, which is where the slot after the last one would start.
pub proof fn lemma_values_below_top(lowest: u64, highest: u64, digits: u32, i: nat)
    requires
        valid_parameters(lowest, highest, digits),
        i <= counts_len_of(lowest, highest, digits),
    ensures
        value_at_index(
            counts_len_of(lowest, highest, digits),
            unit_magnitude_of(lowest),
            half_count_magnitude_of(digits),
        ) == top_value_of(lowest, highest, digits),
        top_value_of(lowest, highest, digits) <= 0x1_0000_0000_0000_0000,
        highest < top_value_of(lowest, highest, digits),
        i < counts_len_of(lowest, highest, digits) ==> value_at_index(
            i + 1,
            unit_magnitude_of(lowest),
            half_count_magnitude_of(digits),
        ) <= top_value_of(lowest, highest, digits),
        value_at_index(i, unit_magnitude_of(lowest), half_count_magnitude_of(digits))
            <= top_value_of(lowest, highest, digits),
{
    let um = unit_magnitude_of(lowest);
    let hm = half_count_magnitude_of(digits);
    let k = bucket_count_of(lowest, highest, digits);
    let len = counts_len_of(lowest, highest, digits);
    lemma_layout_bounds(lowest, highest, digits);
    lemma_value_at_bucket_start(k, um, hm);
    lemma_value_at_index_monotone(i, len, um, hm);
    lemma2_to64();
    if um + hm + k < 64 {
        lemma_pow2_strictly_increases(um + hm + k, 64);
    }
}

/// `buckets_needed_of` is the least number of buckets that reaches beyond
/// the value.
pub proof fn lemma_buckets_needed(value: nat, first_limit: nat)
    requires
        first_limit >= 1,
    ensures
        buckets_needed_of(value, first_limit) >= 1,
        value < first_limit * pow2((buckets_needed_of(value, first_limit) - 1) as nat),
        buckets_needed_of(value, first_limit) > 1 ==> first_limit * pow2(
            (buckets_needed_of(value, first_limit) - 2) as nat,
        ) <= value,
{
    lemma2_to64();
    assert(first_limit * pow2(0) == first_limit) by (nonlinear_arith)
        requires
            pow2(0) == 1,
    ;
    if value >= first_limit {
        let q = value / first_limit;
        let f = floor_log2(q);
        assert((buckets_needed_of(value, first_limit) - 1) as nat == f + 1);
        assert((buckets_needed_of(value, first_limit) - 2) as nat == f);
        assert(first_limit * q == q * first_limit) by (nonlinear_arith);
        lemma_fundamental_div_mod(value as int, first_limit as int);
        lemma_mod_bound(value as int, first_limit as int);
        lemma_div_is_ordered(first_limit as int, value as int, first_limit as int);
        lemma_div_by_self(first_limit as int);
        lemma_floor_log2_bounds(q);
        assert(first_limit * pow2(f) <= first_limit * q) by (nonlinear_arith)
            requires
                pow2(f) <= q,
        ;
        assert(first_limit * pow2(f + 1) >= first_limit * (q + 1)) by (nonlinear_arith)
            requires
                pow2(f + 1) >= q + 1,
        ;
        assert(first_limit * (q + 1) == first_limit * q + first_limit) by (nonlinear_arith);
    }
}

/// A number of buckets that reaches beyond the value, while one bucket less
/// does not, is `buckets_needed_of`.
pub proof fn lemma_buckets_needed_unique(value: nat, first_limit: nat, k: nat)
    requires
        first_limit >= 1,
        k >= 1,
        value < first_limit * pow2((k - 1) as nat),
        k > 1 ==> first_limit * pow2((k - 2) as nat) <= value,
    ensures
        buckets_needed_of(value, first_limit) == k,
{
    lemma2_to64();
    assert(first_limit * pow2(0) == first_limit) by (nonlinear_arith)
        requires
            pow2(0) == 1,
    ;
    if k == 1 {
    } else {
        let e = (k - 2) as nat;
        lemma_pow2_pos(e);
        assert(first_limit * pow2(e) >= first_limit) by (nonlinear_arith)
            requires
                pow2(e) >= 1,
        ;
        let q = value / first_limit;
        lemma_fundamental_div_mod(value as int, first_limit as int);
        lemma_mod_bound(value as int, first_limit as int);
        assert(pow2(e) <= q) by {
            lemma_div_is_ordered(
                (first_limit * pow2(e)) as int,
                value as int,
                first_limit as int,
            );
            assert(first_limit * pow2(e) == pow2(e) * first_limit) by (nonlinear_arith);
            lemma_div_by_multiple(pow2(e) as int, first_limit as int);
        }
        assert(q < pow2(e + 1)) by {
            assert((k - 1) as nat == e + 1);
            assert(first_limit * pow2(e + 1) == pow2(e + 1) * first_limit) by (nonlinear_arith);
            lemma_multiply_divide_lt(value as int, first_limit as int, pow2(e + 1) as int);
        }
        lemma_floor_log2_unique(q, e);
    }
}

/// The number of buckets that it takes to hold `value`, where bucket 0 has
/// `sub_bucket_count` sub-buckets of `2^unit_magnitude` values each.
pub fn buckets_needed_for_value(value: u64, sub_bucket_count: usize, unit_magnitude: u32) -> (r:
    usize)
    requires
        sub_bucket_count >= 1,
        sub_bucket_count * pow2(unit_magnitude as nat) <= u64::MAX,
    ensures
        r == buckets_needed_of(
            value as nat,
            (sub_bucket_count * pow2(unit_magnitude as nat)) as nat,
        ),
        1 <= r <= 65,
{
    let ghost first = (sub_bucket_count * pow2(unit_magnitude as nat)) as nat;
    proof {
        lemma2_to64();
        lemma2_to64_rest();
        lemma_pow2_pos(unit_magnitude as nat);
        assert(first >= 1 && first >= pow2(unit_magnitude as nat) && first >= sub_bucket_count)
            by (nonlinear_arith)
            requires
                first == sub_bucket_count * pow2(unit_magnitude as nat),
                sub_bucket_count >= 1,
                pow2(unit_magnitude as nat) >= 1,
        ;
        assert(first * pow2(0) == first) by (nonlinear_arith)
            requires
                pow2(0) == 1,
        ;
        if unit_magnitude >= 64 {
            if unit_magnitude > 64 {
                lemma_pow2_strictly_increases(64, unit_magnitude as nat);
            }
            assert(false);
        }
        lemma_u64_shl_is_mul(sub_bucket_count as u64, unit_magnitude as u64);
    }
    let mut smallest_untrackable_value: u64 = (sub_bucket_count as u64) << (unit_magnitude as u64);
    let mut buckets_needed: usize = 1;
    while smallest_untrackable_value <= value
        invariant
            first >= 1,
            first == (sub_bucket_count * pow2(unit_magnitude as nat)) as nat,
            1 <= buckets_needed <= 64,
            smallest_untrackable_value == first * pow2((buckets_needed - 1) as nat),
            buckets_needed > 1 ==> first * pow2((buckets_needed - 2) as nat) <= value,
        decreases 64 - buckets_needed,
    {
        proof {
            lemma_pow2_unfold(buckets_needed as nat);
            assert(first * (2 * pow2((buckets_needed - 1) as nat)) == 2 * (first * pow2(
                (buckets_needed - 1) as nat,
            ))) by (nonlinear_arith);
        }
        if smallest_untrackable_value > u64::MAX / 2 {
            proof {
                lemma_buckets_needed_unique(value as nat, first, (buckets_needed + 1) as nat);
            }
            return buckets_needed + 1;
        }
        proof {
            // the doubled limit fits in 64 bits, so there are at most 63 buckets yet
            lemma2_to64_rest();
            if buckets_needed >= 64 {
                assert(first * pow2(63) >= pow2(63)) by (nonlinear_arith)
                    requires
                        first >= 1,
                ;
                assert(false);
            }
            assert(smallest_untrackable_value << 1u64 == 2 * smallest_untrackable_value)
                by (bit_vector)
                requires
                    smallest_untrackable_value <= 0x7fff_ffff_ffff_ffffu64,
            ;
        }
        smallest_untrackable_value = smallest_untrackable_value << 1u64;
        buckets_needed += 1;
    }
    proof {
        lemma_buckets_needed_unique(value as nat, first, buckets_needed as nat);
    }
    buckets_needed
}

/// The number of slots of `buckets` buckets of `sub_bucket_count` sub-buckets:
/// the whole first bucket and the upper half of each other one.
pub fn counts_arr_len_for_buckets(buckets: usize, sub_bucket_count: usize) -> (r: usize)
    requires
        (buckets + 1) * (sub_bucket_count / 2) <= usize::MAX,
    ensures
        r == (buckets + 1) * (sub_bucket_count / 2),
{
    let half = sub_bucket_count / 2;
    if half == 0 {
        proof {
            assert((buckets + 1) * 0 == 0) by (nonlinear_arith);
        }
        return 0;
    }
    proof {
        assert(buckets + 1 <= usize::MAX) by (nonlinear_arith)
            requires
                (buckets + 1) * half <= usize::MAX,
                half >= 1,
        ;
    }
    (buckets + 1) * half
}

/// The number of slots that it takes to hold `value`.
pub fn counts_arr_len(value: u64, sub_bucket_count: usize, unit_magnitude: u32) -> (r: usize)
    requires
        sub_bucket_count >= 1,
        sub_bucket_count * pow2(unit_magnitude as nat) <= u64::MAX,
        (buckets_needed_of(
            value as nat,
            (sub_bucket_count * pow2(unit_magnitude as nat)) as nat,
        ) + 1) * (sub_bucket_count / 2) <= usize::MAX,
    ensures
        r == (buckets_needed_of(
            value as nat,
            (sub_bucket_count * pow2(unit_magnitude as nat)) as nat,
        ) + 1) * (sub_bucket_count / 2),
{
    let buckets = buckets_needed_for_value(value, sub_bucket_count, unit_magnitude);
    counts_arr_len_for_buckets(buckets, sub_bucket_count)
}

} // verus!
