//! The mathematics of the counts array: which slot a value falls in, and
//! which values a slot stands for.
//!
//! A layout is given by two numbers. `um`, the unit magnitude, is the
//! exponent of the smallest unit that is told apart: values are first divided
//! by `2^um`. `hm`, the half-count magnitude, is the exponent of half the
//! number of sub-buckets: a bucket has `2^(hm + 1)` sub-buckets. Bucket `b`
//! holds the values below `2^(um + hm + 1 + b)` that no lower bucket holds,
//! in steps of `2^(um + b)`.

use vstd::prelude::*;
use vstd::arithmetic::power2::*;
use vstd::arithmetic::div_mod::*;
use vstd::bits::*;
use vstd::std_specs::bits::*;

verus! {

/// The exponent of the largest power of two that is at most `v`; 0 for 0.
pub open spec fn floor_log2(v: nat) -> nat
    decreases v,
{
    if v <= 1 {
        0
    } else {
        1 + floor_log2(v / 2)
    }
}

/// The exponent of the smallest power of two that is at least `v`.
pub open spec fn ceil_log2(v: nat) -> nat {
    if v <= 1 {
        0
    } else {
        floor_log2((v - 1) as nat) + 1
    }
}

/// The bucket that holds `v`: the first one whose range reaches beyond `v`.
pub open spec fn bucket_index_of(v: nat, um: nat, hm: nat) -> nat {
    if v < pow2(um + hm + 1) {
        0
    } else {
        (floor_log2(v) - um - hm) as nat
    }
}

/// The position of `v` within bucket `b`, in steps of `2^(um + b)`.
pub open spec fn sub_bucket_index_of(v: nat, b: nat, um: nat) -> nat {
    v / pow2(um + b)
}

/// The slot of sub-bucket `sb` of bucket `b`. Bucket 0 has the slots from 0;
/// each later bucket has `2^hm` slots, for the upper half of its sub-buckets.
pub open spec fn slot_of(b: nat, sb: nat, hm: nat) -> int {
    (b + 1) * pow2(hm) + sb - pow2(hm)
}

/// The slot that counts `v`.
pub open spec fn counts_index_of(v: nat, um: nat, hm: nat) -> nat {
    let b = bucket_index_of(v, um, hm);
    slot_of(b, sub_bucket_index_of(v, b, um), hm) as nat
}

/// The number of values that share a slot with `v`.
pub open spec fn range_size_of(v: nat, um: nat, hm: nat) -> nat {
    pow2(um + bucket_index_of(v, um, hm))
}

/// The smallest value that shares a slot with `v`.
pub open spec fn lowest_equivalent_of(v: nat, um: nat, hm: nat) -> nat {
    (v / range_size_of(v, um, hm)) * range_size_of(v, um, hm)
}

/// The smallest value above `v` that does not share a slot with it.
pub open spec fn next_non_equivalent_of(v: nat, um: nat, hm: nat) -> nat {
    lowest_equivalent_of(v, um, hm) + range_size_of(v, um, hm)
}

/// The largest value that shares a slot with `v`.
pub open spec fn highest_equivalent_of(v: nat, um: nat, hm: nat) -> nat {
    (next_non_equivalent_of(v, um, hm) - 1) as nat
}

/// The smallest value that slot `i` counts.
pub open spec fn value_at_index(i: nat, um: nat, hm: nat) -> nat {
    if i < pow2(hm + 1) {
        i * pow2(um)
    } else {
        (pow2(hm) + i % pow2(hm)) * pow2((um + i / pow2(hm) - 1) as nat)
    }
}

/// The number of buckets that it takes to hold `value`, where bucket 0 ends
/// below `first_limit`: the least `k >= 1` with `first_limit * 2^(k - 1) > value`.
pub open spec fn buckets_needed_of(value: nat, first_limit: nat) -> nat {
    if value < first_limit || first_limit == 0 {
        1
    } else {
        floor_log2(value / first_limit) + 2
    }
}

/// Where logical slot `i` lies in an array of `len` slots that was rotated by
/// `offset`.
pub open spec fn normalized_index_of(i: int, offset: int, len: int) -> int {
    if offset == 0 {
        i
    } else if i - offset < 0 {
        i - offset + len
    } else if i - offset >= len {
        i - offset - len
    } else {
        i - offset
    }
}

/// `2^floor_log2(v) <= v < 2^(floor_log2(v) + 1)` for every `v >= 1`.
pub proof fn lemma_floor_log2_bounds(v: nat)
    requires
        v >= 1,
    ensures
        pow2(floor_log2(v)) <= v < pow2(floor_log2(v) + 1),
    decreases v,
{
    lemma2_to64();
    if v > 1 {
        lemma_floor_log2_bounds(v / 2);
        let k = floor_log2(v / 2);
        lemma_pow2_unfold(k + 1);
        lemma_pow2_unfold(k + 2);
    }
}

/// The exponent `k` with `2^k <= v < 2^(k + 1)` is `floor_log2(v)`.
pub proof fn lemma_floor_log2_unique(v: nat, k: nat)
    requires
        pow2(k) <= v < pow2(k + 1),
    ensures
        floor_log2(v) == k,
{
    lemma_pow2_pos(k);
    lemma_floor_log2_bounds(v);
    let f = floor_log2(v);
    if f < k {
        if f + 1 < k {
            lemma_pow2_strictly_increases(f + 1, k);
        }
    } else if f > k {
        if k + 1 < f {
            lemma_pow2_strictly_increases(k + 1, f);
        }
    }
}

/// `floor_log2` does not decrease when its argument grows.
pub proof fn lemma_floor_log2_monotone(a: nat, b: nat)
    requires
        a <= b,
    ensures
        floor_log2(a) <= floor_log2(b),
    decreases b,
{
    if a > 1 {
        lemma_floor_log2_monotone(a / 2, b / 2);
    }
}

/// `v < 2^e` exactly when `floor_log2(v) < e`, for `v >= 1`.
pub proof fn lemma_floor_log2_below(v: nat, e: nat)
    requires
        v >= 1,
    ensures
        v < pow2(e) <==> floor_log2(v) < e,
{
    lemma_floor_log2_bounds(v);
    let f = floor_log2(v);
    if f < e {
        if f + 1 < e {
            lemma_pow2_strictly_increases(f + 1, e);
        }
    } else {
        if e < f {
            lemma_pow2_strictly_increases(e, f);
        }
    }
}

/// The number of leading zero bits of a 64-bit number, by its logarithm.
pub proof fn lemma_leading_zeros_by_log2(v: u64)
    requires
        v >= 1,
    ensures
        u64_leading_zeros(v) == 63 - floor_log2(v as nat),
    decreases v,
{
    reveal(u64_leading_zeros);
    if v > 1 {
        lemma_leading_zeros_by_log2(v / 2);
    } else {
        assert(u64_leading_zeros(0) == 64);
    }
}

/// Dividing a value below `2^(a + c)` by `2^a` leaves a value below `2^c`;
/// dividing one that is at least `2^(a + c)` leaves one that is at least `2^c`.
pub proof fn lemma_div_pow2_bounds(v: nat, a: nat, c: nat)
    ensures
        v < pow2(a + c) ==> v / pow2(a) < pow2(c),
        v >= pow2(a + c) ==> v / pow2(a) >= pow2(c),
{
    lemma_pow2_adds(a, c);
    lemma_pow2_pos(a);
    lemma_pow2_pos(c);
    let pa = pow2(a) as int;
    let pc = pow2(c) as int;
    assert(pa * pc == pc * pa) by (nonlinear_arith);
    if v < pow2(a + c) {
        lemma_multiply_divide_lt(v as int, pa, pc);
    } else {
        lemma_div_is_ordered(pc * pa, v as int, pa);
        lemma_div_by_multiple(pc, pa);
    }
}

/// The bucket of `v` is the one whose range holds `v`.
pub proof fn lemma_bucket_index_bounds(v: nat, um: nat, hm: nat)
    ensures
        v < pow2(um + hm + 1 + bucket_index_of(v, um, hm)),
        bucket_index_of(v, um, hm) >= 1 ==> v >= pow2(um + hm + bucket_index_of(v, um, hm)),
{
    let b = bucket_index_of(v, um, hm);
    if v >= pow2(um + hm + 1) {
        lemma_pow2_pos(um + hm + 1);
        lemma_floor_log2_bounds(v);
        lemma_floor_log2_below(v, um + hm + 1);
        assert(um + hm + b == floor_log2(v));
    }
}

/// A value in the range of bucket `b`, and of no lower bucket, has bucket `b`.
pub proof fn lemma_bucket_index_unique(v: nat, um: nat, hm: nat, b: nat)
    requires
        v < pow2(um + hm + 1 + b),
        b >= 1 ==> v >= pow2(um + hm + b),
    ensures
        bucket_index_of(v, um, hm) == b,
{
    if b >= 1 {
        lemma_pow2_pos(um + hm + b);
        lemma_floor_log2_unique(v, um + hm + b);
        if b > 1 {
            lemma_pow2_strictly_increases(um + hm + 1, um + hm + b);
        }
    }
}

/// The bucket index does not decrease when the value grows.
pub proof fn lemma_bucket_index_monotone(v1: nat, v2: nat, um: nat, hm: nat)
    requires
        v1 <= v2,
    ensures
        bucket_index_of(v1, um, hm) <= bucket_index_of(v2, um, hm),
{
    if v1 >= pow2(um + hm + 1) {
        lemma_pow2_pos(um + hm + 1);
        lemma_floor_log2_monotone(v1, v2);
        lemma_floor_log2_below(v1, um + hm + 1);
        lemma_floor_log2_below(v2, um + hm + 1);
    }
}

/// Within its bucket a value has a sub-bucket below `2^(hm + 1)`, and in any
/// bucket but the first one a sub-bucket in the upper half.
pub proof fn lemma_sub_bucket_index_bounds(v: nat, um: nat, hm: nat)
    ensures
        sub_bucket_index_of(v, bucket_index_of(v, um, hm), um) < pow2(hm + 1),
        bucket_index_of(v, um, hm) >= 1 ==> sub_bucket_index_of(
            v,
            bucket_index_of(v, um, hm),
            um,
        ) >= pow2(hm),
{
    let b = bucket_index_of(v, um, hm);
    lemma_bucket_index_bounds(v, um, hm);
    assert(um + hm + 1 + b == (um + b) + (hm + 1));
    lemma_div_pow2_bounds(v, um + b, hm + 1);
    if b >= 1 {
        assert(um + hm + b == (um + b) + hm);
        lemma_div_pow2_bounds(v, um + b, hm);
    }
}

/// The slot of a value, written out.
pub proof fn lemma_counts_index_value(v: nat, um: nat, hm: nat)
    ensures
        counts_index_of(v, um, hm) == bucket_index_of(v, um, hm) * pow2(hm) + sub_bucket_index_of(
            v,
            bucket_index_of(v, um, hm),
            um,
        ),
        bucket_index_of(v, um, hm) >= 1 ==> (bucket_index_of(v, um, hm) + 1) * pow2(hm)
            <= counts_index_of(v, um, hm),
        counts_index_of(v, um, hm) < (bucket_index_of(v, um, hm) + 2) * pow2(hm),
{
    let b = bucket_index_of(v, um, hm);
    let sb = sub_bucket_index_of(v, b, um);
    let h = pow2(hm);
    lemma_sub_bucket_index_bounds(v, um, hm);
    lemma_pow2_unfold(hm + 1);
    lemma_pow2_pos(hm);
    assert((b + 1) * h + sb - h == b * h + sb) by (nonlinear_arith);
    assert((b + 2) * h == b * h + 2 * h) by (nonlinear_arith);
    assert((b + 1) * h == b * h + h) by (nonlinear_arith);
    assert(b * h >= 0) by (nonlinear_arith)
        requires
            b >= 0,
            h >= 0,
    ;
}

/// The values that share a slot with `v` run from the lowest to the highest
/// equivalent value, and both ends lie in the bucket and sub-bucket of `v`.
pub proof fn lemma_equivalent_range(v: nat, um: nat, hm: nat)
    ensures
        lowest_equivalent_of(v, um, hm) <= v <= highest_equivalent_of(v, um, hm),
        highest_equivalent_of(v, um, hm) + 1 == next_non_equivalent_of(v, um, hm),
        next_non_equivalent_of(v, um, hm) <= pow2(um + hm + 1 + bucket_index_of(v, um, hm)),
        lowest_equivalent_of(v, um, hm) == sub_bucket_index_of(v, bucket_index_of(v, um, hm), um)
            * pow2(um + bucket_index_of(v, um, hm)),
{
    let b = bucket_index_of(v, um, hm);
    let s = range_size_of(v, um, hm) as int;
    let sb = sub_bucket_index_of(v, b, um) as int;
    lemma_pow2_pos(um + b);
    lemma_fundamental_div_mod(v as int, s);
    lemma_mod_bound(v as int, s);
    assert(s * sb == sb * s) by (nonlinear_arith);
    lemma_sub_bucket_index_bounds(v, um, hm);
    assert(um + hm + 1 + b == (um + b) + (hm + 1));
    lemma_pow2_adds(um + b, hm + 1);
    assert((sb + 1) * s <= pow2(hm + 1) * s) by (nonlinear_arith)
        requires
            sb + 1 <= pow2(hm + 1),
            s > 0,
    ;
    assert((sb + 1) * s == sb * s + s) by (nonlinear_arith);
    assert(pow2(um + b) * pow2(hm + 1) == pow2(hm + 1) * s) by (nonlinear_arith)
        requires
            s == pow2(um + b),
    ;
}

/// Every value between the lowest and the highest equivalent value of `v`
/// has the bucket and the slot of `v`.
pub proof fn lemma_equivalent_values_share_slot(v: nat, w: nat, um: nat, hm: nat)
    requires
        lowest_equivalent_of(v, um, hm) <= w <= highest_equivalent_of(v, um, hm),
    ensures
        bucket_index_of(w, um, hm) == bucket_index_of(v, um, hm),
        counts_index_of(w, um, hm) == counts_index_of(v, um, hm),
        lowest_equivalent_of(w, um, hm) == lowest_equivalent_of(v, um, hm),
        range_size_of(w, um, hm) == range_size_of(v, um, hm),
{
    let b = bucket_index_of(v, um, hm);
    let s = range_size_of(v, um, hm) as int;
    let sb = sub_bucket_index_of(v, b, um) as int;
    lemma_equivalent_range(v, um, hm);
    lemma_sub_bucket_index_bounds(v, um, hm);
    lemma_pow2_pos(um + b);
    if b >= 1 {
        assert(um + hm + b == (um + b) + hm);
        lemma_pow2_adds(um + b, hm);
        assert(sb * s >= pow2(hm) * s) by (nonlinear_arith)
            requires
                sb >= pow2(hm),
                s > 0,
        ;
        assert(pow2(um + b) * pow2(hm) == pow2(hm) * s) by (nonlinear_arith)
            requires
                s == pow2(um + b),
        ;
    }
    lemma_bucket_index_unique(w, um, hm, b);
    assert(s * sb == sb * s) by (nonlinear_arith);
    lemma_fundamental_div_mod_converse(w as int, s, sb, w - sb * s);
}

/// The slot index does not decrease when the value grows.
pub proof fn lemma_counts_index_monotone(v1: nat, v2: nat, um: nat, hm: nat)
    requires
        v1 <= v2,
    ensures
        counts_index_of(v1, um, hm) <= counts_index_of(v2, um, hm),
{
    let b1 = bucket_index_of(v1, um, hm);
    let b2 = bucket_index_of(v2, um, hm);
    let h = pow2(hm) as int;
    lemma_bucket_index_monotone(v1, v2, um, hm);
    lemma_counts_index_value(v1, um, hm);
    lemma_counts_index_value(v2, um, hm);
    lemma_pow2_pos(hm);
    if b1 == b2 {
        lemma_pow2_pos(um + b1);
        lemma_div_is_ordered(v1 as int, v2 as int, pow2(um + b1) as int);
    } else {
        assert((b1 + 2) * h <= (b2 + 1) * h) by (nonlinear_arith)
            requires
                b1 + 2 <= b2 + 1,
                h > 0,
        ;
    }
}

/// A slot's smallest value falls in that slot.
pub proof fn lemma_index_of_value_at_index(i: nat, um: nat, hm: nat)
    ensures
        counts_index_of(value_at_index(i, um, hm), um, hm) == i,
        lowest_equivalent_of(value_at_index(i, um, hm), um, hm) == value_at_index(i, um, hm),
        i >= pow2(hm + 1) ==> bucket_index_of(value_at_index(i, um, hm), um, hm) == i / pow2(hm)
            - 1,
        i < pow2(hm + 1) ==> bucket_index_of(value_at_index(i, um, hm), um, hm) == 0,
{
    let h = pow2(hm) as int;
    let v = value_at_index(i, um, hm);
    lemma_pow2_pos(hm);
    lemma_pow2_pos(um);
    lemma_pow2_unfold(hm + 1);
    if i < pow2(hm + 1) {
        let u = pow2(um) as int;
        assert(um + hm + 1 == um + (hm + 1));
        lemma_pow2_adds(um, hm + 1);
        assert(i * u < pow2(hm + 1) * u) by (nonlinear_arith)
            requires
                i < pow2(hm + 1),
                u > 0,
        ;
        assert(pow2(um) * pow2(hm + 1) == pow2(hm + 1) * u) by (nonlinear_arith)
            requires
                u == pow2(um),
        ;
        lemma_bucket_index_unique(v, um, hm, 0);
        assert(um + 0 == um);
        lemma_div_by_multiple(i as int, u);
        assert((0 + 1) * h + i - h == i) by (nonlinear_arith);
    } else {
        let q = i as int / h;
        let r = i as int % h;
        lemma_fundamental_div_mod(i as int, h);
        lemma_mod_bound(i as int, h);
        assert(q >= 2) by (nonlinear_arith)
            requires
                h * q + r >= 2 * h,
                0 <= r < h,
        ;
        let b = (q - 1) as nat;
        let s = pow2(um + b) as int;
        lemma_pow2_pos(um + b);
        assert((um + q - 1) as nat == um + b);
        assert(v == (h + r) * s);
        assert(um + hm + b == (um + b) + hm);
        assert(um + hm + 1 + b == (um + b) + (hm + 1));
        lemma_pow2_adds(um + b, hm);
        lemma_pow2_adds(um + b, hm + 1);
        assert((h + r) * s >= h * s && (h + r) * s < (2 * h) * s) by (nonlinear_arith)
            requires
                0 <= r < h,
                s > 0,
        ;
        assert(pow2(um + b) * pow2(hm) == h * s && pow2(um + b) * pow2(hm + 1) == (2 * h) * s)
            by (nonlinear_arith)
            requires
                s == pow2(um + b),
                h == pow2(hm),
                pow2(hm + 1) == 2 * h,
        ;
        lemma_bucket_index_unique(v, um, hm, b);
        lemma_div_by_multiple(h + r, s);
        assert((b + 1) * h + (h + r) - h == h * q + r) by (nonlinear_arith)
            requires
                b == q - 1,
        ;
    }
}

/// A value's lowest equivalent value is the smallest value of its slot.
pub proof fn lemma_value_at_index_of_value(v: nat, um: nat, hm: nat)
    ensures
        value_at_index(counts_index_of(v, um, hm), um, hm) == lowest_equivalent_of(v, um, hm),
{
    let h = pow2(hm) as int;
    let b = bucket_index_of(v, um, hm);
    let sb = sub_bucket_index_of(v, b, um) as int;
    let i = counts_index_of(v, um, hm) as int;
    lemma_counts_index_value(v, um, hm);
    lemma_sub_bucket_index_bounds(v, um, hm);
    lemma_equivalent_range(v, um, hm);
    lemma_pow2_pos(hm);
    lemma_pow2_unfold(hm + 1);
    if b == 0 {
        assert(0 * h == 0) by (nonlinear_arith);
        assert(um + 0 == um);
    } else {
        assert(b * h >= h) by (nonlinear_arith)
            requires
                b >= 1,
                h > 0,
        ;
        let r = sb - h;
        assert(i == h * (b + 1) + r) by (nonlinear_arith)
            requires
                i == b * h + sb,
                r == sb - h,
        ;
        lemma_fundamental_div_mod_converse(i, h, (b + 1) as int, r);
        assert((um + (b + 1) - 1) as nat == um + b);
    }
}

/// The smallest value of the slot after slot `i` is the first value that
/// does not share slot `i`.
pub proof fn lemma_value_at_next_index(i: nat, um: nat, hm: nat)
    ensures
        value_at_index(i + 1, um, hm) == next_non_equivalent_of(value_at_index(i, um, hm), um, hm),
        value_at_index(i, um, hm) < value_at_index(i + 1, um, hm),
{
    let v = value_at_index(i, um, hm);
    let b = bucket_index_of(v, um, hm);
    let s = range_size_of(v, um, hm) as int;
    let sb = sub_bucket_index_of(v, b, um) as int;
    let h = pow2(hm) as int;
    let w = next_non_equivalent_of(v, um, hm);
    lemma_index_of_value_at_index(i, um, hm);
    lemma_equivalent_range(v, um, hm);
    lemma_sub_bucket_index_bounds(v, um, hm);
    lemma_counts_index_value(v, um, hm);
    lemma_pow2_pos(um + b);
    lemma_pow2_pos(hm);
    lemma_pow2_unfold(hm + 1);
    assert(w == (sb + 1) * s) by (nonlinear_arith)
        requires
            w == sb * s + s,
    ;
    if sb + 1 < 2 * h {
        // the next sub-bucket of the same bucket
        assert(um + hm + 1 + b == (um + b) + (hm + 1));
        lemma_pow2_adds(um + b, hm + 1);
        assert((sb + 1) * s < (2 * h) * s) by (nonlinear_arith)
            requires
                sb + 1 < 2 * h,
                s > 0,
        ;
        assert(pow2(um + b) * pow2(hm + 1) == (2 * h) * s) by (nonlinear_arith)
            requires
                s == pow2(um + b),
                pow2(hm + 1) == 2 * h,
        ;
        if b >= 1 {
            lemma_bucket_index_bounds(v, um, hm);
        }
        lemma_bucket_index_unique(w, um, hm, b);
        lemma_div_by_multiple(sb + 1, s);
        assert(sub_bucket_index_of(w, b, um) == sb + 1);
        assert((b + 1) * h + (sb + 1) - h == b * h + sb + 1) by (nonlinear_arith);
        assert(counts_index_of(w, um, hm) == i + 1);
        lemma_value_at_index_of_value(w, um, hm);
        assert(lowest_equivalent_of(w, um, hm) == (sb + 1) * s);
    } else {
        // the first used sub-bucket of the next bucket
        let s2 = pow2(um + b + 1) as int;
        lemma_pow2_unfold(um + b + 1);
        assert(um + hm + 1 + b == (um + b) + (hm + 1));
        assert(um + hm + (b + 1) == (um + b) + (hm + 1));
        assert(um + hm + 1 + (b + 1) == (um + b + 1) + (hm + 1));
        lemma_pow2_adds(um + b, hm + 1);
        lemma_pow2_adds(um + b + 1, hm + 1);
        assert(pow2(um + b) * pow2(hm + 1) == (2 * h) * s) by (nonlinear_arith)
            requires
                s == pow2(um + b),
                pow2(hm + 1) == 2 * h,
        ;
        assert(pow2(um + b + 1) * pow2(hm + 1) > (2 * h) * s && (2 * h) * s == h * s2)
            by (nonlinear_arith)
            requires
                s == pow2(um + b),
                pow2(um + b + 1) == 2 * s,
                s2 == 2 * s,
                pow2(hm + 1) == 2 * h,
                s > 0,
                h > 0,
        ;
        lemma_bucket_index_unique(w, um, hm, b + 1);
        lemma_div_by_multiple(h, s2);
        assert(um + (b + 1) == um + b + 1);
        assert(sub_bucket_index_of(w, b + 1, um) == h);
        assert(((b + 1) + 1) * h + h - h == b * h + sb + 1) by (nonlinear_arith)
            requires
                sb + 1 == 2 * h,
        ;
        assert(counts_index_of(w, um, hm) == i + 1);
        lemma_value_at_index_of_value(w, um, hm);
        assert(lowest_equivalent_of(w, um, hm) == h * s2);
    }
}

/// The smallest values of the slots grow with the slot index.
pub proof fn lemma_value_at_index_monotone(i: nat, j: nat, um: nat, hm: nat)
    requires
        i <= j,
    ensures
        value_at_index(i, um, hm) <= value_at_index(j, um, hm),
        i < j ==> value_at_index(i + 1, um, hm) <= value_at_index(j, um, hm),
    decreases j - i,
{
    if i < j {
        lemma_value_at_next_index(i, um, hm);
        lemma_value_at_index_monotone(i + 1, j, um, hm);
    }
}

/// The smallest value of the first slot of bucket `b + 1`, which is where
/// bucket `b` ends.
pub proof fn lemma_value_at_bucket_start(b: nat, um: nat, hm: nat)
    requires
        b >= 1,
    ensures
        value_at_index((b + 1) * pow2(hm), um, hm) == pow2(um + hm + b),
{
    let h = pow2(hm) as int;
    let i = ((b + 1) * pow2(hm)) as int;
    lemma_pow2_pos(hm);
    lemma_pow2_unfold(hm + 1);
    assert(i >= 2 * h) by (nonlinear_arith)
        requires
            i == (b + 1) * h,
            b >= 1,
            h > 0,
    ;
    assert(i == h * (b + 1) + 0) by (nonlinear_arith)
        requires
            i == (b + 1) * h,
    ;
    lemma_fundamental_div_mod_converse(i, h, (b + 1) as int, 0);
    assert((um + (b + 1) - 1) as nat == um + b);
    assert(um + hm + b == hm + (um + b));
    lemma_pow2_adds(hm, um + b);
}

/// The value `v` with the bits below `2^um` set: the end of its unit.
pub open spec fn unit_top_of(v: nat, um: nat) -> nat {
    ((v / pow2(um)) * pow2(um) + pow2(um) - 1) as nat
}

/// The value `v` with the bits below `2^um` cleared: the start of its unit.
pub open spec fn unit_base_of(v: nat, um: nat) -> nat {
    (v / pow2(um)) * pow2(um)
}

/// Setting or clearing the bits below `2^um` moves a value to the end or to
/// the start of its unit.
pub proof fn lemma_unit_mask(v: u64, mask: u64, um: nat)
    requires
        um < 64,
        mask == pow2(um) - 1,
    ensures
        v | mask == unit_top_of(v as nat, um),
        v & !mask == unit_base_of(v as nat, um),
        unit_base_of(v as nat, um) <= v <= unit_top_of(v as nat, um),
{
    let s = um as u64;
    let p = pow2(um);
    lemma_u64_pow2_no_overflow(um);
    lemma_u64_shl_is_mul(1, s);
    let hi = (v >> s) << s;
    assert((v | mask) == hi + mask && v & !mask == hi && hi <= v && hi + mask >= v && hi + mask
        <= 0xffff_ffff_ffff_ffffu64) by (bit_vector)
        requires
            s < 64,
            mask == (1u64 << s) - 1,
            hi == (v >> s) << s,
    ;
    lemma_u64_shr_is_div(v, s);
    lemma_fundamental_div_mod(v as int, p as int);
    lemma_mod_bound(v as int, p as int);
    assert(p * (v as nat / p) == (v as nat / p) * p) by (nonlinear_arith);
    lemma_u64_shl_is_mul(v >> s, s);
}

/// The end of a value's unit shares the value's slot.
pub proof fn lemma_unit_top_shares_slot(v: nat, um: nat, hm: nat)
    ensures
        counts_index_of(unit_top_of(v, um), um, hm) == counts_index_of(v, um, hm),
        v <= unit_top_of(v, um) <= highest_equivalent_of(v, um, hm),
{
    let b = bucket_index_of(v, um, hm);
    let u = pow2(um) as int;
    let s = pow2(um + b) as int;
    let w = pow2(b) as int;
    let q = v as int / s;
    let m = v as int / u;
    lemma_pow2_pos(um);
    lemma_pow2_pos(b);
    lemma_pow2_pos(um + b);
    lemma_pow2_adds(um, b);
    lemma_fundamental_div_mod(v as int, u);
    lemma_mod_bound(v as int, u);
    lemma_fundamental_div_mod(v as int, s);
    lemma_mod_bound(v as int, s);
    lemma_equivalent_range(v, um, hm);
    // m * u <= v < (q + 1) * w * u, so m + 1 <= (q + 1) * w
    assert(m < (q + 1) * w) by (nonlinear_arith)
        requires
            u * m <= v,
            v < s * q + s,
            s == u * w,
            u > 0,
    ;
    assert((m + 1) * u <= (q + 1) * w * u) by (nonlinear_arith)
        requires
            m + 1 <= (q + 1) * w,
            u > 0,
    ;
    assert((q + 1) * w * u == q * s + s && m * u == u * m && q * s == s * q)
        by (nonlinear_arith)
        requires
            s == u * w,
    ;
    assert((m + 1) * u == m * u + u) by (nonlinear_arith);
    lemma_equivalent_values_share_slot(v, unit_top_of(v, um), um, hm);
}

/// The bucket index as the hardware computes it: by the leading zero bits
/// of the value, after the bits of the first bucket's range are set.
pub proof fn lemma_bucket_index_by_leading_zeros(v: u64, mask: u64, um: nat, hm: nat)
    requires
        um + hm <= 63,
        pow2(um + hm) <= mask < pow2(um + hm + 1),
    ensures
        63 - um - hm - u64_leading_zeros(v | mask) == bucket_index_of(v as nat, um, hm),
        0 <= u64_leading_zeros(v | mask) <= 63 - um - hm,
{
    let w = v | mask;
    let top = if floor_log2(v as nat) > um + hm {
        floor_log2(v as nat)
    } else {
        um + hm
    };
    lemma_pow2_pos(um + hm);
    assert(w >= v && w >= mask) by (bit_vector)
        requires
            w == v | mask,
    ;
    if v >= 1 {
        lemma_floor_log2_bounds(v as nat);
        lemma_floor_log2_below(v as nat, um + hm + 1);
    }
    if um + hm + 1 < top + 1 {
        lemma_pow2_strictly_increases(um + hm + 1, top + 1);
    }
    if v >= 1 && floor_log2(v as nat) < top {
        lemma_pow2_strictly_increases(floor_log2(v as nat) + 1, top + 1);
    }
    lemma2_to64();
    assert(v < pow2(top + 1));
    assert(mask < pow2(top + 1));
    if top + 1 >= 64 {
        if top + 1 > 64 {
            lemma_pow2_strictly_increases(64, top + 1);
        }
    } else {
        let n = (top + 1) as u64;
        lemma_u64_pow2_no_overflow(top + 1);
        lemma_u64_shl_is_mul(1, n);
        assert(v < (1u64 << n) && mask < (1u64 << n) ==> (v | mask) < (1u64 << n))
            by (bit_vector)
            requires
                n < 64,
        ;
    }
    assert(pow2(top) <= w < pow2(top + 1));
    lemma_floor_log2_unique(w as nat, top);
    lemma_leading_zeros_by_log2(w);
}

/// A value is at least the smallest value of slot `n` exactly when its slot
/// is slot `n` or a later one.
pub proof fn lemma_slot_of_value_reaches(x: nat, n: nat, um: nat, hm: nat)
    ensures
        x >= value_at_index(n, um, hm) <==> counts_index_of(x, um, hm) >= n,
{
    let i = counts_index_of(x, um, hm);
    lemma_value_at_index_of_value(x, um, hm);
    lemma_equivalent_range(x, um, hm);
    if x >= value_at_index(n, um, hm) {
        lemma_counts_index_monotone(value_at_index(n, um, hm), x, um, hm);
        lemma_index_of_value_at_index(n, um, hm);
    } else {
        if i >= n {
            lemma_value_at_index_monotone(n, i, um, hm);
        }
    }
}

/// A rotation by less than the array's length keeps every slot within the
/// array.
pub proof fn lemma_normalized_index_in_range(i: int, offset: int, len: int)
    requires
        0 <= i < len,
        -len < offset < len,
    ensures
        0 <= normalized_index_of(i, offset, len) < len,
{
}

/// A rotation by less than the array's length sends no two slots to the
/// same place.
pub proof fn lemma_normalized_index_injective(i: int, j: int, offset: int, len: int)
    requires
        0 <= i < len,
        0 <= j < len,
        -len < offset < len,
        normalized_index_of(i, offset, len) == normalized_index_of(j, offset, len),
    ensures
        i == j,
{
}

/// The slot that a rotation by less than the array's length sends to place
/// `k`.
pub open spec fn denormalized_index_of(k: int, offset: int, len: int) -> int {
    if offset == 0 {
        k
    } else if k + offset < 0 {
        k + offset + len
    } else if k + offset >= len {
        k + offset - len
    } else {
        k + offset
    }
}

/// A rotation by less than the array's length reaches every place.
pub proof fn lemma_normalized_index_onto(k: int, offset: int, len: int)
    requires
        0 <= k < len,
        -len < offset < len,
    ensures
        0 <= denormalized_index_of(k, offset, len) < len,
        normalized_index_of(denormalized_index_of(k, offset, len), offset, len) == k,
        denormalized_index_of(normalized_index_of(k, offset, len), offset, len) == k,
{
}

} // verus!
