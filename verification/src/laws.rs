//! What holds of every histogram, stated over its state and proved.

use vstd::prelude::*;
use vstd::arithmetic::power2::*;
use vstd::arithmetic::div_mod::*;
use crate::index::{
    denormalized_index_of,
    lemma_bucket_index_bounds,
    lemma_counts_index_monotone,
    lemma_equivalent_range,
    lemma_equivalent_values_share_slot,
    lemma_index_of_value_at_index,
    lemma_normalized_index_in_range,
    lemma_normalized_index_injective,
    lemma_normalized_index_onto,
    lemma_slot_of_value_reaches,
    lemma_value_at_index_monotone,
    lemma_value_at_next_index,
    normalized_index_of,
};
use crate::layout::{
    lemma_half_count_magnitude_values,
    lemma_layout_bounds,
    lemma_values_below_top,
    pow10,
    top_value_of,
    valid_parameters,
};
use crate::percentile::Percentile;
use crate::serialization::{
    cookie_of,
    count_as_signed,
    decoded,
    encoded_bytes,
    encoded_slots,
    filled_counts,
    lemma_payload_len,
    lemma_zero_run,
    payload_bytes,
    signed_of,
    u32_be,
    u32_from_be,
    u64_be,
    u64_from_be,
    unsigned_of,
    zero_run,
};
use crate::varint::{lemma_varint_round_trip, varint_bytes, zig_zag_of};
use crate::state::{
    first_index_reaching,
    HistogramState,
    lemma_sum_to_monotone,
    lemma_sum_to_update,
    sum_to,
};

verus! {

/// Every value lies between its lowest and its highest equivalent value,
/// both of which fit in 64 bits, and the three are counted in one slot.
pub proof fn lemma_equivalence_closure(h: HistogramState, v: u64)
    requires
        h.wf(),
    ensures
        h.lowest_equivalent_value(v) <= v <= h.highest_equivalent_value(v) <= u64::MAX,
        h.counts_array_index(h.lowest_equivalent_value(v) as u64) == h.counts_array_index(v),
        h.counts_array_index(h.highest_equivalent_value(v) as u64) == h.counts_array_index(v),
{
    let um = h.unit_magnitude();
    let hm = h.half_count_magnitude();
    lemma_equivalent_range(v as nat, um, hm);
    lemma_bucket_index_bounds(v as nat, um, hm);
    lemma2_to64();
    // the bucket of a 64-bit value ends within 64 bits
    let e = um + hm + 1 + h.bucket_index(v);
    if h.bucket_index(v) >= 1 {
        if um + hm + h.bucket_index(v) >= 64 {
            if um + hm + h.bucket_index(v) > 64 {
                lemma_pow2_strictly_increases(64, um + hm + h.bucket_index(v));
            }
            assert(false);
        }
    }
    if e < 64 {
        lemma_pow2_strictly_increases(e, 64);
    }
    lemma_equivalent_values_share_slot(v as nat, h.lowest_equivalent_value(v), um, hm);
    lemma_equivalent_values_share_slot(v as nat, h.highest_equivalent_value(v), um, hm);
}

/// The array has a slot for a value exactly when the value lies below the
/// end of the last bucket; so it has one for every value up to the highest
/// trackable value.
pub proof fn lemma_trackable_values_have_slots(h: HistogramState, v: u64)
    requires
        h.wf(),
    ensures
        h.counts_array_index(v) < h.counts_len() <==> v < top_value_of(
            h.lowest_discernible_value,
            h.highest_trackable_value,
            h.significant_value_digits,
        ),
        v <= h.highest_trackable_value ==> h.counts_array_index(v) < h.counts_len(),
{
    lemma_values_below_top(
        h.lowest_discernible_value,
        h.highest_trackable_value,
        h.significant_value_digits,
        0,
    );
    lemma_slot_of_value_reaches(
        v as nat,
        h.counts_len(),
        h.unit_magnitude(),
        h.half_count_magnitude(),
    );
}

/// A larger value is counted in the same slot or in a later one.
pub proof fn lemma_monotone_indexing(h: HistogramState, v1: u64, v2: u64)
    requires
        h.wf(),
        v1 <= v2,
    ensures
        h.counts_array_index(v1) <= h.counts_array_index(v2),
{
    lemma_counts_index_monotone(v1 as nat, v2 as nat, h.unit_magnitude(), h.half_count_magnitude());
}

/// The values that share a slot are few beside the values themselves: for
/// a value of at least one unit and of at least half of `10^digits` units,
/// their number is at most `2 / 10^digits` of the value.
pub proof fn lemma_relative_error_bound(h: HistogramState, v: u64)
    requires
        h.wf(),
        v >= pow2(h.unit_magnitude()),
        2 * v >= pow10(h.significant_value_digits as nat) * pow2(h.unit_magnitude()),
    ensures
        h.size_of_equivalent_value_range(v) * pow10(h.significant_value_digits as nat) <= 2 * v,
{
    let um = h.unit_magnitude();
    let hm = h.half_count_magnitude();
    let b = h.bucket_index(v);
    let p = pow10(h.significant_value_digits as nat) as int;
    let s = pow2(um + b) as int;
    if b == 0 {
        assert(um + 0 == um);
        assert(s * p == p * s) by (nonlinear_arith);
    } else {
        lemma_bucket_index_bounds(v as nat, um, hm);
        lemma_half_count_magnitude_values();
        reveal_with_fuel(pow10, 6);
        lemma2_to64();
        assert(p <= pow2(hm));
        assert(um + hm + b == (um + b) + hm);
        lemma_pow2_adds(um + b, hm);
        lemma_pow2_pos(um + b);
        assert(s * p <= s * pow2(hm)) by (nonlinear_arith)
            requires
                p <= pow2(hm),
                s > 0,
        ;
    }
}

/// A value of at least `10^digits` units is told apart from the values that
/// share its slot to one part in `10^digits`: their number is at most
/// `1 / 10^digits` of the value.
pub proof fn lemma_relative_error_of_large_values(h: HistogramState, v: u64)
    requires
        h.wf(),
        v >= pow10(h.significant_value_digits as nat) * pow2(h.unit_magnitude()),
    ensures
        h.size_of_equivalent_value_range(v) * pow10(h.significant_value_digits as nat) <= v,
{
    let um = h.unit_magnitude();
    let hm = h.half_count_magnitude();
    let b = h.bucket_index(v);
    let p = pow10(h.significant_value_digits as nat) as int;
    let s = pow2(um + b) as int;
    if b == 0 {
        assert(um + 0 == um);
        assert(s * p == p * s) by (nonlinear_arith);
    } else {
        lemma_bucket_index_bounds(v as nat, um, hm);
        lemma_half_count_magnitude_values();
        reveal_with_fuel(pow10, 6);
        lemma2_to64();
        assert(p <= pow2(hm));
        assert(um + hm + b == (um + b) + hm);
        lemma_pow2_adds(um + b, hm);
        lemma_pow2_pos(um + b);
        assert(s * p <= s * pow2(hm)) by (nonlinear_arith)
            requires
                p <= pow2(hm),
                s > 0,
        ;
    }
}

/// A value that was recorded is counted: the count at which it is looked up
/// has grown by one, and no count has shrunk.
pub proof fn lemma_recorded_value_is_counted(h: HistogramState, v: u64, max_count: nat)
    requires
        h.wf(),
        h.record_outcome(v, max_count).is_ok(),
    ensures
        h.record(v).count_at_value(v) == h.count_at_value(v) + 1,
        forall|w: u64| h.record(v).count_at_value(w) >= h.count_at_value(w),
{
    lemma_layout_bounds(
        h.lowest_discernible_value,
        h.highest_trackable_value,
        h.significant_value_digits,
    );
    assert forall|w: u64| h.record(v).count_at_value(w) >= h.count_at_value(w) by {
        assert(h.record(v).clamped_index(w) == h.clamped_index(w));
    }
}

/// The state after the values of `values` were recorded one after the
/// other, in a histogram whose counts are at most `max_count` each. A value
/// that cannot be recorded leaves the state as it is.
pub open spec fn record_all(h: HistogramState, values: Seq<u64>, max_count: nat) -> HistogramState
    decreases values.len(),
{
    if values.len() == 0 {
        h
    } else {
        let before = record_all(h, values.drop_last(), max_count);
        if before.record_outcome(values.last(), max_count).is_ok() {
            before.record(values.last())
        } else {
            before
        }
    }
}

/// The number of values of `values` that were recorded.
pub open spec fn recorded_count(h: HistogramState, values: Seq<u64>, max_count: nat) -> nat
    decreases values.len(),
{
    if values.len() == 0 {
        0
    } else {
        let before = record_all(h, values.drop_last(), max_count);
        recorded_count(h, values.drop_last(), max_count) + if before.record_outcome(
            values.last(),
            max_count,
        ).is_ok() {
            1nat
        } else {
            0nat
        }
    }
}

/// Recording a value that can be recorded leaves a state that a histogram
/// can be in.
pub proof fn lemma_record_keeps_wf(h: HistogramState, v: u64, max_count: nat)
    requires
        h.wf(),
        h.record_outcome(v, max_count).is_ok(),
    ensures
        h.record(v).wf(),
        h.record(v).total_count == h.total_count + 1,
{
    lemma_sum_to_update(h.counts, h.counts_array_index(v) as int, h.counts.len() as int);
    lemma_layout_bounds(
        h.lowest_discernible_value,
        h.highest_trackable_value,
        h.significant_value_digits,
    );
    crate::state::lemma_record_keeps_empty_beyond_max(h, v);
}

/// After any sequence of recordings the total has grown by the number of
/// values that were recorded, and is the sum of the counts.
pub proof fn lemma_conservation(h: HistogramState, values: Seq<u64>, max_count: nat)
    requires
        h.wf(),
    ensures
        record_all(h, values, max_count).wf(),
        record_all(h, values, max_count).total_count == h.total_count + recorded_count(
            h,
            values,
            max_count,
        ),
        record_all(h, values, max_count).total_count == sum_to(
            record_all(h, values, max_count).counts,
            record_all(h, values, max_count).counts.len() as int,
        ),
    decreases values.len(),
{
    if values.len() > 0 {
        lemma_conservation(h, values.drop_last(), max_count);
        let before = record_all(h, values.drop_last(), max_count);
        if before.record_outcome(values.last(), max_count).is_ok() {
            lemma_record_keeps_wf(before, values.last(), max_count);
        }
    }
}

/// In a histogram that starts empty, the total is the number of values
/// that were recorded.
pub proof fn lemma_conservation_from_empty(
    lowest: u64,
    highest: u64,
    digits: u32,
    values: Seq<u64>,
    max_count: nat,
)
    requires
        valid_parameters(lowest, highest, digits),
    ensures
        record_all(HistogramState::empty(lowest, highest, digits), values, max_count).total_count
            == recorded_count(HistogramState::empty(lowest, highest, digits), values, max_count),
{
    let h = HistogramState::empty(lowest, highest, digits);
    lemma_layout_bounds(lowest, highest, digits);
    crate::state::lemma_sum_to_zeros(h.counts, h.counts.len() as int);
    lemma_conservation(h, values, max_count);
}

/// A larger target is first reached at the same index or at a later one.
pub proof fn lemma_first_index_reaching_monotone(
    counts: Seq<nat>,
    target1: nat,
    target2: nat,
    from: int,
)
    requires
        target1 <= target2,
        0 <= from,
    ensures
        from <= first_index_reaching(counts, target1, from) <= first_index_reaching(
            counts,
            target2,
            from,
        ) <= counts.len() || from > counts.len(),
    decreases counts.len() - from,
{
    if from < counts.len() {
        lemma_first_index_reaching_monotone(counts, target1, target2, from + 1);
    }
}

/// A target that the sum of all counts reaches is first reached within the
/// array.
pub proof fn lemma_first_index_reaching_exists(counts: Seq<nat>, target: nat, from: int)
    requires
        0 <= from <= counts.len(),
        target <= sum_to(counts, counts.len() as int),
        counts.len() > 0,
    ensures
        first_index_reaching(counts, target, from) < counts.len() || (from == counts.len()),
    decreases counts.len() - from,
{
    if from < counts.len() {
        if from + 1 < counts.len() {
            lemma_first_index_reaching_exists(counts, target, from + 1);
        }
    }
}

/// A larger fraction of the total asks for at least as many values.
pub proof fn lemma_target_count_monotone(p1: Percentile, p2: Percentile, total: u64)
    requires
        p1.le(p2),
    ensures
        p1.target_count(total) <= p2.target_count(total),
        p2.target_count(total) <= if total >= 1 {
            total as nat
        } else {
            1nat
        },
{
    let t = total as int;
    let a1 = p1.part as int;
    let w1 = p1.whole as int;
    let a2 = p2.part as int;
    let w2 = p2.whole as int;
    let g1 = (2 * a1 * t + w1) / (2 * w1);
    let g2 = (2 * a2 * t + w2) / (2 * w2);
    lemma_fundamental_div_mod(2 * a1 * t + w1, 2 * w1);
    lemma_mod_bound(2 * a1 * t + w1, 2 * w1);
    lemma_fundamental_div_mod(2 * a2 * t + w2, 2 * w2);
    lemma_mod_bound(2 * a2 * t + w2, 2 * w2);
    assert(2 * a1 * t >= 0 && 2 * a2 * t >= 0) by (nonlinear_arith)
        requires
            a1 >= 0,
            a2 >= 0,
            t >= 0,
    ;
    lemma_div_pos_is_pos(2 * a1 * t + w1, 2 * w1);
    lemma_div_pos_is_pos(2 * a2 * t + w2, 2 * w2);
    if !p1.is_full() {
        // g1 <= t
        assert(2 * a1 * t <= 2 * (w1 - 1) * t) by (nonlinear_arith)
            requires
                a1 <= w1 - 1,
                t >= 0,
        ;
        assert(g1 <= t) by (nonlinear_arith)
            requires
                (2 * w1) * g1 <= 2 * (w1 - 1) * t + w1,
                w1 > 0,
                t >= 0,
        ;
    }
    if !p2.is_full() {
        assert(2 * a2 * t <= 2 * (w2 - 1) * t) by (nonlinear_arith)
            requires
                a2 <= w2 - 1,
                t >= 0,
        ;
        assert(g2 <= t) by (nonlinear_arith)
            requires
                (2 * w2) * g2 <= 2 * (w2 - 1) * t + w2,
                w2 > 0,
                t >= 0,
        ;
        // p1 is below the whole too
        assert(a1 < w1) by (nonlinear_arith)
            requires
                a1 * w2 <= a2 * w1,
                a2 < w2,
                w1 > 0,
                w2 > 0,
                a1 >= 0,
        ;
        // (2 g1 - 1) w1 <= 2 a1 t, so (2 g1 - 1) w2 <= 2 a2 t, so g1 <= g2
        assert((2 * g1 - 1) * w1 <= 2 * a1 * t) by (nonlinear_arith)
            requires
                (2 * w1) * g1 <= 2 * a1 * t + w1,
        ;
        assert((2 * g1 - 1) * w1 * w2 <= 2 * a2 * w1 * t) by (nonlinear_arith)
            requires
                (2 * g1 - 1) * w1 <= 2 * a1 * t,
                a1 * w2 <= a2 * w1,
                w2 > 0,
                t >= 0,
        ;
        assert((2 * g1 - 1) * w2 <= 2 * a2 * t) by (nonlinear_arith)
            requires
                (2 * g1 - 1) * w1 * w2 <= 2 * a2 * w1 * t,
                w1 > 0,
        ;
        assert(g1 <= g2) by (nonlinear_arith)
            requires
                (2 * g1 - 1) * w2 <= 2 * a2 * t,
                2 * a2 * t + w2 < (2 * w2) * g2 + 2 * w2,
                w2 > 0,
        ;
    }
}

/// The value at a percentile does not decrease when the percentile grows, up
/// to 100 percent.
pub proof fn lemma_percentile_monotonicity(h: HistogramState, p1: Percentile, p2: Percentile)
    requires
        h.wf(),
        p1.le(p2),
        p2.part <= p2.whole,
    ensures
        h.value_at_percentile(p1) <= h.value_at_percentile(p2),
{
    let um = h.unit_magnitude();
    let hm = h.half_count_magnitude();
    let t1 = p1.target_count(h.total_count);
    let t2 = p2.target_count(h.total_count);
    let i1 = h.index_at_percentile(p1);
    let i2 = h.index_at_percentile(p2);
    let len = h.counts.len() as int;
    lemma_layout_bounds(
        h.lowest_discernible_value,
        h.highest_trackable_value,
        h.significant_value_digits,
    );
    lemma_target_count_monotone(p1, p2, h.total_count);
    lemma_first_index_reaching_monotone(h.counts, t1, t2, 0);
    if h.total_count >= 1 {
        lemma_first_index_reaching_exists(h.counts, t2, 0);
    }
    if i2 < len {
        lemma_value_at_index_monotone(i1 as nat, i2 as nat, um, hm);
        lemma_value_at_next_index(i1 as nat, um, hm);
        lemma_value_at_next_index(i2 as nat, um, hm);
        lemma_index_of_value_at_index(i1 as nat, um, hm);
        lemma_index_of_value_at_index(i2 as nat, um, hm);
        lemma_equivalent_range(h.value_from_index(i1 as nat), um, hm);
        lemma_equivalent_range(h.value_from_index(i2 as nat), um, hm);
        if i1 < i2 {
            lemma_value_at_index_monotone((i1 + 1) as nat, (i2 + 1) as nat, um, hm);
        }
        if p2.is_zero() {
            assert(p2.part * p1.whole == 0) by (nonlinear_arith)
                requires
                    p2.part == 0,
            ;
            assert(p1.part * p2.whole <= 0);
            assert(p1.part == 0) by (nonlinear_arith)
                requires
                    p1.part * p2.whole <= 0,
                    p2.whole > 0,
                    p1.part >= 0,
            ;
        }
    } else {
        // only an empty histogram has no slot that reaches the target
        lemma_empty_has_no_index(h.counts, t1, 0);
    }
}

/// In an array whose counts sum to 0, no index reaches a target of 1 or more.
pub proof fn lemma_empty_has_no_index(counts: Seq<nat>, target: nat, from: int)
    requires
        sum_to(counts, counts.len() as int) == 0,
        target >= 1,
        0 <= from,
    ensures
        first_index_reaching(counts, target, from) >= counts.len(),
    decreases counts.len() - from,
{
    if from < counts.len() {
        lemma_sum_to_monotone(counts, from + 1, counts.len() as int);
        lemma_empty_has_no_index(counts, target, from + 1);
    }
}

/// A rotation by less than the length of the array is a permutation of the
/// array's indices: it keeps each one within the array, sends no two to the
/// same place, and reaches every place.
pub proof fn lemma_normalize_bijection(offset: int, len: int)
    requires
        -len < offset < len,
    ensures
        forall|i: int| 0 <= i < len ==> 0 <= #[trigger] normalized_index_of(i, offset, len) < len,
        forall|i: int, j: int|
            0 <= i < len && 0 <= j < len && #[trigger] normalized_index_of(i, offset, len)
                == #[trigger] normalized_index_of(j, offset, len) ==> i == j,
        forall|k: int|
            0 <= k < len ==> 0 <= #[trigger] denormalized_index_of(k, offset, len) < len
                && normalized_index_of(denormalized_index_of(k, offset, len), offset, len) == k,
{
    assert forall|i: int| 0 <= i < len implies 0 <= #[trigger] normalized_index_of(i, offset, len)
        < len by {
        lemma_normalized_index_in_range(i, offset, len);
    }
    assert forall|i: int, j: int|
        0 <= i < len && 0 <= j < len && #[trigger] normalized_index_of(i, offset, len)
            == #[trigger] normalized_index_of(j, offset, len) implies i == j by {
        lemma_normalized_index_injective(i, j, offset, len);
    }
    assert forall|k: int| 0 <= k < len implies 0 <= #[trigger] denormalized_index_of(
        k,
        offset,
        len,
    ) < len && normalized_index_of(denormalized_index_of(k, offset, len), offset, len) == k by {
        lemma_normalized_index_onto(k, offset, len);
    }
}

/// A 32-bit number has four bytes.
pub proof fn lemma_u32_be_len(v: u32)
    ensures
        u32_be(v).len() == 4,
{
    reveal(u32_be);
}

/// A 64-bit number has eight bytes.
pub proof fn lemma_u64_be_len(v: u64)
    ensures
        u64_be(v).len() == 8,
{
    reveal(u64_be);
    lemma_u32_be_len((v / 0x1_0000_0000) as u32);
    lemma_u32_be_len((v % 0x1_0000_0000) as u32);
}

/// The four bytes of a 32-bit number read back as the number, wherever they
/// stand.
pub proof fn lemma_u32_be_round_trip(before: Seq<u8>, v: u32, after: Seq<u8>)
    ensures
        u32_from_be(before + u32_be(v) + after, before.len() as int) == v,
{
    reveal(u32_be);
    reveal(u32_from_be);
    let s = before + u32_be(v) + after;
    let at = before.len() as int;
    assert(s[at] == u32_be(v)[0]);
    assert(s[at + 1] == u32_be(v)[1]);
    assert(s[at + 2] == u32_be(v)[2]);
    assert(s[at + 3] == u32_be(v)[3]);
}

/// The eight bytes of a 64-bit number read back as the number, wherever
/// they stand.
pub proof fn lemma_u64_be_round_trip(before: Seq<u8>, v: u64, after: Seq<u8>)
    ensures
        u64_from_be(before + u64_be(v) + after, before.len() as int) == v,
{
    reveal(u64_be);
    reveal(u64_from_be);
    lemma_u32_be_len((v / 0x1_0000_0000) as u32);
    lemma_u32_be_len((v % 0x1_0000_0000) as u32);
    let high = u32_be((v / 0x1_0000_0000) as u32);
    let low = u32_be((v % 0x1_0000_0000) as u32);
    let s = before + u64_be(v) + after;
    assert(s =~= before + high + (low + after));
    assert(s =~= (before + high) + low + after);
    lemma_u32_be_round_trip(before, (v / 0x1_0000_0000) as u32, low + after);
    lemma_u32_be_round_trip(before + high, (v % 0x1_0000_0000) as u32, after);
}

/// The payload of the counts from slot `from` on, read into counts that
/// hold the slots before `from` already, gives the counts back.
pub proof fn lemma_payload_round_trip(
    counts: Seq<nat>,
    from: int,
    limit: int,
    before: Seq<u8>,
    partial: Seq<nat>,
    max_count: nat,
)
    requires
        0 <= from <= limit <= counts.len(),
        counts.len() <= 65 * 0x20000,
        partial.len() == counts.len(),
        forall|i: int| 0 <= i < counts.len() ==> counts[i] <= max_count && counts[i] <= i64::MAX,
        forall|i: int| 0 <= i < from ==> partial[i] == counts[i],
        forall|i: int| from <= i < counts.len() ==> partial[i] == 0,
        forall|i: int| limit <= i < counts.len() ==> counts[i] == 0,
    ensures
        filled_counts(
            before + payload_bytes(counts, from, limit),
            before.len() as int,
            partial,
            from,
            max_count,
        ) == Ok::<Seq<nat>, crate::error::DecodeError>(counts),
    decreases limit - from,
{
    let s = before + payload_bytes(counts, from, limit);
    if from >= limit {
        assert(partial =~= counts);
    } else if counts[from] == 0 {
        let z = 1 + zero_run(counts, from + 1, limit);
        lemma_zero_run(counts, from, limit);
        let code = zig_zag_of((-z) as i64);
        let rest = payload_bytes(counts, from + z, limit);
        assert(s =~= before + varint_bytes(code) + rest);
        lemma_varint_round_trip(code, before, rest);
        crate::varint::lemma_zig_zag_round_trip((-z) as i64);
        lemma_payload_round_trip(
            counts,
            from + z,
            limit,
            before + varint_bytes(code),
            partial,
            max_count,
        );
    } else {
        let code = zig_zag_of(count_as_signed(counts[from]));
        let rest = payload_bytes(counts, from + 1, limit);
        assert(s =~= before + varint_bytes(code) + rest);
        lemma_varint_round_trip(code, before, rest);
        crate::varint::lemma_zig_zag_round_trip(count_as_signed(counts[from]));
        lemma_payload_round_trip(
            counts,
            from + 1,
            limit,
            before + varint_bytes(code),
            partial.update(from, counts[from]),
            max_count,
        );
    }
}

/// What follows a 32-bit number does not change how it reads.
pub proof fn lemma_u32_reads_from_prefix(s: Seq<u8>, after: Seq<u8>, at: int)
    requires
        0 <= at,
        at + 4 <= s.len(),
    ensures
        u32_from_be(s + after, at) == u32_from_be(s, at),
{
    reveal(u32_from_be);
    assert((s + after)[at] == s[at]);
    assert((s + after)[at + 1] == s[at + 1]);
    assert((s + after)[at + 2] == s[at + 2]);
    assert((s + after)[at + 3] == s[at + 3]);
}

/// What follows a 64-bit number does not change how it reads.
pub proof fn lemma_u64_reads_from_prefix(s: Seq<u8>, after: Seq<u8>, at: int)
    requires
        0 <= at,
        at + 8 <= s.len(),
    ensures
        u64_from_be(s + after, at) == u64_from_be(s, at),
{
    reveal(u64_from_be);
    lemma_u32_reads_from_prefix(s, after, at);
    lemma_u32_reads_from_prefix(s, after, at + 4);
}

/// The four bytes of a 32-bit number at the end of a byte string read back as
/// the number.
pub proof fn lemma_u32_be_at_end(before: Seq<u8>, v: u32)
    ensures
        u32_from_be(before + u32_be(v), before.len() as int) == v,
        (before + u32_be(v)).len() == before.len() + 4,
{
    lemma_u32_be_len(v);
    assert(before + u32_be(v) + Seq::<u8>::empty() =~= before + u32_be(v));
    lemma_u32_be_round_trip(before, v, Seq::<u8>::empty());
}

/// The eight bytes of a 64-bit number at the end of a byte string read back
/// as the number.
pub proof fn lemma_u64_be_at_end(before: Seq<u8>, v: u64)
    ensures
        u64_from_be(before + u64_be(v), before.len() as int) == v,
        (before + u64_be(v)).len() == before.len() + 8,
{
    lemma_u64_be_len(v);
    assert(before + u64_be(v) + Seq::<u8>::empty() =~= before + u64_be(v));
    lemma_u64_be_round_trip(before, v, Seq::<u8>::empty());
}

/// The six numbers of a header read back as they were written, whatever
/// follows the header.
pub proof fn lemma_header_round_trip(
    cookie: u32,
    payload_len: u32,
    offset: u32,
    digits: u32,
    lowest: u64,
    highest: u64,
    ratio: u64,
    tail: Seq<u8>,
)
    ensures
        ({
            let s = u32_be(cookie) + u32_be(payload_len) + u32_be(offset) + u32_be(digits)
                + u64_be(lowest) + u64_be(highest) + u64_be(ratio) + tail;
            &&& s.len() == 40 + tail.len()
            &&& u32_from_be(s, 0) == cookie
            &&& u32_from_be(s, 4) == payload_len
            &&& u32_from_be(s, 8) == offset
            &&& u32_from_be(s, 12) == digits
            &&& u64_from_be(s, 16) == lowest
            &&& u64_from_be(s, 24) == highest
            &&& s.subrange(40, 40 + tail.len() as int) == tail
        }),
{
    let f1 = u32_be(payload_len);
    let f2 = u32_be(offset);
    let f3 = u32_be(digits);
    let f4 = u64_be(lowest);
    let f5 = u64_be(highest);
    let f6 = u64_be(ratio);
    let x0 = Seq::<u8>::empty() + u32_be(cookie);
    let x1 = x0 + f1;
    let x2 = x1 + f2;
    let x3 = x2 + f3;
    let x4 = x3 + f4;
    let x5 = x4 + f5;
    let x6 = x5 + f6;
    let s = x6 + tail;
    assert(x0 =~= u32_be(cookie));
    lemma_u32_be_at_end(Seq::<u8>::empty(), cookie);
    lemma_u32_be_at_end(x0, payload_len);
    lemma_u32_be_at_end(x1, offset);
    lemma_u32_be_at_end(x2, digits);
    lemma_u64_be_at_end(x3, lowest);
    lemma_u64_be_at_end(x4, highest);
    lemma_u64_be_at_end(x5, ratio);
    // the cookie
    lemma_u32_reads_from_prefix(x0, f1, 0);
    lemma_u32_reads_from_prefix(x1, f2, 0);
    lemma_u32_reads_from_prefix(x2, f3, 0);
    lemma_u32_reads_from_prefix(x3, f4, 0);
    lemma_u32_reads_from_prefix(x4, f5, 0);
    lemma_u32_reads_from_prefix(x5, f6, 0);
    lemma_u32_reads_from_prefix(x6, tail, 0);
    // the length of the payload
    lemma_u32_reads_from_prefix(x1, f2, 4);
    lemma_u32_reads_from_prefix(x2, f3, 4);
    lemma_u32_reads_from_prefix(x3, f4, 4);
    lemma_u32_reads_from_prefix(x4, f5, 4);
    lemma_u32_reads_from_prefix(x5, f6, 4);
    lemma_u32_reads_from_prefix(x6, tail, 4);
    // the rotation
    lemma_u32_reads_from_prefix(x2, f3, 8);
    lemma_u32_reads_from_prefix(x3, f4, 8);
    lemma_u32_reads_from_prefix(x4, f5, 8);
    lemma_u32_reads_from_prefix(x5, f6, 8);
    lemma_u32_reads_from_prefix(x6, tail, 8);
    // the number of significant digits
    lemma_u32_reads_from_prefix(x3, f4, 12);
    lemma_u32_reads_from_prefix(x4, f5, 12);
    lemma_u32_reads_from_prefix(x5, f6, 12);
    lemma_u32_reads_from_prefix(x6, tail, 12);
    // the smallest discernible value
    lemma_u64_reads_from_prefix(x4, f5, 16);
    lemma_u64_reads_from_prefix(x5, f6, 16);
    lemma_u64_reads_from_prefix(x6, tail, 16);
    // the highest trackable value
    lemma_u64_reads_from_prefix(x5, f6, 24);
    lemma_u64_reads_from_prefix(x6, tail, 24);
    assert(s.subrange(40, 40 + tail.len() as int) =~= tail);
}

/// Encoding then decoding gives a histogram with the parameters, the counts
/// and the total of the first, and with the trackers that its counts give,
/// if each count is one that the decoder's count type and a signed 64-bit
/// number can hold. Where the trackers of the first are those that its counts
/// give, that histogram is the first.
pub proof fn lemma_serialization_round_trip(h: HistogramState, word_size: nat, max_count: nat)
    requires
        h.wf(),
        forall|i: int|
            0 <= i < h.counts.len() ==> h.counts[i] <= max_count && h.counts[i] <= i64::MAX,
    ensures
        decoded(encoded_bytes(h, word_size), word_size, max_count) == Ok::<
            HistogramState,
            crate::error::DecodeError,
        >(
            HistogramState::from_counts(
                h.lowest_discernible_value,
                h.highest_trackable_value,
                h.significant_value_digits,
                h.normalizing_index_offset,
                h.counts,
            ),
        ),
        h.max_value == h.max_value_of_counts() && h.min_non_zero_value
            == h.min_non_zero_value_of_counts() ==> decoded(
            encoded_bytes(h, word_size),
            word_size,
            max_count,
        ) == Ok::<HistogramState, crate::error::DecodeError>(h),
{
    let limit = encoded_slots(h);
    let payload = payload_bytes(h.counts, 0, limit);
    let bytes = encoded_bytes(h, word_size);
    let len = h.counts.len();
    lemma_layout_bounds(
        h.lowest_discernible_value,
        h.highest_trackable_value,
        h.significant_value_digits,
    );
    lemma_payload_len(h.counts, 0, limit);
    lemma_header_round_trip(
        cookie_of(word_size),
        payload.len() as u32,
        unsigned_of(h.normalizing_index_offset),
        h.significant_value_digits,
        h.lowest_discernible_value,
        h.highest_trackable_value,
        0,
        payload,
    );
    let zeros = Seq::new(len, |i: int| 0nat);
    let filled = filled_counts(payload, 0, zeros, 0, max_count);
    assert(filled == Ok::<Seq<nat>, crate::error::DecodeError>(h.counts)) by {
        let empty = Seq::<u8>::empty();
        assert(payload =~= empty + payload_bytes(h.counts, 0, limit));
        lemma_payload_round_trip(h.counts, 0, limit, empty, zeros, max_count);
    }
    let rebuilt = HistogramState::from_counts(
        h.lowest_discernible_value,
        h.highest_trackable_value,
        h.significant_value_digits,
        h.normalizing_index_offset,
        h.counts,
    );
    assert(signed_of(unsigned_of(h.normalizing_index_offset)) == h.normalizing_index_offset);
    assert(decoded(bytes, word_size, max_count) == Ok::<HistogramState, crate::error::DecodeError>(
        rebuilt,
    ));
    if h.max_value == h.max_value_of_counts() && h.min_non_zero_value
        == h.min_non_zero_value_of_counts() {
        assert(rebuilt.max_value == h.max_value);
        assert(rebuilt.min_non_zero_value == h.min_non_zero_value);
        assert(rebuilt == h);
    }
}

} // verus!
