//! What a histogram is, as mathematics: its parameters, the count of each
//! slot by its logical index, and the three trackers.

use vstd::prelude::*;
use vstd::arithmetic::power2::*;
use crate::error::RecordError;
use crate::percentile::Percentile;
use crate::index::{
    bucket_index_of,
    counts_index_of,
    highest_equivalent_of,
    lowest_equivalent_of,
    next_non_equivalent_of,
    range_size_of,
    sub_bucket_index_of,
    unit_base_of,
    unit_top_of,
    value_at_index,
};
use crate::layout::{
    bucket_count_of,
    counts_len_of,
    half_count_magnitude_of,
    unit_magnitude_of,
    valid_parameters,
};

verus! {

/// The sum of the first `n` counts.
pub open spec fn sum_to(counts: Seq<nat>, n: int) -> nat
    decreases n,
{
    if n <= 0 {
        0
    } else if n > counts.len() {
        sum_to(counts, n - 1)
    } else {
        sum_to(counts, n - 1) + counts[n - 1]
    }
}

/// The first index from `from` on up to and with which the counts sum to at
/// least `target`; the number of counts if there is none.
pub open spec fn first_index_reaching(counts: Seq<nat>, target: nat, from: int) -> int
    decreases counts.len() - from,
{
    if from >= counts.len() {
        counts.len() as int
    } else if sum_to(counts, from + 1) >= target {
        from
    } else {
        first_index_reaching(counts, target, from + 1)
    }
}

/// The last index below `n` whose count is not 0; -1 if there is none.
pub open spec fn last_nonzero_index(counts: Seq<nat>, n: int) -> int
    decreases n,
{
    if n <= 0 || n > counts.len() {
        -1
    } else if counts[n - 1] != 0 {
        n - 1
    } else {
        last_nonzero_index(counts, n - 1)
    }
}

/// The first index from `from` on whose count is not 0; the number of counts
/// if there is none.
pub open spec fn first_nonzero_index(counts: Seq<nat>, from: int) -> int
    decreases counts.len() - from,
{
    if from < 0 || from >= counts.len() {
        counts.len() as int
    } else if counts[from] != 0 {
        from
    } else {
        first_nonzero_index(counts, from + 1)
    }
}

/// The state of a histogram.
pub struct HistogramState {
    /// The smallest value that is told apart from 0.
    pub lowest_discernible_value: u64,
    /// The value up to which the histogram was asked to count.
    pub highest_trackable_value: u64,
    /// The number of significant decimal digits.
    pub significant_value_digits: u32,
    /// By how many slots the array is rotated.
    pub normalizing_index_offset: i32,
    /// The count of each slot, by its logical index.
    pub counts: Seq<nat>,
    /// The number of values recorded.
    pub total_count: u64,
    /// The end of the unit of the largest value recorded; 0 if there is none.
    pub max_value: u64,
    /// The start of the unit of the smallest value recorded that is at least
    /// one unit; `u64::MAX` if there is none.
    pub min_non_zero_value: u64,
}

impl HistogramState {
    /// The exponent of the unit: values are told apart in steps of `2^unit_magnitude`.
    pub open spec fn unit_magnitude(self) -> nat {
        unit_magnitude_of(self.lowest_discernible_value)
    }

    /// The exponent of half the number of sub-buckets.
    pub open spec fn half_count_magnitude(self) -> nat {
        half_count_magnitude_of(self.significant_value_digits)
    }

    /// The number of sub-buckets of a bucket.
    pub open spec fn sub_bucket_count(self) -> nat {
        pow2(self.half_count_magnitude() + 1)
    }

    /// Half the number of sub-buckets of a bucket.
    pub open spec fn sub_bucket_half_count(self) -> nat {
        pow2(self.half_count_magnitude())
    }

    /// The number of buckets.
    pub open spec fn bucket_count(self) -> nat {
        bucket_count_of(
            self.lowest_discernible_value,
            self.highest_trackable_value,
            self.significant_value_digits,
        )
    }

    /// The number of slots.
    pub open spec fn counts_len(self) -> nat {
        counts_len_of(
            self.lowest_discernible_value,
            self.highest_trackable_value,
            self.significant_value_digits,
        )
    }

    /// The state is one that a histogram can be in: the parameters are valid,
    /// the array has the length that they give, the rotation is shorter than
    /// the array, the total is the sum of the counts, and no slot beyond the
    /// slot of the largest value holds a count.
    pub open spec fn wf(self) -> bool {
        &&& valid_parameters(
            self.lowest_discernible_value,
            self.highest_trackable_value,
            self.significant_value_digits,
        )
        &&& self.counts.len() == self.counts_len()
        &&& -self.counts_len() < self.normalizing_index_offset < self.counts_len()
        &&& self.total_count == sum_to(self.counts, self.counts.len() as int)
        &&& self.empty_beyond_max()
    }

    /// No slot beyond the slot of the largest value holds a count.
    pub open spec fn empty_beyond_max(self) -> bool {
        forall|i: int|
            self.counts_array_index(self.max_value) < i < self.counts.len() ==> self.counts[i]
                == 0
    }

    /// The histogram with these parameters that nothing was recorded in.
    pub open spec fn empty(lowest: u64, highest: u64, digits: u32) -> HistogramState {
        HistogramState {
            lowest_discernible_value: lowest,
            highest_trackable_value: highest,
            significant_value_digits: digits,
            normalizing_index_offset: 0,
            counts: Seq::new(counts_len_of(lowest, highest, digits), |i: int| 0nat),
            total_count: 0,
            max_value: 0,
            min_non_zero_value: u64::MAX,
        }
    }

    /// The largest value that the counts tell of: the highest value of the
    /// last slot that holds a count; 0 if there is none.
    pub open spec fn max_value_of_counts(self) -> u64 {
        let i = last_nonzero_index(self.counts, self.counts.len() as int);
        if i < 0 {
            0
        } else {
            highest_equivalent_of(
                self.value_from_index(i as nat),
                self.unit_magnitude(),
                self.half_count_magnitude(),
            ) as u64
        }
    }

    /// The smallest value of at least one unit that the counts tell of: the
    /// lowest value of the first slot after slot 0 that holds a count;
    /// `u64::MAX` if there is none.
    pub open spec fn min_non_zero_value_of_counts(self) -> u64 {
        let i = first_nonzero_index(self.counts, 1);
        if i >= self.counts.len() {
            u64::MAX
        } else {
            self.value_from_index(i as nat) as u64
        }
    }

    /// The histogram with these parameters and counts, and with the total
    /// and the trackers that the counts give.
    pub open spec fn from_counts(
        lowest: u64,
        highest: u64,
        digits: u32,
        offset: i32,
        counts: Seq<nat>,
    ) -> HistogramState {
        let bare = HistogramState {
            lowest_discernible_value: lowest,
            highest_trackable_value: highest,
            significant_value_digits: digits,
            normalizing_index_offset: offset,
            counts,
            total_count: sum_to(counts, counts.len() as int) as u64,
            max_value: 0,
            min_non_zero_value: u64::MAX,
        };
        HistogramState {
            max_value: bare.max_value_of_counts(),
            min_non_zero_value: bare.min_non_zero_value_of_counts(),
            ..bare
        }
    }

    /// The bucket that holds `v`.
    pub open spec fn bucket_index(self, v: u64) -> nat {
        bucket_index_of(v as nat, self.unit_magnitude(), self.half_count_magnitude())
    }

    /// The position of `v` in bucket `b`.
    pub open spec fn sub_bucket_index(self, v: u64, b: nat) -> nat {
        sub_bucket_index_of(v as nat, b, self.unit_magnitude())
    }

    /// The logical index of the slot that counts `v`.
    pub open spec fn counts_array_index(self, v: u64) -> nat {
        counts_index_of(v as nat, self.unit_magnitude(), self.half_count_magnitude())
    }

    /// The smallest value that the slot with logical index `i` counts.
    pub open spec fn value_from_index(self, i: nat) -> nat {
        value_at_index(i, self.unit_magnitude(), self.half_count_magnitude())
    }

    /// The number of values that share a slot with `v`.
    pub open spec fn size_of_equivalent_value_range(self, v: u64) -> nat {
        range_size_of(v as nat, self.unit_magnitude(), self.half_count_magnitude())
    }

    /// The smallest value that shares a slot with `v`.
    pub open spec fn lowest_equivalent_value(self, v: u64) -> nat {
        lowest_equivalent_of(v as nat, self.unit_magnitude(), self.half_count_magnitude())
    }

    /// The largest value that shares a slot with `v`.
    pub open spec fn highest_equivalent_value(self, v: u64) -> nat {
        highest_equivalent_of(v as nat, self.unit_magnitude(), self.half_count_magnitude())
    }

    /// The smallest value above `v` that does not share a slot with it.
    pub open spec fn next_non_equivalent_value(self, v: u64) -> nat {
        next_non_equivalent_of(v as nat, self.unit_magnitude(), self.half_count_magnitude())
    }

    /// The logical index at which `v` is looked up: its slot, or the last
    /// slot if its slot lies beyond the array.
    pub open spec fn clamped_index(self, v: u64) -> int {
        if self.counts_array_index(v) < self.counts_len() {
            self.counts_array_index(v) as int
        } else {
            self.counts_len() - 1
        }
    }

    /// The count of the slot at which `v` is looked up.
    pub open spec fn count_at_value(self, v: u64) -> nat {
        self.counts[self.clamped_index(v)]
    }

    /// The sum of the counts of the slots up to and with logical index `i`.
    pub open spec fn count_to_index(self, i: int) -> nat {
        sum_to(self.counts, i + 1)
    }

    /// The value at which the counts reach `target`: of the first slot up to
    /// and with which the counts sum to at least `target`, the lowest value if
    /// `lowest` and the highest value if not. 0 if the counts never reach
    /// `target`.
    pub open spec fn value_at_count(self, target: nat, lowest: bool) -> nat {
        let i = first_index_reaching(self.counts, target, 0);
        if i >= self.counts.len() {
            0
        } else if lowest {
            lowest_equivalent_of(
                self.value_from_index(i as nat),
                self.unit_magnitude(),
                self.half_count_magnitude(),
            )
        } else {
            highest_equivalent_of(
                self.value_from_index(i as nat),
                self.unit_magnitude(),
                self.half_count_magnitude(),
            )
        }
    }

    /// The logical index of the first slot up to and with which the counts
    /// reach what the percentile asks for; the number of slots if the
    /// histogram is empty.
    pub open spec fn index_at_percentile(self, percentile: Percentile) -> int {
        first_index_reaching(self.counts, percentile.target_count(self.total_count), 0)
    }

    /// The value at a percentile: the value at which the counts reach what
    /// the percentile asks for, the lowest value of its slot at 0 percent and
    /// the highest value at any other percentile. 0 if the histogram is empty.
    pub open spec fn value_at_percentile(self, percentile: Percentile) -> nat {
        self.value_at_count(percentile.target_count(self.total_count), percentile.is_zero())
    }

    /// Whether `v` can be recorded, in a histogram whose counts are at most
    /// `max_count` each; if not, why not.
    pub open spec fn record_outcome(self, v: u64, max_count: nat) -> Result<(), RecordError> {
        if self.counts_array_index(v) >= self.counts_len() {
            Err(RecordError::ValueOutOfRange)
        } else if self.total_count == u64::MAX {
            Err(RecordError::CountOverflow)
        } else if self.counts[self.counts_array_index(v) as int] >= max_count {
            Err(RecordError::CountOverflow)
        } else {
            Ok(())
        }
    }

    /// The largest value recorded, once `v` is recorded too.
    pub open spec fn max_value_with(self, v: u64) -> u64 {
        let top = unit_top_of(v as nat, self.unit_magnitude());
        if top > self.max_value {
            top as u64
        } else {
            self.max_value
        }
    }

    /// The smallest value recorded that is at least one unit, once `v` is
    /// recorded too.
    pub open spec fn min_non_zero_value_with(self, v: u64) -> u64 {
        if v >= pow2(self.unit_magnitude()) && v < self.min_non_zero_value {
            unit_base_of(v as nat, self.unit_magnitude()) as u64
        } else {
            self.min_non_zero_value
        }
    }

    /// The state after `v` was recorded.
    pub open spec fn record(self, v: u64) -> HistogramState {
        HistogramState {
            counts: self.counts.update(
                self.counts_array_index(v) as int,
                self.counts[self.counts_array_index(v) as int] + 1,
            ),
            total_count: (self.total_count + 1) as u64,
            max_value: self.max_value_with(v),
            min_non_zero_value: self.min_non_zero_value_with(v),
            ..self
        }
    }
}

/// Recording a value leaves no count beyond the slot of the largest value.
pub proof fn lemma_record_keeps_empty_beyond_max(h: HistogramState, v: u64)
    requires
        h.empty_beyond_max(),
        h.counts_array_index(v) < h.counts.len(),
        h.unit_magnitude() < 64,
    ensures
        h.record(v).empty_beyond_max(),
{
    let um = h.unit_magnitude();
    let hm = h.half_count_magnitude();
    let after = h.record(v);
    lemma_slot_end_fits(v, um);
    crate::index::lemma_unit_top_shares_slot(v as nat, um, hm);
    crate::index::lemma_counts_index_monotone(
        unit_top_of(v as nat, um),
        after.max_value as nat,
        um,
        hm,
    );
    crate::index::lemma_counts_index_monotone(h.max_value as nat, after.max_value as nat, um, hm);
}

/// The unit of a 64-bit value ends within 64 bits.
pub proof fn lemma_slot_end_fits(v: u64, um: nat)
    ensures
        um < 64 ==> (v as nat / pow2(um)) * pow2(um) + pow2(um) <= 0x1_0000_0000_0000_0000,
        um < 64 ==> v <= unit_top_of(v as nat, um) <= u64::MAX,
{
    if um < 64 {
        let u = pow2(um) as int;
        let w = pow2((64 - um) as nat) as int;
        lemma_pow2_pos(um);
        lemma_pow2_adds(um, (64 - um) as nat);
        lemma2_to64();
        vstd::arithmetic::div_mod::lemma_fundamental_div_mod(v as int, u);
        vstd::arithmetic::div_mod::lemma_mod_bound(v as int, u);
        let m = v as int / u;
        assert(m < w) by (nonlinear_arith)
            requires
                u * m <= v,
                v < u * w,
                u > 0,
        ;
        assert(m * u + u <= u * w && m * u == u * m) by (nonlinear_arith)
            requires
                m + 1 <= w,
                u > 0,
        ;
    }
}

/// No count after the last one that is not 0 is not 0.
pub proof fn lemma_last_nonzero_index(counts: Seq<nat>, n: int)
    requires
        0 <= n <= counts.len(),
    ensures
        -1 <= last_nonzero_index(counts, n) < n,
        last_nonzero_index(counts, n) >= 0 ==> counts[last_nonzero_index(counts, n)] != 0,
        forall|i: int| last_nonzero_index(counts, n) < i < n ==> counts[i] == 0,
    decreases n,
{
    if n > 0 && counts[n - 1] == 0 {
        lemma_last_nonzero_index(counts, n - 1);
    }
}

/// No count before the first one that is not 0 is not 0.
pub proof fn lemma_first_nonzero_index(counts: Seq<nat>, from: int)
    requires
        0 <= from <= counts.len(),
    ensures
        from <= first_nonzero_index(counts, from) <= counts.len(),
        first_nonzero_index(counts, from) < counts.len() ==> counts[first_nonzero_index(
            counts,
            from,
        )] != 0,
        forall|i: int| from <= i < first_nonzero_index(counts, from) ==> counts[i] == 0,
    decreases counts.len() - from,
{
    if from < counts.len() && counts[from] == 0 {
        lemma_first_nonzero_index(counts, from + 1);
    }
}

/// The zero counts sum to zero.
pub proof fn lemma_sum_to_zeros(counts: Seq<nat>, n: int)
    requires
        forall|i: int| 0 <= i < counts.len() ==> counts[i] == 0,
    ensures
        sum_to(counts, n) == 0,
    decreases n,
{
    if n > 0 {
        lemma_sum_to_zeros(counts, n - 1);
    }
}

/// Adding one to the count of slot `k` adds one to every sum that reaches
/// slot `k`, and nothing to the others.
pub proof fn lemma_sum_to_update(counts: Seq<nat>, k: int, n: int)
    requires
        0 <= k < counts.len(),
    ensures
        sum_to(counts.update(k, counts[k] + 1), n) == sum_to(counts, n) + if k < n {
            1nat
        } else {
            0nat
        },
    decreases n,
{
    if n > 0 {
        lemma_sum_to_update(counts, k, n - 1);
    }
}

/// The sums grow with the number of counts summed, and each count is at
/// most the sum that holds it.
pub proof fn lemma_sum_to_monotone(counts: Seq<nat>, m: int, n: int)
    requires
        m <= n,
    ensures
        sum_to(counts, m) <= sum_to(counts, n),
        0 <= m < n && m < counts.len() ==> sum_to(counts, m) + counts[m] <= sum_to(counts, n),
    decreases n - m,
{
    if m < n {
        lemma_sum_to_monotone(counts, m + 1, n);
    }
}

} // verus!
