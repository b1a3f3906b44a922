//! The histogram: a counts array of fixed size, and the functions that
//! record into it and look values up in it.

use vstd::prelude::*;
use vstd::arithmetic::power2::*;
use vstd::arithmetic::div_mod::*;
use vstd::bits::*;
use vstd::std_specs::bits::*;
use crate::count::HistogramCount;
use crate::error::RecordError;
use crate::index::{
    bucket_index_of,
    lemma_bucket_index_bounds,
    lemma_bucket_index_by_leading_zeros,
    lemma_equivalent_range,
    lemma_leading_zeros_by_log2,
    lemma_normalized_index_in_range,
    denormalized_index_of,
    lemma_normalized_index_injective,
    lemma_normalized_index_onto,
    lemma_sub_bucket_index_bounds,
    lemma_unit_mask,
    normalized_index_of,
    slot_of,
    unit_base_of,
    unit_top_of,
    value_at_index,
};
use crate::layout::{
    bucket_count_of,
    buckets_needed_for_value,
    counts_arr_len_for_buckets,
    counts_len_of,
    half_count_magnitude_of,
    lemma_half_count_magnitude_values,
    lemma_layout_bounds,
    lemma_values_below_top,
    pow10,
    unit_magnitude_of,
    valid_parameters,
};
use crate::percentile::Percentile;
use crate::state::{
    first_index_reaching,
    first_nonzero_index,
    HistogramState,
    last_nonzero_index,
    lemma_first_nonzero_index,
    lemma_last_nonzero_index,
    lemma_sum_to_monotone,
    lemma_sum_to_update,
    lemma_sum_to_zeros,
    sum_to,
};

verus! {

/// A histogram of 64-bit values whose slots hold counts of type `T`.
#[derive(Debug)]
pub struct SimpleHdrHistogram<T: HistogramCount> {
    lowest_discernible_value: u64,
    highest_trackable_value: u64,
    significant_value_digits: u32,
    /// Number of leading zeros in the largest value that can fit in bucket 0.
    leading_zeros_count_base: usize,
    /// Biggest value that can fit in bucket 0
    sub_bucket_mask: u64,
    unit_magnitude: u32,
    sub_bucket_count: usize,
    // always at least 1
    sub_bucket_half_count: usize,
    sub_bucket_half_count_magnitude: u32,
    bucket_count: usize,
    counts: Vec<T>,
    /// Index offset (used to express left/right shifts of values)
    normalizing_index_offset: i32,
    max_value: u64,
    min_non_zero_value: u64,
    unit_magnitude_mask: u64,
    total_count: u64,
}

impl<T: HistogramCount> View for SimpleHdrHistogram<T> {
    type V = HistogramState;

    closed spec fn view(&self) -> HistogramState {
        HistogramState {
            lowest_discernible_value: self.lowest_discernible_value,
            highest_trackable_value: self.highest_trackable_value,
            significant_value_digits: self.significant_value_digits,
            normalizing_index_offset: self.normalizing_index_offset,
            counts: Seq::new(
                self.counts@.len(),
                |i: int|
                    self.counts@[normalized_index_of(
                        i,
                        self.normalizing_index_offset as int,
                        self.counts@.len() as int,
                    )].value(),
            ),
            total_count: self.total_count,
            max_value: self.max_value,
            min_non_zero_value: self.min_non_zero_value,
        }
    }
}

/// Whether a histogram can be made with these parameters.
pub fn is_valid_configuration(
    lowest_discernible_value: u64,
    highest_trackable_value: u64,
    num_significant_digits: u32,
) -> (r: bool)
    ensures
        r == valid_parameters(
            lowest_discernible_value,
            highest_trackable_value,
            num_significant_digits,
        ),
{
    if lowest_discernible_value < 1 || num_significant_digits > 5 {
        return false;
    }
    if lowest_discernible_value > u64::MAX / 2 || highest_trackable_value < 2
        * lowest_discernible_value {
        return false;
    }
    let unit_magnitude = unit_magnitude_for(lowest_discernible_value);
    let half_count_magnitude = half_count_magnitude_for(num_significant_digits);
    unit_magnitude + half_count_magnitude <= 62
}

/// A histogram with 64-bit counts.
///
/// lowest_discernible_value: must be >= 1
/// highest_trackable_value: must be >= 2 * lowest_discernible_value
/// num_significant_digits: must be <= 5
pub fn init_histo(
    lowest_discernible_value: u64,
    highest_trackable_value: u64,
    num_significant_digits: u32,
) -> (r: SimpleHdrHistogram<u64>)
    requires
        valid_parameters(
            lowest_discernible_value,
            highest_trackable_value,
            num_significant_digits,
        ),
    ensures
        r.wf(),
        r@ == HistogramState::empty(
            lowest_discernible_value,
            highest_trackable_value,
            num_significant_digits,
        ),
{
    SimpleHdrHistogram::new(
        lowest_discernible_value,
        highest_trackable_value,
        num_significant_digits,
    )
}

/// The unit magnitude for a smallest discernible value.
fn unit_magnitude_for(lowest_discernible_value: u64) -> (r: u32)
    requires
        lowest_discernible_value >= 1,
    ensures
        r == unit_magnitude_of(lowest_discernible_value),
        r <= 63,
{
    proof {
        lemma_leading_zeros_by_log2(lowest_discernible_value);
    }
    63 - lowest_discernible_value.leading_zeros()
}

/// The half-count magnitude for a number of significant digits.
fn half_count_magnitude_for(num_significant_digits: u32) -> (r: u32)
    requires
        num_significant_digits <= 5,
    ensures
        r == half_count_magnitude_of(num_significant_digits),
        r <= 17,
{
    let mut largest_value_with_single_unit_resolution: u64 = 2;
    let mut i: u32 = 0;
    while i < num_significant_digits
        invariant
            i <= num_significant_digits <= 5,
            largest_value_with_single_unit_resolution == 2 * pow10(i as nat),
            largest_value_with_single_unit_resolution <= 200000,
        decreases num_significant_digits - i,
    {
        proof {
            reveal_with_fuel(pow10, 7);
        }
        largest_value_with_single_unit_resolution = largest_value_with_single_unit_resolution
            * 10;
        i += 1;
    }
    proof {
        lemma_half_count_magnitude_values();
        lemma_leading_zeros_by_log2((largest_value_with_single_unit_resolution - 1) as u64);
    }
    // find nearest power of 2 to largest_value_with_single_unit_resolution
    let sub_bucket_count_magnitude: u32 = 64 - (largest_value_with_single_unit_resolution
        - 1).leading_zeros();
    (if sub_bucket_count_magnitude > 1 {
        sub_bucket_count_magnitude
    } else {
        1
    }) - 1
}

impl<T: HistogramCount> SimpleHdrHistogram<T> {
    /// The fields agree with each other and with the parameters, and the
    /// state is one that a histogram can be in.
    pub closed spec fn wf(&self) -> bool {
        &&& self.layout_wf()
        &&& self.total_count == sum_to(self@.counts, self.counts@.len() as int)
        &&& self@.empty_beyond_max()
    }

    /// The fields that do not change after construction are what the
    /// parameters make them, and the array has its length.
    pub closed spec fn layout_wf(&self) -> bool {
        let um = unit_magnitude_of(self.lowest_discernible_value);
        let hm = half_count_magnitude_of(self.significant_value_digits);
        &&& valid_parameters(
            self.lowest_discernible_value,
            self.highest_trackable_value,
            self.significant_value_digits,
        )
        &&& self.unit_magnitude == um
        &&& self.sub_bucket_half_count_magnitude == hm
        &&& self.sub_bucket_count == pow2(hm + 1)
        &&& self.sub_bucket_half_count == pow2(hm)
        &&& self.sub_bucket_mask == (pow2(hm + 1) - 1) * pow2(um)
        &&& self.unit_magnitude_mask == pow2(um) - 1
        &&& self.leading_zeros_count_base == 63 - um - hm
        &&& self.bucket_count == bucket_count_of(
            self.lowest_discernible_value,
            self.highest_trackable_value,
            self.significant_value_digits,
        )
        &&& self.counts@.len() == counts_len_of(
            self.lowest_discernible_value,
            self.highest_trackable_value,
            self.significant_value_digits,
        )
        &&& -self.counts@.len() < self.normalizing_index_offset < self.counts@.len()
    }

    /// A well-formed histogram is in a well-formed state, and each of its
    /// counts is one that its count type can hold.
    pub proof fn lemma_wf_state(&self)
        requires
            self.wf(),
        ensures
            self@.wf(),
            forall|i: int| 0 <= i < self@.counts.len() ==> self@.counts[i] <= T::spec_max_value(),
    {
        let len = self.counts@.len() as int;
        let off = self.normalizing_index_offset as int;
        assert forall|i: int| 0 <= i < self@.counts.len() implies self@.counts[i]
            <= T::spec_max_value() by {
            lemma_normalized_index_in_range(i, off, len);
            self.counts@[normalized_index_of(i, off, len)].lemma_value_in_range();
        }
    }

    /// lowest_discernible_value: must be >= 1
    /// highest_trackable_value: must be >= 2 * lowest_discernible_value
    /// num_significant_digits: must be <= 5
    pub fn new(
        lowest_discernible_value: u64,
        highest_trackable_value: u64,
        num_significant_digits: u32,
    ) -> (r: SimpleHdrHistogram<T>)
        requires
            valid_parameters(
                lowest_discernible_value,
                highest_trackable_value,
                num_significant_digits,
            ),
        ensures
            r.wf(),
            r@ == HistogramState::empty(
                lowest_discernible_value,
                highest_trackable_value,
                num_significant_digits,
            ),
    {
        let ghost um = unit_magnitude_of(lowest_discernible_value);
        let ghost hm = half_count_magnitude_of(num_significant_digits);
        proof {
            lemma_layout_bounds(
                lowest_discernible_value,
                highest_trackable_value,
                num_significant_digits,
            );
            lemma2_to64();
            lemma2_to64_rest();
        }
        let unit_magnitude = unit_magnitude_for(lowest_discernible_value);
        proof {
            lemma_u64_pow2_no_overflow(um);
            lemma_u64_shl_is_mul(1, unit_magnitude as u64);
        }
        let unit_magnitude_mask: u64 = (1_u64 << (unit_magnitude as u64)) - 1;

        let sub_bucket_half_count_magnitude = half_count_magnitude_for(num_significant_digits);
        let sub_bucket_count_wide: u64 = 1_u64 << ((sub_bucket_half_count_magnitude + 1) as u64);
        proof {
            lemma_u64_pow2_no_overflow(hm + 1);
            lemma_u64_shl_is_mul(1, (sub_bucket_half_count_magnitude + 1) as u64);
            lemma_pow2_unfold(hm + 1);
            if hm + 1 < 18 {
                lemma_pow2_strictly_increases(hm + 1, 18);
            }
            assert(um + hm + 1 == (hm + 1) + um);
            lemma_pow2_adds(hm + 1, um);
            lemma_u64_pow2_no_overflow(um + hm + 1);
            assert((pow2(hm + 1) - 1) * pow2(um) < pow2(hm + 1) * pow2(um)) by (nonlinear_arith)
                requires
                    pow2(um) > 0,
            ;
            lemma_u64_shl_is_mul((sub_bucket_count_wide - 1) as u64, unit_magnitude as u64);
        }
        let sub_bucket_count: usize = sub_bucket_count_wide as usize;
        let sub_bucket_half_count: usize = sub_bucket_count / 2;
        let sub_bucket_mask = (sub_bucket_count_wide - 1) << (unit_magnitude as u64);

        let bucket_count = buckets_needed_for_value(
            highest_trackable_value,
            sub_bucket_count,
            unit_magnitude,
        );
        proof {
            assert((bucket_count + 1) * (sub_bucket_count / 2) <= 65 * 0x20000);
        }
        let counts_arr_len = counts_arr_len_for_buckets(bucket_count, sub_bucket_count);

        // this is a small number (0 - 63) so any usize can hold it
        let leading_zero_count_base: usize = (64_u32 - unit_magnitude
            - sub_bucket_half_count_magnitude - 1) as usize;

        let mut counts: Vec<T> = Vec::new();
        let mut i: usize = 0;
        while i < counts_arr_len
            invariant
                i <= counts_arr_len,
                counts@.len() == i,
                forall|j: int| 0 <= j < i ==> (#[trigger] counts@[j]).value() == 0,
            decreases counts_arr_len - i,
        {
            counts.push(T::zero());
            i += 1;
        }

        let r = SimpleHdrHistogram {
            lowest_discernible_value,
            highest_trackable_value,
            significant_value_digits: num_significant_digits,
            leading_zeros_count_base: leading_zero_count_base,
            unit_magnitude,
            sub_bucket_mask,
            sub_bucket_count,
            sub_bucket_half_count,
            sub_bucket_half_count_magnitude,
            bucket_count,
            counts,
            normalizing_index_offset: 0,  // no shift has taken place
            min_non_zero_value: u64::MAX,
            total_count: 0,
            max_value: 0,
            unit_magnitude_mask,
        };
        proof {
            assert(r@.counts =~= HistogramState::empty(
                lowest_discernible_value,
                highest_trackable_value,
                num_significant_digits,
            ).counts);
            lemma_sum_to_zeros(r@.counts, r.counts@.len() as int);
        }
        r
    }

    /// Returns the number of values stored in this histo
    pub fn get_count(&self) -> (r: u64)
        ensures
            r == self@.total_count,
    {
        self.total_count
    }

    /// Returns the max value stored; 0 if no values have been stored.
    pub fn get_max(&self) -> (r: u64)
        ensures
            r == self@.max_value,
    {
        self.max_value
    }

    /// Returns the minimum value stored that is at least one unit;
    /// `u64::MAX` if there is none.
    pub fn get_min_non_zero(&self) -> (r: u64)
        ensures
            r == self@.min_non_zero_value,
    {
        self.min_non_zero_value
    }

    /// Returns the value k such that 2^k <= lowest discernible value
    pub fn get_unit_magnitude(&self) -> (r: u32)
        requires
            self.wf(),
        ensures
            r == self@.unit_magnitude(),
    {
        self.unit_magnitude
    }

    /// The largest value below one unit.
    pub fn get_unit_magnitude_mask(&self) -> (r: u64)
        requires
            self.wf(),
        ensures
            r == pow2(self@.unit_magnitude()) - 1,
    {
        self.unit_magnitude_mask
    }

    /// The number of sub-buckets of a bucket.
    pub fn get_sub_bucket_count(&self) -> (r: usize)
        requires
            self.wf(),
        ensures
            r == self@.sub_bucket_count(),
    {
        self.sub_bucket_count
    }

    /// Half the number of sub-buckets of a bucket.
    pub fn get_sub_bucket_half_count(&self) -> (r: usize)
        requires
            self.wf(),
        ensures
            r == self@.sub_bucket_half_count(),
    {
        self.sub_bucket_half_count
    }

    /// The exponent of half the number of sub-buckets.
    pub fn get_sub_bucket_half_count_magnitude(&self) -> (r: u32)
        requires
            self.wf(),
        ensures
            r == self@.half_count_magnitude(),
    {
        self.sub_bucket_half_count_magnitude
    }

    /// The largest value of bucket 0, less the bits below one unit.
    pub fn get_sub_bucket_mask(&self) -> (r: u64)
        requires
            self.wf(),
        ensures
            r == (self@.sub_bucket_count() - 1) * pow2(self@.unit_magnitude()),
    {
        self.sub_bucket_mask
    }

    /// The number of leading zero bits of the largest value of bucket 0.
    pub fn get_leading_zeros_count_base(&self) -> (r: usize)
        requires
            self.wf(),
        ensures
            r == 63 - self@.unit_magnitude() - self@.half_count_magnitude(),
    {
        self.leading_zeros_count_base
    }

    /// The number of buckets.
    pub fn get_bucket_count(&self) -> (r: usize)
        requires
            self.wf(),
        ensures
            r == self@.bucket_count(),
    {
        self.bucket_count
    }

    /// The number of slots.
    pub fn counts_len(&self) -> (r: usize)
        requires
            self.wf(),
        ensures
            r == self@.counts_len(),
            r == self@.counts.len(),
    {
        self.counts.len()
    }

    /// The smallest value that is told apart from 0.
    pub fn get_lowest_discernible_value(&self) -> (r: u64)
        ensures
            r == self@.lowest_discernible_value,
    {
        self.lowest_discernible_value
    }

    /// The value up to which the histogram was asked to count.
    pub fn get_highest_trackable_value(&self) -> (r: u64)
        ensures
            r == self@.highest_trackable_value,
    {
        self.highest_trackable_value
    }

    /// The number of significant decimal digits.
    pub fn get_significant_value_digits(&self) -> (r: u32)
        ensures
            r == self@.significant_value_digits,
    {
        self.significant_value_digits
    }

    /// By how many slots the array is rotated.
    pub fn get_normalizing_index_offset(&self) -> (r: i32)
        ensures
            r == self@.normalizing_index_offset,
    {
        self.normalizing_index_offset
    }

    /// The number of buckets that it takes to hold `value`.
    pub fn buckets_needed_for_value(value: u64, sub_bucket_count: usize, unit_magnitude: u32) -> (r:
        usize)
        requires
            sub_bucket_count >= 1,
            sub_bucket_count * pow2(unit_magnitude as nat) <= u64::MAX,
        ensures
            r == crate::index::buckets_needed_of(
                value as nat,
                (sub_bucket_count * pow2(unit_magnitude as nat)) as nat,
            ),
    {
        buckets_needed_for_value(value, sub_bucket_count, unit_magnitude)
    }

    /// The number of slots of `bucket_count` buckets.
    pub fn counts_arr_len(bucket_count: usize, sub_bucket_count: usize) -> (r: usize)
        requires
            (bucket_count + 1) * (sub_bucket_count / 2) <= usize::MAX,
        ensures
            r == (bucket_count + 1) * (sub_bucket_count / 2),
    {
        counts_arr_len_for_buckets(bucket_count, sub_bucket_count)
    }

    /// The largest value of bucket 0, less the bits below one unit, lies in
    /// the upper half of bucket 0.
    proof fn lemma_sub_bucket_mask_bounds(&self)
        requires
            self.layout_wf(),
        ensures
            self@.unit_magnitude() + self@.half_count_magnitude() <= 62,
            pow2(self@.unit_magnitude() + self@.half_count_magnitude()) <= self.sub_bucket_mask
                < pow2(self@.unit_magnitude() + self@.half_count_magnitude() + 1),
    {
        let um = self@.unit_magnitude();
        let hm = self@.half_count_magnitude();
        lemma_pow2_unfold(hm + 1);
        lemma_pow2_pos(hm);
        lemma_pow2_pos(um);
        assert(um + hm == hm + um);
        assert(um + hm + 1 == (hm + 1) + um);
        lemma_pow2_adds(hm, um);
        lemma_pow2_adds(hm + 1, um);
        assert((pow2(hm + 1) - 1) * pow2(um) >= pow2(hm) * pow2(um) && (pow2(hm + 1) - 1) * pow2(um)
            < pow2(hm + 1) * pow2(um)) by (nonlinear_arith)
            requires
                pow2(hm + 1) == 2 * pow2(hm),
                pow2(hm) > 0,
                pow2(um) > 0,
        ;
    }

    /// Returns the bucket index for the smallest bucket that can hold the value.
    pub fn get_bucket_index(&self, value: u64) -> (r: usize)
        requires
            self.wf(),
        ensures
            r == self@.bucket_index(value),
            r + self@.unit_magnitude() + self@.half_count_magnitude() <= 63,
    {
        proof {
            self.lemma_sub_bucket_mask_bounds();
            lemma_bucket_index_by_leading_zeros(
                value,
                self.sub_bucket_mask,
                self@.unit_magnitude(),
                self@.half_count_magnitude(),
            );
        }
        // Mask maps small values to bucket 0
        let value_orred = value | self.sub_bucket_mask;
        self.leading_zeros_count_base - (value_orred.leading_zeros() as usize)
    }

    /// For values in bucket 0, returns an index anywhere in the first bucket. For other buckets,
    /// the value is always in the top half of the bucket because of how bucket indexes are
    /// calculated.
    pub fn get_sub_bucket_index(&self, value: u64, bucket_index: usize) -> (r: usize)
        requires
            self.wf(),
            bucket_index + self@.unit_magnitude() < 64,
            self@.sub_bucket_index(value, bucket_index as nat) <= usize::MAX,
        ensures
            r == self@.sub_bucket_index(value, bucket_index as nat),
    {
        let shift: u32 = bucket_index as u32 + self.unit_magnitude;
        proof {
            lemma_u64_shr_is_div(value, shift as u64);
            assert(self@.unit_magnitude() + bucket_index as nat == shift as nat);
        }
        (value >> (shift as u64)) as usize
    }

    /// The slot of sub-bucket `sub_bucket_index` of bucket `bucket_index`.
    pub fn counts_array_index_sub(&self, bucket_index: usize, sub_bucket_index: usize) -> (r: usize)
        requires
            self.wf(),
            sub_bucket_index < self@.sub_bucket_count(),
            bucket_index == 0 || sub_bucket_index >= self@.sub_bucket_half_count(),
            slot_of(bucket_index as nat, sub_bucket_index as nat, self@.half_count_magnitude())
                <= usize::MAX,
        ensures
            r == slot_of(bucket_index as nat, sub_bucket_index as nat, self@.half_count_magnitude()),
    {
        let ghost half = self.sub_bucket_half_count as int;
        proof {
            let hm = self@.half_count_magnitude();
            lemma_pow2_pos(hm);
            lemma_pow2_unfold(hm + 1);
            assert((bucket_index + 1) * half + sub_bucket_index - half == bucket_index * half
                + sub_bucket_index && bucket_index * half >= 0 && (bucket_index >= 1
                ==> bucket_index * half >= half)) by (nonlinear_arith)
                requires
                    half > 0,
                    bucket_index >= 0,
            ;
        }
        if bucket_index == 0 {
            // For bucket 0 we can use the whole bucket.
            return sub_bucket_index;
        }
        // First entry in bucket that will actually be used (half-way through): the lower half of
        // bucket k + 1 is the top half of bucket k.
        let bucket_base_index = bucket_index * self.sub_bucket_half_count;
        bucket_base_index + sub_bucket_index
    }

    /// The slot that counts `value`. It may lie beyond the array.
    pub fn counts_array_index(&self, value: u64) -> (r: usize)
        requires
            self.wf(),
        ensures
            r == self@.counts_array_index(value),
    {
        let bucket_index = self.get_bucket_index(value);
        proof {
            lemma_sub_bucket_index_bounds(
                value as nat,
                self@.unit_magnitude(),
                self@.half_count_magnitude(),
            );
            lemma_half_count_magnitude_values();
            lemma2_to64();
            if self@.half_count_magnitude() + 1 < 18 {
                lemma_pow2_strictly_increases(self@.half_count_magnitude() + 1, 18);
            }
        }
        let sub_bucket_index = self.get_sub_bucket_index(value, bucket_index);
        proof {
            let half = self.sub_bucket_half_count as int;
            assert((bucket_index + 1) * half + sub_bucket_index - half <= 64 * 0x20000 + 0x40000)
                by (nonlinear_arith)
                requires
                    0 <= bucket_index <= 63,
                    0 < half <= 0x20000,
                    sub_bucket_index < 0x40000,
            ;
        }
        self.counts_array_index_sub(bucket_index, sub_bucket_index)
    }

    /// The smallest value of sub-bucket `sub_bucket_index` of bucket `bucket_index`.
    pub fn value_from_index_sub(&self, bucket_index: usize, sub_bucket_index: usize) -> (r: u64)
        requires
            self.wf(),
            bucket_index + self@.unit_magnitude() < 64,
            sub_bucket_index * pow2(self@.unit_magnitude() + bucket_index as nat) <= u64::MAX,
        ensures
            r == sub_bucket_index * pow2(self@.unit_magnitude() + bucket_index as nat),
    {
        let shift: u32 = bucket_index as u32 + self.unit_magnitude;
        proof {
            assert(self@.unit_magnitude() + bucket_index as nat == shift as nat);
            lemma_pow2_pos(shift as nat);
            assert(sub_bucket_index <= sub_bucket_index * pow2(shift as nat)) by (nonlinear_arith)
                requires
                    pow2(shift as nat) >= 1,
            ;
            lemma_u64_shl_is_mul(sub_bucket_index as u64, shift as u64);
        }
        (sub_bucket_index as u64) << (shift as u64)
    }

    /// The smallest value that the slot with logical index `index` counts.
    pub fn value_from_index(&self, index: usize) -> (r: u64)
        requires
            self.wf(),
            self@.value_from_index(index as nat) <= u64::MAX,
        ensures
            r == self@.value_from_index(index as nat),
    {
        let ghost um = self@.unit_magnitude();
        let ghost hm = self@.half_count_magnitude();
        let ghost h = pow2(hm) as int;
        proof {
            lemma_half_count_magnitude_values();
            lemma2_to64();
            lemma_pow2_pos(hm);
            lemma_pow2_unfold(hm + 1);
            if hm < 17 {
                lemma_pow2_strictly_increases(hm, 17);
            }
            lemma_u64_shr_is_div(index as u64, self.sub_bucket_half_count_magnitude as u64);
            lemma_u64_low_bits_mask_is_mod(index as u64, hm);
            lemma_fundamental_div_mod(index as int, h);
            lemma_mod_bound(index as int, h);
        }
        // Dividing by sub bucket half count will yield 1 in top half of first bucket, 2 in
        // 2nd bucket, etc, so subtract 1, but for the lower half of the first bucket.
        let quotient: u64 = (index as u64) >> (self.sub_bucket_half_count_magnitude as u64);
        // Mask to lower half, add in half count to always end up in top half.
        // This will move things in lower half of first bucket into the top half.
        let mut sub_bucket_index: usize = ((index as u64) & (self.sub_bucket_half_count as u64
            - 1)) as usize + self.sub_bucket_half_count;
        let bucket_index: u64 = if quotient == 0 {
            // lower half of first bucket case; move sub bucket index back
            sub_bucket_index -= self.sub_bucket_half_count;
            0
        } else {
            quotient - 1
        };
        proof {
            let q = index as int / h;
            let r = index as int % h;
            assert(q == 0 <==> index < h) by (nonlinear_arith)
                requires
                    index == h * q + r,
                    0 <= r < h,
                    q >= 0,
            ;
            assert(q <= 1 <==> index < 2 * h) by (nonlinear_arith)
                requires
                    index == h * q + r,
                    0 <= r < h,
                    q >= 0,
            ;
            if q >= 2 {
                // the value fits in 64 bits, so the shift is by less than 64
                let e = (um + q - 1) as nat;
                lemma_pow2_pos(e);
                assert((h + r) * pow2(e) >= pow2(e)) by (nonlinear_arith)
                    requires
                        h + r >= 1,
                        pow2(e) >= 0,
                ;
                if e >= 64 {
                    if e > 64 {
                        lemma_pow2_strictly_increases(64, e);
                    }
                    assert(false);
                }
                assert(um + bucket_index as nat == e);
            } else {
                assert(um + 0 == um);
                assert(index == h * q + r && (q == 0 || q == 1) ==> index == q * h + r && (q == 0
                    ==> index == r) && (q == 1 ==> index == h + r)) by (nonlinear_arith);
            }
            assert(self@.value_from_index(index as nat) == sub_bucket_index * pow2(
                um + bucket_index as nat,
            ));
        }
        self.value_from_index_sub(bucket_index as usize, sub_bucket_index)
    }

    /// Returns the number of distinct values that will map to the same count as the provided value
    pub fn size_of_equivalent_value_range(&self, value: u64) -> (r: u64)
        requires
            self.wf(),
        ensures
            r == self@.size_of_equivalent_value_range(value),
    {
        let bucket_index = self.get_bucket_index(value);
        let shift: u32 = self.unit_magnitude + bucket_index as u32;
        proof {
            lemma_u64_pow2_no_overflow(shift as nat);
            lemma_u64_shl_is_mul(1, shift as u64);
        }
        1_u64 << (shift as u64)
    }

    /// Returns the lowest value equivalent to the provided value (equivalent meaning will store
    /// counts in the same memory location)
    pub fn lowest_equivalent_value(&self, value: u64) -> (r: u64)
        requires
            self.wf(),
        ensures
            r == self@.lowest_equivalent_value(value),
            r <= value,
    {
        let bucket_index = self.get_bucket_index(value);
        proof {
            lemma_sub_bucket_index_bounds(
                value as nat,
                self@.unit_magnitude(),
                self@.half_count_magnitude(),
            );
            lemma_equivalent_range(
                value as nat,
                self@.unit_magnitude(),
                self@.half_count_magnitude(),
            );
            lemma_half_count_magnitude_values();
            lemma2_to64();
            if self@.half_count_magnitude() + 1 < 18 {
                lemma_pow2_strictly_increases(self@.half_count_magnitude() + 1, 18);
            }
        }
        let sub_bucket_index = self.get_sub_bucket_index(value, bucket_index);
        self.value_from_index_sub(bucket_index, sub_bucket_index)
    }

    /// Returns the smallest value that is greater than and not equivalent to the provided value
    pub fn next_non_equivalent_value(&self, value: u64) -> (r: u64)
        requires
            self.wf(),
            self@.next_non_equivalent_value(value) <= u64::MAX,
        ensures
            r == self@.next_non_equivalent_value(value),
    {
        self.lowest_equivalent_value(value) + self.size_of_equivalent_value_range(value)
    }

    /// Returns the highest value equivalent to the provided value (equivalent meaning will store
    /// counts in the same memory location)
    pub fn highest_equivalent_value(&self, value: u64) -> (r: u64)
        requires
            self.wf(),
        ensures
            r == self@.highest_equivalent_value(value),
            r >= value,
    {
        proof {
            lemma_equivalent_range(
                value as nat,
                self@.unit_magnitude(),
                self@.half_count_magnitude(),
            );
            lemma_bucket_index_bounds(
                value as nat,
                self@.unit_magnitude(),
                self@.half_count_magnitude(),
            );
            lemma_pow2_pos(self@.unit_magnitude() + self@.bucket_index(value));
            lemma2_to64();
            let e = self@.unit_magnitude() + self@.half_count_magnitude() + 1 + self@.bucket_index(
                value,
            );
            self.lemma_sub_bucket_mask_bounds();
            lemma_bucket_index_by_leading_zeros(
                value,
                self.sub_bucket_mask,
                self@.unit_magnitude(),
                self@.half_count_magnitude(),
            );
            if e < 64 {
                lemma_pow2_strictly_increases(e, 64);
            }
        }
        // the first value of the next slot may lie beyond 64 bits: take the one off first
        self.lowest_equivalent_value(value) + (self.size_of_equivalent_value_range(value) - 1)
    }

    /// Calculates the index in the counts array, taking the index offset (representing any
    /// left/right shifts) into account.
    ///
    /// Left shifts have positive offsets. This means to read an existing count, you need to use
    /// a higher value to reach a higher index that then has the positive offset subtracted off.
    /// Analogously, right shifts have negative offsets.
    ///
    /// If a left shift has happened and the offset is positive, underflow from the
    /// resulting subtraction wraps to the top of the array. If a right shift has happened, the
    /// offset is negative, so overflow wraps to the bottom.
    pub fn normalize_index(
        &self,
        index: usize,
        normalizing_index_offset: i32,
        array_length: usize,
    ) -> (r: Result<usize, RecordError>)
        requires
            normalizing_index_offset != 0 ==> -array_length < normalizing_index_offset
                < array_length,
        ensures
            normalizing_index_offset != 0 && index > array_length ==> r == Err::<
                usize,
                RecordError,
            >(RecordError::ValueOutOfRange),
            normalizing_index_offset == 0 || index <= array_length ==> r == Ok::<
                usize,
                RecordError,
            >(
                normalized_index_of(
                    index as int,
                    normalizing_index_offset as int,
                    array_length as int,
                ) as usize,
            ),
            normalizing_index_offset != 0 && index <= array_length ==> 0 <= normalized_index_of(
                index as int,
                normalizing_index_offset as int,
                array_length as int,
            ) < array_length,
    {
        if normalizing_index_offset == 0 {
            Ok(index)
        } else if index > array_length {
            Err(RecordError::ValueOutOfRange)
        } else {
            let array_length_wide: i128 = array_length as i128;
            let mut normalized_index: i128 = index as i128 - normalizing_index_offset as i128;
            // The offset is shorter than the array, so one array length makes up for what the
            // subtraction has gone below 0 or beyond the end.
            if normalized_index < 0 {
                normalized_index += array_length_wide;
            } else if normalized_index >= array_length_wide {
                normalized_index -= array_length_wide;
            }
            Ok(normalized_index as usize)
        }
    }

    /// The count of the slot with logical index `index`.
    pub fn get_count_at_index(&self, index: usize) -> (r: Result<T, RecordError>)
        requires
            self.wf(),
        ensures
            index < self@.counts.len() ==> r.is_ok() && r.unwrap().value() == self@.counts[index as int],
            index > self@.counts.len() ==> r == Err::<T, RecordError>(RecordError::ValueOutOfRange),
            index == self@.counts.len() ==> if self@.normalizing_index_offset == 0 {
                r == Err::<T, RecordError>(RecordError::ValueOutOfRange)
            } else {
                r.is_ok() && r.unwrap().value() == self@.counts[0]
            },
    {
        let normalized_index = self.normalize_index(
            index,
            self.normalizing_index_offset,
            self.counts.len(),
        );
        match normalized_index {
            Ok(the_index) => {
                if the_index < self.counts.len() {
                    Ok(self.counts[the_index])
                } else {
                    Err(RecordError::ValueOutOfRange)
                }
            },
            Err(err) => Err(RecordError::ValueOutOfRange),
        }
    }

    /// Returns the count at the specified value (as well as other equivalent values)
    pub fn get_count_at_value(&self, value: u64) -> (r: Result<T, RecordError>)
        requires
            self.wf(),
        ensures
            r.is_ok(),
            r.unwrap().value() == self@.count_at_value(value),
    {
        proof {
            lemma_layout_bounds(
                self.lowest_discernible_value,
                self.highest_trackable_value,
                self.significant_value_digits,
            );
        }
        let slot = self.counts_array_index(value);
        let last = self.counts.len() - 1;
        let index = if slot < last {
            slot
        } else {
            last
        };
        self.get_count_at_index(index)
    }

    /// Adds one to the count of the slot with logical index `index`, if the
    /// count type can hold that.
    fn increment_count_at_index(&mut self, index: usize) -> (r: Result<(), RecordError>)
        requires
            old(self).layout_wf(),
            index < old(self)@.counts.len(),
        ensures
            final(self).layout_wf(),
            r.is_ok() <==> old(self)@.counts[index as int] < T::spec_max_value(),
            r.is_ok() ==> final(self)@ == (HistogramState {
                counts: old(self)@.counts.update(index as int, old(self)@.counts[index as int] + 1),
                ..old(self)@
            }),
            r.is_err() ==> r == Err::<(), RecordError>(RecordError::CountOverflow) && *final(self)
                == *old(self),
    {
        let ghost len = self.counts@.len() as int;
        let ghost off = self.normalizing_index_offset as int;
        proof {
            lemma_normalized_index_in_range(index as int, off, len);
        }
        let normalized_index = self.normalize_index(
            index,
            self.normalizing_index_offset,
            self.counts.len(),
        );
        match normalized_index {
            Ok(the_index) => {
                match self.counts[the_index].checked_increment() {
                    Some(incremented) => {
                        self.counts.set(the_index, incremented);
                        proof {
                            assert forall|i: int| 0 <= i < len implies #[trigger] self@.counts[i]
                                == old(self)@.counts.update(
                                index as int,
                                old(self)@.counts[index as int] + 1,
                            )[i] by {
                                lemma_normalized_index_in_range(i, off, len);
                                if i != index {
                                    if normalized_index_of(i, off, len) == the_index {
                                        lemma_normalized_index_injective(i, index as int, off, len);
                                    }
                                }
                            }
                            assert(self@.counts =~= old(self)@.counts.update(
                                index as int,
                                old(self)@.counts[index as int] + 1,
                            ));
                        }
                        Ok(())
                    },
                    None => Err(RecordError::CountOverflow),
                }
            },
            Err(err) => Err(RecordError::CountOverflow),
        }
    }

    /// Makes the end of the unit of `value` the largest value.
    fn update_max_value(&mut self, value: u64)
        requires
            old(self).layout_wf(),
        ensures
            final(self).layout_wf(),
            final(self)@ == (HistogramState {
                max_value: unit_top_of(value as nat, old(self)@.unit_magnitude()) as u64,
                ..old(self)@
            }),
            unit_top_of(value as nat, old(self)@.unit_magnitude()) <= u64::MAX,
    {
        proof {
            lemma_layout_bounds(
                self.lowest_discernible_value,
                self.highest_trackable_value,
                self.significant_value_digits,
            );
            lemma_unit_mask(value, self.unit_magnitude_mask, self@.unit_magnitude());
        }
        let internal_value = value | self.unit_magnitude_mask;
        self.max_value = internal_value;
        proof {
            assert(self@.counts =~= old(self)@.counts);
        }
    }

    /// Makes the start of the unit of `value` the smallest value, if `value` is at least one
    /// unit.
    fn update_min_non_zero_value(&mut self, value: u64)
        requires
            old(self).layout_wf(),
        ensures
            final(self).layout_wf(),
            final(self)@ == (HistogramState {
                min_non_zero_value: if value >= pow2(old(self)@.unit_magnitude()) {
                    unit_base_of(value as nat, old(self)@.unit_magnitude()) as u64
                } else {
                    old(self)@.min_non_zero_value
                },
                ..old(self)@
            }),
    {
        proof {
            lemma_layout_bounds(
                self.lowest_discernible_value,
                self.highest_trackable_value,
                self.significant_value_digits,
            );
            lemma_unit_mask(value, self.unit_magnitude_mask, self@.unit_magnitude());
        }
        if value <= self.unit_magnitude_mask {
            return ;
        }
        let internal_value = value & !self.unit_magnitude_mask;
        self.min_non_zero_value = internal_value;
        proof {
            assert(self@.counts =~= old(self)@.counts);
        }
    }

    /// Moves the trackers of the largest and of the smallest value to hold
    /// `value` too.
    fn update_min_and_max(&mut self, value: u64)
        requires
            old(self).layout_wf(),
        ensures
            final(self).layout_wf(),
            final(self)@ == (HistogramState {
                max_value: old(self)@.max_value_with(value),
                min_non_zero_value: old(self)@.min_non_zero_value_with(value),
                ..old(self)@
            }),
    {
        proof {
            lemma_layout_bounds(
                self.lowest_discernible_value,
                self.highest_trackable_value,
                self.significant_value_digits,
            );
            lemma_unit_mask(value, self.unit_magnitude_mask, self@.unit_magnitude());
        }
        if value | self.unit_magnitude_mask > self.max_value {
            self.update_max_value(value);
        }
        if value < self.min_non_zero_value {
            self.update_min_non_zero_value(value);
        }
    }

    /// Counts `value`: adds one to its slot and to the total, and moves the
    /// trackers of the largest and the smallest value. A value whose slot lies
    /// beyond the array, or whose slot or the total is full, is not counted,
    /// and the histogram is left as it was.
    pub fn record_single_value(&mut self, value: u64) -> (r: Result<(), RecordError>)
        requires
            old(self).wf(),
        ensures
            final(self).wf(),
            r == old(self)@.record_outcome(value, T::spec_max_value()),
            r.is_ok() ==> final(self)@ == old(self)@.record(value),
            r.is_err() ==> *final(self) == *old(self),
    {
        let counts_index = self.counts_array_index(value);
        if counts_index >= self.counts.len() {
            return Err(RecordError::ValueOutOfRange);
        }
        if self.total_count == u64::MAX {
            return Err(RecordError::CountOverflow);
        }
        match self.increment_count_at_index(counts_index) {
            Ok(_) => {
                self.update_min_and_max(value);
                self.total_count += 1;
                proof {
                    lemma_sum_to_update(
                        old(self)@.counts,
                        counts_index as int,
                        old(self)@.counts.len() as int,
                    );
                    assert(self@.counts =~= old(self)@.record(value).counts);
                    lemma_layout_bounds(
                        self.lowest_discernible_value,
                        self.highest_trackable_value,
                        self.significant_value_digits,
                    );
                    crate::state::lemma_record_keeps_empty_beyond_max(old(self)@, value);
                }
                Ok(())
            },
            Err(err) => Err(RecordError::CountOverflow),
        }
    }

    /// Forgets what was recorded: every count and the total are 0 again, and the trackers
    /// of the largest and of the smallest value are what they are in a new histogram.
    pub fn reset(&mut self)
        requires
            old(self).wf(),
        ensures
            final(self).wf(),
            final(self)@ == (HistogramState {
                counts: Seq::new(old(self)@.counts.len(), |i: int| 0nat),
                total_count: 0,
                max_value: 0,
                min_non_zero_value: u64::MAX,
                ..old(self)@
            }),
    {
        let ghost len = self.counts@.len() as int;
        let ghost off = self.normalizing_index_offset as int;
        let mut i: usize = 0;
        while i < self.counts.len()
            invariant
                self.layout_wf(),
                i <= self.counts@.len(),
                self.counts@.len() == len,
                self.lowest_discernible_value == old(self).lowest_discernible_value,
                self.highest_trackable_value == old(self).highest_trackable_value,
                self.significant_value_digits == old(self).significant_value_digits,
                self.normalizing_index_offset == old(self).normalizing_index_offset,
                forall|j: int| 0 <= j < i ==> (#[trigger] self.counts@[j]).value() == 0,
            decreases self.counts@.len() - i,
        {
            self.counts.set(i, T::zero());
            i += 1;
        }
        self.total_count = 0;
        self.max_value = 0;
        self.min_non_zero_value = u64::MAX;
        proof {
            assert forall|j: int| 0 <= j < len implies #[trigger] self@.counts[j] == 0 by {
                lemma_normalized_index_in_range(j, off, len);
            }
            assert(self@.counts =~= Seq::new(old(self)@.counts.len(), |i: int| 0nat));
            lemma_sum_to_zeros(self@.counts, len);
        }
    }

    /// Counts `value`, which must not be negative.
    pub fn record(&mut self, value: i64) -> (r: Result<(), RecordError>)
        requires
            old(self).wf(),
        ensures
            final(self).wf(),
            value < 0 ==> r == Err::<(), RecordError>(RecordError::InvalidValue),
            value >= 0 ==> r == old(self)@.record_outcome(value as u64, T::spec_max_value()),
            r.is_ok() ==> final(self)@ == old(self)@.record(value as u64),
            r.is_err() ==> *final(self) == *old(self),
    {
        if value < 0 {
            return Err(RecordError::InvalidValue);
        }
        self.record_single_value(value as u64)
    }

    /// If percentile is 0, value is less than or equivalent to all other values. If percentile
    /// > 0, returns the value that the given percentage of the overall recorded value entries
    /// in the histogram are either smaller than or equivalent to.
    pub fn get_value_at_percentile(&self, percentile: Percentile) -> (r: u64)
        requires
            self.wf(),
        ensures
            r == self@.value_at_percentile(percentile),
    {
        let count_at_percentile = percentile.count_at_percentile(self.get_count());
        self.get_value_at_count(
            count_at_percentile,
            percentile.part == 0 && percentile.whole != 0,
        )
    }

    /// The value at which the counts reach `count_at_percentile`: of the first slot up to and
    /// with which the counts sum to at least that, the lowest value if `lowest` and the highest
    /// value if not. 0 if the counts never reach it.
    pub fn get_value_at_count(&self, count_at_percentile: u64, lowest: bool) -> (r: u64)
        requires
            self.wf(),
        ensures
            r == self@.value_at_count(count_at_percentile as nat, lowest),
    {
        let mut total_to_current_index: u64 = 0;
        let mut i: usize = 0;
        while i < self.counts.len()
            invariant
                self.wf(),
                i <= self.counts@.len(),
                self@.counts.len() == self.counts@.len(),
                total_to_current_index == sum_to(self@.counts, i as int),
                first_index_reaching(self@.counts, count_at_percentile as nat, 0)
                    == first_index_reaching(self@.counts, count_at_percentile as nat, i as int),
            decreases self.counts@.len() - i,
        {
            let count_at_index = self.get_count_at_index(i);
            match count_at_index {
                Ok(count) => {
                    proof {
                        lemma_sum_to_monotone(
                            self@.counts,
                            i as int + 1,
                            self.counts@.len() as int,
                        );
                    }
                    total_to_current_index += count.as_u64();
                    if total_to_current_index >= count_at_percentile {
                        proof {
                            lemma_values_below_top(
                                self.lowest_discernible_value,
                                self.highest_trackable_value,
                                self.significant_value_digits,
                                i as nat,
                            );
                            crate::index::lemma_value_at_next_index(
                                i as nat,
                                self@.unit_magnitude(),
                                self@.half_count_magnitude(),
                            );
                        }
                        let value_at_index = self.value_from_index(i);
                        return if lowest {
                            self.lowest_equivalent_value(value_at_index)
                        } else {
                            self.highest_equivalent_value(value_at_index)
                        };
                    }
                },
                Err(_) => {
                    return 0;
                },
            }
            i += 1;
        }
        0
    }

    /// The smallest value that the slot with logical index `index` counts, for an index up to
    /// one past the slot after the last: those two values may not fit in 64 bits.
    pub fn value_from_index_wide(&self, index: usize) -> (r: u128)
        requires
            self.wf(),
            index <= self@.counts.len() + 1,
        ensures
            r == self@.value_from_index(index as nat),
            r <= 0x2_0000_0000_0000_0000,
    {
        let ghost um = self@.unit_magnitude();
        let ghost hm = self@.half_count_magnitude();
        let ghost len = self@.counts.len();
        proof {
            lemma_layout_bounds(
                self.lowest_discernible_value,
                self.highest_trackable_value,
                self.significant_value_digits,
            );
            lemma_values_below_top(
                self.lowest_discernible_value,
                self.highest_trackable_value,
                self.significant_value_digits,
                if index < len {
                    index as nat
                } else {
                    (len - 1) as nat
                },
            );
        }
        if index < self.counts.len() {
            proof {
                crate::index::lemma_value_at_next_index(index as nat, um, hm);
            }
            return self.value_from_index(index) as u128;
        }
        proof {
            crate::index::lemma_value_at_next_index((len - 1) as nat, um, hm);
            crate::index::lemma_value_at_next_index(len, um, hm);
            crate::index::lemma_index_of_value_at_index((len - 1) as nat, um, hm);
            crate::index::lemma_index_of_value_at_index(len, um, hm);
            lemma_equivalent_range(self@.value_from_index((len - 1) as nat), um, hm);
            self.lemma_last_slot_bucket();
            lemma_pow2_unfold(um + self@.bucket_count());
            lemma2_to64();
            lemma2_to64_rest();
            let e = (um + self@.bucket_count() - 1) as nat;
            assert(um + (self@.bucket_count() - 1) as nat == e);
            if e < 63 {
                lemma_pow2_strictly_increases(e, 63);
            }
        }
        let last = self.value_from_index(self.counts.len() - 1);
        let top: u128 = self.highest_equivalent_value(last) as u128 + 1;
        if index == self.counts.len() {
            top
        } else {
            top + 2 * (self.size_of_equivalent_value_range(last) as u128)
        }
    }

    /// The last slot lies in the last bucket, and the slot after it would be
    /// the first one of the bucket after that.
    proof fn lemma_last_slot_bucket(&self)
        requires
            self.wf(),
        ensures
            bucket_index_of(
                self@.value_from_index((self@.counts.len() - 1) as nat),
                self@.unit_magnitude(),
                self@.half_count_magnitude(),
            ) == self@.bucket_count() - 1,
            bucket_index_of(
                self@.value_from_index(self@.counts.len()),
                self@.unit_magnitude(),
                self@.half_count_magnitude(),
            ) == self@.bucket_count(),
    {
        let um = self@.unit_magnitude();
        let hm = self@.half_count_magnitude();
        let len = self@.counts.len() as int;
        let k = self@.bucket_count() as int;
        let h = pow2(hm) as int;
        lemma_layout_bounds(
            self.lowest_discernible_value,
            self.highest_trackable_value,
            self.significant_value_digits,
        );
        lemma_pow2_pos(hm);
        lemma_pow2_unfold(hm + 1);
        crate::index::lemma_index_of_value_at_index((len - 1) as nat, um, hm);
        crate::index::lemma_index_of_value_at_index(len as nat, um, hm);
        assert(len == h * (k + 1) + 0 && len - 1 == h * k + (h - 1) && len >= 2 * h)
            by (nonlinear_arith)
            requires
                len == (k + 1) * h,
                k >= 1,
                h > 0,
        ;
        lemma_fundamental_div_mod_converse(len, h, k + 1, 0);
        lemma_fundamental_div_mod_converse(len - 1, h, k, h - 1);
        if k == 1 {
            assert(len - 1 < 2 * h) by (nonlinear_arith)
                requires
                    len == (k + 1) * h,
                    k == 1,
                    h > 0,
            ;
        } else {
            assert(len - 1 >= 2 * h) by (nonlinear_arith)
                requires
                    len == (k + 1) * h,
                    k >= 2,
                    h > 0,
            ;
        }
    }

    /// The histogram with these parameters and these counts, by logical index, and with the
    /// total and the trackers that the counts give; nothing if the counts sum to more than a
    /// total can hold.
    pub fn from_counts(
        lowest_discernible_value: u64,
        highest_trackable_value: u64,
        num_significant_digits: u32,
        normalizing_index_offset: i32,
        counts: Vec<T>,
    ) -> (r: Option<SimpleHdrHistogram<T>>)
        requires
            valid_parameters(
                lowest_discernible_value,
                highest_trackable_value,
                num_significant_digits,
            ),
            counts@.len() == counts_len_of(
                lowest_discernible_value,
                highest_trackable_value,
                num_significant_digits,
            ),
            -counts@.len() < normalizing_index_offset < counts@.len(),
        ensures
            match r {
                Some(h) => h.wf() && h@ == HistogramState::from_counts(
                    lowest_discernible_value,
                    highest_trackable_value,
                    num_significant_digits,
                    normalizing_index_offset,
                    counts@.map_values(|c: T| c.value()),
                ) && sum_to(counts@.map_values(|c: T| c.value()), counts@.len() as int)
                    <= u64::MAX,
                None => sum_to(counts@.map_values(|c: T| c.value()), counts@.len() as int)
                    > u64::MAX,
            },
    {
        let ghost logical = counts@.map_values(|c: T| c.value());
        let ghost len = counts@.len() as int;
        let ghost off = normalizing_index_offset as int;
        let empty = SimpleHdrHistogram::<T>::new(
            lowest_discernible_value,
            highest_trackable_value,
            num_significant_digits,
        );
        proof {
            lemma_layout_bounds(
                lowest_discernible_value,
                highest_trackable_value,
                num_significant_digits,
            );
        }
        // the total, and the first and the last slot that hold a count
        let mut total_count: u64 = 0;
        let mut max_index: Option<usize> = None;
        let mut min_non_zero_index: Option<usize> = None;
        let mut i: usize = 0;
        while i < counts.len()
            invariant
                i <= counts@.len(),
                len == counts@.len(),
                logical == counts@.map_values(|c: T| c.value()),
                total_count == sum_to(logical, i as int),
                match max_index {
                    Some(m) => m == last_nonzero_index(logical, i as int),
                    None => last_nonzero_index(logical, i as int) == -1,
                },
                match min_non_zero_index {
                    Some(m) => m < i && m == first_nonzero_index(logical, 1),
                    None => first_nonzero_index(logical, 1) >= i || i == 0,
                },
            decreases counts@.len() - i,
        {
            let count = counts[i].as_u64();
            proof {
                lemma_sum_to_monotone(logical, i as int + 1, len);
                lemma_first_nonzero_index(logical, 1);
            }
            total_count = match total_count.checked_add(count) {
                Some(sum) => sum,
                None => {
                    return None;
                },
            };
            if count != 0 {
                max_index = Some(i);
                if min_non_zero_index.is_none() && i != 0 {
                    min_non_zero_index = Some(i);
                }
            }
            i += 1;
        }
        proof {
            lemma_last_nonzero_index(logical, len);
            lemma_first_nonzero_index(logical, 1);
        }
        let max_value: u64 = match max_index {
            Some(m) => {
                proof {
                    lemma_values_below_top(
                        lowest_discernible_value,
                        highest_trackable_value,
                        num_significant_digits,
                        m as nat,
                    );
                    crate::index::lemma_value_at_next_index(
                        m as nat,
                        empty@.unit_magnitude(),
                        empty@.half_count_magnitude(),
                    );
                }
                empty.highest_equivalent_value(empty.value_from_index(m))
            },
            None => 0,
        };
        let min_non_zero_value: u64 = match min_non_zero_index {
            Some(m) => {
                proof {
                    lemma_values_below_top(
                        lowest_discernible_value,
                        highest_trackable_value,
                        num_significant_digits,
                        m as nat,
                    );
                    crate::index::lemma_value_at_next_index(
                        m as nat,
                        empty@.unit_magnitude(),
                        empty@.half_count_magnitude(),
                    );
                }
                empty.value_from_index(m)
            },
            None => u64::MAX,
        };
        // the counts, each at its place in the rotated array
        let mut placed: Vec<T> = Vec::new();
        let mut k: usize = 0;
        while k < counts.len()
            invariant
                k <= counts@.len(),
                len == counts@.len(),
                -len < off < len,
                off == normalizing_index_offset,
                placed@.len() == k,
                forall|j: int|
                    0 <= j < k ==> #[trigger] placed@[j] == counts@[denormalized_index_of(
                        j,
                        off,
                        len,
                    )],
            decreases counts@.len() - k,
        {
            proof {
                lemma_normalized_index_onto(k as int, off, len);
            }
            let from: usize = if normalizing_index_offset == 0 {
                k
            } else {
                let wide: i128 = k as i128 + normalizing_index_offset as i128;
                let length: i128 = counts.len() as i128;
                if wide < 0 {
                    (wide + length) as usize
                } else if wide >= length {
                    (wide - length) as usize
                } else {
                    wide as usize
                }
            };
            placed.push(counts[from]);
            k += 1;
        }
        let r = SimpleHdrHistogram {
            lowest_discernible_value,
            highest_trackable_value,
            significant_value_digits: num_significant_digits,
            leading_zeros_count_base: empty.leading_zeros_count_base,
            unit_magnitude: empty.unit_magnitude,
            sub_bucket_mask: empty.sub_bucket_mask,
            sub_bucket_count: empty.sub_bucket_count,
            sub_bucket_half_count: empty.sub_bucket_half_count,
            sub_bucket_half_count_magnitude: empty.sub_bucket_half_count_magnitude,
            bucket_count: empty.bucket_count,
            counts: placed,
            normalizing_index_offset,
            min_non_zero_value,
            total_count,
            max_value,
            unit_magnitude_mask: empty.unit_magnitude_mask,
        };
        proof {
            let um = empty@.unit_magnitude();
            let hm = empty@.half_count_magnitude();
            assert forall|j: int| 0 <= j < len implies #[trigger] r@.counts[j] == logical[j] by {
                lemma_normalized_index_in_range(j, off, len);
                lemma_normalized_index_onto(j, off, len);
            }
            assert(r@.counts =~= logical);
            if max_index.is_some() {
                let m = max_index.unwrap() as nat;
                crate::index::lemma_index_of_value_at_index(m, um, hm);
                lemma_values_below_top(
                    lowest_discernible_value,
                    highest_trackable_value,
                    num_significant_digits,
                    m,
                );
                crate::index::lemma_value_at_next_index(m, um, hm);
                lemma_equivalent_range(r@.value_from_index(m), um, hm);
                crate::index::lemma_equivalent_values_share_slot(
                    r@.value_from_index(m),
                    max_value as nat,
                    um,
                    hm,
                );
            } else {
                assert(0 * pow2(um) == 0) by (nonlinear_arith);
            }
        }
        Some(r)
    }
}

} // verus!
