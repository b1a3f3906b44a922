//! What every histogram offers: recording, looking up, and iterating.

use vstd::prelude::*;
use crate::bucket_strategies::{LinearValues, LogarithmicValues};
use crate::count::HistogramCount;
use crate::error::RecordError;
use crate::histogram::SimpleHdrHistogram;
use crate::percentile::Percentile;
use crate::percentile_strategy::Percentiles;
use crate::state::HistogramState;
use crate::strategies::{AllValues, RecordedValues};

verus! {

/// A histogram whose slots hold counts of type `T`.
pub trait HistogramBase<T: HistogramCount>: Sized {
    /// The state of the histogram.
    spec fn state(&self) -> HistogramState;

    /// The histogram is in order.
    spec fn valid(&self) -> bool;

    /// Counts `value`, or says why it cannot; then the histogram is as it was.
    fn record_single_value(&mut self, value: u64) -> (r: Result<(), RecordError>)
        requires
            old(self).valid(),
        ensures
            final(self).valid(),
            r == old(self).state().record_outcome(value, T::spec_max_value()),
            r.is_ok() ==> final(self).state() == old(self).state().record(value),
            r.is_err() ==> final(self).state() == old(self).state(),
    ;

    /// Returns the number of values stored in this histo
    fn get_count(&self) -> (r: u64)
        requires
            self.valid(),
        ensures
            r == self.state().total_count,
    ;

    /// Returns the count at the specified value (as well as other equivalent values)
    fn get_count_at_value(&self, value: u64) -> (r: Result<T, RecordError>)
        requires
            self.valid(),
        ensures
            r.is_ok(),
            r.unwrap().value() == self.state().count_at_value(value),
    ;

    /// Returns the max value stored; 0 if no values have been stored.
    fn get_max(&self) -> (r: u64)
        requires
            self.valid(),
        ensures
            r == self.state().max_value,
    ;

    /// Returns the minimum value stored that is at least one unit; `u64::MAX` if there is none.
    fn get_min_non_zero(&self) -> (r: u64)
        requires
            self.valid(),
        ensures
            r == self.state().min_non_zero_value,
    ;

    /// Returns the value k such that 2^k <= lowest discernible value
    fn get_unit_magnitude(&self) -> (r: u32)
        requires
            self.valid(),
        ensures
            r == self.state().unit_magnitude(),
    ;

    /// If percentile is 0, value is less than or equivalent to all other values. If percentile
    /// > 0, returns the value that the given percentage of the overall recorded value entries
    /// in the histogram are either smaller than or equivalent to.
    fn get_value_at_percentile(&self, percentile: Percentile) -> (r: u64)
        requires
            self.valid(),
        ensures
            r == self.state().value_at_percentile(percentile),
    ;

    /// Returns the lowest value equivalent to the provided value (equivalent meaning will store
    /// counts in the same memory location)
    fn lowest_equivalent_value(&self, value: u64) -> (r: u64)
        requires
            self.valid(),
        ensures
            r == self.state().lowest_equivalent_value(value),
    ;

    /// Returns the highest value equivalent to the provided value (equivalent meaning will store
    /// counts in the same memory location)
    fn highest_equivalent_value(&self, value: u64) -> (r: u64)
        requires
            self.valid(),
        ensures
            r == self.state().highest_equivalent_value(value),
    ;

    /// Returns the smallest value that is greater than and not equivalent to the provided value
    fn next_non_equivalent_value(&self, value: u64) -> (r: u64)
        requires
            self.valid(),
            self.state().next_non_equivalent_value(value) <= u64::MAX,
        ensures
            r == self.state().next_non_equivalent_value(value),
    ;

    /// Returns the number of distinct values that will map to the same count as the provided value
    fn size_of_equivalent_value_range(&self, value: u64) -> (r: u64)
        requires
            self.valid(),
        ensures
            r == self.state().size_of_equivalent_value_range(value),
    ;

    /// Iterate across all recorded values
    fn recorded_values(&self) -> (r: RecordedValues<'_, T>)
        requires
            self.valid(),
        ensures
            r.wf(),
            r.histogram() == self.state(),
    ;

    /// Iterate across all expressible values, recorded or not
    fn all_values(&self) -> (r: AllValues<'_, T>)
        requires
            self.valid(),
        ensures
            r.wf(),
            r.histogram() == self.state(),
    ;

    /// Iterate across exponentially increasing buckets, starting at value_units_in_first_bucket
    /// and increasing by log_base each step until recorded values are exhausted.
    fn logarithmic_bucket_values(&self, value_units_in_first_bucket: u64, log_base: u64) -> (r:
        LogarithmicValues<'_, T>)
        requires
            self.valid(),
            value_units_in_first_bucket >= 1,
            log_base >= 1,
        ensures
            r.wf(),
            r.histogram() == self.state(),
            r.value_units_in_first_bucket() == value_units_in_first_bucket,
            r.log_base() == log_base,
    ;

    /// Iterate across equal-sized buckets until all recorded values are exhausted.
    fn linear_bucket_values(&self, value_units_per_bucket: u64) -> (r: LinearValues<'_, T>)
        requires
            self.valid(),
            value_units_per_bucket >= 1,
        ensures
            r.wf(),
            r.histogram() == self.state(),
            r.value_units_per_bucket() == value_units_per_bucket,
    ;

    /// Iterate across percentiles until all recorded values are exhausted.
    fn percentiles(&self, percentile_ticks_per_half_distance: u32) -> (r: Percentiles<'_, T>)
        requires
            self.valid(),
            percentile_ticks_per_half_distance >= 1,
        ensures
            r.wf(),
            r.histogram() == self.state(),
            r.percentile_ticks_per_half_distance() == percentile_ticks_per_half_distance,
    ;
}

impl<T: HistogramCount> HistogramBase<T> for SimpleHdrHistogram<T> {
    open spec fn state(&self) -> HistogramState {
        self@
    }

    open spec fn valid(&self) -> bool {
        self.wf()
    }

    fn record_single_value(&mut self, value: u64) -> (r: Result<(), RecordError>) {
        SimpleHdrHistogram::record_single_value(self, value)
    }

    fn get_count(&self) -> (r: u64) {
        SimpleHdrHistogram::get_count(self)
    }

    fn get_count_at_value(&self, value: u64) -> (r: Result<T, RecordError>) {
        SimpleHdrHistogram::get_count_at_value(self, value)
    }

    fn get_max(&self) -> (r: u64) {
        SimpleHdrHistogram::get_max(self)
    }

    fn get_min_non_zero(&self) -> (r: u64) {
        SimpleHdrHistogram::get_min_non_zero(self)
    }

    fn get_unit_magnitude(&self) -> (r: u32) {
        SimpleHdrHistogram::get_unit_magnitude(self)
    }

    fn get_value_at_percentile(&self, percentile: Percentile) -> (r: u64) {
        SimpleHdrHistogram::get_value_at_percentile(self, percentile)
    }

    fn lowest_equivalent_value(&self, value: u64) -> (r: u64) {
        SimpleHdrHistogram::lowest_equivalent_value(self, value)
    }

    fn highest_equivalent_value(&self, value: u64) -> (r: u64) {
        SimpleHdrHistogram::highest_equivalent_value(self, value)
    }

    fn next_non_equivalent_value(&self, value: u64) -> (r: u64) {
        SimpleHdrHistogram::next_non_equivalent_value(self, value)
    }

    fn size_of_equivalent_value_range(&self, value: u64) -> (r: u64) {
        SimpleHdrHistogram::size_of_equivalent_value_range(self, value)
    }

    fn recorded_values(&self) -> (r: RecordedValues<'_, T>) {
        SimpleHdrHistogram::recorded_values(self)
    }

    fn all_values(&self) -> (r: AllValues<'_, T>) {
        SimpleHdrHistogram::all_values(self)
    }

    fn logarithmic_bucket_values(&self, value_units_in_first_bucket: u64, log_base: u64) -> (r:
        LogarithmicValues<'_, T>) {
        SimpleHdrHistogram::logarithmic_bucket_values(self, value_units_in_first_bucket, log_base)
    }

    fn linear_bucket_values(&self, value_units_per_bucket: u64) -> (r: LinearValues<'_, T>) {
        SimpleHdrHistogram::linear_bucket_values(self, value_units_per_bucket)
    }

    fn percentiles(&self, percentile_ticks_per_half_distance: u32) -> (r: Percentiles<'_, T>) {
        SimpleHdrHistogram::percentiles(self, percentile_ticks_per_half_distance)
    }
}

} // verus!
