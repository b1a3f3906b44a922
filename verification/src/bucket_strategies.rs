//! The strategies that report at the ends of value ranges: ranges of one
//! width, and ranges that grow by a factor.
//!
//! A range may end beyond the values that 64 bits hold, where the array has
//! no slot. Such an end is kept as it is, it is not moved on any further, and
//! it is reported as the largest 64-bit value.

use vstd::prelude::*;
use crate::count::HistogramCount;
use crate::histogram::SimpleHdrHistogram;
use crate::iterator::{
    BaseHistogramIterator,
    CursorView,
    default_allow_further_iteration,
    default_percentile_iterated_to,
    IterationCursor,
    IterationStrategy,
    IterationView,
};
use crate::layout::lemma_layout_bounds;
use crate::percentile::PercentileLevel;
use crate::state::HistogramState;

verus! {

/// The lowest value that shares a slot with `level`; beyond 64 bits, where
/// no slot lies, `level` itself.
pub open spec fn level_floor(h: HistogramState, level: u128) -> u128 {
    if level <= u64::MAX {
        h.lowest_equivalent_value(level as u64) as u128
    } else {
        level
    }
}

/// `level` as a 64-bit value: beyond 64 bits, the largest one.
pub open spec fn level_as_value(level: u128) -> u64 {
    if level <= u64::MAX {
        level as u64
    } else {
        u64::MAX
    }
}

/// The lowest value that shares a slot with `level`; beyond 64 bits, `level` itself.
fn level_floor_for<T: HistogramCount>(histogram: &SimpleHdrHistogram<T>, level: u128) -> (r: u128)
    requires
        histogram.wf(),
    ensures
        r == level_floor(histogram@, level),
{
    if level <= u64::MAX as u128 {
        histogram.lowest_equivalent_value(level as u64) as u128
    } else {
        level
    }
}

/// `level` as a 64-bit value: beyond 64 bits, the largest one.
fn level_value_for(level: u128) -> (r: u64)
    ensures
        r == level_as_value(level),
{
    if level <= u64::MAX as u128 {
        level as u64
    } else {
        u64::MAX
    }
}

/// Reports at the end of each range of `value_units_per_bucket` values.
#[derive(Clone, Copy, Debug)]
pub struct LinearValuesStrategy {
    /// The width of a range.
    pub value_units_per_bucket: u64,
    /// The last value of the range that is reported next.
    pub current_step_highest_value_reporting_level: u128,
    /// The lowest value that shares a slot with it.
    pub current_step_lowest_value_reporting_level: u128,
}

impl LinearValuesStrategy {
    /// The strategy holds the lowest equivalent of the end of its range,
    /// which lies less than one range beyond 64 bits.
    pub open spec fn fits(&self, h: HistogramState) -> bool {
        &&& self.current_step_lowest_value_reporting_level == level_floor(
            h,
            self.current_step_highest_value_reporting_level,
        )
        &&& self.current_step_highest_value_reporting_level <= 0x2_0000_0000_0000_0000
    }

    /// The end of the range after the one that ends at `highest`; an end
    /// beyond 64 bits stays.
    pub open spec fn next_highest(highest: u128, value_units_per_bucket: u64) -> u128 {
        if highest <= u64::MAX {
            (highest + value_units_per_bucket) as u128
        } else {
            highest
        }
    }
}

impl<T: HistogramCount> IterationStrategy<T> for LinearValuesStrategy {
    open spec fn inv(&self, h: HistogramState, c: CursorView) -> bool {
        self.fits(h)
    }

    open spec fn ready(&self, h: HistogramState) -> bool {
        self.fits(h)
    }

    open spec fn allows_further_iteration(&self, h: HistogramState, c: CursorView) -> bool {
        c.counts_remain() || self.current_step_highest_value_reporting_level + 1
            < c.next_value_at_index
    }

    open spec fn after_allow(&self, h: HistogramState, c: CursorView) -> Self {
        *self
    }

    open spec fn reaches_iteration_level(&self, h: HistogramState, c: CursorView) -> bool {
        c.current_value_at_index >= self.current_step_lowest_value_reporting_level
            || c.current_index >= h.counts.len() - 1
    }

    open spec fn level_value(&self, h: HistogramState, c: CursorView) -> u64 {
        level_as_value(self.current_step_highest_value_reporting_level)
    }

    open spec fn level_percentile(&self, h: HistogramState, c: CursorView) -> PercentileLevel {
        c.percentile_level()
    }

    open spec fn after_increment(&self, h: HistogramState, c: CursorView) -> Self {
        LinearValuesStrategy {
            value_units_per_bucket: self.value_units_per_bucket,
            current_step_highest_value_reporting_level: Self::next_highest(
                self.current_step_highest_value_reporting_level,
                self.value_units_per_bucket,
            ),
            current_step_lowest_value_reporting_level: level_floor(
                h,
                Self::next_highest(
                    self.current_step_highest_value_reporting_level,
                    self.value_units_per_bucket,
                ),
            ),
        }
    }

    proof fn lemma_ready_implies_inv(&self, h: HistogramState, c: CursorView) {
    }

    fn allow_further_iteration(
        &mut self,
        histogram: &SimpleHdrHistogram<T>,
        cursor: &IterationCursor<T>,
    ) -> (r: bool) {
        if default_allow_further_iteration(cursor) {
            return true;
        }
        // failed default check, so count to this point would be equal to total count. Thus,
        // next sub bucket would be empty, but we're not done iterating if the next reporting level
        // would fall below the value contained in the next (nonexistent) sub bucket, so we need
        // to expose one more linear bucket.

        self.current_step_highest_value_reporting_level + 1 < cursor.next_value_at_index
    }

    fn reached_iteration_level(
        &self,
        histogram: &SimpleHdrHistogram<T>,
        cursor: &IterationCursor<T>,
    ) -> (r: bool) {
        proof {
            histogram.lemma_wf_state();
            lemma_layout_bounds(
                histogram@.lowest_discernible_value,
                histogram@.highest_trackable_value,
                histogram@.significant_value_digits,
            );
        }
        // emit current position if the value fits within the current reporting range or we've
        // reached the last element while looking for a big enough value. This last would happen
        // if no values are big enough to reach the next bucket.
        (cursor.current_value_at_index >= self.current_step_lowest_value_reporting_level)
            || (cursor.current_index >= histogram.counts_len() - 1)
    }

    fn value_iterated_to(
        &self,
        histogram: &SimpleHdrHistogram<T>,
        cursor: &IterationCursor<T>,
    ) -> (r: u64) {
        level_value_for(self.current_step_highest_value_reporting_level)
    }

    fn percentile_iterated_to(
        &self,
        histogram: &SimpleHdrHistogram<T>,
        cursor: &IterationCursor<T>,
    ) -> (r: PercentileLevel) {
        default_percentile_iterated_to(cursor)
    }

    fn increment_iteration_level(
        &mut self,
        histogram: &SimpleHdrHistogram<T>,
        cursor: &IterationCursor<T>,
    ) {
        if self.current_step_highest_value_reporting_level <= u64::MAX as u128 {
            self.current_step_highest_value_reporting_level =
                self.current_step_highest_value_reporting_level
                + self.value_units_per_bucket as u128;
        }
        self.current_step_lowest_value_reporting_level = level_floor_for(
            histogram,
            self.current_step_highest_value_reporting_level,
        );
    }
}

/// Reports at the end of each of a row of ranges, of which each ends
/// `log_base` times as far from 0 as the one before.
#[derive(Clone, Copy, Debug)]
pub struct LogarithmicValuesStrategy {
    /// The factor from the end of one range to the end of the next.
    pub log_base: u64,
    /// The first value beyond the range that is reported next.
    pub next_value_reporting_level: u128,
    /// The last value of the range that is reported next.
    pub current_step_highest_value_reporting_level: u128,
    /// The lowest value that shares a slot with it.
    pub current_step_lowest_value_reporting_level: u128,
}

impl LogarithmicValuesStrategy {
    /// The factor is not 0, and the strategy holds the end of its range,
    /// which lies less than a factor beyond 64 bits, and the lowest
    /// equivalent of that.
    pub open spec fn fits(&self, h: HistogramState) -> bool {
        &&& self.log_base >= 1
        &&& self.next_value_reporting_level >= 1
        &&& self.next_value_reporting_level <= 0xffff_ffff_ffff_ffff * 0xffff_ffff_ffff_ffff
        &&& self.current_step_highest_value_reporting_level == self.next_value_reporting_level
            - 1
        &&& self.current_step_lowest_value_reporting_level == level_floor(
            h,
            self.current_step_highest_value_reporting_level,
        )
    }

    /// The level after `level`: `log_base` times as far from 0; a level
    /// beyond 64 bits stays.
    pub open spec fn next_level(level: u128, log_base: u64) -> u128 {
        if level <= u64::MAX {
            (level * log_base) as u128
        } else {
            level
        }
    }
}

impl<T: HistogramCount> IterationStrategy<T> for LogarithmicValuesStrategy {
    open spec fn inv(&self, h: HistogramState, c: CursorView) -> bool {
        self.fits(h)
    }

    open spec fn ready(&self, h: HistogramState) -> bool {
        self.fits(h)
    }

    open spec fn allows_further_iteration(&self, h: HistogramState, c: CursorView) -> bool {
        c.counts_remain() || level_floor(h, self.next_value_reporting_level)
            < c.next_value_at_index
    }

    open spec fn after_allow(&self, h: HistogramState, c: CursorView) -> Self {
        *self
    }

    open spec fn reaches_iteration_level(&self, h: HistogramState, c: CursorView) -> bool {
        c.current_value_at_index >= self.current_step_lowest_value_reporting_level
            || c.current_index >= h.counts.len() - 1
    }

    open spec fn level_value(&self, h: HistogramState, c: CursorView) -> u64 {
        level_as_value(self.current_step_highest_value_reporting_level)
    }

    open spec fn level_percentile(&self, h: HistogramState, c: CursorView) -> PercentileLevel {
        c.percentile_level()
    }

    open spec fn after_increment(&self, h: HistogramState, c: CursorView) -> Self {
        LogarithmicValuesStrategy {
            log_base: self.log_base,
            next_value_reporting_level: Self::next_level(
                self.next_value_reporting_level,
                self.log_base,
            ),
            current_step_highest_value_reporting_level: (Self::next_level(
                self.next_value_reporting_level,
                self.log_base,
            ) - 1) as u128,
            current_step_lowest_value_reporting_level: level_floor(
                h,
                (Self::next_level(self.next_value_reporting_level, self.log_base) - 1) as u128,
            ),
        }
    }

    proof fn lemma_ready_implies_inv(&self, h: HistogramState, c: CursorView) {
    }

    fn allow_further_iteration(
        &mut self,
        histogram: &SimpleHdrHistogram<T>,
        cursor: &IterationCursor<T>,
    ) -> (r: bool) {
        if default_allow_further_iteration(cursor) {
            return true;
        }
        // failed default check, so count to this point would be equal to total count. Thus,
        // next sub bucket would be empty, but we're not done iterating if the next reporting level
        // would fall below the value contained in the next (nonexistent) sub bucket, so we need
        // to multiply one more time

        level_floor_for(histogram, self.next_value_reporting_level) < cursor.next_value_at_index
    }

    fn reached_iteration_level(
        &self,
        histogram: &SimpleHdrHistogram<T>,
        cursor: &IterationCursor<T>,
    ) -> (r: bool) {
        proof {
            histogram.lemma_wf_state();
            lemma_layout_bounds(
                histogram@.lowest_discernible_value,
                histogram@.highest_trackable_value,
                histogram@.significant_value_digits,
            );
        }
        // emit current position if the value fits within the current reporting range or we've
        // reached the last element while looking for a big enough value. This last would happen
        // if no values are big enough to reach the next log bucket.
        (cursor.current_value_at_index >= self.current_step_lowest_value_reporting_level)
            || (cursor.current_index >= histogram.counts_len() - 1)
    }

    fn value_iterated_to(
        &self,
        histogram: &SimpleHdrHistogram<T>,
        cursor: &IterationCursor<T>,
    ) -> (r: u64) {
        level_value_for(self.current_step_highest_value_reporting_level)
    }

    fn percentile_iterated_to(
        &self,
        histogram: &SimpleHdrHistogram<T>,
        cursor: &IterationCursor<T>,
    ) -> (r: PercentileLevel) {
        default_percentile_iterated_to(cursor)
    }

    fn increment_iteration_level(
        &mut self,
        histogram: &SimpleHdrHistogram<T>,
        cursor: &IterationCursor<T>,
    ) {
        if self.next_value_reporting_level <= u64::MAX as u128 {
            proof {
                let next = self.next_value_reporting_level as int;
                let base = self.log_base as int;
                assert(1 <= next * base <= 0xffff_ffff_ffff_ffff * 0xffff_ffff_ffff_ffff)
                    by (nonlinear_arith)
                    requires
                        1 <= next <= 0xffff_ffff_ffff_ffff,
                        1 <= base <= 0xffff_ffff_ffff_ffff,
                ;
            }
            self.next_value_reporting_level = self.next_value_reporting_level * (
            self.log_base as u128);
        }
        self.current_step_highest_value_reporting_level = self.next_value_reporting_level - 1;
        self.current_step_lowest_value_reporting_level = level_floor_for(
            histogram,
            self.current_step_highest_value_reporting_level,
        );
    }
}

/// The ranges of one width of a histogram, to be iterated over.
pub struct LinearValues<'a, T: HistogramCount> {
    histo: &'a SimpleHdrHistogram<T>,
    value_units_per_bucket: u64,
}

impl<'a, T: HistogramCount> LinearValues<'a, T> {
    /// The state of the histogram.
    pub closed spec fn histogram(&self) -> HistogramState {
        self.histo@
    }

    /// The width of a range.
    pub closed spec fn value_units_per_bucket(&self) -> u64 {
        self.value_units_per_bucket
    }

    /// The histogram is well-formed, and the ranges have a width.
    pub closed spec fn wf(&self) -> bool {
        &&& self.histo.wf()
        &&& self.value_units_per_bucket >= 1
    }

    /// The strategy that the iteration starts with.
    pub open spec fn first_strategy(
        h: HistogramState,
        value_units_per_bucket: u64,
    ) -> LinearValuesStrategy {
        LinearValuesStrategy {
            value_units_per_bucket,
            current_step_highest_value_reporting_level: (value_units_per_bucket - 1) as u128,
            current_step_lowest_value_reporting_level: level_floor(
                h,
                (value_units_per_bucket - 1) as u128,
            ),
        }
    }

    /// The iteration, from the first slot and the first range.
    pub fn into_iter(self) -> (r: BaseHistogramIterator<'a, T, LinearValuesStrategy>)
        requires
            self.wf(),
        ensures
            r.wf(),
            r.histogram() == self.histogram(),
            r@ == (IterationView {
                strategy: Self::first_strategy(self.histogram(), self.value_units_per_bucket()),
                cursor: CursorView::start(self.histogram()),
                prev_value_iterated_to: 0,
                total_count_to_prev_index: 0,
                total_value_to_current_index: 0,
            }),
    {
        let first_step_highest_value: u128 = (self.value_units_per_bucket - 1) as u128;
        BaseHistogramIterator::new(
            self.histo,
            LinearValuesStrategy {
                value_units_per_bucket: self.value_units_per_bucket,
                current_step_highest_value_reporting_level: first_step_highest_value,
                current_step_lowest_value_reporting_level: level_floor_for(
                    self.histo,
                    first_step_highest_value,
                ),
            },
        )
    }
}

/// The growing ranges of a histogram, to be iterated over.
pub struct LogarithmicValues<'a, T: HistogramCount> {
    histo: &'a SimpleHdrHistogram<T>,
    value_units_in_first_bucket: u64,
    log_base: u64,
}

impl<'a, T: HistogramCount> LogarithmicValues<'a, T> {
    /// The state of the histogram.
    pub closed spec fn histogram(&self) -> HistogramState {
        self.histo@
    }

    /// The width of the first range.
    pub closed spec fn value_units_in_first_bucket(&self) -> u64 {
        self.value_units_in_first_bucket
    }

    /// The factor from the end of one range to the end of the next.
    pub closed spec fn log_base(&self) -> u64 {
        self.log_base
    }

    /// The histogram is well-formed, the first range has a width, and the
    /// factor is not 0.
    pub closed spec fn wf(&self) -> bool {
        &&& self.histo.wf()
        &&& self.value_units_in_first_bucket >= 1
        &&& self.log_base >= 1
    }

    /// The strategy that the iteration starts with.
    pub open spec fn first_strategy(
        h: HistogramState,
        value_units_in_first_bucket: u64,
        log_base: u64,
    ) -> LogarithmicValuesStrategy {
        LogarithmicValuesStrategy {
            log_base,
            next_value_reporting_level: value_units_in_first_bucket as u128,
            current_step_highest_value_reporting_level: (value_units_in_first_bucket - 1) as u128,
            current_step_lowest_value_reporting_level: level_floor(
                h,
                (value_units_in_first_bucket - 1) as u128,
            ),
        }
    }

    /// The iteration, from the first slot and the first range.
    pub fn into_iter(self) -> (r: BaseHistogramIterator<'a, T, LogarithmicValuesStrategy>)
        requires
            self.wf(),
        ensures
            r.wf(),
            r.histogram() == self.histogram(),
            r@ == (IterationView {
                strategy: Self::first_strategy(
                    self.histogram(),
                    self.value_units_in_first_bucket(),
                    self.log_base(),
                ),
                cursor: CursorView::start(self.histogram()),
                prev_value_iterated_to: 0,
                total_count_to_prev_index: 0,
                total_value_to_current_index: 0,
            }),
    {
        let first_step_highest_value: u128 = (self.value_units_in_first_bucket - 1) as u128;
        BaseHistogramIterator::new(
            self.histo,
            LogarithmicValuesStrategy {
                log_base: self.log_base,
                next_value_reporting_level: self.value_units_in_first_bucket as u128,
                current_step_highest_value_reporting_level: first_step_highest_value,
                current_step_lowest_value_reporting_level: level_floor_for(
                    self.histo,
                    first_step_highest_value,
                ),
            },
        )
    }
}

impl<T: HistogramCount> SimpleHdrHistogram<T> {
    /// Iterate across exponentially increasing buckets, starting at value_units_in_first_bucket
    /// and increasing by log_base each step until recorded values are exhausted.
    pub fn logarithmic_bucket_values(&self, value_units_in_first_bucket: u64, log_base: u64) -> (r:
        LogarithmicValues<'_, T>)
        requires
            self.wf(),
            value_units_in_first_bucket >= 1,
            log_base >= 1,
        ensures
            r.wf(),
            r.histogram() == self@,
            r.value_units_in_first_bucket() == value_units_in_first_bucket,
            r.log_base() == log_base,
    {
        LogarithmicValues { histo: self, value_units_in_first_bucket, log_base }
    }

    /// Iterate across equal-sized buckets until all recorded values are exhausted.
    pub fn linear_bucket_values(&self, value_units_per_bucket: u64) -> (r: LinearValues<'_, T>)
        requires
            self.wf(),
            value_units_per_bucket >= 1,
        ensures
            r.wf(),
            r.histogram() == self@,
            r.value_units_per_bucket() == value_units_per_bucket,
    {
        LinearValues { histo: self, value_units_per_bucket }
    }
}

} // verus!
