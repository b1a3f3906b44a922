//! The strategies that report at every recorded value and at every slot.

use vstd::prelude::*;
use crate::count::HistogramCount;
use crate::histogram::SimpleHdrHistogram;
use crate::index::highest_equivalent_of;
use crate::iterator::{
    BaseHistogramIterator,
    CursorView,
    default_allow_further_iteration,
    default_percentile_iterated_to,
    default_value_iterated_to,
    IterationCursor,
    IterationStrategy,
    IterationView,
    walk,
};
use crate::layout::lemma_layout_bounds;
use crate::percentile::PercentileLevel;
use crate::state::{first_nonzero_index, HistogramState, sum_to};

verus! {

/// Iterates through the values with non-zero counts. When the equivalent value range > 1, the
/// highest equivalent value is used.
#[derive(Clone, Copy, Debug)]
pub struct RecordedValuesStrategy {
    /// The index of the slot that was reported last; -1 before the first report.
    pub visited_index: i32,
}

impl<T: HistogramCount> IterationStrategy<T> for RecordedValuesStrategy {
    open spec fn inv(&self, h: HistogramState, c: CursorView) -> bool {
        true
    }

    open spec fn ready(&self, h: HistogramState) -> bool {
        true
    }

    open spec fn allows_further_iteration(&self, h: HistogramState, c: CursorView) -> bool {
        c.counts_remain()
    }

    open spec fn after_allow(&self, h: HistogramState, c: CursorView) -> Self {
        *self
    }

    open spec fn reaches_iteration_level(&self, h: HistogramState, c: CursorView) -> bool {
        h.counts[c.current_index as int] != 0 && self.visited_index != c.current_index
    }

    open spec fn level_value(&self, h: HistogramState, c: CursorView) -> u64 {
        c.highest_value(h)
    }

    open spec fn level_percentile(&self, h: HistogramState, c: CursorView) -> PercentileLevel {
        c.percentile_level()
    }

    open spec fn after_increment(&self, h: HistogramState, c: CursorView) -> Self {
        RecordedValuesStrategy { visited_index: c.current_index as i32 }
    }

    proof fn lemma_ready_implies_inv(&self, h: HistogramState, c: CursorView) {
    }

    fn allow_further_iteration(
        &mut self,
        histogram: &SimpleHdrHistogram<T>,
        cursor: &IterationCursor<T>,
    ) -> (r: bool) {
        default_allow_further_iteration(cursor)
    }

    fn reached_iteration_level(
        &self,
        histogram: &SimpleHdrHistogram<T>,
        cursor: &IterationCursor<T>,
    ) -> (r: bool) {
        proof {
            histogram.lemma_wf_state();
            lemma_layout_bounds(
                histogram@.lowest_discernible_value,
                histogram@.highest_trackable_value,
                histogram@.significant_value_digits,
            );
        }
        let current_count: u64 = match histogram.get_count_at_index(cursor.current_index) {
            Err(err) => 0,
            Ok(the_count) => the_count.as_u64(),
        };
        // detects when we enter the main iteration loop for the first time after having previously
        // returned out of the loop
        (current_count != 0) && (self.visited_index != cursor.current_index as i32)
    }

    fn value_iterated_to(
        &self,
        histogram: &SimpleHdrHistogram<T>,
        cursor: &IterationCursor<T>,
    ) -> (r: u64) {
        default_value_iterated_to(histogram, cursor)
    }

    fn percentile_iterated_to(
        &self,
        histogram: &SimpleHdrHistogram<T>,
        cursor: &IterationCursor<T>,
    ) -> (r: PercentileLevel) {
        default_percentile_iterated_to(cursor)
    }

    fn increment_iteration_level(
        &mut self,
        histogram: &SimpleHdrHistogram<T>,
        cursor: &IterationCursor<T>,
    ) {
        proof {
            histogram.lemma_wf_state();
            lemma_layout_bounds(
                histogram@.lowest_discernible_value,
                histogram@.highest_trackable_value,
                histogram@.significant_value_digits,
            );
        }
        // cast is safe; count indexes << 2^32
        self.visited_index = cursor.current_index as i32;
    }
}

/// Iterates through all the slots, recorded in or not.
#[derive(Clone, Copy, Debug)]
pub struct AllValuesStrategy {
    /// The index of the slot that was reported last; -1 before the first report.
    pub visited_index: i32,
}

impl<T: HistogramCount> IterationStrategy<T> for AllValuesStrategy {
    open spec fn inv(&self, h: HistogramState, c: CursorView) -> bool {
        true
    }

    open spec fn ready(&self, h: HistogramState) -> bool {
        true
    }

    open spec fn allows_further_iteration(&self, h: HistogramState, c: CursorView) -> bool {
        c.current_index < h.counts.len() - 1
    }

    open spec fn after_allow(&self, h: HistogramState, c: CursorView) -> Self {
        *self
    }

    open spec fn reaches_iteration_level(&self, h: HistogramState, c: CursorView) -> bool {
        self.visited_index != c.current_index
    }

    open spec fn level_value(&self, h: HistogramState, c: CursorView) -> u64 {
        c.highest_value(h)
    }

    open spec fn level_percentile(&self, h: HistogramState, c: CursorView) -> PercentileLevel {
        c.percentile_level()
    }

    open spec fn after_increment(&self, h: HistogramState, c: CursorView) -> Self {
        AllValuesStrategy { visited_index: c.current_index as i32 }
    }

    proof fn lemma_ready_implies_inv(&self, h: HistogramState, c: CursorView) {
    }

    fn allow_further_iteration(
        &mut self,
        histogram: &SimpleHdrHistogram<T>,
        cursor: &IterationCursor<T>,
    ) -> (r: bool) {
        proof {
            histogram.lemma_wf_state();
            lemma_layout_bounds(
                histogram@.lowest_discernible_value,
                histogram@.highest_trackable_value,
                histogram@.significant_value_digits,
            );
        }
        // Unlike other iterators AllValues is only done when we've exhausted the indices:
        cursor.current_index < (histogram.counts_len() - 1)
    }

    fn reached_iteration_level(
        &self,
        histogram: &SimpleHdrHistogram<T>,
        cursor: &IterationCursor<T>,
    ) -> (r: bool) {
        proof {
            histogram.lemma_wf_state();
            lemma_layout_bounds(
                histogram@.lowest_discernible_value,
                histogram@.highest_trackable_value,
                histogram@.significant_value_digits,
            );
        }
        self.visited_index != cursor.current_index as i32
    }

    fn value_iterated_to(
        &self,
        histogram: &SimpleHdrHistogram<T>,
        cursor: &IterationCursor<T>,
    ) -> (r: u64) {
        default_value_iterated_to(histogram, cursor)
    }

    fn percentile_iterated_to(
        &self,
        histogram: &SimpleHdrHistogram<T>,
        cursor: &IterationCursor<T>,
    ) -> (r: PercentileLevel) {
        default_percentile_iterated_to(cursor)
    }

    fn increment_iteration_level(
        &mut self,
        histogram: &SimpleHdrHistogram<T>,
        cursor: &IterationCursor<T>,
    ) {
        proof {
            histogram.lemma_wf_state();
            lemma_layout_bounds(
                histogram@.lowest_discernible_value,
                histogram@.highest_trackable_value,
                histogram@.significant_value_digits,
            );
        }
        // cast is safe; count indexes << 2^32
        self.visited_index = cursor.current_index as i32;
    }
}

/// The slot from which a walk looks for its next report: the cursor's slot,
/// or the one after it if the cursor's slot was reported.
pub open spec fn search_start(visited_index: i32, c: CursorView) -> int {
    if visited_index == c.current_index {
        c.current_index as int + 1
    } else {
        c.current_index as int
    }
}

/// What a walk over the recorded values reports next: the first slot, from
/// where the walk looks, that holds a count; with it the highest value of the
/// slot, its count, and the sum of the counts up to and with it. If no slot
/// from there on holds a count, the walk reports nothing.
pub proof fn lemma_recorded_values_walk<T: HistogramCount>(
    h: HistogramState,
    it: IterationView<RecordedValuesStrategy>,
)
    requires
        h.wf(),
        it.cursor.wf(h),
        it.strategy.visited_index <= it.cursor.current_index,
        !it.cursor.fresh_sub_bucket ==> it.strategy.visited_index == it.cursor.current_index,
        it.total_count_to_prev_index <= it.cursor.total_count_to_current_index,
    ensures
        ({
            let j = first_nonzero_index(h.counts, search_start(it.strategy.visited_index, it.cursor));
            let (report, after) = walk::<T, RecordedValuesStrategy>(h, it);
            if j >= h.counts.len() {
                report.is_none()
            } else {
                &&& report.is_some()
                &&& report.unwrap().value_iterated_to == highest_equivalent_of(
                    h.value_from_index(j as nat),
                    h.unit_magnitude(),
                    h.half_count_magnitude(),
                )
                &&& report.unwrap().value_iterated_from == it.prev_value_iterated_to
                &&& report.unwrap().count_at_value_iterated_to == h.counts[j]
                &&& report.unwrap().total_count_to_this_value == sum_to(h.counts, j + 1)
                &&& report.unwrap().count_added_in_this_iteration_step == sum_to(h.counts, j + 1)
                    - it.total_count_to_prev_index
                &&& after.cursor.current_index == j
                &&& after.strategy.visited_index == j
                &&& !after.cursor.fresh_sub_bucket
                &&& after.cursor.wf(h)
            }
        }),
    decreases h.counts.len() - it.cursor.current_index,
{
    let len = h.counts.len() as int;
    let index = it.cursor.current_index as int;
    lemma_layout_bounds(
        h.lowest_discernible_value,
        h.highest_trackable_value,
        h.significant_value_digits,
    );
    if index < len {
        let c = it.cursor.settle(h);
        crate::state::lemma_sum_to_monotone(h.counts, index + 1, len);
        crate::layout::lemma_values_below_top(
            h.lowest_discernible_value,
            h.highest_trackable_value,
            h.significant_value_digits,
            index as nat,
        );
        crate::index::lemma_value_at_next_index(
            index as nat,
            h.unit_magnitude(),
            h.half_count_magnitude(),
        );
        if !<RecordedValuesStrategy as IterationStrategy<T>>::reaches_iteration_level(
            &it.strategy,
            h,
            c,
        ) {
            let next = IterationView {
                cursor: c.increment_sub_bucket(h),
                total_value_to_current_index: crate::iterator::settled_total_value(
                    h,
                    it.cursor,
                    it.total_value_to_current_index,
                ),
                ..it
            };
            lemma_recorded_values_walk::<T>(h, next);
            if it.strategy.visited_index != index {
                assert(first_nonzero_index(h.counts, index) == first_nonzero_index(
                    h.counts,
                    index + 1,
                ));
            }
        } else {
            assert(first_nonzero_index(h.counts, index) == index);
        }
    }
}

/// What a walk over all the slots reports next: the slot from which the
/// walk looks, if the array has it.
pub proof fn lemma_all_values_walk<T: HistogramCount>(
    h: HistogramState,
    it: IterationView<AllValuesStrategy>,
)
    requires
        h.wf(),
        it.cursor.wf(h),
        it.strategy.visited_index <= it.cursor.current_index,
        !it.cursor.fresh_sub_bucket ==> it.strategy.visited_index == it.cursor.current_index,
    ensures
        ({
            let j = search_start(it.strategy.visited_index, it.cursor);
            let (report, after) = walk::<T, AllValuesStrategy>(h, it);
            if j >= h.counts.len() {
                report.is_none()
            } else {
                &&& report.is_some()
                &&& report.unwrap().value_iterated_to == highest_equivalent_of(
                    h.value_from_index(j as nat),
                    h.unit_magnitude(),
                    h.half_count_magnitude(),
                )
                &&& report.unwrap().count_at_value_iterated_to == h.counts[j]
                &&& report.unwrap().total_count_to_this_value == sum_to(h.counts, j + 1)
                &&& after.cursor.current_index == j
                &&& after.strategy.visited_index == j
                &&& !after.cursor.fresh_sub_bucket
                &&& after.cursor.wf(h)
            }
        }),
    decreases h.counts.len() - it.cursor.current_index,
{
    let len = h.counts.len() as int;
    let index = it.cursor.current_index as int;
    lemma_layout_bounds(
        h.lowest_discernible_value,
        h.highest_trackable_value,
        h.significant_value_digits,
    );
    if index < len {
        let c = it.cursor.settle(h);
        crate::state::lemma_sum_to_monotone(h.counts, index + 1, len);
        crate::layout::lemma_values_below_top(
            h.lowest_discernible_value,
            h.highest_trackable_value,
            h.significant_value_digits,
            index as nat,
        );
        crate::index::lemma_value_at_next_index(
            index as nat,
            h.unit_magnitude(),
            h.half_count_magnitude(),
        );
        if !<AllValuesStrategy as IterationStrategy<T>>::reaches_iteration_level(
            &it.strategy,
            h,
            c,
        ) {
            let next = IterationView {
                cursor: c.increment_sub_bucket(h),
                total_value_to_current_index: crate::iterator::settled_total_value(
                    h,
                    it.cursor,
                    it.total_value_to_current_index,
                ),
                ..it
            };
            lemma_all_values_walk::<T>(h, next);
        }
    }
}

/// The recorded values of a histogram, to be iterated over.
pub struct RecordedValues<'a, T: HistogramCount> {
    histo: &'a SimpleHdrHistogram<T>,
}

/// An iteration over the values with non-zero counts.
pub type RecordedValuesIterator<'a, T> = BaseHistogramIterator<'a, T, RecordedValuesStrategy>;

impl<'a, T: HistogramCount> RecordedValues<'a, T> {
    /// The state of the histogram.
    pub closed spec fn histogram(&self) -> HistogramState {
        self.histo@
    }

    /// The histogram is well-formed.
    pub closed spec fn wf(&self) -> bool {
        self.histo.wf()
    }

    /// The iteration, from the first slot.
    pub fn into_iter(self) -> (r: BaseHistogramIterator<'a, T, RecordedValuesStrategy>)
        requires
            self.wf(),
        ensures
            r.wf(),
            r.histogram() == self.histogram(),
            r@ == (IterationView {
                strategy: RecordedValuesStrategy { visited_index: -1i32 },
                cursor: CursorView::start(self.histogram()),
                prev_value_iterated_to: 0,
                total_count_to_prev_index: 0,
                total_value_to_current_index: 0,
            }),
    {
        BaseHistogramIterator::new(self.histo, RecordedValuesStrategy { visited_index: -1 })
    }
}

/// All the slots of a histogram, to be iterated over.
pub struct AllValues<'a, T: HistogramCount> {
    histo: &'a SimpleHdrHistogram<T>,
}

impl<'a, T: HistogramCount> AllValues<'a, T> {
    /// The state of the histogram.
    pub closed spec fn histogram(&self) -> HistogramState {
        self.histo@
    }

    /// The histogram is well-formed.
    pub closed spec fn wf(&self) -> bool {
        self.histo.wf()
    }

    /// The iteration, from the first slot.
    pub fn into_iter(self) -> (r: BaseHistogramIterator<'a, T, AllValuesStrategy>)
        requires
            self.wf(),
        ensures
            r.wf(),
            r.histogram() == self.histogram(),
            r@ == (IterationView {
                strategy: AllValuesStrategy { visited_index: -1i32 },
                cursor: CursorView::start(self.histogram()),
                prev_value_iterated_to: 0,
                total_count_to_prev_index: 0,
                total_value_to_current_index: 0,
            }),
    {
        BaseHistogramIterator::new(self.histo, AllValuesStrategy { visited_index: -1 })
    }
}

impl<T: HistogramCount> SimpleHdrHistogram<T> {
    /// Iterate across all recorded values
    pub fn recorded_values(&self) -> (r: RecordedValues<'_, T>)
        requires
            self.wf(),
        ensures
            r.wf(),
            r.histogram() == self@,
    {
        RecordedValues { histo: self }
    }

    /// Iterate across all expressible values, recorded or not
    pub fn all_values(&self) -> (r: AllValues<'_, T>)
        requires
            self.wf(),
        ensures
            r.wf(),
            r.histogram() == self@,
    {
        AllValues { histo: self }
    }
}

} // verus!
