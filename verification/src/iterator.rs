//! Walking the counts array: one cursor, and a strategy that says at which
//! positions the walk reports.

use vstd::prelude::*;
use vstd::arithmetic::power2::*;
use crate::count::HistogramCount;
use crate::histogram::SimpleHdrHistogram;
use crate::index::{
    highest_equivalent_of,
    lemma_value_at_next_index,
};
use crate::layout::{lemma_layout_bounds, lemma_values_below_top};
use crate::percentile::{Percentile, PercentileLevel};
use crate::state::{HistogramState, lemma_sum_to_monotone, sum_to};

verus! {

/// What an iteration reports at one step.
#[derive(Clone, Copy, Debug)]
pub struct HistogramIterationValue<T: HistogramCount> {
    /// The value that the step has reached.
    pub value_iterated_to: u64,
    /// The value that the step before had reached.
    pub value_iterated_from: u64,
    /// The count of the slot that the cursor is on.
    pub count_at_value_iterated_to: T,
    /// The sum of the counts that the cursor has passed since the step before.
    // many counts may be covered in one step, so use largest type
    pub count_added_in_this_iteration_step: u64,
    /// The sum of the counts up to the cursor.
    pub total_count_to_this_value: u64,
    /// The sum, up to the cursor, of each count times the highest value of its slot.
    pub total_value_to_this_value: u128,
    /// The percentile at the current position
    pub percentile: Percentile,
    /// The percentile intended to iterate to. This can be different from percentile if, for
    /// instance, we intend to iterate to the 90th %ile but value distribution does not allow us
    /// to exactly hit 90%.
    pub percentile_level_iterated_to: PercentileLevel,
}

/// What an iteration reports at one step, with the count as a number.
pub struct IterationValueView {
    /// The value that the step has reached.
    pub value_iterated_to: u64,
    /// The value that the step before had reached.
    pub value_iterated_from: u64,
    /// The count of the slot that the cursor is on.
    pub count_at_value_iterated_to: nat,
    /// The sum of the counts that the cursor has passed since the step before.
    pub count_added_in_this_iteration_step: u64,
    /// The sum of the counts up to the cursor.
    pub total_count_to_this_value: u64,
    /// The sum, up to the cursor, of each count times the highest value of its slot.
    pub total_value_to_this_value: u128,
    /// The percentile at the cursor.
    pub percentile: Percentile,
    /// The percentile that the step was meant to reach.
    pub percentile_level_iterated_to: PercentileLevel,
}

impl<T: HistogramCount> View for HistogramIterationValue<T> {
    type V = IterationValueView;

    open spec fn view(&self) -> IterationValueView {
        IterationValueView {
            value_iterated_to: self.value_iterated_to,
            value_iterated_from: self.value_iterated_from,
            count_at_value_iterated_to: self.count_at_value_iterated_to.value(),
            count_added_in_this_iteration_step: self.count_added_in_this_iteration_step,
            total_count_to_this_value: self.total_count_to_this_value,
            total_value_to_this_value: self.total_value_to_this_value,
            percentile: self.percentile,
            percentile_level_iterated_to: self.percentile_level_iterated_to,
        }
    }
}

impl<T: HistogramCount> Default for HistogramIterationValue<T> {
    fn default() -> (r: HistogramIterationValue<T>)
        ensures
            r@ == (IterationValueView {
                value_iterated_to: 0,
                value_iterated_from: 0,
                count_at_value_iterated_to: 0,
                count_added_in_this_iteration_step: 0,
                total_count_to_this_value: 0,
                total_value_to_this_value: 0,
                percentile: Percentile { part: 0, whole: 0 },
                percentile_level_iterated_to: PercentileLevel { part: 0, whole: 0 },
            }),
    {
        HistogramIterationValue {
            value_iterated_to: 0,
            value_iterated_from: 0,
            count_at_value_iterated_to: T::zero(),
            count_added_in_this_iteration_step: 0,
            total_count_to_this_value: 0,
            total_value_to_this_value: 0,
            percentile: Percentile { part: 0, whole: 0 },
            percentile_level_iterated_to: PercentileLevel { part: 0, whole: 0 },
        }
    }
}

impl<T: HistogramCount> HistogramIterationValue<T> {
    /// Makes the value what a new one is.
    pub fn reset(&mut self)
        ensures
            final(self)@ == (IterationValueView {
                value_iterated_to: 0,
                value_iterated_from: 0,
                count_at_value_iterated_to: 0,
                count_added_in_this_iteration_step: 0,
                total_count_to_this_value: 0,
                total_value_to_this_value: 0,
                percentile: Percentile { part: 0, whole: 0 },
                percentile_level_iterated_to: PercentileLevel { part: 0, whole: 0 },
            }),
    {
        *self = HistogramIterationValue::default();
    }

    /// Sets every field.
    pub fn set(
        &mut self,
        value_iterated_to: u64,
        value_iterated_from: u64,
        count_at_value_iterated_to: T,
        count_added_in_this_iteration_step: u64,
        total_count_to_this_value: u64,
        total_value_to_this_value: u128,
        percentile: Percentile,
        percentile_level_iterated_to: PercentileLevel,
    )
        ensures
            *final(self) == (HistogramIterationValue {
                value_iterated_to,
                value_iterated_from,
                count_at_value_iterated_to,
                count_added_in_this_iteration_step,
                total_count_to_this_value,
                total_value_to_this_value,
                percentile,
                percentile_level_iterated_to,
            }),
    {
        self.value_iterated_to = value_iterated_to;
        self.value_iterated_from = value_iterated_from;
        self.count_at_value_iterated_to = count_at_value_iterated_to;
        self.count_added_in_this_iteration_step = count_added_in_this_iteration_step;
        self.total_count_to_this_value = total_count_to_this_value;
        self.total_value_to_this_value = total_value_to_this_value;
        self.percentile = percentile;
        self.percentile_level_iterated_to = percentile_level_iterated_to;
    }
}

/// Where a walk stands: what a strategy gets to see of it.
#[derive(Clone, Copy, Debug)]
pub struct IterationCursor<T: HistogramCount> {
    /// The logical index of the slot that the cursor is on.
    pub current_index: usize,
    /// The smallest value of that slot.
    pub current_value_at_index: u128,
    /// The smallest value of the slot after it.
    pub next_value_at_index: u128,
    /// The count of the slot, once the walk has read it.
    pub count_at_this_value: T,
    /// The sum of the counts up to the cursor.
    pub total_count_to_current_index: u64,
    /// The total of the histogram when the walk began.
    pub array_total_count: u64,
    /// The walk has not read the count of the slot yet.
    pub fresh_sub_bucket: bool,
}

/// Where a walk stands, with the count as a number.
pub struct CursorView {
    /// The logical index of the slot that the cursor is on.
    pub current_index: nat,
    /// The smallest value of that slot.
    pub current_value_at_index: nat,
    /// The smallest value of the slot after it.
    pub next_value_at_index: nat,
    /// The count of the slot, once the walk has read it.
    pub count_at_this_value: nat,
    /// The sum of the counts up to the cursor.
    pub total_count_to_current_index: nat,
    /// The total of the histogram when the walk began.
    pub array_total_count: nat,
    /// The walk has not read the count of the slot yet.
    pub fresh_sub_bucket: bool,
}

impl<T: HistogramCount> View for IterationCursor<T> {
    type V = CursorView;

    open spec fn view(&self) -> CursorView {
        CursorView {
            current_index: self.current_index as nat,
            current_value_at_index: self.current_value_at_index as nat,
            next_value_at_index: self.next_value_at_index as nat,
            count_at_this_value: self.count_at_this_value.value(),
            total_count_to_current_index: self.total_count_to_current_index as nat,
            array_total_count: self.array_total_count as nat,
            fresh_sub_bucket: self.fresh_sub_bucket,
        }
    }
}

impl CursorView {
    /// The cursor fits the histogram: it is on a slot or just past the last
    /// one, holds the values of its slot and of the next, and has summed the
    /// counts of the slots before it, and of its own slot once it has read it.
    pub open spec fn wf(self, h: HistogramState) -> bool {
        &&& self.current_index <= h.counts.len()
        &&& self.current_value_at_index == h.value_from_index(self.current_index)
        &&& self.next_value_at_index == h.value_from_index(self.current_index + 1)
        &&& self.array_total_count == h.total_count
        &&& self.total_count_to_current_index == sum_to(
            h.counts,
            self.current_index + if self.fresh_sub_bucket {
                0int
            } else {
                1int
            },
        )
        &&& !self.fresh_sub_bucket ==> self.current_index < h.counts.len()
            && self.count_at_this_value == h.counts[self.current_index as int]
    }

    /// The cursor is on a slot and has read its count.
    pub open spec fn settled(self, h: HistogramState) -> bool {
        &&& self.wf(h)
        &&& !self.fresh_sub_bucket
    }

    /// The cursor before the first slot is read.
    pub open spec fn start(h: HistogramState) -> CursorView {
        CursorView {
            current_index: 0,
            current_value_at_index: 0,
            next_value_at_index: pow2(h.unit_magnitude()),
            count_at_this_value: 0,
            total_count_to_current_index: 0,
            array_total_count: h.total_count as nat,
            fresh_sub_bucket: true,
        }
    }

    /// The cursor once it has read the count of its slot, and added it to its
    /// sum if it came to the slot just now.
    pub open spec fn settle(self, h: HistogramState) -> CursorView {
        CursorView {
            count_at_this_value: h.counts[self.current_index as int],
            total_count_to_current_index: if self.fresh_sub_bucket {
                self.total_count_to_current_index + h.counts[self.current_index as int]
            } else {
                self.total_count_to_current_index
            },
            fresh_sub_bucket: false,
            ..self
        }
    }

    /// The cursor moved to the next slot.
    pub open spec fn increment_sub_bucket(self, h: HistogramState) -> CursorView {
        CursorView {
            current_index: self.current_index + 1,
            current_value_at_index: h.value_from_index(self.current_index + 1),
            next_value_at_index: h.value_from_index(self.current_index + 2),
            fresh_sub_bucket: true,
            ..self
        }
    }

    /// The percentile at the cursor: the part of the total that the counts up
    /// to the cursor make.
    pub open spec fn percentile(self) -> Percentile {
        Percentile {
            part: self.total_count_to_current_index as u64,
            whole: self.array_total_count as u64,
        }
    }

    /// What most strategies answer when asked whether the walk may go on:
    /// whether there are counts beyond the cursor.
    pub open spec fn counts_remain(self) -> bool {
        self.total_count_to_current_index < self.array_total_count
    }

    /// What most strategies report as the value iterated to: the highest
    /// value of the cursor's slot.
    pub open spec fn highest_value(self, h: HistogramState) -> u64 {
        highest_equivalent_of(
            self.current_value_at_index,
            h.unit_magnitude(),
            h.half_count_magnitude(),
        ) as u64
    }

    /// What most strategies report as the percentile iterated to: the
    /// percentile at the cursor.
    pub open spec fn percentile_level(self) -> PercentileLevel {
        PercentileLevel {
            part: self.total_count_to_current_index as u128,
            whole: self.array_total_count as u128,
        }
    }
}

/// Whether there are counts beyond the cursor.
pub fn default_allow_further_iteration<T: HistogramCount>(cursor: &IterationCursor<T>) -> (r: bool)
    ensures
        r == cursor@.counts_remain(),
{
    cursor.total_count_to_current_index < cursor.array_total_count
}

/// The highest value of the cursor's slot.
pub fn default_value_iterated_to<T: HistogramCount>(
    histogram: &SimpleHdrHistogram<T>,
    cursor: &IterationCursor<T>,
) -> (r: u64)
    requires
        histogram.wf(),
        cursor@.wf(histogram@),
        cursor@.current_index < histogram@.counts.len(),
    ensures
        r == cursor@.highest_value(histogram@),
{
    proof {
        histogram.lemma_wf_state();
        lemma_values_below_top(
            histogram@.lowest_discernible_value,
            histogram@.highest_trackable_value,
            histogram@.significant_value_digits,
            cursor@.current_index,
        );
        lemma_value_at_next_index(
            cursor@.current_index,
            histogram@.unit_magnitude(),
            histogram@.half_count_magnitude(),
        );
    }
    histogram.highest_equivalent_value(cursor.current_value_at_index as u64)
}

/// The percentile at the cursor.
pub fn default_percentile_iterated_to<T: HistogramCount>(cursor: &IterationCursor<T>) -> (r:
    PercentileLevel)
    ensures
        r == cursor@.percentile_level(),
{
    PercentileLevel {
        part: cursor.total_count_to_current_index as u128,
        whole: cursor.array_total_count as u128,
    }
}

/// When a walk reports, and what.
pub trait IterationStrategy<T: HistogramCount>: Sized {
    /// What holds of the strategy between two steps of a walk that stands
    /// at `c`.
    spec fn inv(&self, h: HistogramState, c: CursorView) -> bool;

    /// What holds of the strategy while a walk looks for its next step.
    spec fn ready(&self, h: HistogramState) -> bool;

    /// Whether the walk may look for a next step.
    spec fn allows_further_iteration(&self, h: HistogramState, c: CursorView) -> bool;

    /// The strategy after it was asked whether the walk may go on.
    spec fn after_allow(&self, h: HistogramState, c: CursorView) -> Self;

    /// Whether the walk reports at the cursor.
    spec fn reaches_iteration_level(&self, h: HistogramState, c: CursorView) -> bool;

    /// The value that a report at the cursor gives as the value iterated to.
    spec fn level_value(&self, h: HistogramState, c: CursorView) -> u64;

    /// The percentile that a report at the cursor gives as the percentile
    /// iterated to.
    spec fn level_percentile(&self, h: HistogramState, c: CursorView) -> PercentileLevel;

    /// The strategy after a report at the cursor.
    spec fn after_increment(&self, h: HistogramState, c: CursorView) -> Self;

    /// A strategy that is ready for the walk to look for its next step is
    /// in order wherever the walk stands.
    proof fn lemma_ready_implies_inv(&self, h: HistogramState, c: CursorView)
        requires
            self.ready(h),
        ensures
            self.inv(h, c),
    ;

    /// return false if iteration is done and the walk should report nothing more.
    fn allow_further_iteration(
        &mut self,
        histogram: &SimpleHdrHistogram<T>,
        cursor: &IterationCursor<T>,
    ) -> (r: bool)
        requires
            histogram.wf(),
            cursor@.wf(histogram@),
            old(self).inv(histogram@, cursor@),
        ensures
            r == old(self).allows_further_iteration(histogram@, cursor@),
            *final(self) == old(self).after_allow(histogram@, cursor@),
            final(self).inv(histogram@, cursor@),
            r ==> final(self).ready(histogram@),
    ;

    /// return true if we've reached a position that should be reported
    fn reached_iteration_level(
        &self,
        histogram: &SimpleHdrHistogram<T>,
        cursor: &IterationCursor<T>,
    ) -> (r: bool)
        requires
            histogram.wf(),
            cursor@.settled(histogram@),
            self.ready(histogram@),
        ensures
            r == self.reaches_iteration_level(histogram@, cursor@),
    ;

    /// the value exposed to the consumer of the iterator at a given iteration point
    fn value_iterated_to(
        &self,
        histogram: &SimpleHdrHistogram<T>,
        cursor: &IterationCursor<T>,
    ) -> (r: u64)
        requires
            histogram.wf(),
            cursor@.settled(histogram@),
            self.ready(histogram@),
            self.reaches_iteration_level(histogram@, cursor@),
        ensures
            r == self.level_value(histogram@, cursor@),
    ;

    /// the percentile exposed to the consumer of the iterator at a given iteration point
    fn percentile_iterated_to(
        &self,
        histogram: &SimpleHdrHistogram<T>,
        cursor: &IterationCursor<T>,
    ) -> (r: PercentileLevel)
        requires
            histogram.wf(),
            cursor@.settled(histogram@),
            self.ready(histogram@),
            self.reaches_iteration_level(histogram@, cursor@),
        ensures
            r == self.level_percentile(histogram@, cursor@),
    ;

    /// Moves the strategy on after a report at the cursor.
    fn increment_iteration_level(
        &mut self,
        histogram: &SimpleHdrHistogram<T>,
        cursor: &IterationCursor<T>,
    )
        requires
            histogram.wf(),
            cursor@.settled(histogram@),
            old(self).ready(histogram@),
            old(self).reaches_iteration_level(histogram@, cursor@),
        ensures
            *final(self) == old(self).after_increment(histogram@, cursor@),
            final(self).inv(histogram@, cursor@),
    ;
}

/// A walk: its strategy, its cursor, and what it keeps from the step before.
pub struct IterationView<S> {
    /// When the walk reports, and what.
    pub strategy: S,
    /// Where the walk stands.
    pub cursor: CursorView,
    /// The value that the last report gave as the value iterated to.
    pub prev_value_iterated_to: u64,
    /// The sum of the counts up to the cursor at the last report.
    pub total_count_to_prev_index: u64,
    /// The sum, up to the cursor, of each count times the highest value of its slot.
    pub total_value_to_current_index: nat,
}

/// The sum of each count times the highest value of its slot, once the cursor
/// has read the count of its slot.
pub open spec fn settled_total_value(h: HistogramState, c: CursorView, total_value: nat) -> nat {
    if c.fresh_sub_bucket {
        total_value + h.counts[c.current_index as int] * (c.highest_value(h) as nat)
    } else {
        total_value
    }
}

/// What a walk reports at a cursor that has read the count of its slot.
pub open spec fn report_at<T: HistogramCount, S: IterationStrategy<T>>(
    h: HistogramState,
    strategy: S,
    c: CursorView,
    prev_value_iterated_to: u64,
    total_count_to_prev_index: u64,
    total_value: nat,
) -> IterationValueView {
    IterationValueView {
        value_iterated_to: strategy.level_value(h, c),
        value_iterated_from: prev_value_iterated_to,
        count_at_value_iterated_to: c.count_at_this_value,
        count_added_in_this_iteration_step: (c.total_count_to_current_index
            - total_count_to_prev_index) as u64,
        total_count_to_this_value: c.total_count_to_current_index as u64,
        total_value_to_this_value: total_value as u128,
        percentile: c.percentile(),
        percentile_level_iterated_to: strategy.level_percentile(h, c),
    }
}

/// The walk from where it stands to its next report: slot by slot, it reads
/// the count, and reports if the strategy says so; at the end of the array it
/// reports nothing.
pub open spec fn walk<T: HistogramCount, S: IterationStrategy<T>>(
    h: HistogramState,
    it: IterationView<S>,
) -> (Option<IterationValueView>, IterationView<S>)
    decreases h.counts.len() - it.cursor.current_index,
{
    if it.cursor.current_index >= h.counts.len() {
        (None, it)
    } else {
        let c = it.cursor.settle(h);
        let total_value = settled_total_value(h, it.cursor, it.total_value_to_current_index);
        if it.strategy.reaches_iteration_level(h, c) {
            (
                Some(
                    report_at::<T, S>(
                        h,
                        it.strategy,
                        c,
                        it.prev_value_iterated_to,
                        it.total_count_to_prev_index,
                        total_value,
                    ),
                ),
                IterationView {
                    strategy: it.strategy.after_increment(h, c),
                    cursor: c,
                    prev_value_iterated_to: it.strategy.level_value(h, c),
                    total_count_to_prev_index: c.total_count_to_current_index as u64,
                    total_value_to_current_index: total_value,
                },
            )
        } else {
            walk::<T, S>(
                h,
                IterationView {
                    cursor: c.increment_sub_bucket(h),
                    total_value_to_current_index: total_value,
                    ..it
                },
            )
        }
    }
}

/// One step of a walk: the strategy is asked whether the walk may go on, and
/// if so the walk goes to its next report.
pub open spec fn step<T: HistogramCount, S: IterationStrategy<T>>(
    h: HistogramState,
    it: IterationView<S>,
) -> (Option<IterationValueView>, IterationView<S>) {
    let asked = IterationView { strategy: it.strategy.after_allow(h, it.cursor), ..it };
    if it.strategy.allows_further_iteration(h, it.cursor) {
        walk::<T, S>(h, asked)
    } else {
        (None, asked)
    }
}

/// An iteration over a histogram, which it borrows for as long as it lives.
pub struct BaseHistogramIterator<'a, T: HistogramCount, S: IterationStrategy<T>> {
    histogram: &'a SimpleHdrHistogram<T>,
    strategy: S,
    cursor: IterationCursor<T>,
    prev_value_iterated_to: u64,
    total_count_to_prev_index: u64,
    total_value_to_current_index: u128,
}

impl<'a, T: HistogramCount, S: IterationStrategy<T>> View for BaseHistogramIterator<'a, T, S> {
    type V = IterationView<S>;

    closed spec fn view(&self) -> IterationView<S> {
        IterationView {
            strategy: self.strategy,
            cursor: self.cursor@,
            prev_value_iterated_to: self.prev_value_iterated_to,
            total_count_to_prev_index: self.total_count_to_prev_index,
            total_value_to_current_index: self.total_value_to_current_index as nat,
        }
    }
}

impl<'a, T: HistogramCount, S: IterationStrategy<T>> BaseHistogramIterator<'a, T, S> {
    /// The state of the histogram that the iteration walks.
    pub closed spec fn histogram(&self) -> HistogramState {
        self.histogram@
    }

    /// The iteration fits its histogram.
    pub closed spec fn wf(&self) -> bool {
        &&& self.histogram.wf()
        &&& self.cursor@.wf(self.histogram@)
        &&& self.strategy.inv(self.histogram@, self.cursor@)
        &&& self.total_count_to_prev_index <= self.cursor.total_count_to_current_index
        &&& self.total_value_to_current_index <= self.cursor.total_count_to_current_index
            * 0xffff_ffff_ffff_ffff
    }

    /// An iteration from the first slot.
    pub fn new(histo: &'a SimpleHdrHistogram<T>, strategy: S) -> (r: BaseHistogramIterator<
        'a,
        T,
        S,
    >)
        requires
            histo.wf(),
            strategy.inv(histo@, CursorView::start(histo@)),
        ensures
            r.wf(),
            r.histogram() == histo@,
            r@ == (IterationView {
                strategy,
                cursor: CursorView::start(histo@),
                prev_value_iterated_to: 0,
                total_count_to_prev_index: 0,
                total_value_to_current_index: 0,
            }),
    {
        proof {
            histo.lemma_wf_state();
            lemma_layout_bounds(
                histo@.lowest_discernible_value,
                histo@.highest_trackable_value,
                histo@.significant_value_digits,
            );
            lemma2_to64();
            assert(0 * pow2(histo@.unit_magnitude()) == 0) by (nonlinear_arith);
            assert(1 * pow2(histo@.unit_magnitude()) == pow2(histo@.unit_magnitude()))
                by (nonlinear_arith);
            vstd::arithmetic::power2::lemma_pow2_strictly_increases(
                0,
                histo@.half_count_magnitude() + 1,
            );
        }
        BaseHistogramIterator {
            histogram: histo,
            strategy,
            cursor: IterationCursor {
                current_index: 0,
                current_value_at_index: 0,
                next_value_at_index: histo.value_from_index_wide(1),
                count_at_this_value: T::zero(),
                total_count_to_current_index: 0,
                array_total_count: histo.get_count(),
                fresh_sub_bucket: true,
            },
            prev_value_iterated_to: 0,
            total_count_to_prev_index: 0,
            total_value_to_current_index: 0,
        }
    }

    /// Starts the iteration anew, on `histogram` and with `strategy`.
    pub fn reset_iterator(&mut self, histogram: &'a SimpleHdrHistogram<T>, strategy: S)
        requires
            histogram.wf(),
            strategy.inv(histogram@, CursorView::start(histogram@)),
        ensures
            final(self).wf(),
            final(self).histogram() == histogram@,
            final(self)@ == (IterationView {
                strategy,
                cursor: CursorView::start(histogram@),
                prev_value_iterated_to: 0,
                total_count_to_prev_index: 0,
                total_value_to_current_index: 0,
            }),
    {
        *self = BaseHistogramIterator::new(histogram, strategy);
    }

    /// Whether the cursor has left the array.
    fn exhausted_sub_buckets(&self) -> (r: bool)
        requires
            self.histogram.wf(),
        ensures
            r == (self.cursor.current_index >= self.histogram@.counts.len()),
    {
        self.cursor.current_index >= self.histogram.counts_len()
    }

    /// Moves the cursor to the next slot.
    fn increment_sub_bucket(&mut self)
        requires
            old(self).histogram.wf(),
            old(self).cursor@.settled(old(self).histogram@),
        ensures
            final(self).cursor@ == old(self).cursor@.increment_sub_bucket(old(self).histogram@),
            final(self).cursor@.wf(old(self).histogram@),
            final(self).histogram == old(self).histogram,
            final(self).strategy == old(self).strategy,
            final(self).prev_value_iterated_to == old(self).prev_value_iterated_to,
            final(self).total_count_to_prev_index == old(self).total_count_to_prev_index,
            final(self).total_value_to_current_index == old(self).total_value_to_current_index,
    {
        proof {
            self.histogram.lemma_wf_state();
            lemma_layout_bounds(
                self.histogram@.lowest_discernible_value,
                self.histogram@.highest_trackable_value,
                self.histogram@.significant_value_digits,
            );
        }
        self.cursor.fresh_sub_bucket = true;
        self.cursor.current_index += 1;
        self.cursor.current_value_at_index = self.histogram.value_from_index_wide(
            self.cursor.current_index,
        );
        // This only calculates what the value would be, so it doesn't hit the counts array, and
        // therefore won't overflow when we try the last index
        self.cursor.next_value_at_index = self.histogram.value_from_index_wide(
            self.cursor.current_index + 1,
        );
    }

    /// The next report of the iteration, if there is one.
    pub fn next(&mut self) -> (r: Option<HistogramIterationValue<T>>)
        requires
            old(self).wf(),
        ensures
            final(self).wf(),
            final(self).histogram() == old(self).histogram(),
            final(self)@ == step::<T, S>(old(self).histogram(), old(self)@).1,
            match r {
                Some(v) => step::<T, S>(old(self).histogram(), old(self)@).0 == Some(v@),
                None => step::<T, S>(old(self).histogram(), old(self)@).0.is_none(),
            },
    {
        let ghost h = self.histogram@;
        let proceed = self.strategy.allow_further_iteration(self.histogram, &self.cursor);
        if !proceed {
            return None;
        }
        proof {
            self.histogram.lemma_wf_state();
        }
        while !self.exhausted_sub_buckets()
            invariant
                self.histogram.wf(),
                self.histogram@ == h,
                h.wf(),
                h == old(self).histogram@,
                forall|i: int| 0 <= i < h.counts.len() ==> h.counts[i] <= T::spec_max_value(),
                self.cursor@.wf(h),
                self.strategy.ready(h),
                self.total_count_to_prev_index <= self.cursor.total_count_to_current_index,
                self.total_value_to_current_index <= self.cursor.total_count_to_current_index
                    * 0xffff_ffff_ffff_ffff,
                step::<T, S>(h, old(self)@) == walk::<T, S>(h, self@),
            decreases h.counts.len() - self.cursor.current_index,
        {
            let ghost before = self@;
            match self.histogram.get_count_at_index(self.cursor.current_index) {
                Ok(val) => {
                    self.cursor.count_at_this_value = val;
                },
                Err(err) => {},
            }
            if self.cursor.fresh_sub_bucket {
                proof {
                    lemma_sum_to_monotone(
                        h.counts,
                        self.cursor.current_index as int + 1,
                        h.counts.len() as int,
                    );
                    lemma_values_below_top(
                        h.lowest_discernible_value,
                        h.highest_trackable_value,
                        h.significant_value_digits,
                        self.cursor@.current_index,
                    );
                    lemma_value_at_next_index(
                        self.cursor@.current_index,
                        h.unit_magnitude(),
                        h.half_count_magnitude(),
                    );
                }
                // all count types can become u64
                let count_u64 = self.cursor.count_at_this_value.as_u64();
                let highest_eq_val = self.histogram.highest_equivalent_value(
                    self.cursor.current_value_at_index as u64,
                );
                proof {
                    let cur = self.cursor.total_count_to_current_index as int;
                    let c = count_u64 as int;
                    let v = highest_eq_val as int;
                    assert(c * v <= c * 0xffff_ffff_ffff_ffff && (cur + c) * 0xffff_ffff_ffff_ffff
                        == cur * 0xffff_ffff_ffff_ffff + c * 0xffff_ffff_ffff_ffff && (cur + c)
                        * 0xffff_ffff_ffff_ffff <= 0xffff_ffff_ffff_ffff * 0xffff_ffff_ffff_ffff)
                        by (nonlinear_arith)
                        requires
                            0 <= v <= 0xffff_ffff_ffff_ffff,
                            0 <= c,
                            0 <= cur,
                            cur + c <= 0xffff_ffff_ffff_ffff,
                    ;
                }
                self.cursor.total_count_to_current_index += count_u64;
                self.total_value_to_current_index += (count_u64 as u128) * (highest_eq_val as u128);
                self.cursor.fresh_sub_bucket = false;
            }
            assert(self.cursor@ == before.cursor.settle(h));
            assert(self.total_value_to_current_index == settled_total_value(
                h,
                before.cursor,
                before.total_value_to_current_index,
            ));

            if self.strategy.reached_iteration_level(self.histogram, &self.cursor) {
                let value_iterated_to = self.strategy.value_iterated_to(
                    self.histogram,
                    &self.cursor,
                );
                let pctile_iterated_to = self.strategy.percentile_iterated_to(
                    self.histogram,
                    &self.cursor,
                );

                let mut current_iteration_value = HistogramIterationValue::default();
                current_iteration_value.set(
                    value_iterated_to,
                    self.prev_value_iterated_to,
                    self.cursor.count_at_this_value,
                    self.cursor.total_count_to_current_index - self.total_count_to_prev_index,
                    self.cursor.total_count_to_current_index,
                    self.total_value_to_current_index,
                    Percentile {
                        part: self.cursor.total_count_to_current_index,
                        whole: self.cursor.array_total_count,
                    },
                    pctile_iterated_to,
                );
                self.prev_value_iterated_to = value_iterated_to;
                self.total_count_to_prev_index = self.cursor.total_count_to_current_index;

                self.strategy.increment_iteration_level(self.histogram, &self.cursor);

                return Some(current_iteration_value);
            }
            self.increment_sub_bucket();
        }
        proof {
            self.strategy.lemma_ready_implies_inv(h, self.cursor@);
        }
        None
    }
}

} // verus!
