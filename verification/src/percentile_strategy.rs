//! The strategy that reports at percentile levels, in ticks that halve
//! whenever the distance to 100 percent has halved.

use vstd::prelude::*;
use vstd::arithmetic::div_mod::*;
use vstd::arithmetic::power2::*;
use crate::index::{floor_log2, lemma_floor_log2_unique};
use crate::count::HistogramCount;
use crate::histogram::SimpleHdrHistogram;
use crate::iterator::{
    BaseHistogramIterator,
    CursorView,
    default_allow_further_iteration,
    default_value_iterated_to,
    IterationCursor,
    IterationStrategy,
    IterationView,
};
use crate::percentile::PercentileLevel;
use crate::state::{HistogramState, lemma_sum_to_monotone};

verus! {

/// `d * w <= r` exactly when `d` is at most the quotient of `r` by `w`.
pub proof fn lemma_mul_le_iff_le_div(d: int, w: int, r: int)
    requires
        d >= 0,
        w > 0,
        r >= 0,
    ensures
        d * w <= r <==> d <= r / w,
{
    lemma_fundamental_div_mod(r, w);
    lemma_mod_bound(r, w);
    let q = r / w;
    if d <= q {
        assert(d * w <= q * w) by (nonlinear_arith)
            requires
                d <= q,
                w > 0,
        ;
        assert(q * w == w * q) by (nonlinear_arith);
    } else {
        assert(d * w >= (q + 1) * w) by (nonlinear_arith)
            requires
                d >= q + 1,
                w > 0,
        ;
        assert((q + 1) * w == w * q + w) by (nonlinear_arith);
    }
}

/// The length of a tick. Where 100 percent is `ticks * 2^k` parts and the
/// level lies more than `ticks` and at most twice `ticks` parts before it,
/// the distance to 100 percent fits into 100 percent at least `2^(k - 1)`
/// times and less than `2^k` times; so one part in `ticks` times the power
/// of two above that number of times is one part of the level: the next
/// level is one part on.
pub proof fn lemma_tick_length(level: PercentileLevel, ticks: u32, k: nat)
    requires
        ticks >= 1,
        level.whole == ticks * pow2(k),
        level.part <= level.whole,
        ticks < level.whole - level.part <= 2 * ticks,
    ensures
        k >= 1,
        floor_log2((level.whole / ((level.whole - level.part) as u128)) as nat) == k - 1,
        ticks * pow2(
            floor_log2((level.whole / ((level.whole - level.part) as u128)) as nat) + 1,
        ) == level.whole,
{
    let t = ticks as int;
    let whole = level.whole as int;
    let left = whole - level.part;
    let q = whole / left;
    lemma2_to64();
    if k == 0 {
        assert(t * 1 == t) by (nonlinear_arith);
        assert(false);
    }
    let half = pow2((k - 1) as nat) as int;
    lemma_pow2_unfold(k);
    lemma_pow2_pos((k - 1) as nat);
    // left * 2^(k - 1) <= whole < left * 2^k
    assert(half * left <= whole && whole < pow2(k) * left) by (nonlinear_arith)
        requires
            whole == t * pow2(k),
            pow2(k) == 2 * half,
            half > 0,
            t < left <= 2 * t,
    ;
    lemma_div_is_ordered(half * left, whole, left);
    lemma_div_by_multiple(half, left);
    assert(pow2(k) * left == left * pow2(k)) by (nonlinear_arith);
    lemma_multiply_divide_lt(whole, left, pow2(k) as int);
    assert((k - 1) as nat + 1 == k);
    lemma_floor_log2_unique(q as nat, (k - 1) as nat);
}

/// Reports at percentile levels. The distance from one level to the next is
/// one tick; `percentile_ticks_per_half_distance` ticks lead half the way
/// to 100 percent, and then a tick is half as long.
#[derive(Clone, Copy, Debug)]
pub struct PercentilesStrategy {
    /// The number of ticks that lead half the way to 100 percent.
    pub percentile_ticks_per_half_distance: u32,
    /// The level that is reported next, in ticks: `whole` ticks of the
    /// current length make 100 percent.
    pub percentile_level_to_iterate_to: PercentileLevel,
    /// The level that was reported last.
    pub percentile_level_to_iterate_from: PercentileLevel,
    /// The step to 100 percent that ends the iteration has been allowed.
    pub reached_last_recorded_value: bool,
}

/// `2^64` times four.
pub const FOUR_TIMES_TWO_TO_64: u128 = 0x4_0000_0000_0000_0000;

impl PercentilesStrategy {
    /// The level after `level`, in ticks of which `ticks` lead half the way
    /// to 100 percent: one tick on, and written in ticks of half the length
    /// once the distance to 100 percent is what `ticks` ticks of half the
    /// length cover. 100 percent stays.
    pub open spec fn next_level(level: PercentileLevel, ticks: u32) -> PercentileLevel {
        if level.part == level.whole {
            level
        } else if level.whole - (level.part + 1) == ticks {
            PercentileLevel {
                part: (2 * (level.part + 1)) as u128,
                whole: (2 * level.whole) as u128,
            }
        } else {
            PercentileLevel { part: (level.part + 1) as u128, whole: level.whole }
        }
    }

    /// There is a tick, the ticks that make 100 percent are `ticks` times a
    /// power of two, and the level is 100 percent or lies more than `ticks`
    /// and at most twice `ticks` ticks before it.
    pub open spec fn fits(&self) -> bool {
        let level = self.percentile_level_to_iterate_to;
        &&& self.percentile_ticks_per_half_distance >= 1
        &&& level.part <= level.whole
        &&& level.whole >= 2 * self.percentile_ticks_per_half_distance
        &&& exists|k: nat|
            level.whole == self.percentile_ticks_per_half_distance * #[trigger] pow2(k)
        &&& level.part == level.whole || self.percentile_ticks_per_half_distance < level.whole
            - level.part <= 2 * self.percentile_ticks_per_half_distance
    }

    /// The level is 100 percent, or its ticks are not too short for the
    /// arithmetic of one more step.
    pub open spec fn coarse(&self) -> bool {
        let level = self.percentile_level_to_iterate_to;
        level.part == level.whole || level.whole <= FOUR_TIMES_TWO_TO_64
            * self.percentile_ticks_per_half_distance
    }

    /// The last count was reported in ticks that have just been halved.
    pub open spec fn halved_at_end(&self, c: CursorView) -> bool {
        let level = self.percentile_level_to_iterate_to;
        &&& level.whole <= 2 * FOUR_TIMES_TWO_TO_64 * self.percentile_ticks_per_half_distance
        &&& c.total_count_to_current_index == c.array_total_count
    }

    /// Whether the part of the total up to the cursor is at least `level`.
    pub open spec fn level_reached(level: PercentileLevel, c: CursorView) -> bool {
        c.total_count_to_current_index * level.whole >= level.part * c.array_total_count
    }
}

impl<T: HistogramCount> IterationStrategy<T> for PercentilesStrategy {
    open spec fn inv(&self, h: HistogramState, c: CursorView) -> bool {
        &&& self.fits()
        &&& self.coarse() || self.halved_at_end(c)
    }

    open spec fn ready(&self, h: HistogramState) -> bool {
        &&& self.fits()
        &&& self.coarse()
    }

    open spec fn allows_further_iteration(&self, h: HistogramState, c: CursorView) -> bool {
        c.counts_remain() || (!self.reached_last_recorded_value && c.array_total_count > 0)
    }

    open spec fn after_allow(&self, h: HistogramState, c: CursorView) -> Self {
        if !c.counts_remain() && !self.reached_last_recorded_value && c.array_total_count > 0 {
            PercentilesStrategy {
                percentile_level_to_iterate_to: PercentileLevel {
                    part: self.percentile_level_to_iterate_to.whole,
                    whole: self.percentile_level_to_iterate_to.whole,
                },
                reached_last_recorded_value: true,
                ..*self
            }
        } else {
            *self
        }
    }

    open spec fn reaches_iteration_level(&self, h: HistogramState, c: CursorView) -> bool {
        c.count_at_this_value != 0 && Self::level_reached(self.percentile_level_to_iterate_to, c)
    }

    open spec fn level_value(&self, h: HistogramState, c: CursorView) -> u64 {
        c.highest_value(h)
    }

    open spec fn level_percentile(&self, h: HistogramState, c: CursorView) -> PercentileLevel {
        self.percentile_level_to_iterate_to
    }

    open spec fn after_increment(&self, h: HistogramState, c: CursorView) -> Self {
        PercentilesStrategy {
            percentile_level_to_iterate_from: self.percentile_level_to_iterate_to,
            percentile_level_to_iterate_to: Self::next_level(
                self.percentile_level_to_iterate_to,
                self.percentile_ticks_per_half_distance,
            ),
            ..*self
        }
    }

    proof fn lemma_ready_implies_inv(&self, h: HistogramState, c: CursorView) {
    }

    fn allow_further_iteration(
        &mut self,
        histogram: &SimpleHdrHistogram<T>,
        cursor: &IterationCursor<T>,
    ) -> (r: bool) {
        if default_allow_further_iteration(cursor) {
            proof {
                histogram.lemma_wf_state();
            }
            return true;
        }
        // want to have one last step to 100%

        if !self.reached_last_recorded_value && (cursor.array_total_count > 0) {
            self.percentile_level_to_iterate_to.part = self.percentile_level_to_iterate_to.whole;
            self.reached_last_recorded_value = true;
            return true;
        }
        false
    }

    fn reached_iteration_level(
        &self,
        histogram: &SimpleHdrHistogram<T>,
        cursor: &IterationCursor<T>,
    ) -> (r: bool) {
        if cursor.count_at_this_value.as_u64() == 0 {
            return false;
        }
        let level = self.percentile_level_to_iterate_to;
        proof {
            let h = histogram@;
            histogram.lemma_wf_state();
            lemma_sum_to_monotone(
                h.counts,
                cursor@.current_index as int + 1,
                h.counts.len() as int,
            );
        }
        // The part of the total up to the cursor is at least the level exactly when the part
        // beyond the cursor is at most what is left of the level: those numbers are small.
        let beyond: u128 = (cursor.array_total_count - cursor.total_count_to_current_index) as u128;
        if beyond == 0 {
            proof {
                let cur = cursor.total_count_to_current_index as int;
                let part = level.part as int;
                let whole = level.whole as int;
                assert(cur * whole >= part * cur) by (nonlinear_arith)
                    requires
                        cur >= 0,
                        part <= whole,
                ;
            }
            return true;
        }
        let left: u128 = level.whole - level.part;
        proof {
            let cur = cursor.total_count_to_current_index as int;
            let total = cursor.array_total_count as int;
            let part = level.part as int;
            let whole = level.whole as int;
            assert(left * total <= 0x2_0000_0000 * 0xffff_ffff_ffff_ffff) by (nonlinear_arith)
                requires
                    0 <= left <= 0x2_0000_0000,
                    0 <= total <= 0xffff_ffff_ffff_ffff,
            ;
            lemma_mul_le_iff_le_div(total - cur, whole, left * total);
            assert((cur * whole >= part * total) <==> ((total - cur) * whole <= left * total))
                by (nonlinear_arith)
                requires
                    left == whole - part,
            ;
        }
        let room: u128 = left * (cursor.array_total_count as u128);
        beyond <= room / level.whole
    }

    fn value_iterated_to(
        &self,
        histogram: &SimpleHdrHistogram<T>,
        cursor: &IterationCursor<T>,
    ) -> (r: u64) {
        default_value_iterated_to(histogram, cursor)
    }

    fn percentile_iterated_to(
        &self,
        histogram: &SimpleHdrHistogram<T>,
        cursor: &IterationCursor<T>,
    ) -> (r: PercentileLevel) {
        self.percentile_level_to_iterate_to
    }

    fn increment_iteration_level(
        &mut self,
        histogram: &SimpleHdrHistogram<T>,
        cursor: &IterationCursor<T>,
    ) {
        self.percentile_level_to_iterate_from = self.percentile_level_to_iterate_to;
        let level = self.percentile_level_to_iterate_to;
        if level.part == level.whole {
            // 100 percent is the last level
            return;
        }
        proof {
            let h = histogram@;
            let cur = cursor.total_count_to_current_index as int;
            let total = cursor.array_total_count as int;
            let part = level.part as int;
            let whole = level.whole as int;
            let t = self.percentile_ticks_per_half_distance as int;
            histogram.lemma_wf_state();
            lemma_sum_to_monotone(
                h.counts,
                cursor@.current_index as int + 1,
                h.counts.len() as int,
            );
            assert(FOUR_TIMES_TWO_TO_64 * t <= FOUR_TIMES_TWO_TO_64 * 0xffff_ffff && 2
                * FOUR_TIMES_TWO_TO_64 * t == 2 * (FOUR_TIMES_TWO_TO_64 * t)) by (nonlinear_arith)
                requires
                    t <= 0xffff_ffff,
            ;
            assert(cur <= total);
            if cur < total {
                // what lies beyond the cursor is at least one count, so a tick is at least
                // one part in twice the ticks times the total
                assert((cur * whole >= part * total) ==> ((total - cur) * whole <= (whole - part)
                    * total)) by (nonlinear_arith);
                assert((total - cur) * whole >= whole) by (nonlinear_arith)
                    requires
                        total - cur >= 1,
                        whole >= 0,
                ;
                assert((whole - part) * total <= (2 * t) * 0xffff_ffff_ffff_ffff)
                    by (nonlinear_arith)
                    requires
                        0 <= whole - part <= 2 * t,
                        0 <= total <= 0xffff_ffff_ffff_ffff,
                ;
                assert(2 * ((2 * t) * 0xffff_ffff_ffff_ffff) <= FOUR_TIMES_TWO_TO_64 * t)
                    by (nonlinear_arith)
                    requires
                        t >= 0,
                ;
            }
        }
        proof {
            let t = self.percentile_ticks_per_half_distance as int;
            let k = choose|k: nat| level.whole == t * #[trigger] pow2(k);
            lemma_pow2_unfold(k + 1);
            assert(2 * level.whole == t * pow2(k + 1)) by (nonlinear_arith)
                requires
                    level.whole == t * pow2(k),
                    pow2(k + 1) == 2 * pow2(k),
            ;
        }
        // The tick is one part in ticks-per-half-distance times the power of two above the number
        // of times that what is left to 100 percent fits into 100 percent: the level is held in
        // such parts, so that one tick is one part.
        let stepped: u128 = level.part + 1;
        if level.whole - stepped == self.percentile_ticks_per_half_distance as u128 {
            // half the distance is gone: from here on a tick is half as long
            self.percentile_level_to_iterate_to = PercentileLevel {
                part: 2 * stepped,
                whole: 2 * level.whole,
            };
        } else {
            self.percentile_level_to_iterate_to = PercentileLevel {
                part: stepped,
                whole: level.whole,
            };
        }
    }
}

/// The percentile levels of a histogram, to be iterated over.
pub struct Percentiles<'a, T: HistogramCount> {
    histo: &'a SimpleHdrHistogram<T>,
    percentile_ticks_per_half_distance: u32,
}

impl<'a, T: HistogramCount> Percentiles<'a, T> {
    /// The state of the histogram.
    pub closed spec fn histogram(&self) -> HistogramState {
        self.histo@
    }

    /// The number of ticks that lead half the way to 100 percent.
    pub closed spec fn percentile_ticks_per_half_distance(&self) -> u32 {
        self.percentile_ticks_per_half_distance
    }

    /// The histogram is well-formed, and there is a tick.
    pub closed spec fn wf(&self) -> bool {
        &&& self.histo.wf()
        &&& self.percentile_ticks_per_half_distance >= 1
    }

    /// The strategy that the iteration starts with: at 0 percent, which is
    /// twice `ticks` ticks before 100 percent.
    pub open spec fn first_strategy(ticks: u32) -> PercentilesStrategy {
        PercentilesStrategy {
            percentile_ticks_per_half_distance: ticks,
            percentile_level_to_iterate_to: PercentileLevel { part: 0, whole: (2 * ticks) as u128 },
            percentile_level_to_iterate_from: PercentileLevel {
                part: 0,
                whole: (2 * ticks) as u128,
            },
            reached_last_recorded_value: false,
        }
    }

    /// The iteration, from the first slot and from 0 percent.
    pub fn into_iter(self) -> (r: BaseHistogramIterator<'a, T, PercentilesStrategy>)
        requires
            self.wf(),
        ensures
            r.wf(),
            r.histogram() == self.histogram(),
            r@ == (IterationView {
                strategy: Self::first_strategy(self.percentile_ticks_per_half_distance()),
                cursor: CursorView::start(self.histogram()),
                prev_value_iterated_to: 0,
                total_count_to_prev_index: 0,
                total_value_to_current_index: 0,
            }),
    {
        let whole: u128 = 2 * (self.percentile_ticks_per_half_distance as u128);
        proof {
            let t = self.percentile_ticks_per_half_distance as int;
            assert(2 * t <= FOUR_TIMES_TWO_TO_64 * t) by (nonlinear_arith)
                requires
                    t >= 0,
            ;
            lemma2_to64();
            assert(whole == t * pow2(1));
        }
        BaseHistogramIterator::new(
            self.histo,
            PercentilesStrategy {
                percentile_ticks_per_half_distance: self.percentile_ticks_per_half_distance,
                percentile_level_to_iterate_to: PercentileLevel { part: 0, whole },
                percentile_level_to_iterate_from: PercentileLevel { part: 0, whole },
                reached_last_recorded_value: false,
            },
        )
    }
}

impl<T: HistogramCount> SimpleHdrHistogram<T> {
    /// Iterate across percentiles until all recorded values are exhausted.
    pub fn percentiles(&self, percentile_ticks_per_half_distance: u32) -> (r: Percentiles<'_, T>)
        requires
            self.wf(),
            percentile_ticks_per_half_distance >= 1,
        ensures
            r.wf(),
            r.histogram() == self@,
            r.percentile_ticks_per_half_distance() == percentile_ticks_per_half_distance,
    {
        Percentiles { histo: self, percentile_ticks_per_half_distance }
    }
}

} // verus!
