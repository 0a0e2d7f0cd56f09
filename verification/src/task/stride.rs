//! Stride scheduling: which of the ready tasks runs next, and why that is fair.
//!
//! Every task has a priority and a stride. The task with the smallest stride runs next,
//! and its stride then advances by its pass, `BIG_STRIDE / priority`. Strides are
//! counters that wrap, so they are compared on a circle: of two strides the one from
//! which the other is less than half the range ahead is the smaller.

use vstd::prelude::*;
use vstd::wrapping::u64_specs::wrapping_sub;
use crate::config::{BIG_STRIDE, MIN_PRIORITY};
use crate::task::control_block::{next_stride, pass_of};

verus! {

/// Half of the range of a stride. Two strides that are compared lie closer than this.
pub const HALF_RANGE: u64 = 0x7FFF_FFFF_FFFF_FFFF;

/// Whether stride `a` comes before stride `b` on the circle: `b` lies ahead of `a` by
/// at least one and at most half the range.
pub open spec fn stride_before(a: u64, b: u64) -> bool {
    0 < wrapping_sub(b, a) <= HALF_RANGE
}

/// Whether stride `a` comes before stride `b` on the circle.
pub fn stride_lt(a: u64, b: u64) -> (before: bool)
    ensures
        before == stride_before(a, b),
{
    let ahead = b.wrapping_sub(a);
    ahead != 0 && ahead <= HALF_RANGE
}

/// The position that a scan from the front selects: the first stride before which no
/// later stride of the scan comes.
pub open spec fn pick(strides: Seq<u64>) -> int
    decreases strides.len(),
{
    if strides.len() <= 1 {
        0
    } else {
        let best = pick(strides.drop_last());
        if stride_before(strides.last(), strides[best]) {
            strides.len() - 1
        } else {
            best
        }
    }
}

/// Whether every stride lies at most `width` ahead of `base` on the circle.
pub open spec fn within_window(strides: Seq<u64>, base: u64, width: int) -> bool {
    forall|i: int| 0 <= i < strides.len() ==> wrapping_sub(#[trigger] strides[i], base) <= width
}

/// The selected position is a position of the sequence.
pub proof fn lemma_pick_in_range(strides: Seq<u64>)
    requires
        strides.len() > 0,
    ensures
        0 <= pick(strides) < strides.len(),
    decreases strides.len(),
{
    if strides.len() > 1 {
        lemma_pick_in_range(strides.drop_last());
    }
}

/// Among strides that lie within half the range of one another, the scan selects the
/// smallest, and of several smallest the first.
pub proof fn lemma_pick_is_first_minimum(strides: Seq<u64>, base: u64, width: int)
    requires
        strides.len() > 0,
        width <= HALF_RANGE,
        within_window(strides, base, width),
    ensures
        forall|j: int|
            0 <= j < strides.len() ==> wrapping_sub(strides[pick(strides)], base) <= wrapping_sub(
                #[trigger] strides[j],
                base,
            ),
        forall|j: int|
            0 <= j < pick(strides) ==> wrapping_sub(strides[pick(strides)], base) < wrapping_sub(
                #[trigger] strides[j],
                base,
            ),
        forall|j: int| 0 <= j < strides.len() ==> !stride_before(#[trigger] strides[j], strides[pick(strides)]),
    decreases strides.len(),
{
    lemma_pick_in_range(strides);
    if strides.len() > 1 {
        let front = strides.drop_last();
        assert(within_window(front, base, width)) by {
            assert forall|i: int| 0 <= i < front.len() implies wrapping_sub(
                #[trigger] front[i],
                base,
            ) <= width by {
                assert(front[i] == strides[i]);
            }
        }
        lemma_pick_is_first_minimum(front, base, width);
        lemma_pick_in_range(front);
        let best = pick(front);
        assert(front[best] == strides[best]);
        let chosen = pick(strides);
        assert forall|j: int| 0 <= j < strides.len() implies wrapping_sub(strides[chosen], base)
            <= wrapping_sub(#[trigger] strides[j], base) && !stride_before(
            strides[j],
            strides[chosen],
        ) by {
            if j < front.len() {
                assert(front[j] == strides[j]);
            }
        }
        assert forall|j: int| 0 <= j < chosen implies wrapping_sub(strides[chosen], base)
            < wrapping_sub(#[trigger] strides[j], base) by {
            assert(front[j] == strides[j]);
        }
    }
}

/// A dispatch keeps the strides together: where all of them lie within `width` of a
/// base, with `width` at most half the range, and the pass of the selected task is at
/// most `width`, they lie within `width` of the stride that was selected once that
/// stride has advanced.
pub proof fn lemma_dispatch_keeps_window(strides: Seq<u64>, base: u64, width: int, priority: u64)
    requires
        strides.len() > 0,
        width <= HALF_RANGE,
        within_window(strides, base, width),
        priority >= MIN_PRIORITY,
        pass_of(priority) <= width,
    ensures
        within_window(
            strides.update(pick(strides), next_stride(strides[pick(strides)], priority)),
            strides[pick(strides)],
            width,
        ),
{
    lemma_pick_in_range(strides);
    lemma_pick_is_first_minimum(strides, base, width);
    let chosen = pick(strides);
    let after = strides.update(chosen, next_stride(strides[chosen], priority));
    assert forall|i: int| 0 <= i < after.len() implies wrapping_sub(
        #[trigger] after[i],
        strides[chosen],
    ) <= width by {
        if i != chosen {
            assert(after[i] == strides[i]);
            assert(wrapping_sub(strides[chosen], base) <= wrapping_sub(strides[i], base));
        }
    }
}

/// A task that is ready all the time, as the fairness of the policy sees it: its priority
/// and how often it was dispatched.
pub struct Lane {
    pub priority: u64,
    pub runs: nat,
}

impl Lane {
    /// How far the stride of the task advances at a dispatch.
    pub open spec fn pass(self) -> int {
        pass_of(self.priority) as int
    }

    /// The stride of the task had it never wrapped: one pass for each dispatch.
    pub open spec fn virtual_time(self) -> int {
        self.runs * self.pass()
    }

    /// The stride of the task as the counter holds it.
    pub open spec fn stride(self) -> u64 {
        (self.virtual_time() % 0x1_0000_0000_0000_0000) as u64
    }

    /// The task after one more dispatch.
    pub open spec fn dispatched(self) -> Lane {
        Lane { priority: self.priority, runs: self.runs + 1 }
    }
}

/// The strides of the tasks of a ready queue, in the order of the queue.
pub open spec fn lane_strides(lanes: Seq<Lane>) -> Seq<u64> {
    Seq::new(lanes.len(), |i: int| lanes[i].stride())
}

/// The ready queue after one dispatch: the selected task leaves the queue, runs, and
/// joins the queue again at its end.
pub open spec fn dispatch(lanes: Seq<Lane>) -> Seq<Lane> {
    let chosen = pick(lane_strides(lanes));
    lanes.remove(chosen).push(lanes[chosen].dispatched())
}

/// The ready queue after `count` dispatches.
pub open spec fn dispatch_many(lanes: Seq<Lane>, count: nat) -> Seq<Lane>
    decreases count,
{
    if count == 0 {
        lanes
    } else {
        dispatch(dispatch_many(lanes, (count - 1) as nat))
    }
}

/// Whether no task is more than `bound` ahead of another in virtual time.
pub open spec fn drift_bounded(lanes: Seq<Lane>, bound: int) -> bool {
    forall|i: int, j: int|
        0 <= i < lanes.len() && 0 <= j < lanes.len() ==> (#[trigger] lanes[i]).virtual_time() - (
        #[trigger] lanes[j]).virtual_time() <= bound
}

/// Whether every task has at least the priority `min_priority`.
pub open spec fn priorities_from(lanes: Seq<Lane>, min_priority: u64) -> bool {
    forall|i: int| 0 <= i < lanes.len() ==> (#[trigger] lanes[i]).priority >= min_priority
}

/// The number of dispatches that the tasks of the queue have had together.
pub open spec fn total_runs(lanes: Seq<Lane>) -> nat
    decreases lanes.len(),
{
    if lanes.len() == 0 {
        0
    } else {
        total_runs(lanes.drop_last()) + lanes.last().runs
    }
}

/// The virtual time of a task is not negative and advances by one pass at a dispatch;
/// the pass of a task is at most the pass of the lowest priority allowed to it.
pub proof fn lemma_lane_time(lane: Lane, min_priority: u64)
    requires
        MIN_PRIORITY <= min_priority <= lane.priority,
    ensures
        0 <= lane.virtual_time(),
        lane.dispatched().virtual_time() == lane.virtual_time() + lane.pass(),
        0 <= lane.pass() <= pass_of(min_priority) <= HALF_RANGE,
{
    let pass = lane.pass();
    let runs = lane.runs as int;
    assert(0 <= runs * pass) by (nonlinear_arith)
        requires
            0 <= runs,
            0 <= pass,
    ;
    assert((runs + 1) * pass == runs * pass + pass) by (nonlinear_arith);
    lemma_pass_bound(min_priority, lane.priority);
}

/// A higher priority has the smaller pass, and no pass exceeds half the range of a
/// stride.
pub proof fn lemma_pass_bound(low: u64, high: u64)
    requires
        MIN_PRIORITY <= low <= high,
    ensures
        pass_of(high) <= pass_of(low) <= HALF_RANGE,
{
    vstd::arithmetic::div_mod::lemma_div_is_ordered_by_denominator(
        BIG_STRIDE as int,
        low as int,
        high as int,
    );
    vstd::arithmetic::div_mod::lemma_div_is_ordered_by_denominator(
        BIG_STRIDE as int,
        MIN_PRIORITY as int,
        low as int,
    );
}

/// The counter of a task that is dispatched holds what its stride advances to.
pub proof fn lemma_lane_stride_advances(lane: Lane)
    requires
        lane.priority >= MIN_PRIORITY,
    ensures
        lane.dispatched().stride() == next_stride(lane.stride(), lane.priority),
{
    lemma_lane_time(lane, lane.priority);
}

/// Of two tasks whose virtual times differ by at most half the range of a stride, the
/// one with the smaller virtual time has the stride that comes first on the circle.
pub proof fn lemma_stride_order_is_time_order(a: Lane, b: Lane)
    requires
        a.priority >= MIN_PRIORITY,
        b.priority >= MIN_PRIORITY,
        a.virtual_time() - b.virtual_time() <= HALF_RANGE,
        b.virtual_time() - a.virtual_time() <= HALF_RANGE,
    ensures
        stride_before(a.stride(), b.stride()) <==> a.virtual_time() < b.virtual_time(),
{
    lemma_lane_time(a, a.priority);
    lemma_lane_time(b, b.priority);
}

/// Among tasks whose virtual times lie within half the range of one another, the
/// scheduler selects one of least virtual time.
pub proof fn lemma_pick_least_time(lanes: Seq<Lane>)
    requires
        lanes.len() > 0,
        priorities_from(lanes, MIN_PRIORITY),
        drift_bounded(lanes, HALF_RANGE as int),
    ensures
        0 <= pick(lane_strides(lanes)) < lanes.len(),
        forall|j: int|
            0 <= j < lanes.len() ==> lanes[pick(lane_strides(lanes))].virtual_time() <= (
            #[trigger] lanes[j]).virtual_time(),
    decreases lanes.len(),
{
    let strides = lane_strides(lanes);
    lemma_pick_in_range(strides);
    if lanes.len() > 1 {
        let front = lanes.drop_last();
        assert(lane_strides(front) =~= strides.drop_last());
        assert(priorities_from(front, MIN_PRIORITY)) by {
            assert forall|i: int| 0 <= i < front.len() implies (#[trigger] front[i]).priority
                >= MIN_PRIORITY by {
                assert(front[i] == lanes[i]);
            }
        }
        assert(drift_bounded(front, HALF_RANGE as int)) by {
            assert forall|i: int, j: int| 0 <= i < front.len() && 0 <= j < front.len() implies (
            #[trigger] front[i]).virtual_time() - (#[trigger] front[j]).virtual_time()
                <= HALF_RANGE by {
                assert(front[i] == lanes[i]);
                assert(front[j] == lanes[j]);
            }
        }
        lemma_pick_least_time(front);
        let best = pick(lane_strides(front));
        let last = lanes.len() - 1;
        assert(front[best] == lanes[best]);
        assert(lanes[last].priority >= MIN_PRIORITY);
        assert(lanes[best].priority >= MIN_PRIORITY);
        assert(lanes[last].virtual_time() - lanes[best].virtual_time() <= HALF_RANGE);
        assert(lanes[best].virtual_time() - lanes[last].virtual_time() <= HALF_RANGE);
        lemma_stride_order_is_time_order(lanes[last], lanes[best]);
        assert(strides.last() == lanes[last].stride());
        assert(strides[best] == lanes[best].stride());
        let chosen = pick(strides);
        assert forall|j: int| 0 <= j < lanes.len() implies lanes[chosen].virtual_time() <= (
        #[trigger] lanes[j]).virtual_time() by {
            if j < front.len() {
                assert(front[j] == lanes[j]);
            }
        }
    }
}

/// A dispatch keeps the tasks together: where no task is more than the largest pass
/// ahead of another, that is still so afterwards.
pub proof fn lemma_dispatch_keeps_drift(lanes: Seq<Lane>, min_priority: u64)
    requires
        lanes.len() > 0,
        min_priority >= MIN_PRIORITY,
        priorities_from(lanes, min_priority),
        drift_bounded(lanes, pass_of(min_priority) as int),
    ensures
        dispatch(lanes).len() == lanes.len(),
        priorities_from(dispatch(lanes), min_priority),
        drift_bounded(dispatch(lanes), pass_of(min_priority) as int),
        total_runs(dispatch(lanes)) == total_runs(lanes) + 1,
{
    let bound = pass_of(min_priority) as int;
    lemma_pass_bound(min_priority, min_priority);
    assert(priorities_from(lanes, MIN_PRIORITY));
    assert(drift_bounded(lanes, HALF_RANGE as int));
    lemma_pick_least_time(lanes);
    let chosen = pick(lane_strides(lanes));
    let after = dispatch(lanes);
    let moved = lanes[chosen].dispatched();
    lemma_lane_time(lanes[chosen], min_priority);
    assert forall|i: int| 0 <= i < after.len() implies (#[trigger] after[i]).priority
        >= min_priority by {
        if i < chosen {
            assert(after[i] == lanes[i]);
        } else if i < after.len() - 1 {
            assert(after[i] == lanes[i + 1]);
        }
    }
    assert forall|i: int, j: int| 0 <= i < after.len() && 0 <= j < after.len() implies (
    #[trigger] after[i]).virtual_time() - (#[trigger] after[j]).virtual_time() <= bound by {
        let io = if i < chosen { i } else { i + 1 };
        let jo = if j < chosen { j } else { j + 1 };
        if i < after.len() - 1 {
            assert(after[i] == lanes[io]);
        }
        if j < after.len() - 1 {
            assert(after[j] == lanes[jo]);
        }
        if i < after.len() - 1 && j < after.len() - 1 {
            assert(lanes[io].virtual_time() - lanes[jo].virtual_time() <= bound);
        } else if i < after.len() - 1 {
            assert(lanes[io].virtual_time() - lanes[chosen].virtual_time() <= bound);
        } else if j < after.len() - 1 {
            assert(lanes[chosen].virtual_time() <= lanes[jo].virtual_time());
        }
    }
    lemma_total_runs_remove(lanes, chosen);
    assert(after.drop_last() =~= lanes.remove(chosen));
}

/// Taking a task out of the queue takes its dispatches out of the total.
pub proof fn lemma_total_runs_remove(lanes: Seq<Lane>, i: int)
    requires
        0 <= i < lanes.len(),
    ensures
        total_runs(lanes.remove(i)) + lanes[i].runs == total_runs(lanes),
    decreases lanes.len(),
{
    if i == lanes.len() - 1 {
        assert(lanes.remove(i) =~= lanes.drop_last());
    } else {
        let front = lanes.drop_last();
        lemma_total_runs_remove(front, i);
        assert(lanes.remove(i).drop_last() =~= front.remove(i));
        assert(lanes.remove(i).last() == lanes.last());
    }
}

/// Tasks that were never dispatched have had no dispatch together.
pub proof fn lemma_total_runs_fresh(lanes: Seq<Lane>)
    requires
        forall|i: int| 0 <= i < lanes.len() ==> (#[trigger] lanes[i]).runs == 0,
    ensures
        total_runs(lanes) == 0,
    decreases lanes.len(),
{
    if lanes.len() > 0 {
        let front = lanes.drop_last();
        assert forall|i: int| 0 <= i < front.len() implies (#[trigger] front[i]).runs == 0 by {
            assert(front[i] == lanes[i]);
        }
        lemma_total_runs_fresh(front);
    }
}

/// Fair share. Tasks that start together and stay ready are dispatched in proportion to
/// their priorities: after any number of dispatches, the dispatches of a task times its
/// pass differ from those of any other task times its pass by at most the pass of the
/// lowest priority, `BIG_STRIDE / min_priority`. Each dispatch goes to one task.
pub proof fn lemma_fair_share(lanes: Seq<Lane>, min_priority: u64, count: nat)
    requires
        lanes.len() > 0,
        min_priority >= MIN_PRIORITY,
        priorities_from(lanes, min_priority),
        forall|i: int| 0 <= i < lanes.len() ==> (#[trigger] lanes[i]).runs == 0,
    ensures
        dispatch_many(lanes, count).len() == lanes.len(),
        priorities_from(dispatch_many(lanes, count), min_priority),
        drift_bounded(dispatch_many(lanes, count), pass_of(min_priority) as int),
        total_runs(dispatch_many(lanes, count)) == count,
    decreases count,
{
    if count == 0 {
        lemma_total_runs_fresh(lanes);
        assert forall|i: int, j: int| 0 <= i < lanes.len() && 0 <= j < lanes.len() implies (
        #[trigger] lanes[i]).virtual_time() - (#[trigger] lanes[j]).virtual_time() <= pass_of(
            min_priority,
        ) by {
            assert(lanes[i].runs * lanes[i].pass() == 0) by (nonlinear_arith)
                requires
                    lanes[i].runs == 0,
            ;
            assert(lanes[j].runs * lanes[j].pass() == 0) by (nonlinear_arith)
                requires
                    lanes[j].runs == 0,
            ;
        }
    } else {
        lemma_fair_share(lanes, min_priority, (count - 1) as nat);
        lemma_dispatch_keeps_drift(dispatch_many(lanes, (count - 1) as nat), min_priority);
    }
}

} // verus!
