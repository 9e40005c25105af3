//! What each scan of a blower group does, in terms of what it reads.

use crate::blower_group::{
    BlowerRotation, BlowerState, Phase, Request, StagingAuthority, UnitBounds,
};
use crate::blower_laws::phases_are_driven;
use crate::blower_model::{
    ceilings, commanded_count, order_after, order_lists, without, BlowerScan, GroupView,
};
use crate::float::{order_is_numeric, patterns_step_by_the_last_place, Float};
use crate::value::{Quality, Tick, Value};
use vstd::prelude::*;

verus! {

/// How many of the first `done` units are told to run: those that start and
/// those on the header.
pub open spec fn told_to_run(state: Seq<BlowerState>, done: int) -> int
    decreases done,
{
    if done <= 0 {
        0
    } else {
        told_to_run(state, done - 1) + if state[done - 1].phase is Joining || state[done
            - 1].phase is Joined {
            1int
        } else {
            0
        }
    }
}

/// The committed capacity is made of one value for each unit that is told to
/// run, in the order of the units: the k-th belongs to the k-th such unit and
/// is its ceiling, which is at most its flow limit, at most its current limit,
/// and one of the two.
pub proof fn committed_ceilings_are_the_lower_limits(group: GroupView, u: int)
    requires
        group.wf(),
        0 <= u < group.count(),
        group.state[u].phase is Joining || group.state[u].phase is Joined,
    ensures
        ({
            let committed = ceilings(group.bounds, group.state, group.state.len());
            let k = told_to_run(group.state, u);
            &&& committed.len() == told_to_run(group.state, group.count())
            &&& 0 <= k < committed.len()
            &&& committed[k].le(group.bounds[u].max_flow)
            &&& committed[k].le(group.bounds[u].max_current)
            &&& committed[k] == group.bounds[u].max_flow || committed[k]
                == group.bounds[u].max_current
        }),
{
    lemma_ceilings(group, group.state.len(), u);
}

proof fn lemma_ceilings(group: GroupView, done: nat, u: int)
    requires
        group.wf(),
        done <= group.count(),
        0 <= u < group.count(),
    ensures
        ({
            let committed = ceilings(group.bounds, group.state, done);
            let k = told_to_run(group.state, u);
            &&& committed.len() == told_to_run(group.state, done as int)
            &&& committed.len() <= done
            &&& commanded_count(group.state, done) == told_to_run(group.state, done as int)
            &&& u < done && (group.state[u].phase is Joining || group.state[u].phase is Joined)
                ==> 0 <= k < committed.len() && committed[k]
                == group.bounds[u].spec_effective_max()
        }),
    decreases done,
{
    if done > 0 {
        lemma_ceilings(group, (done - 1) as nat, u);
        lemma_ceilings(group, (done - 1) as nat, done - 1);
    }
    if u < done {
        assert(group.bounds[u].valid());
    }
}

/// A unit's ceiling is the lower of its flow limit and its current limit.
pub proof fn ceilings_are_the_lower_limit(bounds: UnitBounds)
    requires
        bounds.max_flow.finite(),
        bounds.max_current.finite(),
    ensures
        ({
            let ceiling = bounds.spec_effective_max();
            &&& ceiling.le(bounds.max_flow) && ceiling.le(bounds.max_current)
            &&& ceiling == bounds.max_flow || ceiling == bounds.max_current
            &&& bounds.max_current.lt(bounds.max_flow) ==> ceiling == bounds.max_current
            &&& !bounds.max_current.lt(bounds.max_flow) ==> ceiling == bounds.max_flow
        }),
{
}

/// The unit whose ceiling would leave the committed capacity is a joined one,
/// as soon as there is one, and the ceiling the lower of its two limits. It is,
/// without a rotation, the one that joined last, under the fixed order the
/// highest-numbered, and where the runtime is equalized the one that has run
/// most, of several such the lowest-numbered.
pub proof fn the_next_to_depart_is_by_rotation(group: GroupView, q: int)
    requires
        group.wf(),
    ensures
        ({
            let pick = group.depart_pick(None);
            let ceiling = group.next_ceiling();
            let bounds = group.bounds[pick->0 as int];
            let other = group.order[q];
            let hours = group.state[pick->0 as int].run_hours;
            &&& pick is Some <==> group.order.len() > 0
            &&& ceiling is Some <==> pick is Some
            &&& ceiling is Some ==> ceiling->0.le(bounds.max_flow) && ceiling->0.le(
                bounds.max_current,
            ) && (ceiling->0 == bounds.max_flow || ceiling->0 == bounds.max_current)
            &&& pick is Some ==> pick->0 < group.count() && group.order.contains(pick->0)
                && group.state[pick->0 as int].phase is Joined
            &&& pick is Some && 0 <= q < group.order.len() && pick->0 != other
                ==> match group.config.rotation {
                BlowerRotation::NoRotation => pick->0 == group.order.last(),
                BlowerRotation::FixedOrder => other < pick->0,
                BlowerRotation::EqualizeRuntime => group.state[other as int].run_hours < hours || (
                group.state[other as int].run_hours == hours && pick->0 < other),
            }
        }),
{
    lemma_depart_pick(group, None);
    if group.order.len() > 0 {
        assert(group.depart_candidate(None, 0));
        let p = choose|p: int| group.is_depart_pick(None, p);
        assert(group.is_depart_pick(None, p));
        assert(group.order.contains(group.order[p]));
        assert(group.order[p] < group.state.len());
        assert(group.bounds[group.order[p] as int].valid());
        if 0 <= q < group.order.len() && group.order[p] != group.order[q] {
            assert(group.depart_candidate(None, q));
            let last = group.order.len() - 1;
            assert(group.depart_candidate(None, last));
            if group.config.rotation is NoRotation && p != last {
                assert(group.departs_before(p, last));
            }
        }
    }
}

/// The demand that a group acts on is the last finite one that read `Good`, held
/// at zero from below, and zero before the first.
pub proof fn demand_is_the_last_trusted(group: GroupView, scan: BlowerScan, tick: Tick)
    requires
        group.wf(),
    ensures
        ({
            let after = group.advanced(scan, tick).last_demand;
            let reading = scan.demand;
            let usable = reading.quality is Good && reading.value.finite();
            &&& !usable ==> after == group.last_demand
            &&& usable && reading.value.scaled() > 0 ==> after == reading.value
            &&& usable && reading.value.scaled() <= 0 ==> after == (Float { bits: 0 })
        }),
{
    if scan.demand.value.finite() {
        order_is_numeric(Float::spec_zero(), scan.demand.value);
        patterns_step_by_the_last_place(0);
    }
}

/// What the readings of a scan make of one unit, unless a rotation ends its run.
/// A unit that starts is on the header once its run reads `true` and `Good`; it
/// goes offline where it is faulted or not available, where no demand is left,
/// or at the end of the window. One on the header departs where it is faulted or
/// not available. One that departs is offline once its run reads `false` and
/// `Good`, or at the end of the window. A fault that is not `Good` is a fault,
/// and an availability that is not `Good` is none. A unit that goes offline
/// remembers this scan, each scan that proves a run counts, and nothing else
/// changes.
pub proof fn readings_move_the_units(group: GroupView, scan: BlowerScan, tick: Tick, i: int)
    requires
        group.wf(),
        scan.fits(group),
        0 <= i < group.count(),
        group.pair matches Some((_, depart)) ==> depart != i,
    ensures
        ({
            let before = group.state[i];
            let after = group.advanced(scan, tick).state[i];
            let unit = scan.units[i];
            let running = unit.run.value && unit.run.quality is Good;
            let stopped = !unit.run.value && unit.run.quality is Good;
            let faulted = unit.fault.value || !(unit.fault.quality is Good);
            let lost = faulted || !unit.avail.value || !(unit.avail.quality is Good);
            let idle = group.advanced(scan, tick).last_demand.scaled() <= 0;
            let spent = before.phase_ticks + 1 >= group.config.vent_ticks;
            let off = match before.phase {
                Phase::Offline => false,
                Phase::Joining => lost || idle || (!running && spent),
                Phase::Joined => false,
                Phase::Departing => stopped || spent,
            };
            let next = match before.phase {
                Phase::Offline => Phase::Offline,
                Phase::Joining => if off {
                    Phase::Offline
                } else if running {
                    Phase::Joined
                } else {
                    Phase::Joining
                },
                Phase::Joined => if lost {
                    Phase::Departing
                } else {
                    Phase::Joined
                },
                Phase::Departing => if off {
                    Phase::Offline
                } else {
                    Phase::Departing
                },
            };
            &&& after.phase == next
            &&& after.phase_ticks == if next == before.phase && (next is Joining
                || next is Departing) {
                before.phase_ticks + 1
            } else {
                0
            }
            &&& after.stopped_at == if off {
                tick.0
            } else {
                before.stopped_at
            }
            &&& after.started_at == before.started_at
            &&& after.run_hours == if running && before.run_hours < u64::MAX {
                before.run_hours + 1
            } else {
                before.run_hours as int
            }
        }),
{
    let after = group.state_after(scan, tick);
    let demand = group.demand_after(scan.demand);
    assert(after[i] == group.state[i].advanced(
        scan.units[i],
        demand,
        group.config.vent_ticks,
        tick,
    ));
    assert(after.len() == group.state.len());
    scans_keep_the_invariant_of_demand(group, scan, tick);
    order_is_numeric(demand, Float::spec_zero());
    patterns_step_by_the_last_place(0);
    assert(group.state[i].wf());
}

proof fn scans_keep_the_invariant_of_demand(group: GroupView, scan: BlowerScan, tick: Tick)
    requires
        group.wf(),
    ensures
        group.demand_after(scan.demand).finite(),
        group.advanced(scan, tick).last_demand == group.demand_after(scan.demand),
{
}

/// A rotation under way: the banked unit departs in the scan that proves the
/// joining one, while it is healthy itself, and is told to run until then. The
/// rotation is over with that, with an aborted join, or with a banked unit that
/// is faulted or not available; until then it stands.
pub proof fn rotations_end_with_their_second_leg(group: GroupView, scan: BlowerScan, tick: Tick)
    requires
        group.wf(),
        scan.fits(group),
        group.pair is Some,
    ensures
        ({
            let (join, depart) = group.pair->0;
            let after = group.advanced(scan, tick);
            let banked = scan.units[depart as int];
            let lost = banked.fault.value || !(banked.fault.quality is Good) || !banked.avail.value
                || !(banked.avail.quality is Good);
            let joined = after.state[join as int].phase is Joined;
            let joins = after.state[join as int].phase is Joining;
            &&& after.state[depart as int].phase is Departing <==> lost || joined
            &&& after.state[depart as int].phase is Joined <==> !lost && !joined
            &&& after.state[depart as int].phase_ticks == 0
            &&& after.state[depart as int].stopped_at == group.state[depart as int].stopped_at
            &&& after.state[depart as int].started_at == group.state[depart as int].started_at
            &&& after.pair == if joins && !lost {
                group.pair
            } else {
                None
            }
        }),
{
    let (join, depart) = group.pair->0;
    let after = group.state_after(scan, tick);
    assert(after.len() == group.state.len());
    assert(after[join as int] == group.state[join as int].advanced(
        scan.units[join as int],
        group.demand_after(scan.demand),
        group.config.vent_ticks,
        tick,
    ));
    assert(after[depart as int] == group.state[depart as int].advanced(
        scan.units[depart as int],
        group.demand_after(scan.demand),
        group.config.vent_ticks,
        tick,
    ));
}

/// An approval stays used until it reads `false` and `Good`, and no scan changes
/// the tuning, the bounds or the wiring.
pub proof fn approvals_are_renewed_by_release(group: GroupView, scan: BlowerScan, tick: Tick)
    ensures
        ({
            let after = group.advanced(scan, tick);
            let released = scan.approve is Some && !scan.approve->0.value
                && scan.approve->0.quality is Good;
            &&& after.approve_used <==> group.approve_used && !released
            &&& group.pair is None ==> after.pair is None
            &&& after.config == group.config && after.bounds == group.bounds
            &&& after.units == group.units && after.outputs == group.outputs
            &&& after.name == group.name && after.demand == group.demand
            &&& after.approve == group.approve
        }),
{
}

/// Whether one unit has joined before another one that is joined too.
pub open spec fn joined_before(order: Seq<usize>, first: usize, second: usize) -> bool {
    exists|a: int, b: int|
        0 <= a < b < order.len() && #[trigger] order[a] == first && #[trigger] order[b] == second
}

proof fn lemma_before_without(order: Seq<usize>, unit: usize, x: usize, y: usize)
    requires
        joined_before(order, x, y),
        unit != x,
        unit != y,
    ensures
        joined_before(without(order, unit), x, y),
{
    if order.contains(unit) {
        let at = order.index_of(unit);
        let after = order.remove(at);
        let (a, b) = choose|a: int, b: int|
            0 <= a < b < order.len() && #[trigger] order[a] == x && #[trigger] order[b] == y;
        let to = if a < at {
            a
        } else {
            a - 1
        };
        let next = if b < at {
            b
        } else {
            b - 1
        };
        assert(after[to] == x && after[next] == y);
    }
}

proof fn lemma_before_pushed(order: Seq<usize>, unit: usize, x: usize, y: usize)
    ensures
        joined_before(order, x, y) ==> joined_before(order.push(unit), x, y),
        order.contains(x) ==> joined_before(order.push(unit), x, unit),
{
    let after = order.push(unit);
    if joined_before(order, x, y) {
        let (a, b) = choose|a: int, b: int|
            0 <= a < b < order.len() && #[trigger] order[a] == x && #[trigger] order[b] == y;
        assert(after[a] == x && after[b] == y);
    }
    if order.contains(x) {
        let a = order.index_of(x);
        assert(after[a] == x && after[order.len() as int] == unit);
    }
}

proof fn lemma_without_keeps(order: Seq<usize>, unit: usize, x: usize)
    requires
        order.contains(x),
        x != unit,
    ensures
        without(order, unit).contains(x),
{
    if order.contains(unit) {
        let at = order.index_of(unit);
        let a = order.index_of(x);
        let to = if a < at {
            a
        } else {
            a - 1
        };
        assert(order.remove(at)[to] == x);
    }
}

/// The order of the joined units, once the first `done` have moved on.
proof fn lemma_before_after(
    order: Seq<usize>,
    before: Seq<BlowerState>,
    after: Seq<BlowerState>,
    done: nat,
    x: usize,
    y: usize,
)
    requires
        done <= before.len() == after.len(),
        before.len() <= usize::MAX,
        x < before.len(),
        y < before.len(),
        x != y,
        after[x as int].phase == Phase::Joined,
        after[y as int].phase == Phase::Joined,
        order_lists(order, before),
    ensures
        ({
            let next = order_after(order, before, after, done);
            let here = |u: usize| before[u as int].phase == Phase::Joined || u < done;
            &&& here(x) ==> next.contains(x)
            &&& joined_before(order, x, y) ==> joined_before(next, x, y)
            &&& before[x as int].phase == Phase::Joined && before[y as int].phase != Phase::Joined
                && y < done ==> joined_before(next, x, y)
            &&& before[x as int].phase != Phase::Joined && before[y as int].phase != Phase::Joined
                && x < y < done ==> joined_before(next, x, y)
        }),
    decreases done,
{
    if done == 0 {
        if before[x as int].phase == Phase::Joined {
            assert(order.contains(x));
        }
    } else {
        lemma_before_after(order, before, after, (done - 1) as nat, x, y);
        let earlier = order_after(order, before, after, (done - 1) as nat);
        let unit = (done - 1) as usize;
        let next = order_after(order, before, after, done);
        if before[done - 1].phase == Phase::Joined && after[done - 1].phase != Phase::Joined {
            assert(unit != x && unit != y);
            if earlier.contains(x) {
                lemma_without_keeps(earlier, unit, x);
            }
            if joined_before(earlier, x, y) {
                lemma_before_without(earlier, unit, x, y);
            }
        } else if before[done - 1].phase != Phase::Joined && after[done - 1].phase
            == Phase::Joined {
            lemma_before_pushed(earlier, unit, x, y);
            assert(next[earlier.len() as int] == unit);
            if earlier.contains(x) {
                let a = earlier.index_of(x);
                assert(next[a] == x);
            }
        }
    }
}

/// The join order is the order in which the units joined: two units that stay
/// on the header keep their order, one that joins in a scan comes after all that
/// stood, and of several that join in one scan the lower-numbered comes first.
pub proof fn joins_are_kept_in_order(
    group: GroupView,
    scan: BlowerScan,
    tick: Tick,
    x: usize,
    y: usize,
)
    requires
        group.wf(),
        scan.fits(group),
        x < group.count(),
        y < group.count(),
        x != y,
        group.advanced(scan, tick).state[x as int].phase is Joined,
        group.advanced(scan, tick).state[y as int].phase is Joined,
    ensures
        ({
            let order = group.advanced(scan, tick).order;
            let stood = |u: usize| group.state[u as int].phase is Joined;
            &&& joined_before(group.order, x, y) ==> joined_before(order, x, y)
            &&& stood(x) && !stood(y) ==> joined_before(order, x, y)
            &&& !stood(x) && !stood(y) && x < y ==> joined_before(order, x, y)
        }),
{
    let after = group.state_after(scan, tick);
    assert(after.len() == group.state.len());
    let moved = GroupView {
        state: after,
        order: order_after(group.order, group.state, after, group.state.len()),
        approve_used: group.approve_used && !scan.withdrawn(),
        last_demand: group.demand_after(scan.demand),
        ..group
    };
    assert(group.advanced(scan, tick) == moved.second_leg());
    lemma_before_after(group.order, group.state, after, group.state.len(), x, y);
    if let Some((join, depart)) = group.pair {
        if moved.phase(join as int) == Phase::Joined && moved.phase(depart as int)
            == Phase::Joined {
            assert(group.advanced(scan, tick).state[depart as int].phase == Phase::Departing);
            if joined_before(moved.order, x, y) {
                lemma_before_without(moved.order, depart, x, y);
            }
        }
    }
}

proof fn lemma_depart_pick(group: GroupView, at: Option<Tick>)
    requires
        group.wf(),
    ensures
        (exists|p: int| group.is_depart_pick(at, p)) <==> exists|p: int|
            0 <= p < group.order.len() && #[trigger] group.depart_candidate(at, p),
{
    let best = lemma_best_departure(group, at, group.order.len() as int);
    if let Some(p) = best {
        assert(group.is_depart_pick(at, p));
    }
    if exists|p: int| group.is_depart_pick(at, p) {
        let p = choose|p: int| group.is_depart_pick(at, p);
        assert(group.depart_candidate(at, p));
    }
}

/// Of the first `done` joined units that may be picked, one departs before the
/// others.
proof fn lemma_best_departure(group: GroupView, at: Option<Tick>, done: int) -> (best: Option<int>)
    requires
        group.wf(),
        0 <= done <= group.order.len(),
    ensures
        match best {
            Some(p) => 0 <= p < done && group.depart_candidate(at, p) && forall|q: int|
                0 <= q < done && q != p && #[trigger] group.depart_candidate(at, q)
                    ==> group.departs_before(p, q),
            None => forall|q: int| 0 <= q < done ==> !#[trigger] group.depart_candidate(at, q),
        },
    decreases done,
{
    if done == 0 {
        None
    } else {
        let earlier = lemma_best_departure(group, at, done - 1);
        let last = done - 1;
        if !group.depart_candidate(at, last) {
            earlier
        } else {
            match earlier {
                None => Some(last),
                Some(p) => {
                    assert(group.order[p] != group.order[last]);
                    if group.departs_before(p, last) {
                        Some(p)
                    } else {
                        assert forall|q: int|
                            0 <= q < done && q != last && #[trigger] group.depart_candidate(
                                at,
                                q,
                            ) implies group.departs_before(last, q) by {
                            assert(group.departs_before(last, p));
                            if q != p {
                                assert(group.departs_before(p, q));
                                assert(group.order[q] != group.order[last]);
                            }
                        }
                        Some(last)
                    }
                },
            }
        }
    }
}

/// Of the first `done` units that may start, one joins before the others.
proof fn lemma_best_join(
    group: GroupView,
    scan: BlowerScan,
    tick: Tick,
    done: int,
) -> (best: Option<int>)
    requires
        0 <= done <= group.count(),
    ensures
        match best {
            Some(i) => 0 <= i < done && group.joinable(scan, tick, i) && forall|j: int|
                0 <= j < done && j != i && #[trigger] group.joinable(scan, tick, j)
                    ==> group.joins_before(i, j),
            None => forall|j: int| 0 <= j < done ==> !#[trigger] group.joinable(scan, tick, j),
        },
    decreases done,
{
    if done == 0 {
        None
    } else {
        let earlier = lemma_best_join(group, scan, tick, done - 1);
        let last = done - 1;
        if !group.joinable(scan, tick, last) {
            earlier
        } else {
            match earlier {
                None => Some(last),
                Some(i) => {
                    if group.joins_before(i, last) {
                        Some(i)
                    } else {
                        assert forall|j: int|
                            0 <= j < done && j != last && #[trigger] group.joinable(
                                scan,
                                tick,
                                j,
                            ) implies group.joins_before(last, j) by {
                            if j != i {
                                assert(group.joins_before(i, j));
                            }
                        }
                        Some(last)
                    }
                },
            }
        }
    }
}

/// Whether a unit moves on or off the header, or a rotation is under way.
pub open spec fn changing(group: GroupView) -> bool {
    group.pair is Some || exists|i: int|
        0 <= i < group.state.len() && ((#[trigger] group.state[i]).phase is Joining
            || group.state[i].phase is Departing)
}

/// Whether the authority releases a change: always, on a `true` and `Good`
/// approval that has not released one before, or never.
pub open spec fn released(group: GroupView, scan: BlowerScan) -> bool {
    match group.config.staging_authority {
        StagingAuthority::Automatic => true,
        StagingAuthority::OperatorApproval => scan.approve is Some && scan.approve->0.value
            && scan.approve->0.quality is Good && !group.approve_used,
        StagingAuthority::FlagOnly => false,
    }
}

/// Whether a unit may start: it is offline, reads available and not faulted, all
/// `Good`, and has stood for the start interval unless it never stopped.
pub open spec fn may_start(group: GroupView, scan: BlowerScan, tick: Tick, i: int) -> bool {
    let unit = group.state[i];
    let read = scan.units[i];
    &&& unit.phase is Offline
    &&& read.avail.value && read.avail.quality is Good
    &&& !read.fault.value && read.fault.quality is Good
    &&& unit.stopped_at == 0 || tick.0 - unit.stopped_at >= group.config.min_start_interval_ticks
}

/// Whether a unit may depart: it is on the header and has run its minimum.
pub open spec fn may_depart(group: GroupView, tick: Tick, i: int) -> bool {
    group.state[i].phase is Joined && tick.0 - group.state[i].started_at
        >= group.config.min_run_ticks
}

/// Whether the demand asks for another unit, and one is there.
pub open spec fn asks_for_more(group: GroupView, up_limit: Float) -> bool {
    up_limit.lt(group.last_demand) && exists|i: int|
        0 <= i < group.state.len() && (#[trigger] group.state[i]).phase is Offline
}

/// Whether the demand asks for a unit less, and one is on the header.
pub open spec fn asks_for_less(group: GroupView, down_limit: Float) -> bool {
    group.order.len() > 0 && (group.last_demand.scaled() <= 0 || group.last_demand.lt(down_limit))
}

/// Whether an available standby has run less than a unit that may depart, by
/// that unit's minimum run and at least one scan.
pub open spec fn hours_are_apart(group: GroupView, scan: BlowerScan, tick: Tick) -> bool {
    exists|i: int, p: int|
        0 <= i < group.state.len() && 0 <= p < group.order.len() && lags_behind(
            group,
            scan,
            tick,
            i,
            p,
        )
}

/// Whether standby `i` is available and has run less than the unit at place `p`
/// of the join order, which may depart.
pub open spec fn lags_behind(
    group: GroupView,
    scan: BlowerScan,
    tick: Tick,
    i: int,
    p: int,
) -> bool {
    let read = scan.units[i];
    let run = group.state[group.order[p] as int].run_hours - group.state[i].run_hours;
    &&& group.state[i].phase is Offline
    &&& read.avail.value && read.avail.quality is Good
    &&& !read.fault.value && read.fault.quality is Good
    &&& may_depart(group, tick, group.order[p] as int)
    &&& run >= 1 && run >= group.config.min_run_ticks
}

/// What the decision goes by, in terms of what the group holds and the scan
/// reads.
proof fn lemma_decision(
    group: GroupView,
    scan: BlowerScan,
    up_limit: Float,
    down_limit: Float,
    tick: Tick,
)
    requires
        group.wf(),
        scan.fits(group),
    ensures
        group.in_flight() <==> changing(group),
        group.granted(scan) <==> released(group, scan),
        forall|i: int| #[trigger]
            group.joinable(scan, tick, i) <==> may_start(group, scan, tick, i),
        forall|i: int| #[trigger] group.departable(tick, i) <==> may_depart(group, tick, i),
        group.up_warranted(up_limit) <==> asks_for_more(group, up_limit),
        group.down_warranted(down_limit) <==> asks_for_less(group, down_limit),
        group.runtime_spread(scan, tick) <==> hours_are_apart(group, scan, tick),
{
    order_is_numeric(group.last_demand, Float::spec_zero());
    patterns_step_by_the_last_place(0);
    if group.in_flight() && group.pair is None {
        let i = choose|i: int|
            0 <= i < group.count() && (#[trigger] group.state[i]).phase.vented();
        assert(group.state[i].phase is Joining || group.state[i].phase is Departing);
    }
    if changing(group) && group.pair is None {
        let i = choose|i: int|
            0 <= i < group.state.len() && ((#[trigger] group.state[i]).phase is Joining
                || group.state[i].phase is Departing);
        assert(group.state[i].phase.vented());
    }
    if group.up_warranted(up_limit) {
        let i = choose|i: int|
            0 <= i < group.count() && (#[trigger] group.state[i]).phase == Phase::Offline;
        assert(group.state[i].phase is Offline);
    }
    if asks_for_more(group, up_limit) {
        let i = choose|i: int|
            0 <= i < group.state.len() && (#[trigger] group.state[i]).phase is Offline;
        assert(group.state[i].phase == Phase::Offline);
    }
    if group.runtime_spread(scan, tick) {
        let (i, p) = choose|i: int, p: int|
            #![trigger group.state[i], group.order[p]]
            {
                &&& 0 <= i < group.count()
                &&& 0 <= p < group.order.len()
                &&& group.state[i].phase == Phase::Offline
                &&& scan.units[i].available()
                &&& group.departable(tick, group.order[p] as int)
                &&& group.lags(i, group.order[p] as int)
            };
        assert(lags_behind(group, scan, tick, i, p));
    }
    if hours_are_apart(group, scan, tick) {
        let (i, p) = choose|i: int, p: int|
            0 <= i < group.state.len() && 0 <= p < group.order.len() && lags_behind(
                group,
                scan,
                tick,
                i,
                p,
            );
        assert(group.state[i].phase == Phase::Offline);
        assert(group.departable(tick, group.order[p] as int));
        assert(group.lags(i, group.order[p] as int));
    }
}

/// A demand above the limit starts a unit, where the authority releases it and
/// nothing else changes: of the units that may start the lowest-numbered or,
/// where the runtime is equalized, the one that has run least, and of several
/// such the lowest-numbered. It starts behind its vent, as of this scan; nothing
/// else of the group changes but a used approval.
pub proof fn more_demand_starts_the_next_unit(
    group: GroupView,
    scan: BlowerScan,
    up_limit: Float,
    down_limit: Float,
    tick: Tick,
    i: usize,
)
    requires
        group.wf(),
        scan.fits(group),
        asks_for_more(group, up_limit),
        released(group, scan),
        !changing(group),
        i < group.count(),
        may_start(group, scan, tick, i as int),
        forall|j: int|
            0 <= j < group.count() && j != i && #[trigger] may_start(group, scan, tick, j) ==> {
                let (mine, other) = (group.state[i as int].run_hours, group.state[j].run_hours);
                if group.config.rotation is EqualizeRuntime {
                    mine < other || (mine == other && i < j)
                } else {
                    i < j
                }
            },
    ensures
        ({
            let after = group.staged(scan, up_limit, down_limit, tick);
            &&& after == (GroupView {
                state: group.state.update(
                    i as int,
                    BlowerState {
                        phase: Phase::Joining,
                        phase_ticks: 0,
                        started_at: tick.0,
                        ..group.state[i as int]
                    },
                ),
                approve_used: group.approve_used
                    || group.config.staging_authority is OperatorApproval,
                ..group
            })
            &&& !group.pending(scan, up_limit, down_limit, tick)
        }),
{
    lemma_decision(group, scan, up_limit, down_limit, tick);
    assert(group.joinable(scan, tick, i as int));
    assert forall|j: int|
        0 <= j < group.count() && j != i && #[trigger] group.joinable(
            scan,
            tick,
            j,
        ) implies group.joins_before(i as int, j) by {
        assert(may_start(group, scan, tick, j));
    }
    assert(group.is_join_pick(scan, tick, i));
    let chosen = choose|u: usize| group.is_join_pick(scan, tick, u);
    assert(group.is_join_pick(scan, tick, chosen));
    if chosen != i {
        assert(group.joins_before(i as int, chosen as int));
        assert(group.joins_before(chosen as int, i as int));
    }
    assert(group.request(scan, up_limit, down_limit, tick) == Some(Request::StageUp(i)));
}

/// A demand that has vanished, or that stays below the limit, takes a unit off,
/// where it asks for no other, the authority releases it and nothing else
/// changes: of the units that may depart the one that joined last, under the
/// fixed order the highest-numbered, and where the runtime is equalized the one
/// that has run most, of several such the lowest-numbered. It leaves the join
/// order; nothing else of the group changes but a used approval.
pub proof fn less_demand_takes_a_unit_off(
    group: GroupView,
    scan: BlowerScan,
    up_limit: Float,
    down_limit: Float,
    tick: Tick,
    p: int,
)
    requires
        group.wf(),
        scan.fits(group),
        !asks_for_more(group, up_limit),
        asks_for_less(group, down_limit),
        released(group, scan),
        !changing(group),
        0 <= p < group.order.len(),
        may_depart(group, tick, group.order[p] as int),
        forall|q: int|
            0 <= q < group.order.len() && q != p && may_depart(
                group,
                tick,
                (#[trigger] group.order[q]) as int,
            ) ==> preferred(group, p, q),
    ensures
        ({
            let after = group.staged(scan, up_limit, down_limit, tick);
            let unit = group.order[p];
            &&& after == (GroupView {
                state: group.state.update(
                    unit as int,
                    BlowerState {
                        phase: Phase::Departing,
                        phase_ticks: 0,
                        ..group.state[unit as int]
                    },
                ),
                order: group.order.remove(p),
                approve_used: group.approve_used
                    || group.config.staging_authority is OperatorApproval,
                ..group
            })
            &&& !group.pending(scan, up_limit, down_limit, tick)
        }),
{
    lemma_decision(group, scan, up_limit, down_limit, tick);
    lemma_departs(group, tick, p);
    let unit = group.order[p];
    assert(group.order.contains(unit));
    assert(group.order.index_of(unit) == p);
    assert(group.request(scan, up_limit, down_limit, tick) == Some(Request::StageDown(unit)));
}

/// Whether the unit at place `p` of the join order departs before the one at
/// place `q`.
pub open spec fn preferred(group: GroupView, p: int, q: int) -> bool {
    let (mine, other) = (group.order[p], group.order[q]);
    let (hours, others) = (
        group.state[mine as int].run_hours,
        group.state[other as int].run_hours,
    );
    match group.config.rotation {
        BlowerRotation::NoRotation => q < p,
        BlowerRotation::FixedOrder => other < mine,
        BlowerRotation::EqualizeRuntime => others < hours || (others == hours && mine < other),
    }
}

proof fn lemma_departs(group: GroupView, tick: Tick, p: int)
    requires
        group.wf(),
        0 <= p < group.order.len(),
        may_depart(group, tick, group.order[p] as int),
        forall|q: int|
            0 <= q < group.order.len() && q != p && may_depart(
                group,
                tick,
                (#[trigger] group.order[q]) as int,
            ) ==> preferred(group, p, q),
    ensures
        group.depart_pick(Some(tick)) == Some(group.order[p]),
{
    assert(group.departable(tick, group.order[p] as int));
    assert forall|q: int|
        0 <= q < group.order.len() && q != p && #[trigger] group.depart_candidate(
            Some(tick),
            q,
        ) implies group.departs_before(p, q) by {
        assert(may_depart(group, tick, group.order[q] as int));
        assert(preferred(group, p, q));
        assert(group.order[p] != group.order[q]);
    }
    assert(group.is_depart_pick(Some(tick), p));
    let chosen = choose|r: int| group.is_depart_pick(Some(tick), r);
    assert(group.is_depart_pick(Some(tick), chosen));
    if chosen != p {
        assert(group.departs_before(p, chosen));
        assert(group.depart_candidate(Some(tick), p));
        assert(group.departs_before(chosen, p));
        assert(group.order[p] != group.order[chosen]);
    }
}

/// Where the runtime is equalized and the demand asks for no other number of
/// units, the unit that has run most of those that may depart is swapped for the
/// one that has run least of those that may start, where it has run longer by
/// its minimum run and at least one scan. The standby starts, and the other unit
/// is banked to depart after it.
pub proof fn unequal_hours_swap_two_units(
    group: GroupView,
    scan: BlowerScan,
    up_limit: Float,
    down_limit: Float,
    tick: Tick,
    i: usize,
    p: int,
)
    requires
        group.wf(),
        scan.fits(group),
        group.config.rotation is EqualizeRuntime,
        !asks_for_more(group, up_limit),
        !asks_for_less(group, down_limit),
        released(group, scan),
        !changing(group),
        i < group.count(),
        may_start(group, scan, tick, i as int),
        forall|j: int|
            0 <= j < group.count() && j != i && #[trigger] may_start(group, scan, tick, j) ==> {
                let (mine, other) = (group.state[i as int].run_hours, group.state[j].run_hours);
                mine < other || (mine == other && i < j)
            },
        0 <= p < group.order.len(),
        may_depart(group, tick, group.order[p] as int),
        forall|q: int|
            0 <= q < group.order.len() && q != p && may_depart(
                group,
                tick,
                (#[trigger] group.order[q]) as int,
            ) ==> preferred(group, p, q),
        group.state[group.order[p] as int].run_hours - group.state[i as int].run_hours >= 1,
        group.state[group.order[p] as int].run_hours - group.state[i as int].run_hours
            >= group.config.min_run_ticks,
    ensures
        ({
            let after = group.staged(scan, up_limit, down_limit, tick);
            &&& after == (GroupView {
                state: group.state.update(
                    i as int,
                    BlowerState {
                        phase: Phase::Joining,
                        phase_ticks: 0,
                        started_at: tick.0,
                        ..group.state[i as int]
                    },
                ),
                pair: Some((i, group.order[p])),
                approve_used: group.approve_used
                    || group.config.staging_authority is OperatorApproval,
                ..group
            })
            &&& !group.pending(scan, up_limit, down_limit, tick)
        }),
{
    lemma_decision(group, scan, up_limit, down_limit, tick);
    lemma_departs(group, tick, p);
    assert(lags_behind(group, scan, tick, i as int, p));
    assert(hours_are_apart(group, scan, tick));
    assert(group.joinable(scan, tick, i as int));
    assert forall|j: int|
        0 <= j < group.count() && j != i && #[trigger] group.joinable(
            scan,
            tick,
            j,
        ) implies group.joins_before(i as int, j) by {
        assert(may_start(group, scan, tick, j));
    }
    assert(group.is_join_pick(scan, tick, i));
    let chosen = choose|u: usize| group.is_join_pick(scan, tick, u);
    assert(group.is_join_pick(scan, tick, chosen));
    if chosen != i {
        assert(group.joins_before(i as int, chosen as int));
        assert(group.joins_before(chosen as int, i as int));
    }
    assert(group.lags(i as int, group.order[p] as int));
    assert(group.request(scan, up_limit, down_limit, tick) == Some(
        Request::Rotate(i, group.order[p]),
    ));
}

/// Nothing is staged while something changes already, without a release, or
/// where the demand asks for nothing and no hours are apart; nor where the
/// demand asks for a unit more and none may start, or for a unit less and none
/// may depart.
pub proof fn nothing_else_is_staged(
    group: GroupView,
    scan: BlowerScan,
    up_limit: Float,
    down_limit: Float,
    tick: Tick,
)
    requires
        group.wf(),
        scan.fits(group),
        ({
            ||| changing(group)
            ||| !released(group, scan)
            ||| !asks_for_more(group, up_limit) && !asks_for_less(group, down_limit) && !(
            group.config.rotation is EqualizeRuntime && hours_are_apart(group, scan, tick))
            ||| asks_for_more(group, up_limit) && forall|i: int|
                0 <= i < group.count() ==> !#[trigger] may_start(group, scan, tick, i)
            ||| !asks_for_more(group, up_limit) && asks_for_less(group, down_limit) && forall|
                p: int,
            |
                0 <= p < group.order.len() ==> !may_depart(
                    group,
                    tick,
                    (#[trigger] group.order[p]) as int,
                )
        }),
    ensures
        group.staged(scan, up_limit, down_limit, tick) == group,
{
    lemma_decision(group, scan, up_limit, down_limit, tick);
    if exists|u: usize| group.is_join_pick(scan, tick, u) {
        let u = choose|u: usize| group.is_join_pick(scan, tick, u);
        assert(group.is_join_pick(scan, tick, u));
        assert(group.joinable(scan, tick, u as int));
        assert(may_start(group, scan, tick, u as int));
    }
    if exists|p: int| group.is_depart_pick(Some(tick), p) {
        let p = choose|p: int| group.is_depart_pick(Some(tick), p);
        assert(group.is_depart_pick(Some(tick), p));
        assert(group.departable(tick, group.order[p] as int));
        assert(may_depart(group, tick, group.order[p] as int));
    }
}

/// A change is left to the operator exactly where one is asked for, by the
/// demand or by the hours, the authority is not automatic, and nothing begins in
/// this scan.
pub proof fn unstaged_changes_are_pending(
    group: GroupView,
    scan: BlowerScan,
    up_limit: Float,
    down_limit: Float,
    tick: Tick,
)
    requires
        group.wf(),
        scan.fits(group),
    ensures
        ({
            let asked = asks_for_more(group, up_limit) || asks_for_less(group, down_limit) || (
            group.config.rotation is EqualizeRuntime && hours_are_apart(group, scan, tick));
            let pending = group.pending(scan, up_limit, down_limit, tick);
            &&& group.config.staging_authority is Automatic ==> !pending
            &&& !asked ==> !pending
            &&& group.config.staging_authority is FlagOnly && asked ==> pending
            &&& group.config.staging_authority is OperatorApproval && asked && (!released(
                group,
                scan,
            ) || changing(group)) ==> pending
            &&& pending ==> group.staged(scan, up_limit, down_limit, tick) == group
        }),
{
    lemma_decision(group, scan, up_limit, down_limit, tick);
}

/// Everything that a scan drives, in order and each on its own point, as of this
/// scan and `Good`. For each unit its command, while it starts or is on the
/// header; its capacity; and its vent, while it starts or departs. A unit on the
/// header is asked for the share, held to its floor from below and to the lower
/// of its two limits from above; one that starts for its floor; and any other
/// for nothing. After the units, how many are told to run, whether none is
/// available, whether all are faulted, whether a change waits for the operator,
/// and whether something changes.
pub proof fn scans_drive_every_output(
    group: GroupView,
    scan: BlowerScan,
    pending: bool,
    share: Float,
    tick: Tick,
    i: int,
    k: int,
)
    requires
        group.wf(),
        scan.fits(group),
        0 <= i < group.count(),
        0 <= k < 3 * group.count() + 5,
    ensures
        ({
            let writes = group.writes(scan, pending, share, tick);
            let unit = group.units[i];
            let bounds = group.bounds[i];
            let phase = group.state[i].phase;
            let capacity = writes[3 * i + 1].sample.value;
            let at = 3 * group.count();
            let lost = |j: int| scan.units[j].fault.value || !(scan.units[j].fault.quality is Good);
            &&& writes.len() == at + 5
            &&& writes[k].sample.tick == tick && writes[k].sample.quality == Quality::Good
            &&& writes[3 * i].point == unit.cmd
            &&& writes[3 * i].sample.value == Value::Bool(phase is Joining || phase is Joined)
            &&& writes[3 * i + 2].point == unit.vent
            &&& writes[3 * i + 2].sample.value == Value::Bool(
                phase is Joining || phase is Departing,
            )
            &&& writes[3 * i + 1].point == unit.capacity
            &&& phase is Offline || phase is Departing ==> capacity == Value::Float(
                (Float { bits: 0 }),
            )
            &&& phase is Joining ==> capacity == Value::Float(bounds.min_flow)
            &&& phase is Joined && share.lt(bounds.min_flow) ==> capacity == Value::Float(
                bounds.min_flow,
            )
            &&& phase is Joined && bounds.min_flow.le(share) && share.le(bounds.max_flow)
                && share.le(bounds.max_current) ==> capacity == Value::Float(share)
            &&& phase is Joined && bounds.max_flow.lt(share) && bounds.max_flow.le(
                bounds.max_current,
            ) ==> capacity == Value::Float(bounds.max_flow)
            &&& phase is Joined && bounds.max_current.lt(share) && bounds.max_current.lt(
                bounds.max_flow,
            ) ==> capacity == Value::Float(bounds.max_current)
            &&& writes[at].point == group.outputs.staged
            &&& writes[at].sample.value == Value::Int(
                told_to_run(group.state, group.count()) as i64,
            )
            &&& writes[at + 1].point == group.outputs.none_available
            &&& writes[at + 1].sample.value == Value::Bool(
                forall|j: int|
                    0 <= j < group.count() ==> (!(#[trigger] scan.units[j]).avail.value || !(
                    scan.units[j].avail.quality is Good) || lost(j)),
            )
            &&& writes[at + 2].point == group.outputs.all_faulted
            &&& writes[at + 2].sample.value == Value::Bool(
                forall|j: int|
                    0 <= j < group.count() ==> ((#[trigger] scan.units[j]).fault.value || !(
                    scan.units[j].fault.quality is Good)),
            )
            &&& writes[at + 3].point == group.outputs.staging_pending
            &&& writes[at + 3].sample.value == Value::Bool(pending)
            &&& writes[at + 4].point == group.outputs.transition
            &&& writes[at + 4].sample.value == Value::Bool(changing(group))
        }),
{
    let lost = |j: int| scan.units[j].fault.value || !(scan.units[j].fault.quality is Good);
    let at = 3 * group.count();
    phases_are_driven(group, scan, pending, share, tick, i);
    lemma_ceilings(group, group.state.len(), i);
    lemma_decision(group, scan, share, share, tick);
    assert(group.bounds[i].valid());
    if k < at {
        let unit = k / 3;
        phases_are_driven(group, scan, pending, share, tick, unit);
        assert(k == 3 * unit || k == 3 * unit + 1 || k == 3 * unit + 2);
    }
    let none = forall|j: int|
        0 <= j < group.count() ==> (!(#[trigger] scan.units[j]).avail.value || !(
        scan.units[j].avail.quality is Good) || lost(j));
    if none {
        assert forall|j: int| 0 <= j < group.count() implies !(
        #[trigger] scan.units[j]).available() by {
            assert(lost(j) == scan.units[j].faulted());
        }
    }
    if group.none_available(scan) {
        assert forall|j: int| 0 <= j < group.count() implies (!(
        #[trigger] scan.units[j]).avail.value || !(scan.units[j].avail.quality is Good) || lost(
            j,
        )) by {
            assert(!scan.units[j].available());
        }
    }
    assert(none == group.none_available(scan));
    let all = forall|j: int|
        0 <= j < group.count() ==> ((#[trigger] scan.units[j]).fault.value || !(
        scan.units[j].fault.quality is Good));
    if all {
        assert forall|j: int| 0 <= j < group.count() implies (
        #[trigger] scan.units[j]).faulted() by {}
    }
    if group.all_faulted(scan) {
        assert forall|j: int| 0 <= j < group.count() implies ((
        #[trigger] scan.units[j]).fault.value || !(scan.units[j].fault.quality is Good)) by {
            assert(scan.units[j].faulted());
        }
    }
    assert(all == group.all_faulted(scan));
}

/// While the demand asks for another unit, the authority releases it and nothing
/// else changes, a unit starts as soon as one may.
pub proof fn eligible_units_are_started(
    group: GroupView,
    scan: BlowerScan,
    up_limit: Float,
    down_limit: Float,
    tick: Tick,
    candidate: int,
) -> (started: int)
    requires
        group.wf(),
        scan.fits(group),
        asks_for_more(group, up_limit),
        released(group, scan),
        !changing(group),
        0 <= candidate < group.count(),
        may_start(group, scan, tick, candidate),
    ensures
        0 <= started < group.count(),
        may_start(group, scan, tick, started),
        group.staged(scan, up_limit, down_limit, tick).state[started].phase is Joining,
{
    lemma_decision(group, scan, up_limit, down_limit, tick);
    assert(group.joinable(scan, tick, candidate));
    let best = lemma_best_join(group, scan, tick, group.count());
    let started = best->0;
    assert(group.joinable(scan, tick, started));
    assert forall|j: int|
        0 <= j < group.count() && j != started && #[trigger] may_start(
            group,
            scan,
            tick,
            j,
        ) implies {
        let (mine, other) = (group.state[started].run_hours, group.state[j].run_hours);
        if group.config.rotation is EqualizeRuntime {
            mine < other || (mine == other && started < j)
        } else {
            started < j
        }
    } by {
        assert(group.joinable(scan, tick, j));
        assert(group.joins_before(started, j));
    }
    more_demand_starts_the_next_unit(group, scan, up_limit, down_limit, tick, started as usize);
    started
}

} // verus!
