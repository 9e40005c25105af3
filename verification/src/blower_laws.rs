//! What holds of every blower group.

use crate::blower_group::{
    lemma_join_pick, lemma_order_step, BlowerGroupConfig, BlowerIo, BlowerOutputs, BlowerRotation,
    BlowerState, BoundEntry, Phase, Request, StagingAuthority, UnitBounds, UnitReadings,
};
use crate::blower_model::{
    bound_named, bounds_error, ceilings, commanded_count, first_gap, good_write, group_names,
    insert_ranked, max_current_name, max_flow_name, min_flow_name, order_after, order_lists,
    rank_of, ranked, read_bounds, restored_bounds, restored_config, restored_order, restored_units,
    spec_from_parameters, spec_new, unit_names, unit_parameters, with_bounds, with_units, without,
    BlowerScan, GroupView,
};
use crate::describe::{agree_on, describes_parameter, ParameterView};
use crate::float::Float;
use crate::params::{as_count, spec_unknown_parameter, CommandErrorView, ParameterErrorView};
use crate::table::{field, known_names_pass, StateErrorView, Table};
use crate::text::{
    after_prefix, before_suffix, decimal, decimal_reads_back, digit_value, indexed_name_parts,
    indexed_names_differ, numbered_name_parts, numbered_names_differ, spec_numbered,
};
use crate::value::{PointId, Quality, Reading, Tick, Value, Write};
use vstd::prelude::*;

verus! {

/// Every code names the variant it was taken from, and no other code names
/// one.
pub proof fn blower_codes_read_back(
    authority: StagingAuthority,
    rotation: BlowerRotation,
    phase: Phase,
    code: i64,
)
    ensures
        StagingAuthority::spec_decode(authority.spec_code() as int) == Some(authority),
        StagingAuthority::spec_decode(code as int) matches Some(named) ==> named.spec_code()
            == code,
        BlowerRotation::spec_decode(rotation.spec_code() as int) == Some(rotation),
        BlowerRotation::spec_decode(code as int) matches Some(named) ==> named.spec_code() == code,
        Phase::spec_decode(phase.spec_code() as int) == Some(phase),
        Phase::spec_decode(code as int) matches Some(named) ==> named.spec_code() == code,
{
}

/// Untrusted readings are fail-safe: they prove neither a run nor a stop,
/// make no unit available and leave none unfaulted.
pub proof fn untrusted_readings_fail_safe(readings: UnitReadings)
    ensures
        readings.run.quality != Quality::Good ==> !readings.running() && !readings.stopped(),
        readings.avail.quality != Quality::Good ==> !readings.available(),
        readings.fault.quality != Quality::Good ==> readings.faulted() && !readings.available(),
{
}

/// An untrusted or non-finite demand leaves the held one standing, and the
/// held one never falls below zero.
pub proof fn untrusted_demand_is_held(group: GroupView, reading: Reading<Float>)
    requires
        group.wf(),
    ensures
        !reading.usable() ==> group.demand_after(reading) == group.last_demand,
        group.demand_after(reading).nonnegative(),
{
}

/// Under the flag-only authority nothing is ever staged, and whatever is
/// warranted is left to the operator.
pub proof fn flag_only_never_stages(
    group: GroupView,
    scan: BlowerScan,
    up_limit: Float,
    down_limit: Float,
    tick: Tick,
)
    requires
        group.config.staging_authority == StagingAuthority::FlagOnly,
    ensures
        group.staged(scan, up_limit, down_limit, tick) == group,
        group.pending(scan, up_limit, down_limit, tick) == group.warranted(
            scan,
            up_limit,
            down_limit,
            tick,
        ),
{
}

/// Under the automatic authority a warranted change begins in the first scan
/// in which its unit is eligible and no other change is in flight, and
/// nothing is left to the operator.
pub proof fn automatic_changes_begin_at_once(
    group: GroupView,
    scan: BlowerScan,
    up_limit: Float,
    down_limit: Float,
    tick: Tick,
)
    requires
        group.wf(),
        scan.fits(group),
        group.config.staging_authority == StagingAuthority::Automatic,
    ensures
        !group.pending(scan, up_limit, down_limit, tick),
        group.request(scan, up_limit, down_limit, tick) is Some && !group.in_flight()
            ==> group.staged(scan, up_limit, down_limit, tick).in_flight(),
{
    let request = group.request(scan, up_limit, down_limit, tick);
    if request is Some && !group.in_flight() {
        let staged = group.staged(scan, up_limit, down_limit, tick);
        match request->0 {
            Request::StageUp(unit) => {
                lemma_join_pick_fits(group, scan, tick);
                assert(staged.state[unit as int].phase.vented());
            },
            Request::StageDown(unit) => {
                lemma_depart_pick_fits(group, tick);
                assert(staged.state[unit as int].phase.vented());
            },
            Request::Rotate(_, _) => {},
        }
    }
}

proof fn lemma_join_pick_fits(group: GroupView, scan: BlowerScan, tick: Tick)
    ensures
        group.join_pick(scan, tick) matches Some(unit) ==> unit < group.count() && group.joinable(
            scan,
            tick,
            unit as int,
        ),
{
    if exists|u: usize| group.is_join_pick(scan, tick, u) {
        let chosen = choose|u: usize| group.is_join_pick(scan, tick, u);
        assert(group.is_join_pick(scan, tick, chosen));
    }
}

proof fn lemma_depart_pick_fits(group: GroupView, tick: Tick)
    requires
        group.wf(),
    ensures
        group.depart_pick(Some(tick)) matches Some(unit) ==> unit < group.count()
            && group.departable(tick, unit as int),
{
    if exists|p: int| group.is_depart_pick(Some(tick), p) {
        let p = choose|p: int| group.is_depart_pick(Some(tick), p);
        assert(group.is_depart_pick(Some(tick), p));
        assert(group.order[p] < group.state.len());
    }
}

/// Elective changes serialize: while a change is in flight none begins, and
/// a scan that begins one moves the phase of one unit only.
pub proof fn elective_changes_serialize(
    group: GroupView,
    scan: BlowerScan,
    up_limit: Float,
    down_limit: Float,
    tick: Tick,
    i: int,
    j: int,
)
    requires
        group.wf(),
        0 <= i < j < group.count(),
    ensures
        group.in_flight() ==> group.staged(scan, up_limit, down_limit, tick) == group,
        group.staged(scan, up_limit, down_limit, tick).state[i] == group.state[i]
            || group.staged(scan, up_limit, down_limit, tick).state[j] == group.state[j],
{
}

/// Whether at most one unit proves its start.
pub open spec fn one_join_at_most(group: GroupView) -> bool {
    forall|i: int, j: int|
        #![trigger group.state[i], group.state[j]]
        0 <= i < group.count() && 0 <= j < group.count() && group.state[i].phase == Phase::Joining
            && group.state[j].phase == Phase::Joining ==> i == j
}

/// At most one unit starts at a time.
pub proof fn starts_come_one_by_one(
    group: GroupView,
    scan: BlowerScan,
    up_limit: Float,
    down_limit: Float,
    tick: Tick,
)
    requires
        group.wf(),
        scan.fits(group),
        one_join_at_most(group),
    ensures
        one_join_at_most(group.advanced(scan, tick)),
        one_join_at_most(group.staged(scan, up_limit, down_limit, tick)),
{
    let advanced = group.advanced(scan, tick);
    assert forall|i: int|
        0 <= i < group.count() && (#[trigger] advanced.state[i]).phase
            == Phase::Joining implies group.state[i].phase == Phase::Joining by {
        assert(group.state_after(scan, tick)[i] == group.state[i].advanced(
            scan.units[i],
            group.demand_after(scan.demand),
            group.config.vent_ticks,
            tick,
        ));
    }
    assert(advanced.state.len() == group.state.len());
    let staged = group.staged(scan, up_limit, down_limit, tick);
    assert forall|i: int, j: int|
        #![trigger staged.state[i], staged.state[j]]
        0 <= i < group.count() && 0 <= j < group.count() && staged.state[i].phase == Phase::Joining
            && staged.state[j].phase == Phase::Joining implies i == j by {
        if group.executes(scan, up_limit, down_limit, tick) {
            assert(!group.state[i].phase.vented());
            assert(!group.state[j].phase.vented());
        } else {
            assert(group.state[i].phase == Phase::Joining);
            assert(group.state[j].phase == Phase::Joining);
        }
    }
}

/// A unit that staging departs has served its minimum run.
pub proof fn departures_serve_their_run(
    group: GroupView,
    scan: BlowerScan,
    up_limit: Float,
    down_limit: Float,
    tick: Tick,
    i: int,
)
    requires
        group.wf(),
        scan.fits(group),
        0 <= i < group.count(),
        group.phase(i) != Phase::Departing,
        group.staged(scan, up_limit, down_limit, tick).phase(i) == Phase::Departing,
    ensures
        group.phase(i) == Phase::Joined,
        tick.0 >= group.state[i].started_at + group.config.min_run_ticks,
{
    let p = choose|p: int| group.is_depart_pick(Some(tick), p);
    assert(group.is_depart_pick(Some(tick), p));
    assert(group.order[p] == i);
}

/// A unit that staging starts was offline and available, and has sat out
/// its start interval unless it never stopped before.
pub proof fn starts_sit_out_their_interval(
    group: GroupView,
    scan: BlowerScan,
    up_limit: Float,
    down_limit: Float,
    tick: Tick,
    i: int,
)
    requires
        group.wf(),
        scan.fits(group),
        0 <= i < group.count(),
        group.phase(i) != Phase::Joining,
        group.staged(scan, up_limit, down_limit, tick).phase(i) == Phase::Joining,
    ensures
        group.phase(i) == Phase::Offline,
        scan.units[i].available(),
        group.state[i].stopped_at == 0 || tick.0 >= group.state[i].stopped_at
            + group.config.min_start_interval_ticks,
{
    let chosen = choose|u: usize| group.is_join_pick(scan, tick, u);
    assert(group.is_join_pick(scan, tick, chosen));
    assert(chosen == i);
}

/// A join takes the lowest-numbered unit that may start or, where the
/// runtime is equalized, the one that has run least, and of several such the
/// lowest-numbered.
pub proof fn joins_follow_the_rotation(
    group: GroupView,
    scan: BlowerScan,
    up_limit: Float,
    down_limit: Float,
    tick: Tick,
    i: int,
    j: int,
)
    requires
        group.wf(),
        scan.fits(group),
        0 <= i < group.count(),
        0 <= j < group.count(),
        i != j,
        group.phase(i) != Phase::Joining,
        group.staged(scan, up_limit, down_limit, tick).phase(i) == Phase::Joining,
        group.joinable(scan, tick, j),
    ensures
        ({
            let (mine, other) = (group.state[i].run_hours, group.state[j].run_hours);
            if group.config.rotation == BlowerRotation::EqualizeRuntime {
                mine < other || (mine == other && i < j)
            } else {
                i < j
            }
        }),
{
    let chosen = choose|u: usize| group.is_join_pick(scan, tick, u);
    assert(group.is_join_pick(scan, tick, chosen));
    assert(chosen == i);
}

/// A departure takes, of the units that may depart, the one that joined last
/// or, under the fixed order, the highest-numbered or, where the runtime is
/// equalized, the one that has run most. The units are given by their places
/// in the join order.
pub proof fn departures_follow_the_rotation(
    group: GroupView,
    scan: BlowerScan,
    up_limit: Float,
    down_limit: Float,
    tick: Tick,
    p: int,
    q: int,
)
    requires
        group.wf(),
        scan.fits(group),
        0 <= p < group.order.len(),
        0 <= q < group.order.len(),
        p != q,
        group.staged(scan, up_limit, down_limit, tick).phase(group.order[p] as int)
            == Phase::Departing,
        group.departable(tick, group.order[q] as int),
    ensures
        ({
            let (mine, other) = (group.order[p], group.order[q]);
            let (hours, others) = (
                group.state[mine as int].run_hours,
                group.state[other as int].run_hours,
            );
            match group.config.rotation {
                BlowerRotation::NoRotation => q < p,
                BlowerRotation::FixedOrder => other < mine,
                BlowerRotation::EqualizeRuntime => others < hours || (others == hours && mine
                    < other),
            }
        }),
{
    assert(group.order.contains(group.order[p]));
    assert(group.phase(group.order[p] as int) == Phase::Joined);
    lemma_join_pick_fits(group, scan, tick);
    let chosen = choose|r: int| group.is_depart_pick(Some(tick), r);
    assert(group.is_depart_pick(Some(tick), chosen));
    assert(group.order[chosen] == group.order[p]);
    assert(group.depart_candidate(Some(tick), q));
}

/// One approval grants one change: under operator approval a change begins
/// only on a trusted, unused approval and uses it up, and a used approval
/// that is not withdrawn stays used and lets nothing begin.
pub proof fn one_approval_grants_one_change(
    group: GroupView,
    scan: BlowerScan,
    up_limit: Float,
    down_limit: Float,
    tick: Tick,
)
    requires
        group.wf(),
        scan.fits(group),
        group.config.staging_authority == StagingAuthority::OperatorApproval,
    ensures
        group.executes(scan, up_limit, down_limit, tick) ==> scan.approved()
            && !group.approve_used && group.staged(scan, up_limit, down_limit, tick).approve_used,
        group.approve_used ==> group.staged(scan, up_limit, down_limit, tick) == group,
        group.approve_used && !scan.withdrawn() ==> group.advanced(scan, tick).approve_used,
        scan.withdrawn() ==> !group.advanced(scan, tick).approve_used,
{
}

/// What a joined unit is asked for lies within its bounds, for any share
/// that is a number.
pub proof fn capacity_stays_in_bounds(group: GroupView, share: Float, i: int)
    requires
        group.wf(),
        0 <= i < group.count(),
        group.phase(i) == Phase::Joined,
        !share.nan(),
    ensures
        group.bounds[i].min_flow.le(group.capacity(share, i)),
        group.capacity(share, i).le(group.bounds[i].max_flow),
        group.capacity(share, i).le(group.bounds[i].max_current),
{
    assert(group.bounds[i].valid());
}

/// A joined unit that faults or loses its availability departs at once.
pub proof fn lost_units_depart_at_once(group: GroupView, scan: BlowerScan, tick: Tick, i: int)
    requires
        group.wf(),
        scan.fits(group),
        0 <= i < group.count(),
        group.phase(i) == Phase::Joined,
        scan.units[i].faulted() || !scan.units[i].available(),
    ensures
        group.advanced(scan, tick).phase(i) == Phase::Departing,
{
    assert(group.state_after(scan, tick)[i].phase == Phase::Departing);
}

/// The banked unit of a rotation departs no sooner than its partner has
/// joined, as long as it is healthy.
pub proof fn rotation_departs_after_its_join(group: GroupView, scan: BlowerScan, tick: Tick)
    requires
        group.wf(),
        scan.fits(group),
        group.pair is Some,
    ensures
        ({
            let (join, depart) = group.pair->0;
            scan.units[depart as int].available() && group.advanced(scan, tick).phase(
                depart as int,
            ) == Phase::Departing ==> group.advanced(scan, tick).phase(join as int) == Phase::Joined
        }),
{
    let (join, depart) = group.pair->0;
    let after = group.state_after(scan, tick);
    assert(after[depart as int] == group.state[depart as int].advanced(
        scan.units[depart as int],
        group.demand_after(scan.demand),
        group.config.vent_ticks,
        tick,
    ));
    assert(after.len() == group.state.len());
}

/// A rotation begins only between a standby that may start and the most-run
/// unit that may depart, and only where the standby lags that unit by the
/// margin. So where no unit that may depart leads a standby by the margin,
/// none begins, whatever the units that may not depart have run.
pub proof fn rotations_swap_a_lagging_standby(
    group: GroupView,
    scan: BlowerScan,
    up_limit: Float,
    down_limit: Float,
    tick: Tick,
    q: int,
)
    requires
        group.wf(),
        scan.fits(group),
        group.pair is None,
        0 <= q < group.order.len(),
        group.departable(tick, group.order[q] as int),
    ensures
        group.staged(scan, up_limit, down_limit, tick).pair matches Some((join, depart)) ==> {
            &&& group.joinable(scan, tick, join as int)
            &&& group.departable(tick, depart as int)
            &&& group.state[depart as int].run_hours
                >= group.state[group.order[q] as int].run_hours
            &&& group.state[depart as int].run_hours >= group.state[join as int].run_hours
                + group.rotation_margin()
        },
{
    lemma_join_pick(group, scan, tick);
    lemma_depart_pick_fits(group, tick);
    if exists|p: int| group.is_depart_pick(Some(tick), p) {
        let p = choose|p: int| group.is_depart_pick(Some(tick), p);
        assert(group.is_depart_pick(Some(tick), p));
        assert(group.depart_candidate(Some(tick), q));
        if p != q {
            assert(group.departs_before(p, q));
        }
    }
}

/// A rotation under way ends where its banked unit leaves on its own: only
/// the join goes on.
pub proof fn lost_units_end_their_rotation(group: GroupView, scan: BlowerScan, tick: Tick)
    requires
        group.wf(),
        scan.fits(group),
        group.pair matches Some((_, depart)) && !scan.units[depart as int].available(),
    ensures
        group.advanced(scan, tick).pair is None,
{
    let (join, depart) = group.pair->0;
    assert(group.state_after(scan, tick)[depart as int] == group.state[depart as int].advanced(
        scan.units[depart as int],
        group.demand_after(scan.demand),
        group.config.vent_ticks,
        tick,
    ));
}

/// A rotation is one transition: while the banked unit is healthy, a change
/// is in flight in every scan until its departure is under way, unless the
/// join aborts.
pub proof fn rotation_is_one_transition(group: GroupView, scan: BlowerScan, tick: Tick)
    requires
        group.wf(),
        scan.fits(group),
        group.pair matches Some((_, depart)) && scan.units[depart as int].available(),
    ensures
        ({
            let (join, depart) = group.pair->0;
            let advanced = group.advanced(scan, tick);
            &&& advanced.in_flight() || advanced.phase(join as int) == Phase::Offline
            &&& advanced.pair is None && advanced.phase(join as int) != Phase::Offline
                ==> advanced.phase(depart as int) == Phase::Departing
        }),
{
    let (join, depart) = group.pair->0;
    let after = group.state_after(scan, tick);
    let advanced = group.advanced(scan, tick);
    assert(after[depart as int] == group.state[depart as int].advanced(
        scan.units[depart as int],
        group.demand_after(scan.demand),
        group.config.vent_ticks,
        tick,
    ));
    assert(after[join as int] == group.state[join as int].advanced(
        scan.units[join as int],
        group.demand_after(scan.demand),
        group.config.vent_ticks,
        tick,
    ));
    assert(after.len() == group.state.len());
    if advanced.phase(join as int) == Phase::Joined {
        assert(advanced.state[depart as int].phase.vented());
    }
}

/// Run-hours count the scans in which the feedback proves the unit running,
/// commanded or not.
pub proof fn run_hours_count_proven_runs(
    group: GroupView,
    scan: BlowerScan,
    tick: Tick,
    i: int,
)
    requires
        group.wf(),
        scan.fits(group),
        0 <= i < group.count(),
        group.state[i].run_hours < u64::MAX,
    ensures
        group.advanced(scan, tick).state[i].run_hours == group.state[i].run_hours
            + if scan.units[i].running() {
            1int
        } else {
            0
        },
{
    let after = group.state_after(scan, tick);
    assert(after[i] == group.state[i].advanced(
        scan.units[i],
        group.demand_after(scan.demand),
        group.config.vent_ticks,
        tick,
    ));
    assert(after.len() == group.state.len());
}

/// One scan of a single unit.
pub struct UnitScan {
    pub readings: UnitReadings,
    pub demand: Float,
    pub tick: Tick,
}

impl UnitScan {
    /// Whether the scan leaves a leg of the choreography open: it neither
    /// proves nor aborts a join, and does not prove a departure.
    pub open spec fn unresolved(self, phase: Phase) -> bool {
        if phase == Phase::Joining {
            self.readings.available() && !self.readings.running() && !self.demand.le(
                Float::spec_zero(),
            )
        } else {
            !self.readings.stopped()
        }
    }
}

/// A unit after some scans.
pub open spec fn after_scans(
    unit: BlowerState,
    scans: Seq<UnitScan>,
    vent_ticks: u64,
) -> BlowerState
    decreases scans.len(),
{
    if scans.len() == 0 {
        unit
    } else {
        let scan = scans.last();
        after_scans(unit, scans.drop_last(), vent_ticks).advanced(
            scan.readings,
            scan.demand,
            vent_ticks,
            scan.tick,
        )
    }
}

/// A join or a departure that nothing resolves stands through all but the
/// last of `vent_ticks` scans, and the last one takes the unit offline.
pub proof fn legs_last_their_window(unit: BlowerState, scans: Seq<UnitScan>, vent_ticks: u64)
    requires
        unit.phase.vented(),
        unit.phase_ticks == 0,
        scans.len() <= vent_ticks,
        forall|k: int| 0 <= k < scans.len() ==> (#[trigger] scans[k]).unresolved(unit.phase),
    ensures
        ({
            let after = after_scans(unit, scans, vent_ticks);
            &&& scans.len() < vent_ticks ==> after.phase == unit.phase && after.phase_ticks
                == scans.len()
            &&& 0 < scans.len() == vent_ticks ==> after.phase == Phase::Offline
                && after.phase_ticks == 0 && after.stopped_at == scans.last().tick.0
        }),
    decreases scans.len(),
{
    if scans.len() > 0 {
        let earlier = scans.drop_last();
        assert forall|k: int| 0 <= k < earlier.len() implies (#[trigger] earlier[k]).unresolved(
            unit.phase,
        ) by {
            assert(earlier[k] == scans[k]);
        }
        legs_last_their_window(unit, earlier, vent_ticks);
        assert(scans[scans.len() - 1].unresolved(unit.phase));
    }
}

/// What a scan drives: a command on the units that start or run, an open
/// vent on those that start or stop, a capacity on those that are commanded,
/// and after the units how many are commanded, whether none is available and
/// all have failed, whether a change waits, and whether one is in flight.
/// Every output is `Good`.
pub proof fn phases_are_driven(
    group: GroupView,
    scan: BlowerScan,
    pending: bool,
    share: Float,
    tick: Tick,
    i: int,
)
    requires
        group.wf(),
        0 <= i < group.count(),
    ensures
        ({
            let writes = group.writes(scan, pending, share, tick);
            let unit = group.units[i];
            let phase = group.phase(i);
            let at = 3 * group.count();
            &&& writes.len() == at + 5
            &&& writes[3 * i] == good_write(
                unit.cmd,
                Value::Bool(phase == Phase::Joining || phase == Phase::Joined),
                tick,
            )
            &&& writes[3 * i + 1] == good_write(
                unit.capacity,
                Value::Float(group.capacity(share, i)),
                tick,
            )
            &&& writes[3 * i + 2] == good_write(
                unit.vent,
                Value::Bool(phase == Phase::Joining || phase == Phase::Departing),
                tick,
            )
            &&& phase == Phase::Joining ==> group.capacity(share, i) == group.bounds[i].min_flow
            &&& phase == Phase::Offline || phase == Phase::Departing ==> group.capacity(share, i)
                == Float::spec_zero()
            &&& writes[at] == good_write(
                group.outputs.staged,
                Value::Int(commanded_count(group.state, group.state.len()) as i64),
                tick,
            )
            &&& writes[at + 1] == good_write(
                group.outputs.none_available,
                Value::Bool(group.none_available(scan)),
                tick,
            )
            &&& writes[at + 2] == good_write(
                group.outputs.all_faulted,
                Value::Bool(group.all_faulted(scan)),
                tick,
            )
            &&& writes[at + 3] == good_write(
                group.outputs.staging_pending,
                Value::Bool(pending),
                tick,
            )
            &&& writes[at + 4] == good_write(
                group.outputs.transition,
                Value::Bool(group.in_flight()),
                tick,
            )
        }),
{
    lemma_unit_writes(group, share, tick, group.units.len());
}

proof fn lemma_unit_writes(group: GroupView, share: Float, tick: Tick, done: nat)
    ensures
        ({
            let writes = group.unit_writes(share, tick, done);
            &&& writes.len() == 3 * done
            &&& forall|i: int|
                0 <= i < done ==> {
                    let unit = #[trigger] group.units[i];
                    &&& writes[3 * i] == good_write(
                        unit.cmd,
                        Value::Bool(group.phase(i).commanded()),
                        tick,
                    )
                    &&& writes[3 * i + 1] == good_write(
                        unit.capacity,
                        Value::Float(group.capacity(share, i)),
                        tick,
                    )
                    &&& writes[3 * i + 2] == good_write(
                        unit.vent,
                        Value::Bool(group.phase(i).vented()),
                        tick,
                    )
                }
        }),
    decreases done,
{
    if done > 0 {
        lemma_unit_writes(group, share, tick, (done - 1) as nat);
    }
}

/// Whether a checkpoint can hold the group's state: every count fits the
/// checkpoint's integers, and every unit that is not offline was started
/// after the scan numbered zero.
pub open spec fn checkpointable(group: GroupView) -> bool {
    &&& group.count() <= i64::MAX
    &&& group.config.min_run_ticks <= i64::MAX
    &&& group.config.min_start_interval_ticks <= i64::MAX
    &&& group.config.vent_ticks <= i64::MAX
    &&& forall|i: int|
        0 <= i < group.count() ==> {
            let unit = #[trigger] group.state[i];
            &&& unit.run_hours <= i64::MAX
            &&& unit.started_at <= i64::MAX
            &&& unit.stopped_at <= i64::MAX
            &&& unit.phase != Phase::Offline ==> unit.started_at > 0
        }
}

/// A group of the same size that takes over a checkpoint stands where the
/// captured group stood: same tuning, same units, same join order, same
/// rotation.
pub proof fn checkpoint_round_trip(group: GroupView, standby: GroupView, checkpoint: Table)
    requires
        group.wf(),
        standby.wf(),
        standby.count() == group.count(),
        group.approve is Some ==> standby.approve is Some,
        checkpointable(group),
        checkpoint@ == group.captured(),
    ensures
        standby.restored(checkpoint.keys(), checkpoint@) == Ok::<GroupView, StateErrorView>(
            GroupView {
                config: group.config,
                bounds: group.bounds,
                state: group.state,
                order: group.order,
                pair: group.pair,
                approve_used: group.approve_used,
                last_demand: group.last_demand,
                ..standby
            },
        ),
{
    let fields = group.captured();
    let name = standby.name;
    let n = group.units.len();
    lemma_names_known(group, checkpoint);
    known_names_pass(checkpoint, name, unit_names(group_names(), n));
    lemma_group_fields(group);
    assert(restored_config(fields, name) == Ok::<_, StateErrorView>(group.config));
    lemma_bounds_restored(group, name, n);
    assert(group.bounds.take(n as int) == group.bounds);
    lemma_units_restored(group, name, n);
    let units = entries(group, n);
    lemma_order_restored(group, name);
    assert(Seq::new(units.len(), |i: int| units[i].0) == group.state);
    assert(group.pair matches Some((join, depart)) ==> units[join as int].0.phase == Phase::Joining
        && units[depart as int].0.phase == Phase::Joined);
}

/// The units as a checkpoint carries them: each with its rank.
spec fn entries(group: GroupView, done: nat) -> Seq<(BlowerState, i64)> {
    Seq::new(done, |i: int| (group.state[i], rank_of(group.order, i as usize) as i64))
}

proof fn lemma_literals()
    ensures
        forall|i: int|
            0 <= i < 11 ==> {
                let name = #[trigger] group_names()[i];
                name.len() > 0 && name[0] != 'u' && digit_value(name.last()) is None
            },
{
    reveal_strlit("staging_authority");
    reveal_strlit("stage_up");
    reveal_strlit("stage_down");
    reveal_strlit("min_run_ticks");
    reveal_strlit("min_start_interval_ticks");
    reveal_strlit("vent_ticks");
    reveal_strlit("rotation");
    reveal_strlit("last_demand");
    reveal_strlit("approve_used");
    reveal_strlit("rotation_join");
    reveal_strlit("rotation_depart");
}

proof fn lemma_bound_names(m: nat, n: nat)
    ensures
        min_flow_name(m) != max_flow_name(n),
        min_flow_name(m) != max_current_name(n),
        max_flow_name(m) != max_current_name(n),
        m != n ==> min_flow_name(m) != min_flow_name(n),
        m != n ==> max_flow_name(m) != max_flow_name(n),
        m != n ==> max_current_name(m) != max_current_name(n),
        min_flow_name(m)[0] == 'u',
        max_flow_name(m)[0] == 'u',
        max_current_name(m)[0] == 'u',
        digit_value(min_flow_name(m).last()) is None,
        digit_value(max_flow_name(m).last()) is None,
        digit_value(max_current_name(m).last()) is None,
{
    let low = "_min_flow"@;
    let high = "_max_flow"@;
    let current = "_max_current"@;
    reveal_strlit("unit_");
    reveal_strlit("_min_flow");
    reveal_strlit("_max_flow");
    reveal_strlit("_max_current");
    assert(low[2] != high[2]);
    indexed_name_parts("unit_"@, m, low);
    indexed_name_parts("unit_"@, m, high);
    indexed_name_parts("unit_"@, m, current);
    assert(min_flow_name(m)[0] == "unit_"@[0]);
    assert(max_flow_name(m)[0] == "unit_"@[0]);
    assert(max_current_name(m)[0] == "unit_"@[0]);
    if min_flow_name(m) == max_flow_name(n) {
        indexed_names_differ("unit_"@, m, low, n, high);
    }
    if min_flow_name(m) == max_current_name(n) {
        indexed_names_differ("unit_"@, m, low, n, current);
    }
    if max_flow_name(m) == max_current_name(n) {
        indexed_names_differ("unit_"@, m, high, n, current);
    }
    if min_flow_name(m) == min_flow_name(n) {
        indexed_names_differ("unit_"@, m, low, n, low);
    }
    if max_flow_name(m) == max_flow_name(n) {
        indexed_names_differ("unit_"@, m, high, n, high);
    }
    if max_current_name(m) == max_current_name(n) {
        indexed_names_differ("unit_"@, m, current, n, current);
    }
}

/// The names of a unit's run state: each ends in a digit.
spec fn unit_name(which: int, n: nat) -> Seq<char> {
    if which == 0 {
        spec_numbered("phase_"@, n)
    } else if which == 1 {
        spec_numbered("phase_ticks_"@, n)
    } else if which == 2 {
        spec_numbered("run_hours_"@, n)
    } else if which == 3 {
        spec_numbered("started_at_"@, n)
    } else if which == 4 {
        spec_numbered("stopped_at_"@, n)
    } else {
        spec_numbered("join_rank_"@, n)
    }
}

proof fn lemma_unit_names(a: int, m: nat, b: int, n: nat)
    requires
        0 <= a < 6,
        0 <= b < 6,
    ensures
        digit_value(unit_name(a, m).last()) is Some,
        a != b || m != n ==> unit_name(a, m) != unit_name(b, n),
{
    reveal_strlit("phase_");
    reveal_strlit("phase_ticks_");
    reveal_strlit("run_hours_");
    reveal_strlit("started_at_");
    reveal_strlit("stopped_at_");
    reveal_strlit("join_rank_");
    lemma_unit_name_head(a, m);
    lemma_unit_name_head(b, n);
    if a == b && unit_name(a, m) == unit_name(b, n) {
        let prefix = if a == 0 {
            "phase_"@
        } else if a == 1 {
            "phase_ticks_"@
        } else if a == 2 {
            "run_hours_"@
        } else if a == 3 {
            "started_at_"@
        } else if a == 4 {
            "stopped_at_"@
        } else {
            "join_rank_"@
        };
        numbered_names_differ(prefix, m, n);
    }
}

proof fn lemma_unit_name_head(which: int, n: nat)
    requires
        0 <= which < 6,
    ensures
        unit_name(which, n).len() > 6,
        digit_value(unit_name(which, n).last()) is Some,
        which == 0 ==> unit_name(which, n)[0] == 'p' && digit_value(unit_name(which, n)[6]) is Some,
        which == 1 ==> unit_name(which, n)[0] == 'p' && digit_value(unit_name(which, n)[6]) is None,
        which == 2 ==> unit_name(which, n)[0] == 'r',
        which == 3 ==> unit_name(which, n)[0] == 's' && unit_name(which, n)[2] == 'a',
        which == 4 ==> unit_name(which, n)[0] == 's' && unit_name(which, n)[2] == 'o',
        which == 5 ==> unit_name(which, n)[0] == 'j',
{
    reveal_strlit("phase_");
    reveal_strlit("phase_ticks_");
    reveal_strlit("run_hours_");
    reveal_strlit("started_at_");
    reveal_strlit("stopped_at_");
    reveal_strlit("join_rank_");
    numbered_name_parts("phase_"@, n);
    numbered_name_parts("phase_ticks_"@, n);
    numbered_name_parts("run_hours_"@, n);
    numbered_name_parts("started_at_"@, n);
    numbered_name_parts("stopped_at_"@, n);
    numbered_name_parts("join_rank_"@, n);
    assert("phase_"@[0] == 'p');
    assert("phase_ticks_"@[0] == 'p' && "phase_ticks_"@[6] == 't');
    assert("run_hours_"@[0] == 'r');
    assert("started_at_"@[0] == 's' && "started_at_"@[2] == 'a');
    assert("stopped_at_"@[0] == 's' && "stopped_at_"@[2] == 'o');
    assert("join_rank_"@[0] == 'j');
}

/// Writing the bounds leaves other fields alone.
proof fn lemma_with_bounds_other(
    fields: Map<Seq<char>, Value>,
    bounds: Seq<UnitBounds>,
    done: nat,
    key: Seq<char>,
)
    requires
        key[0] != 'u',
    ensures
        field(with_bounds(fields, bounds, done), key) == field(fields, key),
    decreases done,
{
    if done > 0 {
        lemma_with_bounds_other(fields, bounds, (done - 1) as nat, key);
        lemma_bound_names(done, done);
    }
}

/// Writing the bounds writes each unit's.
proof fn lemma_with_bounds_at(
    fields: Map<Seq<char>, Value>,
    bounds: Seq<UnitBounds>,
    done: nat,
    n: nat,
)
    requires
        1 <= n <= done,
    ensures
        ({
            let written = with_bounds(fields, bounds, done);
            let unit = bounds[n - 1];
            &&& field(written, min_flow_name(n)) == Some(Value::Float(unit.min_flow))
            &&& field(written, max_flow_name(n)) == Some(Value::Float(unit.max_flow))
            &&& field(written, max_current_name(n)) == Some(Value::Float(unit.max_current))
        }),
    decreases done,
{
    lemma_bound_names(n, done);
    lemma_bound_names(done, n);
    if n < done {
        lemma_with_bounds_at(fields, bounds, (done - 1) as nat, n);
    }
}

/// Writing the units leaves other fields alone.
proof fn lemma_with_units_other(
    fields: Map<Seq<char>, Value>,
    state: Seq<BlowerState>,
    order: Seq<usize>,
    done: nat,
    key: Seq<char>,
)
    requires
        digit_value(key.last()) is None,
    ensures
        field(with_units(fields, state, order, done), key) == field(fields, key),
    decreases done,
{
    if done > 0 {
        lemma_with_units_other(fields, state, order, (done - 1) as nat, key);
        lemma_unit_names(0, done, 1, done);
        lemma_unit_names(2, done, 3, done);
        lemma_unit_names(4, done, 5, done);
        lemma_unit_names(1, done, 0, done);
        lemma_unit_names(3, done, 2, done);
        lemma_unit_names(5, done, 4, done);
    }
}

/// The value that a unit's run state puts under one of its names.
spec fn unit_value(state: Seq<BlowerState>, order: Seq<usize>, which: int, n: nat) -> Value {
    let unit = state[n - 1];
    if which == 0 {
        Value::Int(unit.phase.spec_code())
    } else if which == 1 {
        Value::Int(unit.phase_ticks as i64)
    } else if which == 2 {
        Value::Int(unit.run_hours as i64)
    } else if which == 3 {
        Value::Int(unit.started_at as i64)
    } else if which == 4 {
        Value::Int(unit.stopped_at as i64)
    } else {
        Value::Int(rank_of(order, (n - 1) as usize) as i64)
    }
}

/// Writing the units writes each one's.
proof fn lemma_with_units_at(
    fields: Map<Seq<char>, Value>,
    state: Seq<BlowerState>,
    order: Seq<usize>,
    done: nat,
    which: int,
    n: nat,
)
    requires
        1 <= n <= done,
        0 <= which < 6,
    ensures
        field(with_units(fields, state, order, done), unit_name(which, n)) == Some(
            unit_value(state, order, which, n),
        ),
    decreases done,
{
    lemma_unit_names(which, n, 0, done);
    lemma_unit_names(which, n, 1, done);
    lemma_unit_names(which, n, 2, done);
    lemma_unit_names(which, n, 3, done);
    lemma_unit_names(which, n, 4, done);
    lemma_unit_names(which, n, 5, done);
    if n < done {
        lemma_with_units_at(fields, state, order, (done - 1) as nat, which, n);
    }
}

/// The fields before the units' own.
spec fn base(group: GroupView) -> Map<Seq<char>, Value> {
    group.reported().insert("last_demand"@, Value::Float(group.last_demand)).insert(
        "approve_used"@,
        Value::Bool(group.approve_used),
    ).insert("rotation_join"@, Value::Int(group.pair_join() as i64)).insert(
        "rotation_depart"@,
        Value::Int(group.pair_depart() as i64),
    )
}

/// What a checkpoint holds under the group's own names.
proof fn lemma_group_fields(group: GroupView)
    ensures
        ({
            let fields = group.captured();
            let config = group.config;
            &&& field(fields, "staging_authority"@) == Some(
                Value::Int(config.staging_authority.spec_code()),
            )
            &&& field(fields, "stage_up"@) == Some(Value::Float(config.stage_up))
            &&& field(fields, "stage_down"@) == Some(Value::Float(config.stage_down))
            &&& field(fields, "min_run_ticks"@) == Some(Value::Int(config.min_run_ticks as i64))
            &&& field(fields, "min_start_interval_ticks"@) == Some(
                Value::Int(config.min_start_interval_ticks as i64),
            )
            &&& field(fields, "vent_ticks"@) == Some(Value::Int(config.vent_ticks as i64))
            &&& field(fields, "rotation"@) == Some(Value::Int(config.rotation.spec_code()))
            &&& field(fields, "last_demand"@) == Some(Value::Float(group.last_demand))
            &&& field(fields, "approve_used"@) == Some(Value::Bool(group.approve_used))
            &&& field(fields, "rotation_join"@) == Some(Value::Int(group.pair_join() as i64))
            &&& field(fields, "rotation_depart"@) == Some(Value::Int(group.pair_depart() as i64))
        }),
{
    lemma_literals();
    reveal_strlit("staging_authority");
    reveal_strlit("stage_up");
    reveal_strlit("stage_down");
    reveal_strlit("min_run_ticks");
    reveal_strlit("min_start_interval_ticks");
    reveal_strlit("vent_ticks");
    reveal_strlit("rotation");
    reveal_strlit("last_demand");
    reveal_strlit("approve_used");
    reveal_strlit("rotation_join");
    reveal_strlit("rotation_depart");
    assert("stage_up"@[0] != "rotation"@[0]);
    assert("stage_down"@[0] != "vent_ticks"@[0]);
    assert("min_run_ticks"@[0] != "rotation_join"@[0]);
    let names = group_names();
    let config = group.config;
    let first = Map::<Seq<char>, Value>::empty().insert(
        "staging_authority"@,
        Value::Int(config.staging_authority.spec_code()),
    ).insert("stage_up"@, Value::Float(config.stage_up)).insert(
        "stage_down"@,
        Value::Float(config.stage_down),
    ).insert("min_run_ticks"@, Value::Int(config.min_run_ticks as i64)).insert(
        "min_start_interval_ticks"@,
        Value::Int(config.min_start_interval_ticks as i64),
    );
    assert forall|i: int| 0 <= i < 11 implies field(
        group.captured(),
        #[trigger] names[i],
    ) == field(base(group), names[i]) && field(
        with_bounds(first, group.bounds, group.bounds.len()),
        names[i],
    ) == field(first, names[i]) by {
        lemma_with_units_other(
            base(group),
            group.state,
            group.order,
            group.state.len(),
            names[i],
        );
        lemma_with_bounds_other(first, group.bounds, group.bounds.len(), names[i]);
    }
    assert(names[0] == "staging_authority"@);
    assert(names[1] == "stage_up"@);
    assert(names[2] == "stage_down"@);
    assert(names[3] == "min_run_ticks"@);
    assert(names[4] == "min_start_interval_ticks"@);
    assert(names[5] == "vent_ticks"@);
    assert(names[6] == "rotation"@);
    assert(names[7] == "last_demand"@);
    assert(names[8] == "approve_used"@);
    assert(names[9] == "rotation_join"@);
    assert(names[10] == "rotation_depart"@);
}

/// What a checkpoint holds under the bounds of unit `n`.
proof fn lemma_bounds_fields(group: GroupView, n: nat)
    requires
        1 <= n <= group.bounds.len(),
    ensures
        ({
            let fields = group.captured();
            let unit = group.bounds[n - 1];
            &&& field(fields, min_flow_name(n)) == Some(Value::Float(unit.min_flow))
            &&& field(fields, max_flow_name(n)) == Some(Value::Float(unit.max_flow))
            &&& field(fields, max_current_name(n)) == Some(Value::Float(unit.max_current))
        }),
{
    lemma_literals();
    let names = group_names();
    assert(names[5] == "vent_ticks"@);
    assert(names[6] == "rotation"@);
    assert(names[7] == "last_demand"@);
    assert(names[8] == "approve_used"@);
    assert(names[9] == "rotation_join"@);
    assert(names[10] == "rotation_depart"@);
    let config = group.config;
    let first = Map::<Seq<char>, Value>::empty().insert(
        "staging_authority"@,
        Value::Int(config.staging_authority.spec_code()),
    ).insert("stage_up"@, Value::Float(config.stage_up)).insert(
        "stage_down"@,
        Value::Float(config.stage_down),
    ).insert("min_run_ticks"@, Value::Int(config.min_run_ticks as i64)).insert(
        "min_start_interval_ticks"@,
        Value::Int(config.min_start_interval_ticks as i64),
    );
    lemma_with_bounds_at(first, group.bounds, group.bounds.len(), n);
    lemma_bound_names(n, n);
    let state = group.state;
    let order = group.order;
    lemma_with_units_other(base(group), state, order, state.len(), min_flow_name(n));
    lemma_with_units_other(base(group), state, order, state.len(), max_flow_name(n));
    lemma_with_units_other(base(group), state, order, state.len(), max_current_name(n));
}

proof fn lemma_bounds_restored(group: GroupView, name: Seq<char>, done: nat)
    requires
        group.wf(),
        done <= group.bounds.len(),
    ensures
        restored_bounds(group.captured(), name, done) == Ok::<Seq<UnitBounds>, StateErrorView>(
            group.bounds.take(done as int),
        ),
    decreases done,
{
    if done == 0 {
        assert(group.bounds.take(0) == Seq::<UnitBounds>::empty());
    } else {
        lemma_bounds_restored(group, name, (done - 1) as nat);
        lemma_bounds_fields(group, done);
        assert(group.bounds[done - 1].valid());
        assert(group.bounds.take(done as int) == group.bounds.take(done - 1).push(
            group.bounds[done - 1],
        ));
    }
}

proof fn lemma_units_restored(group: GroupView, name: Seq<char>, done: nat)
    requires
        group.wf(),
        checkpointable(group),
        done <= group.state.len(),
    ensures
        restored_units(
            group.captured(),
            name,
            group.config.vent_ticks,
            group.count(),
            done,
        ) == Ok::<Seq<(BlowerState, i64)>, StateErrorView>(entries(group, done)),
    decreases done,
{
    if done == 0 {
        assert(entries(group, 0) == Seq::<(BlowerState, i64)>::empty());
    } else {
        lemma_units_restored(group, name, (done - 1) as nat);
        let unit = group.state[done - 1];
        let index = (done - 1) as usize;
        assert(unit.wf());
        let all = group.state.len();
        lemma_with_units_at(base(group), group.state, group.order, all, 0, done);
        lemma_with_units_at(base(group), group.state, group.order, all, 1, done);
        lemma_with_units_at(base(group), group.state, group.order, all, 2, done);
        lemma_with_units_at(base(group), group.state, group.order, all, 3, done);
        lemma_with_units_at(base(group), group.state, group.order, all, 4, done);
        lemma_with_units_at(base(group), group.state, group.order, all, 5, done);
        lemma_order_length(group);
        assert(group.order.contains(index) <==> unit.phase == Phase::Joined);
        assert(entries(group, done) == entries(group, (done - 1) as nat).push(
            (unit, rank_of(group.order, index) as i64),
        ));
    }
}

/// The join order is no longer than the group.
proof fn lemma_order_length(group: GroupView)
    requires
        group.wf(),
    ensures
        group.order.len() <= group.count(),
{
    let all = Set::new(|i: usize| i < group.count());
    let listed = group.order.to_set();
    group.order.unique_seq_to_set();
    let ints = group.order.map_values(|i: usize| i as int);
    assert(ints.no_duplicates());
    ints.unique_seq_to_set();
    let range = vstd::set_lib::set_int_range(0, group.count());
    vstd::set_lib::lemma_int_range(0, group.count());
    assert forall|i: int| ints.to_set().contains(i) implies range.contains(i) by {
        let p = ints.index_of(i);
        assert(group.order[p] < group.state.len());
    }
    vstd::set_lib::lemma_len_subset(ints.to_set(), range);
}

/// Sorting the units of the order by rank gives the order back.
proof fn lemma_order_restored(group: GroupView, name: Seq<char>)
    requires
        group.wf(),
        checkpointable(group),
    ensures
        restored_order(name, entries(group, group.state.len())) == Ok::<
            Seq<usize>,
            StateErrorView,
        >(group.order),
{
    let units = entries(group, group.state.len());
    lemma_order_length(group);
    crate::blower_group::lemma_ranked_units(units, units.len());
    lemma_ranked_sorted(units, units.len());
    let sorted = ranked(units, units.len());
    // Each place of the sorted list holds the unit at that place of the
    // order.
    assert forall|p: int| 0 <= p < group.order.len() implies sorted.contains(
        ((p + 1) as i64, #[trigger] group.order[p]),
    ) by {
        let unit = group.order[p];
        assert(group.order.contains(unit));
        assert(group.order.index_of(unit) == p);
        assert(units[unit as int].1 == (p + 1) as i64);
    }
    assert forall|k: int| 0 <= k < sorted.len() implies ({
        let entry = #[trigger] sorted[k];
        &&& 1 <= entry.0 <= group.order.len()
        &&& group.order[entry.0 - 1] == entry.1
    }) by {
        let entry = sorted[k];
        assert(entry.0 == units[entry.1 as int].1);
        assert(group.order.contains(entry.1));
    }
    lemma_strict_ranks(sorted, group.order);
    lemma_no_gap(sorted, sorted.len());
    assert(Seq::new(sorted.len(), |p: int| sorted[p].1) == group.order);
}

/// The sorted list goes up by rank.
proof fn lemma_ranked_sorted(units: Seq<(BlowerState, i64)>, done: nat)
    requires
        done <= units.len() <= usize::MAX,
    ensures
        forall|p: int, q: int|
            0 <= p <= q < ranked(units, done).len() ==> (#[trigger] ranked(units, done)[p]).0 <= (
            #[trigger] ranked(units, done)[q]).0,
    decreases done,
{
    if done > 0 {
        lemma_ranked_sorted(units, (done - 1) as nat);
        let earlier = ranked(units, (done - 1) as nat);
        let rank = units[done - 1].1;
        if rank > 0 {
            lemma_insert_sorted(earlier, rank, (done - 1) as usize);
        }
    }
}

proof fn lemma_insert_sorted(sorted: Seq<(i64, usize)>, rank: i64, unit: usize)
    requires
        forall|p: int, q: int|
            0 <= p <= q < sorted.len() ==> (#[trigger] sorted[p]).0 <= (#[trigger] sorted[q]).0,
    ensures
        ({
            let after = insert_ranked(sorted, rank, unit);
            &&& after.len() == sorted.len() + 1
            &&& forall|p: int, q: int|
                0 <= p <= q < after.len() ==> (#[trigger] after[p]).0 <= (#[trigger] after[q]).0
            &&& forall|p: int|
                0 <= p < after.len() ==> (#[trigger] after[p]).0 == rank || (sorted.len() > 0
                    && after[p].0 <= sorted.last().0)
        }),
    decreases sorted.len(),
{
    if sorted.len() > 0 && sorted.last().0 > rank {
        lemma_insert_sorted(sorted.drop_last(), rank, unit);
        if sorted.len() > 1 {
            assert(sorted[sorted.len() - 2].0 <= sorted[sorted.len() - 1].0);
        }
    }
}

/// A sorted list that holds each rank from one on once, and no other, holds
/// rank `p + 1` at place `p`.
proof fn lemma_strict_ranks(sorted: Seq<(i64, usize)>, order: Seq<usize>)
    requires
        order.no_duplicates(),
        forall|p: int, q: int|
            0 <= p <= q < sorted.len() ==> (#[trigger] sorted[p]).0 <= (#[trigger] sorted[q]).0,
        forall|p: int, q: int|
            0 <= p < q < sorted.len() ==> (#[trigger] sorted[p]).1 != (#[trigger] sorted[q]).1,
        forall|p: int|
            0 <= p < order.len() ==> sorted.contains(((p + 1) as i64, #[trigger] order[p])),
        forall|k: int|
            0 <= k < sorted.len() ==> {
                let entry = #[trigger] sorted[k];
                &&& 1 <= entry.0 <= order.len()
                &&& order[entry.0 - 1] == entry.1
            },
        order.len() <= i64::MAX,
    ensures
        sorted.len() == order.len(),
        forall|p: int| 0 <= p < sorted.len() ==> (#[trigger] sorted[p]).0 == p + 1,
{
    assert forall|p: int, q: int| 0 <= p < q < sorted.len() implies (#[trigger] sorted[p]).0 < (
    #[trigger] sorted[q]).0 by {
        assert(sorted[p].1 != sorted[q].1);
    }
    assert forall|p: int| 0 <= p < sorted.len() implies (#[trigger] sorted[p]).0 >= p + 1 by {
        lemma_climb(sorted, p);
    }
    // Rank `p + 1` sits at place `p`, or at an earlier one, where the climb
    // would not yet have reached it.
    assert forall|p: int| 0 <= p < order.len() implies p < sorted.len() && (#[trigger] sorted[p]).0
        == p + 1 by {
        lemma_place(sorted, order, p);
    }
    if order.len() > 0 {
        lemma_place(sorted, order, order.len() - 1);
    }
    if sorted.len() > order.len() {
        assert(sorted[order.len() as int].0 >= order.len() + 1);
    }
}

proof fn lemma_climb(sorted: Seq<(i64, usize)>, p: int)
    requires
        0 <= p < sorted.len(),
        forall|p: int, q: int|
            0 <= p < q < sorted.len() ==> (#[trigger] sorted[p]).0 < (#[trigger] sorted[q]).0,
        forall|k: int| 0 <= k < sorted.len() ==> (#[trigger] sorted[k]).0 >= 1,
    ensures
        sorted[p].0 >= p + 1,
    decreases p,
{
    if p > 0 {
        lemma_climb(sorted, p - 1);
    }
}

proof fn lemma_place(sorted: Seq<(i64, usize)>, order: Seq<usize>, p: int)
    requires
        0 <= p < order.len() <= i64::MAX,
        forall|p: int, q: int|
            0 <= p < q < sorted.len() ==> (#[trigger] sorted[p]).0 < (#[trigger] sorted[q]).0,
        forall|p: int| 0 <= p < sorted.len() ==> (#[trigger] sorted[p]).0 >= p + 1,
        forall|p: int|
            0 <= p < order.len() ==> sorted.contains(((p + 1) as i64, #[trigger] order[p])),
    ensures
        p < sorted.len(),
        sorted[p].0 == p + 1,
    decreases p,
{
    let k = sorted.index_of(((p + 1) as i64, order[p]));
    assert(sorted.contains(((p + 1) as i64, order[p])));
    assert(sorted[k].0 == p + 1);
    assert(k <= p);
    if k < p {
        lemma_place(sorted, order, k);
    }
}

proof fn lemma_no_gap(sorted: Seq<(i64, usize)>, done: nat)
    requires
        done <= sorted.len(),
        forall|p: int| 0 <= p < sorted.len() ==> (#[trigger] sorted[p]).0 == p + 1,
    ensures
        first_gap(sorted, done) is None,
    decreases done,
{
    if done > 0 {
        lemma_no_gap(sorted, (done - 1) as nat);
    }
}

/// A checkpoint holds no name that the group does not know.
proof fn lemma_names_known(group: GroupView, checkpoint: Table)
    requires
        group.wf(),
        checkpoint@ == group.captured(),
    ensures
        forall|key: Seq<char>| #[trigger]
            checkpoint@.dom().contains(key) ==> unit_names(
                group_names(),
                group.units.len(),
            ).contains(key),
{
    let n = group.units.len();
    let known = unit_names(group_names(), n);
    lemma_names_grow(group_names(), n);
    assert forall|key: Seq<char>| #[trigger] checkpoint@.dom().contains(key) implies known.contains(
        key,
    ) by {
        lemma_units_dom(base(group), group.state, group.order, n, n, key);
        if base(group).dom().contains(key) {
            let config = group.config;
            let first = Map::<Seq<char>, Value>::empty().insert(
                "staging_authority"@,
                Value::Int(config.staging_authority.spec_code()),
            ).insert("stage_up"@, Value::Float(config.stage_up)).insert(
                "stage_down"@,
                Value::Float(config.stage_down),
            ).insert("min_run_ticks"@, Value::Int(config.min_run_ticks as i64)).insert(
                "min_start_interval_ticks"@,
                Value::Int(config.min_start_interval_ticks as i64),
            );
            lemma_bounds_dom(first, group.bounds, n, n, key);
            let names = group_names();
            assert(names[0] == "staging_authority"@ && names[1] == "stage_up"@);
            assert(names[2] == "stage_down"@ && names[3] == "min_run_ticks"@);
            assert(names[4] == "min_start_interval_ticks"@ && names[5] == "vent_ticks"@);
            assert(names[6] == "rotation"@ && names[7] == "last_demand"@);
            assert(names[8] == "approve_used"@ && names[9] == "rotation_join"@);
            assert(names[10] == "rotation_depart"@);
            assert forall|i: int| 0 <= i < 11 implies known.contains(#[trigger] names[i]) by {
                assert(known[i] == names[i]);
            }
        }
    }
}

proof fn lemma_names_grow(leading: Seq<Seq<char>>, done: nat)
    ensures
        unit_names(leading, done).len() >= leading.len(),
        forall|i: int| 0 <= i < leading.len() ==> #[trigger] unit_names(leading, done)[i]
            == leading[i],
    decreases done,
{
    if done > 0 {
        lemma_names_grow(leading, (done - 1) as nat);
    }
}

proof fn lemma_names_hold(leading: Seq<Seq<char>>, n: nat, done: nat)
    requires
        1 <= n <= done,
    ensures
        ({
            let known = unit_names(leading, done);
            &&& known.contains(min_flow_name(n))
            &&& known.contains(max_flow_name(n))
            &&& known.contains(max_current_name(n))
            &&& known.contains(spec_numbered("phase_"@, n))
            &&& known.contains(spec_numbered("phase_ticks_"@, n))
            &&& known.contains(spec_numbered("run_hours_"@, n))
            &&& known.contains(spec_numbered("started_at_"@, n))
            &&& known.contains(spec_numbered("stopped_at_"@, n))
            &&& known.contains(spec_numbered("join_rank_"@, n))
        }),
    decreases done,
{
    let known = unit_names(leading, done);
    let earlier = unit_names(leading, (done - 1) as nat);
    let k = earlier.len() as int;
    if n == done {
        assert(known[k] == min_flow_name(n));
        assert(known[k + 1] == max_flow_name(n));
        assert(known[k + 2] == max_current_name(n));
        assert(known[k + 3] == spec_numbered("phase_"@, n));
        assert(known[k + 4] == spec_numbered("phase_ticks_"@, n));
        assert(known[k + 5] == spec_numbered("run_hours_"@, n));
        assert(known[k + 6] == spec_numbered("started_at_"@, n));
        assert(known[k + 7] == spec_numbered("stopped_at_"@, n));
        assert(known[k + 8] == spec_numbered("join_rank_"@, n));
    } else {
        lemma_names_hold(leading, n, (done - 1) as nat);
        assert forall|key: Seq<char>| earlier.contains(key) implies known.contains(key) by {
            let i = earlier.index_of(key);
            assert(known[i] == earlier[i]);
        }
    }
}

proof fn lemma_units_dom(
    fields: Map<Seq<char>, Value>,
    state: Seq<BlowerState>,
    order: Seq<usize>,
    done: nat,
    all: nat,
    key: Seq<char>,
)
    requires
        done <= all,
        with_units(fields, state, order, done).dom().contains(key),
    ensures
        fields.dom().contains(key) || unit_names(group_names(), all).contains(key),
    decreases done,
{
    if done > 0 {
        lemma_names_hold(group_names(), done, all);
        if with_units(fields, state, order, (done - 1) as nat).dom().contains(key) {
            lemma_units_dom(fields, state, order, (done - 1) as nat, all, key);
        }
    }
}

proof fn lemma_bounds_dom(
    fields: Map<Seq<char>, Value>,
    bounds: Seq<UnitBounds>,
    done: nat,
    all: nat,
    key: Seq<char>,
)
    requires
        done <= all,
    ensures
        with_bounds(fields, bounds, done).dom().contains(key) ==> fields.dom().contains(key)
            || unit_names(group_names(), all).contains(key),
    decreases done,
{
    if done > 0 {
        lemma_names_hold(group_names(), done, all);
        lemma_bounds_dom(fields, bounds, (done - 1) as nat, all, key);
    }
}

/// A retune leaves the units alone: their phases, hours and times, the order
/// in which they joined, a rotation under way, the approval and the held
/// demand stand. Only where the window becomes no longer than the count of a
/// leg in progress is the count clamped, so that the leg is spent at its next
/// unproven scan.
pub proof fn retunes_keep_the_units(group: GroupView, parameter: Seq<char>, value: Value, i: int)
    requires
        group.wf(),
        0 <= i < group.count(),
    ensures
        group.tuned(parameter, value) matches Ok::<GroupView, CommandErrorView>(tuned) ==> {
            let (before, after) = (group.state[i], tuned.state[i]);
            &&& tuned == (GroupView {
                config: tuned.config,
                bounds: tuned.bounds,
                state: tuned.state,
                ..group
            })
            &&& tuned.state.len() == group.state.len()
            &&& after == (BlowerState { phase_ticks: after.phase_ticks, ..before })
            &&& after.phase_ticks != before.phase_ticks ==> after.phase_ticks + 1
                == tuned.config.vent_ticks <= before.phase_ticks
            &&& tuned.config.vent_ticks == group.config.vent_ticks ==> after == before
        },
{
}

/// A trusted demand of nothing, or of less, de-stages everything: while a
/// unit is joined one unit less is warranted, whatever the down limit, and
/// none more.
pub proof fn vanished_demand_destages(
    group: GroupView,
    scan: BlowerScan,
    up_limit: Float,
    down_limit: Float,
    tick: Tick,
)
    requires
        group.wf(),
        scan.demand.usable(),
        !Float::spec_zero().lt(scan.demand.value),
        !up_limit.lt(Float::spec_zero()),
    ensures
        ({
            let advanced = group.advanced(scan, tick);
            &&& !advanced.up_warranted(up_limit)
            &&& advanced.order.len() > 0 ==> advanced.down_warranted(down_limit)
            &&& advanced.order.len() > 0 ==> advanced.request(scan, up_limit, down_limit, tick)
                == match advanced.depart_pick(Some(tick)) {
                Some(unit) => Some(Request::StageDown(unit)),
                None => None,
            }
        }),
{
}

/// One scan of a group: what it reads, the limits that the staging is held
/// against, and its number.
pub struct GroupScan {
    pub scan: BlowerScan,
    pub up_limit: Float,
    pub down_limit: Float,
    pub tick: Tick,
}

/// The group after a whole scan: the readings, then the stage decision.
pub open spec fn after_scan(group: GroupView, step: GroupScan) -> GroupView {
    group.advanced(step.scan, step.tick).staged(
        step.scan,
        step.up_limit,
        step.down_limit,
        step.tick,
    )
}

/// Whether a scan leaves a warranted change to the operator.
pub open spec fn left_pending(group: GroupView, step: GroupScan) -> bool {
    group.advanced(step.scan, step.tick).pending(
        step.scan,
        step.up_limit,
        step.down_limit,
        step.tick,
    )
}

/// Everything that a whole scan drives.
pub open spec fn scan_writes(group: GroupView, step: GroupScan, share: Float) -> Seq<Write> {
    after_scan(group, step).writes(step.scan, left_pending(group, step), share, step.tick)
}

proof fn lemma_order_after(
    order: Seq<usize>,
    before: Seq<BlowerState>,
    after: Seq<BlowerState>,
    mixed: Seq<BlowerState>,
    done: nat,
)
    requires
        order_lists(order, before),
        done <= before.len() == after.len() == mixed.len(),
        before.len() <= usize::MAX,
        forall|i: int| 0 <= i < done ==> mixed[i] == after[i],
        forall|i: int| done <= i < before.len() ==> mixed[i] == before[i],
    ensures
        order_lists(order_after(order, before, after, done), mixed),
    decreases done,
{
    if done == 0 {
        assert(mixed == before);
    } else {
        let earlier = mixed.update(done - 1, before[done - 1]);
        let listed = order_after(order, before, after, (done - 1) as nat);
        lemma_order_after(order, before, after, earlier, (done - 1) as nat);
        lemma_order_step(listed, earlier, (done - 1) as usize, after[done - 1]);
        assert(earlier.update(done - 1, after[done - 1]) == mixed);
    }
}

/// A scan keeps the invariant, whatever it reads.
pub proof fn scans_keep_the_invariant(group: GroupView, step: GroupScan)
    requires
        group.wf(),
        step.scan.fits(group),
    ensures
        group.advanced(step.scan, step.tick).wf(),
        after_scan(group, step).wf(),
{
    let (scan, tick) = (step.scan, step.tick);
    let state = group.state_after(scan, tick);
    assert forall|i: int| 0 <= i < group.count() implies (#[trigger] state[i]).wf()
        && state[i].in_window(group.config.vent_ticks) by {
        assert(group.state[i].wf());
    }
    lemma_order_after(group.order, group.state, state, state, group.state.len());
    let settled = GroupView {
        state,
        order: order_after(group.order, group.state, state, group.state.len()),
        approve_used: group.approve_used && !scan.withdrawn(),
        last_demand: group.demand_after(scan.demand),
        ..group
    };
    let advanced = group.advanced(scan, tick);
    assert(advanced == settled.second_leg());
    if let Some((join, depart)) = group.pair {
        lemma_order_step(
            settled.order,
            settled.state,
            depart,
            settled.state[depart as int].entered(Phase::Departing),
        );
    }
    assert(advanced.wf());
    lemma_staged_wf(advanced, step);
}

proof fn lemma_staged_wf(group: GroupView, step: GroupScan)
    requires
        group.wf(),
        step.scan.fits(group),
    ensures
        group.staged(step.scan, step.up_limit, step.down_limit, step.tick).wf(),
{
    let (scan, tick) = (step.scan, step.tick);
    if group.executes(scan, step.up_limit, step.down_limit, tick) {
        lemma_join_pick(group, scan, tick);
        lemma_depart_pick_fits(group, tick);
        match group.request(scan, step.up_limit, step.down_limit, tick)->0 {
            Request::StageUp(unit) => lemma_order_step(
                group.order,
                group.state,
                unit,
                group.joining(unit as int, tick).state[unit as int],
            ),
            Request::StageDown(unit) => lemma_order_step(
                group.order,
                group.state,
                unit,
                group.state[unit as int].entered(Phase::Departing),
            ),
            Request::Rotate(join, _) => lemma_order_step(
                group.order,
                group.state,
                join,
                group.joining(join as int, tick).state[join as int],
            ),
        }
    }
}

/// A retune keeps the invariant.
pub proof fn retunes_keep_the_invariant(group: GroupView, parameter: Seq<char>, value: Value)
    requires
        group.wf(),
    ensures
        group.tuned(parameter, value) matches Ok::<GroupView, CommandErrorView>(tuned)
            ==> tuned.wf(),
{
    if let Ok(tuned) = group.tuned(parameter, value) {
        assert forall|i: int| 0 <= i < group.count() implies (
        #[trigger] tuned.bounds[i]).valid() by {
            assert(group.bounds[i].valid());
        }
        assert forall|i: int| 0 <= i < group.count() implies (#[trigger] tuned.state[i]).wf()
            && tuned.state[i].in_window(tuned.config.vent_ticks) by {
            assert(group.state[i].wf());
        }
        assert(forall|i: int|
            0 <= i < group.count() ==> (#[trigger] tuned.state[i]).phase == group.state[i].phase);
        assert(order_lists(tuned.order, tuned.state));
    }
}

/// How many of the first `done` units are on the header.
pub open spec fn header_count(state: Seq<BlowerState>, done: nat) -> nat
    decreases done,
{
    if done == 0 {
        0
    } else {
        header_count(state, (done - 1) as nat) + if state[done - 1].phase == Phase::Joined {
            1nat
        } else {
            0
        }
    }
}

proof fn lemma_header_count(order: Seq<usize>, state: Seq<BlowerState>, done: nat)
    requires
        done <= state.len() <= usize::MAX,
        order.no_duplicates(),
        forall|p: int| 0 <= p < order.len() ==> (#[trigger] order[p]) < done,
        forall|i: usize|
            i < done ==> (#[trigger] order.contains(i) <==> state[i as int].phase
                == Phase::Joined),
    ensures
        order.len() == header_count(state, done),
    decreases done,
{
    if done == 0 {
        if order.len() > 0 {
            assert(order[0] < done);
        }
    } else {
        let last = (done - 1) as usize;
        let rest = without(order, last);
        if order.contains(last) {
            let at = order.index_of(last);
            assert(order[at] == last);
            assert forall|i: usize| i < last implies (#[trigger] rest.contains(i)
                <==> state[i as int].phase == Phase::Joined) by {
                if order.contains(i) {
                    let p = order.index_of(i);
                    assert(order[p] == i);
                    assert(rest[if p < at { p } else { p - 1 }] == i);
                }
                if rest.contains(i) {
                    let p = rest.index_of(i);
                    assert(order[if p < at { p } else { p + 1 }] == i);
                }
            }
            assert forall|p: int| 0 <= p < rest.len() implies (#[trigger] rest[p]) < last by {
                let from: int = if p < at { p } else { p + 1 };
                assert(rest[p] == order[from]);
                assert(order[from] < done);
            }
        } else {
            assert forall|p: int| 0 <= p < rest.len() implies (#[trigger] rest[p]) < last by {
                assert(order[p] < done);
                assert(order.contains(order[p]));
            }
        }
        assert(state[last as int].phase == Phase::Joined <==> order.contains(last));
        lemma_header_count(rest, state, (done - 1) as nat);
    }
}

/// Every output of a whole scan. A unit that is commanded behind an open
/// vent is asked for its floor, one that is commanded on the header for its
/// clamped share, and the others for nothing; the units on the header are as
/// many as the share is a share of. `staged` counts the commands,
/// an open vent is a transition, and all of it is `Good` and of this scan.
pub proof fn scans_drive_by_rule(group: GroupView, step: GroupScan, share: Float, i: int, k: int)
    requires
        group.wf(),
        step.scan.fits(group),
        0 <= i < group.count(),
        0 <= k < 3 * group.count() + 5,
    ensures
        ({
            let after = after_scan(group, step);
            let writes = scan_writes(group, step, share);
            let at = 3 * group.count();
            let bounds = group.bounds[i];
            let on = Value::Bool(true);
            let cmd = writes[3 * i].sample.value == on;
            let vent = writes[3 * i + 2].sample.value == on;
            let capacity = writes[3 * i + 1].sample.value;
            &&& writes.len() == at + 5
            &&& after.last_demand == group.demand_after(step.scan.demand)
            &&& after.order.len() == header_count(after.state, after.state.len())
            &&& cmd && !vent <==> after.phase(i) == Phase::Joined
            &&& cmd && vent ==> capacity == Value::Float(bounds.min_flow)
            &&& cmd && !vent ==> capacity == Value::Float(
                share.clamped(bounds.min_flow, bounds.spec_effective_max()),
            )
            &&& !cmd ==> capacity == Value::Float(Float::spec_zero())
            &&& cmd <==> after.phase(i).commanded()
            &&& writes[at].sample.value == Value::Int(
                commanded_count(after.state, after.state.len()) as i64,
            )
            &&& writes[at + 1].sample.value == Value::Bool(after.none_available(step.scan))
            &&& writes[at + 2].sample.value == Value::Bool(after.all_faulted(step.scan))
            &&& writes[at + 3].sample.value == Value::Bool(left_pending(group, step))
            &&& vent ==> writes[at + 4].sample.value == on
            &&& writes[k].sample.quality == Quality::Good
            &&& writes[k].sample.tick == step.tick
        }),
{
    let after = after_scan(group, step);
    let pending = left_pending(group, step);
    scans_keep_the_invariant(group, step);
    phases_are_driven(after, step.scan, pending, share, step.tick, i);
    lemma_header_count(after.order, after.state, after.state.len());
    let at = 3 * group.count();
    if k < at {
        let unit = k / 3;
        phases_are_driven(after, step.scan, pending, share, step.tick, unit);
        assert(k == 3 * unit || k == 3 * unit + 1 || k == 3 * unit + 2);
    }
    if after.phase(i).vented() {
        assert(after.state[i].phase.vented());
    }
}

/// A unit that a scan starts is alone in its vent: no other unit is joining
/// or departing after that scan.
pub proof fn starts_exclude_other_legs(group: GroupView, step: GroupScan, i: int, j: int)
    requires
        group.wf(),
        step.scan.fits(group),
        0 <= i < group.count(),
        0 <= j < group.count(),
        i != j,
        !group.phase(i).commanded(),
        after_scan(group, step).phase(i) == Phase::Joining,
    ensures
        !after_scan(group, step).phase(j).vented(),
{
    let (scan, tick) = (step.scan, step.tick);
    scans_keep_the_invariant(group, step);
    let advanced = group.advanced(scan, tick);
    assert(group.state_after(scan, tick)[i] == group.state[i].advanced(
        scan.units[i],
        group.demand_after(scan.demand),
        group.config.vent_ticks,
        tick,
    ));
    assert(advanced.phase(i) != Phase::Joining);
    assert(advanced.executes(scan, step.up_limit, step.down_limit, tick));
    assert(!advanced.state[j].phase.vented());
    lemma_join_pick(advanced, scan, tick);
}

/// The group after some scans.
pub open spec fn after_group_scans(group: GroupView, steps: Seq<GroupScan>) -> GroupView
    decreases steps.len(),
{
    if steps.len() == 0 {
        group
    } else {
        after_scan(after_group_scans(group, steps.drop_last()), steps.last())
    }
}

/// The latest usable demand of some scans, held at zero from below; zero
/// before the first.
pub open spec fn latest_demand(steps: Seq<GroupScan>) -> Float
    decreases steps.len(),
{
    if steps.len() == 0 {
        Float::spec_zero()
    } else {
        let reading = steps.last().scan.demand;
        if !reading.usable() {
            latest_demand(steps.drop_last())
        } else if Float::spec_zero().lt(reading.value) {
            reading.value
        } else {
            Float::spec_zero()
        }
    }
}

/// A group that was built flag-only commands nothing in any scan: every unit
/// stays offline, no capacity is committed, nothing is in flight, and a
/// change is flagged exactly while the latest demand exceeds nothing. (The
/// limit to stage up is then a fraction of nothing.)
pub proof fn flag_only_only_flags(
    name: Seq<char>,
    demand: PointId,
    approve: Option<PointId>,
    units: Seq<BlowerIo>,
    bounds: Seq<UnitBounds>,
    outputs: BlowerOutputs,
    config: BlowerGroupConfig,
    fresh: GroupView,
    steps: Seq<GroupScan>,
    next: GroupScan,
    share: Float,
    i: int,
)
    requires
        units.len() <= usize::MAX,
        spec_new(name, demand, approve, units, bounds, outputs, config) == Ok::<
            GroupView,
            ParameterErrorView,
        >(fresh),
        config.staging_authority == StagingAuthority::FlagOnly,
        forall|k: int| 0 <= k < steps.len() ==> (#[trigger] steps[k]).scan.fits(fresh),
        next.scan.fits(fresh),
        next.up_limit.same(Float::spec_zero()),
        0 <= i < units.len(),
    ensures
        ({
            let group = after_group_scans(fresh, steps);
            let after = after_scan(group, next);
            let writes = scan_writes(group, next, share);
            let off = Value::Bool(false);
            let at = 3 * units.len() as int;
            &&& ceilings(group.bounds, group.state, group.state.len()) == Seq::<Float>::empty()
            &&& group.last_demand == latest_demand(steps)
            &&& after.last_demand == latest_demand(steps.push(next))
            &&& writes[3 * i].sample.value == off
            &&& writes[3 * i + 1].sample.value == Value::Float(Float::spec_zero())
            &&& writes[3 * i + 2].sample.value == off
            &&& writes[at].sample.value == Value::Int(0)
            &&& writes[at + 3].sample.value == Value::Bool(
                Float::spec_zero().lt(latest_demand(steps.push(next))),
            )
            &&& writes[at + 4].sample.value == off
        }),
{
    let group = after_group_scans(fresh, steps);
    lemma_flagged(name, demand, approve, units, bounds, outputs, config, fresh, steps);
    assert(steps.push(next).drop_last() == steps);
    let after = after_scan(group, next);
    let advanced = group.advanced(next.scan, next.tick);
    scans_keep_the_invariant(group, next);
    assert forall|k: int| 0 <= k < group.count() implies (#[trigger] advanced.state[k]).phase
        == Phase::Offline by {
        assert(group.state[k].phase == Phase::Offline);
    }
    lemma_order_empty(advanced);
    assert(after == advanced);
    lemma_nothing_commanded(after, after.state.len());
    lemma_nothing_commanded(group, group.state.len());
    phases_are_driven(after, next.scan, left_pending(group, next), share, next.tick, i);
    assert(advanced.state[0].phase == Phase::Offline);
    assert(advanced.up_warranted(next.up_limit) <==> Float::spec_zero().lt(advanced.last_demand));
}

/// A group whose units are all offline lists none as joined.
proof fn lemma_order_empty(group: GroupView)
    requires
        group.wf(),
        forall|k: int| 0 <= k < group.count() ==> (#[trigger] group.state[k]).phase
            == Phase::Offline,
    ensures
        group.order.len() == 0,
{
    if group.order.len() > 0 {
        assert(group.order[0] < group.state.len());
        assert(group.order.contains(group.order[0]));
        assert(group.state[group.order[0] as int].phase == Phase::Offline);
    }
}

proof fn lemma_nothing_commanded(group: GroupView, done: nat)
    requires
        done <= group.state.len(),
        forall|k: int|
            0 <= k < group.state.len() ==> (#[trigger] group.state[k]).phase == Phase::Offline,
    ensures
        commanded_count(group.state, done) == 0,
        ceilings(group.bounds, group.state, done) == Seq::<Float>::empty(),
    decreases done,
{
    if done > 0 {
        lemma_nothing_commanded(group, (done - 1) as nat);
        assert(group.state[done - 1].phase == Phase::Offline);
    }
}

/// What scans of a flag-only group leave behind.
proof fn lemma_flagged(
    name: Seq<char>,
    demand: PointId,
    approve: Option<PointId>,
    units: Seq<BlowerIo>,
    bounds: Seq<UnitBounds>,
    outputs: BlowerOutputs,
    config: BlowerGroupConfig,
    fresh: GroupView,
    steps: Seq<GroupScan>,
)
    requires
        units.len() <= usize::MAX,
        spec_new(name, demand, approve, units, bounds, outputs, config) == Ok::<
            GroupView,
            ParameterErrorView,
        >(fresh),
        config.staging_authority == StagingAuthority::FlagOnly,
        forall|k: int| 0 <= k < steps.len() ==> (#[trigger] steps[k]).scan.fits(fresh),
    ensures
        ({
            let group = after_group_scans(fresh, steps);
            &&& group.wf()
            &&& group.config == config && group.units == units && group.approve == approve
            &&& group.last_demand == latest_demand(steps)
            &&& forall|k: int|
                0 <= k < group.count() ==> (#[trigger] group.state[k]).phase == Phase::Offline
        }),
    decreases steps.len(),
{
    if steps.len() == 0 {
        lemma_bounds_valid(name, bounds, bounds.len());
    } else {
        let earlier = steps.drop_last();
        assert forall|k: int| 0 <= k < earlier.len() implies (
        #[trigger] earlier[k]).scan.fits(fresh) by {
            assert(earlier[k] == steps[k]);
        }
        lemma_flagged(name, demand, approve, units, bounds, outputs, config, fresh, earlier);
        let before = after_group_scans(fresh, earlier);
        let step = steps[steps.len() - 1];
        assert(step.scan.fits(fresh));
        scans_keep_the_invariant(before, step);
        let advanced = before.advanced(step.scan, step.tick);
        assert forall|k: int| 0 <= k < before.count() implies (#[trigger] advanced.state[k]).phase
            == Phase::Offline by {
            assert(before.state[k].phase == Phase::Offline);
        }
    }
}

/// Bounds without an error are all valid.
proof fn lemma_bounds_valid(name: Seq<char>, bounds: Seq<UnitBounds>, checked: nat)
    requires
        checked <= bounds.len(),
        bounds_error(name, bounds, checked) is None,
    ensures
        forall|k: int| 0 <= k < checked ==> (#[trigger] bounds[k]).valid(),
    decreases checked,
{
    if checked > 0 {
        lemma_bounds_valid(name, bounds, (checked - 1) as nat);
    }
}

/// Something that happens to a group: a whole scan, or a retune, where a
/// refused one changes nothing.
pub enum GroupEvent {
    Scan(GroupScan),
    Retune(Seq<char>, Value),
}

/// The group after some events.
pub open spec fn after_events(group: GroupView, events: Seq<GroupEvent>) -> GroupView
    decreases events.len(),
{
    if events.len() == 0 {
        group
    } else {
        let before = after_events(group, events.drop_last());
        match events.last() {
            GroupEvent::Scan(step) => after_scan(before, step),
            GroupEvent::Retune(parameter, value) => match before.tuned(parameter, value) {
                Ok(tuned) => tuned,
                Err(_) => before,
            },
        }
    }
}

/// Every state that scans and retunes lead to from a built group keeps the
/// invariant: so a leg in progress is inside its window, and the unit that a
/// rotation has banked is still joined, which is what a checkpoint asks.
pub proof fn reachable_states_are_sound(
    name: Seq<char>,
    demand: PointId,
    approve: Option<PointId>,
    units: Seq<BlowerIo>,
    bounds: Seq<UnitBounds>,
    outputs: BlowerOutputs,
    config: BlowerGroupConfig,
    fresh: GroupView,
    events: Seq<GroupEvent>,
)
    requires
        units.len() <= usize::MAX,
        spec_new(name, demand, approve, units, bounds, outputs, config) == Ok::<
            GroupView,
            ParameterErrorView,
        >(fresh),
        forall|k: int|
            0 <= k < events.len() ==> ((#[trigger] events[k]) matches GroupEvent::Scan(step)
                ==> step.scan.fits(fresh)),
    ensures
        ({
            let group = after_events(fresh, events);
            &&& group.wf()
            &&& group == (GroupView {
                name,
                demand,
                approve,
                units,
                outputs,
                ..group
            })
        }),
    decreases events.len(),
{
    if events.len() == 0 {
        lemma_bounds_valid(name, bounds, bounds.len());
    } else {
        let earlier = events.drop_last();
        assert forall|k: int| 0 <= k < earlier.len() implies ((
        #[trigger] earlier[k]) matches GroupEvent::Scan(step) ==> step.scan.fits(fresh)) by {
            assert(earlier[k] == events[k]);
        }
        reachable_states_are_sound(
            name,
            demand,
            approve,
            units,
            bounds,
            outputs,
            config,
            fresh,
            earlier,
        );
        let before = after_events(fresh, earlier);
        match events[events.len() - 1] {
            GroupEvent::Scan(step) => scans_keep_the_invariant(before, step),
            GroupEvent::Retune(parameter, value) => {
                retunes_keep_the_invariant(before, parameter, value);
            },
        }
    }
}

/// How many of some events are scans.
pub open spec fn scan_count(events: Seq<GroupEvent>) -> nat
    decreases events.len(),
{
    if events.len() == 0 {
        0
    } else {
        scan_count(events.drop_last()) + if events.last() is Scan {
            1nat
        } else {
            0
        }
    }
}

/// Whether an event keeps to the checkpoint's integers: a scan is numbered
/// from one and by one of them, and a retune to a whole number is to one of
/// them.
pub open spec fn in_range(event: GroupEvent) -> bool {
    match event {
        GroupEvent::Scan(step) => 1 <= step.tick.0 <= i64::MAX,
        GroupEvent::Retune(_, value) => as_count(value) matches Some(n) ==> n <= i64::MAX,
    }
}

/// Every state that scans and retunes lead to from a built group is one that
/// a checkpoint holds, as long as the periods, the numbers of the scans and
/// how many scans there are keep to the checkpoint's integers and the scans
/// are numbered from one.
pub proof fn reachable_states_are_checkpointable(
    name: Seq<char>,
    demand: PointId,
    approve: Option<PointId>,
    units: Seq<BlowerIo>,
    bounds: Seq<UnitBounds>,
    outputs: BlowerOutputs,
    config: BlowerGroupConfig,
    fresh: GroupView,
    events: Seq<GroupEvent>,
)
    requires
        units.len() <= usize::MAX,
        units.len() <= i64::MAX,
        config.min_run_ticks <= i64::MAX,
        config.min_start_interval_ticks <= i64::MAX,
        config.vent_ticks <= i64::MAX,
        spec_new(name, demand, approve, units, bounds, outputs, config) == Ok::<
            GroupView,
            ParameterErrorView,
        >(fresh),
        forall|k: int|
            0 <= k < events.len() ==> in_range(#[trigger] events[k]) && (
            events[k] matches GroupEvent::Scan(step) ==> step.scan.fits(fresh)),
        scan_count(events) <= i64::MAX,
    ensures
        checkpointable(after_events(fresh, events)),
        forall|i: int|
            0 <= i < units.len() ==> (#[trigger] after_events(fresh, events).state[i]).run_hours
                <= scan_count(events),
    decreases events.len(),
{
    reachable_states_are_sound(
        name,
        demand,
        approve,
        units,
        bounds,
        outputs,
        config,
        fresh,
        events,
    );
    if events.len() > 0 {
        let earlier = events.drop_last();
        let event = events[events.len() - 1];
        assert forall|k: int| 0 <= k < earlier.len() implies in_range(#[trigger] earlier[k]) && (
        earlier[k] matches GroupEvent::Scan(step) ==> step.scan.fits(fresh)) by {
            assert(earlier[k] == events[k]);
        }
        reachable_states_are_checkpointable(
            name,
            demand,
            approve,
            units,
            bounds,
            outputs,
            config,
            fresh,
            earlier,
        );
        reachable_states_are_sound(
            name,
            demand,
            approve,
            units,
            bounds,
            outputs,
            config,
            fresh,
            earlier,
        );
        assert(in_range(event));
        let before = after_events(fresh, earlier);
        let after = after_events(fresh, events);
        match event {
            GroupEvent::Scan(step) => {
                assert forall|i: int| 0 <= i < units.len() implies lasts(
                    before.state[i],
                    #[trigger] after.state[i],
                    step.tick,
                ) by {
                    lemma_scan_lasts(before, step, i);
                }
            },
            GroupEvent::Retune(parameter, value) => {
                assert forall|i: int| 0 <= i < units.len() implies (
                #[trigger] after.state[i]).run_hours == before.state[i].run_hours
                    && after.state[i].started_at == before.state[i].started_at
                    && after.state[i].stopped_at == before.state[i].stopped_at
                    && after.state[i].phase == before.state[i].phase by {}
            },
        }
    }
}

/// A standby that was built like a group, and takes over its checkpoint after
/// any such scans and retunes, is that group: so it drives the same from then
/// on.
pub proof fn standbys_continue_the_group(
    name: Seq<char>,
    demand: PointId,
    approve: Option<PointId>,
    units: Seq<BlowerIo>,
    bounds: Seq<UnitBounds>,
    outputs: BlowerOutputs,
    config: BlowerGroupConfig,
    fresh: GroupView,
    events: Seq<GroupEvent>,
    checkpoint: Table,
)
    requires
        units.len() <= usize::MAX,
        units.len() <= i64::MAX,
        config.min_run_ticks <= i64::MAX,
        config.min_start_interval_ticks <= i64::MAX,
        config.vent_ticks <= i64::MAX,
        spec_new(name, demand, approve, units, bounds, outputs, config) == Ok::<
            GroupView,
            ParameterErrorView,
        >(fresh),
        forall|k: int|
            0 <= k < events.len() ==> in_range(#[trigger] events[k]) && (
            events[k] matches GroupEvent::Scan(step) ==> step.scan.fits(fresh)),
        scan_count(events) <= i64::MAX,
        checkpoint@ == after_events(fresh, events).captured(),
    ensures
        fresh.restored(checkpoint.keys(), checkpoint@) == Ok::<GroupView, StateErrorView>(
            after_events(fresh, events),
        ),
{
    let group = after_events(fresh, events);
    reachable_states_are_checkpointable(
        name,
        demand,
        approve,
        units,
        bounds,
        outputs,
        config,
        fresh,
        events,
    );
    reachable_states_are_sound(
        name,
        demand,
        approve,
        units,
        bounds,
        outputs,
        config,
        fresh,
        events,
    );
    lemma_bounds_valid(name, bounds, bounds.len());
    checkpoint_round_trip(group, fresh, checkpoint);
}

/// What one scan may make of a unit's hours and times: at most one more scan
/// run, times that stood or are this scan's, and a unit that is not offline
/// either was not before or has just been started.
spec fn lasts(before: BlowerState, after: BlowerState, tick: Tick) -> bool {
    &&& after.run_hours <= before.run_hours + 1
    &&& after.started_at == before.started_at || after.started_at == tick.0
    &&& after.stopped_at == before.stopped_at || after.stopped_at == tick.0
    &&& after.phase != Phase::Offline ==> before.phase != Phase::Offline || after.started_at
        == tick.0
}

proof fn lemma_scan_lasts(group: GroupView, step: GroupScan, i: int)
    requires
        group.wf(),
        step.scan.fits(group),
        0 <= i < group.count(),
    ensures
        lasts(group.state[i], after_scan(group, step).state[i], step.tick),
{
    let (scan, tick) = (step.scan, step.tick);
    let advanced = group.advanced(scan, tick);
    scans_keep_the_invariant(group, step);
    assert(group.state_after(scan, tick)[i] == group.state[i].advanced(
        scan.units[i],
        group.demand_after(scan.demand),
        group.config.vent_ticks,
        tick,
    ));
    assert(lasts(group.state[i], group.state_after(scan, tick)[i], tick));
    assert(lasts(group.state[i], advanced.state[i], tick));
    lemma_join_pick(advanced, scan, tick);
    lemma_depart_pick_fits(advanced, tick);
    if after_scan(group, step).state[i] != advanced.state[i] {
        match advanced.request(scan, step.up_limit, step.down_limit, tick)->0 {
            Request::StageUp(unit) => assert(unit == i),
            Request::StageDown(unit) => assert(unit == i),
            Request::Rotate(join, _) => assert(join == i),
        }
    }
}

/// Every bound's name leads back to its unit and its bound, so every
/// declared bound can be addressed.
pub proof fn bound_names_read_back(index: nat, units: int)
    requires
        1 <= index <= units <= usize::MAX,
    ensures
        bound_named(min_flow_name(index), units) == Some((index - 1, BoundEntry::MinFlow)),
        bound_named(max_flow_name(index), units) == Some((index - 1, BoundEntry::MaxFlow)),
        bound_named(max_current_name(index), units) == Some((index - 1, BoundEntry::MaxCurrent)),
{
    reveal_strlit("unit_");
    reveal_strlit("_min_flow");
    reveal_strlit("_max_flow");
    reveal_strlit("_max_current");
    decimal_reads_back(index);
    lemma_bound_named(index, "_min_flow"@);
    lemma_bound_named(index, "_max_flow"@);
    lemma_bound_named(index, "_max_current"@);
    let lowest = decimal(index) + "_min_flow"@;
    let highest = decimal(index) + "_max_flow"@;
    let current = decimal(index) + "_max_current"@;
    let n = decimal(index).len() as int;
    assert(before_suffix(highest, "_min_flow"@) is None) by {
        assert(highest.skip(highest.len() - 9)[2] == highest[n + 2]);
        assert(highest[n + 2] == 'a');
        assert("_min_flow"@[2] == 'i');
    }
    assert(current[current.len() - 1] == 't');
    assert(current.skip(current.len() - 9)[8] == 't');
}

proof fn lemma_bound_named(index: nat, suffix: Seq<char>)
    ensures
        after_prefix("unit_"@ + decimal(index) + suffix, "unit_"@) == Some(
            decimal(index) + suffix,
        ),
        before_suffix(decimal(index) + suffix, suffix) == Some(decimal(index)),
{
    reveal_strlit("unit_");
    let name = "unit_"@ + decimal(index) + suffix;
    let rest = decimal(index) + suffix;
    assert(name.take(5) == "unit_"@);
    assert(name.skip(5) == rest);
    assert(rest.take(rest.len() - suffix.len()) == decimal(index));
    assert(rest.skip(rest.len() - suffix.len()) == suffix);
}

proof fn lemma_leading_described(leading: Seq<ParameterView>, done: nat)
    ensures
        leading.is_prefix_of(unit_parameters(leading, done)),
    decreases done,
{
    if done > 0 {
        lemma_leading_described(leading, (done - 1) as nat);
    }
}

proof fn lemma_unit_parameter(leading: Seq<ParameterView>, done: nat, i: int) -> (unit: nat)
    requires
        leading.len() <= i < unit_parameters(leading, done).len(),
    ensures
        1 <= unit <= done,
        ({
            let name = unit_parameters(leading, done)[i].name;
            ||| name == min_flow_name(unit)
            ||| name == max_flow_name(unit)
            ||| name == max_current_name(unit)
        }),
    decreases done,
{
    let earlier = unit_parameters(leading, (done - 1) as nat);
    if i < earlier.len() {
        assert(unit_parameters(leading, done)[i] == earlier[i]);
        lemma_unit_parameter(leading, (done - 1) as nat, i)
    } else {
        done
    }
}

proof fn lemma_unit_described(leading: Seq<ParameterView>, done: nat, unit: nat)
    requires
        1 <= unit <= done,
    ensures
        ({
            let described = unit_parameters(leading, done);
            &&& describes_parameter(described, min_flow_name(unit))
            &&& describes_parameter(described, max_flow_name(unit))
            &&& describes_parameter(described, max_current_name(unit))
        }),
    decreases done,
{
    let earlier = unit_parameters(leading, (done - 1) as nat);
    let described = unit_parameters(leading, done);
    let at = earlier.len() as int;
    if unit < done {
        lemma_unit_described(leading, (done - 1) as nat, unit);
        assert forall|name: Seq<char>| describes_parameter(earlier, name) implies
            #[trigger] describes_parameter(described, name) by {
            let i = choose|i: int| 0 <= i < earlier.len() && (#[trigger] earlier[i]).name == name;
            assert(described[i] == earlier[i]);
        }
    } else {
        assert(described[at].name == min_flow_name(done));
        assert(described[at + 1].name == max_flow_name(done));
        assert(described[at + 2].name == max_current_name(done));
    }
}

proof fn lemma_bounds_agree(
    name: Seq<char>,
    a: Map<Seq<char>, Value>,
    b: Map<Seq<char>, Value>,
    leading: Seq<ParameterView>,
    units: nat,
    done: nat,
)
    requires
        done <= units,
        agree_on(unit_parameters(leading, units), a, b),
    ensures
        read_bounds(name, a, done) == read_bounds(name, b, done),
    decreases done,
{
    if done > 0 {
        lemma_bounds_agree(name, a, b, leading, units, (done - 1) as nat);
        lemma_unit_described(leading, units, done);
    }
}

proof fn lemma_bounds_declared(
    name: Seq<char>,
    parameters: Map<Seq<char>, Value>,
    done: nat,
    unit: nat,
)
    requires
        1 <= unit <= done,
        read_bounds(name, parameters, done) is Ok,
    ensures
        field(parameters, min_flow_name(unit)) is Some,
        field(parameters, max_flow_name(unit)) is Some,
        field(parameters, max_current_name(unit)) is Some,
    decreases done,
{
    if unit < done {
        lemma_bounds_declared(name, parameters, (done - 1) as nat, unit);
    }
}

/// Building reads exactly the described parameters: whatever else is
/// declared makes no difference, and without one of them nothing is built.
pub proof fn building_reads_the_described(
    group: GroupView,
    a: Map<Seq<char>, Value>,
    b: Map<Seq<char>, Value>,
    i: int,
)
    ensures
        ({
            let described = group.description().parameters;
            let from_a = spec_from_parameters(
                group.name,
                group.demand,
                group.approve,
                group.units,
                group.outputs,
                a,
            );
            let from_b = spec_from_parameters(
                group.name,
                group.demand,
                group.approve,
                group.units,
                group.outputs,
                b,
            );
            &&& agree_on(described, a, b) ==> from_a == from_b
            &&& 0 <= i < described.len() && field(a, described[i].name) is None ==> from_a is Err
        }),
{
    let described = group.description().parameters;
    let leading = group.leading_parameters();
    let units = group.units.len();
    let indexed = unit_parameters(leading, units);
    let at = indexed.len() as int;
    lemma_leading_described(leading, units);
    assert(leading[0].name == "staging_authority"@);
    assert(leading[1].name == "stage_up"@);
    assert(leading[2].name == "stage_down"@);
    assert(leading[3].name == "min_run_ticks"@);
    assert(leading[4].name == "min_start_interval_ticks"@);
    assert(described[at].name == "vent_ticks"@);
    assert(described[at + 1].name == "rotation"@);
    assert(forall|k: int| 0 <= k < at ==> #[trigger] described[k] == indexed[k]);
    assert(forall|k: int| 0 <= k < leading.len() ==> #[trigger] indexed[k] == leading[k]);
    if agree_on(described, a, b) {
        assert forall|k: int| 0 <= k < at implies field(a, (#[trigger] indexed[k]).name) == field(
            b,
            indexed[k].name,
        ) by {
            assert(described[k] == indexed[k]);
        }
        assert forall|k: int| 0 <= k < leading.len() implies field(a, (#[trigger] leading[k]).name)
            == field(b, leading[k].name) by {
            assert(described[k] == indexed[k]);
        }
        lemma_bounds_agree(group.name, a, b, leading, units, units);
    }
    if 0 <= i < described.len() && field(a, described[i].name) is None {
        if leading.len() <= i < at && read_bounds(group.name, a, units) is Ok {
            let unit = lemma_unit_parameter(leading, units, i);
            lemma_bounds_declared(group.name, a, units, unit);
        }
    }
}

/// Every described parameter is known to a retune: none of them is refused
/// as unknown.
pub proof fn tuning_knows_the_described(group: GroupView, parameter: Seq<char>, value: Value)
    requires
        group.wf(),
        describes_parameter(group.description().parameters, parameter),
    ensures
        group.tuned(parameter, value) != Err::<GroupView, CommandErrorView>(
            spec_unknown_parameter(group.name, parameter),
        ),
{
    let described = group.description().parameters;
    let leading = group.leading_parameters();
    let units = group.units.len();
    let indexed = unit_parameters(leading, units);
    let i = choose|i: int|
        0 <= i < described.len() && (#[trigger] described[i]).name == parameter;
    lemma_leading_described(leading, units);
    if i < indexed.len() {
        assert(described[i] == indexed[i]);
        if i < leading.len() {
            assert(indexed[i] == leading[i]);
        } else {
            let unit = lemma_unit_parameter(leading, units, i);
            bound_names_read_back(unit, group.count());
        }
    }
}

/// A checkpoint holds the tuning under the names of its parameters, with the
/// bounds of unit `n`, the demand and the approval, the two units of a rotation,
/// counted from one, or zero, and the run state of unit `n`: the code of its
/// phase, the scans of its leg, its hours, when it started and stopped, and its
/// place in the join order, counted from one, or zero.
pub proof fn checkpoints_hold_the_state(group: GroupView, n: nat, p: int)
    requires
        group.wf(),
        1 <= n <= group.count(),
    ensures
        ({
            let held = group.captured();
            let config = group.config;
            let bounds = group.bounds[n - 1];
            let unit = group.state[n - 1];
            &&& held["staging_authority"@] == Value::Int(
                match config.staging_authority {
                    StagingAuthority::Automatic => 0,
                    StagingAuthority::OperatorApproval => 1,
                    StagingAuthority::FlagOnly => 2,
                },
            )
            &&& held["stage_up"@] == Value::Float(config.stage_up)
            &&& held["stage_down"@] == Value::Float(config.stage_down)
            &&& held["min_run_ticks"@] == Value::Int(config.min_run_ticks as i64)
            &&& held["min_start_interval_ticks"@] == Value::Int(
                config.min_start_interval_ticks as i64,
            )
            &&& held["vent_ticks"@] == Value::Int(config.vent_ticks as i64)
            &&& held["rotation"@] == Value::Int(
                match config.rotation {
                    BlowerRotation::NoRotation => 0,
                    BlowerRotation::EqualizeRuntime => 1,
                    BlowerRotation::FixedOrder => 2,
                },
            )
            &&& held["last_demand"@] == Value::Float(group.last_demand)
            &&& held["approve_used"@] == Value::Bool(group.approve_used)
            &&& group.pair is None ==> held["rotation_join"@] == Value::Int(0)
                && held["rotation_depart"@] == Value::Int(0)
            &&& group.pair matches Some((join, depart)) ==> held["rotation_join"@] == Value::Int(
                (join + 1) as i64,
            ) && held["rotation_depart"@] == Value::Int((depart + 1) as i64)
            &&& held[min_flow_name(n)] == Value::Float(bounds.min_flow)
            &&& held[max_flow_name(n)] == Value::Float(bounds.max_flow)
            &&& held[max_current_name(n)] == Value::Float(bounds.max_current)
            &&& held[spec_numbered("phase_"@, n)] == Value::Int(
                match unit.phase {
                    Phase::Offline => 0,
                    Phase::Joining => 1,
                    Phase::Joined => 2,
                    Phase::Departing => 3,
                },
            )
            &&& held[spec_numbered("phase_ticks_"@, n)] == Value::Int(unit.phase_ticks as i64)
            &&& held[spec_numbered("run_hours_"@, n)] == Value::Int(unit.run_hours as i64)
            &&& held[spec_numbered("started_at_"@, n)] == Value::Int(unit.started_at as i64)
            &&& held[spec_numbered("stopped_at_"@, n)] == Value::Int(unit.stopped_at as i64)
            &&& !(unit.phase is Joined) ==> held[spec_numbered("join_rank_"@, n)] == Value::Int(0)
            &&& 0 <= p < group.order.len() && group.order[p] == n - 1 ==> held[spec_numbered(
                "join_rank_"@,
                n,
            )] == Value::Int((p + 1) as i64)
        }),
{
    lemma_group_fields(group);
    lemma_bounds_fields(group, n);
    let all = group.state.len();
    lemma_with_units_at(base(group), group.state, group.order, all, 0, n);
    lemma_with_units_at(base(group), group.state, group.order, all, 1, n);
    lemma_with_units_at(base(group), group.state, group.order, all, 2, n);
    lemma_with_units_at(base(group), group.state, group.order, all, 3, n);
    lemma_with_units_at(base(group), group.state, group.order, all, 4, n);
    lemma_with_units_at(base(group), group.state, group.order, all, 5, n);
    let index = (n - 1) as usize;
    assert(group.order.contains(index) <==> group.state[n - 1].phase == Phase::Joined);
    if 0 <= p < group.order.len() && group.order[p] == index {
        assert(group.order.contains(index));
        assert(group.order[group.order.index_of(index)] == group.order[p]);
    }
}

} // verus!
