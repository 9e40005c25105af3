//! How a blower group is built, retuned, described and restored, in terms of
//! what is declared.

use crate::blower_group::{
    BlowerGroupConfig, BlowerRotation, BlowerState, Phase, StagingAuthority, UnitBounds,
};
use crate::blower_laws::bound_names_read_back;
use crate::blower_model::{
    bounds_error, first_gap, group_names, insert_ranked, max_current_name, max_flow_name,
    min_flow_name, ranked, read_bounds, restored_bounds, restored_units, spec_from_parameters,
    unit_names, unit_parameters, unit_roles, GroupView,
};
use crate::describe::{Direction, ParameterRange, ParameterView, PortRole, RequirementView};
use crate::float::Float;
use crate::params::{
    spec_required_f64, spec_required_u64, spec_tune_f64, spec_tune_u64, ParameterErrorView,
};
use crate::table::{bool_field, count_field, float_field, int_field, known_fields, StateErrorView};
use crate::text::{decimal, spec_numbered};
use crate::value::{PointId, Value, ValueKind};
use vstd::prelude::*;

verus! {

/// The names of a unit's bounds: `unit_`, the unit's number, counted from one,
/// and the bound.
pub proof fn bounds_are_named_by_unit(n: nat)
    ensures
        min_flow_name(n) == "unit_"@ + decimal(n) + "_min_flow"@,
        max_flow_name(n) == "unit_"@ + decimal(n) + "_max_flow"@,
        max_current_name(n) == "unit_"@ + decimal(n) + "_max_current"@,
{
}

/// Whether the bounds of a unit can stand: all three finite and not below zero,
/// and neither limit below the floor.
pub open spec fn bounds_stand(bounds: UnitBounds) -> bool {
    let zero = Float { bits: 0 };
    &&& bounds.min_flow.finite() && zero.le(bounds.min_flow)
    &&& bounds.max_flow.finite() && bounds.min_flow.le(bounds.max_flow)
    &&& bounds.max_current.finite() && bounds.min_flow.le(bounds.max_current)
}

proof fn lemma_bounds_read(
    name: Seq<char>,
    parameters: Map<Seq<char>, Value>,
    bounds: Seq<UnitBounds>,
)
    ensures
        read_bounds(name, parameters, bounds.len()) == Ok::<Seq<UnitBounds>, ParameterErrorView>(
            bounds,
        ) <==> forall|k: int|
            0 <= k < bounds.len() ==> unit_is_read(name, parameters, #[trigger] bounds[k], k),
    decreases bounds.len(),
{
    let read = read_bounds(name, parameters, bounds.len());
    if bounds.len() == 0 {
        assert(bounds =~= Seq::<UnitBounds>::empty());
    } else {
        let fewer = bounds.drop_last();
        let last = bounds.last();
        lemma_bounds_read(name, parameters, fewer);
        lemma_bounds_length(name, parameters, fewer.len());
        assert(fewer.push(last) == bounds);
        if read == Ok::<Seq<UnitBounds>, ParameterErrorView>(bounds) {
            let before = read_bounds(name, parameters, fewer.len())->Ok_0;
            assert(before == read->Ok_0.drop_last());
            assert(before == fewer);
            assert forall|k: int| 0 <= k < bounds.len() implies unit_is_read(
                name,
                parameters,
                #[trigger] bounds[k],
                k,
            ) by {
                if k < fewer.len() {
                    assert(fewer[k] == bounds[k]);
                } else {
                    assert(read->Ok_0.last() == last);
                }
            }
        }
        if forall|k: int|
            0 <= k < bounds.len() ==> unit_is_read(name, parameters, #[trigger] bounds[k], k) {
            assert forall|k: int| 0 <= k < fewer.len() implies unit_is_read(
                name,
                parameters,
                #[trigger] fewer[k],
                k,
            ) by {
                assert(fewer[k] == bounds[k]);
            }
            assert(unit_is_read(name, parameters, bounds[bounds.len() - 1], bounds.len() - 1));
        }
    }
}

proof fn lemma_bounds_length(name: Seq<char>, parameters: Map<Seq<char>, Value>, read: nat)
    ensures
        read_bounds(name, parameters, read) matches Ok(bounds) ==> bounds.len() == read,
    decreases read,
{
    if read > 0 {
        lemma_bounds_length(name, parameters, (read - 1) as nat);
    }
}

/// Whether the bounds are those that the parameters declare for unit `k`, counted
/// from zero.
pub open spec fn unit_is_read(
    name: Seq<char>,
    parameters: Map<Seq<char>, Value>,
    bounds: UnitBounds,
    k: int,
) -> bool {
    let n = (k + 1) as nat;
    &&& spec_required_f64(name, parameters, min_flow_name(n)) == Ok::<Float, ParameterErrorView>(
        bounds.min_flow,
    )
    &&& spec_required_f64(name, parameters, max_flow_name(n)) == Ok::<Float, ParameterErrorView>(
        bounds.max_flow,
    )
    &&& spec_required_f64(name, parameters, max_current_name(n)) == Ok::<Float, ParameterErrorView>(
        bounds.max_current,
    )
}

proof fn lemma_bounds_checked(name: Seq<char>, bounds: Seq<UnitBounds>, checked: nat)
    requires
        checked <= bounds.len(),
    ensures
        bounds_error(name, bounds, checked) is None <==> forall|k: int|
            0 <= k < checked ==> bounds_stand(#[trigger] bounds[k]),
    decreases checked,
{
    if checked > 0 {
        lemma_bounds_checked(name, bounds, (checked - 1) as nat);
        assert(UnitBounds::spec_checked(name, checked, bounds[checked - 1]) is Ok <==> bounds_stand(
            bounds[checked - 1],
        ));
    }
}

/// A group is built exactly where it has a unit, every parameter is declared,
/// the codes select something, the thresholds are finite and not below zero, the
/// window is at least one scan, every unit's bounds can stand, and an approval
/// point is wired where the authority goes by approval. It runs under the
/// declared values, with every unit offline and never run, nothing joined, no
/// rotation, no approval used and no demand.
pub proof fn building_takes_the_declared(
    given: GroupView,
    built: GroupView,
    parameters: Map<Seq<char>, Value>,
)
    ensures
        ({
            let name = given.name;
            let config = built.config;
            let zero = Float { bits: 0 };
            spec_from_parameters(
                name,
                given.demand,
                given.approve,
                given.units,
                given.outputs,
                parameters,
            ) == Ok::<GroupView, ParameterErrorView>(built) <==> {
                &&& given.units.len() > 0
                &&& spec_required_u64(name, parameters, "staging_authority"@) == Ok::<
                    u64,
                    ParameterErrorView,
                >(
                    match config.staging_authority {
                        StagingAuthority::Automatic => 0,
                        StagingAuthority::OperatorApproval => 1,
                        StagingAuthority::FlagOnly => 2,
                    },
                )
                &&& spec_required_f64(name, parameters, "stage_up"@) == Ok::<
                    Float,
                    ParameterErrorView,
                >(config.stage_up)
                &&& spec_required_f64(name, parameters, "stage_down"@) == Ok::<
                    Float,
                    ParameterErrorView,
                >(config.stage_down)
                &&& spec_required_u64(name, parameters, "min_run_ticks"@) == Ok::<
                    u64,
                    ParameterErrorView,
                >(config.min_run_ticks)
                &&& spec_required_u64(name, parameters, "min_start_interval_ticks"@) == Ok::<
                    u64,
                    ParameterErrorView,
                >(config.min_start_interval_ticks)
                &&& spec_required_u64(name, parameters, "vent_ticks"@) == Ok::<
                    u64,
                    ParameterErrorView,
                >(config.vent_ticks)
                &&& spec_required_u64(name, parameters, "rotation"@) == Ok::<
                    u64,
                    ParameterErrorView,
                >(
                    match config.rotation {
                        BlowerRotation::NoRotation => 0,
                        BlowerRotation::EqualizeRuntime => 1,
                        BlowerRotation::FixedOrder => 2,
                    },
                )
                &&& config.stage_up.finite() && zero.le(config.stage_up)
                &&& config.stage_down.finite() && zero.le(config.stage_down)
                &&& config.vent_ticks >= 1
                &&& config.staging_authority is OperatorApproval ==> given.approve is Some
                &&& built.bounds.len() == given.units.len()
                &&& forall|k: int|
                    0 <= k < built.bounds.len() ==> unit_is_read(
                        name,
                        parameters,
                        #[trigger] built.bounds[k],
                        k,
                    ) && bounds_stand(built.bounds[k])
                &&& built.name == name && built.demand == given.demand
                &&& built.approve == given.approve && built.units == given.units
                &&& built.outputs == given.outputs
                &&& built.state.len() == given.units.len()
                &&& forall|k: int|
                    0 <= k < built.state.len() ==> (#[trigger] built.state[k]) == (BlowerState {
                        phase: Phase::Offline,
                        phase_ticks: 0,
                        run_hours: 0,
                        started_at: 0,
                        stopped_at: 0,
                    })
                &&& built.order.len() == 0 && built.pair is None && !built.approve_used
                &&& built.last_demand == zero
            }
        }),
{
    let name = given.name;
    let made = spec_from_parameters(
        name,
        given.demand,
        given.approve,
        given.units,
        given.outputs,
        parameters,
    );
    let units = given.units.len();
    lemma_bounds_length(name, parameters, units);
    if let Ok(bounds) = read_bounds(name, parameters, units) {
        lemma_bounds_read(name, parameters, bounds);
        lemma_bounds_checked(name, bounds, bounds.len());
        if made is Ok {
            let fresh = made->Ok_0;
            assert(fresh.bounds == bounds);
            assert forall|k: int| 0 <= k < fresh.bounds.len() implies unit_is_read(
                name,
                parameters,
                #[trigger] fresh.bounds[k],
                k,
            ) && bounds_stand(fresh.bounds[k]) by {
                assert(unit_is_read(name, parameters, bounds[k], k));
                assert(bounds_stand(bounds[k]));
            }
        }
    }
    if built.bounds.len() == units && forall|k: int|
        0 <= k < built.bounds.len() ==> unit_is_read(
            name,
            parameters,
            #[trigger] built.bounds[k],
            k,
        ) && bounds_stand(built.bounds[k]) {
        lemma_bounds_read(name, parameters, built.bounds);
        lemma_bounds_checked(name, built.bounds, built.bounds.len());
        if made is Ok {
            let fresh = made->Ok_0;
            assert(fresh.bounds == built.bounds);
            if built.state.len() == units && forall|k: int|
                0 <= k < built.state.len() ==> (#[trigger] built.state[k]) == (BlowerState {
                    phase: Phase::Offline,
                    phase_ticks: 0,
                    run_hours: 0,
                    started_at: 0,
                    stopped_at: 0,
                }) {
                assert(fresh.state =~= built.state);
            }
            if built.order.len() == 0 {
                assert(fresh.order =~= built.order);
            }
        }
    }
}

/// A retune of a setting sets it to the given value and nothing else: a code
/// that selects something, an approval only where its point is wired, a
/// threshold that is finite and not below zero, a number of scans, and a window
/// of at least one. A window shortens the legs in progress to one scan less, so
/// that they end inside it. Any other value is refused.
pub proof fn retunes_set_the_named_setting(group: GroupView, value: Value, i: int)
    ensures
        ({
            let code = spec_tune_u64(group.name, "staging_authority"@, value);
            let tuned = group.tuned("staging_authority"@, value);
            &&& tuned is Ok <==> code is Ok && code->Ok_0 <= 2 && (code->Ok_0 == 1
                ==> group.approve is Some)
            &&& tuned is Ok ==> {
                let authority = tuned->Ok_0.config.staging_authority;
                &&& authority is Automatic <==> code->Ok_0 == 0
                &&& authority is OperatorApproval <==> code->Ok_0 == 1
                &&& authority is FlagOnly <==> code->Ok_0 == 2
                &&& tuned->Ok_0 == (GroupView {
                    config: BlowerGroupConfig { staging_authority: authority, ..group.config },
                    ..group
                })
            }
        }),
        ({
            let read = spec_tune_f64(group.name, "stage_up"@, value);
            let tuned = group.tuned("stage_up"@, value);
            &&& tuned is Ok <==> read is Ok && read->Ok_0.finite() && (Float { bits: 0 }).le(
                read->Ok_0,
            )
            &&& tuned is Ok ==> tuned->Ok_0 == (GroupView {
                config: BlowerGroupConfig { stage_up: read->Ok_0, ..group.config },
                ..group
            })
        }),
        ({
            let read = spec_tune_f64(group.name, "stage_down"@, value);
            let tuned = group.tuned("stage_down"@, value);
            &&& tuned is Ok <==> read is Ok && read->Ok_0.finite() && (Float { bits: 0 }).le(
                read->Ok_0,
            )
            &&& tuned is Ok ==> tuned->Ok_0 == (GroupView {
                config: BlowerGroupConfig { stage_down: read->Ok_0, ..group.config },
                ..group
            })
        }),
        ({
            let read = spec_tune_u64(group.name, "min_run_ticks"@, value);
            let tuned = group.tuned("min_run_ticks"@, value);
            &&& tuned is Ok <==> read is Ok
            &&& tuned is Ok ==> tuned->Ok_0 == (GroupView {
                config: BlowerGroupConfig { min_run_ticks: read->Ok_0, ..group.config },
                ..group
            })
        }),
        ({
            let read = spec_tune_u64(group.name, "min_start_interval_ticks"@, value);
            let tuned = group.tuned("min_start_interval_ticks"@, value);
            &&& tuned is Ok <==> read is Ok
            &&& tuned is Ok ==> tuned->Ok_0 == (GroupView {
                config: BlowerGroupConfig { min_start_interval_ticks: read->Ok_0, ..group.config },
                ..group
            })
        }),
        ({
            let read = spec_tune_u64(group.name, "rotation"@, value);
            let tuned = group.tuned("rotation"@, value);
            &&& tuned is Ok <==> read is Ok && read->Ok_0 <= 2
            &&& tuned is Ok ==> {
                let rotation = tuned->Ok_0.config.rotation;
                &&& rotation is NoRotation <==> read->Ok_0 == 0
                &&& rotation is EqualizeRuntime <==> read->Ok_0 == 1
                &&& rotation is FixedOrder <==> read->Ok_0 == 2
                &&& tuned->Ok_0 == (GroupView {
                    config: BlowerGroupConfig { rotation, ..group.config },
                    ..group
                })
            }
        }),
        ({
            let read = spec_tune_u64(group.name, "vent_ticks"@, value);
            let tuned = group.tuned("vent_ticks"@, value);
            &&& tuned is Ok <==> read is Ok && read->Ok_0 >= 1
            &&& tuned is Ok ==> {
                let after = tuned->Ok_0;
                let before = group.state[i];
                let leg = before.phase is Joining || before.phase is Departing;
                &&& after == (GroupView {
                    config: BlowerGroupConfig { vent_ticks: read->Ok_0, ..group.config },
                    state: after.state,
                    ..group
                })
                &&& after.state.len() == group.state.len()
                &&& 0 <= i < group.state.len() && leg && before.phase_ticks >= read->Ok_0
                    ==> after.state[i] == (BlowerState {
                    phase_ticks: (read->Ok_0 - 1) as u64,
                    ..before
                })
                &&& 0 <= i < group.state.len() && !(leg && before.phase_ticks >= read->Ok_0)
                    ==> after.state[i] == before
            }
        }),
{
    reveal_strlit("staging_authority");
    reveal_strlit("stage_up");
    reveal_strlit("stage_down");
    reveal_strlit("min_run_ticks");
    reveal_strlit("min_start_interval_ticks");
    reveal_strlit("vent_ticks");
    reveal_strlit("rotation");
    assert("staging_authority"@.len() == 17);
    assert("stage_up"@.len() == 8);
    assert("stage_down"@.len() == 10);
    assert("min_run_ticks"@.len() == 13);
    assert("min_start_interval_ticks"@.len() == 24);
    assert("vent_ticks"@.len() == 10);
    assert("rotation"@.len() == 8);
    assert("stage_down"@[0] != "vent_ticks"@[0]);
    assert("stage_up"@[0] != "rotation"@[0]);
}

/// A retune of a unit's bound sets that bound to the given value and nothing
/// else, where the value is finite and not below zero and the unit's bounds stay
/// in order; any other value is refused.
pub proof fn retunes_set_the_named_bound(group: GroupView, value: Value, n: nat)
    requires
        group.wf(),
        1 <= n <= group.count(),
    ensures
        ({
            let bounds = group.bounds[n - 1];
            let read = spec_tune_f64(group.name, min_flow_name(n), value);
            let tuned = group.tuned(min_flow_name(n), value);
            let next = UnitBounds { min_flow: read->Ok_0, ..bounds };
            &&& tuned is Ok <==> read is Ok && bounds_stand(next)
            &&& tuned is Ok ==> tuned->Ok_0 == (GroupView {
                bounds: group.bounds.update(n - 1, next),
                ..group
            })
        }),
        ({
            let bounds = group.bounds[n - 1];
            let read = spec_tune_f64(group.name, max_flow_name(n), value);
            let tuned = group.tuned(max_flow_name(n), value);
            let next = UnitBounds { max_flow: read->Ok_0, ..bounds };
            &&& tuned is Ok <==> read is Ok && bounds_stand(next)
            &&& tuned is Ok ==> tuned->Ok_0 == (GroupView {
                bounds: group.bounds.update(n - 1, next),
                ..group
            })
        }),
        ({
            let bounds = group.bounds[n - 1];
            let read = spec_tune_f64(group.name, max_current_name(n), value);
            let tuned = group.tuned(max_current_name(n), value);
            let next = UnitBounds { max_current: read->Ok_0, ..bounds };
            &&& tuned is Ok <==> read is Ok && bounds_stand(next)
            &&& tuned is Ok ==> tuned->Ok_0 == (GroupView {
                bounds: group.bounds.update(n - 1, next),
                ..group
            })
        }),
{
    assert(group.bounds[n - 1].valid());
    bound_names_read_back(n, group.count());
    lemma_bound_heads(n);
}

/// No name of a bound is the name of a setting.
proof fn lemma_bound_heads(n: nat)
    ensures
        min_flow_name(n) != "staging_authority"@ && min_flow_name(n) != "stage_up"@,
        min_flow_name(n) != "stage_down"@ && min_flow_name(n) != "min_run_ticks"@,
        min_flow_name(n) != "min_start_interval_ticks"@ && min_flow_name(n) != "vent_ticks"@,
        min_flow_name(n) != "rotation"@,
        max_flow_name(n) != "staging_authority"@ && max_flow_name(n) != "stage_up"@,
        max_flow_name(n) != "stage_down"@ && max_flow_name(n) != "min_run_ticks"@,
        max_flow_name(n) != "min_start_interval_ticks"@ && max_flow_name(n) != "vent_ticks"@,
        max_flow_name(n) != "rotation"@,
        max_current_name(n) != "staging_authority"@ && max_current_name(n) != "stage_up"@,
        max_current_name(n) != "stage_down"@ && max_current_name(n) != "min_run_ticks"@,
        max_current_name(n) != "min_start_interval_ticks"@,
        max_current_name(n) != "vent_ticks"@ && max_current_name(n) != "rotation"@,
{
    reveal_strlit("unit_");
    reveal_strlit("staging_authority");
    reveal_strlit("stage_up");
    reveal_strlit("stage_down");
    reveal_strlit("min_run_ticks");
    reveal_strlit("min_start_interval_ticks");
    reveal_strlit("vent_ticks");
    reveal_strlit("rotation");
    assert("unit_"@[0] == 'u');
    assert(min_flow_name(n)[0] == 'u');
    assert(max_flow_name(n)[0] == 'u');
    assert(max_current_name(n)[0] == 'u');
    assert("staging_authority"@[0] == 's' && "stage_up"@[0] == 's' && "stage_down"@[0] == 's');
    assert("min_run_ticks"@[0] == 'm' && "min_start_interval_ticks"@[0] == 'm');
    assert("vent_ticks"@[0] == 'v' && "rotation"@[0] == 'r');
}

/// Whether a checkpoint holds the bounds of unit `k`, counted from zero.
pub open spec fn holds_bounds(
    fields: Map<Seq<char>, Value>,
    name: Seq<char>,
    bounds: UnitBounds,
    k: int,
) -> bool {
    let n = (k + 1) as nat;
    &&& float_field(fields, name, min_flow_name(n)) == Ok::<Float, StateErrorView>(bounds.min_flow)
    &&& float_field(fields, name, max_flow_name(n)) == Ok::<Float, StateErrorView>(bounds.max_flow)
    &&& float_field(fields, name, max_current_name(n)) == Ok::<Float, StateErrorView>(
        bounds.max_current,
    )
}

/// Whether a checkpoint holds the run state of unit `k`, counted from zero, and
/// its rank.
pub open spec fn holds_unit(
    fields: Map<Seq<char>, Value>,
    name: Seq<char>,
    unit: BlowerState,
    rank: int,
    k: int,
) -> bool {
    let n = (k + 1) as nat;
    &&& int_field(fields, name, spec_numbered("phase_"@, n)) == Ok::<i64, StateErrorView>(
        match unit.phase {
            Phase::Offline => 0,
            Phase::Joining => 1,
            Phase::Joined => 2,
            Phase::Departing => 3,
        },
    )
    &&& count_field(fields, name, spec_numbered("phase_ticks_"@, n)) == Ok::<u64, StateErrorView>(
        unit.phase_ticks,
    )
    &&& count_field(fields, name, spec_numbered("run_hours_"@, n)) == Ok::<u64, StateErrorView>(
        unit.run_hours,
    )
    &&& count_field(fields, name, spec_numbered("started_at_"@, n)) == Ok::<u64, StateErrorView>(
        unit.started_at,
    )
    &&& count_field(fields, name, spec_numbered("stopped_at_"@, n)) == Ok::<u64, StateErrorView>(
        unit.stopped_at,
    )
    &&& int_field(fields, name, spec_numbered("join_rank_"@, n)) matches Ok(held) && held == rank
}

proof fn lemma_bounds_held(fields: Map<Seq<char>, Value>, name: Seq<char>, done: nat)
    ensures
        restored_bounds(fields, name, done) matches Ok(bounds) ==> bounds.len() == done && forall|
            k: int,
        |
            0 <= k < done ==> holds_bounds(fields, name, #[trigger] bounds[k], k) && bounds_stand(
                bounds[k],
            ),
    decreases done,
{
    if done > 0 {
        lemma_bounds_held(fields, name, (done - 1) as nat);
        if let Ok(bounds) = restored_bounds(fields, name, done) {
            let earlier = restored_bounds(fields, name, (done - 1) as nat)->Ok_0;
            assert forall|k: int| 0 <= k < done implies holds_bounds(
                fields,
                name,
                #[trigger] bounds[k],
                k,
            ) && bounds_stand(bounds[k]) by {
                if k < done - 1 {
                    assert(bounds[k] == earlier[k]);
                }
            }
        }
    }
}

proof fn lemma_units_held(
    fields: Map<Seq<char>, Value>,
    name: Seq<char>,
    vent_ticks: u64,
    count: int,
    done: nat,
)
    ensures
        restored_units(fields, name, vent_ticks, count, done) matches Ok(units) ==> units.len()
            == done && forall|k: int|
            0 <= k < done ==> {
                let (unit, rank) = #[trigger] units[k];
                let leg = unit.phase is Joining || unit.phase is Departing;
                &&& holds_unit(fields, name, unit, rank as int, k)
                &&& 0 <= rank <= count && (rank > 0 <==> unit.phase is Joined)
                &&& leg ==> unit.phase_ticks < vent_ticks
                &&& !leg ==> unit.phase_ticks == 0
                &&& !(unit.phase is Offline) ==> unit.started_at > 0
            },
    decreases done,
{
    if done > 0 {
        lemma_units_held(fields, name, vent_ticks, count, (done - 1) as nat);
        if let Ok(units) = restored_units(fields, name, vent_ticks, count, done) {
            let earlier = restored_units(fields, name, vent_ticks, count, (done - 1) as nat)->Ok_0;
            assert forall|k: int| 0 <= k < done implies {
                let (unit, rank) = #[trigger] units[k];
                let leg = unit.phase is Joining || unit.phase is Departing;
                &&& holds_unit(fields, name, unit, rank as int, k)
                &&& 0 <= rank <= count && (rank > 0 <==> unit.phase is Joined)
                &&& leg ==> unit.phase_ticks < vent_ticks
                &&& !leg ==> unit.phase_ticks == 0
                &&& !(unit.phase is Offline) ==> unit.started_at > 0
            } by {
                if k < done - 1 {
                    assert(units[k] == earlier[k]);
                }
            }
        }
    }
}

/// The sorted list pairs each joined unit with its own rank.
proof fn lemma_ranked_pairs(units: Seq<(BlowerState, i64)>, done: nat)
    requires
        done <= units.len() <= usize::MAX,
    ensures
        forall|p: int|
            0 <= p < ranked(units, done).len() ==> {
                let (rank, unit) = #[trigger] ranked(units, done)[p];
                unit < done && units[unit as int].1 == rank && rank > 0
            },
        forall|u: int|
            0 <= u < done && (#[trigger] units[u]).1 > 0 ==> ranked(units, done).contains(
                (units[u].1, u as usize),
            ),
    decreases done,
{
    if done > 0 {
        lemma_ranked_pairs(units, (done - 1) as nat);
        let earlier = ranked(units, (done - 1) as nat);
        let rank = units[done - 1].1;
        let unit = (done - 1) as usize;
        if rank > 0 {
            lemma_inserted_pairs(earlier, rank, unit);
            let after = ranked(units, done);
            assert(after == insert_ranked(earlier, rank, unit));
            assert forall|p: int| 0 <= p < after.len() implies {
                let (rank, unit) = #[trigger] after[p];
                unit < done && units[unit as int].1 == rank && rank > 0
            } by {
                assert(after.contains(after[p]));
                if after[p] != (rank, unit) {
                    assert(earlier.contains(after[p]));
                    let q = earlier.index_of(after[p]);
                    assert(earlier[q] == after[p]);
                }
            }
            assert forall|u: int|
                0 <= u < done && (#[trigger] units[u]).1 > 0 implies after.contains(
                (units[u].1, u as usize),
            ) by {
                if u < done - 1 {
                    assert(earlier.contains((units[u].1, u as usize)));
                }
            }
        }
    }
}

proof fn lemma_inserted_pairs(sorted: Seq<(i64, usize)>, rank: i64, unit: usize)
    ensures
        forall|pair: (i64, usize)| #[trigger]
            insert_ranked(sorted, rank, unit).contains(pair) <==> sorted.contains(pair) || pair == (
                rank,
                unit,
            ),
    decreases sorted.len(),
{
    let after = insert_ranked(sorted, rank, unit);
    if sorted.len() == 0 || sorted.last().0 <= rank {
        assert forall|pair: (i64, usize)| #[trigger] after.contains(pair) <==> sorted.contains(pair)
            || pair == (rank, unit) by {
            assert(after[sorted.len() as int] == (rank, unit));
            if sorted.contains(pair) {
                let q = sorted.index_of(pair);
                assert(after[q] == pair);
            }
            if after.contains(pair) && pair != (rank, unit) {
                let q = after.index_of(pair);
                assert(sorted[q] == pair);
            }
        }
    } else {
        let fewer = sorted.drop_last();
        let last = sorted.last();
        lemma_inserted_pairs(fewer, rank, unit);
        let inner = insert_ranked(fewer, rank, unit);
        assert(after == inner.push(last));
        assert forall|pair: (i64, usize)| #[trigger] after.contains(pair) <==> sorted.contains(pair)
            || pair == (rank, unit) by {
            assert(after[inner.len() as int] == last);
            assert(sorted[sorted.len() - 1] == last);
            if after.contains(pair) && pair != last {
                let q = after.index_of(pair);
                assert(inner[q] == pair);
                assert(inner.contains(pair));
                if pair != (rank, unit) {
                    let r = fewer.index_of(pair);
                    assert(sorted[r] == pair);
                }
            }
            if sorted.contains(pair) && pair != last {
                let r = sorted.index_of(pair);
                assert(fewer[r] == pair);
                assert(inner.contains(pair));
            }
            if inner.contains(pair) {
                let q = inner.index_of(pair);
                assert(after[q] == pair);
            }
            if pair == (rank, unit) {
                assert(inner.contains(pair));
            }
        }
    }
}

proof fn lemma_counted(sorted: Seq<(i64, usize)>, done: nat)
    requires
        done <= sorted.len(),
        first_gap(sorted, done) is None,
    ensures
        forall|p: int| 0 <= p < done ==> (#[trigger] sorted[p]).0 == p + 1,
    decreases done,
{
    if done > 0 {
        lemma_counted(sorted, (done - 1) as nat);
    }
}

/// A checkpoint that a group takes over holds nothing but known names, and the
/// group then stands as the checkpoint says: its tuning, its bounds and its
/// demand as they are held, all of them such as a group can run under; every
/// unit in the held phase, with the held counts and times; the joined units, and
/// no other, in the order of their ranks, which count from one; and the two
/// units of a rotation as they are numbered, the one joining and the other
/// joined.
pub proof fn restores_take_what_is_held(
    group: GroupView,
    keys: Seq<Seq<char>>,
    fields: Map<Seq<char>, Value>,
    k: int,
    p: int,
)
    requires
        group.wf(),
        group.restored(keys, fields) is Ok,
    ensures
        ({
            let taken = group.restored(keys, fields)->Ok_0;
            let name = group.name;
            let config = taken.config;
            let zero = Float { bits: 0 };
            let unit = taken.state[k];
            &&& known_fields(keys, name, unit_names(group_names(), group.units.len())) is Ok
            &&& taken.name == name && taken.units == group.units && taken.outputs == group.outputs
            &&& taken.demand == group.demand && taken.approve == group.approve
            &&& int_field(fields, name, "staging_authority"@) == Ok::<i64, StateErrorView>(
                match config.staging_authority {
                    StagingAuthority::Automatic => 0,
                    StagingAuthority::OperatorApproval => 1,
                    StagingAuthority::FlagOnly => 2,
                },
            )
            &&& config.staging_authority is OperatorApproval ==> group.approve is Some
            &&& float_field(fields, name, "stage_up"@) == Ok::<Float, StateErrorView>(
                config.stage_up,
            )
            &&& float_field(fields, name, "stage_down"@) == Ok::<Float, StateErrorView>(
                config.stage_down,
            )
            &&& config.stage_up.finite() && zero.le(config.stage_up)
            &&& config.stage_down.finite() && zero.le(config.stage_down)
            &&& count_field(fields, name, "min_run_ticks"@) == Ok::<u64, StateErrorView>(
                config.min_run_ticks,
            )
            &&& count_field(fields, name, "min_start_interval_ticks"@) == Ok::<u64, StateErrorView>(
                config.min_start_interval_ticks,
            )
            &&& count_field(fields, name, "vent_ticks"@) == Ok::<u64, StateErrorView>(
                config.vent_ticks,
            )
            &&& config.vent_ticks >= 1
            &&& int_field(fields, name, "rotation"@) == Ok::<i64, StateErrorView>(
                match config.rotation {
                    BlowerRotation::NoRotation => 0,
                    BlowerRotation::EqualizeRuntime => 1,
                    BlowerRotation::FixedOrder => 2,
                },
            )
            &&& float_field(fields, name, "last_demand"@) == Ok::<Float, StateErrorView>(
                taken.last_demand,
            )
            &&& taken.last_demand.finite() && zero.le(taken.last_demand)
            &&& bool_field(fields, name, "approve_used"@) == Ok::<bool, StateErrorView>(
                taken.approve_used,
            )
            &&& taken.bounds.len() == group.units.len() && taken.state.len() == group.units.len()
            &&& 0 <= k < group.units.len() ==> holds_bounds(fields, name, taken.bounds[k], k)
                && bounds_stand(taken.bounds[k])
            &&& 0 <= k < group.units.len() && !(unit.phase is Joined) ==> holds_unit(
                fields,
                name,
                unit,
                0,
                k,
            ) && !taken.order.contains(k as usize)
            &&& 0 <= k < group.units.len() && unit.phase is Joined ==> taken.order.contains(
                k as usize,
            )
            &&& 0 <= p < taken.order.len() ==> {
                let joined = taken.order[p];
                &&& joined < group.units.len()
                &&& holds_unit(fields, name, taken.state[joined as int], p + 1, joined as int)
            }
            &&& taken.pair is None ==> int_field(fields, name, "rotation_join"@) == Ok::<
                i64,
                StateErrorView,
            >(0) && int_field(fields, name, "rotation_depart"@) == Ok::<i64, StateErrorView>(0)
            &&& taken.pair matches Some((join, depart)) ==> {
                &&& join < group.units.len() && depart < group.units.len()
                &&& int_field(fields, name, "rotation_join"@) matches Ok(held) && held == join + 1
                &&& int_field(fields, name, "rotation_depart"@) matches Ok(held) && held == depart
                    + 1
                &&& taken.state[join as int].phase is Joining
                &&& taken.state[depart as int].phase is Joined
            }
        }),
{
    let name = group.name;
    let taken = group.restored(keys, fields)->Ok_0;
    let count = group.count();
    let all = group.units.len();
    lemma_bounds_held(fields, name, all);
    lemma_units_held(fields, name, taken.config.vent_ticks, count, all);
    let units = restored_units(fields, name, taken.config.vent_ticks, count, all)->Ok_0;
    let sorted = ranked(units, units.len());
    lemma_ranked_pairs(units, units.len());
    lemma_counted(sorted, sorted.len());
    assert(taken.order =~= Seq::new(sorted.len(), |q: int| sorted[q].1));
    assert(taken.state =~= Seq::new(units.len(), |q: int| units[q].0));
    if 0 <= k < all {
        let (unit, rank) = units[k];
        assert(taken.state[k] == unit);
        if rank > 0 {
            let at = sorted.index_of((rank, k as usize));
            assert(sorted[at].1 == k);
            assert(taken.order[at] == k);
        } else if taken.order.contains(k as usize) {
            let at = taken.order.index_of(k as usize);
            assert(sorted[at].1 == k);
            assert(units[k].1 == sorted[at].0);
        }
    }
    if 0 <= p < taken.order.len() {
        assert(sorted[p].0 == p + 1);
        let joined = sorted[p].1;
        assert(units[joined as int].1 == p + 1);
        assert(holds_unit(
            fields,
            name,
            units[joined as int].0,
            units[joined as int].1 as int,
            joined as int,
        ));
    }
    if let Some((join, depart)) = taken.pair {
        assert(taken.state[join as int] == units[join as int].0);
        assert(taken.state[depart as int] == units[depart as int].0);
    }
}

/// A port with the given parts.
pub open spec fn wired(
    name: Seq<char>,
    direction: Direction,
    kind: ValueKind,
    point: PointId,
) -> RequirementView {
    RequirementView { name, direction, kind, point }
}

/// What the group is wired by: the demand, the approval where it is wired, for
/// each unit in turn its command, its three feedbacks, its capacity and its
/// vent, and the status of the group. The hints follow the ports one by one.
pub proof fn wiring_is_described(group: GroupView, i: int)
    requires
        0 <= i < group.units.len(),
    ensures
        ({
            let described = group.description();
            let ports = group.requirements();
            let roles = group.roles();
            let lead = if group.approve is Some {
                2int
            } else {
                1
            };
            let n = (i + 1) as nat;
            let at = lead + 6 * i;
            let end = lead + 6 * group.units.len();
            let unit = group.units[i];
            let input = Direction::In;
            let output = Direction::Out;
            let flag = ValueKind::Bool;
            &&& described.name == group.name && described.label == group.name
            &&& described.kind == "blower-group"@
            &&& described.ports.len() == end + 5 && ports.len() == end + 5 && roles.len() == end + 5
            &&& ports[0] == wired("demand"@, input, ValueKind::Float, group.demand)
            &&& roles[0] == ("demand"@, PortRole::Setpoint)
            &&& group.approve is Some ==> ports[1] == wired(
                "approve"@,
                input,
                flag,
                group.approve->0,
            ) && roles[1] == ("approve"@, PortRole::Setpoint)
            &&& ports[at] == wired(spec_numbered("cmd_"@, n), output, flag, unit.cmd)
            &&& ports[at + 1] == wired(spec_numbered("run_"@, n), input, flag, unit.run)
            &&& ports[at + 2] == wired(spec_numbered("fault_"@, n), input, flag, unit.fault)
            &&& ports[at + 3] == wired(spec_numbered("avail_"@, n), input, flag, unit.avail)
            &&& ports[at + 4] == wired(
                spec_numbered("capacity_"@, n),
                output,
                ValueKind::Float,
                unit.capacity,
            )
            &&& ports[at + 5] == wired(spec_numbered("vent_"@, n), output, flag, unit.vent)
            &&& roles[at] == (ports[at].name, PortRole::Output)
            &&& roles[at + 1] == (ports[at + 1].name, PortRole::ProcessValue)
            &&& roles[at + 2] == (ports[at + 2].name, PortRole::ProcessValue)
            &&& roles[at + 3] == (ports[at + 3].name, PortRole::ProcessValue)
            &&& roles[at + 4] == (ports[at + 4].name, PortRole::Output)
            &&& roles[at + 5] == (ports[at + 5].name, PortRole::Output)
            &&& ports[end] == wired("staged"@, output, ValueKind::Int, group.outputs.staged)
            &&& ports[end + 1] == wired(
                "none_available"@,
                output,
                flag,
                group.outputs.none_available,
            )
            &&& ports[end + 2] == wired("all_faulted"@, output, flag, group.outputs.all_faulted)
            &&& ports[end + 3] == wired(
                "staging_pending"@,
                output,
                flag,
                group.outputs.staging_pending,
            )
            &&& ports[end + 4] == wired("transition"@, output, flag, group.outputs.transition)
            &&& roles[end] == ("staged"@, PortRole::Status)
            &&& roles[end + 1] == ("none_available"@, PortRole::Status)
            &&& roles[end + 2] == ("all_faulted"@, PortRole::Status)
            &&& roles[end + 3] == ("staging_pending"@, PortRole::Status)
            &&& roles[end + 4] == ("transition"@, PortRole::Status)
        }),
{
    lemma_unit_wiring(
        group,
        group.leading_ports(),
        group.leading_roles(),
        group.units.len(),
        i,
    );
}

proof fn lemma_unit_wiring(
    group: GroupView,
    leading: Seq<RequirementView>,
    leading_roles: Seq<(Seq<char>, PortRole)>,
    done: nat,
    i: int,
)
    requires
        done <= group.units.len(),
        leading.len() == leading_roles.len(),
    ensures
        ({
            let ports = group.unit_ports(leading, done);
            let roles = unit_roles(leading_roles, done);
            let n = (i + 1) as nat;
            let at = leading.len() + 6 * i;
            let unit = group.units[i];
            let input = Direction::In;
            let output = Direction::Out;
            let flag = ValueKind::Bool;
            &&& ports.len() == leading.len() + 6 * done && roles.len() == ports.len()
            &&& forall|k: int| 0 <= k < leading.len() ==> #[trigger] ports[k] == leading[k]
            &&& forall|k: int| 0 <= k < leading.len() ==> #[trigger] roles[k] == leading_roles[k]
            &&& 0 <= i < done ==> {
                &&& ports[at] == wired(spec_numbered("cmd_"@, n), output, flag, unit.cmd)
                &&& ports[at + 1] == wired(spec_numbered("run_"@, n), input, flag, unit.run)
                &&& ports[at + 2] == wired(spec_numbered("fault_"@, n), input, flag, unit.fault)
                &&& ports[at + 3] == wired(spec_numbered("avail_"@, n), input, flag, unit.avail)
                &&& ports[at + 4] == wired(
                    spec_numbered("capacity_"@, n),
                    output,
                    ValueKind::Float,
                    unit.capacity,
                )
                &&& ports[at + 5] == wired(spec_numbered("vent_"@, n), output, flag, unit.vent)
                &&& roles[at] == (ports[at].name, PortRole::Output)
                &&& roles[at + 1] == (ports[at + 1].name, PortRole::ProcessValue)
                &&& roles[at + 2] == (ports[at + 2].name, PortRole::ProcessValue)
                &&& roles[at + 3] == (ports[at + 3].name, PortRole::ProcessValue)
                &&& roles[at + 4] == (ports[at + 4].name, PortRole::Output)
                &&& roles[at + 5] == (ports[at + 5].name, PortRole::Output)
            }
        }),
    decreases done,
{
    if done > 0 {
        lemma_unit_wiring(group, leading, leading_roles, (done - 1) as nat, i);
    }
}

/// The parameters that the group declares, in order: the authority, the two
/// thresholds and the two periods, the three bounds of each unit in turn, the
/// window and the rotation, each with its kind and its bound.
pub proof fn tuning_is_described(group: GroupView, i: int)
    requires
        0 <= i < group.units.len(),
    ensures
        ({
            let declared = group.description().parameters;
            let n = (i + 1) as nat;
            let at = 5 + 3 * i;
            let end = 5 + 3 * group.count();
            let amount = ParameterRange {
                min: Value::Float(Float { bits: 0 }),
                max: Value::Float(Float { bits: 0x7fef_ffff_ffff_ffff }),
            };
            let code = ParameterRange { min: Value::Int(0), max: Value::Int(2) };
            let period = ParameterRange { min: Value::Int(0), max: Value::Int(i64::MAX) };
            let window = ParameterRange { min: Value::Int(1), max: Value::Int(i64::MAX) };
            &&& declared.len() == end + 2
            &&& declared[0] == described("staging_authority"@, ValueKind::Int, code)
            &&& declared[1] == described("stage_up"@, ValueKind::Float, amount)
            &&& declared[2] == described("stage_down"@, ValueKind::Float, amount)
            &&& declared[3] == described("min_run_ticks"@, ValueKind::Int, period)
            &&& declared[4] == described("min_start_interval_ticks"@, ValueKind::Int, period)
            &&& declared[at] == described(min_flow_name(n), ValueKind::Float, amount)
            &&& declared[at + 1] == described(max_flow_name(n), ValueKind::Float, amount)
            &&& declared[at + 2] == described(max_current_name(n), ValueKind::Float, amount)
            &&& declared[end] == described("vent_ticks"@, ValueKind::Int, window)
            &&& declared[end + 1] == described("rotation"@, ValueKind::Int, code)
        }),
{
    lemma_unit_tuning(group.leading_parameters(), group.units.len(), i);
}

/// A described parameter with the given parts.
pub open spec fn described(
    name: Seq<char>,
    kind: ValueKind,
    range: ParameterRange,
) -> ParameterView {
    ParameterView { name, kind, range: Some(range) }
}

proof fn lemma_unit_tuning(leading: Seq<ParameterView>, done: nat, i: int)
    ensures
        ({
            let declared = unit_parameters(leading, done);
            let n = (i + 1) as nat;
            let at = leading.len() + 3 * i;
            let amount = ParameterRange {
                min: Value::Float(Float { bits: 0 }),
                max: Value::Float(Float { bits: 0x7fef_ffff_ffff_ffff }),
            };
            &&& declared.len() == leading.len() + 3 * done
            &&& forall|k: int| 0 <= k < leading.len() ==> #[trigger] declared[k] == leading[k]
            &&& 0 <= i < done ==> {
                &&& declared[at] == described(min_flow_name(n), ValueKind::Float, amount)
                &&& declared[at + 1] == described(max_flow_name(n), ValueKind::Float, amount)
                &&& declared[at + 2] == described(max_current_name(n), ValueKind::Float, amount)
            }
        }),
    decreases done,
{
    if done > 0 {
        lemma_unit_tuning(leading, (done - 1) as nat, i);
    }
}

} // verus!
