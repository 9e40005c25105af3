//! What a refusal says: the component, and the parameter or the field that it
//! names, bear it out.

use crate::alarm_monitor::AlarmView;
use crate::analog_output::{self, AnalogOutputView};
use crate::backwash_coordinator::{self, CoordinatorView};
use crate::backwash_sequence::BackwashStep;
use crate::blower_group::BlowerState;
use crate::blower_model::{self, bound_entry, bound_named, GroupView};
use crate::bool_gate::GateView;
use crate::bool_latching_alarm::{self, LatchingAlarmView};
use crate::counter::{self, CounterView};
use crate::demand_fallback::{self, FallbackView};
use crate::deviation_monitor::{self, MonitorView};
use crate::digital_input::{self, DigitalInputView};
use crate::edge_trigger::{self, EdgeTriggerView};
use crate::feedforward_sum::{self, SumView};
use crate::params::CommandErrorView;
use crate::sequence_model::{self, entry_named, SequenceView};
use crate::table::{first_unknown, known_fields, StateErrorView};
use crate::text::{
    after_prefix, before_suffix, decimal, index_of, last_position, parts_make_the_text_up,
    the_last_place_holds_the_mark,
};
use crate::value::{Value, ValueKind};
use vstd::prelude::*;

verus! {

/// Whether a refused retune names the component and the parameter, and says of
/// the value what holds of it: only a `Bool` is of the wrong kind.
pub open spec fn names_the_parameter(
    error: CommandErrorView,
    component: Seq<char>,
    parameter: Seq<char>,
    value: Value,
) -> bool {
    match error {
        CommandErrorView::UnknownParameter { component: of, parameter: named } => {
            of == component && named == parameter
        },
        CommandErrorView::ParameterTypeMismatch {
            component: of,
            parameter: named,
            expected,
            found,
        } => {
            &&& of == component && named == parameter
            &&& value is Bool && found == ValueKind::Bool && expected != found
        },
        CommandErrorView::InvalidParameter { component: of, parameter: named, .. } => {
            of == component && named == parameter
        },
    }
}

/// Whether the refusal of a checkpoint names the element and says of the named
/// field what holds of it: it is absent, of the kind that was found and not of
/// the expected one, or carries the value that was refused.
pub open spec fn borne_out(
    error: StateErrorView,
    element: Seq<char>,
    keys: Seq<Seq<char>>,
    fields: Map<Seq<char>, Value>,
) -> bool {
    match error {
        StateErrorView::MissingField { element: of, field } => {
            of == element && !fields.dom().contains(field)
        },
        StateErrorView::UnknownField { element: of, field } => {
            of == element && keys.contains(field)
        },
        StateErrorView::IncompatibleField { element: of, field, expected, found } => {
            &&& of == element && fields.dom().contains(field)
            &&& found != expected && match fields[field] {
                Value::Bool(_) => found == ValueKind::Bool,
                Value::Int(_) => found == ValueKind::Int,
                Value::Float(_) => found == ValueKind::Float,
            }
        },
        StateErrorView::InvalidValue { element: of, field, value } => {
            of == element && fields.dom().contains(field) && fields[field] == value
        },
    }
}

proof fn lemma_unknown_is_there(
    keys: Seq<Seq<char>>,
    element: Seq<char>,
    known: Seq<Seq<char>>,
    fields: Map<Seq<char>, Value>,
)
    ensures
        known_fields(keys, element, known) matches Err(error) ==> borne_out(
            error,
            element,
            keys,
            fields,
        ),
    decreases keys.len(),
{
    if keys.len() > 0 {
        if known.contains(keys[0]) {
            lemma_unknown_is_there(keys.drop_first(), element, known, fields);
            if let Some(field) = first_unknown(keys, known) {
                let k = choose|k: int|
                    0 <= k < keys.len() - 1 && keys.drop_first()[k] == field;
                assert(keys[k + 1] == field);
            }
        } else {
            assert(keys.contains(keys[0]));
        }
    }
}

/// A refused retune of an analog output names it and the parameter, and a `Bool` is
/// refused for its kind, if the parameter is known.
pub proof fn analog_output_retunes_are_refused_by_name(
    analog_output: AnalogOutputView,
    parameter: Seq<char>,
    value: Value,
)
    ensures
        analog_output.tuned(parameter, value) matches Err(error) ==> {
            &&& names_the_parameter(error, analog_output.name, parameter, value)
            &&& value is Bool ==> !(error is InvalidParameter)
        },
{
}

/// A refused retune of a gate names it and the parameter, and a `Bool` is
/// refused for its kind, if the parameter is known.
pub proof fn gate_retunes_are_refused_by_name(
    gate: GateView,
    parameter: Seq<char>,
    value: Value,
)
    ensures
        gate.tuned(parameter, value) matches Err(error) ==> {
            &&& names_the_parameter(error, gate.name, parameter, value)
            &&& value is Bool ==> !(error is InvalidParameter)
        },
{
}

/// A refused retune of a counter names it and the parameter, and a `Bool` is
/// refused for its kind, if the parameter is known.
pub proof fn counter_retunes_are_refused_by_name(
    counter: CounterView,
    parameter: Seq<char>,
    value: Value,
)
    ensures
        counter.tuned(parameter, value) matches Err(error) ==> {
            &&& names_the_parameter(error, counter.name, parameter, value)
            &&& value is Bool ==> !(error is InvalidParameter)
        },
{
}

/// A refused retune of an edge trigger names it and the parameter, and a `Bool` is
/// refused for its kind, if the parameter is known.
pub proof fn edge_trigger_retunes_are_refused_by_name(
    edge_trigger: EdgeTriggerView,
    parameter: Seq<char>,
    value: Value,
)
    ensures
        edge_trigger.tuned(parameter, value) matches Err(error) ==> {
            &&& names_the_parameter(error, edge_trigger.name, parameter, value)
            &&& value is Bool ==> !(error is InvalidParameter)
        },
{
}

/// A refused retune of a demand fallback names it and the parameter, and a `Bool` is
/// refused for its kind, if the parameter is known.
pub proof fn fallback_retunes_are_refused_by_name(
    fallback: FallbackView,
    parameter: Seq<char>,
    value: Value,
)
    ensures
        fallback.tuned(parameter, value) matches Err(error) ==> {
            &&& names_the_parameter(error, fallback.name, parameter, value)
            &&& value is Bool ==> !(error is InvalidParameter)
        },
{
}

/// A refused retune of a deviation monitor names it and the parameter, and a `Bool` is
/// refused for its kind, if the parameter is known.
pub proof fn monitor_retunes_are_refused_by_name(
    monitor: MonitorView,
    parameter: Seq<char>,
    value: Value,
)
    ensures
        monitor.tuned(parameter, value) matches Err(error) ==> {
            &&& names_the_parameter(error, monitor.name, parameter, value)
            &&& value is Bool ==> !(error is InvalidParameter)
        },
{
}

/// A refused retune of a feed-forward sum names it and the parameter, and a `Bool` is
/// refused for its kind, if the parameter is known.
pub proof fn sum_retunes_are_refused_by_name(
    sum: SumView,
    parameter: Seq<char>,
    value: Value,
)
    ensures
        sum.tuned(parameter, value) matches Err(error) ==> {
            &&& names_the_parameter(error, sum.name, parameter, value)
            &&& value is Bool ==> !(error is InvalidParameter)
        },
{
}

/// A refused retune of a coordinator names it and the parameter, and a `Bool` is
/// refused for its kind, if the parameter is known.
pub proof fn coordinator_retunes_are_refused_by_name(
    coordinator: CoordinatorView,
    parameter: Seq<char>,
    value: Value,
)
    ensures
        coordinator.tuned(parameter, value) matches Err(error) ==> {
            &&& names_the_parameter(error, coordinator.name, parameter, value)
            &&& value is Bool ==> !(error is InvalidParameter)
        },
{
}

/// A refused retune of a blower group names it and the parameter, and a `Bool` is
/// refused for its kind, if the parameter is known.
pub proof fn group_retunes_are_refused_by_name(
    group: GroupView,
    parameter: Seq<char>,
    value: Value,
)
    ensures
        group.tuned(parameter, value) matches Err(error) ==> {
            &&& names_the_parameter(error, group.name, parameter, value)
            &&& value is Bool ==> !(error is InvalidParameter)
        },
{
}

/// What the refusal of a checkpoint says of an alarm monitor's fields holds of them.
pub proof fn alarm_checkpoints_are_refused_by_name(
    alarm: AlarmView,
    keys: Seq<Seq<char>>,
    fields: Map<Seq<char>, Value>,
)
    ensures
        alarm.restored(keys, fields) matches Err(error) ==> borne_out(
            error,
            alarm.name,
            keys,
            fields,
        ),
{
    lemma_unknown_is_there(keys, alarm.name, seq!["state"@], fields);
}

/// What the refusal of a checkpoint says of an analog output's fields holds of them.
pub proof fn analog_output_checkpoints_are_refused_by_name(
    analog_output: AnalogOutputView,
    keys: Seq<Seq<char>>,
    fields: Map<Seq<char>, Value>,
)
    ensures
        analog_output.restored(keys, fields) matches Err(error) ==> borne_out(
            error,
            analog_output.name,
            keys,
            fields,
        ),
{
    lemma_unknown_is_there(keys, analog_output.name, analog_output::known_names(), fields);
}

/// What the refusal of a checkpoint says of a gate's fields holds of them.
pub proof fn gate_checkpoints_are_refused_by_name(
    gate: GateView,
    keys: Seq<Seq<char>>,
    fields: Map<Seq<char>, Value>,
)
    ensures
        gate.restored(keys, fields) matches Err(error) ==> borne_out(
            error,
            gate.name,
            keys,
            fields,
        ),
{
    lemma_unknown_is_there(keys, gate.name, seq!["operation"@], fields);
}

/// What the refusal of a checkpoint says of a latching alarm's fields holds of them.
pub proof fn latching_alarm_checkpoints_are_refused_by_name(
    latching_alarm: LatchingAlarmView,
    keys: Seq<Seq<char>>,
    fields: Map<Seq<char>, Value>,
)
    ensures
        latching_alarm.restored(keys, fields) matches Err(error) ==> borne_out(
            error,
            latching_alarm.name,
            keys,
            fields,
        ),
{
    lemma_unknown_is_there(keys, latching_alarm.name, bool_latching_alarm::known_names(), fields);
}

/// What the refusal of a checkpoint says of a counter's fields holds of them.
pub proof fn counter_checkpoints_are_refused_by_name(
    counter: CounterView,
    keys: Seq<Seq<char>>,
    fields: Map<Seq<char>, Value>,
)
    ensures
        counter.restored(keys, fields) matches Err(error) ==> borne_out(
            error,
            counter.name,
            keys,
            fields,
        ),
{
    lemma_unknown_is_there(keys, counter.name, counter::known_names(), fields);
}

/// What the refusal of a checkpoint says of a digital input's fields holds of them.
pub proof fn digital_input_checkpoints_are_refused_by_name(
    digital_input: DigitalInputView,
    keys: Seq<Seq<char>>,
    fields: Map<Seq<char>, Value>,
)
    ensures
        digital_input.restored(keys, fields) matches Err(error) ==> borne_out(
            error,
            digital_input.name,
            keys,
            fields,
        ),
{
    lemma_unknown_is_there(keys, digital_input.name, digital_input::known_names(), fields);
}

/// What the refusal of a checkpoint says of an edge trigger's fields holds of them.
pub proof fn edge_trigger_checkpoints_are_refused_by_name(
    edge_trigger: EdgeTriggerView,
    keys: Seq<Seq<char>>,
    fields: Map<Seq<char>, Value>,
)
    ensures
        edge_trigger.restored(keys, fields) matches Err(error) ==> borne_out(
            error,
            edge_trigger.name,
            keys,
            fields,
        ),
{
    lemma_unknown_is_there(keys, edge_trigger.name, edge_trigger::known_names(), fields);
}

/// What the refusal of a checkpoint says of a demand fallback's fields holds of them.
pub proof fn fallback_checkpoints_are_refused_by_name(
    fallback: FallbackView,
    keys: Seq<Seq<char>>,
    fields: Map<Seq<char>, Value>,
)
    ensures
        fallback.restored(keys, fields) matches Err(error) ==> borne_out(
            error,
            fallback.name,
            keys,
            fields,
        ),
{
    lemma_unknown_is_there(keys, fallback.name, demand_fallback::known_names(), fields);
}

/// What the refusal of a checkpoint says of a deviation monitor's fields holds of them.
pub proof fn monitor_checkpoints_are_refused_by_name(
    monitor: MonitorView,
    keys: Seq<Seq<char>>,
    fields: Map<Seq<char>, Value>,
)
    ensures
        monitor.restored(keys, fields) matches Err(error) ==> borne_out(
            error,
            monitor.name,
            keys,
            fields,
        ),
{
    lemma_unknown_is_there(keys, monitor.name, deviation_monitor::known_names(), fields);
}

/// What the refusal of a checkpoint says of a feed-forward sum's fields holds of them.
pub proof fn sum_checkpoints_are_refused_by_name(
    sum: SumView,
    keys: Seq<Seq<char>>,
    fields: Map<Seq<char>, Value>,
)
    ensures
        sum.restored(keys, fields) matches Err(error) ==> borne_out(
            error,
            sum.name,
            keys,
            fields,
        ),
{
    lemma_unknown_is_there(keys, sum.name, feedforward_sum::known_names(), fields);
}

proof fn lemma_refused_queue(
    fields: Map<Seq<char>, Value>,
    name: Seq<char>,
    keys: Seq<Seq<char>>,
    count: int,
    done: nat,
)
    ensures
        backwash_coordinator::restored_queue(fields, name, count, done) matches Err(error)
            ==> borne_out(error, name, keys, fields),
    decreases done,
{
    if done > 0 {
        lemma_refused_queue(fields, name, keys, count, (done - 1) as nat);
    }
}

/// What the refusal of a checkpoint says of a coordinator's fields holds of
/// them.
pub proof fn coordinator_checkpoints_are_refused_by_name(
    coordinator: CoordinatorView,
    keys: Seq<Seq<char>>,
    fields: Map<Seq<char>, Value>,
)
    ensures
        coordinator.restored(keys, fields) matches Err(error) ==> borne_out(
            error,
            coordinator.name,
            keys,
            fields,
        ),
{
    let name = coordinator.name;
    let count = coordinator.count();
    if let Ok(members) = backwash_coordinator::ranged_field(
        fields,
        name,
        "queued_count"@,
        0,
        count,
    ) {
        let known = backwash_coordinator::queue_names(members as nat);
        lemma_unknown_is_there(keys, name, known, fields);
        lemma_refused_queue(fields, name, keys, count, members as nat);
    }
}

proof fn lemma_refused_steps(
    fields: Map<Seq<char>, Value>,
    name: Seq<char>,
    keys: Seq<Seq<char>>,
    constructed: Seq<BackwashStep>,
    done: nat,
)
    ensures
        sequence_model::restored_steps(fields, name, constructed, done) matches Err(error)
            ==> borne_out(error, name, keys, fields),
    decreases done,
{
    if done > 0 {
        lemma_refused_steps(fields, name, keys, constructed, (done - 1) as nat);
    }
}

/// What the refusal of a checkpoint says of a sequence's fields holds of them.
pub proof fn sequence_checkpoints_are_refused_by_name(
    sequence: SequenceView,
    keys: Seq<Seq<char>>,
    fields: Map<Seq<char>, Value>,
)
    ensures
        sequence.restored(keys, fields) matches Err(error) ==> borne_out(
            error,
            sequence.name,
            keys,
            fields,
        ),
{
    let name = sequence.name;
    let count = sequence.steps.len();
    let known = sequence_model::step_names(sequence_model::sequence_names(), count);
    lemma_unknown_is_there(keys, name, known, fields);
    lemma_refused_steps(fields, name, keys, sequence.steps, count);
}

proof fn lemma_refused_bounds(
    fields: Map<Seq<char>, Value>,
    name: Seq<char>,
    keys: Seq<Seq<char>>,
    done: nat,
)
    ensures
        blower_model::restored_bounds(fields, name, done) matches Err(error) ==> borne_out(
            error,
            name,
            keys,
            fields,
        ),
    decreases done,
{
    if done > 0 {
        lemma_refused_bounds(fields, name, keys, (done - 1) as nat);
    }
}

proof fn lemma_refused_units(
    fields: Map<Seq<char>, Value>,
    name: Seq<char>,
    keys: Seq<Seq<char>>,
    vent_ticks: u64,
    count: int,
    done: nat,
)
    ensures
        match blower_model::restored_units(fields, name, vent_ticks, count, done) {
            Err(error) => borne_out(error, name, keys, fields),
            Ok(units) => units.len() == done && forall|i: int|
                0 <= i < done ==> holds_the_rank(fields, (#[trigger] units[i]).1, i),
        },
    decreases done,
{
    if done > 0 {
        lemma_refused_units(fields, name, keys, vent_ticks, count, (done - 1) as nat);
    }
}

/// Whether a checkpoint carries `rank` for unit `i`, counted from zero.
pub open spec fn holds_the_rank(fields: Map<Seq<char>, Value>, rank: i64, i: int) -> bool {
    let field = "join_rank_"@ + decimal((i + 1) as nat);
    fields.dom().contains(field) && fields[field] == Value::Int(rank)
}

proof fn lemma_inserted(sorted: Seq<(i64, usize)>, rank: i64, unit: usize, p: int)
    requires
        0 <= p <= sorted.len(),
    ensures
        ({
            let inserted = blower_model::insert_ranked(sorted, rank, unit);
            &&& inserted.len() == sorted.len() + 1
            &&& inserted[p] == (rank, unit) || sorted.contains(inserted[p])
        }),
    decreases sorted.len(),
{
    if sorted.len() > 0 {
        let fewer = sorted.drop_last();
        if p < sorted.len() {
            lemma_inserted(fewer, rank, unit, p);
            let inserted = blower_model::insert_ranked(fewer, rank, unit)[p];
            if fewer.contains(inserted) {
                let k = choose|k: int| 0 <= k < fewer.len() && fewer[k] == inserted;
                assert(sorted[k] == inserted);
            }
            assert(sorted.contains(sorted[p]));
        } else {
            lemma_inserted(fewer, rank, unit, 0);
            assert(sorted.contains(sorted.last()));
        }
    }
}

proof fn lemma_ranked(units: Seq<(BlowerState, i64)>, done: nat, p: int)
    requires
        done <= units.len(),
        0 <= p < blower_model::ranked(units, done).len(),
    ensures
        exists|i: int|
            0 <= i < done && (#[trigger] units[i]).1 == blower_model::ranked(units, done)[p].0,
    decreases done,
{
    let fewer = (done - 1) as nat;
    let earlier = blower_model::ranked(units, fewer);
    let found = blower_model::ranked(units, done)[p];
    let rank = units[done - 1].1;
    if rank > 0 {
        lemma_inserted(earlier, rank, (done - 1) as usize, 0);
        lemma_inserted(earlier, rank, (done - 1) as usize, p);
        if earlier.contains(found) {
            let q = choose|q: int| 0 <= q < earlier.len() && earlier[q] == found;
            lemma_ranked(units, fewer, q);
        }
    } else {
        lemma_ranked(units, fewer, p);
    }
}

proof fn lemma_gap(sorted: Seq<(i64, usize)>, done: nat)
    ensures
        blower_model::first_gap(sorted, done) matches Some(rank) ==> exists|p: int|
            0 <= p < done && (#[trigger] sorted[p]).0 == rank,
    decreases done,
{
    if done > 0 {
        lemma_gap(sorted, (done - 1) as nat);
    }
}

/// What the refusal of a checkpoint says of a group's fields holds of them,
/// with two exceptions that concern several fields. A leg of a rotation
/// without the other is refused by the name of the absent leg, with the unit
/// of the present one. Ranks that do not count from one are refused as
/// `join_rank`, with the rank of a unit.
pub proof fn group_checkpoints_are_refused_by_name(
    group: GroupView,
    keys: Seq<Seq<char>>,
    fields: Map<Seq<char>, Value>,
)
    ensures
        group.restored(keys, fields) matches Err(error) ==> {
            ||| borne_out(error, group.name, keys, fields)
            ||| {
                &&& error == (StateErrorView::InvalidValue {
                    element: group.name,
                    field: "rotation_depart"@,
                    value: fields["rotation_join"@],
                })
                &&& fields["rotation_depart"@] == Value::Int(0)
                &&& fields["rotation_join"@] != Value::Int(0)
            }
            ||| {
                &&& error == (StateErrorView::InvalidValue {
                    element: group.name,
                    field: "rotation_join"@,
                    value: fields["rotation_depart"@],
                })
                &&& fields["rotation_join"@] == Value::Int(0)
                &&& fields["rotation_depart"@] != Value::Int(0)
            }
            ||| exists|rank: i64, i: int|
                {
                    &&& 0 <= i < group.units.len() && #[trigger] holds_the_rank(fields, rank, i)
                    &&& error == (StateErrorView::InvalidValue {
                        element: group.name,
                        field: "join_rank"@,
                        value: Value::Int(rank),
                    })
                }
        },
{
    let name = group.name;
    let count = group.units.len();
    let known = blower_model::unit_names(blower_model::group_names(), count);
    lemma_unknown_is_there(keys, name, known, fields);
    lemma_refused_bounds(fields, name, keys, count);
    if let Ok(config) = blower_model::restored_config(fields, name) {
        lemma_refused_units(fields, name, keys, config.vent_ticks, group.count(), count);
        if let Ok(units) = blower_model::restored_units(
            fields,
            name,
            config.vent_ticks,
            group.count(),
            count,
        ) {
            let sorted = blower_model::ranked(units, units.len());
            lemma_gap(sorted, sorted.len());
            if let Some(rank) = blower_model::first_gap(sorted, sorted.len()) {
                let p = choose|p: int| 0 <= p < sorted.len() && (#[trigger] sorted[p]).0 == rank;
                lemma_ranked(units, units.len(), p);
                let i = choose|i: int|
                    0 <= i < units.len() && (#[trigger] units[i]).1 == sorted[p].0;
                assert(holds_the_rank(fields, rank, i));
            }
        }
    }
}

/// A refused retune of a sequence names it and the parameter.
pub proof fn sequence_retunes_are_refused_by_name(
    sequence: SequenceView,
    parameter: Seq<char>,
    value: Value,
)
    ensures
        sequence.tuned(parameter, value) matches Err(error) ==> names_the_parameter(
            error,
            sequence.name,
            parameter,
            value,
        ),
{
}

/// A parameter that is none of a group's settings and names no bound of one of
/// its units is refused as unknown.
pub proof fn group_knows_no_other_parameter(group: GroupView, parameter: Seq<char>, value: Value)
    requires
        parameter != "staging_authority"@ && parameter != "stage_up"@ && parameter != "stage_down"@,
        parameter != "min_run_ticks"@ && parameter != "min_start_interval_ticks"@,
        parameter != "vent_ticks"@ && parameter != "rotation"@,
        forall|number: Seq<char>|
            (#[trigger] index_of(number) matches Some(unit) && 1 <= unit <= group.units.len()) ==> {
                &&& parameter != "unit_"@ + number + "_min_flow"@
                &&& parameter != "unit_"@ + number + "_max_flow"@
                &&& parameter != "unit_"@ + number + "_max_current"@
            },
    ensures
        group.tuned(parameter, value) == Err::<GroupView, CommandErrorView>(
            CommandErrorView::UnknownParameter { component: group.name, parameter },
        ),
{
    if let Some((number, entry)) = bound_entry(parameter) {
        let rest = after_prefix(parameter, "unit_"@)->0;
        parts_make_the_text_up(parameter, "unit_"@, rest);
        parts_make_the_text_up(rest, "_min_flow"@, number);
        parts_make_the_text_up(rest, "_max_flow"@, number);
        parts_make_the_text_up(rest, "_max_current"@, number);
        assert(bound_named(parameter, group.count()) is None) by {
            assert("unit_"@ + (number + "_min_flow"@) =~= "unit_"@ + number + "_min_flow"@);
            assert("unit_"@ + (number + "_max_flow"@) =~= "unit_"@ + number + "_max_flow"@);
            assert("unit_"@ + (number + "_max_current"@) =~= "unit_"@ + number + "_max_current"@);
        }
    }
}

/// A parameter that is none of a sequence's scalars and names no entry of one
/// of its steps is refused as unknown.
pub proof fn sequence_knows_no_other_parameter(
    sequence: SequenceView,
    parameter: Seq<char>,
    value: Value,
)
    requires
        parameter != "auto_start"@ && parameter != "on_fault_policy"@,
        parameter != "abort_step"@ && parameter != "on_fault_step"@ && parameter != "step_count"@,
        forall|number: Seq<char>|
            (#[trigger] index_of(number) matches Some(step) && 1 <= step <= sequence.steps.len())
                ==> {
                &&& parameter != "step_"@ + number + "_ticks"@
                &&& parameter != "step_"@ + number + "_out"@
                &&& parameter != "step_"@ + number + "_advance"@
                &&& parameter != "step_"@ + number + "_bound"@
                &&& parameter != "step_"@ + number + "_meas"@
                &&& parameter != "step_"@ + number + "_on_overrun"@
            },
    ensures
        sequence.tuned(parameter, value) == Err::<SequenceView, CommandErrorView>(
            CommandErrorView::UnknownParameter { component: sequence.name, parameter },
        ),
{
    if let Some((n, entry)) = entry_named(parameter) {
        let rest = after_prefix(parameter, "step_"@)->0;
        parts_make_the_text_up(parameter, "step_"@, rest);
        if let Some(number) = before_suffix(rest, "_on_overrun"@) {
            parts_make_the_text_up(rest, "_on_overrun"@, number);
            assert("step_"@ + (number + "_on_overrun"@) =~= "step_"@ + number + "_on_overrun"@);
            assert(index_of(number) == Some(n));
        } else {
            the_last_place_holds_the_mark(rest, '_');
            let at = last_position(rest, '_')->0;
            let number = rest.take(at);
            let word = rest.skip(at + 1);
            assert(index_of(number) == Some(n));
            reveal_strlit("ticks");
            reveal_strlit("_ticks");
            reveal_strlit("out");
            reveal_strlit("_out");
            reveal_strlit("advance");
            reveal_strlit("_advance");
            reveal_strlit("bound");
            reveal_strlit("_bound");
            reveal_strlit("meas");
            reveal_strlit("_meas");
            assert(parameter =~= "step_"@ + number + (seq!['_'] + word));
            assert(seq!['_'] + "ticks"@ =~= "_ticks"@);
            assert(seq!['_'] + "out"@ =~= "_out"@);
            assert(seq!['_'] + "advance"@ =~= "_advance"@);
            assert(seq!['_'] + "bound"@ =~= "_bound"@);
            assert(seq!['_'] + "meas"@ =~= "_meas"@);
        }
    }
}

} // verus!
