//! What holds of every backwash sequence.

use crate::backwash_sequence::{
    AdvanceMode, AutoStart, BackwashSequenceConfig, BackwashSequenceInputs,
    BackwashSequenceOutputs, BackwashStep, FaultPolicy, OverrunPolicy, SequenceReadings, StepEntry,
    Triggers,
};
use crate::describe::{agree_on, describes_parameter, ParameterView};
use crate::float::Float;
use crate::params::{spec_unknown_parameter, CommandErrorView, ParameterErrorView};
use crate::sequence_model::{
    entry_name, entry_named, entry_word, phase_writes, read_config, read_count, read_step,
    read_steps, restored_config, restored_steps, sequence_names, spec_from_parameters, spec_new,
    step_names, step_parameters, table_error, with_steps, SequenceView,
};
use crate::table::{field, known_names_pass, StateErrorView, Table};
use crate::text::{
    after_prefix, before_suffix, decimal, decimal_reads_back, digit_value, indexed_name_parts,
    indexed_names_differ, last_position, spec_indexed,
};
use crate::value::{Quality, Reading, Tick, Value, Write};
use vstd::prelude::*;

verus! {

/// Every code names the variant it was taken from, and no other code names
/// one.
pub proof fn sequence_codes_read_back(
    advance: AdvanceMode,
    on_overrun: OverrunPolicy,
    auto_start: AutoStart,
    on_fault: FaultPolicy,
    code: i64,
)
    ensures
        AdvanceMode::spec_decode(advance.spec_code() as int) == Some(advance),
        AdvanceMode::spec_decode(code as int) matches Some(named) ==> named.spec_code() == code,
        OverrunPolicy::spec_decode(on_overrun.spec_code() as int) == Some(on_overrun),
        OverrunPolicy::spec_decode(code as int) matches Some(named) ==> named.spec_code() == code,
        AutoStart::spec_decode(auto_start.spec_code() as int) == Some(auto_start),
        AutoStart::spec_decode(code as int) matches Some(named) ==> named.spec_code() == code,
        FaultPolicy::spec_decode(on_fault.spec_code() as int) == Some(on_fault),
        FaultPolicy::spec_decode(code as int) matches Some(named) ==> named.spec_code() == code,
{
}

/// A scan keeps the invariant, whatever it reads.
pub proof fn scans_keep_the_invariant(
    sequence: SequenceView,
    scan: SequenceReadings,
    meas: Option<Reading<Float>>,
)
    requires
        sequence.wf(),
    ensures
        sequence.after(scan, meas).wf(),
{
    let reported = sequence.transitioned(scan);
    assert(sequence.steps[reported.current as int].valid(sequence.measurements()));
    assert(sequence.steps[0].valid(sequence.measurements()));
    assert(sequence.steps[sequence.config.abort_step as int].valid(sequence.measurements()));
    assert(sequence.steps[sequence.config.on_fault_step as int].valid(sequence.measurements()));
    assert(reported.wf());
}

/// Every scan asserts exactly one phase flag: the one of the step that it
/// reports.
pub proof fn one_phase_at_a_time(
    sequence: SequenceView,
    scan: SequenceReadings,
    meas: Option<Reading<Float>>,
    tick: Tick,
    i: int,
)
    requires
        sequence.wf(),
        0 <= i < sequence.count(),
    ensures
        ({
            let writes = sequence.writes(scan, meas, tick);
            let position = sequence.transitioned(scan).current;
            &&& writes.len() == 9 + sequence.count()
            &&& 0 <= position < sequence.count()
            &&& writes[7] == Write::of(
                sequence.outputs.step,
                Value::Int((position + 1) as i64),
                sequence.write_quality(scan, meas),
                tick,
            )
            &&& writes[9 + i] == Write::of(
                sequence.outputs.phases@[i],
                Value::Bool(i == position),
                sequence.write_quality(scan, meas),
                tick,
            )
        }),
{
    let reported = sequence.transitioned(scan);
    let quality = sequence.write_quality(scan, meas);
    let leading = sequence.after(scan, meas).status_writes(
        reported.stepping(scan),
        reported.overruns(scan, reported.satisfied(meas)),
        reported.current,
        reported.step().value,
        quality,
        tick,
    );
    scans_keep_the_invariant(sequence, scan, meas);
    lemma_phase_writes(
        leading,
        sequence.outputs.phases@,
        reported.current as int,
        quality,
        tick,
        sequence.outputs.phases@.len(),
    );
}

proof fn lemma_phase_writes(
    leading: Seq<Write>,
    phases: Seq<crate::value::PointId>,
    position: int,
    quality: Quality,
    tick: Tick,
    done: nat,
)
    ensures
        ({
            let writes = phase_writes(leading, phases, position, quality, tick, done);
            &&& writes.len() == leading.len() + done
            &&& forall|i: int| 0 <= i < leading.len() ==> #[trigger] writes[i] == leading[i]
            &&& forall|i: int|
                0 <= i < done ==> writes[leading.len() + i] == Write::of(
                    #[trigger] phases[i],
                    Value::Bool(i == position),
                    quality,
                    tick,
                )
        }),
    decreases done,
{
    if done > 0 {
        lemma_phase_writes(leading, phases, position, quality, tick, (done - 1) as nat);
    }
}

/// Every scan reports the run: the request, whether the table stepped under
/// the grant, the waiting trigger, how the run ended, a standing overrun, the
/// source, and the value of the reported step. The scan that completes the
/// table still reports its step as stepped.
pub proof fn runs_are_reported(
    sequence: SequenceView,
    scan: SequenceReadings,
    meas: Option<Reading<Float>>,
    tick: Tick,
)
    requires
        sequence.wf(),
    ensures
        ({
            let reported = sequence.transitioned(scan);
            let after = sequence.after(scan, meas);
            let writes = sequence.writes(scan, meas, tick);
            let quality = sequence.write_quality(scan, meas);
            let outputs = sequence.outputs;
            &&& writes[0] == Write::of(outputs.request, Value::Bool(after.armed), quality, tick)
            &&& writes[1] == Write::of(
                outputs.active,
                Value::Bool(reported.stepping(scan)),
                quality,
                tick,
            )
            &&& writes[2] == Write::of(outputs.pending, Value::Bool(after.pending), quality, tick)
            &&& writes[3] == Write::of(outputs.done, Value::Bool(after.completed), quality, tick)
            &&& writes[4] == Write::of(outputs.aborted, Value::Bool(after.aborted), quality, tick)
            &&& writes[5] == Write::of(
                outputs.overrun,
                Value::Bool(reported.overruns(scan, reported.satisfied(meas))),
                quality,
                tick,
            )
            &&& writes[6] == Write::of(
                outputs.trigger_source,
                Value::Int(after.trigger_source),
                quality,
                tick,
            )
            &&& writes[8] == Write::of(
                outputs.out,
                Value::Float(sequence.steps[reported.current as int].value),
                quality,
                tick,
            )
            &&& after.completed && !sequence.completed ==> writes[1].sample.value == Value::Bool(
                true,
            )
        }),
{
    let reported = sequence.transitioned(scan);
    let quality = sequence.write_quality(scan, meas);
    let leading = sequence.after(scan, meas).status_writes(
        reported.stepping(scan),
        reported.overruns(scan, reported.satisfied(meas)),
        reported.current,
        reported.step().value,
        quality,
        tick,
    );
    lemma_phase_writes(
        leading,
        sequence.outputs.phases@,
        reported.current as int,
        quality,
        tick,
        sequence.outputs.phases@.len(),
    );
}

/// A request stands until the table is done or aborted, and drops with
/// either: its drop is what releases the grant.
pub proof fn requests_stand_to_the_end(
    sequence: SequenceView,
    scan: SequenceReadings,
    meas: Option<Reading<Float>>,
)
    requires
        sequence.wf(),
        sequence.armed,
    ensures
        ({
            let after = sequence.after(scan, meas);
            after.armed <==> !after.completed && !after.aborted
        }),
{
}

/// How a step ends in a granted scan in which nothing intervenes: a timed
/// one on its ticks, a measured one on its bound or, where its policy lets
/// it, on its timeout, and a first-of one on whichever comes first. It ends
/// in the next step or, at the end of the table, in the completion.
pub proof fn steps_end_by_their_mode(
    sequence: SequenceView,
    scan: SequenceReadings,
    meas: Option<Reading<Float>>,
)
    requires
        sequence.wf(),
        sequence.armed,
        !sequence.fault_hold,
        undisturbed(scan),
    ensures
        ({
            let step = sequence.step();
            let spent = sequence.elapsed + 1 >= step.bound_ticks();
            let met = sequence.satisfied(meas);
            let ends = match step.advance {
                AdvanceMode::Timed => spent,
                AdvanceMode::Measured => met || (spent && step.on_overrun
                    == OverrunPolicy::Advance),
                AdvanceMode::FirstOf => met || spent,
            };
            let after = sequence.after(scan, meas);
            if !ends {
                after.armed && after.current == sequence.current
            } else if sequence.current < sequence.count() - 1 {
                after.armed && after.current == sequence.current + 1 && after.elapsed == 0
            } else {
                !after.armed && after.completed && after.current == sequence.current
            }
        }),
{
}

/// Everything that a scan drives carries the worst quality of what it read:
/// the control inputs, and the measured one where it was read. So one
/// untrusted input marks all of it.
pub proof fn outputs_carry_the_worst(
    sequence: SequenceView,
    scan: SequenceReadings,
    meas: Option<Reading<Float>>,
    tick: Tick,
    k: int,
)
    requires
        sequence.wf(),
        0 <= k < 9 + sequence.count(),
    ensures
        ({
            let quality = sequence.writes(scan, meas, tick)[k].sample.quality;
            &&& quality.severity() >= scan.trig_time.quality.severity()
            &&& quality.severity() >= scan.trig_headloss.quality.severity()
            &&& quality.severity() >= scan.trig_turbidity.quality.severity()
            &&& quality.severity() >= scan.trig_operator.quality.severity()
            &&& quality.severity() >= scan.grant.quality.severity()
            &&& quality.severity() >= scan.abort.quality.severity()
            &&& quality.severity() >= scan.fault.quality.severity()
            &&& meas matches Some(reading) ==> quality.severity() >= reading.quality.severity()
            &&& quality == Quality::Good <==> scan.trig_time.quality == Quality::Good
                && scan.trig_headloss.quality == Quality::Good && scan.trig_turbidity.quality
                == Quality::Good && scan.trig_operator.quality == Quality::Good
                && scan.grant.quality == Quality::Good && scan.abort.quality == Quality::Good
                && scan.fault.quality == Quality::Good && (meas matches Some(reading)
                ==> reading.quality == Quality::Good)
        }),
{
    let reported = sequence.transitioned(scan);
    let quality = sequence.write_quality(scan, meas);
    let leading = sequence.after(scan, meas).status_writes(
        reported.stepping(scan),
        reported.overruns(scan, reported.satisfied(meas)),
        reported.current,
        reported.step().value,
        quality,
        tick,
    );
    let phases = sequence.outputs.phases@;
    lemma_phase_writes(leading, phases, reported.current as int, quality, tick, phases.len());
    if k >= 9 {
        assert(sequence.writes(scan, meas, tick)[9 + (k - 9)] == Write::of(
            phases[k - 9],
            Value::Bool(k - 9 == reported.current),
            quality,
            tick,
        ));
    }
    assert(sequence.writes(scan, meas, tick)[k].sample.quality == quality);
}

/// `done` and `aborted` never come to stand together, and a standing run has
/// neither.
pub proof fn done_and_aborted_are_distinct(
    sequence: SequenceView,
    scan: SequenceReadings,
    meas: Option<Reading<Float>>,
)
    requires
        sequence.wf(),
        !(sequence.completed && sequence.aborted),
    ensures
        ({
            let after = sequence.after(scan, meas);
            &&& !(after.completed && after.aborted)
            &&& after.armed ==> !after.completed && !after.aborted
        }),
{
}

/// What the status of a sequence that was built, scanned and retuned always
/// obeys: a standing request excludes every other status and has a source,
/// the two ends exclude each other, `done` stands at the end of the table,
/// and a source belongs to a run or to its end.
pub open spec fn status_obeys(sequence: SequenceView) -> bool {
    &&& sequence.armed ==> !sequence.completed && !sequence.aborted && !sequence.pending
    &&& sequence.armed ==> 1 <= sequence.trigger_source <= 4
    &&& !(sequence.completed && sequence.aborted)
    &&& sequence.completed ==> sequence.current == sequence.count() - 1
    &&& 0 <= sequence.trigger_source <= 4
    &&& sequence.trigger_source != 0 ==> sequence.armed || sequence.completed || sequence.aborted
}

/// Something that happens to a sequence: a scan with what it reads, or a
/// retune, where a refused one changes nothing.
pub enum SequenceEvent {
    Scan(SequenceReadings, Option<Reading<Float>>),
    Retune(Seq<char>, Value),
}

/// The sequence after an event.
pub open spec fn after_event(sequence: SequenceView, event: SequenceEvent) -> SequenceView {
    match event {
        SequenceEvent::Scan(scan, meas) => sequence.after(scan, meas),
        SequenceEvent::Retune(parameter, value) => match sequence.tuned(parameter, value) {
            Ok(tuned) => tuned,
            Err(_) => sequence,
        },
    }
}

/// The sequence after some events.
pub open spec fn after_events(sequence: SequenceView, events: Seq<SequenceEvent>) -> SequenceView
    decreases events.len(),
{
    if events.len() == 0 {
        sequence
    } else {
        after_event(after_events(sequence, events.drop_last()), events.last())
    }
}

/// Every state that scans and retunes lead to from a built sequence keeps
/// the invariant and obeys the status rules.
pub proof fn reachable_states_are_sound(
    name: Seq<char>,
    inputs: BackwashSequenceInputs,
    outputs: BackwashSequenceOutputs,
    steps: Seq<BackwashStep>,
    config: BackwashSequenceConfig,
    fresh: SequenceView,
    events: Seq<SequenceEvent>,
)
    requires
        steps.len() <= usize::MAX,
        spec_new(name, inputs, outputs, steps, config) == Ok::<SequenceView, ParameterErrorView>(
            fresh,
        ),
    ensures
        after_events(fresh, events).wf(),
        status_obeys(after_events(fresh, events)),
    decreases events.len(),
{
    if events.len() == 0 {
        lemma_table_valid(name, steps, inputs.meas@.len(), steps.len());
    } else {
        let earlier = events.drop_last();
        reachable_states_are_sound(name, inputs, outputs, steps, config, fresh, earlier);
        let before = after_events(fresh, earlier);
        match events.last() {
            SequenceEvent::Scan(scan, meas) => scans_keep_the_invariant(before, scan, meas),
            SequenceEvent::Retune(parameter, value) => lemma_retune_wf(before, parameter, value),
        }
    }
}

/// A table without an error has only valid steps.
proof fn lemma_table_valid(
    name: Seq<char>,
    steps: Seq<BackwashStep>,
    measurements: nat,
    done: nat,
)
    requires
        done <= steps.len(),
        table_error(name, steps, measurements, done) is None,
    ensures
        forall|i: int| 0 <= i < done ==> (#[trigger] steps[i]).valid(measurements as int),
    decreases done,
{
    if done > 0 {
        lemma_table_valid(name, steps, measurements, (done - 1) as nat);
    }
}

proof fn lemma_retune_wf(sequence: SequenceView, parameter: Seq<char>, value: Value)
    requires
        sequence.wf(),
    ensures
        sequence.tuned(parameter, value) matches Ok::<SequenceView, CommandErrorView>(tuned)
            ==> tuned.wf(),
{
    if let Ok(tuned) = sequence.tuned(parameter, value) {
        assert forall|i: int| 0 <= i < tuned.count() implies (#[trigger] tuned.steps[i]).valid(
            tuned.measurements(),
        ) by {
            assert(sequence.steps[i].valid(sequence.measurements()));
        }
    }
}

/// What a scan of a reachable sequence drives obeys the status rules:
/// `request` excludes `done`, `aborted` and `pending`, and has a source;
/// `done` excludes `aborted` and reports the last step; `active` reports a
/// request or the scan that completes it; `overrun` is raised only while
/// stepping; and the source is a trigger's number, or zero.
pub proof fn status_is_driven_by_rule(
    sequence: SequenceView,
    scan: SequenceReadings,
    meas: Option<Reading<Float>>,
    tick: Tick,
)
    requires
        sequence.wf(),
        status_obeys(sequence),
    ensures
        ({
            let writes = sequence.writes(scan, meas, tick);
            let on = |k: int| writes[k].sample.value == Value::Bool(true);
            let request = on(0);
            let active = on(1);
            let pending = on(2);
            let done = on(3);
            let aborted = on(4);
            let overrun = on(5);
            &&& !(request && (done || aborted || pending))
            &&& !(done && aborted)
            &&& active ==> request || done
            &&& overrun ==> active
            &&& done ==> writes[7].sample.value == Value::Int(sequence.count() as i64)
            &&& status_obeys(sequence.after(scan, meas))
            &&& writes[6].sample.value matches Value::Int(source) && 0 <= source <= 4 && (request
                ==> source != 0)
        }),
{
    let after = sequence.after(scan, meas);
    let reported = sequence.transitioned(scan);
    let quality = sequence.write_quality(scan, meas);
    let leading = after.status_writes(
        reported.stepping(scan),
        reported.overruns(scan, reported.satisfied(meas)),
        reported.current,
        reported.step().value,
        quality,
        tick,
    );
    let phases = sequence.outputs.phases@;
    lemma_phase_writes(leading, phases, reported.current as int, quality, tick, phases.len());
    let writes = sequence.writes(scan, meas, tick);
    assert(writes[6] == leading[6]);
    assert(writes[6].sample.value == Value::Int(after.trigger_source));
    assert(forall|k: int| 0 <= k < 9 ==> #[trigger] writes[k] == leading[k]);
}

/// A trusted abort ends a standing run at the abort step with the request
/// dropped; where none stands it cancels a waiting trigger, and no trigger
/// edge of the same scan counts.
pub proof fn abort_dominates(
    sequence: SequenceView,
    scan: SequenceReadings,
    meas: Option<Reading<Float>>,
)
    requires
        sequence.wf(),
        scan.abort.trusted(),
    ensures
        ({
            let after = sequence.after(scan, meas);
            &&& !after.armed && !after.pending
            &&& sequence.armed ==> after.aborted && !after.completed && after.current
                == sequence.config.abort_step
            &&& !sequence.armed ==> after.current == sequence.current && after.aborted
                == sequence.aborted && after.completed == sequence.completed
        }),
{
}

/// A trigger that was already asserted in the last scan does not arm: a
/// standing trigger cannot chain one wash to the next.
pub proof fn standing_triggers_do_not_arm(
    sequence: SequenceView,
    scan: SequenceReadings,
    meas: Option<Reading<Float>>,
)
    requires
        sequence.wf(),
        !sequence.armed,
        scan.asserted().time ==> sequence.held.time,
        scan.asserted().headloss ==> sequence.held.headloss,
        scan.asserted().turbidity ==> sequence.held.turbidity,
        scan.asserted().operator ==> sequence.held.operator,
    ensures
        !sequence.after(scan, meas).armed,
        sequence.after(scan, meas).pending ==> sequence.pending,
{
}

/// An untrusted trigger, grant, abort or fault reads as released, whatever
/// its value.
pub proof fn untrusted_inputs_do_not_act(sequence: SequenceView, scan: SequenceReadings)
    ensures
        scan.trig_time.quality != Quality::Good ==> !scan.asserted().time,
        scan.trig_headloss.quality != Quality::Good ==> !scan.asserted().headloss,
        scan.trig_turbidity.quality != Quality::Good ==> !scan.asserted().turbidity,
        scan.trig_operator.quality != Quality::Good ==> !scan.asserted().operator,
        scan.grant.quality != Quality::Good ==> !sequence.stepping(scan),
        scan.abort.quality != Quality::Good ==> !scan.abort.trusted(),
        scan.fault.quality != Quality::Good ==> !scan.fault.trusted(),
{
}

/// An untrusted measurement satisfies no bound.
pub proof fn untrusted_measurements_satisfy_nothing(
    sequence: SequenceView,
    reading: Reading<Float>,
)
    requires
        reading.quality != Quality::Good,
    ensures
        !sequence.satisfied(Some(reading)),
{
}

/// Without the grant the table does not move: an armed run that is neither
/// aborted nor faulted keeps its step, its banked count and its request.
pub proof fn no_grant_holds_the_table(
    sequence: SequenceView,
    scan: SequenceReadings,
    meas: Option<Reading<Float>>,
)
    requires
        sequence.wf(),
        sequence.armed,
        !scan.grant.trusted(),
        !scan.abort.trusted(),
        !scan.fault.trusted(),
    ensures
        ({
            let after = sequence.after(scan, meas);
            &&& after.armed && after.current == sequence.current && after.elapsed
                == sequence.elapsed
            &&& !sequence.transitioned(scan).stepping(scan)
        }),
{
}

/// Arming starts from the first step with a clean status, and only the
/// arming changes the attributed source: it stands through the wash and its
/// end.
pub proof fn arming_takes_the_attribution(
    sequence: SequenceView,
    scan: SequenceReadings,
    meas: Option<Reading<Float>>,
)
    requires
        sequence.wf(),
    ensures
        ({
            let reported = sequence.transitioned(scan);
            let after = sequence.after(scan, meas);
            &&& after.trigger_source == reported.trigger_source
            &&& !sequence.armed && reported.armed ==> reported.current == 0 && reported.elapsed
                == 0 && !reported.completed && !reported.aborted && 1 <= reported.trigger_source
                <= 4
            &&& !(!sequence.armed && reported.armed) ==> after.trigger_source
                == sequence.trigger_source
        }),
{
}

/// Simultaneous edges resolve in declaration order, and a released latch
/// arms with the source it captured.
pub proof fn arming_sources(sequence: SequenceView, scan: SequenceReadings)
    requires
        sequence.wf(),
        !sequence.armed,
        !scan.abort.trusted(),
    ensures
        ({
            let reported = sequence.transitioned(scan);
            let edges = scan.asserted().risen(sequence.held);
            let automatic = edges.time || edges.headloss || edges.turbidity;
            let direct = sequence.config.auto_start == AutoStart::Direct;
            &&& sequence.pending ==> reported.armed == edges.operator
            &&& sequence.pending && edges.operator ==> reported.trigger_source
                == sequence.pending_source
            &&& !sequence.pending && edges.time && direct ==> reported.armed
                && reported.trigger_source == 1
            &&& !sequence.pending && edges.headloss && !edges.time && direct ==> reported.armed
                && reported.trigger_source == 2
            &&& !sequence.pending && edges.turbidity && !edges.time && !edges.headloss && direct
                ==> reported.armed && reported.trigger_source == 3
            &&& !sequence.pending && edges.operator && (!direct || !automatic) ==> reported.armed
                && reported.trigger_source == 4
            &&& !sequence.pending && automatic && !edges.operator && !direct ==> !reported.armed
                && reported.pending && 1 <= reported.pending_source <= 3
        }),
{
}

/// Trigger edges during a run are ignored, and so is a fault that already
/// stood: apart from the edge memory, they do not matter while no fault is
/// held.
pub proof fn running_ignores_edges(sequence: SequenceView, scan: SequenceReadings)
    requires
        sequence.wf(),
        sequence.armed,
        !sequence.fault_hold,
        !scan.abort.trusted(),
        scan.fault.trusted() ==> sequence.fault_seen,
    ensures
        sequence.transitioned(scan) == (SequenceView {
            held: scan.asserted(),
            fault_seen: scan.fault.trusted(),
            ..sequence
        }),
{
}

/// A fault that stood before the run was armed, and stands on, does not act:
/// the run goes on as if there were none.
pub proof fn standing_faults_do_not_act(
    sequence: SequenceView,
    arming: SequenceReadings,
    first: Option<Reading<Float>>,
    next: SequenceReadings,
)
    requires
        sequence.wf(),
        !sequence.armed,
        sequence.fault_seen,
        arming.fault.trusted(),
        sequence.after(arming, first).armed,
        !next.abort.trusted(),
        next.fault.trusted(),
    ensures
        ({
            let armed = sequence.after(arming, first);
            let reported = armed.transitioned(next);
            &&& armed.fault_seen && !armed.fault_hold
            &&& reported.armed && reported.fault_seen && !reported.fault_hold
            &&& reported.current == armed.current && reported.elapsed == armed.elapsed
            &&& reported.stepping(next) <==> next.grant.trusted()
        }),
{
}

/// A fault that rises in the scan that arms acts in the next one, where it
/// still stands.
pub proof fn arming_does_not_hide_a_fault(
    sequence: SequenceView,
    arming: SequenceReadings,
    first: Option<Reading<Float>>,
    next: SequenceReadings,
)
    requires
        sequence.wf(),
        !sequence.armed,
        !sequence.fault_seen,
        sequence.after(arming, first).armed,
        !next.abort.trusted(),
        next.fault.trusted(),
    ensures
        ({
            let reported = sequence.after(arming, first).transitioned(next);
            match sequence.config.on_fault_policy {
                FaultPolicy::Hold => reported.fault_hold && reported.current
                    == sequence.config.on_fault_step,
                FaultPolicy::Abort => reported.aborted && !reported.armed && reported.current
                    == sequence.config.abort_step,
            }
        }),
{
}

/// A fault that rises under the hold policy parks the run at the fault step,
/// and a held run stays parked while the fault stands: the request stays, so
/// the grant is kept, and the table does not step.
pub proof fn held_fault_keeps_the_grant(
    sequence: SequenceView,
    scan: SequenceReadings,
    meas: Option<Reading<Float>>,
)
    requires
        sequence.wf(),
        sequence.armed,
        !scan.abort.trusted(),
        scan.fault.trusted(),
        sequence.fault_hold || (!sequence.fault_seen && sequence.config.on_fault_policy
            == FaultPolicy::Hold),
    ensures
        ({
            let after = sequence.after(scan, meas);
            &&& after.armed && after.fault_hold && !after.completed && !after.aborted
            &&& !sequence.fault_hold ==> after.current == sequence.config.on_fault_step
                && after.elapsed == 0
            &&& sequence.fault_hold ==> after.current == sequence.current && after.elapsed
                == sequence.elapsed
            &&& !sequence.transitioned(scan).stepping(scan)
        }),
{
}

/// A fault that rises under the abort policy takes the abort path.
pub proof fn aborting_fault_drops_the_request(
    sequence: SequenceView,
    scan: SequenceReadings,
    meas: Option<Reading<Float>>,
)
    requires
        sequence.wf(),
        sequence.armed,
        !sequence.fault_hold,
        scan.fault.trusted(),
        !sequence.fault_seen,
        sequence.config.on_fault_policy == FaultPolicy::Abort,
    ensures
        ({
            let after = sequence.after(scan, meas);
            &&& !after.armed && after.aborted && !after.completed
            &&& after.current == sequence.config.abort_step
        }),
{
}

/// A held fault ends by the operator's edge once the fault has cleared, or
/// by an abort, and by nothing else.
pub proof fn held_fault_waits_for_the_operator(
    sequence: SequenceView,
    scan: SequenceReadings,
    meas: Option<Reading<Float>>,
)
    requires
        sequence.wf(),
        sequence.fault_hold,
    ensures
        ({
            let resumed = scan.asserted().operator && !sequence.held.operator
                && !scan.fault.trusted();
            sequence.after(scan, meas).fault_hold <==> !scan.abort.trusted() && !resumed
        }),
{
}

/// A measured step under the hold policy does not end before its bound is
/// met, however long it stands, and its banked count stops at its timeout.
pub proof fn held_overrun_waits_for_its_bound(
    sequence: SequenceView,
    scan: SequenceReadings,
    meas: Option<Reading<Float>>,
)
    requires
        sequence.wf(),
        sequence.armed,
        !sequence.fault_hold,
        !scan.abort.trusted(),
        !scan.fault.trusted(),
        sequence.step().advance == AdvanceMode::Measured,
        sequence.step().on_overrun == OverrunPolicy::Hold,
        !sequence.satisfied(meas),
    ensures
        ({
            let after = sequence.after(scan, meas);
            &&& after.armed && after.current == sequence.current
            &&& after.elapsed <= sequence.step().bound_ticks()
        }),
{
}

/// A granted scan in which nothing intervenes.
pub open spec fn undisturbed(scan: SequenceReadings) -> bool {
    scan.grant.trusted() && !scan.abort.trusted() && !scan.fault.trusted()
}

/// The sequence after scans that read no measurement.
pub open spec fn after_all(sequence: SequenceView, scans: Seq<SequenceReadings>) -> SequenceView
    decreases scans.len(),
{
    if scans.len() == 0 {
        sequence
    } else {
        after_all(sequence, scans.drop_last()).after(scans.last(), None)
    }
}

/// A timed step that a run enters lasts exactly its duration in granted
/// scans: it stands with one more scan banked after each earlier one, and
/// the last one ends it, with the request dropped and `done` asserted where
/// it was the final step.
pub proof fn timed_steps_last_their_duration(sequence: SequenceView, scans: Seq<SequenceReadings>)
    requires
        sequence.wf(),
        sequence.armed,
        !sequence.fault_hold,
        sequence.elapsed == 0,
        sequence.step().advance == AdvanceMode::Timed,
        scans.len() <= sequence.step().bound_ticks(),
        forall|i: int| 0 <= i < scans.len() ==> undisturbed(#[trigger] scans[i]),
    ensures
        ({
            let after = after_all(sequence, scans);
            &&& scans.len() < sequence.step().bound_ticks() ==> after.armed && after.current
                == sequence.current && after.elapsed == scans.len()
            &&& scans.len() == sequence.step().bound_ticks() && sequence.current
                < sequence.count() - 1 ==> after.armed && after.current == sequence.current + 1
                && after.elapsed == 0
            &&& scans.len() == sequence.step().bound_ticks() && sequence.current
                == sequence.count() - 1 ==> !after.armed && after.completed && after.current
                == sequence.current
        }),
    decreases scans.len(),
{
    lemma_timed_prefix(sequence, scans);
}

proof fn lemma_timed_prefix(sequence: SequenceView, scans: Seq<SequenceReadings>)
    requires
        sequence.wf(),
        sequence.armed,
        !sequence.fault_hold,
        sequence.elapsed == 0,
        sequence.step().advance == AdvanceMode::Timed,
        scans.len() <= sequence.step().bound_ticks(),
        forall|i: int| 0 <= i < scans.len() ==> undisturbed(#[trigger] scans[i]),
    ensures
        ({
            let after = after_all(sequence, scans);
            &&& after.steps == sequence.steps
            &&& scans.len() < sequence.step().bound_ticks() ==> after.armed && !after.fault_hold
                && after.current == sequence.current && after.elapsed == scans.len()
            &&& scans.len() == sequence.step().bound_ticks() && sequence.current
                < sequence.count() - 1 ==> after.armed && after.current == sequence.current + 1
                && after.elapsed == 0
            &&& scans.len() == sequence.step().bound_ticks() && sequence.current
                == sequence.count() - 1 ==> !after.armed && after.completed && after.current
                == sequence.current
        }),
    decreases scans.len(),
{
    assert(sequence.steps[sequence.current as int].valid(sequence.measurements()));
    if scans.len() > 0 {
        let earlier = scans.drop_last();
        assert forall|i: int| 0 <= i < earlier.len() implies undisturbed(#[trigger] earlier[i]) by {
            assert(earlier[i] == scans[i]);
        }
        lemma_timed_prefix(sequence, earlier);
        assert(undisturbed(scans[scans.len() - 1]));
    }
}

/// Every entry name leads back to its step and its entry, so every declared
/// step parameter can be addressed.
pub proof fn entry_names_read_back(index: nat, entry: StepEntry)
    requires
        index <= usize::MAX,
    ensures
        entry_named(entry_name(index, entry)) == Some((index as usize, entry)),
{
    reveal_strlit("step_");
    reveal_strlit("_ticks");
    reveal_strlit("_out");
    reveal_strlit("_advance");
    reveal_strlit("_bound");
    reveal_strlit("_meas");
    reveal_strlit("_on_overrun");
    reveal_strlit("ticks");
    reveal_strlit("out");
    reveal_strlit("advance");
    reveal_strlit("bound");
    reveal_strlit("meas");
    decimal_reads_back(index);
    let digits = decimal(index);
    let suffix = entry_suffix(entry);
    let name = entry_name(index, entry);
    let rest = digits + suffix;
    assert(name.take(5) == "step_"@);
    assert(name.skip(5) == rest);
    assert(after_prefix(name, "step_"@) == Some(rest));
    if entry == StepEntry::OnOverrun {
        assert(rest.skip(rest.len() - suffix.len()) == suffix);
        assert(rest.take(rest.len() - suffix.len()) == digits);
    } else {
        lemma_last_word(digits, suffix);
        let at = digits.len() as int;
        assert(rest.take(at) == digits);
        assert(rest.skip(at + 1) == suffix.skip(1));
        assert(before_suffix(rest, "_on_overrun"@) is None) by {
            if before_suffix(rest, "_on_overrun"@) is Some {
                let tail = rest.skip(rest.len() - 11);
                assert(tail[10] == 'n');
                assert(rest[rest.len() - 1] == 'n');
                assert(suffix[suffix.len() - 1] == rest[rest.len() - 1]);
            }
        }
        match entry {
            StepEntry::Ticks => {
                assert(suffix.skip(1) == "ticks"@);
            },
            StepEntry::Out => {
                assert(suffix.skip(1) == "out"@);
                assert(entry_word("out"@) == Some(StepEntry::Out));
            },
            StepEntry::Advance => {
                assert(suffix.skip(1) == "advance"@);
            },
            StepEntry::Bound => {
                assert(suffix.skip(1) == "bound"@);
                assert("bound"@[0] != "ticks"@[0]);
            },
            _ => {
                assert(suffix.skip(1) == "meas"@);
            },
        }
    }
}

spec fn entry_suffix(entry: StepEntry) -> Seq<char> {
    match entry {
        StepEntry::Ticks => "_ticks"@,
        StepEntry::Out => "_out"@,
        StepEntry::Advance => "_advance"@,
        StepEntry::Bound => "_bound"@,
        StepEntry::Meas => "_meas"@,
        StepEntry::OnOverrun => "_on_overrun"@,
    }
}

/// Before a word that begins with a mark and holds it nowhere else, the mark
/// stands last where the word begins.
proof fn lemma_last_word(head: Seq<char>, word: Seq<char>)
    requires
        word.len() > 0,
        word[0] == '_',
        forall|i: int| 0 < i < word.len() ==> #[trigger] word[i] != '_',
    ensures
        last_position(head + word, '_') == Some(head.len() as int),
    decreases word.len(),
{
    let text = head + word;
    if word.len() > 1 {
        assert(word[word.len() - 1] != '_');
        assert(text.drop_last() == head + word.drop_last());
        lemma_last_word(head, word.drop_last());
    }
}

/// Whether a checkpoint takes the sequence's status as it stands: a waiting
/// trigger waits under operator release, which a retune while it waits can
/// take away, and the attributed source has a run, an end or a waiting
/// trigger to belong to. Every measured input's number fits the checkpoint's
/// integers.
pub open spec fn checkpointable(sequence: SequenceView) -> bool {
    &&& sequence.measurements() <= i64::MAX
    &&& sequence.pending ==> sequence.config.auto_start == AutoStart::Pending
    &&& sequence.trigger_source != 0 ==> sequence.armed || sequence.completed || sequence.aborted
        || sequence.pending
}

/// Scans and retunes leave the wiring and the shape of the table alone.
proof fn lemma_events_keep(fresh: SequenceView, events: Seq<SequenceEvent>)
    requires
        fresh.wf(),
    ensures
        ({
            let after = after_events(fresh, events);
            &&& after.wf()
            &&& after.name == fresh.name && after.inputs == fresh.inputs && after.outputs
                == fresh.outputs
            &&& same_table(after.steps, fresh.steps)
        }),
    decreases events.len(),
{
    if events.len() > 0 {
        let before = after_events(fresh, events.drop_last());
        lemma_events_keep(fresh, events.drop_last());
        match events.last() {
            SequenceEvent::Scan(scan, meas) => scans_keep_the_invariant(before, scan, meas),
            SequenceEvent::Retune(parameter, value) => {
                lemma_retune_wf(before, parameter, value);
                retunes_keep_the_run(before, parameter, value);
            },
        }
    }
}

/// A standby that was built like a sequence, and takes over its checkpoint
/// after any scans and retunes, is that sequence: so it drives the same from
/// then on. Only where `auto_start` was retuned while a trigger waited is the
/// checkpoint refused.
pub proof fn standbys_continue_the_sequence(
    name: Seq<char>,
    inputs: BackwashSequenceInputs,
    outputs: BackwashSequenceOutputs,
    steps: Seq<BackwashStep>,
    config: BackwashSequenceConfig,
    fresh: SequenceView,
    events: Seq<SequenceEvent>,
    checkpoint: Table,
)
    requires
        steps.len() <= usize::MAX,
        inputs.meas@.len() <= i64::MAX,
        spec_new(name, inputs, outputs, steps, config) == Ok::<SequenceView, ParameterErrorView>(
            fresh,
        ),
        ({
            let sequence = after_events(fresh, events);
            sequence.pending ==> sequence.config.auto_start == AutoStart::Pending
        }),
        checkpoint@ == after_events(fresh, events).captured(),
    ensures
        fresh.restored(checkpoint.keys(), checkpoint@) == Ok::<SequenceView, StateErrorView>(
            after_events(fresh, events),
        ),
{
    let sequence = after_events(fresh, events);
    reachable_states_are_sound(name, inputs, outputs, steps, config, fresh, Seq::empty());
    assert(after_events(fresh, Seq::empty()) == fresh);
    reachable_states_are_sound(name, inputs, outputs, steps, config, fresh, events);
    lemma_events_keep(fresh, events);
    reachable_states_are_checkpointable(sequence);
    checkpoint_round_trip(sequence, fresh, checkpoint);
}

/// A reachable sequence is checkpointable, unless `auto_start` was retuned
/// while a trigger waited.
pub proof fn reachable_states_are_checkpointable(sequence: SequenceView)
    requires
        sequence.wf(),
        status_obeys(sequence),
        sequence.measurements() <= i64::MAX,
        sequence.pending ==> sequence.config.auto_start == AutoStart::Pending,
    ensures
        checkpointable(sequence),
{
}

/// Whether two tables agree in what is fixed at construction.
pub open spec fn same_table(a: Seq<BackwashStep>, b: Seq<BackwashStep>) -> bool {
    &&& a.len() == b.len()
    &&& forall|i: int|
        0 <= i < a.len() ==> {
            let left = #[trigger] a[i];
            let right = b[i];
            &&& left.advance == right.advance
            &&& left.meas == right.meas
            &&& left.on_overrun == right.on_overrun
            &&& left.bound is Some <==> right.bound is Some
        }
}

/// A sequence over the same table that takes over a checkpoint stands where
/// the captured one stood: same tuning, same position, same run, same edge
/// memory.
pub proof fn checkpoint_round_trip(
    sequence: SequenceView,
    standby: SequenceView,
    checkpoint: Table,
)
    requires
        sequence.wf(),
        standby.wf(),
        same_table(sequence.steps, standby.steps),
        checkpointable(sequence),
        checkpoint@ == sequence.captured(),
    ensures
        standby.restored(checkpoint.keys(), checkpoint@) == Ok::<SequenceView, StateErrorView>(
            SequenceView {
                name: standby.name,
                inputs: standby.inputs,
                outputs: standby.outputs,
                ..sequence
            },
        ),
{
    let fields = sequence.captured();
    let name = standby.name;
    let n = sequence.steps.len();
    lemma_names_known(sequence, checkpoint);
    known_names_pass(checkpoint, name, step_names(sequence_names(), n));
    lemma_own_fields(sequence);
    assert(restored_config(fields, name, standby.count()) == Ok::<_, StateErrorView>(
        sequence.config,
    ));
    lemma_steps_restored(sequence, standby, n);
    assert(sequence.steps.take(n as int) == sequence.steps);
    assert(sequence.steps[sequence.current as int].valid(sequence.measurements()));
    lemma_mask_reads_back(sequence.held);
}

proof fn lemma_mask_reads_back(held: Triggers)
    ensures
        0 <= held.mask() < 16,
        Triggers::of_mask(held.mask()) == held,
{
}

/// No name of the sequence's own is the name of a step entry.
proof fn lemma_own_names(i: int, n: nat, entry: StepEntry)
    requires
        0 <= i < 17,
    ensures
        sequence_names()[i] != entry_name(n, entry),
{
    lemma_entry_head(n, entry);
    reveal_strlit("step");
    reveal_strlit("elapsed");
    reveal_strlit("request");
    reveal_strlit("pending");
    reveal_strlit("pending_source");
    reveal_strlit("trigger_source");
    reveal_strlit("done");
    reveal_strlit("aborted");
    reveal_strlit("fault_hold");
    reveal_strlit("overrun");
    reveal_strlit("trigger_held");
    reveal_strlit("fault_seen");
    reveal_strlit("step_count");
    reveal_strlit("auto_start");
    reveal_strlit("abort_step");
    reveal_strlit("on_fault_step");
    reveal_strlit("on_fault_policy");
    let own = sequence_names()[i];
    assert(own.len() <= 5 || own[0] != 's' || own[5] == 'c');
}

proof fn lemma_entry_head(n: nat, entry: StepEntry)
    ensures
        entry_name(n, entry).len() > 5,
        entry_name(n, entry)[0] == 's',
        digit_value(entry_name(n, entry)[5]) is Some,
{
    reveal_strlit("step_");
    let suffix = entry_suffix(entry);
    indexed_name_parts("step_"@, n, suffix);
    crate::text::numbered_name_parts("step_"@, n);
    assert(entry_name(n, entry) == spec_indexed("step_"@, n, suffix));
    assert(entry_name(n, entry)[0] == "step_"@[0]);
    assert(entry_name(n, entry)[5] == crate::text::spec_numbered("step_"@, n)[5]);
}

proof fn lemma_entry_names(m: nat, a: StepEntry, n: nat, b: StepEntry)
    ensures
        entry_name(m, a) == entry_name(n, b) ==> m == n && a == b,
{
    reveal_strlit("_ticks");
    reveal_strlit("_out");
    reveal_strlit("_advance");
    reveal_strlit("_bound");
    reveal_strlit("_meas");
    reveal_strlit("_on_overrun");
    assert("_ticks"@[1] != "_bound"@[1]);
    let left = entry_suffix(a);
    let right = entry_suffix(b);
    if entry_name(m, a) == entry_name(n, b) {
        assert(left[0] == '_' && right[0] == '_');
        indexed_names_differ("step_"@, m, left, n, right);
    }
}

/// Writing the table leaves the sequence's own fields alone.
proof fn lemma_with_steps_own(
    fields: Map<Seq<char>, Value>,
    steps: Seq<BackwashStep>,
    done: nat,
    i: int,
)
    requires
        0 <= i < 17,
    ensures
        field(with_steps(fields, steps, done), sequence_names()[i]) == field(
            fields,
            sequence_names()[i],
        ),
    decreases done,
{
    if done > 0 {
        lemma_with_steps_own(fields, steps, (done - 1) as nat, i);
        lemma_own_names(i, done, StepEntry::Ticks);
        lemma_own_names(i, done, StepEntry::Out);
        lemma_own_names(i, done, StepEntry::Advance);
        lemma_own_names(i, done, StepEntry::Bound);
        lemma_own_names(i, done, StepEntry::Meas);
        lemma_own_names(i, done, StepEntry::OnOverrun);
    }
}

/// What a table puts under an entry of one of its steps.
spec fn entry_value(step: BackwashStep, entry: StepEntry) -> Option<Value> {
    match entry {
        StepEntry::Ticks => Some(Value::Int(step.ticks as i64)),
        StepEntry::Out => Some(Value::Float(step.value)),
        StepEntry::Advance => Some(Value::Int(step.advance.spec_code())),
        StepEntry::Bound => match step.bound {
            Some(bound) => Some(Value::Float(bound)),
            None => None,
        },
        StepEntry::Meas => match step.meas {
            Some(meas) => Some(Value::Int((meas + 1) as i64)),
            None => None,
        },
        StepEntry::OnOverrun => Some(Value::Int(step.on_overrun.spec_code())),
    }
}

/// Writing the table writes each step's entries, into fields that hold none.
proof fn lemma_with_steps_at(
    fields: Map<Seq<char>, Value>,
    steps: Seq<BackwashStep>,
    done: nat,
    n: nat,
    entry: StepEntry,
)
    requires
        field(fields, entry_name(n, entry)) is None,
    ensures
        field(with_steps(fields, steps, done), entry_name(n, entry)) == if 1 <= n <= done {
            entry_value(steps[n - 1], entry)
        } else {
            None
        },
    decreases done,
{
    if done > 0 {
        lemma_with_steps_at(fields, steps, (done - 1) as nat, n, entry);
        lemma_entry_names(n, entry, done, StepEntry::Ticks);
        lemma_entry_names(n, entry, done, StepEntry::Out);
        lemma_entry_names(n, entry, done, StepEntry::Advance);
        lemma_entry_names(n, entry, done, StepEntry::Bound);
        lemma_entry_names(n, entry, done, StepEntry::Meas);
        lemma_entry_names(n, entry, done, StepEntry::OnOverrun);
    }
}

/// What a checkpoint holds under an entry of step `n`.
proof fn lemma_captured_entry(sequence: SequenceView, n: nat, entry: StepEntry)
    requires
        1 <= n <= sequence.steps.len(),
    ensures
        field(sequence.captured(), entry_name(n, entry)) == entry_value(
            sequence.steps[n - 1],
            entry,
        ),
{
    let names = sequence_names();
    assert forall|i: int| 0 <= i < 17 implies #[trigger] names[i] != entry_name(n, entry) by {
        lemma_own_names(i, n, entry);
    }
    assert(names[0] == "step"@ && names[1] == "elapsed"@ && names[2] == "request"@);
    assert(names[3] == "pending"@ && names[4] == "pending_source"@);
    assert(names[5] == "trigger_source"@ && names[6] == "done"@ && names[7] == "aborted"@);
    assert(names[8] == "fault_hold"@ && names[9] == "overrun"@ && names[10] == "trigger_held"@);
    assert(names[11] == "step_count"@ && names[12] == "auto_start"@);
    assert(names[13] == "abort_step"@ && names[14] == "on_fault_step"@);
    assert(names[15] == "on_fault_policy"@ && names[16] == "fault_seen"@);
    lemma_with_steps_at(sequence.scalars(), sequence.steps, sequence.steps.len(), n, entry);
}

/// The sequence's own names are all different.
proof fn lemma_own_distinct()
    ensures
        forall|i: int, j: int|
            0 <= i < j < 17 ==> #[trigger] sequence_names()[i] != #[trigger] sequence_names()[j],
{
    reveal_strlit("step");
    reveal_strlit("elapsed");
    reveal_strlit("request");
    reveal_strlit("pending");
    reveal_strlit("pending_source");
    reveal_strlit("trigger_source");
    reveal_strlit("done");
    reveal_strlit("aborted");
    reveal_strlit("fault_hold");
    reveal_strlit("overrun");
    reveal_strlit("trigger_held");
    reveal_strlit("fault_seen");
    reveal_strlit("step_count");
    reveal_strlit("auto_start");
    reveal_strlit("abort_step");
    reveal_strlit("on_fault_step");
    reveal_strlit("on_fault_policy");
    assert("step"@[0] != "done"@[0]);
    assert("elapsed"@[0] != "request"@[0]);
    assert("elapsed"@[0] != "pending"@[0]);
    assert("elapsed"@[0] != "aborted"@[0]);
    assert("elapsed"@[0] != "overrun"@[0]);
    assert("request"@[0] != "pending"@[0]);
    assert("request"@[0] != "aborted"@[0]);
    assert("request"@[0] != "overrun"@[0]);
    assert("pending"@[0] != "aborted"@[0]);
    assert("pending"@[0] != "overrun"@[0]);
    assert("pending_source"@[0] != "trigger_source"@[0]);
    assert("aborted"@[0] != "overrun"@[0]);
    assert("fault_hold"@[0] != "step_count"@[0]);
    assert("fault_hold"@[0] != "auto_start"@[0]);
    assert("fault_hold"@[0] != "abort_step"@[0]);
    assert("fault_seen"@[0] != "step_count"@[0]);
    assert("fault_seen"@[0] != "auto_start"@[0]);
    assert("fault_seen"@[0] != "abort_step"@[0]);
    assert("fault_seen"@[6] != "fault_hold"@[6]);
    assert("step_count"@[0] != "auto_start"@[0]);
    assert("step_count"@[0] != "abort_step"@[0]);
    assert("auto_start"@[1] != "abort_step"@[1]);
    let names = sequence_names();
    assert(names[0] == "step"@ && names[1] == "elapsed"@ && names[2] == "request"@);
    assert(names[3] == "pending"@ && names[4] == "pending_source"@);
    assert(names[5] == "trigger_source"@ && names[6] == "done"@ && names[7] == "aborted"@);
    assert(names[8] == "fault_hold"@ && names[9] == "overrun"@ && names[10] == "trigger_held"@);
    assert(names[11] == "step_count"@ && names[12] == "auto_start"@);
    assert(names[13] == "abort_step"@ && names[14] == "on_fault_step"@);
    assert(names[15] == "on_fault_policy"@ && names[16] == "fault_seen"@);
    assert forall|i: int, j: int| 0 <= i < j < 17 implies #[trigger] names[i]
        != #[trigger] names[j] by {
        assert(names[i].len() == names[j].len() ==> names[i] != names[j]);
    }
}

/// Putting the run state into fields sets its own names and leaves the
/// scalars' names alone.
proof fn lemma_run_state(sequence: SequenceView, before: Map<Seq<char>, Value>)
    ensures
        ({
            let fields = sequence.with_run_state(before);
            &&& field(fields, "step_count"@) == field(before, "step_count"@)
            &&& field(fields, "auto_start"@) == field(before, "auto_start"@)
            &&& field(fields, "abort_step"@) == field(before, "abort_step"@)
            &&& field(fields, "on_fault_step"@) == field(before, "on_fault_step"@)
            &&& field(fields, "on_fault_policy"@) == field(before, "on_fault_policy"@)
            &&& field(fields, "step"@) == Some(Value::Int((sequence.current + 1) as i64))
            &&& field(fields, "elapsed"@) == Some(Value::Int(sequence.elapsed as i64))
            &&& field(fields, "request"@) == Some(Value::Bool(sequence.armed))
            &&& field(fields, "pending"@) == Some(Value::Bool(sequence.pending))
            &&& field(fields, "pending_source"@) == Some(Value::Int(sequence.pending_source))
            &&& field(fields, "trigger_source"@) == Some(Value::Int(sequence.trigger_source))
            &&& field(fields, "done"@) == Some(Value::Bool(sequence.completed))
            &&& field(fields, "aborted"@) == Some(Value::Bool(sequence.aborted))
            &&& field(fields, "fault_hold"@) == Some(Value::Bool(sequence.fault_hold))
            &&& field(fields, "overrun"@) == Some(Value::Bool(sequence.overrun_stands()))
            &&& field(fields, "trigger_held"@) == Some(Value::Int(sequence.held.mask() as i64))
            &&& field(fields, "fault_seen"@) == Some(Value::Bool(sequence.fault_seen))
        }),
{
    lemma_own_distinct();
    let names = sequence_names();
    assert(names[0] == "step"@ && names[1] == "elapsed"@ && names[2] == "request"@);
    assert(names[3] == "pending"@ && names[4] == "pending_source"@);
    assert(names[5] == "trigger_source"@ && names[6] == "done"@ && names[7] == "aborted"@);
    assert(names[8] == "fault_hold"@ && names[9] == "overrun"@ && names[10] == "trigger_held"@);
    assert(names[11] == "step_count"@ && names[12] == "auto_start"@);
    assert(names[13] == "abort_step"@ && names[14] == "on_fault_step"@);
    assert(names[15] == "on_fault_policy"@ && names[16] == "fault_seen"@);
}

/// What a checkpoint holds under the sequence's own names.
proof fn lemma_own_fields(sequence: SequenceView)
    ensures
        ({
            let fields = sequence.captured();
            let config = sequence.config;
            &&& field(fields, "step_count"@) == Some(Value::Int(sequence.count() as i64))
            &&& field(fields, "auto_start"@) == Some(Value::Int(config.auto_start.spec_code()))
            &&& field(fields, "abort_step"@) == Some(Value::Int((config.abort_step + 1) as i64))
            &&& field(fields, "on_fault_step"@) == Some(
                Value::Int((config.on_fault_step + 1) as i64),
            )
            &&& field(fields, "on_fault_policy"@) == Some(
                Value::Int(config.on_fault_policy.spec_code()),
            )
            &&& field(fields, "step"@) == Some(Value::Int((sequence.current + 1) as i64))
            &&& field(fields, "elapsed"@) == Some(Value::Int(sequence.elapsed as i64))
            &&& field(fields, "request"@) == Some(Value::Bool(sequence.armed))
            &&& field(fields, "pending"@) == Some(Value::Bool(sequence.pending))
            &&& field(fields, "pending_source"@) == Some(Value::Int(sequence.pending_source))
            &&& field(fields, "trigger_source"@) == Some(Value::Int(sequence.trigger_source))
            &&& field(fields, "done"@) == Some(Value::Bool(sequence.completed))
            &&& field(fields, "aborted"@) == Some(Value::Bool(sequence.aborted))
            &&& field(fields, "fault_hold"@) == Some(Value::Bool(sequence.fault_hold))
            &&& field(fields, "overrun"@) == Some(Value::Bool(sequence.overrun_stands()))
            &&& field(fields, "trigger_held"@) == Some(Value::Int(sequence.held.mask() as i64))
            &&& field(fields, "fault_seen"@) == Some(Value::Bool(sequence.fault_seen))
        }),
{
    lemma_scalar_fields(sequence);
    lemma_run_state(sequence, sequence.reported());
}

/// What the table and the scalars put under the scalars' names.
proof fn lemma_scalar_fields(sequence: SequenceView)
    ensures
        ({
            let fields = sequence.reported();
            let config = sequence.config;
            &&& field(fields, "step_count"@) == Some(Value::Int(sequence.count() as i64))
            &&& field(fields, "auto_start"@) == Some(Value::Int(config.auto_start.spec_code()))
            &&& field(fields, "abort_step"@) == Some(Value::Int((config.abort_step + 1) as i64))
            &&& field(fields, "on_fault_step"@) == Some(
                Value::Int((config.on_fault_step + 1) as i64),
            )
            &&& field(fields, "on_fault_policy"@) == Some(
                Value::Int(config.on_fault_policy.spec_code()),
            )
        }),
{
    reveal_strlit("step_count");
    reveal_strlit("auto_start");
    reveal_strlit("abort_step");
    reveal_strlit("on_fault_step");
    reveal_strlit("on_fault_policy");
    assert("step_count"@[0] == 's' && "auto_start"@[0] == 'a' && "abort_step"@[0] == 'a');
    assert("auto_start"@[1] == 'u' && "abort_step"@[1] == 'b');
    let names = sequence_names();
    let n = sequence.steps.len();
    lemma_with_steps_own(sequence.scalars(), sequence.steps, n, 11);
    lemma_with_steps_own(sequence.scalars(), sequence.steps, n, 12);
    lemma_with_steps_own(sequence.scalars(), sequence.steps, n, 13);
    lemma_with_steps_own(sequence.scalars(), sequence.steps, n, 14);
    lemma_with_steps_own(sequence.scalars(), sequence.steps, n, 15);
    assert(names[11] == "step_count"@ && names[12] == "auto_start"@);
    assert(names[13] == "abort_step"@ && names[14] == "on_fault_step"@);
    assert(names[15] == "on_fault_policy"@ && names[16] == "fault_seen"@);
}

proof fn lemma_steps_restored(sequence: SequenceView, standby: SequenceView, done: nat)
    requires
        sequence.wf(),
        sequence.measurements() <= i64::MAX,
        same_table(sequence.steps, standby.steps),
        done <= sequence.steps.len(),
    ensures
        restored_steps(sequence.captured(), standby.name, standby.steps, done) == Ok::<
            Seq<BackwashStep>,
            StateErrorView,
        >(sequence.steps.take(done as int)),
    decreases done,
{
    if done == 0 {
        assert(sequence.steps.take(0) == Seq::<BackwashStep>::empty());
    } else {
        lemma_steps_restored(sequence, standby, (done - 1) as nat);
        assert(sequence.steps[done - 1].valid(sequence.measurements()));
        lemma_captured_entry(sequence, done, StepEntry::Ticks);
        lemma_captured_entry(sequence, done, StepEntry::Out);
        lemma_captured_entry(sequence, done, StepEntry::Advance);
        lemma_captured_entry(sequence, done, StepEntry::Bound);
        lemma_captured_entry(sequence, done, StepEntry::Meas);
        lemma_captured_entry(sequence, done, StepEntry::OnOverrun);
        assert(sequence.steps.take(done as int) == sequence.steps.take(done - 1).push(
            sequence.steps[done - 1],
        ));
    }
}

/// A checkpoint holds no name that the sequence does not know.
proof fn lemma_names_known(sequence: SequenceView, checkpoint: Table)
    requires
        checkpoint@ == sequence.captured(),
    ensures
        forall|key: Seq<char>| #[trigger]
            checkpoint@.dom().contains(key) ==> step_names(
                sequence_names(),
                sequence.steps.len(),
            ).contains(key),
{
    let n = sequence.steps.len();
    let names = sequence_names();
    let known = step_names(names, n);
    lemma_names_grow(names, n);
    assert(names[0] == "step"@ && names[1] == "elapsed"@ && names[2] == "request"@);
    assert(names[3] == "pending"@ && names[4] == "pending_source"@);
    assert(names[5] == "trigger_source"@ && names[6] == "done"@ && names[7] == "aborted"@);
    assert(names[8] == "fault_hold"@ && names[9] == "overrun"@ && names[10] == "trigger_held"@);
    assert(names[11] == "step_count"@ && names[12] == "auto_start"@);
    assert(names[13] == "abort_step"@ && names[14] == "on_fault_step"@);
    assert(names[15] == "on_fault_policy"@ && names[16] == "fault_seen"@);
    assert forall|i: int| 0 <= i < 17 implies known.contains(#[trigger] names[i]) by {
        assert(known[i] == names[i]);
    }
    assert forall|key: Seq<char>| #[trigger] checkpoint@.dom().contains(key) implies known.contains(
        key,
    ) by {
        lemma_steps_dom(sequence.scalars(), sequence.steps, n, n, key);
    }
}

proof fn lemma_names_grow(leading: Seq<Seq<char>>, done: nat)
    ensures
        step_names(leading, done).len() >= leading.len(),
        forall|i: int| 0 <= i < leading.len() ==> #[trigger] step_names(leading, done)[i]
            == leading[i],
    decreases done,
{
    if done > 0 {
        lemma_names_grow(leading, (done - 1) as nat);
    }
}

proof fn lemma_names_hold(leading: Seq<Seq<char>>, n: nat, entry: StepEntry, done: nat)
    requires
        1 <= n <= done,
    ensures
        step_names(leading, done).contains(entry_name(n, entry)),
    decreases done,
{
    let known = step_names(leading, done);
    let earlier = step_names(leading, (done - 1) as nat);
    let k = earlier.len() as int;
    if n == done {
        assert(known[k] == entry_name(n, StepEntry::Ticks));
        assert(known[k + 1] == entry_name(n, StepEntry::Out));
        assert(known[k + 2] == entry_name(n, StepEntry::Advance));
        assert(known[k + 3] == entry_name(n, StepEntry::Bound));
        assert(known[k + 4] == entry_name(n, StepEntry::Meas));
        assert(known[k + 5] == entry_name(n, StepEntry::OnOverrun));
    } else {
        lemma_names_hold(leading, n, entry, (done - 1) as nat);
        let i = earlier.index_of(entry_name(n, entry));
        assert(known[i] == earlier[i]);
    }
}

proof fn lemma_steps_dom(
    fields: Map<Seq<char>, Value>,
    steps: Seq<BackwashStep>,
    done: nat,
    all: nat,
    key: Seq<char>,
)
    requires
        done <= all,
    ensures
        with_steps(fields, steps, done).dom().contains(key) ==> fields.dom().contains(key)
            || step_names(sequence_names(), all).contains(key),
    decreases done,
{
    if done > 0 {
        lemma_names_hold(sequence_names(), done, StepEntry::Ticks, all);
        lemma_names_hold(sequence_names(), done, StepEntry::Out, all);
        lemma_names_hold(sequence_names(), done, StepEntry::Advance, all);
        lemma_names_hold(sequence_names(), done, StepEntry::Bound, all);
        lemma_names_hold(sequence_names(), done, StepEntry::Meas, all);
        lemma_names_hold(sequence_names(), done, StepEntry::OnOverrun, all);
        lemma_steps_dom(fields, steps, (done - 1) as nat, all, key);
    }
}

/// A retune leaves the run alone: position, request, waiting trigger,
/// attribution, ends, fault hold and edge memory stand. Only where the
/// current step's duration becomes no more than its banked count is the count
/// clamped, so that the step is spent at the next stepping scan. The table
/// keeps its shape.
pub proof fn retunes_keep_the_run(sequence: SequenceView, parameter: Seq<char>, value: Value)
    requires
        sequence.wf(),
    ensures
        sequence.tuned(parameter, value) matches Ok::<SequenceView, CommandErrorView>(tuned) ==> {
            &&& tuned == (SequenceView {
                steps: tuned.steps,
                config: tuned.config,
                elapsed: tuned.elapsed,
                ..sequence
            })
            &&& same_table(tuned.steps, sequence.steps)
            &&& tuned.elapsed <= sequence.elapsed
            &&& tuned.elapsed < sequence.elapsed ==> tuned.elapsed + 1
                == tuned.step().bound_ticks() <= sequence.elapsed
        },
{
}

/// The shape of the table is fixed: its length, and how each step advances,
/// what it measures and what it does on an overrun are never retuned.
pub proof fn the_shape_is_fixed(
    sequence: SequenceView,
    value: Value,
    index: nat,
    entry: StepEntry,
)
    requires
        sequence.wf(),
        1 <= index <= sequence.count(),
        entry == StepEntry::Advance || entry == StepEntry::Meas || entry == StepEntry::OnOverrun,
    ensures
        ({
            let count = sequence.tuned("step_count"@, value);
            let shape = sequence.tuned(entry_name(index, entry), value);
            &&& count is Err && count->Err_0 is InvalidParameter
            &&& shape is Err && shape->Err_0 is InvalidParameter
        }),
{
    entry_names_read_back(index, entry);
    lemma_scalar_names("step_count"@);
    reveal_strlit("step_count");
    reveal_strlit("auto_start");
    reveal_strlit("abort_step");
    reveal_strlit("on_fault_step");
    reveal_strlit("on_fault_policy");
    assert("step_count"@[0] == 's');
    assert("auto_start"@[0] != 's' && "abort_step"@[0] != 's');
    assert("on_fault_step"@[0] != 's' && "on_fault_policy"@[0] != 's');
}

proof fn lemma_read_length(
    name: Seq<char>,
    parameters: Map<Seq<char>, Value>,
    measurements: nat,
    done: nat,
)
    ensures
        read_steps(name, parameters, measurements, done) matches Ok(steps) ==> steps.len() == done,
    decreases done,
{
    if done > 0 {
        lemma_read_length(name, parameters, measurements, (done - 1) as nat);
    }
}

proof fn lemma_leading_described(
    leading: Seq<ParameterView>,
    steps: Seq<BackwashStep>,
    measurements: int,
    done: nat,
)
    ensures
        leading.is_prefix_of(step_parameters(leading, steps, measurements, done)),
    decreases done,
{
    if done > 0 {
        lemma_leading_described(leading, steps, measurements, (done - 1) as nat);
    }
}

proof fn lemma_step_described(
    leading: Seq<ParameterView>,
    steps: Seq<BackwashStep>,
    measurements: int,
    done: nat,
    index: nat,
)
    requires
        1 <= index <= done <= steps.len(),
    ensures
        ({
            let described = step_parameters(leading, steps, measurements, done);
            let step = steps[index - 1];
            &&& describes_parameter(described, entry_name(index, StepEntry::Ticks))
            &&& describes_parameter(described, entry_name(index, StepEntry::Out))
            &&& describes_parameter(described, entry_name(index, StepEntry::Advance))
            &&& describes_parameter(described, entry_name(index, StepEntry::OnOverrun))
            &&& step.bound is Some ==> describes_parameter(
                described,
                entry_name(index, StepEntry::Bound),
            )
            &&& step.meas is Some ==> describes_parameter(
                described,
                entry_name(index, StepEntry::Meas),
            )
        }),
    decreases done,
{
    let described = step_parameters(leading, steps, measurements, done);
    let earlier = step_parameters(leading, steps, measurements, (done - 1) as nat);
    let at = earlier.len() as int;
    assert(forall|i: int| 0 <= i < earlier.len() ==> #[trigger] described[i] == earlier[i]);
    if index < done {
        lemma_step_described(leading, steps, measurements, (done - 1) as nat, index);
        assert forall|name: Seq<char>| describes_parameter(earlier, name) implies
            #[trigger] describes_parameter(described, name) by {
            let i = choose|i: int| 0 <= i < earlier.len() && (#[trigger] earlier[i]).name == name;
            assert(described[i].name == name);
        }
    } else {
        let step = steps[done - 1];
        let bound: int = if step.bound is Some { 1 } else { 0 };
        let meas: int = if step.meas is Some { 1 } else { 0 };
        assert(described[at].name == entry_name(done, StepEntry::Ticks));
        assert(described[at + 1].name == entry_name(done, StepEntry::Out));
        assert(described[at + 2].name == entry_name(done, StepEntry::Advance));
        assert(step.bound is Some ==> described[at + 3].name == entry_name(done, StepEntry::Bound));
        assert(step.meas is Some ==> described[at + 3 + bound].name == entry_name(
            done,
            StepEntry::Meas,
        ));
        assert(described[at + 3 + bound + meas].name == entry_name(done, StepEntry::OnOverrun));
    }
}

/// What is described is declared by every map that the steps are read from.
proof fn lemma_described_declared(
    name: Seq<char>,
    parameters: Map<Seq<char>, Value>,
    leading: Seq<ParameterView>,
    steps: Seq<BackwashStep>,
    measurements: nat,
    done: nat,
)
    requires
        done <= steps.len(),
        read_steps(name, parameters, measurements, done) == Ok::<
            Seq<BackwashStep>,
            ParameterErrorView,
        >(steps.take(done as int)),
        forall|i: int|
            0 <= i < leading.len() ==> field(parameters, (#[trigger] leading[i]).name) is Some,
    ensures
        ({
            let described = step_parameters(leading, steps, measurements as int, done);
            forall|i: int|
                0 <= i < described.len() ==> field(parameters, (#[trigger] described[i]).name)
                    is Some
        }),
    decreases done,
{
    if done > 0 {
        let before = (done - 1) as nat;
        let earlier = read_steps(name, parameters, measurements, before);
        let read = earlier->Ok_0;
        let last = read_step(name, parameters, measurements, done)->Ok_0;
        assert(steps.take(done as int) == read.push(last));
        assert(read == steps.take(before as int)) by {
            assert(read == read.push(last).drop_last());
            assert(steps.take(done as int).drop_last() == steps.take(before as int));
        }
        assert(last == steps[done - 1]) by {
            assert(last == steps.take(done as int).last());
        }
        lemma_described_declared(name, parameters, leading, steps, measurements, before);
    }
}

proof fn lemma_steps_agree(
    name: Seq<char>,
    a: Map<Seq<char>, Value>,
    b: Map<Seq<char>, Value>,
    described: Seq<ParameterView>,
    leading: Seq<ParameterView>,
    steps: Seq<BackwashStep>,
    measurements: nat,
    done: nat,
)
    requires
        done <= steps.len(),
        described == step_parameters(leading, steps, measurements as int, steps.len()),
        agree_on(described, a, b),
        b.dom().subset_of(a.dom()),
        read_steps(name, a, measurements, done) == Ok::<Seq<BackwashStep>, ParameterErrorView>(
            steps.take(done as int),
        ),
    ensures
        read_steps(name, b, measurements, done) == read_steps(name, a, measurements, done),
    decreases done,
{
    if done > 0 {
        let before = (done - 1) as nat;
        let read = read_steps(name, a, measurements, before)->Ok_0;
        let last = read_step(name, a, measurements, done)->Ok_0;
        assert(steps.take(done as int) == read.push(last));
        assert(read == steps.take(before as int)) by {
            assert(read == read.push(last).drop_last());
            assert(steps.take(done as int).drop_last() == steps.take(before as int));
        }
        assert(last == steps[done - 1]) by {
            assert(last == steps.take(done as int).last());
        }
        lemma_steps_agree(name, a, b, described, leading, steps, measurements, before);
        lemma_step_described(leading, steps, measurements as int, steps.len(), done);
        let entries = |entry: StepEntry| field(a, entry_name(done, entry)) == field(
            b,
            entry_name(done, entry),
        );
        assert(entries(StepEntry::Ticks));
        assert(entries(StepEntry::Out));
        assert(entries(StepEntry::Advance));
        assert(entries(StepEntry::OnOverrun));
        assert(entries(StepEntry::Bound));
        assert(entries(StepEntry::Meas));
    }
}

/// Building reads the described parameters: a built sequence found each of
/// them declared, and what else was declared might have been left out.
pub proof fn building_reads_the_described(
    sequence: SequenceView,
    a: Map<Seq<char>, Value>,
    b: Map<Seq<char>, Value>,
    i: int,
)
    requires
        spec_from_parameters(sequence.name, sequence.inputs, sequence.outputs, a) == Ok::<
            SequenceView,
            ParameterErrorView,
        >(sequence),
    ensures
        ({
            let described = sequence.description().parameters;
            &&& 0 <= i < described.len() ==> field(a, described[i].name) is Some
            &&& agree_on(described, a, b) && b.dom().subset_of(a.dom()) ==> spec_from_parameters(
                sequence.name,
                sequence.inputs,
                sequence.outputs,
                b,
            ) == Ok::<SequenceView, ParameterErrorView>(sequence)
        }),
{
    let described = sequence.description().parameters;
    let leading = sequence.scalar_parameters();
    let measurements = sequence.inputs.meas@.len();
    let count = sequence.steps.len();
    assert(leading[0].name == "step_count"@);
    assert(leading[1].name == "auto_start"@);
    assert(leading[2].name == "abort_step"@);
    assert(leading[3].name == "on_fault_step"@);
    assert(leading[4].name == "on_fault_policy"@);
    lemma_read_length(sequence.name, a, measurements, read_count(sequence.name, a)->Ok_0 as nat);
    assert(sequence.steps.take(count as int) == sequence.steps);
    lemma_described_declared(sequence.name, a, leading, sequence.steps, measurements, count);
    if agree_on(described, a, b) && b.dom().subset_of(a.dom()) {
        lemma_leading_described(leading, sequence.steps, measurements as int, count);
        assert(described[0] == leading[0] && described[1] == leading[1] && described[2]
            == leading[2] && described[3] == leading[3] && described[4] == leading[4]);
        lemma_steps_agree(
            sequence.name,
            a,
            b,
            described,
            leading,
            sequence.steps,
            measurements,
            count,
        );
    }
}

proof fn lemma_step_parameter(
    leading: Seq<ParameterView>,
    steps: Seq<BackwashStep>,
    measurements: int,
    done: nat,
    i: int,
) -> (step: (nat, StepEntry))
    requires
        leading.len() <= i < step_parameters(leading, steps, measurements, done).len(),
    ensures
        1 <= step.0 <= done,
        step_parameters(leading, steps, measurements, done)[i].name == entry_name(step.0, step.1),
    decreases done,
{
    let earlier = step_parameters(leading, steps, measurements, (done - 1) as nat);
    let described = step_parameters(leading, steps, measurements, done);
    if i < earlier.len() {
        assert(described[i] == earlier[i]);
        lemma_step_parameter(leading, steps, measurements, (done - 1) as nat, i)
    } else {
        let name = described[i].name;
        if name == entry_name(done, StepEntry::Ticks) {
            (done, StepEntry::Ticks)
        } else if name == entry_name(done, StepEntry::Out) {
            (done, StepEntry::Out)
        } else if name == entry_name(done, StepEntry::Advance) {
            (done, StepEntry::Advance)
        } else if name == entry_name(done, StepEntry::Bound) {
            (done, StepEntry::Bound)
        } else if name == entry_name(done, StepEntry::Meas) {
            (done, StepEntry::Meas)
        } else {
            (done, StepEntry::OnOverrun)
        }
    }
}

proof fn lemma_no_word(text: Seq<char>)
    requires
        forall|k: int| 0 <= k < text.len() ==> #[trigger] text[k] != '_',
    ensures
        last_position(text, '_') is None,
    decreases text.len(),
{
    if text.len() > 0 {
        lemma_no_word(text.drop_last());
    }
}

pub(crate) proof fn lemma_scalar_names(parameter: Seq<char>)
    requires
        parameter == "step_count"@ || parameter == "auto_start"@ || parameter == "abort_step"@
            || parameter == "on_fault_step"@ || parameter == "on_fault_policy"@,
    ensures
        entry_named(parameter) is None,
{
    reveal_strlit("step_");
    reveal_strlit("step_count");
    reveal_strlit("auto_start");
    reveal_strlit("abort_step");
    reveal_strlit("on_fault_step");
    reveal_strlit("on_fault_policy");
    if parameter == "step_count"@ {
        let rest = parameter.skip(5);
        assert forall|k: int| 0 <= k < rest.len() implies #[trigger] rest[k] != '_' by {
            assert(rest[k] == parameter[k + 5]);
        }
        lemma_no_word(rest);
    } else {
        assert(parameter.take(5)[0] != "step_"@[0]);
    }
}

/// Every described parameter is known to a retune: none of them is refused
/// as unknown.
pub proof fn tuning_knows_the_described(
    sequence: SequenceView,
    parameter: Seq<char>,
    value: Value,
)
    requires
        sequence.wf(),
        describes_parameter(sequence.description().parameters, parameter),
    ensures
        sequence.tuned(parameter, value) != Err::<SequenceView, CommandErrorView>(
            spec_unknown_parameter(sequence.name, parameter),
        ),
{
    let described = sequence.description().parameters;
    let leading = sequence.scalar_parameters();
    let count = sequence.steps.len();
    let i = choose|i: int|
        0 <= i < described.len() && (#[trigger] described[i]).name == parameter;
    lemma_leading_described(leading, sequence.steps, sequence.measurements(), count);
    if i < leading.len() {
        assert(described[i] == leading[i]);
        lemma_scalar_names(parameter);
    } else {
        let (n, entry) = lemma_step_parameter(
            leading,
            sequence.steps,
            sequence.measurements(),
            count,
            i,
        );
        entry_names_read_back(n, entry);
    }
}

proof fn lemma_describes_push(described: Seq<ParameterView>, next: ParameterView, key: Seq<char>)
    ensures
        describes_parameter(described.push(next), key) <==> describes_parameter(described, key)
            || next.name == key,
{
    let pushed = described.push(next);
    if describes_parameter(described, key) {
        let i = choose|i: int| 0 <= i < described.len() && (#[trigger] described[i]).name == key;
        assert(pushed[i].name == key);
    }
    if next.name == key {
        assert(pushed[described.len() as int].name == key);
    }
    if describes_parameter(pushed, key) {
        let i = choose|i: int| 0 <= i < pushed.len() && (#[trigger] pushed[i]).name == key;
        if i < described.len() {
            assert(described[i].name == key);
        }
    }
}

proof fn lemma_steps_reported(
    leading: Seq<ParameterView>,
    fields: Map<Seq<char>, Value>,
    steps: Seq<BackwashStep>,
    measurements: int,
    done: nat,
    key: Seq<char>,
)
    requires
        done <= steps.len(),
        fields.dom().contains(key) <==> describes_parameter(leading, key),
    ensures
        with_steps(fields, steps, done).dom().contains(key) <==> describes_parameter(
            step_parameters(leading, steps, measurements, done),
            key,
        ),
    decreases done,
{
    if done > 0 {
        let before = (done - 1) as nat;
        lemma_steps_reported(leading, fields, steps, measurements, before, key);
        let step = steps[done - 1];
        let earlier = step_parameters(leading, steps, measurements, before);
        let all = step_parameters(leading, steps, measurements, done);
        let n = earlier.len() as int;
        let bound: int = if step.bound is Some { 1 } else { 0 };
        let meas: int = if step.meas is Some { 1 } else { 0 };
        let ticks = earlier.push(all[n]);
        let out = ticks.push(all[n + 1]);
        let advance = out.push(all[n + 2]);
        let bounded = if step.bound is Some { advance.push(all[n + 3]) } else { advance };
        let selected = if step.meas is Some { bounded.push(all[n + 3 + bound]) } else { bounded };
        lemma_describes_push(earlier, all[n], key);
        lemma_describes_push(ticks, all[n + 1], key);
        lemma_describes_push(out, all[n + 2], key);
        lemma_describes_push(advance, all[n + 3], key);
        lemma_describes_push(bounded, all[n + 3 + bound], key);
        lemma_describes_push(selected, all[n + 3 + bound + meas], key);
        assert(all == selected.push(all[n + 3 + bound + meas]));
    }
}

/// A sequence reports exactly what it describes: every described parameter
/// is reported, and nothing else is.
pub proof fn reports_the_described(sequence: SequenceView, key: Seq<char>)
    ensures
        sequence.reported().dom().contains(key) <==> describes_parameter(
            sequence.description().parameters,
            key,
        ),
{
    let leading = sequence.scalar_parameters();
    assert(leading[0].name == "step_count"@);
    assert(leading[1].name == "auto_start"@);
    assert(leading[2].name == "abort_step"@);
    assert(leading[3].name == "on_fault_step"@);
    assert(leading[4].name == "on_fault_policy"@);
    lemma_steps_reported(
        leading,
        sequence.scalars(),
        sequence.steps,
        sequence.measurements(),
        sequence.steps.len(),
        key,
    );
}

/// What the report holds under an entry of step `n`.
proof fn lemma_reported_entry(sequence: SequenceView, n: nat, entry: StepEntry)
    requires
        1 <= n <= sequence.steps.len(),
    ensures
        field(sequence.reported(), entry_name(n, entry)) == entry_value(
            sequence.steps[n - 1],
            entry,
        ),
{
    let names = sequence_names();
    assert forall|i: int| 0 <= i < 17 implies #[trigger] names[i] != entry_name(n, entry) by {
        lemma_own_names(i, n, entry);
    }
    assert(names[11] == "step_count"@ && names[12] == "auto_start"@);
    assert(names[13] == "abort_step"@ && names[14] == "on_fault_step"@);
    assert(names[15] == "on_fault_policy"@);
    lemma_with_steps_at(sequence.scalars(), sequence.steps, sequence.steps.len(), n, entry);
}

proof fn lemma_steps_reread(sequence: SequenceView, done: nat)
    requires
        sequence.wf(),
        sequence.measurements() <= i64::MAX,
        done <= sequence.steps.len(),
    ensures
        read_steps(
            sequence.name,
            sequence.reported(),
            sequence.inputs.meas@.len(),
            done,
        ) == Ok::<Seq<BackwashStep>, ParameterErrorView>(sequence.steps.take(done as int)),
        table_error(
            sequence.name,
            sequence.steps,
            sequence.inputs.meas@.len(),
            done,
        ) is None,
    decreases done,
{
    if done == 0 {
        assert(sequence.steps.take(0) == Seq::<BackwashStep>::empty());
    } else {
        lemma_steps_reread(sequence, (done - 1) as nat);
        let step = sequence.steps[done - 1];
        assert(step.valid(sequence.measurements()));
        lemma_reported_entry(sequence, done, StepEntry::Ticks);
        lemma_reported_entry(sequence, done, StepEntry::Out);
        lemma_reported_entry(sequence, done, StepEntry::Advance);
        lemma_reported_entry(sequence, done, StepEntry::Bound);
        lemma_reported_entry(sequence, done, StepEntry::Meas);
        lemma_reported_entry(sequence, done, StepEntry::OnOverrun);
        assert(read_step(
            sequence.name,
            sequence.reported(),
            sequence.inputs.meas@.len(),
            done,
        ) == Ok::<BackwashStep, ParameterErrorView>(step));
        assert(sequence.steps.take(done as int) == sequence.steps.take(done - 1).push(step));
    }
}

/// What a sequence reports rebuilds it: parameters that hold the report make
/// a sequence with the same table and the same scalars, which reports the
/// same.
pub proof fn reports_rebuild_the_table(sequence: SequenceView)
    requires
        sequence.wf(),
        sequence.measurements() <= i64::MAX,
    ensures
        spec_from_parameters(
            sequence.name,
            sequence.inputs,
            sequence.outputs,
            sequence.reported(),
        ) matches Ok::<SequenceView, ParameterErrorView>(rebuilt) && rebuilt.steps
            == sequence.steps && rebuilt.config == sequence.config && rebuilt.reported()
            == sequence.reported(),
{
    lemma_scalar_fields(sequence);
    lemma_steps_reread(sequence, sequence.steps.len());
    assert(sequence.steps.take(sequence.steps.len() as int) == sequence.steps);
    assert(read_config(sequence.name, sequence.reported(), sequence.steps.len()) == Ok::<
        BackwashSequenceConfig,
        ParameterErrorView,
    >(sequence.config));
}

/// Whether an input asserts: it reads `true`, and the reading is `Good`.
pub open spec fn asserts(input: Reading<bool>) -> bool {
    input.value && input.quality is Good
}

/// A scan remembers what each trigger asserted, so that only a rise counts as
/// an edge, and changes neither the table nor the tuning nor the wiring.
pub proof fn scans_remember_the_triggers(
    sequence: SequenceView,
    scan: SequenceReadings,
    meas: Option<Reading<Float>>,
)
    ensures
        ({
            let after = sequence.after(scan, meas);
            &&& after.held.time == asserts(scan.trig_time)
            &&& after.held.headloss == asserts(scan.trig_headloss)
            &&& after.held.turbidity == asserts(scan.trig_turbidity)
            &&& after.held.operator == asserts(scan.trig_operator)
            &&& after.held == sequence.transitioned(scan).held
            &&& after.fault_seen == sequence.transitioned(scan).fault_seen
            &&& after.name == sequence.name && after.inputs == sequence.inputs
            &&& after.outputs == sequence.outputs && after.steps == sequence.steps
            &&& after.config == sequence.config
        }),
{
}

/// The fault is remembered as seen while it asserts; only a fault that rises in
/// the very scan that arms is left to be seen in the next one.
pub proof fn scans_remember_the_fault(sequence: SequenceView, scan: SequenceReadings)
    ensures
        ({
            let next = sequence.transitioned(scan);
            &&& !asserts(scan.fault) ==> !next.fault_seen
            &&& asserts(scan.fault) && sequence.fault_seen ==> next.fault_seen
            &&& asserts(scan.fault) && sequence.armed ==> next.fault_seen
            &&& asserts(scan.fault) && !sequence.armed && !sequence.fault_seen ==> (next.fault_seen
                <==> !next.armed)
        }),
{
}

/// While no run stands and nothing waits or aborts, under operator release: an
/// operator edge arms for source 4, whatever else rises. Without one a time edge
/// latches source 1, a headloss edge without a time edge source 2, a turbidity
/// edge without either source 3, and no edge latches nothing; none of these
/// arms.
pub proof fn edges_latch_under_release(sequence: SequenceView, scan: SequenceReadings)
    requires
        !sequence.armed,
        !sequence.pending,
        sequence.pending_source == 0,
        !asserts(scan.abort),
        sequence.config.auto_start is Pending,
    ensures
        ({
            let next = sequence.transitioned(scan);
            let time = asserts(scan.trig_time) && !sequence.held.time;
            let headloss = asserts(scan.trig_headloss) && !sequence.held.headloss;
            let turbidity = asserts(scan.trig_turbidity) && !sequence.held.turbidity;
            let operator = asserts(scan.trig_operator) && !sequence.held.operator;
            &&& operator ==> next.armed && next.trigger_source == 4 && !next.pending
            &&& !operator ==> !next.armed && next.trigger_source == sequence.trigger_source
            &&& !operator && time ==> next.pending && next.pending_source == 1
            &&& !operator && !time && headloss ==> next.pending && next.pending_source == 2
            &&& !operator && !time && !headloss && turbidity ==> next.pending
                && next.pending_source == 3
            &&& !operator && !time && !headloss && !turbidity ==> !next.pending
                && next.pending_source == 0
        }),
{
}

/// While no run stands and nothing waits or aborts, with direct starts: the
/// first of a time, a headloss, a turbidity and an operator edge arms, for
/// source 1, 2, 3 and 4, and nothing waits.
pub proof fn edges_arm_directly(sequence: SequenceView, scan: SequenceReadings)
    requires
        !sequence.armed,
        !sequence.pending,
        !asserts(scan.abort),
        sequence.config.auto_start is Direct,
    ensures
        ({
            let next = sequence.transitioned(scan);
            let time = asserts(scan.trig_time) && !sequence.held.time;
            let headloss = asserts(scan.trig_headloss) && !sequence.held.headloss;
            let turbidity = asserts(scan.trig_turbidity) && !sequence.held.turbidity;
            let operator = asserts(scan.trig_operator) && !sequence.held.operator;
            &&& next.armed <==> time || headloss || turbidity || operator
            &&& !next.pending
            &&& time ==> next.trigger_source == 1
            &&& !time && headloss ==> next.trigger_source == 2
            &&& !time && !headloss && turbidity ==> next.trigger_source == 3
            &&& !time && !headloss && !turbidity && operator ==> next.trigger_source == 4
            &&& !next.armed ==> next.trigger_source == sequence.trigger_source
        }),
{
}

/// A waiting trigger goes on waiting for its source until an operator edge arms
/// it, for the source that waited, or an abort cancels it. Other edges do not
/// matter to it, and an abort lets nothing arm or wait.
pub proof fn waiting_triggers_wait_for_the_operator(
    sequence: SequenceView,
    scan: SequenceReadings,
)
    requires
        !sequence.armed,
    ensures
        ({
            let next = sequence.transitioned(scan);
            let operator = asserts(scan.trig_operator) && !sequence.held.operator;
            &&& asserts(scan.abort) ==> !next.armed && !next.pending && next.pending_source == 0
                && next.trigger_source == sequence.trigger_source
            &&& !asserts(scan.abort) && sequence.pending && operator ==> next.armed && !next.pending
                && next.pending_source == 0 && next.trigger_source == sequence.pending_source
            &&& !asserts(scan.abort) && sequence.pending && !operator ==> !next.armed
                && next.pending && next.pending_source == sequence.pending_source
                && next.trigger_source == sequence.trigger_source
        }),
{
}

/// A run that is armed starts at the first step with nothing banked, with every
/// earlier end and hold cleared and nothing waiting. Where nothing is armed, the
/// position, the banked count, the ends and the hold stay as they are.
pub proof fn armed_runs_start_afresh(sequence: SequenceView, scan: SequenceReadings)
    requires
        !sequence.armed,
    ensures
        ({
            let next = sequence.transitioned(scan);
            &&& next.armed ==> next.current == 0 && next.elapsed == 0 && !next.completed
                && !next.aborted && !next.fault_hold && !next.pending && next.pending_source == 0
            &&& !next.armed ==> next.current == sequence.current && next.elapsed
                == sequence.elapsed && next.completed == sequence.completed && next.aborted
                == sequence.aborted && next.fault_hold == sequence.fault_hold
        }),
{
}

/// What the inputs do to a standing run. An asserted abort ends it at the abort
/// step with nothing banked. Otherwise a fault that rises while none is held
/// aborts it likewise or parks it at the fault step, as its policy says; an
/// operator edge resumes a parked run where the fault no longer asserts; and
/// nothing else moves it. The attributed source stands throughout.
pub proof fn runs_answer_abort_and_fault(sequence: SequenceView, scan: SequenceReadings)
    requires
        sequence.armed,
    ensures
        ({
            let next = sequence.transitioned(scan);
            let rises = asserts(scan.fault) && !sequence.fault_seen && !sequence.fault_hold;
            let resumes = sequence.fault_hold && asserts(scan.trig_operator)
                && !sequence.held.operator && !asserts(scan.fault);
            let aborts = asserts(scan.abort) || (rises && sequence.config.on_fault_policy is Abort);
            &&& next.trigger_source == sequence.trigger_source
            &&& next.armed <==> !aborts
            &&& aborts ==> next.aborted && !next.completed && !next.fault_hold && !next.pending
                && next.pending_source == 0 && next.current == sequence.config.abort_step
                && next.elapsed == 0
            &&& !aborts ==> next.aborted == sequence.aborted && next.completed
                == sequence.completed && next.pending == sequence.pending && next.pending_source
                == sequence.pending_source
            &&& !aborts && rises ==> next.fault_hold && next.current
                == sequence.config.on_fault_step && next.elapsed == 0
            &&& !aborts && !rises ==> next.current == sequence.current && next.elapsed
                == sequence.elapsed && next.fault_hold == (sequence.fault_hold && !resumes)
        }),
{
}

/// What the table does in a scan, once the inputs have acted: it stands still
/// unless a run stands, is not parked and holds the grant. A stepping scan banks
/// one scan, up to the step's ticks, of which there is at least one. The step
/// ends by its mode: a timed one once its ticks are banked, a measured one once
/// a `Good` measurement is at or above its bound or, where an overrun advances,
/// once its ticks are banked, and a first-of one on either. Then the next step
/// begins with nothing banked; after the last one the run is done and the
/// request drops.
pub proof fn granted_scans_step_the_table(
    sequence: SequenceView,
    scan: SequenceReadings,
    meas: Option<Reading<Float>>,
)
    requires
        sequence.wf(),
    ensures
        ({
            let next = sequence.transitioned(scan);
            let after = sequence.after(scan, meas);
            let step = sequence.steps[next.current as int];
            let stepping = next.armed && !next.fault_hold && asserts(scan.grant);
            let spent = next.elapsed + 1 >= step.ticks;
            let met = meas is Some && step.bound is Some && meas->0.quality is Good
                && step.bound->0.le(meas->0.value);
            let ends = match step.advance {
                AdvanceMode::Timed => spent,
                AdvanceMode::Measured => met || (spent && step.on_overrun is Advance),
                AdvanceMode::FirstOf => met || spent,
            };
            let last = next.current == sequence.steps.len() - 1;
            let banked = if step.ticks <= 1 {
                1
            } else if spent {
                step.ticks as int
            } else {
                next.elapsed + 1
            };
            &&& !stepping ==> after == next
            &&& stepping && !ends ==> after.current == next.current && after.elapsed == banked
                && after.armed && !after.completed
            &&& stepping && ends && !last ==> after.current == next.current + 1 && after.elapsed
                == 0 && after.armed && !after.completed
            &&& stepping && ends && last ==> after.current == next.current && after.elapsed
                == banked && !after.armed && after.completed
            &&& after.aborted == next.aborted && after.fault_hold == next.fault_hold
            &&& after.pending == next.pending && after.pending_source == next.pending_source
            &&& after.trigger_source == next.trigger_source
        }),
{
    lemma_transition_wf(sequence, scan);
}

/// What the inputs of a scan make of a sequence keeps the invariant, and leaves
/// a standing run without an end.
proof fn lemma_transition_wf(sequence: SequenceView, scan: SequenceReadings)
    requires
        sequence.wf(),
    ensures
        sequence.transitioned(scan).wf(),
        sequence.transitioned(scan).armed ==> !sequence.transitioned(scan).completed,
{
}

/// A measured input is read exactly while a run stands on a step that does not
/// go by time alone: it is the step's own.
pub proof fn measured_steps_read_their_input(sequence: SequenceView, scan: SequenceReadings)
    ensures
        ({
            let next = sequence.transitioned(scan);
            let step = next.steps[next.current as int];
            &&& next.armed && !(step.advance is Timed) ==> sequence.measured_input(scan)
                == step.meas
            &&& !next.armed || step.advance is Timed ==> sequence.measured_input(scan) is None
        }),
{
}

/// Everything that a scan drives, in order and each on its own point: the
/// request, whether the table steps, the waiting trigger, the two ends, an
/// overrun, which is a stepping scan of a measured step whose ticks are banked
/// and whose bound is not met, the source, the number of the reported step,
/// counted from one, its value, and one flag for each step, of which the
/// reported one's asserts. All of it is as of this scan, with one quality.
pub proof fn scans_drive_every_output(
    sequence: SequenceView,
    scan: SequenceReadings,
    meas: Option<Reading<Float>>,
    tick: Tick,
    i: int,
    k: int,
)
    requires
        sequence.wf(),
        0 <= i < sequence.steps.len(),
        0 <= k < 9 + sequence.steps.len(),
    ensures
        ({
            let next = sequence.transitioned(scan);
            let after = sequence.after(scan, meas);
            let writes = sequence.writes(scan, meas, tick);
            let step = sequence.steps[next.current as int];
            let stepping = next.armed && !next.fault_hold && asserts(scan.grant);
            let met = meas is Some && step.bound is Some && meas->0.quality is Good
                && step.bound->0.le(meas->0.value);
            let overrun = stepping && step.advance is Measured && next.elapsed + 1 >= step.ticks
                && !met;
            let outputs = sequence.outputs;
            &&& writes.len() == 9 + sequence.steps.len()
            &&& writes[0].point == outputs.request && writes[0].sample.value == Value::Bool(
                after.armed,
            )
            &&& writes[1].point == outputs.active && writes[1].sample.value == Value::Bool(stepping)
            &&& writes[2].point == outputs.pending && writes[2].sample.value == Value::Bool(
                after.pending,
            )
            &&& writes[3].point == outputs.done && writes[3].sample.value == Value::Bool(
                after.completed,
            )
            &&& writes[4].point == outputs.aborted && writes[4].sample.value == Value::Bool(
                after.aborted,
            )
            &&& writes[5].point == outputs.overrun && writes[5].sample.value == Value::Bool(overrun)
            &&& writes[6].point == outputs.trigger_source && writes[6].sample.value == Value::Int(
                after.trigger_source,
            )
            &&& writes[7].point == outputs.step && writes[7].sample.value == Value::Int(
                (next.current + 1) as i64,
            )
            &&& writes[8].point == outputs.out && writes[8].sample.value == Value::Float(step.value)
            &&& writes[9 + i].point == outputs.phases@[i] && writes[9 + i].sample.value
                == Value::Bool(next.current == i)
            &&& writes[k].sample.tick == tick && writes[k].sample.quality
                == writes[0].sample.quality
        }),
{
    lemma_transition_wf(sequence, scan);
    runs_are_reported(sequence, scan, meas, tick);
    one_phase_at_a_time(sequence, scan, meas, tick, i);
    if k >= 9 {
        one_phase_at_a_time(sequence, scan, meas, tick, k - 9);
    }
}

/// The quality of everything driven is that of one input: as bad as any, and
/// the last of those that are, in the order of the triggers, the grant, the
/// abort, the fault and the measurement.
pub proof fn outputs_carry_the_last_of_the_worst(
    sequence: SequenceView,
    scan: SequenceReadings,
    meas: Option<Reading<Float>>,
    tick: Tick,
)
    requires
        sequence.wf(),
    ensures
        ({
            let quality = sequence.writes(scan, meas, tick)[0].sample.quality;
            let control = seq![
                scan.trig_time.quality,
                scan.trig_headloss.quality,
                scan.trig_turbidity.quality,
                scan.trig_operator.quality,
                scan.grant.quality,
                scan.abort.quality,
                scan.fault.quality,
            ];
            let measured = control.push(meas->0.quality);
            &&& meas is None ==> exists|k: int|
                quality == #[trigger] control[k] && last_of_the_worst(control, k)
            &&& meas is Some ==> exists|k: int|
                quality == #[trigger] measured[k] && last_of_the_worst(measured, k)
        }),
{
    runs_are_reported(sequence, scan, meas, tick);
    let q1 = scan.trig_time.quality;
    let control = seq![
        scan.trig_time.quality,
        scan.trig_headloss.quality,
        scan.trig_turbidity.quality,
        scan.trig_operator.quality,
        scan.grant.quality,
        scan.abort.quality,
        scan.fault.quality,
    ];
    let first = seq![q1];
    assert(last_of_the_worst(first, 0));
    let a1 = lemma_one_more(first, scan.trig_headloss.quality, 0);
    let s1 = first.push(scan.trig_headloss.quality);
    let a2 = lemma_one_more(s1, scan.trig_turbidity.quality, a1);
    let s2 = s1.push(scan.trig_turbidity.quality);
    let a3 = lemma_one_more(s2, scan.trig_operator.quality, a2);
    let s3 = s2.push(scan.trig_operator.quality);
    let a4 = lemma_one_more(s3, scan.grant.quality, a3);
    let s4 = s3.push(scan.grant.quality);
    let a5 = lemma_one_more(s4, scan.abort.quality, a4);
    let s5 = s4.push(scan.abort.quality);
    let a6 = lemma_one_more(s5, scan.fault.quality, a5);
    let s6 = s5.push(scan.fault.quality);
    assert(s6 =~= control);
    assert(control[a6] == scan.quality());
    let quality = sequence.writes(scan, meas, tick)[0].sample.quality;
    match meas {
        Some(reading) => {
            let a7 = lemma_one_more(control, reading.quality, a6);
            let read = control.push(reading.quality);
            assert(quality == read[a7] && last_of_the_worst(read, a7));
        },
        None => {
            assert(quality == control[a6] && last_of_the_worst(control, a6));
        },
    }
}

/// Whether the quality at `k` is the last of the worst.
pub open spec fn last_of_the_worst(read: Seq<Quality>, k: int) -> bool {
    &&& 0 <= k < read.len()
    &&& forall|j: int| 0 <= j < k ==> (#[trigger] read[j]).severity() <= read[k].severity()
    &&& forall|j: int| k < j < read.len() ==> (#[trigger] read[j]).severity() < read[k].severity()
}

proof fn lemma_one_more(read: Seq<Quality>, next: Quality, k: int) -> (at: int)
    requires
        last_of_the_worst(read, k),
    ensures
        last_of_the_worst(read.push(next), at),
        read.push(next)[at] == read[k].spec_merge(next),
{
    let more = read.push(next);
    if next.severity() >= read[k].severity() {
        assert forall|j: int| 0 <= j < read.len() implies (#[trigger] more[j]).severity()
            <= next.severity() by {
            assert(more[j] == read[j]);
        }
        read.len() as int
    } else {
        assert forall|j: int| 0 <= j < k implies (#[trigger] more[j]).severity()
            <= more[k].severity() by {
            assert(more[j] == read[j]);
        }
        assert forall|j: int| k < j < more.len() implies (#[trigger] more[j]).severity()
            < more[k].severity() by {
            if j < read.len() {
                assert(more[j] == read[j]);
            }
        }
        k
    }
}

/// A checkpoint holds the shape and the tuning of the table under the names of
/// its parameters, and the whole run: the position, counted from one, the banked
/// count, the request, the waiting trigger and its source, the attributed
/// source, the two ends, the hold, a standing overrun, which is a run at a
/// measured step whose ticks are banked, the triggers of the last scan as a bit
/// mask, and whether the fault was seen.
pub proof fn checkpoints_hold_the_run(sequence: SequenceView, n: nat)
    requires
        1 <= n <= sequence.steps.len(),
    ensures
        ({
            let held = sequence.captured();
            let config = sequence.config;
            let step = sequence.steps[n - 1];
            let here = sequence.steps[sequence.current as int];
            let triggers = sequence.held;
            let bit = |set: bool, weight: int|
                if set {
                    weight
                } else {
                    0
                };
            &&& held["step_count"@] == Value::Int(sequence.steps.len() as i64)
            &&& held["auto_start"@] == Value::Int(
                match config.auto_start {
                    AutoStart::Direct => 0,
                    AutoStart::Pending => 1,
                },
            )
            &&& held["abort_step"@] == Value::Int((config.abort_step + 1) as i64)
            &&& held["on_fault_step"@] == Value::Int((config.on_fault_step + 1) as i64)
            &&& held["on_fault_policy"@] == Value::Int(
                match config.on_fault_policy {
                    FaultPolicy::Hold => 0,
                    FaultPolicy::Abort => 1,
                },
            )
            &&& held[entry_name(n, StepEntry::Ticks)] == Value::Int(step.ticks as i64)
            &&& held[entry_name(n, StepEntry::Out)] == Value::Float(step.value)
            &&& held[entry_name(n, StepEntry::Advance)] == Value::Int(
                match step.advance {
                    AdvanceMode::Timed => 0,
                    AdvanceMode::Measured => 1,
                    AdvanceMode::FirstOf => 2,
                },
            )
            &&& held[entry_name(n, StepEntry::OnOverrun)] == Value::Int(
                match step.on_overrun {
                    OverrunPolicy::Advance => 0,
                    OverrunPolicy::Hold => 1,
                },
            )
            &&& held.dom().contains(entry_name(n, StepEntry::Bound)) <==> step.bound is Some
            &&& step.bound matches Some(bound) ==> held[entry_name(n, StepEntry::Bound)]
                == Value::Float(bound)
            &&& held.dom().contains(entry_name(n, StepEntry::Meas)) <==> step.meas is Some
            &&& step.meas matches Some(meas) ==> held[entry_name(n, StepEntry::Meas)]
                == Value::Int((meas + 1) as i64)
            &&& held["step"@] == Value::Int((sequence.current + 1) as i64)
            &&& held["elapsed"@] == Value::Int(sequence.elapsed as i64)
            &&& held["request"@] == Value::Bool(sequence.armed)
            &&& held["pending"@] == Value::Bool(sequence.pending)
            &&& held["pending_source"@] == Value::Int(sequence.pending_source)
            &&& held["trigger_source"@] == Value::Int(sequence.trigger_source)
            &&& held["done"@] == Value::Bool(sequence.completed)
            &&& held["aborted"@] == Value::Bool(sequence.aborted)
            &&& held["fault_hold"@] == Value::Bool(sequence.fault_hold)
            &&& held["overrun"@] == Value::Bool(
                sequence.armed && !sequence.fault_hold && here.advance is Measured
                    && sequence.elapsed >= here.ticks && sequence.elapsed >= 1,
            )
            &&& held["trigger_held"@] == Value::Int(
                (bit(triggers.time, 1) + bit(triggers.headloss, 2) + bit(triggers.turbidity, 4)
                    + bit(triggers.operator, 8)) as i64,
            )
            &&& held["fault_seen"@] == Value::Bool(sequence.fault_seen)
        }),
{
    lemma_own_fields(sequence);
    lemma_captured_entry(sequence, n, StepEntry::Ticks);
    lemma_captured_entry(sequence, n, StepEntry::Out);
    lemma_captured_entry(sequence, n, StepEntry::Advance);
    lemma_captured_entry(sequence, n, StepEntry::OnOverrun);
    lemma_captured_entry(sequence, n, StepEntry::Bound);
    lemma_captured_entry(sequence, n, StepEntry::Meas);
}

/// A report holds the length of the table, the scalars, and the entries of each
/// step, as a checkpoint does.
pub proof fn reports_hold_the_tuning(sequence: SequenceView, n: nat, entry: StepEntry)
    requires
        1 <= n <= sequence.steps.len(),
    ensures
        ({
            let reported = sequence.reported();
            let held = sequence.captured();
            &&& field(reported, "step_count"@) == field(held, "step_count"@)
            &&& field(reported, "auto_start"@) == field(held, "auto_start"@)
            &&& field(reported, "abort_step"@) == field(held, "abort_step"@)
            &&& field(reported, "on_fault_step"@) == field(held, "on_fault_step"@)
            &&& field(reported, "on_fault_policy"@) == field(held, "on_fault_policy"@)
            &&& field(reported, entry_name(n, entry)) == field(held, entry_name(n, entry))
        }),
{
    lemma_own_fields(sequence);
    lemma_scalar_fields(sequence);
    lemma_captured_entry(sequence, n, entry);
    lemma_reported_entry(sequence, n, entry);
}

} // verus!
