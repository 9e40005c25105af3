//! How a backwash sequence is built, retuned, described and restored, in terms
//! of what is declared.

use crate::backwash_sequence::{
    AdvanceMode, AutoStart, BackwashSequenceConfig, BackwashStep, FaultPolicy, OverrunPolicy,
    StepEntry,
};
use crate::describe::{Direction, ParameterRange, ParameterView, PortRole, RequirementView};
use crate::float::Float;
use crate::params::{
    spec_optional_f64, spec_optional_u64, spec_required_f64, spec_required_u64, spec_tune_f64,
    spec_tune_u64, ParameterErrorView,
};
use crate::sequence_laws::{entry_names_read_back, lemma_scalar_names};
use crate::sequence_model::{
    entry_name, meas_ports, numbered_roles, phase_ports, read_step, read_steps, restored_step,
    restored_steps, sequence_names, spec_from_parameters, step_error, step_names, step_parameters,
    table_error, SequenceView,
};
use crate::table::{bool_field, float_field, int_field, known_fields, StateErrorView};
use crate::text::{decimal, spec_numbered};
use crate::value::{PointId, Value, ValueKind};
use vstd::prelude::*;

verus! {

/// The names of a step's entries: `step_`, the step's number, counted from one,
/// and the entry.
pub proof fn entries_are_named_by_step(n: nat)
    ensures
        entry_name(n, StepEntry::Ticks) == "step_"@ + decimal(n) + "_ticks"@,
        entry_name(n, StepEntry::Out) == "step_"@ + decimal(n) + "_out"@,
        entry_name(n, StepEntry::Advance) == "step_"@ + decimal(n) + "_advance"@,
        entry_name(n, StepEntry::Bound) == "step_"@ + decimal(n) + "_bound"@,
        entry_name(n, StepEntry::Meas) == "step_"@ + decimal(n) + "_meas"@,
        entry_name(n, StepEntry::OnOverrun) == "step_"@ + decimal(n) + "_on_overrun"@,
{
}

/// Whether a step is the one that the parameters declare as step `k`, counted
/// from zero: a bound and a measured input are there exactly where they are
/// declared, and a step that does not go by time alone declares both.
pub open spec fn step_is_read(
    name: Seq<char>,
    parameters: Map<Seq<char>, Value>,
    measurements: nat,
    step: BackwashStep,
    k: int,
) -> bool {
    let n = (k + 1) as nat;
    let meas = spec_optional_u64(name, parameters, entry_name(n, StepEntry::Meas));
    &&& spec_required_u64(name, parameters, entry_name(n, StepEntry::Ticks)) == Ok::<
        u64,
        ParameterErrorView,
    >(step.ticks)
    &&& step.ticks <= i64::MAX
    &&& spec_required_f64(name, parameters, entry_name(n, StepEntry::Out)) == Ok::<
        Float,
        ParameterErrorView,
    >(step.value)
    &&& spec_required_u64(name, parameters, entry_name(n, StepEntry::Advance)) == Ok::<
        u64,
        ParameterErrorView,
    >(
        match step.advance {
            AdvanceMode::Timed => 0,
            AdvanceMode::Measured => 1,
            AdvanceMode::FirstOf => 2,
        },
    )
    &&& spec_optional_f64(name, parameters, entry_name(n, StepEntry::Bound)) == Ok::<
        Option<Float>,
        ParameterErrorView,
    >(step.bound)
    &&& step.meas is None ==> meas == Ok::<Option<u64>, ParameterErrorView>(None)
    &&& step.meas is Some ==> (meas matches Ok(Some(selected)) && selected == step.meas->0 + 1
        && selected <= measurements)
    &&& !(step.advance is Timed) ==> step.bound is Some && step.meas is Some
    &&& spec_required_u64(name, parameters, entry_name(n, StepEntry::OnOverrun)) == Ok::<
        u64,
        ParameterErrorView,
    >(
        match step.on_overrun {
            OverrunPolicy::Advance => 0,
            OverrunPolicy::Hold => 1,
        },
    )
}

proof fn lemma_step_read(
    name: Seq<char>,
    parameters: Map<Seq<char>, Value>,
    measurements: nat,
    step: BackwashStep,
    k: int,
)
    requires
        measurements <= usize::MAX,
        k >= 0,
    ensures
        read_step(name, parameters, measurements, (k + 1) as nat) == Ok::<
            BackwashStep,
            ParameterErrorView,
        >(step) <==> step_is_read(name, parameters, measurements, step, k),
{
}

proof fn lemma_steps_read(
    name: Seq<char>,
    parameters: Map<Seq<char>, Value>,
    measurements: nat,
    steps: Seq<BackwashStep>,
)
    requires
        measurements <= usize::MAX,
    ensures
        read_steps(name, parameters, measurements, steps.len()) == Ok::<
            Seq<BackwashStep>,
            ParameterErrorView,
        >(steps) <==> forall|k: int|
            0 <= k < steps.len() ==> step_is_read(
                name,
                parameters,
                measurements,
                #[trigger] steps[k],
                k,
            ),
    decreases steps.len(),
{
    let read = read_steps(name, parameters, measurements, steps.len());
    if steps.len() == 0 {
        assert(steps =~= Seq::<BackwashStep>::empty());
    } else {
        let fewer = steps.drop_last();
        let last = steps.last();
        lemma_steps_read(name, parameters, measurements, fewer);
        lemma_step_read(name, parameters, measurements, last, steps.len() - 1);
        assert(fewer.push(last) == steps);
        if read == Ok::<Seq<BackwashStep>, ParameterErrorView>(steps) {
            let before = read_steps(name, parameters, measurements, fewer.len())->Ok_0;
            assert(before == read->Ok_0.drop_last());
            assert(before == fewer);
            assert(read->Ok_0.last() == last);
            assert forall|k: int| 0 <= k < steps.len() implies step_is_read(
                name,
                parameters,
                measurements,
                #[trigger] steps[k],
                k,
            ) by {
                if k < fewer.len() {
                    assert(fewer[k] == steps[k]);
                }
            }
        }
        if forall|k: int|
            0 <= k < steps.len() ==> step_is_read(
                name,
                parameters,
                measurements,
                #[trigger] steps[k],
                k,
            ) {
            assert forall|k: int| 0 <= k < fewer.len() implies step_is_read(
                name,
                parameters,
                measurements,
                #[trigger] fewer[k],
                k,
            ) by {
                assert(fewer[k] == steps[k]);
            }
            assert(steps[steps.len() - 1] == last);
        }
    }
}

proof fn lemma_table_checked(
    name: Seq<char>,
    parameters: Map<Seq<char>, Value>,
    steps: Seq<BackwashStep>,
    measurements: nat,
    done: nat,
)
    requires
        done <= steps.len(),
        forall|k: int|
            0 <= k < steps.len() ==> step_is_read(
                name,
                parameters,
                measurements,
                #[trigger] steps[k],
                k,
            ),
    ensures
        table_error(name, steps, measurements, done) is None <==> forall|k: int|
            0 <= k < done ==> (#[trigger] steps[k]).value.finite() && (steps[k].bound is Some
                ==> steps[k].bound->0.finite()),
    decreases done,
{
    if done > 0 {
        lemma_table_checked(name, parameters, steps, measurements, (done - 1) as nat);
        let step = steps[done - 1];
        assert(step_is_read(name, parameters, measurements, step, done - 1));
        assert(step_error(name, done, step, measurements) is None <==> step.value.finite() && (
        step.bound is Some ==> step.bound->0.finite()));
    }
}

/// A sequence is built exactly where `step_count` declares from one step to the
/// largest `i64` and as many phase points are wired, every step is declared with
/// a finite value and, where it has one, a finite bound, the abort and the fault
/// step are numbers of the table, and the codes select something. It runs under
/// the declared table and scalars, at the first step with no run, nothing waiting
/// and nothing remembered.
pub proof fn building_takes_the_declared(
    given: SequenceView,
    built: SequenceView,
    parameters: Map<Seq<char>, Value>,
)
    requires
        given.inputs.meas@.len() <= usize::MAX,
        given.outputs.phases@.len() <= usize::MAX,
    ensures
        ({
            let name = given.name;
            let count = built.steps.len();
            let config = built.config;
            let abort = spec_required_u64(name, parameters, "abort_step"@);
            let fault = spec_required_u64(name, parameters, "on_fault_step"@);
            spec_from_parameters(name, given.inputs, given.outputs, parameters) == Ok::<
                SequenceView,
                ParameterErrorView,
            >(built) <==> {
                &&& 1 <= count <= i64::MAX && given.outputs.phases@.len() == count
                &&& spec_required_u64(name, parameters, "step_count"@) == Ok::<
                    u64,
                    ParameterErrorView,
                >(count as u64)
                &&& forall|k: int|
                    0 <= k < count ==> step_is_read(
                        name,
                        parameters,
                        given.inputs.meas@.len(),
                        #[trigger] built.steps[k],
                        k,
                    ) && built.steps[k].value.finite() && (built.steps[k].bound is Some
                        ==> built.steps[k].bound->0.finite())
                &&& spec_required_u64(name, parameters, "auto_start"@) == Ok::<
                    u64,
                    ParameterErrorView,
                >(
                    match config.auto_start {
                        AutoStart::Direct => 0,
                        AutoStart::Pending => 1,
                    },
                )
                &&& abort is Ok && abort->Ok_0 == config.abort_step + 1 && config.abort_step < count
                &&& fault is Ok && fault->Ok_0 == config.on_fault_step + 1 && config.on_fault_step
                    < count
                &&& spec_required_u64(name, parameters, "on_fault_policy"@) == Ok::<
                    u64,
                    ParameterErrorView,
                >(
                    match config.on_fault_policy {
                        FaultPolicy::Hold => 0,
                        FaultPolicy::Abort => 1,
                    },
                )
                &&& built.name == name && built.inputs == given.inputs
                &&& built.outputs == given.outputs
                &&& built.current == 0 && built.elapsed == 0
                &&& !built.armed && !built.pending && !built.completed && !built.aborted
                &&& !built.fault_hold && !built.fault_seen
                &&& built.pending_source == 0 && built.trigger_source == 0
                &&& !built.held.time && !built.held.headloss
                &&& !built.held.turbidity && !built.held.operator
            }
        }),
{
    let name = given.name;
    let measurements = given.inputs.meas@.len();
    let made = spec_from_parameters(name, given.inputs, given.outputs, parameters);
    if let Ok(count) = spec_required_u64(name, parameters, "step_count"@) {
        lemma_steps_length(name, parameters, measurements, count as nat);
        if let Ok(steps) = read_steps(name, parameters, measurements, count as nat) {
            lemma_steps_read(name, parameters, measurements, steps);
            lemma_table_checked(name, parameters, steps, measurements, steps.len());
            if made is Ok {
                let fresh = made->Ok_0;
                assert(fresh.steps == steps);
                assert forall|k: int| 0 <= k < steps.len() implies step_is_read(
                    name,
                    parameters,
                    measurements,
                    #[trigger] fresh.steps[k],
                    k,
                ) && fresh.steps[k].value.finite() && (fresh.steps[k].bound is Some
                    ==> fresh.steps[k].bound->0.finite()) by {
                    assert(step_is_read(name, parameters, measurements, steps[k], k));
                    assert(steps[k].value.finite());
                }
            }
        }
    }
    let count = built.steps.len();
    if 1 <= count <= i64::MAX && spec_required_u64(name, parameters, "step_count"@) == Ok::<
        u64,
        ParameterErrorView,
    >(count as u64) && forall|k: int|
        0 <= k < count ==> step_is_read(
            name,
            parameters,
            measurements,
            #[trigger] built.steps[k],
            k,
        ) && built.steps[k].value.finite() && (built.steps[k].bound is Some
            ==> built.steps[k].bound->0.finite()) {
        lemma_steps_read(name, parameters, measurements, built.steps);
        lemma_table_checked(name, parameters, built.steps, measurements, count);
    }
}

proof fn lemma_steps_length(
    name: Seq<char>,
    parameters: Map<Seq<char>, Value>,
    measurements: nat,
    done: nat,
)
    ensures
        read_steps(name, parameters, measurements, done) matches Ok(steps) ==> steps.len() == done,
    decreases done,
{
    if done > 0 {
        lemma_steps_length(name, parameters, measurements, (done - 1) as nat);
    }
}

/// A retune of a step's entry. A duration of at most the largest `i64` is set,
/// and where the run stands on that step with as many scans banked, or more, one
/// scan is left of it. A finite value is set, and a finite bound where the step
/// has one. Everything else is refused, and nothing else changes.
pub proof fn retunes_set_the_named_entry(sequence: SequenceView, value: Value, n: nat)
    requires
        sequence.wf(),
        1 <= n <= sequence.steps.len(),
    ensures
        ({
            let key = entry_name(n, StepEntry::Ticks);
            let step = sequence.steps[n - 1];
            let read = spec_tune_u64(sequence.name, key, value);
            let tuned = sequence.tuned(key, value);
            let limit = if read->Ok_0 > 1 {
                read->Ok_0 as int
            } else {
                1
            };
            &&& tuned is Ok <==> read is Ok && read->Ok_0 <= i64::MAX
            &&& tuned is Ok ==> tuned->Ok_0 == (SequenceView {
                steps: sequence.steps.update(n - 1, BackwashStep { ticks: read->Ok_0, ..step }),
                elapsed: if sequence.current == n - 1 && sequence.elapsed >= limit {
                    (limit - 1) as u64
                } else {
                    sequence.elapsed
                },
                ..sequence
            })
        }),
        ({
            let key = entry_name(n, StepEntry::Out);
            let step = sequence.steps[n - 1];
            let read = spec_tune_f64(sequence.name, key, value);
            let tuned = sequence.tuned(key, value);
            &&& tuned is Ok <==> read is Ok && read->Ok_0.finite()
            &&& tuned is Ok ==> tuned->Ok_0 == (SequenceView {
                steps: sequence.steps.update(n - 1, BackwashStep { value: read->Ok_0, ..step }),
                ..sequence
            })
        }),
        ({
            let key = entry_name(n, StepEntry::Bound);
            let step = sequence.steps[n - 1];
            let read = spec_tune_f64(sequence.name, key, value);
            let tuned = sequence.tuned(key, value);
            &&& tuned is Ok <==> read is Ok && read->Ok_0.finite() && step.bound is Some
            &&& tuned is Ok ==> tuned->Ok_0 == (SequenceView {
                steps: sequence.steps.update(
                    n - 1,
                    BackwashStep { bound: Some(read->Ok_0), ..step },
                ),
                ..sequence
            })
        }),
        sequence.tuned(entry_name(n, StepEntry::Advance), value) is Err,
        sequence.tuned(entry_name(n, StepEntry::Meas), value) is Err,
        sequence.tuned(entry_name(n, StepEntry::OnOverrun), value) is Err,
{
    entry_names_read_back(n, StepEntry::Ticks);
    entry_names_read_back(n, StepEntry::Out);
    entry_names_read_back(n, StepEntry::Bound);
    entry_names_read_back(n, StepEntry::Advance);
    entry_names_read_back(n, StepEntry::Meas);
    entry_names_read_back(n, StepEntry::OnOverrun);
}

/// A retune of a scalar sets it to the given value and nothing else: a code that
/// selects something, or the number of a step. The length of the table is never
/// retuned, and anything else is refused.
pub proof fn retunes_set_the_named_scalar(sequence: SequenceView, value: Value)
    requires
        sequence.wf(),
    ensures
        ({
            let read = spec_tune_u64(sequence.name, "auto_start"@, value);
            let tuned = sequence.tuned("auto_start"@, value);
            &&& tuned is Ok <==> read is Ok && read->Ok_0 <= 1
            &&& tuned is Ok ==> {
                let auto_start = tuned->Ok_0.config.auto_start;
                &&& auto_start is Direct <==> read->Ok_0 == 0
                &&& auto_start is Pending <==> read->Ok_0 == 1
                &&& tuned->Ok_0 == (SequenceView {
                    config: BackwashSequenceConfig { auto_start, ..sequence.config },
                    ..sequence
                })
            }
        }),
        ({
            let read = spec_tune_u64(sequence.name, "on_fault_policy"@, value);
            let tuned = sequence.tuned("on_fault_policy"@, value);
            &&& tuned is Ok <==> read is Ok && read->Ok_0 <= 1
            &&& tuned is Ok ==> {
                let on_fault_policy = tuned->Ok_0.config.on_fault_policy;
                &&& on_fault_policy is Hold <==> read->Ok_0 == 0
                &&& on_fault_policy is Abort <==> read->Ok_0 == 1
                &&& tuned->Ok_0 == (SequenceView {
                    config: BackwashSequenceConfig { on_fault_policy, ..sequence.config },
                    ..sequence
                })
            }
        }),
        ({
            let read = spec_tune_u64(sequence.name, "abort_step"@, value);
            let tuned = sequence.tuned("abort_step"@, value);
            &&& tuned is Ok <==> read is Ok && 1 <= read->Ok_0 <= sequence.steps.len()
            &&& tuned is Ok ==> tuned->Ok_0 == (SequenceView {
                config: BackwashSequenceConfig {
                    abort_step: (read->Ok_0 - 1) as usize,
                    ..sequence.config
                },
                ..sequence
            })
        }),
        ({
            let read = spec_tune_u64(sequence.name, "on_fault_step"@, value);
            let tuned = sequence.tuned("on_fault_step"@, value);
            &&& tuned is Ok <==> read is Ok && 1 <= read->Ok_0 <= sequence.steps.len()
            &&& tuned is Ok ==> tuned->Ok_0 == (SequenceView {
                config: BackwashSequenceConfig {
                    on_fault_step: (read->Ok_0 - 1) as usize,
                    ..sequence.config
                },
                ..sequence
            })
        }),
        sequence.tuned("step_count"@, value) is Err,
{
    reveal_strlit("auto_start");
    reveal_strlit("on_fault_policy");
    reveal_strlit("abort_step");
    reveal_strlit("on_fault_step");
    reveal_strlit("step_count");
    assert("auto_start"@.len() == 10);
    assert("on_fault_policy"@.len() == 15);
    assert("abort_step"@.len() == 10);
    assert("on_fault_step"@.len() == 13);
    assert("step_count"@.len() == 10);
    assert("auto_start"@[1] != "abort_step"@[1]);
    assert("auto_start"@[0] != "step_count"@[0]);
    assert("abort_step"@[0] != "step_count"@[0]);
    lemma_scalar_names("auto_start"@);
    lemma_scalar_names("on_fault_policy"@);
    lemma_scalar_names("abort_step"@);
    lemma_scalar_names("on_fault_step"@);
    lemma_scalar_names("step_count"@);
}

/// Whether a checkpoint holds step `k`, counted from zero, as it stands after it
/// has been taken over by a table with the step `fixed` there: the duration, the
/// value and the bound are the held ones, and what is fixed is held as it is.
pub open spec fn holds_step(
    fields: Map<Seq<char>, Value>,
    name: Seq<char>,
    fixed: BackwashStep,
    step: BackwashStep,
    k: int,
) -> bool {
    let n = (k + 1) as nat;
    let bound = entry_name(n, StepEntry::Bound);
    let meas = entry_name(n, StepEntry::Meas);
    let ticks = int_field(fields, name, entry_name(n, StepEntry::Ticks));
    &&& ticks is Ok && ticks->Ok_0 == step.ticks
    &&& float_field(fields, name, entry_name(n, StepEntry::Out)) == Ok::<Float, StateErrorView>(
        step.value,
    )
    &&& step.value.finite()
    &&& step.advance == fixed.advance && int_field(
        fields,
        name,
        entry_name(n, StepEntry::Advance),
    ) == Ok::<i64, StateErrorView>(
        match fixed.advance {
            AdvanceMode::Timed => 0,
            AdvanceMode::Measured => 1,
            AdvanceMode::FirstOf => 2,
        },
    )
    &&& step.on_overrun == fixed.on_overrun && int_field(
        fields,
        name,
        entry_name(n, StepEntry::OnOverrun),
    ) == Ok::<i64, StateErrorView>(
        match fixed.on_overrun {
            OverrunPolicy::Advance => 0,
            OverrunPolicy::Hold => 1,
        },
    )
    &&& fields.dom().contains(bound) <==> step.bound is Some
    &&& fixed.bound is Some ==> step.bound is Some
    &&& step.bound is Some ==> fields[bound] == Value::Float(step.bound->0)
        && step.bound->0.finite()
    &&& step.meas == fixed.meas
    &&& fields.dom().contains(meas) <==> step.meas is Some
    &&& step.meas is Some ==> (fields[meas] matches Value::Int(held) && held == step.meas->0 + 1)
}

proof fn lemma_steps_held(
    fields: Map<Seq<char>, Value>,
    name: Seq<char>,
    fixed: Seq<BackwashStep>,
    done: nat,
)
    requires
        done <= fixed.len(),
    ensures
        restored_steps(fields, name, fixed, done) matches Ok(steps) ==> steps.len() == done
            && forall|k: int|
            0 <= k < done ==> holds_step(fields, name, fixed[k], #[trigger] steps[k], k),
    decreases done,
{
    if done > 0 {
        lemma_steps_held(fields, name, fixed, (done - 1) as nat);
        if let Ok(steps) = restored_steps(fields, name, fixed, done) {
            let earlier = restored_steps(fields, name, fixed, (done - 1) as nat)->Ok_0;
            lemma_step_held(fields, name, fixed[done - 1], done - 1);
            assert(restored_step(fields, name, done, fixed[done - 1]) is Ok);
            assert forall|k: int| 0 <= k < done implies holds_step(
                fields,
                name,
                fixed[k],
                #[trigger] steps[k],
                k,
            ) by {
                if k < done - 1 {
                    assert(steps[k] == earlier[k]);
                }
            }
        }
    }
}

proof fn lemma_step_held(
    fields: Map<Seq<char>, Value>,
    name: Seq<char>,
    fixed: BackwashStep,
    k: int,
)
    requires
        k >= 0,
    ensures
        restored_step(fields, name, (k + 1) as nat, fixed) matches Ok(step) ==> holds_step(
            fields,
            name,
            fixed,
            step,
            k,
        ),
{
}

/// A checkpoint that a sequence takes over holds nothing but known names, the
/// shape of the table that the sequence was built with, and a run that can
/// stand; the sequence then has the held tuning and stands as the checkpoint
/// says. An overrun can be held only where one stands, a waiting trigger only
/// without a run and under operator release, an end only without a run, `done`
/// at the last step and `aborted` with nothing banked, a hold only with a run,
/// and a source only with a run, an end or a waiting trigger.
pub proof fn restores_take_what_is_held(
    sequence: SequenceView,
    keys: Seq<Seq<char>>,
    fields: Map<Seq<char>, Value>,
    k: int,
)
    requires
        sequence.wf(),
        sequence.restored(keys, fields) is Ok,
    ensures
        ({
            let taken = sequence.restored(keys, fields)->Ok_0;
            let name = sequence.name;
            let count = sequence.steps.len();
            let config = taken.config;
            let number = |key: Seq<char>, value: int|
                int_field(fields, name, key) matches Ok(held) && held == value;
            let flag = |key: Seq<char>, value: bool|
                bool_field(fields, name, key) == Ok::<bool, StateErrorView>(value);
            let here = taken.steps[taken.current as int];
            let bit = |set: bool, weight: int|
                if set {
                    weight
                } else {
                    0
                };
            &&& known_fields(keys, name, step_names(sequence_names(), count)) is Ok
            &&& taken.name == name && taken.inputs == sequence.inputs
            &&& taken.outputs == sequence.outputs && taken.steps.len() == count
            &&& number("step_count"@, count as int)
            &&& number(
                "auto_start"@,
                if config.auto_start is Direct {
                    0
                } else {
                    1
                },
            )
            &&& number(
                "on_fault_policy"@,
                if config.on_fault_policy is Hold {
                    0
                } else {
                    1
                },
            )
            &&& number("abort_step"@, config.abort_step + 1) && config.abort_step < count
            &&& number("on_fault_step"@, config.on_fault_step + 1) && config.on_fault_step < count
            &&& 0 <= k < count ==> holds_step(fields, name, sequence.steps[k], taken.steps[k], k)
            &&& number("step"@, taken.current + 1) && taken.current < count
            &&& number("elapsed"@, taken.elapsed as int)
            &&& taken.elapsed <= here.ticks || taken.elapsed <= 1
            &&& flag("request"@, taken.armed) && flag("pending"@, taken.pending)
            &&& number("pending_source"@, taken.pending_source as int)
            &&& taken.pending ==> 1 <= taken.pending_source <= 3 && !taken.armed
                && config.auto_start is Pending
            &&& !taken.pending ==> taken.pending_source == 0
            &&& number("trigger_source"@, taken.trigger_source as int)
            &&& 0 <= taken.trigger_source <= 4
            &&& taken.trigger_source != 0 ==> taken.armed || taken.completed || taken.aborted
                || taken.pending
            &&& flag("done"@, taken.completed) && flag("aborted"@, taken.aborted)
            &&& taken.completed ==> !taken.armed && taken.current == count - 1
            &&& taken.aborted ==> !taken.armed && taken.elapsed == 0
            &&& flag("fault_hold"@, taken.fault_hold) && (taken.fault_hold ==> taken.armed)
            &&& bool_field(fields, name, "overrun"@) matches Ok(overrun) && (overrun
                ==> taken.armed && !taken.fault_hold && here.advance is Measured && taken.elapsed
                >= here.ticks && taken.elapsed >= 1)
            &&& number(
                "trigger_held"@,
                bit(taken.held.time, 1) + bit(taken.held.headloss, 2) + bit(
                    taken.held.turbidity,
                    4,
                ) + bit(taken.held.operator, 8),
            )
            &&& fields.dom().contains("fault_seen"@) ==> flag("fault_seen"@, taken.fault_seen)
            &&& !fields.dom().contains("fault_seen"@) ==> !taken.fault_seen
        }),
{
    lemma_steps_held(fields, sequence.name, sequence.steps, sequence.steps.len());
    let taken = sequence.restored(keys, fields)->Ok_0;
    let name = sequence.name;
    let steps = restored_steps(fields, name, sequence.steps, sequence.steps.len())->Ok_0;
    assert(taken.steps == steps);
}

/// A port with the given parts.
pub open spec fn wired(
    name: Seq<char>,
    direction: Direction,
    kind: ValueKind,
    point: PointId,
) -> RequirementView {
    RequirementView { name, direction, kind, point }
}

/// What the sequence is wired by: the four triggers, the grant, the abort and the
/// fault, the measured inputs in turn, the nine outputs of the status, and one
/// phase flag for each step. The hints follow the ports one by one.
pub proof fn wiring_is_described(sequence: SequenceView, i: int, j: int)
    requires
        sequence.outputs.phases@.len() == sequence.steps.len(),
        0 <= i < sequence.steps.len(),
    ensures
        ({
            let described = sequence.description();
            let ports = sequence.requirements();
            let roles = sequence.roles();
            let inputs = sequence.inputs;
            let outputs = sequence.outputs;
            let input = Direction::In;
            let output = Direction::Out;
            let flag = ValueKind::Bool;
            let count = inputs.meas@.len() as int;
            let at = 7 + count;
            let end = at + 9;
            &&& described.name == sequence.name && described.label == sequence.name
            &&& described.kind == "backwash-sequence"@
            &&& ports.len() == end + sequence.steps.len() && roles.len() == ports.len()
            &&& described.ports.len() == ports.len()
            &&& ports[0] == wired("trig_time"@, input, flag, inputs.trig_time)
            &&& ports[1] == wired("trig_headloss"@, input, flag, inputs.trig_headloss)
            &&& ports[2] == wired("trig_turbidity"@, input, flag, inputs.trig_turbidity)
            &&& ports[3] == wired("trig_operator"@, input, flag, inputs.trig_operator)
            &&& ports[4] == wired("grant"@, input, flag, inputs.grant)
            &&& ports[5] == wired("abort"@, input, flag, inputs.abort)
            &&& ports[6] == wired("fault"@, input, flag, inputs.fault)
            &&& roles[0] == ("trig_time"@, PortRole::ProcessValue)
            &&& roles[1] == ("trig_headloss"@, PortRole::ProcessValue)
            &&& roles[2] == ("trig_turbidity"@, PortRole::ProcessValue)
            &&& roles[3] == ("trig_operator"@, PortRole::Setpoint)
            &&& roles[4] == ("grant"@, PortRole::ProcessValue)
            &&& roles[5] == ("abort"@, PortRole::Setpoint)
            &&& roles[6] == ("fault"@, PortRole::ProcessValue)
            &&& 0 <= j < count ==> ports[7 + j] == wired(
                spec_numbered("meas_"@, (j + 1) as nat),
                input,
                ValueKind::Float,
                inputs.meas@[j],
            ) && roles[7 + j] == (ports[7 + j].name, PortRole::ProcessValue)
            &&& ports[at] == wired("request"@, output, flag, outputs.request)
            &&& ports[at + 1] == wired("active"@, output, flag, outputs.active)
            &&& ports[at + 2] == wired("pending"@, output, flag, outputs.pending)
            &&& ports[at + 3] == wired("done"@, output, flag, outputs.done)
            &&& ports[at + 4] == wired("aborted"@, output, flag, outputs.aborted)
            &&& ports[at + 5] == wired("overrun"@, output, flag, outputs.overrun)
            &&& ports[at + 6] == wired(
                "trigger_source"@,
                output,
                ValueKind::Int,
                outputs.trigger_source,
            )
            &&& ports[at + 7] == wired("step"@, output, ValueKind::Int, outputs.step)
            &&& ports[at + 8] == wired("out"@, output, ValueKind::Float, outputs.out)
            &&& roles[at] == ("request"@, PortRole::Output)
            &&& roles[at + 1] == ("active"@, PortRole::Status)
            &&& roles[at + 2] == ("pending"@, PortRole::Status)
            &&& roles[at + 3] == ("done"@, PortRole::Status)
            &&& roles[at + 4] == ("aborted"@, PortRole::Status)
            &&& roles[at + 5] == ("overrun"@, PortRole::Status)
            &&& roles[at + 6] == ("trigger_source"@, PortRole::Status)
            &&& roles[at + 7] == ("step"@, PortRole::Status)
            &&& roles[at + 8] == ("out"@, PortRole::Output)
            &&& ports[end + i] == wired(
                spec_numbered("phase_"@, (i + 1) as nat),
                output,
                flag,
                outputs.phases@[i],
            )
            &&& roles[end + i] == (ports[end + i].name, PortRole::Output)
        }),
{
    let count = sequence.inputs.meas@.len();
    lemma_meas_wiring(sequence.control_ports(), sequence.inputs.meas@, count);
    lemma_role_wiring(sequence.control_roles(), "meas_"@, PortRole::ProcessValue, count);
    lemma_phase_wiring(sequence.status_ports(), sequence.outputs.phases@, sequence.steps.len());
    lemma_role_wiring(
        sequence.status_roles(),
        "phase_"@,
        PortRole::Output,
        sequence.steps.len(),
    );
    let metered = meas_ports(sequence.control_ports(), sequence.inputs.meas@, count);
    let hinted = numbered_roles(
        sequence.control_roles(),
        "meas_"@,
        PortRole::ProcessValue,
        count,
    );
    assert(metered.len() == 7 + count && hinted.len() == 7 + count);
    let ports = sequence.status_ports();
    let roles = sequence.status_roles();
    assert forall|k: int| 0 <= k < metered.len() implies #[trigger] ports[k] == metered[k] by {}
    assert forall|k: int| 0 <= k < hinted.len() implies #[trigger] roles[k] == hinted[k] by {}
}

proof fn lemma_meas_wiring(leading: Seq<RequirementView>, meas: Seq<PointId>, done: nat)
    requires
        done <= meas.len(),
    ensures
        ({
            let ports = meas_ports(leading, meas, done);
            &&& ports.len() == leading.len() + done
            &&& forall|k: int| 0 <= k < leading.len() ==> #[trigger] ports[k] == leading[k]
            &&& forall|k: int|
                leading.len() <= k < ports.len() ==> (#[trigger] ports[k]) == wired(
                    spec_numbered("meas_"@, (k - leading.len() + 1) as nat),
                    Direction::In,
                    ValueKind::Float,
                    meas[k - leading.len()],
                )
        }),
    decreases done,
{
    if done > 0 {
        lemma_meas_wiring(leading, meas, (done - 1) as nat);
    }
}

proof fn lemma_phase_wiring(leading: Seq<RequirementView>, phases: Seq<PointId>, done: nat)
    requires
        done <= phases.len(),
    ensures
        ({
            let ports = phase_ports(leading, phases, done);
            &&& ports.len() == leading.len() + done
            &&& forall|k: int| 0 <= k < leading.len() ==> #[trigger] ports[k] == leading[k]
            &&& forall|k: int|
                leading.len() <= k < ports.len() ==> (#[trigger] ports[k]) == wired(
                    spec_numbered("phase_"@, (k - leading.len() + 1) as nat),
                    Direction::Out,
                    ValueKind::Bool,
                    phases[k - leading.len()],
                )
        }),
    decreases done,
{
    if done > 0 {
        lemma_phase_wiring(leading, phases, (done - 1) as nat);
    }
}

proof fn lemma_role_wiring(
    leading: Seq<(Seq<char>, PortRole)>,
    prefix: Seq<char>,
    role: PortRole,
    done: nat,
)
    ensures
        ({
            let roles = numbered_roles(leading, prefix, role, done);
            &&& roles.len() == leading.len() + done
            &&& forall|k: int| 0 <= k < leading.len() ==> #[trigger] roles[k] == leading[k]
            &&& forall|k: int|
                leading.len() <= k < roles.len() ==> (#[trigger] roles[k]) == (
                    spec_numbered(prefix, (k - leading.len() + 1) as nat),
                    role,
                )
        }),
    decreases done,
{
    if done > 0 {
        lemma_role_wiring(leading, prefix, role, (done - 1) as nat);
    }
}

/// A described parameter with the given parts.
pub open spec fn described(
    name: Seq<char>,
    kind: ValueKind,
    range: ParameterRange,
) -> ParameterView {
    ParameterView { name, kind, range: Some(range) }
}

/// The scalars that the sequence declares: the length of the table, the start,
/// the two positions, which are numbers of the table, and the fault policy.
pub proof fn scalars_are_described(sequence: SequenceView)
    ensures
        ({
            let declared = sequence.description().parameters;
            let integers = |min: i64, max: i64|
                ParameterRange { min: Value::Int(min), max: Value::Int(max) };
            let last = sequence.steps.len() as i64;
            &&& declared.len() >= 5
            &&& declared[0] == described("step_count"@, ValueKind::Int, integers(1, i64::MAX))
            &&& declared[1] == described("auto_start"@, ValueKind::Int, integers(0, 1))
            &&& declared[2] == described("abort_step"@, ValueKind::Int, integers(1, last))
            &&& declared[3] == described("on_fault_step"@, ValueKind::Int, integers(1, last))
            &&& declared[4] == described("on_fault_policy"@, ValueKind::Int, integers(0, 1))
        }),
{
    lemma_leading_kept(
        sequence.scalar_parameters(),
        sequence.steps,
        sequence.measurements(),
        sequence.steps.len(),
    );
}

proof fn lemma_leading_kept(
    leading: Seq<ParameterView>,
    steps: Seq<BackwashStep>,
    measurements: int,
    done: nat,
)
    ensures
        ({
            let declared = step_parameters(leading, steps, measurements, done);
            &&& declared.len() >= leading.len() + 4 * done
            &&& forall|k: int| 0 <= k < leading.len() ==> #[trigger] declared[k] == leading[k]
        }),
    decreases done,
{
    if done > 0 {
        lemma_leading_kept(leading, steps, measurements, (done - 1) as nat);
    }
}

/// The entries that each step declares: its duration, its value, its mode, its
/// bound and its measured input where it has them, and its overrun policy, each
/// with its kind and its bound. They follow those of the step before.
pub proof fn entries_are_described(
    leading: Seq<ParameterView>,
    steps: Seq<BackwashStep>,
    measurements: int,
    done: nat,
)
    requires
        1 <= done <= steps.len(),
    ensures
        ({
            let before = step_parameters(leading, steps, measurements, (done - 1) as nat);
            let declared = step_parameters(leading, steps, measurements, done);
            let step = steps[done - 1];
            let at = before.len() as int;
            let integers = |min: i64, max: i64|
                ParameterRange { min: Value::Int(min), max: Value::Int(max) };
            let finite = ParameterRange {
                min: Value::Float(Float { bits: 0xffef_ffff_ffff_ffff }),
                max: Value::Float(Float { bits: 0x7fef_ffff_ffff_ffff }),
            };
            let bounds = if step.bound is Some {
                1int
            } else {
                0
            };
            let selections = if step.meas is Some {
                1int
            } else {
                0
            };
            let last = if measurements > 1 {
                measurements as i64
            } else {
                1
            };
            &&& declared.len() == at + 4 + bounds + selections
            &&& declared.take(at) == before
            &&& declared[at] == described(
                entry_name(done, StepEntry::Ticks),
                ValueKind::Int,
                integers(0, i64::MAX),
            )
            &&& declared[at + 1] == described(
                entry_name(done, StepEntry::Out),
                ValueKind::Float,
                finite,
            )
            &&& declared[at + 2] == described(
                entry_name(done, StepEntry::Advance),
                ValueKind::Int,
                integers(0, 2),
            )
            &&& step.bound is Some ==> declared[at + 3] == described(
                entry_name(done, StepEntry::Bound),
                ValueKind::Float,
                finite,
            )
            &&& step.meas is Some ==> declared[at + 3 + bounds] == described(
                entry_name(done, StepEntry::Meas),
                ValueKind::Int,
                integers(1, last),
            )
            &&& declared[at + 3 + bounds + selections] == described(
                entry_name(done, StepEntry::OnOverrun),
                ValueKind::Int,
                integers(0, 1),
            )
        }),
{
    let before = step_parameters(leading, steps, measurements, (done - 1) as nat);
    let declared = step_parameters(leading, steps, measurements, done);
    assert(declared.take(before.len() as int) =~= before);
}

} // verus!
