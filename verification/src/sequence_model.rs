//! The model of a backwash sequence: what it is built from, what one scan
//! does to it, and what a checkpoint of it holds.

use crate::backwash_sequence::{
    AdvanceMode, AutoStart, BackwashSequence, BackwashSequenceConfig, BackwashSequenceInputs,
    BackwashSequenceOutputs, BackwashStep, FaultPolicy, OverrunPolicy, SequenceReadings,
    SequenceRun, StepEntry, Triggers,
};
use crate::describe::{
    spec_component, spec_finite_f64, spec_input, spec_int_range, spec_nonnegative_int,
    spec_output, spec_parameter, spec_positive_int, ComponentView, ParameterView, PortRole,
    RequirementView,
};
use crate::float::Float;
use crate::params::{
    spec_invalid, spec_invalid_parameter, spec_optional_f64, spec_optional_u64,
    spec_required_f64, spec_required_u64, spec_tune_f64, spec_tune_u64, spec_unknown_parameter,
    CommandErrorView, ParameterErrorView,
};
use crate::table::{
    bool_field, field, float_field, int_field, known_fields, optional, spec_invalid_value,
    StateErrorView,
};
use crate::text::{
    after_prefix, before_suffix, decimal, index_of, last_position, spec_indexed, spec_numbered,
};
use crate::value::{PointId, Quality, Reading, Tick, Value, ValueKind, Write};
use vstd::prelude::*;

verus! {

/// What a [`BackwashSequence`] is: its wiring, its table, its tuning and its
/// run state.
#[verifier::ext_equal]
pub struct SequenceView {
    pub name: Seq<char>,
    pub inputs: BackwashSequenceInputs,
    pub outputs: BackwashSequenceOutputs,
    pub steps: Seq<BackwashStep>,
    pub config: BackwashSequenceConfig,
    /// The reported position, counted from zero.
    pub current: usize,
    /// Scans banked in the current step.
    pub elapsed: u64,
    /// A run stands; `request` mirrors it.
    pub armed: bool,
    /// An automatic trigger waits for the operator.
    pub pending: bool,
    /// The automatic source that waits, or zero.
    pub pending_source: i64,
    /// The source that armed the run, held until the next arming.
    pub trigger_source: i64,
    /// The table ran to its end.
    pub completed: bool,
    /// An abort path fired.
    pub aborted: bool,
    /// The run is parked at the fault step.
    pub fault_hold: bool,
    /// What each trigger read in the last scan.
    pub held: Triggers,
    /// Whether the fault was seen standing: what it read in the last scan,
    /// where a rise in the scan that arms is left for the next one.
    pub fault_seen: bool,
}

impl BackwashStep {
    /// The tick bound that the step runs under: zero behaves as one.
    pub open spec fn bound_ticks(self) -> int {
        if self.ticks > 1 {
            self.ticks as int
        } else {
            1
        }
    }

    /// Whether the step waits for a measurement.
    pub open spec fn measured(self) -> bool {
        self.advance != AdvanceMode::Timed
    }

    /// Whether the step can stand in a table with `inputs` measured inputs.
    pub open spec fn valid(self, inputs: int) -> bool {
        &&& self.ticks <= i64::MAX
        &&& self.value.finite()
        &&& self.bound matches Some(bound) ==> bound.finite()
        &&& self.meas matches Some(meas) ==> meas < inputs
        &&& self.measured() ==> self.bound is Some && self.meas is Some
    }
}

impl SequenceView {
    /// The sequence with another run state.
    pub open spec fn with_run(self, run: SequenceRun) -> SequenceView {
        SequenceView {
            current: run.current,
            elapsed: run.elapsed,
            armed: run.armed,
            pending: run.pending,
            pending_source: run.pending_source,
            trigger_source: run.trigger_source,
            completed: run.completed,
            aborted: run.aborted,
            fault_hold: run.fault_hold,
            held: run.held,
            fault_seen: run.fault_seen,
            ..self
        }
    }

    /// How many steps the table has.
    pub open spec fn count(self) -> int {
        self.steps.len() as int
    }

    /// How many measured inputs are bound.
    pub open spec fn measurements(self) -> int {
        self.inputs.meas@.len() as int
    }

    /// The step that the position stands on.
    pub open spec fn step(self) -> BackwashStep {
        self.steps[self.current as int]
    }

    /// The invariant of a sequence.
    pub open spec fn wf(self) -> bool {
        &&& 0 < self.count() <= i64::MAX
        &&& self.count() <= usize::MAX
        &&& self.outputs.phases@.len() == self.count()
        &&& forall|i: int|
            0 <= i < self.count() ==> (#[trigger] self.steps[i]).valid(self.measurements())
        &&& self.config.abort_step < self.count()
        &&& self.config.on_fault_step < self.count()
        &&& self.current < self.count()
        &&& self.elapsed <= self.step().bound_ticks()
        &&& self.pending ==> !self.armed && 1 <= self.pending_source <= 3
        &&& !self.pending ==> self.pending_source == 0
        &&& 0 <= self.trigger_source <= 4
        &&& self.completed ==> !self.armed && self.current == self.count() - 1
        &&& self.aborted ==> !self.armed && self.elapsed == 0
        &&& self.fault_hold ==> self.armed
    }
}

/// The name of an entry of step `index`.
pub open spec fn entry_name(index: nat, entry: StepEntry) -> Seq<char> {
    match entry {
        StepEntry::Ticks => spec_indexed("step_"@, index, "_ticks"@),
        StepEntry::Out => spec_indexed("step_"@, index, "_out"@),
        StepEntry::Advance => spec_indexed("step_"@, index, "_advance"@),
        StepEntry::Bound => spec_indexed("step_"@, index, "_bound"@),
        StepEntry::Meas => spec_indexed("step_"@, index, "_meas"@),
        StepEntry::OnOverrun => spec_indexed("step_"@, index, "_on_overrun"@),
    }
}

/// The entry that a word names.
pub open spec fn entry_word(word: Seq<char>) -> Option<StepEntry> {
    if word == "ticks"@ {
        Some(StepEntry::Ticks)
    } else if word == "out"@ {
        Some(StepEntry::Out)
    } else if word == "advance"@ {
        Some(StepEntry::Advance)
    } else if word == "bound"@ {
        Some(StepEntry::Bound)
    } else if word == "meas"@ {
        Some(StepEntry::Meas)
    } else {
        None
    }
}

/// The step index and the entry that a parameter names. `on_overrun` has two
/// words, so it is looked for first; other entries are the last word.
pub open spec fn entry_named(parameter: Seq<char>) -> Option<(usize, StepEntry)> {
    match after_prefix(parameter, "step_"@) {
        None => None,
        Some(rest) => match before_suffix(rest, "_on_overrun"@) {
            Some(index) => match index_of(index) {
                Some(n) => Some((n, StepEntry::OnOverrun)),
                None => None,
            },
            None => match last_position(rest, '_') {
                None => None,
                Some(at) => match (index_of(rest.take(at)), entry_word(rest.skip(at + 1))) {
                    (Some(n), Some(entry)) => Some((n, entry)),
                    _ => None,
                },
            },
        },
    }
}

/// The first entry of step `index` that breaks the table.
pub open spec fn step_error(
    name: Seq<char>,
    index: nat,
    step: BackwashStep,
    measurements: nat,
) -> Option<ParameterErrorView> {
    if step.ticks > i64::MAX {
        Some(
            spec_invalid(
                name,
                entry_name(index, StepEntry::Ticks),
                "must not exceed i64::MAX, found "@ + decimal(step.ticks as nat),
            ),
        )
    } else if !step.value.finite() {
        Some(spec_invalid(name, entry_name(index, StepEntry::Out), "must be finite"@))
    } else if step.bound matches Some(bound) && !bound.finite() {
        Some(spec_invalid(name, entry_name(index, StepEntry::Bound), "must be finite"@))
    } else if step.bound is None && step.measured() {
        Some(
            spec_invalid(
                name,
                entry_name(index, StepEntry::Bound),
                "a measured step must declare its bound"@,
            ),
        )
    } else if step.meas matches Some(meas) && meas >= measurements {
        Some(
            spec_invalid(
                name,
                entry_name(index, StepEntry::Meas),
                "must select a bound meas input in 1..="@ + decimal(measurements),
            ),
        )
    } else if step.meas is None && step.measured() {
        Some(
            spec_invalid(
                name,
                entry_name(index, StepEntry::Meas),
                "a measured step must select a meas input"@,
            ),
        )
    } else {
        None
    }
}

/// The first of the first `done` steps that breaks the table.
pub open spec fn table_error(
    name: Seq<char>,
    steps: Seq<BackwashStep>,
    measurements: nat,
    done: nat,
) -> Option<ParameterErrorView>
    decreases done,
{
    if done == 0 {
        None
    } else {
        match table_error(name, steps, measurements, (done - 1) as nat) {
            Some(error) => Some(error),
            None => step_error(name, done, steps[done - 1], measurements),
        }
    }
}

/// A fresh sequence, or the first parameter that its parts break.
pub open spec fn spec_new(
    name: Seq<char>,
    inputs: BackwashSequenceInputs,
    outputs: BackwashSequenceOutputs,
    steps: Seq<BackwashStep>,
    config: BackwashSequenceConfig,
) -> Result<SequenceView, ParameterErrorView> {
    let measurements = inputs.meas@.len();
    let named = "must name a declared step in 1..="@ + decimal(steps.len());
    if steps.len() == 0 {
        Err(spec_invalid(name, "step_count"@, "must declare at least one step"@))
    } else if steps.len() > i64::MAX {
        Err(
            spec_invalid(
                name,
                "step_count"@,
                "must not exceed i64::MAX, found "@ + decimal(steps.len()),
            ),
        )
    } else if outputs.phases@.len() != steps.len() {
        Err(
            spec_invalid(
                name,
                "step_count"@,
                "declares "@ + decimal(steps.len()) + " steps but "@ + decimal(
                    outputs.phases@.len(),
                ) + " phase ports are bound"@,
            ),
        )
    } else {
        match table_error(name, steps, measurements, steps.len()) {
            Some(error) => Err(error),
            None => if config.abort_step >= steps.len() {
                Err(spec_invalid(name, "abort_step"@, named))
            } else if config.on_fault_step >= steps.len() {
                Err(spec_invalid(name, "on_fault_step"@, named))
            } else {
                Ok(
                    SequenceView {
                        name,
                        inputs,
                        outputs,
                        steps,
                        config,
                        current: 0,
                        elapsed: 0,
                        armed: false,
                        pending: false,
                        pending_source: 0,
                        trigger_source: 0,
                        completed: false,
                        aborted: false,
                        fault_hold: false,
                        held: Triggers::spec_released(),
                        fault_seen: false,
                    },
                )
            },
        }
    }
}

/// The measured input that the parameters select for step `index`.
pub open spec fn read_meas(
    name: Seq<char>,
    parameters: Map<Seq<char>, Value>,
    measurements: nat,
    advance: AdvanceMode,
    index: nat,
) -> Result<Option<usize>, ParameterErrorView> {
    let key = entry_name(index, StepEntry::Meas);
    match spec_optional_u64(name, parameters, key) {
        Err(error) => Err(error),
        Ok(None) => if advance != AdvanceMode::Timed {
            Err(ParameterErrorView::Missing { component: name, parameter: key })
        } else {
            Ok(None)
        },
        Ok(Some(selection)) => if 1 <= selection <= measurements {
            Ok(Some((selection - 1) as usize))
        } else {
            Err(
                spec_invalid(
                    name,
                    key,
                    "must select a bound meas input in 1..="@ + decimal(measurements)
                        + ", found "@ + decimal(selection as nat),
                ),
            )
        },
    }
}

/// The overrun policy that the parameters declare for step `index`.
pub open spec fn read_overrun(
    name: Seq<char>,
    parameters: Map<Seq<char>, Value>,
    index: nat,
) -> Result<OverrunPolicy, ParameterErrorView> {
    let key = entry_name(index, StepEntry::OnOverrun);
    match spec_required_u64(name, parameters, key) {
        Err(error) => Err(error),
        Ok(code) => match OverrunPolicy::spec_decode(code as int) {
            Some(policy) => Ok(policy),
            None => Err(
                spec_invalid(
                    name,
                    key,
                    "expected 0 (advance anyway) or 1 (hold and raise overrun), found "@
                        + decimal(code as nat),
                ),
            ),
        },
    }
}

/// The advance mode that the parameters declare for step `index`.
pub open spec fn read_advance(
    name: Seq<char>,
    parameters: Map<Seq<char>, Value>,
    index: nat,
) -> Result<AdvanceMode, ParameterErrorView> {
    let key = entry_name(index, StepEntry::Advance);
    match spec_required_u64(name, parameters, key) {
        Err(error) => Err(error),
        Ok(code) => match AdvanceMode::spec_decode(code as int) {
            Some(advance) => Ok(advance),
            None => Err(
                spec_invalid(
                    name,
                    key,
                    "expected 0 (timed), 1 (measured), or 2 (first of), found "@ + decimal(
                        code as nat,
                    ),
                ),
            ),
        },
    }
}

/// The duration that the parameters declare for step `index`.
pub open spec fn read_ticks(
    name: Seq<char>,
    parameters: Map<Seq<char>, Value>,
    index: nat,
) -> Result<u64, ParameterErrorView> {
    let key = entry_name(index, StepEntry::Ticks);
    match spec_required_u64(name, parameters, key) {
        Err(error) => Err(error),
        Ok(ticks) => if ticks > i64::MAX {
            Err(
                spec_invalid(
                    name,
                    key,
                    "must not exceed i64::MAX, found "@ + decimal(ticks as nat),
                ),
            )
        } else {
            Ok(ticks)
        },
    }
}

/// The measured bound that the parameters declare for step `index`.
pub open spec fn read_bound(
    name: Seq<char>,
    parameters: Map<Seq<char>, Value>,
    advance: AdvanceMode,
    index: nat,
) -> Result<Option<Float>, ParameterErrorView> {
    let key = entry_name(index, StepEntry::Bound);
    match spec_optional_f64(name, parameters, key) {
        Err(error) => Err(error),
        Ok(bound) => if bound is None && advance != AdvanceMode::Timed {
            Err(ParameterErrorView::Missing { component: name, parameter: key })
        } else {
            Ok(bound)
        },
    }
}

/// Step `index` as the parameters declare it, read entry by entry.
pub open spec fn read_step(
    name: Seq<char>,
    parameters: Map<Seq<char>, Value>,
    measurements: nat,
    index: nat,
) -> Result<BackwashStep, ParameterErrorView> {
    match read_ticks(name, parameters, index) {
        Err(error) => Err(error),
        Ok(ticks) => match spec_required_f64(name, parameters, entry_name(index, StepEntry::Out)) {
            Err(error) => Err(error),
            Ok(value) => match read_advance(name, parameters, index) {
                Err(error) => Err(error),
                Ok(advance) => match read_bound(name, parameters, advance, index) {
                    Err(error) => Err(error),
                    Ok(bound) => match read_meas(
                        name,
                        parameters,
                        measurements,
                        advance,
                        index,
                    ) {
                        Err(error) => Err(error),
                        Ok(meas) => match read_overrun(name, parameters, index) {
                            Err(error) => Err(error),
                            Ok(on_overrun) => Ok(
                                BackwashStep { ticks, value, advance, bound, meas, on_overrun },
                            ),
                        },
                    },
                },
            },
        },
    }
}

/// The first `done` steps as the parameters declare them.
pub open spec fn read_steps(
    name: Seq<char>,
    parameters: Map<Seq<char>, Value>,
    measurements: nat,
    done: nat,
) -> Result<Seq<BackwashStep>, ParameterErrorView>
    decreases done,
{
    if done == 0 {
        Ok(Seq::empty())
    } else {
        match read_steps(name, parameters, measurements, (done - 1) as nat) {
            Err(error) => Err(error),
            Ok(earlier) => match read_step(name, parameters, measurements, done) {
                Err(error) => Err(error),
                Ok(step) => Ok(earlier.push(step)),
            },
        }
    }
}

/// A parameter that names one of `count` steps, counted from one; the result
/// counts from zero.
pub open spec fn read_position(
    name: Seq<char>,
    parameters: Map<Seq<char>, Value>,
    key: Seq<char>,
    count: nat,
) -> Result<usize, ParameterErrorView> {
    match spec_required_u64(name, parameters, key) {
        Err(error) => Err(error),
        Ok(declared) => if 1 <= declared <= count {
            Ok((declared - 1) as usize)
        } else {
            Err(
                spec_invalid(
                    name,
                    key,
                    "must name a declared step in 1..="@ + decimal(count) + ", found "@ + decimal(
                        declared as nat,
                    ),
                ),
            )
        },
    }
}

/// The scalars that the parameters declare for a table of `count` steps.
pub open spec fn read_config(
    name: Seq<char>,
    parameters: Map<Seq<char>, Value>,
    count: nat,
) -> Result<BackwashSequenceConfig, ParameterErrorView> {
    match spec_required_u64(name, parameters, "auto_start"@) {
        Err(error) => Err(error),
        Ok(auto_code) => match AutoStart::spec_decode(auto_code as int) {
            None => Err(
                spec_invalid(
                    name,
                    "auto_start"@,
                    "expected 0 (automatic triggers request directly) or 1 (operator release of pending)"@,
                ),
            ),
            Some(auto_start) => match read_position(name, parameters, "abort_step"@, count) {
                Err(error) => Err(error),
                Ok(abort_step) => match read_position(name, parameters, "on_fault_step"@, count) {
                    Err(error) => Err(error),
                    Ok(on_fault_step) => match spec_required_u64(
                        name,
                        parameters,
                        "on_fault_policy"@,
                    ) {
                        Err(error) => Err(error),
                        Ok(policy_code) => match FaultPolicy::spec_decode(policy_code as int) {
                            None => Err(
                                spec_invalid(
                                    name,
                                    "on_fault_policy"@,
                                    "expected 0 (hold at the fault step) or 1 (abort)"@,
                                ),
                            ),
                            Some(on_fault_policy) => Ok(
                                BackwashSequenceConfig {
                                    auto_start,
                                    abort_step,
                                    on_fault_step,
                                    on_fault_policy,
                                },
                            ),
                        },
                    },
                },
            },
        },
    }
}

/// The table length that the parameters declare.
pub open spec fn read_count(name: Seq<char>, parameters: Map<Seq<char>, Value>) -> Result<
    u64,
    ParameterErrorView,
> {
    match spec_required_u64(name, parameters, "step_count"@) {
        Err(error) => Err(error),
        Ok(count) => if count == 0 {
            Err(spec_invalid(name, "step_count"@, "must be at least 1"@))
        } else if count > i64::MAX {
            Err(
                spec_invalid(
                    name,
                    "step_count"@,
                    "must not exceed i64::MAX, found "@ + decimal(count as nat),
                ),
            )
        } else {
            Ok(count)
        },
    }
}

/// The sequence that the parameters declare.
pub open spec fn spec_from_parameters(
    name: Seq<char>,
    inputs: BackwashSequenceInputs,
    outputs: BackwashSequenceOutputs,
    parameters: Map<Seq<char>, Value>,
) -> Result<SequenceView, ParameterErrorView> {
    match read_count(name, parameters) {
        Err(error) => Err(error),
        Ok(count) => match read_steps(name, parameters, inputs.meas@.len(), count as nat) {
            Err(error) => Err(error),
            Ok(steps) => match read_config(name, parameters, count as nat) {
                Err(error) => Err(error),
                Ok(config) => spec_new(name, inputs, outputs, steps, config),
            },
        },
    }
}

impl Triggers {
    /// No trigger asserted.
    pub open spec fn spec_released() -> Triggers {
        Triggers { time: false, headloss: false, turbidity: false, operator: false }
    }

    /// The triggers that rose since `earlier`.
    pub open spec fn risen(self, earlier: Triggers) -> Triggers {
        Triggers {
            time: self.time && !earlier.time,
            headloss: self.headloss && !earlier.headloss,
            turbidity: self.turbidity && !earlier.turbidity,
            operator: self.operator && !earlier.operator,
        }
    }

    /// The first asserted source in declaration order, or zero.
    pub open spec fn first(self) -> i64 {
        if self.time {
            1
        } else if self.headloss {
            2
        } else if self.turbidity {
            3
        } else if self.operator {
            4
        } else {
            0
        }
    }

    /// The asserted sources as a bit mask, `trig_time` lowest.
    pub open spec fn mask(self) -> int {
        (if self.time {
            1int
        } else {
            0
        }) + (if self.headloss {
            2int
        } else {
            0
        }) + (if self.turbidity {
            4int
        } else {
            0
        }) + (if self.operator {
            8int
        } else {
            0
        })
    }

    /// The sources that a bit mask names.
    pub open spec fn of_mask(mask: int) -> Triggers {
        Triggers {
            time: mask % 2 == 1,
            headloss: mask / 2 % 2 == 1,
            turbidity: mask / 4 % 2 == 1,
            operator: mask / 8 % 2 == 1,
        }
    }
}

impl SequenceReadings {
    /// The triggers that read asserted; an untrusted one reads released.
    pub open spec fn asserted(self) -> Triggers {
        Triggers {
            time: self.trig_time.trusted(),
            headloss: self.trig_headloss.trusted(),
            turbidity: self.trig_turbidity.trusted(),
            operator: self.trig_operator.trusted(),
        }
    }

    /// The worst quality of the seven control inputs.
    pub open spec fn quality(self) -> Quality {
        self.trig_time.quality.spec_merge(self.trig_headloss.quality).spec_merge(
            self.trig_turbidity.quality,
        ).spec_merge(self.trig_operator.quality).spec_merge(self.grant.quality).spec_merge(
            self.abort.quality,
        ).spec_merge(self.fault.quality)
    }
}

impl SequenceView {
    /// The sequence with a fresh run armed by `source`.
    pub open spec fn armed_by(self, source: i64) -> SequenceView {
        SequenceView {
            armed: true,
            pending: false,
            pending_source: 0,
            trigger_source: source,
            completed: false,
            aborted: false,
            fault_hold: false,
            current: 0,
            elapsed: 0,
            ..self
        }
    }

    /// The sequence on the abort path: at the abort step, the request
    /// dropped.
    pub open spec fn aborting(self) -> SequenceView {
        SequenceView {
            armed: false,
            aborted: true,
            completed: false,
            fault_hold: false,
            pending: false,
            pending_source: 0,
            current: self.config.abort_step,
            elapsed: 0,
            ..self
        }
    }

    /// What the inputs of a scan do to a standing run: an abort dominates, a
    /// rising fault follows its policy, and the operator's edge resumes a
    /// held run once the fault has cleared.
    pub open spec fn run_transition(
        self,
        scan: SequenceReadings,
        operator_edge: bool,
        fault_edge: bool,
    ) -> SequenceView {
        if scan.abort.trusted() {
            self.aborting()
        } else if fault_edge && !self.fault_hold {
            match self.config.on_fault_policy {
                FaultPolicy::Abort => self.aborting(),
                FaultPolicy::Hold => SequenceView {
                    fault_hold: true,
                    current: self.config.on_fault_step,
                    elapsed: 0,
                    ..self
                },
            }
        } else if self.fault_hold && operator_edge && !scan.fault.trusted() {
            SequenceView { fault_hold: false, ..self }
        } else {
            self
        }
    }

    /// What the inputs of a scan do while no run stands: an abort cancels a
    /// waiting trigger, the operator releases one, and otherwise an edge
    /// arms or, where automatic starts wait, latches.
    pub open spec fn idle_transition(
        self,
        scan: SequenceReadings,
        edges: Triggers,
    ) -> SequenceView {
        if scan.abort.trusted() {
            SequenceView { pending: false, pending_source: 0, ..self }
        } else if self.pending {
            if edges.operator {
                self.armed_by(self.pending_source)
            } else {
                self
            }
        } else if edges.first() == 0 {
            self
        } else {
            match self.config.auto_start {
                AutoStart::Direct => self.armed_by(edges.first()),
                AutoStart::Pending => if edges.operator {
                    self.armed_by(4)
                } else {
                    SequenceView { pending: true, pending_source: edges.first(), ..self }
                },
            }
        }
    }

    /// The sequence after the inputs of a scan, before the step table is
    /// looked at.
    pub open spec fn transitioned(self, scan: SequenceReadings) -> SequenceView {
        let asserted = scan.asserted();
        let edges = asserted.risen(self.held);
        let fault = scan.fault.trusted();
        let seen = SequenceView { held: asserted, fault_seen: fault, ..self };
        if self.armed {
            seen.run_transition(scan, edges.operator, fault && !self.fault_seen)
        } else {
            let next = seen.idle_transition(scan, edges);
            SequenceView { fault_seen: fault && (self.fault_seen || !next.armed), ..next }
        }
    }

    /// The measured input that the scan reads: the reported step's own, while
    /// a run stands on a measured step.
    pub open spec fn measured_input(self, scan: SequenceReadings) -> Option<usize> {
        let after = self.transitioned(scan);
        if after.armed && after.step().measured() {
            after.step().meas
        } else {
            None
        }
    }

    /// Whether a reading satisfies the reported step's bound.
    pub open spec fn satisfied(self, meas: Option<Reading<Float>>) -> bool {
        match (meas, self.step().bound) {
            (Some(reading), Some(bound)) => reading.quality == Quality::Good && bound.le(
                reading.value,
            ),
            _ => false,
        }
    }

    /// Whether the table steps in the scan: a run stands, is not parked, and
    /// holds the grant.
    pub open spec fn stepping(self, scan: SequenceReadings) -> bool {
        self.armed && !self.fault_hold && scan.grant.trusted()
    }

    /// Whether the banked count reaches the tick bound in a stepping scan.
    pub open spec fn timed_out(self) -> bool {
        self.elapsed + 1 >= self.step().bound_ticks()
    }

    /// Whether a stepping scan ends the reported step.
    pub open spec fn advances(self, satisfied: bool) -> bool {
        match self.step().advance {
            AdvanceMode::Timed => self.timed_out(),
            AdvanceMode::Measured => satisfied || (self.timed_out() && self.step().on_overrun
                == OverrunPolicy::Advance),
            AdvanceMode::FirstOf => satisfied || self.timed_out(),
        }
    }

    /// Whether a measured step stands past its tick bound unsatisfied.
    pub open spec fn overruns(self, scan: SequenceReadings, satisfied: bool) -> bool {
        self.stepping(scan) && self.step().advance == AdvanceMode::Measured && self.timed_out()
            && !satisfied
    }

    /// One more banked scan, clamped at the tick bound.
    pub open spec fn banked(self) -> u64 {
        if self.timed_out() {
            self.step().bound_ticks() as u64
        } else {
            (self.elapsed + 1) as u64
        }
    }

    /// The sequence after a stepping scan: the next step, the end of the
    /// table, or the same step with one more scan banked.
    pub open spec fn stepped(self, satisfied: bool) -> SequenceView {
        if !self.advances(satisfied) {
            SequenceView { elapsed: self.banked(), ..self }
        } else if self.current == self.count() - 1 {
            SequenceView { completed: true, armed: false, elapsed: self.banked(), ..self }
        } else {
            SequenceView { current: (self.current + 1) as usize, elapsed: 0, ..self }
        }
    }

    /// The sequence after a scan.
    pub open spec fn after(
        self,
        scan: SequenceReadings,
        meas: Option<Reading<Float>>,
    ) -> SequenceView {
        let reported = self.transitioned(scan);
        if reported.stepping(scan) {
            reported.stepped(reported.satisfied(meas))
        } else {
            reported
        }
    }
}

/// The phase flags of the first `done` steps, after the writes in `leading`:
/// the one at `position` asserts.
pub open spec fn phase_writes(
    leading: Seq<Write>,
    phases: Seq<PointId>,
    position: int,
    quality: Quality,
    tick: Tick,
    done: nat,
) -> Seq<Write>
    decreases done,
{
    if done == 0 {
        leading
    } else {
        phase_writes(leading, phases, position, quality, tick, (done - 1) as nat).push(
            Write::of(phases[done - 1], Value::Bool(done - 1 == position), quality, tick),
        )
    }
}

impl SequenceView {
    /// The quality of everything the sequence drives in a scan.
    pub open spec fn write_quality(
        self,
        scan: SequenceReadings,
        meas: Option<Reading<Float>>,
    ) -> Quality {
        match meas {
            Some(reading) => scan.quality().spec_merge(reading.quality),
            None => scan.quality(),
        }
    }

    /// The status that a sequence drives, with the position and the value
    /// that it reports.
    pub open spec fn status_writes(
        self,
        stepping: bool,
        overran: bool,
        position: usize,
        value: Float,
        quality: Quality,
        tick: Tick,
    ) -> Seq<Write> {
        let out = self.outputs;
        seq![
            Write::of(out.request, Value::Bool(self.armed), quality, tick),
            Write::of(out.active, Value::Bool(stepping), quality, tick),
            Write::of(out.pending, Value::Bool(self.pending), quality, tick),
            Write::of(out.done, Value::Bool(self.completed), quality, tick),
            Write::of(out.aborted, Value::Bool(self.aborted), quality, tick),
            Write::of(out.overrun, Value::Bool(overran), quality, tick),
            Write::of(out.trigger_source, Value::Int(self.trigger_source), quality, tick),
            Write::of(out.step, Value::Int((position + 1) as i64), quality, tick),
            Write::of(out.out, Value::Float(value), quality, tick),
        ]
    }

    /// Everything the sequence drives in a scan, in order: the status after
    /// the scan, the position before the advance.
    pub open spec fn writes(
        self,
        scan: SequenceReadings,
        meas: Option<Reading<Float>>,
        tick: Tick,
    ) -> Seq<Write> {
        let reported = self.transitioned(scan);
        let quality = self.write_quality(scan, meas);
        phase_writes(
            self.after(scan, meas).status_writes(
                reported.stepping(scan),
                reported.overruns(scan, reported.satisfied(meas)),
                reported.current,
                reported.step().value,
                quality,
                tick,
            ),
            self.outputs.phases@,
            reported.current as int,
            quality,
            tick,
            self.outputs.phases@.len(),
        )
    }

    /// A retuned double that must be finite.
    pub open spec fn tuned_finite(self, parameter: Seq<char>, value: Value) -> Result<
        Float,
        CommandErrorView,
    > {
        match spec_tune_f64(self.name, parameter, value) {
            Err(error) => Err(error),
            Ok(tuned) => if tuned.finite() {
                Ok(tuned)
            } else {
                Err(spec_invalid_parameter(self.name, parameter, "must be finite"@))
            },
        }
    }

    /// The sequence with step `i` replaced.
    pub open spec fn with_step(self, i: int, step: BackwashStep) -> SequenceView {
        SequenceView { steps: self.steps.update(i, step), ..self }
    }

    /// The sequence after a retune of an entry of step `i`, or its refusal.
    ///
    /// Shrinking the duration of the current step clamps the banked count
    /// below it, so that the step ends at the next stepping scan.
    pub open spec fn tuned_entry(
        self,
        parameter: Seq<char>,
        value: Value,
        i: int,
        entry: StepEntry,
    ) -> Result<SequenceView, CommandErrorView> {
        let step = self.steps[i];
        match entry {
            StepEntry::Ticks => match spec_tune_u64(self.name, parameter, value) {
                Err(error) => Err(error),
                Ok(ticks) => if ticks > i64::MAX {
                    Err(spec_invalid_parameter(self.name, parameter, "must not exceed i64::MAX"@))
                } else {
                    let retimed = BackwashStep { ticks, ..step };
                    let kept = if self.elapsed < retimed.bound_ticks() {
                        self.elapsed
                    } else {
                        (retimed.bound_ticks() - 1) as u64
                    };
                    Ok(
                        SequenceView {
                            elapsed: if self.current == i {
                                kept
                            } else {
                                self.elapsed
                            },
                            ..self.with_step(i, retimed)
                        },
                    )
                },
            },
            StepEntry::Out => match self.tuned_finite(parameter, value) {
                Err(error) => Err(error),
                Ok(tuned) => Ok(self.with_step(i, BackwashStep { value: tuned, ..step })),
            },
            StepEntry::Bound => match self.tuned_finite(parameter, value) {
                Err(error) => Err(error),
                Ok(tuned) => if step.bound is Some {
                    Ok(self.with_step(i, BackwashStep { bound: Some(tuned), ..step }))
                } else {
                    Err(
                        spec_invalid_parameter(
                            self.name,
                            parameter,
                            "the step declares no measured bound"@,
                        ),
                    )
                },
            },
            _ => Err(
                spec_invalid_parameter(
                    self.name,
                    parameter,
                    "the step's advance mode, meas selection, and overrun policy are fixed at construction"@,
                ),
            ),
        }
    }

    /// A retuned step position, counted from zero.
    pub open spec fn tuned_position(self, parameter: Seq<char>, value: Value) -> Result<
        usize,
        CommandErrorView,
    > {
        match spec_tune_u64(self.name, parameter, value) {
            Err(error) => Err(error),
            Ok(position) => if 1 <= position <= self.count() {
                Ok((position - 1) as usize)
            } else {
                Err(spec_invalid_parameter(self.name, parameter, "must name a declared step"@))
            },
        }
    }

    /// The sequence after a retune of a scalar, or its refusal.
    pub open spec fn tuned_scalar(self, parameter: Seq<char>, value: Value) -> Result<
        SequenceView,
        CommandErrorView,
    > {
        let config = self.config;
        if parameter == "auto_start"@ {
            match spec_tune_u64(self.name, parameter, value) {
                Err(error) => Err(error),
                Ok(code) => match AutoStart::spec_decode(code as int) {
                    None => Err(
                        spec_invalid_parameter(
                            self.name,
                            parameter,
                            "expected 0 (automatic triggers request directly) or 1 (operator release of pending)"@,
                        ),
                    ),
                    Some(auto_start) => Ok(
                        SequenceView {
                            config: BackwashSequenceConfig { auto_start, ..config },
                            ..self
                        },
                    ),
                },
            }
        } else if parameter == "on_fault_policy"@ {
            match spec_tune_u64(self.name, parameter, value) {
                Err(error) => Err(error),
                Ok(code) => match FaultPolicy::spec_decode(code as int) {
                    None => Err(
                        spec_invalid_parameter(
                            self.name,
                            parameter,
                            "expected 0 (hold at the fault step) or 1 (abort)"@,
                        ),
                    ),
                    Some(on_fault_policy) => Ok(
                        SequenceView {
                            config: BackwashSequenceConfig { on_fault_policy, ..config },
                            ..self
                        },
                    ),
                },
            }
        } else if parameter == "abort_step"@ {
            match self.tuned_position(parameter, value) {
                Err(error) => Err(error),
                Ok(abort_step) => Ok(
                    SequenceView {
                        config: BackwashSequenceConfig { abort_step, ..config },
                        ..self
                    },
                ),
            }
        } else if parameter == "on_fault_step"@ {
            match self.tuned_position(parameter, value) {
                Err(error) => Err(error),
                Ok(on_fault_step) => Ok(
                    SequenceView {
                        config: BackwashSequenceConfig { on_fault_step, ..config },
                        ..self
                    },
                ),
            }
        } else if parameter == "step_count"@ {
            Err(
                spec_invalid_parameter(
                    self.name,
                    parameter,
                    "the step count is fixed at construction"@,
                ),
            )
        } else {
            Err(spec_unknown_parameter(self.name, parameter))
        }
    }

    /// The sequence after a retune, or its refusal.
    pub open spec fn tuned(self, parameter: Seq<char>, value: Value) -> Result<
        SequenceView,
        CommandErrorView,
    > {
        match entry_named(parameter) {
            Some((index, entry)) => if 1 <= index <= self.count() {
                self.tuned_entry(parameter, value, index - 1, entry)
            } else {
                Err(spec_unknown_parameter(self.name, parameter))
            },
            None => self.tuned_scalar(parameter, value),
        }
    }
}

/// The measured input ports, after the ports in `leading`.
pub open spec fn meas_ports(
    leading: Seq<RequirementView>,
    meas: Seq<PointId>,
    done: nat,
) -> Seq<RequirementView>
    decreases done,
{
    if done == 0 {
        leading
    } else {
        meas_ports(leading, meas, (done - 1) as nat).push(
            spec_input(spec_numbered("meas_"@, done), ValueKind::Float, meas[done - 1]),
        )
    }
}

/// The phase ports, after the ports in `leading`.
pub open spec fn phase_ports(
    leading: Seq<RequirementView>,
    phases: Seq<PointId>,
    done: nat,
) -> Seq<RequirementView>
    decreases done,
{
    if done == 0 {
        leading
    } else {
        phase_ports(leading, phases, (done - 1) as nat).push(
            spec_output(spec_numbered("phase_"@, done), ValueKind::Bool, phases[done - 1]),
        )
    }
}

/// Roles for ports with numbered names, after the roles in `leading`.
pub open spec fn numbered_roles(
    leading: Seq<(Seq<char>, PortRole)>,
    prefix: Seq<char>,
    role: PortRole,
    done: nat,
) -> Seq<(Seq<char>, PortRole)>
    decreases done,
{
    if done == 0 {
        leading
    } else {
        numbered_roles(leading, prefix, role, (done - 1) as nat).push(
            (spec_numbered(prefix, done), role),
        )
    }
}

/// The parameters of the first `done` steps, after those in `leading`. The
/// measured entries are declared where the step carries them.
pub open spec fn step_parameters(
    leading: Seq<ParameterView>,
    steps: Seq<BackwashStep>,
    measurements: int,
    done: nat,
) -> Seq<ParameterView>
    decreases done,
{
    if done == 0 {
        leading
    } else {
        let step = steps[done - 1];
        let timing = step_parameters(leading, steps, measurements, (done - 1) as nat).push(
            spec_parameter(
                entry_name(done, StepEntry::Ticks),
                ValueKind::Int,
                spec_nonnegative_int(),
            ),
        ).push(
            spec_parameter(entry_name(done, StepEntry::Out), ValueKind::Float, spec_finite_f64()),
        ).push(
            spec_parameter(
                entry_name(done, StepEntry::Advance),
                ValueKind::Int,
                spec_int_range(0, 2),
            ),
        );
        let bounded = if step.bound is Some {
            timing.push(
                spec_parameter(
                    entry_name(done, StepEntry::Bound),
                    ValueKind::Float,
                    spec_finite_f64(),
                ),
            )
        } else {
            timing
        };
        let selected = if step.meas is Some {
            bounded.push(
                spec_parameter(
                    entry_name(done, StepEntry::Meas),
                    ValueKind::Int,
                    spec_int_range(
                        1,
                        if measurements > 1 {
                            measurements as i64
                        } else {
                            1
                        },
                    ),
                ),
            )
        } else {
            bounded
        };
        selected.push(
            spec_parameter(
                entry_name(done, StepEntry::OnOverrun),
                ValueKind::Int,
                spec_int_range(0, 1),
            ),
        )
    }
}

impl SequenceView {
    /// The ports before the measured inputs.
    pub open spec fn control_ports(self) -> Seq<RequirementView> {
        seq![
            spec_input("trig_time"@, ValueKind::Bool, self.inputs.trig_time),
            spec_input("trig_headloss"@, ValueKind::Bool, self.inputs.trig_headloss),
            spec_input("trig_turbidity"@, ValueKind::Bool, self.inputs.trig_turbidity),
            spec_input("trig_operator"@, ValueKind::Bool, self.inputs.trig_operator),
            spec_input("grant"@, ValueKind::Bool, self.inputs.grant),
            spec_input("abort"@, ValueKind::Bool, self.inputs.abort),
            spec_input("fault"@, ValueKind::Bool, self.inputs.fault),
        ]
    }

    /// The ports before the phase flags.
    pub open spec fn status_ports(self) -> Seq<RequirementView> {
        let out = self.outputs;
        meas_ports(self.control_ports(), self.inputs.meas@, self.inputs.meas@.len()).push(
            spec_output("request"@, ValueKind::Bool, out.request),
        ).push(spec_output("active"@, ValueKind::Bool, out.active)).push(
            spec_output("pending"@, ValueKind::Bool, out.pending),
        ).push(spec_output("done"@, ValueKind::Bool, out.done)).push(
            spec_output("aborted"@, ValueKind::Bool, out.aborted),
        ).push(spec_output("overrun"@, ValueKind::Bool, out.overrun)).push(
            spec_output("trigger_source"@, ValueKind::Int, out.trigger_source),
        ).push(spec_output("step"@, ValueKind::Int, out.step)).push(
            spec_output("out"@, ValueKind::Float, out.out),
        )
    }

    /// The declared ports.
    pub open spec fn requirements(self) -> Seq<RequirementView> {
        phase_ports(self.status_ports(), self.outputs.phases@, self.outputs.phases@.len())
    }

    /// The roles of the control ports.
    pub open spec fn control_roles(self) -> Seq<(Seq<char>, PortRole)> {
        seq![
            ("trig_time"@, PortRole::ProcessValue),
            ("trig_headloss"@, PortRole::ProcessValue),
            ("trig_turbidity"@, PortRole::ProcessValue),
            ("trig_operator"@, PortRole::Setpoint),
            ("grant"@, PortRole::ProcessValue),
            ("abort"@, PortRole::Setpoint),
            ("fault"@, PortRole::ProcessValue),
        ]
    }

    /// The roles of the ports before the phase flags.
    pub open spec fn status_roles(self) -> Seq<(Seq<char>, PortRole)> {
        numbered_roles(
            self.control_roles(),
            "meas_"@,
            PortRole::ProcessValue,
            self.inputs.meas@.len(),
        ).push(("request"@, PortRole::Output)).push(("active"@, PortRole::Status)).push(
            ("pending"@, PortRole::Status),
        ).push(("done"@, PortRole::Status)).push(("aborted"@, PortRole::Status)).push(
            ("overrun"@, PortRole::Status),
        ).push(("trigger_source"@, PortRole::Status)).push(("step"@, PortRole::Status)).push(
            ("out"@, PortRole::Output),
        )
    }

    /// The roles of the ports.
    pub open spec fn roles(self) -> Seq<(Seq<char>, PortRole)> {
        numbered_roles(self.status_roles(), "phase_"@, PortRole::Output, self.steps.len())
    }

    /// The parameters before those of the steps.
    pub open spec fn scalar_parameters(self) -> Seq<ParameterView> {
        let positions = spec_int_range(1, self.count() as i64);
        seq![
            spec_parameter("step_count"@, ValueKind::Int, spec_positive_int()),
            spec_parameter("auto_start"@, ValueKind::Int, spec_int_range(0, 1)),
            spec_parameter("abort_step"@, ValueKind::Int, positions),
            spec_parameter("on_fault_step"@, ValueKind::Int, positions),
            spec_parameter("on_fault_policy"@, ValueKind::Int, spec_int_range(0, 1)),
        ]
    }

    /// The sequence's description.
    pub open spec fn description(self) -> ComponentView {
        spec_component(
            self.name,
            BackwashSequence::KIND@,
            self.requirements(),
            self.roles(),
            step_parameters(
                self.scalar_parameters(),
                self.steps,
                self.measurements(),
                self.steps.len(),
            ),
        )
    }
}

/// The table's first `done` steps, put into `fields`. The measured entries
/// are there where the step carries them.
pub open spec fn with_steps(
    fields: Map<Seq<char>, Value>,
    steps: Seq<BackwashStep>,
    done: nat,
) -> Map<Seq<char>, Value>
    decreases done,
{
    if done == 0 {
        fields
    } else {
        let step = steps[done - 1];
        let timing = with_steps(fields, steps, (done - 1) as nat).insert(
            entry_name(done, StepEntry::Ticks),
            Value::Int(step.ticks as i64),
        ).insert(entry_name(done, StepEntry::Out), Value::Float(step.value)).insert(
            entry_name(done, StepEntry::Advance),
            Value::Int(step.advance.spec_code()),
        );
        let bounded = match step.bound {
            Some(bound) => timing.insert(entry_name(done, StepEntry::Bound), Value::Float(bound)),
            None => timing,
        };
        let selected = match step.meas {
            Some(meas) => bounded.insert(
                entry_name(done, StepEntry::Meas),
                Value::Int((meas + 1) as i64),
            ),
            None => bounded,
        };
        selected.insert(
            entry_name(done, StepEntry::OnOverrun),
            Value::Int(step.on_overrun.spec_code()),
        )
    }
}

impl SequenceView {
    /// The scalars as fields.
    pub open spec fn scalars(self) -> Map<Seq<char>, Value> {
        Map::empty().insert("step_count"@, Value::Int(self.count() as i64)).insert(
            "auto_start"@,
            Value::Int(self.config.auto_start.spec_code()),
        ).insert("abort_step"@, Value::Int((self.config.abort_step + 1) as i64)).insert(
            "on_fault_step"@,
            Value::Int((self.config.on_fault_step + 1) as i64),
        ).insert("on_fault_policy"@, Value::Int(self.config.on_fault_policy.spec_code()))
    }

    /// The table and the scalars as fields.
    pub open spec fn reported(self) -> Map<Seq<char>, Value> {
        with_steps(self.scalars(), self.steps, self.steps.len())
    }

    /// Whether an overrun stands: a run parked at a measured step's tick
    /// bound.
    pub open spec fn overrun_stands(self) -> bool {
        &&& self.armed
        &&& !self.fault_hold
        &&& self.step().advance == AdvanceMode::Measured
        &&& self.elapsed >= self.step().bound_ticks()
    }

    /// The table, the scalars and the run state as fields.
    pub open spec fn captured(self) -> Map<Seq<char>, Value> {
        self.with_run_state(self.reported())
    }

    /// The run state, put into `fields`.
    pub open spec fn with_run_state(self, fields: Map<Seq<char>, Value>) -> Map<
        Seq<char>,
        Value,
    > {
        fields.insert("step"@, Value::Int((self.current + 1) as i64)).insert(
            "elapsed"@,
            Value::Int(self.elapsed as i64),
        ).insert("request"@, Value::Bool(self.armed)).insert(
            "pending"@,
            Value::Bool(self.pending),
        ).insert("pending_source"@, Value::Int(self.pending_source)).insert(
            "trigger_source"@,
            Value::Int(self.trigger_source),
        ).insert("done"@, Value::Bool(self.completed)).insert(
            "aborted"@,
            Value::Bool(self.aborted),
        ).insert("fault_hold"@, Value::Bool(self.fault_hold)).insert(
            "overrun"@,
            Value::Bool(self.overrun_stands()),
        ).insert("trigger_held"@, Value::Int(self.held.mask() as i64)).insert(
            "fault_seen"@,
            Value::Bool(self.fault_seen),
        )
    }
}

/// The names of the fields of the first `done` steps, after those in
/// `leading`.
pub open spec fn step_names(leading: Seq<Seq<char>>, done: nat) -> Seq<Seq<char>>
    decreases done,
{
    if done == 0 {
        leading
    } else {
        step_names(leading, (done - 1) as nat).push(entry_name(done, StepEntry::Ticks)).push(
            entry_name(done, StepEntry::Out),
        ).push(entry_name(done, StepEntry::Advance)).push(
            entry_name(done, StepEntry::Bound),
        ).push(entry_name(done, StepEntry::Meas)).push(entry_name(done, StepEntry::OnOverrun))
    }
}

/// The names of the sequence's own fields.
pub open spec fn sequence_names() -> Seq<Seq<char>> {
    seq![
        "step"@,
        "elapsed"@,
        "request"@,
        "pending"@,
        "pending_source"@,
        "trigger_source"@,
        "done"@,
        "aborted"@,
        "fault_hold"@,
        "overrun"@,
        "trigger_held"@,
        "step_count"@,
        "auto_start"@,
        "abort_step"@,
        "on_fault_step"@,
        "on_fault_policy"@,
        "fault_seen"@,
    ]
}

/// A field that names one of `count` steps, counted from one.
pub open spec fn position_field(
    fields: Map<Seq<char>, Value>,
    name: Seq<char>,
    key: Seq<char>,
    count: int,
) -> Result<i64, StateErrorView> {
    match int_field(fields, name, key) {
        Err(error) => Err(error),
        Ok(position) => if 1 <= position <= count {
            Ok(position)
        } else {
            Err(spec_invalid_value(name, key, Value::Int(position)))
        },
    }
}

/// The scalars that a checkpoint carries; the table length must be the
/// constructed one.
pub open spec fn restored_config(
    fields: Map<Seq<char>, Value>,
    name: Seq<char>,
    count: int,
) -> Result<BackwashSequenceConfig, StateErrorView> {
    match int_field(fields, name, "step_count"@) {
        Err(error) => Err(error),
        Ok(declared) => if declared != count {
            Err(spec_invalid_value(name, "step_count"@, Value::Int(declared)))
        } else {
            match int_field(fields, name, "auto_start"@) {
                Err(error) => Err(error),
                Ok(auto_code) => match AutoStart::spec_decode(auto_code as int) {
                    None => Err(spec_invalid_value(name, "auto_start"@, Value::Int(auto_code))),
                    Some(auto_start) => match position_field(fields, name, "abort_step"@, count) {
                        Err(error) => Err(error),
                        Ok(abort_step) => match position_field(
                            fields,
                            name,
                            "on_fault_step"@,
                            count,
                        ) {
                            Err(error) => Err(error),
                            Ok(on_fault_step) => match int_field(fields, name, "on_fault_policy"@) {
                                Err(error) => Err(error),
                                Ok(policy) => match FaultPolicy::spec_decode(policy as int) {
                                    None => Err(
                                        spec_invalid_value(
                                            name,
                                            "on_fault_policy"@,
                                            Value::Int(policy),
                                        ),
                                    ),
                                    Some(on_fault_policy) => Ok(
                                        BackwashSequenceConfig {
                                            auto_start,
                                            abort_step: (abort_step - 1) as usize,
                                            on_fault_step: (on_fault_step - 1) as usize,
                                            on_fault_policy,
                                        },
                                    ),
                                },
                            },
                        },
                    },
                },
            }
        },
    }
}

/// The duration and the value that a checkpoint carries for step `index`.
pub open spec fn timing_field(fields: Map<Seq<char>, Value>, name: Seq<char>, index: nat) -> Result<
    (u64, Float),
    StateErrorView,
> {
    let ticks_name = entry_name(index, StepEntry::Ticks);
    let out_name = entry_name(index, StepEntry::Out);
    match int_field(fields, name, ticks_name) {
        Err(error) => Err(error),
        Ok(ticks) => if ticks < 0 {
            Err(spec_invalid_value(name, ticks_name, Value::Int(ticks)))
        } else {
            match float_field(fields, name, out_name) {
                Err(error) => Err(error),
                Ok(value) => if value.finite() {
                    Ok((ticks as u64, value))
                } else {
                    Err(spec_invalid_value(name, out_name, Value::Float(value)))
                },
            }
        },
    }
}

/// The advance mode of step `index` in a checkpoint, which must be the
/// constructed one.
pub open spec fn advance_field(
    fields: Map<Seq<char>, Value>,
    name: Seq<char>,
    index: nat,
    constructed: AdvanceMode,
) -> Result<(), StateErrorView> {
    let key = entry_name(index, StepEntry::Advance);
    match int_field(fields, name, key) {
        Err(error) => Err(error),
        Ok(code) => if AdvanceMode::spec_decode(code as int) == Some(constructed) {
            Ok(())
        } else {
            Err(spec_invalid_value(name, key, Value::Int(code)))
        },
    }
}

/// The measured bound of step `index` in a checkpoint; a constructed bound
/// must be there.
pub open spec fn bound_field(
    fields: Map<Seq<char>, Value>,
    name: Seq<char>,
    index: nat,
    constructed: Option<Float>,
) -> Result<Option<Float>, StateErrorView> {
    let key = entry_name(index, StepEntry::Bound);
    match field(fields, key) {
        Some(Value::Float(bound)) => if bound.finite() {
            Ok(Some(bound))
        } else {
            Err(spec_invalid_value(name, key, Value::Float(bound)))
        },
        Some(other) => Err(spec_invalid_value(name, key, other)),
        None => if constructed is Some {
            Err(StateErrorView::MissingField { element: name, field: key })
        } else {
            Ok(None)
        },
    }
}

/// The measured input of step `index` in a checkpoint, which must be the
/// constructed one.
pub open spec fn meas_field(
    fields: Map<Seq<char>, Value>,
    name: Seq<char>,
    index: nat,
    constructed: Option<usize>,
) -> Result<(), StateErrorView> {
    let key = entry_name(index, StepEntry::Meas);
    match field(fields, key) {
        Some(Value::Int(selection)) => if constructed matches Some(meas) && selection == meas
            + 1 {
            Ok(())
        } else {
            Err(spec_invalid_value(name, key, Value::Int(selection)))
        },
        Some(other) => Err(spec_invalid_value(name, key, other)),
        None => if constructed is Some {
            Err(StateErrorView::MissingField { element: name, field: key })
        } else {
            Ok(())
        },
    }
}

/// The overrun policy of step `index` in a checkpoint, which must be the
/// constructed one.
pub open spec fn overrun_field(
    fields: Map<Seq<char>, Value>,
    name: Seq<char>,
    index: nat,
    constructed: OverrunPolicy,
) -> Result<(), StateErrorView> {
    let key = entry_name(index, StepEntry::OnOverrun);
    match int_field(fields, name, key) {
        Err(error) => Err(error),
        Ok(code) => if OverrunPolicy::spec_decode(code as int) == Some(constructed) {
            Ok(())
        } else {
            Err(spec_invalid_value(name, key, Value::Int(code)))
        },
    }
}

/// Step `index` with the tunables that a checkpoint carries; what is fixed
/// at construction must match.
pub open spec fn restored_step(
    fields: Map<Seq<char>, Value>,
    name: Seq<char>,
    index: nat,
    constructed: BackwashStep,
) -> Result<BackwashStep, StateErrorView> {
    match timing_field(fields, name, index) {
        Err(error) => Err(error),
        Ok((ticks, value)) => match advance_field(fields, name, index, constructed.advance) {
            Err(error) => Err(error),
            Ok(_) => match bound_field(fields, name, index, constructed.bound) {
                Err(error) => Err(error),
                Ok(bound) => match meas_field(fields, name, index, constructed.meas) {
                    Err(error) => Err(error),
                    Ok(_) => match overrun_field(fields, name, index, constructed.on_overrun) {
                        Err(error) => Err(error),
                        Ok(_) => Ok(BackwashStep { ticks, value, bound, ..constructed }),
                    },
                },
            },
        },
    }
}

/// The first `done` steps with the tunables that a checkpoint carries.
pub open spec fn restored_steps(
    fields: Map<Seq<char>, Value>,
    name: Seq<char>,
    constructed: Seq<BackwashStep>,
    done: nat,
) -> Result<Seq<BackwashStep>, StateErrorView>
    decreases done,
{
    if done == 0 {
        Ok(Seq::empty())
    } else {
        match restored_steps(fields, name, constructed, (done - 1) as nat) {
            Err(error) => Err(error),
            Ok(earlier) => match restored_step(fields, name, done, constructed[done - 1]) {
                Err(error) => Err(error),
                Ok(step) => Ok(earlier.push(step)),
            },
        }
    }
}

/// The position and the banked count that a checkpoint carries.
pub open spec fn place_field(
    fields: Map<Seq<char>, Value>,
    name: Seq<char>,
    steps: Seq<BackwashStep>,
) -> Result<(usize, u64), StateErrorView> {
    match position_field(fields, name, "step"@, steps.len() as int) {
        Err(error) => Err(error),
        Ok(step) => match int_field(fields, name, "elapsed"@) {
            Err(error) => Err(error),
            Ok(elapsed) => if 0 <= elapsed <= steps[step - 1].bound_ticks() {
                Ok(((step - 1) as usize, elapsed as u64))
            } else {
                Err(spec_invalid_value(name, "elapsed"@, Value::Int(elapsed)))
            },
        },
    }
}

/// The request and the waiting trigger that a checkpoint carries.
pub open spec fn request_field(
    fields: Map<Seq<char>, Value>,
    name: Seq<char>,
    auto_start: AutoStart,
) -> Result<(bool, bool, i64), StateErrorView> {
    match bool_field(fields, name, "request"@) {
        Err(error) => Err(error),
        Ok(armed) => match bool_field(fields, name, "pending"@) {
            Err(error) => Err(error),
            Ok(pending) => match int_field(fields, name, "pending_source"@) {
                Err(error) => Err(error),
                Ok(source) => if !(0 <= source <= 3) || (source != 0) != pending {
                    Err(spec_invalid_value(name, "pending_source"@, Value::Int(source)))
                } else if pending && (armed || auto_start != AutoStart::Pending) {
                    Err(spec_invalid_value(name, "pending"@, Value::Bool(pending)))
                } else {
                    Ok((armed, pending, source))
                },
            },
        },
    }
}

impl SequenceView {
    /// The status that a checkpoint carries, once the table, the place and
    /// the request in `self` have been taken over from it.
    pub open spec fn restored_status(self, fields: Map<Seq<char>, Value>) -> Result<
        SequenceView,
        StateErrorView,
    > {
        let name = self.name;
        match int_field(fields, name, "trigger_source"@) {
            Err(error) => Err(error),
            Ok(source) => if !(0 <= source <= 4) {
                Err(spec_invalid_value(name, "trigger_source"@, Value::Int(source)))
            } else {
                match bool_field(fields, name, "done"@) {
                    Err(error) => Err(error),
                    Ok(completed) => if completed && (self.armed || self.current != self.count()
                        - 1) {
                        Err(spec_invalid_value(name, "done"@, Value::Bool(completed)))
                    } else {
                        match bool_field(fields, name, "aborted"@) {
                            Err(error) => Err(error),
                            Ok(aborted) => if aborted && (self.armed || self.elapsed != 0) {
                                Err(spec_invalid_value(name, "aborted"@, Value::Bool(aborted)))
                            } else {
                                SequenceView {
                                    trigger_source: source,
                                    completed,
                                    aborted,
                                    ..self
                                }.restored_holds(fields)
                            },
                        }
                    },
                }
            },
        }
    }

    /// The fault hold, the overrun and the edge memory that a checkpoint
    /// carries, once everything else has been taken over from it. Without a
    /// word on the fault it counts as released.
    pub open spec fn restored_holds(self, fields: Map<Seq<char>, Value>) -> Result<
        SequenceView,
        StateErrorView,
    > {
        let name = self.name;
        match bool_field(fields, name, "fault_hold"@) {
            Err(error) => Err(error),
            Ok(fault_hold) => if fault_hold && !self.armed {
                Err(spec_invalid_value(name, "fault_hold"@, Value::Bool(fault_hold)))
            } else {
                let held = SequenceView { fault_hold, ..self };
                match bool_field(fields, name, "overrun"@) {
                    Err(error) => Err(error),
                    Ok(overrun) => if overrun && !held.overrun_stands() {
                        Err(spec_invalid_value(name, "overrun"@, Value::Bool(overrun)))
                    } else if self.trigger_source != 0 && !(self.armed || self.completed
                        || self.aborted || self.pending) {
                        Err(
                            spec_invalid_value(
                                name,
                                "trigger_source"@,
                                Value::Int(self.trigger_source),
                            ),
                        )
                    } else {
                        match int_field(fields, name, "trigger_held"@) {
                            Err(error) => Err(error),
                            Ok(mask) => if !(0 <= mask < 16) {
                                Err(spec_invalid_value(name, "trigger_held"@, Value::Int(mask)))
                            } else {
                                match optional(
                                    fields,
                                    "fault_seen"@,
                                    bool_field(fields, name, "fault_seen"@),
                                ) {
                                    Err(error) => Err(error),
                                    Ok(seen) => Ok(
                                        SequenceView {
                                            held: Triggers::of_mask(mask as int),
                                            fault_seen: seen == Some(true),
                                            ..held
                                        },
                                    ),
                                }
                            },
                        }
                    },
                }
            },
        }
    }

    /// The sequence with a checkpoint taken over, or the checkpoint's
    /// refusal.
    pub open spec fn restored(
        self,
        keys: Seq<Seq<char>>,
        fields: Map<Seq<char>, Value>,
    ) -> Result<SequenceView, StateErrorView> {
        let name = self.name;
        match known_fields(keys, name, step_names(sequence_names(), self.steps.len())) {
            Err(error) => Err(error),
            Ok(_) => match restored_config(fields, name, self.count()) {
                Err(error) => Err(error),
                Ok(config) => match restored_steps(fields, name, self.steps, self.steps.len()) {
                    Err(error) => Err(error),
                    Ok(steps) => match place_field(fields, name, steps) {
                        Err(error) => Err(error),
                        Ok((current, elapsed)) => match request_field(
                            fields,
                            name,
                            config.auto_start,
                        ) {
                            Err(error) => Err(error),
                            Ok((armed, pending, pending_source)) => SequenceView {
                                config,
                                steps,
                                current,
                                elapsed,
                                armed,
                                pending,
                                pending_source,
                                ..self
                            }.restored_status(fields),
                        },
                    },
                },
            },
        }
    }
}

} // verus!
