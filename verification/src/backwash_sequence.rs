//! Walking one filter's backwash through a declared step table.

use crate::describe::{
    self, hints_declared, parameter_views, requirement_views, role_views, spec_int_range,
    ComponentDescriptor, IoRequirement, ParameterDescriptor, PortRole, RequirementView, RoleHint,
};
use crate::float::Float;
use crate::params::{
    self, CommandError, CommandErrorView, ParameterError, ParameterErrorView, Parameters,
};
use crate::sequence_model::{
    entry_name, entry_named, meas_ports, numbered_roles, phase_ports, phase_writes, position_field,
    read_config, read_count, read_position, read_step, read_steps, request_field, restored_config,
    restored_step, restored_steps, sequence_names, spec_from_parameters, spec_new, step_error,
    step_names, step_parameters, table_error, with_steps, SequenceView,
};
use crate::table::{self, known_fields, StateError, StateErrorView, StateMap};
use crate::text;
use crate::value::{PointId, Quality, Reading, Tick, Value, ValueKind, Write};
use vstd::prelude::*;

verus! {

/// How a step ends.
#[derive(Debug, Clone, Copy, PartialEq, Eq, Structural)]
pub enum AdvanceMode {
    /// `0`: when it has held its ticks.
    Timed,
    /// `1`: when its measured input reaches its bound; the ticks are the
    /// overrun timeout.
    Measured,
    /// `2`: on the bound or on the ticks, whichever comes first.
    FirstOf,
}

impl AdvanceMode {
    /// The code of the mode.
    pub open spec fn spec_code(self) -> i64 {
        match self {
            AdvanceMode::Timed => 0,
            AdvanceMode::Measured => 1,
            AdvanceMode::FirstOf => 2,
        }
    }

    /// The mode that `code` selects.
    pub open spec fn spec_decode(code: int) -> Option<AdvanceMode> {
        if code == 0 {
            Some(AdvanceMode::Timed)
        } else if code == 1 {
            Some(AdvanceMode::Measured)
        } else if code == 2 {
            Some(AdvanceMode::FirstOf)
        } else {
            None
        }
    }

    /// The code of the mode.
    pub fn code(self) -> (r: i64)
        ensures
            r == self.spec_code(),
    {
        match self {
            AdvanceMode::Timed => 0,
            AdvanceMode::Measured => 1,
            AdvanceMode::FirstOf => 2,
        }
    }

    /// The mode that `code` selects.
    pub fn decode(code: i64) -> (r: Option<AdvanceMode>)
        ensures
            r == AdvanceMode::spec_decode(code as int),
    {
        match code {
            0 => Some(AdvanceMode::Timed),
            1 => Some(AdvanceMode::Measured),
            2 => Some(AdvanceMode::FirstOf),
            _ => None,
        }
    }
}

/// What a measured step does when its timeout stands unsatisfied.
#[derive(Debug, Clone, Copy, PartialEq, Eq, Structural)]
pub enum OverrunPolicy {
    /// `0`: it ends anyway.
    Advance,
    /// `1`: it waits on for its bound, with `overrun` asserted.
    Hold,
}

impl OverrunPolicy {
    /// The code of the policy.
    pub open spec fn spec_code(self) -> i64 {
        match self {
            OverrunPolicy::Advance => 0,
            OverrunPolicy::Hold => 1,
        }
    }

    /// The policy that `code` selects.
    pub open spec fn spec_decode(code: int) -> Option<OverrunPolicy> {
        if code == 0 {
            Some(OverrunPolicy::Advance)
        } else if code == 1 {
            Some(OverrunPolicy::Hold)
        } else {
            None
        }
    }

    /// The code of the policy.
    pub fn code(self) -> (r: i64)
        ensures
            r == self.spec_code(),
    {
        match self {
            OverrunPolicy::Advance => 0,
            OverrunPolicy::Hold => 1,
        }
    }

    /// The policy that `code` selects.
    pub fn decode(code: i64) -> (r: Option<OverrunPolicy>)
        ensures
            r == OverrunPolicy::spec_decode(code as int),
    {
        match code {
            0 => Some(OverrunPolicy::Advance),
            1 => Some(OverrunPolicy::Hold),
            _ => None,
        }
    }
}

/// Whether automatic triggers may start a wash.
#[derive(Debug, Clone, Copy, PartialEq, Eq, Structural)]
pub enum AutoStart {
    /// `0`: they arm the request.
    Direct,
    /// `1`: they wait for the operator's release.
    Pending,
}

impl AutoStart {
    /// The code of the mode.
    pub open spec fn spec_code(self) -> i64 {
        match self {
            AutoStart::Direct => 0,
            AutoStart::Pending => 1,
        }
    }

    /// The mode that `code` selects.
    pub open spec fn spec_decode(code: int) -> Option<AutoStart> {
        if code == 0 {
            Some(AutoStart::Direct)
        } else if code == 1 {
            Some(AutoStart::Pending)
        } else {
            None
        }
    }

    /// The code of the mode.
    pub fn code(self) -> (r: i64)
        ensures
            r == self.spec_code(),
    {
        match self {
            AutoStart::Direct => 0,
            AutoStart::Pending => 1,
        }
    }

    /// The mode that `code` selects.
    pub fn decode(code: i64) -> (r: Option<AutoStart>)
        ensures
            r == AutoStart::spec_decode(code as int),
    {
        match code {
            0 => Some(AutoStart::Direct),
            1 => Some(AutoStart::Pending),
            _ => None,
        }
    }
}

/// What a proven fault does to a run.
#[derive(Debug, Clone, Copy, PartialEq, Eq, Structural)]
pub enum FaultPolicy {
    /// `0`: it parks the run at the fault step, with the request still armed.
    Hold,
    /// `1`: it takes the abort path.
    Abort,
}

impl FaultPolicy {
    /// The code of the policy.
    pub open spec fn spec_code(self) -> i64 {
        match self {
            FaultPolicy::Hold => 0,
            FaultPolicy::Abort => 1,
        }
    }

    /// The policy that `code` selects.
    pub open spec fn spec_decode(code: int) -> Option<FaultPolicy> {
        if code == 0 {
            Some(FaultPolicy::Hold)
        } else if code == 1 {
            Some(FaultPolicy::Abort)
        } else {
            None
        }
    }

    /// The code of the policy.
    pub fn code(self) -> (r: i64)
        ensures
            r == self.spec_code(),
    {
        match self {
            FaultPolicy::Hold => 0,
            FaultPolicy::Abort => 1,
        }
    }

    /// The policy that `code` selects.
    pub fn decode(code: i64) -> (r: Option<FaultPolicy>)
        ensures
            r == FaultPolicy::spec_decode(code as int),
    {
        match code {
            0 => Some(FaultPolicy::Hold),
            1 => Some(FaultPolicy::Abort),
            _ => None,
        }
    }
}

/// One step of the table.
#[derive(Debug, Clone, Copy, PartialEq, Eq, Structural)]
pub struct BackwashStep {
    /// Scans that the step holds, or its overrun timeout. Zero behaves as
    /// one.
    pub ticks: u64,
    /// What `out` carries while the step reports.
    pub value: Float,
    /// How the step ends.
    pub advance: AdvanceMode,
    /// The bound that the measured input has to reach.
    pub bound: Option<Float>,
    /// The measured input, counted from zero.
    pub meas: Option<usize>,
    /// What the timeout of a measured step does.
    pub on_overrun: OverrunPolicy,
}

/// One entry of a step.
#[derive(Debug, Clone, Copy, PartialEq, Eq, Structural)]
pub enum StepEntry {
    Ticks,
    Out,
    Advance,
    Bound,
    Meas,
    OnOverrun,
}

/// The points a sequence reads.
#[derive(Debug, Clone, PartialEq, Eq)]
pub struct BackwashSequenceInputs {
    /// The elapsed-run-time trigger.
    pub trig_time: PointId,
    /// The terminal-headloss trigger.
    pub trig_headloss: PointId,
    /// The effluent-turbidity trigger.
    pub trig_turbidity: PointId,
    /// The operator's start.
    pub trig_operator: PointId,
    /// The coordinator's grant.
    pub grant: PointId,
    /// The operator's abort.
    pub abort: PointId,
    /// The equipment fault.
    pub fault: PointId,
    /// The measured inputs `meas_1` and on.
    pub meas: Vec<PointId>,
}

/// The points a sequence drives.
#[derive(Debug, Clone, PartialEq, Eq)]
pub struct BackwashSequenceOutputs {
    /// The armed request.
    pub request: PointId,
    /// The table stepped in this scan.
    pub active: PointId,
    /// An automatic trigger waits for the operator.
    pub pending: PointId,
    /// The table ran to its end.
    pub done: PointId,
    /// An abort path fired.
    pub aborted: PointId,
    /// A measured step stands past its tick bound.
    pub overrun: PointId,
    /// The source that armed the run.
    pub trigger_source: PointId,
    /// The reported position, counted from one.
    pub step: PointId,
    /// The reported step's value.
    pub out: PointId,
    /// The phase flags `phase_1` and on, one per step.
    pub phases: Vec<PointId>,
}

/// The tuned behaviour of a sequence.
#[derive(Debug, Clone, Copy, PartialEq, Eq, Structural)]
pub struct BackwashSequenceConfig {
    /// Whether automatic triggers may start a wash.
    pub auto_start: AutoStart,
    /// The step that an abort drives to, counted from zero.
    pub abort_step: usize,
    /// The step that a held fault drives to, counted from zero.
    pub on_fault_step: usize,
    /// What a proven fault does.
    pub on_fault_policy: FaultPolicy,
}

/// Which triggers are asserted.
#[derive(Debug, Clone, Copy, PartialEq, Eq, Structural)]
pub struct Triggers {
    pub time: bool,
    pub headloss: bool,
    pub turbidity: bool,
    pub operator: bool,
}

impl Triggers {
    fn first_source(&self) -> (r: i64)
        ensures
            r == self.first(),
    {
        if self.time {
            1
        } else if self.headloss {
            2
        } else if self.turbidity {
            3
        } else if self.operator {
            4
        } else {
            0
        }
    }

    fn to_mask(&self) -> (r: i64)
        ensures
            r == self.mask(),
    {
        let mut mask: i64 = 0;
        if self.time {
            mask = mask + 1;
        }
        if self.headloss {
            mask = mask + 2;
        }
        if self.turbidity {
            mask = mask + 4;
        }
        if self.operator {
            mask = mask + 8;
        }
        mask
    }

    fn from_mask(mask: i64) -> (r: Triggers)
        requires
            0 <= mask < 16,
        ensures
            r == Triggers::of_mask(mask as int),
    {
        Triggers {
            time: mask % 2 == 1,
            headloss: mask / 2 % 2 == 1,
            turbidity: mask / 4 % 2 == 1,
            operator: mask / 8 % 2 == 1,
        }
    }
}

/// What a sequence reads in every scan.
#[derive(Debug, Clone, Copy, PartialEq, Eq)]
pub struct SequenceReadings {
    pub trig_time: Reading<bool>,
    pub trig_headloss: Reading<bool>,
    pub trig_turbidity: Reading<bool>,
    pub trig_operator: Reading<bool>,
    pub grant: Reading<bool>,
    pub abort: Reading<bool>,
    pub fault: Reading<bool>,
}

impl SequenceReadings {
    fn read_triggers(&self) -> (r: Triggers)
        ensures
            r == self.asserted(),
    {
        Triggers {
            time: self.trig_time.is_trusted(),
            headloss: self.trig_headloss.is_trusted(),
            turbidity: self.trig_turbidity.is_trusted(),
            operator: self.trig_operator.is_trusted(),
        }
    }

    fn worst_quality(&self) -> (r: Quality)
        ensures
            r == self.quality(),
    {
        self.trig_time.quality.merge(self.trig_headloss.quality).merge(
            self.trig_turbidity.quality,
        ).merge(self.trig_operator.quality).merge(self.grant.quality).merge(
            self.abort.quality,
        ).merge(self.fault.quality)
    }
}

/// The run state of a sequence.
#[derive(Debug, Clone, Copy, PartialEq, Eq, Structural)]
pub struct SequenceRun {
    /// The reported position, counted from zero.
    pub current: usize,
    /// Scans banked in the current step, at most its tick bound.
    pub elapsed: u64,
    /// A run stands.
    pub armed: bool,
    /// An automatic trigger waits for the operator.
    pub pending: bool,
    /// The automatic source that waits, or zero.
    pub pending_source: i64,
    /// The source that armed the run, held until the next arming.
    pub trigger_source: i64,
    /// The table ran to its end.
    pub completed: bool,
    /// An abort path fired.
    pub aborted: bool,
    /// The run is parked at the fault step.
    pub fault_hold: bool,
    /// What each trigger read in the last scan.
    pub held: Triggers,
    /// Whether the fault was seen standing: what it read in the last scan,
    /// where a rise in the scan that arms is left for the next one.
    pub fault_seen: bool,
}

/// One filter's backwash sequence.
///
/// The sequence is always positioned at a step of its table. A rising
/// trigger arms a request, and the table advances while the grant reads
/// trusted and true: a step ends on its ticks, on its measured bound, or on
/// the first of the two. An abort, or a fault under the abort policy, drives
/// to the abort step and drops the request; a fault under the hold policy
/// parks the run at the fault step until the operator resumes it. A fault
/// acts as it rises: one that stood before the run was armed does not. A
/// control input that is not trusted does not act, and counts as released.
#[derive(Debug)]
pub struct BackwashSequence {
    name: String,
    inputs: BackwashSequenceInputs,
    outputs: BackwashSequenceOutputs,
    steps: Vec<BackwashStep>,
    config: BackwashSequenceConfig,
    run: SequenceRun,
}

impl View for BackwashSequence {
    type V = SequenceView;

    closed spec fn view(&self) -> SequenceView {
        SequenceView {
            name: self.name@,
            inputs: self.inputs,
            outputs: self.outputs,
            steps: self.steps@,
            config: self.config,
            current: self.run.current,
            elapsed: self.run.elapsed,
            armed: self.run.armed,
            pending: self.run.pending,
            pending_source: self.run.pending_source,
            trigger_source: self.run.trigger_source,
            completed: self.run.completed,
            aborted: self.run.aborted,
            fault_hold: self.run.fault_hold,
            held: self.run.held,
            fault_seen: self.run.fault_seen,
        }
    }
}

/// The name of an entry of step `index`.
fn entry_key(index: u64, entry: StepEntry) -> (r: String)
    ensures
        r@ == entry_name(index as nat, entry),
{
    match entry {
        StepEntry::Ticks => text::indexed("step_", index, "_ticks"),
        StepEntry::Out => text::indexed("step_", index, "_out"),
        StepEntry::Advance => text::indexed("step_", index, "_advance"),
        StepEntry::Bound => text::indexed("step_", index, "_bound"),
        StepEntry::Meas => text::indexed("step_", index, "_meas"),
        StepEntry::OnOverrun => text::indexed("step_", index, "_on_overrun"),
    }
}

/// Splits a `step_<n>_<entry>` name into the index, counted from one, and
/// the entry.
pub fn step_entry(parameter: &str) -> (r: Option<(usize, StepEntry)>)
    ensures
        r == entry_named(parameter@),
{
    let rest = text::strip_prefix(parameter, "step_")?;
    if let Some(index) = text::strip_suffix(rest, "_on_overrun") {
        let n: usize = text::parse_index(index)?;
        return Some((n, StepEntry::OnOverrun));
    }
    let (index, word) = text::split_last(rest, '_')?;
    let n: usize = text::parse_index(index)?;
    if text::same(word, "ticks") {
        Some((n, StepEntry::Ticks))
    } else if text::same(word, "out") {
        Some((n, StepEntry::Out))
    } else if text::same(word, "advance") {
        Some((n, StepEntry::Advance))
    } else if text::same(word, "bound") {
        Some((n, StepEntry::Bound))
    } else if text::same(word, "meas") {
        Some((n, StepEntry::Meas))
    } else {
        None
    }
}

/// Two texts, each followed by a number.
fn counted_twice(first: &str, m: u64, second: &str, n: u64) -> (r: String)
    ensures
        r@ == first@ + text::decimal(m as nat) + second@ + text::decimal(n as nat),
{
    text::numbered(text::join(text::numbered(first, m).as_str(), second).as_str(), n)
}

/// Whether a constructor's result is what the specification says.
pub open spec fn built(
    r: Result<BackwashSequence, ParameterError>,
    s: Result<SequenceView, ParameterErrorView>,
) -> bool {
    match r {
        Ok(sequence) => s == Ok::<SequenceView, ParameterErrorView>(sequence@) && sequence@.wf(),
        Err(error) => s == Err::<SequenceView, ParameterErrorView>(error@),
    }
}

impl BackwashStep {
    /// The effective tick bound.
    fn tick_bound(&self) -> (r: u64)
        ensures
            r == self.bound_ticks(),
    {
        if self.ticks > 1 {
            self.ticks
        } else {
            1
        }
    }

    /// Whether the step waits for a measurement.
    fn is_measured(&self) -> (r: bool)
        ensures
            r == self.measured(),
    {
        self.advance != AdvanceMode::Timed
    }

    /// Checks step `index` of a table with `measurements` measured inputs.
    fn check(&self, name: &str, index: u64, measurements: usize) -> (r: Result<
        (),
        ParameterError,
    >)
        ensures
            match r {
                Ok(_) => step_error(name@, index as nat, *self, measurements as nat) is None
                    && self.valid(measurements as int),
                Err(error) => step_error(name@, index as nat, *self, measurements as nat) == Some(
                    error@,
                ),
            },
    {
        if self.ticks > i64::MAX as u64 {
            return Err(
                params::invalid(
                    name,
                    entry_key(index, StepEntry::Ticks).as_str(),
                    text::numbered("must not exceed i64::MAX, found ", self.ticks).as_str(),
                ),
            );
        }
        if !self.value.is_finite() {
            return Err(
                params::invalid(name, entry_key(index, StepEntry::Out).as_str(), "must be finite"),
            );
        }
        let bound_key = entry_key(index, StepEntry::Bound);
        match self.bound {
            Some(bound) => {
                if !bound.is_finite() {
                    return Err(params::invalid(name, bound_key.as_str(), "must be finite"));
                }
            },
            None => {
                if self.is_measured() {
                    return Err(
                        params::invalid(
                            name,
                            bound_key.as_str(),
                            "a measured step must declare its bound",
                        ),
                    );
                }
            },
        }
        let meas_key = entry_key(index, StepEntry::Meas);
        match self.meas {
            Some(meas) => {
                if meas >= measurements {
                    return Err(
                        params::invalid(
                            name,
                            meas_key.as_str(),
                            text::numbered(
                                "must select a bound meas input in 1..=",
                                measurements as u64,
                            ).as_str(),
                        ),
                    );
                }
            },
            None => {
                if self.is_measured() {
                    return Err(
                        params::invalid(
                            name,
                            meas_key.as_str(),
                            "a measured step must select a meas input",
                        ),
                    );
                }
            },
        }
        Ok(())
    }
}

impl BackwashSequence {
    /// The kind under which models declare the component.
    pub const KIND: &'static str = "backwash-sequence";

    /// Builds a sequence from its points, its table and its tuning. There is
    /// one phase port per step, and every measured step selects a bound
    /// measured input.
    pub fn new(
        name: &str,
        inputs: BackwashSequenceInputs,
        outputs: BackwashSequenceOutputs,
        steps: Vec<BackwashStep>,
        config: BackwashSequenceConfig,
    ) -> (r: Result<BackwashSequence, ParameterError>)
        ensures
            built(r, spec_new(name@, inputs, outputs, steps@, config)),
    {
        if steps.len() == 0 {
            return Err(params::invalid(name, "step_count", "must declare at least one step"));
        }
        if steps.len() as u64 > i64::MAX as u64 {
            return Err(
                params::invalid(
                    name,
                    "step_count",
                    text::numbered("must not exceed i64::MAX, found ", steps.len() as u64).as_str(),
                ),
            );
        }
        if outputs.phases.len() != steps.len() {
            return Err(
                params::invalid(
                    name,
                    "step_count",
                    text::join(
                        counted_twice(
                            "declares ",
                            steps.len() as u64,
                            " steps but ",
                            outputs.phases.len() as u64,
                        ).as_str(),
                        " phase ports are bound",
                    ).as_str(),
                ),
            );
        }
        let measurements: usize = inputs.meas.len();
        let mut index: usize = 0;
        while index < steps.len()
            invariant
                index <= steps.len(),
                measurements == inputs.meas@.len(),
                0 < steps.len() <= i64::MAX,
                outputs.phases@.len() == steps@.len(),
                table_error(name@, steps@, measurements as nat, index as nat) is None,
                forall|i: int| 0 <= i < index ==> (#[trigger] steps@[i]).valid(measurements as int),
            decreases steps.len() - index,
        {
            match steps[index].check(name, index as u64 + 1, measurements) {
                Ok(_) => {},
                Err(error) => {
                    proof {
                        lemma_first_table_error(
                            name@,
                            steps@,
                            measurements as nat,
                            (index + 1) as nat,
                            steps@.len(),
                        );
                    }
                    return Err(error);
                },
            }
            index = index + 1;
        }
        let named = text::numbered("must name a declared step in 1..=", steps.len() as u64);
        if config.abort_step >= steps.len() {
            return Err(params::invalid(name, "abort_step", named.as_str()));
        }
        if config.on_fault_step >= steps.len() {
            return Err(params::invalid(name, "on_fault_step", named.as_str()));
        }
        Ok(
            BackwashSequence {
                name: name.to_owned(),
                inputs,
                outputs,
                steps,
                config,
                run: SequenceRun {
                    current: 0,
                    elapsed: 0,
                    armed: false,
                    pending: false,
                    pending_source: 0,
                    trigger_source: 0,
                    completed: false,
                    aborted: false,
                    fault_hold: false,
                    held: Triggers {
                        time: false,
                        headloss: false,
                        turbidity: false,
                        operator: false,
                    },
                    fault_seen: false,
                },
            },
        )
    }

    fn read_step(
        name: &str,
        parameters: &Parameters,
        measurements: usize,
        index: u64,
    ) -> (r: Result<
        BackwashStep,
        ParameterError,
    >)
        ensures
            params::agrees(
                r,
                read_step(name@, parameters@, measurements as nat, index as nat),
            ),
    {
        let ticks_key = entry_key(index, StepEntry::Ticks);
        let ticks: u64 = params::required_u64(name, parameters, ticks_key.as_str())?;
        if ticks > i64::MAX as u64 {
            return Err(
                params::invalid(
                    name,
                    ticks_key.as_str(),
                    text::numbered("must not exceed i64::MAX, found ", ticks).as_str(),
                ),
            );
        }
        let value = params::required_f64(
            name,
            parameters,
            entry_key(index, StepEntry::Out).as_str(),
        )?;
        let advance_key = entry_key(index, StepEntry::Advance);
        let advance_code: u64 = params::required_u64(name, parameters, advance_key.as_str())?;
        let advance = match AdvanceMode::decode(params::code_of(advance_code)) {
            Some(advance) => advance,
            None => {
                return Err(
                    params::invalid(
                        name,
                        advance_key.as_str(),
                        text::numbered(
                            "expected 0 (timed), 1 (measured), or 2 (first of), found ",
                            advance_code,
                        ).as_str(),
                    ),
                );
            },
        };
        let bound_key = entry_key(index, StepEntry::Bound);
        let bound = params::optional_f64(name, parameters, bound_key.as_str())?;
        if bound.is_none() && advance != AdvanceMode::Timed {
            return Err(params::missing(name, bound_key.as_str()));
        }
        let meas_key = entry_key(index, StepEntry::Meas);
        let meas: Option<usize> = match params::optional_u64(name, parameters, meas_key.as_str())? {
            Some(selection) => {
                if selection >= 1 && selection <= measurements as u64 {
                    Some((selection - 1) as usize)
                } else {
                    return Err(
                        params::invalid(
                            name,
                            meas_key.as_str(),
                            counted_twice(
                                "must select a bound meas input in 1..=",
                                measurements as u64,
                                ", found ",
                                selection,
                            ).as_str(),
                        ),
                    );
                }
            },
            None => {
                if advance != AdvanceMode::Timed {
                    return Err(params::missing(name, meas_key.as_str()));
                }
                None
            },
        };
        let overrun_key = entry_key(index, StepEntry::OnOverrun);
        let overrun_code: u64 = params::required_u64(name, parameters, overrun_key.as_str())?;
        let on_overrun = match OverrunPolicy::decode(params::code_of(overrun_code)) {
            Some(on_overrun) => on_overrun,
            None => {
                return Err(
                    params::invalid(
                        name,
                        overrun_key.as_str(),
                        text::numbered(
                            "expected 0 (advance anyway) or 1 (hold and raise overrun), found ",
                            overrun_code,
                        ).as_str(),
                    ),
                );
            },
        };
        Ok(BackwashStep { ticks, value, advance, bound, meas, on_overrun })
    }

    fn read_position(name: &str, parameters: &Parameters, key: &str, count: usize) -> (r: Result<
        usize,
        ParameterError,
    >)
        ensures
            params::agrees(r, read_position(name@, parameters@, key@, count as nat)),
    {
        let declared: u64 = params::required_u64(name, parameters, key)?;
        if declared < 1 || declared > count as u64 {
            return Err(
                params::invalid(
                    name,
                    key,
                    counted_twice(
                        "must name a declared step in 1..=",
                        count as u64,
                        ", found ",
                        declared,
                    ).as_str(),
                ),
            );
        }
        Ok((declared - 1) as usize)
    }

    fn read_config(name: &str, parameters: &Parameters, count: usize) -> (r: Result<
        BackwashSequenceConfig,
        ParameterError,
    >)
        ensures
            params::agrees(r, read_config(name@, parameters@, count as nat)),
    {
        let auto_code: u64 = params::required_u64(name, parameters, "auto_start")?;
        let auto_start = match AutoStart::decode(params::code_of(auto_code)) {
            Some(auto_start) => auto_start,
            None => {
                return Err(
                    params::invalid(
                        name,
                        "auto_start",
                        "expected 0 (automatic triggers request directly) or 1 (operator release of pending)",
                    ),
                );
            },
        };
        let abort_step: usize = BackwashSequence::read_position(
            name,
            parameters,
            "abort_step",
            count,
        )?;
        let on_fault_step: usize = BackwashSequence::read_position(
            name,
            parameters,
            "on_fault_step",
            count,
        )?;
        let policy_code: u64 = params::required_u64(name, parameters, "on_fault_policy")?;
        match FaultPolicy::decode(params::code_of(policy_code)) {
            Some(on_fault_policy) => Ok(
                BackwashSequenceConfig { auto_start, abort_step, on_fault_step, on_fault_policy },
            ),
            None => Err(
                params::invalid(
                    name,
                    "on_fault_policy",
                    "expected 0 (hold at the fault step) or 1 (abort)",
                ),
            ),
        }
    }

    fn read_count(name: &str, parameters: &Parameters) -> (r: Result<u64, ParameterError>)
        ensures
            params::agrees(r, read_count(name@, parameters@)),
    {
        let count: u64 = params::required_u64(name, parameters, "step_count")?;
        if count == 0 {
            return Err(params::invalid(name, "step_count", "must be at least 1"));
        }
        if count > i64::MAX as u64 {
            return Err(
                params::invalid(
                    name,
                    "step_count",
                    text::numbered("must not exceed i64::MAX, found ", count).as_str(),
                ),
            );
        }
        Ok(count)
    }

    /// Builds a sequence from the parameters that a model declares for it.
    pub fn from_parameters(
        name: &str,
        inputs: BackwashSequenceInputs,
        outputs: BackwashSequenceOutputs,
        parameters: &Parameters,
    ) -> (r: Result<BackwashSequence, ParameterError>)
        ensures
            built(r, spec_from_parameters(name@, inputs, outputs, parameters@)),
    {
        let count: u64 = BackwashSequence::read_count(name, parameters)?;
        let measurements: usize = inputs.meas.len();
        let mut steps: Vec<BackwashStep> = Vec::new();
        while (steps.len() as u64) < count
            invariant
                steps.len() <= count,
                measurements == inputs.meas@.len(),
                read_count(name@, parameters@) == Ok::<u64, ParameterErrorView>(count),
                read_steps(name@, parameters@, measurements as nat, steps@.len()) == Ok::<
                    Seq<BackwashStep>,
                    ParameterErrorView,
                >(steps@),
            decreases count - steps.len(),
        {
            let index: u64 = steps.len() as u64 + 1;
            match BackwashSequence::read_step(name, parameters, measurements, index) {
                Ok(step) => steps.push(step),
                Err(error) => {
                    proof {
                        lemma_first_read_error(
                            name@,
                            parameters@,
                            measurements as nat,
                            index as nat,
                            count as nat,
                        );
                    }
                    return Err(error);
                },
            }
        }
        let config = BackwashSequence::read_config(name, parameters, steps.len())?;
        BackwashSequence::new(name, inputs, outputs, steps, config)
    }

    /// The run state after a scan's control inputs.
    fn transition(&self, readings: &SequenceReadings) -> (r: SequenceRun)
        requires
            self@.wf(),
        ensures
            self@.with_run(r) == self@.transitioned(*readings),
            self@.with_run(r).wf(),
    {
        let held = readings.read_triggers();
        let earlier = self.run.held;
        let edges = Triggers {
            time: held.time && !earlier.time,
            headloss: held.headloss && !earlier.headloss,
            turbidity: held.turbidity && !earlier.turbidity,
            operator: held.operator && !earlier.operator,
        };
        let abort = readings.abort.is_trusted();
        let fault = readings.fault.is_trusted();
        let fault_edge = fault && !self.run.fault_seen;
        let run = SequenceRun { held, fault_seen: fault, ..self.run };
        if run.armed {
            if abort {
                run.abort(self.config.abort_step)
            } else if fault_edge && !run.fault_hold {
                match self.config.on_fault_policy {
                    FaultPolicy::Abort => run.abort(self.config.abort_step),
                    FaultPolicy::Hold => SequenceRun {
                        fault_hold: true,
                        current: self.config.on_fault_step,
                        elapsed: 0,
                        ..run
                    },
                }
            } else if run.fault_hold && edges.operator && !fault {
                SequenceRun { fault_hold: false, ..run }
            } else {
                run
            }
        } else {
            let source: i64 = edges.first_source();
            let next = if abort {
                SequenceRun { pending: false, pending_source: 0, ..run }
            } else if run.pending {
                if edges.operator {
                    run.arm(run.pending_source)
                } else {
                    run
                }
            } else if source == 0 {
                run
            } else {
                match self.config.auto_start {
                    AutoStart::Direct => run.arm(source),
                    AutoStart::Pending => {
                        if edges.operator {
                            run.arm(4)
                        } else {
                            SequenceRun { pending: true, pending_source: source, ..run }
                        }
                    },
                }
            };
            SequenceRun { fault_seen: fault && (self.run.fault_seen || !next.armed), ..next }
        }
    }

    /// The measured input that the scan has to read, if any.
    pub fn measured_input(&self, readings: &SequenceReadings) -> (r: Option<usize>)
        requires
            self@.wf(),
        ensures
            r == self@.measured_input(*readings),
            r matches Some(meas) ==> meas < self@.measurements(),
    {
        let run = self.transition(readings);
        let step = self.steps[run.current];
        assert(self@.steps[run.current as int].valid(self@.measurements()));
        if run.armed && step.is_measured() {
            step.meas
        } else {
            None
        }
    }

    /// One stepping scan on the current step: the next step, the end of the
    /// table, or one more banked scan. Tells whether the step overran.
    fn bank(&mut self, satisfied: bool) -> (overran: bool)
        requires
            old(self)@.wf(),
            old(self)@.armed,
            !old(self)@.fault_hold,
        ensures
            final(self)@ == old(self)@.stepped(satisfied),
            final(self)@.wf(),
            overran == (old(self)@.step().advance == AdvanceMode::Measured && old(
                self,
            )@.timed_out() && !satisfied),
    {
        let position: usize = self.run.current;
        let step = self.steps[position];
        assert(self@.steps[position as int].valid(self@.measurements()));
        let bound: u64 = step.tick_bound();
        let timed_out = self.run.elapsed + 1 >= bound;
        let advance = match step.advance {
            AdvanceMode::Timed => timed_out,
            AdvanceMode::Measured => satisfied || (timed_out && step.on_overrun
                == OverrunPolicy::Advance),
            AdvanceMode::FirstOf => satisfied || timed_out,
        };
        let banked: u64 = if timed_out {
            bound
        } else {
            self.run.elapsed + 1
        };
        if !advance {
            self.run.elapsed = banked;
        } else if position == self.steps.len() - 1 {
            self.run.completed = true;
            self.run.armed = false;
            self.run.elapsed = banked;
        } else {
            self.run.current = position + 1;
            self.run.elapsed = 0;
            assert(self@.steps[position + 1].valid(self@.measurements()));
        }
        step.advance == AdvanceMode::Measured && timed_out && !satisfied
    }

    /// Whether a reading satisfies the reported step's bound.
    fn is_satisfied(&self, meas: Option<Reading<Float>>) -> (r: bool)
        requires
            self@.wf(),
        ensures
            r == self@.satisfied(meas),
    {
        let step = self.steps[self.run.current];
        match (meas, step.bound) {
            (Some(reading), Some(bound)) => reading.quality.is_good() && bound.at_most(
                reading.value,
            ),
            _ => false,
        }
    }

    /// Runs one scan. `meas` is what the input named by
    /// [`measured_input`](Self::measured_input) reads.
    pub fn step(
        &mut self,
        readings: &SequenceReadings,
        meas: Option<Reading<Float>>,
        tick: Tick,
    ) -> (r: Vec<Write>)
        requires
            old(self)@.wf(),
            meas is Some <==> old(self)@.measured_input(*readings) is Some,
        ensures
            final(self)@ == old(self)@.after(*readings, meas),
            final(self)@.wf(),
            r@ == old(self)@.writes(*readings, meas, tick),
    {
        let ghost before = self@;
        self.run = self.transition(readings);
        let ghost reported = self@;
        let position: usize = self.run.current;
        let value = self.steps[position].value;
        let quality = match meas {
            Some(reading) => readings.worst_quality().merge(reading.quality),
            None => readings.worst_quality(),
        };
        let satisfied = self.is_satisfied(meas);
        let stepping = self.run.armed && !self.run.fault_hold && readings.grant.is_trusted();
        let overran = if stepping {
            self.bank(satisfied)
        } else {
            false
        };
        assert(self@ == before.after(*readings, meas));
        assert(overran == reported.overruns(*readings, reported.satisfied(meas)));
        assert(self@.outputs == before.outputs);
        let mut r = self.drive_status(stepping, overran, position, value, quality, tick);
        self.drive_phases(position, quality, tick, &mut r);
        r
    }

    /// The status, with the position and the value that the scan reports.
    fn drive_status(
        &self,
        stepping: bool,
        overran: bool,
        position: usize,
        value: Float,
        quality: Quality,
        tick: Tick,
    ) -> (r: Vec<Write>)
        requires
            position < usize::MAX,
        ensures
            r@ == self@.status_writes(stepping, overran, position, value, quality, tick),
    {
        let mut r: Vec<Write> = Vec::new();
        r.push(Write::new(self.outputs.request, Value::Bool(self.run.armed), quality, tick));
        r.push(Write::new(self.outputs.active, Value::Bool(stepping), quality, tick));
        r.push(Write::new(self.outputs.pending, Value::Bool(self.run.pending), quality, tick));
        r.push(Write::new(self.outputs.done, Value::Bool(self.run.completed), quality, tick));
        r.push(Write::new(self.outputs.aborted, Value::Bool(self.run.aborted), quality, tick));
        r.push(Write::new(self.outputs.overrun, Value::Bool(overran), quality, tick));
        r.push(
            Write::new(
                self.outputs.trigger_source,
                Value::Int(self.run.trigger_source),
                quality,
                tick,
            ),
        );
        r.push(Write::new(self.outputs.step, Value::Int((position + 1) as i64), quality, tick));
        r.push(Write::new(self.outputs.out, Value::Float(value), quality, tick));
        r
    }

    /// Adds the phase flags: the one at `position` asserts.
    fn drive_phases(
        &self,
        position: usize,
        quality: Quality,
        tick: Tick,
        writes: &mut Vec<Write>,
    )
        ensures
            final(writes)@ == phase_writes(
                old(writes)@,
                self@.outputs.phases@,
                position as int,
                quality,
                tick,
                self@.outputs.phases@.len(),
            ),
    {
        let ghost leading = writes@;
        let mut index: usize = 0;
        while index < self.outputs.phases.len()
            invariant
                index <= self.outputs.phases.len(),
                writes@ == phase_writes(
                    leading,
                    self@.outputs.phases@,
                    position as int,
                    quality,
                    tick,
                    index as nat,
                ),
            decreases self.outputs.phases.len() - index,
        {
            writes.push(
                Write::new(
                    self.outputs.phases[index],
                    Value::Bool(index == position),
                    quality,
                    tick,
                ),
            );
            index = index + 1;
        }
    }

    /// The block's name.
    pub fn name(&self) -> (r: &str)
        ensures
            r@ == self@.name,
    {
        self.name.as_str()
    }

    /// The declared ports.
    pub fn io_requirements(&self) -> (r: Vec<IoRequirement>)
        ensures
            requirement_views(r@) == self@.requirements(),
    {
        let inputs = &self.inputs;
        let mut r: Vec<IoRequirement> = Vec::new();
        r.push(describe::input("trig_time", ValueKind::Bool, inputs.trig_time));
        r.push(describe::input("trig_headloss", ValueKind::Bool, inputs.trig_headloss));
        r.push(describe::input("trig_turbidity", ValueKind::Bool, inputs.trig_turbidity));
        r.push(describe::input("trig_operator", ValueKind::Bool, inputs.trig_operator));
        r.push(describe::input("grant", ValueKind::Bool, inputs.grant));
        r.push(describe::input("abort", ValueKind::Bool, inputs.abort));
        r.push(describe::input("fault", ValueKind::Bool, inputs.fault));
        let ghost control = self@.control_ports();
        assert(requirement_views(r@) == control);
        let mut index: usize = 0;
        while index < inputs.meas.len()
            invariant
                *inputs == self@.inputs,
                index <= inputs.meas.len(),
                control == self@.control_ports(),
                requirement_views(r@) == meas_ports(control, inputs.meas@, index as nat),
            decreases inputs.meas.len() - index,
        {
            let name = text::numbered("meas_", index as u64 + 1);
            r.push(describe::input(name.as_str(), ValueKind::Float, inputs.meas[index]));
            index = index + 1;
            assert(requirement_views(r@) == meas_ports(control, inputs.meas@, index as nat));
        }
        let outputs = &self.outputs;
        r.push(describe::output("request", ValueKind::Bool, outputs.request));
        r.push(describe::output("active", ValueKind::Bool, outputs.active));
        r.push(describe::output("pending", ValueKind::Bool, outputs.pending));
        r.push(describe::output("done", ValueKind::Bool, outputs.done));
        r.push(describe::output("aborted", ValueKind::Bool, outputs.aborted));
        r.push(describe::output("overrun", ValueKind::Bool, outputs.overrun));
        r.push(describe::output("trigger_source", ValueKind::Int, outputs.trigger_source));
        r.push(describe::output("step", ValueKind::Int, outputs.step));
        r.push(describe::output("out", ValueKind::Float, outputs.out));
        let ghost status = self@.status_ports();
        assert(requirement_views(r@) == status);
        index = 0;
        while index < outputs.phases.len()
            invariant
                *outputs == self@.outputs,
                index <= outputs.phases.len(),
                status == self@.status_ports(),
                requirement_views(r@) == phase_ports(status, outputs.phases@, index as nat),
            decreases outputs.phases.len() - index,
        {
            let name = text::numbered("phase_", index as u64 + 1);
            r.push(describe::output(name.as_str(), ValueKind::Bool, outputs.phases[index]));
            index = index + 1;
            assert(requirement_views(r@) == phase_ports(status, outputs.phases@, index as nat));
        }
        r
    }

    fn role_hints(&self) -> (r: Vec<RoleHint>)
        ensures
            role_views(r@) == self@.roles(),
    {
        let mut r: Vec<RoleHint> = Vec::new();
        r.push(describe::hint("trig_time", PortRole::ProcessValue));
        r.push(describe::hint("trig_headloss", PortRole::ProcessValue));
        r.push(describe::hint("trig_turbidity", PortRole::ProcessValue));
        r.push(describe::hint("trig_operator", PortRole::Setpoint));
        r.push(describe::hint("grant", PortRole::ProcessValue));
        r.push(describe::hint("abort", PortRole::Setpoint));
        r.push(describe::hint("fault", PortRole::ProcessValue));
        assert(role_views(r@) == self@.control_roles());
        push_roles(&mut r, "meas_", PortRole::ProcessValue, self.inputs.meas.len());
        r.push(describe::hint("request", PortRole::Output));
        r.push(describe::hint("active", PortRole::Status));
        r.push(describe::hint("pending", PortRole::Status));
        r.push(describe::hint("done", PortRole::Status));
        r.push(describe::hint("aborted", PortRole::Status));
        r.push(describe::hint("overrun", PortRole::Status));
        r.push(describe::hint("trigger_source", PortRole::Status));
        r.push(describe::hint("step", PortRole::Status));
        r.push(describe::hint("out", PortRole::Output));
        assert(role_views(r@) == self@.status_roles());
        push_roles(&mut r, "phase_", PortRole::Output, self.steps.len());
        r
    }

    fn parameter_list(&self) -> (r: Vec<ParameterDescriptor>)
        ensures
            parameter_views(r@) == step_parameters(
                self@.scalar_parameters(),
                self@.steps,
                self@.measurements(),
                self@.steps.len(),
            ),
    {
        let binary = Some(describe::int_range(0, 1));
        let positions = Some(describe::int_range(1, self.steps.len() as i64));
        let mut r: Vec<ParameterDescriptor> = Vec::new();
        r.push(
            describe::parameter("step_count", ValueKind::Int, Some(describe::positive_int())),
        );
        r.push(describe::parameter("auto_start", ValueKind::Int, binary));
        r.push(describe::parameter("abort_step", ValueKind::Int, positions));
        r.push(describe::parameter("on_fault_step", ValueKind::Int, positions));
        r.push(describe::parameter("on_fault_policy", ValueKind::Int, binary));
        let ghost scalars = self@.scalar_parameters();
        assert(parameter_views(r@) == scalars);
        let most: i64 = if self.inputs.meas.len() > 1 {
            self.inputs.meas.len() as i64
        } else {
            1
        };
        let mut index: usize = 0;
        while index < self.steps.len()
            invariant
                index <= self.steps.len(),
                scalars == self@.scalar_parameters(),
                binary == Some(spec_int_range(0, 1)),
                most == if self@.measurements() > 1 {
                    self@.measurements() as i64
                } else {
                    1
                },
                parameter_views(r@) == step_parameters(
                    scalars,
                    self@.steps,
                    self@.measurements(),
                    index as nat,
                ),
            decreases self.steps.len() - index,
        {
            let step = self.steps[index];
            let n: u64 = index as u64 + 1;
            r.push(
                describe::parameter(
                    entry_key(n, StepEntry::Ticks).as_str(),
                    ValueKind::Int,
                    Some(describe::nonnegative_int()),
                ),
            );
            r.push(
                describe::parameter(
                    entry_key(n, StepEntry::Out).as_str(),
                    ValueKind::Float,
                    Some(describe::finite_f64()),
                ),
            );
            r.push(
                describe::parameter(
                    entry_key(n, StepEntry::Advance).as_str(),
                    ValueKind::Int,
                    Some(describe::int_range(0, 2)),
                ),
            );
            if step.bound.is_some() {
                r.push(
                    describe::parameter(
                        entry_key(n, StepEntry::Bound).as_str(),
                        ValueKind::Float,
                        Some(describe::finite_f64()),
                    ),
                );
            }
            if step.meas.is_some() {
                r.push(
                    describe::parameter(
                        entry_key(n, StepEntry::Meas).as_str(),
                        ValueKind::Int,
                        Some(describe::int_range(1, most)),
                    ),
                );
            }
            r.push(
                describe::parameter(
                    entry_key(n, StepEntry::OnOverrun).as_str(),
                    ValueKind::Int,
                    binary,
                ),
            );
            index = index + 1;
            assert(parameter_views(r@) == step_parameters(
                scalars,
                self@.steps,
                self@.measurements(),
                index as nat,
            ));
        }
        r
    }

    /// Describes the sequence.
    pub fn describe(&self) -> (r: ComponentDescriptor)
        requires
            self@.wf(),
        ensures
            r@ == self@.description(),
    {
        proof {
            lemma_roles_follow_ports(self@);
        }
        describe::component(
            self.name.as_str(),
            BackwashSequence::KIND,
            &self.io_requirements(),
            &self.role_hints(),
            self.parameter_list(),
        )
    }

    fn tune_finite(&self, parameter: &str, value: Value) -> (r: Result<Float, CommandError>)
        ensures
            params::tuned(r, self@.tuned_finite(parameter@, value)),
    {
        let tuned = params::tune_f64(self.name.as_str(), parameter, value)?;
        if tuned.is_finite() {
            Ok(tuned)
        } else {
            Err(params::invalid_parameter(self.name.as_str(), parameter, "must be finite"))
        }
    }

    fn tune_position(&self, parameter: &str, value: Value) -> (r: Result<usize, CommandError>)
        ensures
            params::tuned(r, self@.tuned_position(parameter@, value)),
    {
        let position: u64 = params::tune_u64(self.name.as_str(), parameter, value)?;
        if position < 1 || position > self.steps.len() as u64 {
            return Err(
                params::invalid_parameter(
                    self.name.as_str(),
                    parameter,
                    "must name a declared step",
                ),
            );
        }
        Ok((position - 1) as usize)
    }

    fn tune_entry(&mut self, parameter: &str, value: Value, index: usize, entry: StepEntry) -> (r:
        Result<(), CommandError>)
        requires
            old(self)@.wf(),
            index < old(self)@.count(),
        ensures
            final(self)@.wf(),
            match r {
                Ok(_) => old(self)@.tuned_entry(parameter@, value, index as int, entry) == Ok::<
                    SequenceView,
                    CommandErrorView,
                >(final(self)@),
                Err(error) => old(self)@.tuned_entry(parameter@, value, index as int, entry)
                    == Err::<SequenceView, CommandErrorView>(error@) && final(self)@ == old(self)@,
            },
    {
        let mut step = self.steps[index];
        assert(self@.steps[index as int].valid(self@.measurements()));
        match entry {
            StepEntry::Ticks => {
                let ticks: u64 = params::tune_u64(self.name.as_str(), parameter, value)?;
                if ticks > i64::MAX as u64 {
                    return Err(
                        params::invalid_parameter(
                            self.name.as_str(),
                            parameter,
                            "must not exceed i64::MAX",
                        ),
                    );
                }
                step.ticks = ticks;
                let bound: u64 = step.tick_bound();
                self.steps.set(index, step);
                if self.run.current == index && self.run.elapsed >= bound {
                    self.run.elapsed = bound - 1;
                }
            },
            StepEntry::Out => {
                step.value = self.tune_finite(parameter, value)?;
                self.steps.set(index, step);
            },
            StepEntry::Bound => {
                let tuned = self.tune_finite(parameter, value)?;
                if step.bound.is_none() {
                    return Err(
                        params::invalid_parameter(
                            self.name.as_str(),
                            parameter,
                            "the step declares no measured bound",
                        ),
                    );
                }
                step.bound = Some(tuned);
                self.steps.set(index, step);
            },
            _ => {
                return Err(
                    params::invalid_parameter(
                        self.name.as_str(),
                        parameter,
                        "the step's advance mode, meas selection, and overrun policy are fixed at construction",
                    ),
                );
            },
        }
        Ok(())
    }

    fn tune_scalar(&mut self, parameter: &str, value: Value) -> (r: Result<(), CommandError>)
        requires
            old(self)@.wf(),
        ensures
            final(self)@.wf(),
            match r {
                Ok(_) => old(self)@.tuned_scalar(parameter@, value) == Ok::<
                    SequenceView,
                    CommandErrorView,
                >(final(self)@),
                Err(error) => old(self)@.tuned_scalar(parameter@, value) == Err::<
                    SequenceView,
                    CommandErrorView,
                >(error@) && final(self)@ == old(self)@,
            },
    {
        if text::same(parameter, "auto_start") {
            let code: u64 = params::tune_u64(self.name.as_str(), parameter, value)?;
            match AutoStart::decode(params::code_of(code)) {
                Some(auto_start) => {
                    self.config.auto_start = auto_start;
                },
                None => {
                    return Err(
                        params::invalid_parameter(
                            self.name.as_str(),
                            parameter,
                            "expected 0 (automatic triggers request directly) or 1 (operator release of pending)",
                        ),
                    );
                },
            }
        } else if text::same(parameter, "on_fault_policy") {
            let code: u64 = params::tune_u64(self.name.as_str(), parameter, value)?;
            match FaultPolicy::decode(params::code_of(code)) {
                Some(on_fault_policy) => {
                    self.config.on_fault_policy = on_fault_policy;
                },
                None => {
                    return Err(
                        params::invalid_parameter(
                            self.name.as_str(),
                            parameter,
                            "expected 0 (hold at the fault step) or 1 (abort)",
                        ),
                    );
                },
            }
        } else if text::same(parameter, "abort_step") {
            self.config.abort_step = self.tune_position(parameter, value)?;
        } else if text::same(parameter, "on_fault_step") {
            self.config.on_fault_step = self.tune_position(parameter, value)?;
        } else if text::same(parameter, "step_count") {
            return Err(
                params::invalid_parameter(
                    self.name.as_str(),
                    parameter,
                    "the step count is fixed at construction",
                ),
            );
        } else {
            return Err(params::unknown_parameter(self.name.as_str(), parameter));
        }
        Ok(())
    }

    /// Retunes one declared parameter at the scan boundary. What is fixed at
    /// construction is refused, and a refused value changes nothing.
    pub fn apply_parameter(&mut self, parameter: &str, value: Value) -> (r: Result<
        (),
        CommandError,
    >)
        requires
            old(self)@.wf(),
        ensures
            final(self)@.wf(),
            match r {
                Ok(_) => old(self)@.tuned(parameter@, value) == Ok::<
                    SequenceView,
                    CommandErrorView,
                >(final(self)@),
                Err(error) => old(self)@.tuned(parameter@, value) == Err::<
                    SequenceView,
                    CommandErrorView,
                >(error@) && final(self)@ == old(self)@,
            },
    {
        match step_entry(parameter) {
            Some((index, entry)) => {
                if index < 1 || index > self.steps.len() {
                    return Err(params::unknown_parameter(self.name.as_str(), parameter));
                }
                self.tune_entry(parameter, value, index - 1, entry)
            },
            None => self.tune_scalar(parameter, value),
        }
    }

    /// Reports the table and the scalars under the names that a checkpoint
    /// uses.
    pub fn report_parameters(&self) -> (r: StateMap)
        requires
            self@.wf(),
        ensures
            r@ == self@.reported(),
    {
        let mut r = StateMap::new();
        r.insert("step_count", Value::Int(self.steps.len() as i64));
        r.insert("auto_start", Value::Int(self.config.auto_start.code()));
        r.insert("abort_step", Value::Int((self.config.abort_step + 1) as i64));
        r.insert("on_fault_step", Value::Int((self.config.on_fault_step + 1) as i64));
        r.insert("on_fault_policy", Value::Int(self.config.on_fault_policy.code()));
        let ghost scalars = r@;
        let mut index: usize = 0;
        while index < self.steps.len()
            invariant
                self@.wf(),
                index <= self.steps.len(),
                r@ == with_steps(scalars, self@.steps, index as nat),
            decreases self.steps.len() - index,
        {
            let step = self.steps[index];
            assert(self@.steps[index as int].valid(self@.measurements()));
            let n: u64 = index as u64 + 1;
            r.insert(entry_key(n, StepEntry::Ticks).as_str(), Value::Int(step.ticks as i64));
            r.insert(entry_key(n, StepEntry::Out).as_str(), Value::Float(step.value));
            r.insert(entry_key(n, StepEntry::Advance).as_str(), Value::Int(step.advance.code()));
            if let Some(bound) = step.bound {
                r.insert(entry_key(n, StepEntry::Bound).as_str(), Value::Float(bound));
            }
            assert(self.inputs.meas.len() == self@.measurements());
            if let Some(meas) = step.meas {
                r.insert(entry_key(n, StepEntry::Meas).as_str(), Value::Int((meas + 1) as i64));
            }
            r.insert(
                entry_key(n, StepEntry::OnOverrun).as_str(),
                Value::Int(step.on_overrun.code()),
            );
            index = index + 1;
        }
        r
    }

    fn overrun_stands(&self, run: &SequenceRun) -> (r: bool)
        requires
            run.current < self@.steps.len(),
        ensures
            r == self@.with_run(*run).overrun_stands(),
    {
        let step = self.steps[run.current];
        run.armed && !run.fault_hold && step.advance == AdvanceMode::Measured && run.elapsed
            >= step.tick_bound()
    }

    /// Captures the table, the scalars and the run state, so that a standby
    /// continues mid-sequence.
    pub fn capture_state(&self) -> (r: StateMap)
        requires
            self@.wf(),
        ensures
            r@ == self@.captured(),
    {
        let run = self.run;
        let mut r = self.report_parameters();
        r.insert("step", Value::Int((run.current + 1) as i64));
        r.insert("elapsed", Value::Int(run.elapsed as i64));
        r.insert("request", Value::Bool(run.armed));
        r.insert("pending", Value::Bool(run.pending));
        r.insert("pending_source", Value::Int(run.pending_source));
        r.insert("trigger_source", Value::Int(run.trigger_source));
        r.insert("done", Value::Bool(run.completed));
        r.insert("aborted", Value::Bool(run.aborted));
        r.insert("fault_hold", Value::Bool(run.fault_hold));
        let overrun = self.overrun_stands(&run);
        assert(self@.with_run(run) == self@);
        r.insert("overrun", Value::Bool(overrun));
        r.insert("trigger_held", Value::Int(run.held.to_mask()));
        r.insert("fault_seen", Value::Bool(run.fault_seen));
        r
    }

    fn known_names(&self) -> (r: Vec<String>)
        ensures
            text::views(r@) == step_names(sequence_names(), self@.steps.len()),
    {
        let mut r: Vec<String> = Vec::new();
        r.push("step".to_owned());
        r.push("elapsed".to_owned());
        r.push("request".to_owned());
        r.push("pending".to_owned());
        r.push("pending_source".to_owned());
        r.push("trigger_source".to_owned());
        r.push("done".to_owned());
        r.push("aborted".to_owned());
        r.push("fault_hold".to_owned());
        r.push("overrun".to_owned());
        r.push("trigger_held".to_owned());
        r.push("step_count".to_owned());
        r.push("auto_start".to_owned());
        r.push("abort_step".to_owned());
        r.push("on_fault_step".to_owned());
        r.push("on_fault_policy".to_owned());
        r.push("fault_seen".to_owned());
        assert(text::views(r@) == sequence_names());
        let mut index: usize = 0;
        while index < self.steps.len()
            invariant
                index <= self.steps.len(),
                text::views(r@) == step_names(sequence_names(), index as nat),
            decreases self.steps.len() - index,
        {
            let n: u64 = index as u64 + 1;
            r.push(entry_key(n, StepEntry::Ticks));
            r.push(entry_key(n, StepEntry::Out));
            r.push(entry_key(n, StepEntry::Advance));
            r.push(entry_key(n, StepEntry::Bound));
            r.push(entry_key(n, StepEntry::Meas));
            r.push(entry_key(n, StepEntry::OnOverrun));
            index = index + 1;
            assert(text::views(r@) == step_names(sequence_names(), index as nat));
        }
        r
    }

    fn restore_position(&self, state: &StateMap, key: &str) -> (r: Result<i64, StateError>)
        ensures
            table::agrees(r, position_field(state@, self@.name, key@, self@.count())),
            r matches Ok(position) ==> 1 <= position <= self@.count(),
    {
        let position: i64 = state.require_i64(self.name.as_str(), key)?;
        if position < 1 || position as u64 > self.steps.len() as u64 {
            return Err(table::invalid_value(self.name.as_str(), key, Value::Int(position)));
        }
        Ok(position)
    }

    fn restore_config(&self, state: &StateMap) -> (r: Result<BackwashSequenceConfig, StateError>)
        ensures
            table::agrees(r, restored_config(state@, self@.name, self@.count())),
            r matches Ok(config) ==> config.abort_step < self@.count() && config.on_fault_step
                < self@.count(),
    {
        let name = self.name.as_str();
        let declared: i64 = state.require_i64(name, "step_count")?;
        if declared < 0 || declared as u64 != self.steps.len() as u64 {
            return Err(table::invalid_value(name, "step_count", Value::Int(declared)));
        }
        let auto_code: i64 = state.require_i64(name, "auto_start")?;
        let auto_start = match AutoStart::decode(auto_code) {
            Some(auto_start) => auto_start,
            None => {
                return Err(table::invalid_value(name, "auto_start", Value::Int(auto_code)));
            },
        };
        let abort_step: i64 = self.restore_position(state, "abort_step")?;
        let on_fault_step: i64 = self.restore_position(state, "on_fault_step")?;
        let policy: i64 = state.require_i64(name, "on_fault_policy")?;
        match FaultPolicy::decode(policy) {
            Some(on_fault_policy) => Ok(
                BackwashSequenceConfig {
                    auto_start,
                    abort_step: (abort_step - 1) as usize,
                    on_fault_step: (on_fault_step - 1) as usize,
                    on_fault_policy,
                },
            ),
            None => Err(table::invalid_value(name, "on_fault_policy", Value::Int(policy))),
        }
    }

    fn restore_step(&self, state: &StateMap, index: usize) -> (r: Result<BackwashStep, StateError>)
        requires
            self@.wf(),
            index < self@.count(),
        ensures
            table::agrees(
                r,
                restored_step(
                    state@,
                    self@.name,
                    (index + 1) as nat,
                    self@.steps[index as int],
                ),
            ),
            r matches Ok(step) ==> step.valid(self@.measurements()),
    {
        let name = self.name.as_str();
        let constructed = self.steps[index];
        assert(self@.steps[index as int].valid(self@.measurements()));
        let n: u64 = index as u64 + 1;
        let ticks_key = entry_key(n, StepEntry::Ticks);
        let ticks: i64 = state.require_i64(name, ticks_key.as_str())?;
        if ticks < 0 {
            return Err(table::invalid_value(name, ticks_key.as_str(), Value::Int(ticks)));
        }
        let out_key = entry_key(n, StepEntry::Out);
        let value = state.require_f64(name, out_key.as_str())?;
        if !value.is_finite() {
            return Err(table::invalid_value(name, out_key.as_str(), Value::Float(value)));
        }
        let advance_key = entry_key(n, StepEntry::Advance);
        let advance_code: i64 = state.require_i64(name, advance_key.as_str())?;
        let same_advance = match AdvanceMode::decode(advance_code) {
            Some(advance) => advance == constructed.advance,
            None => false,
        };
        if !same_advance {
            return Err(
                table::invalid_value(name, advance_key.as_str(), Value::Int(advance_code)),
            );
        }
        let bound_key = entry_key(n, StepEntry::Bound);
        let bound = match state.get(bound_key.as_str()) {
            Some(Value::Float(bound)) => {
                if !bound.is_finite() {
                    return Err(
                        table::invalid_value(name, bound_key.as_str(), Value::Float(bound)),
                    );
                }
                Some(bound)
            },
            Some(other) => {
                return Err(table::invalid_value(name, bound_key.as_str(), other));
            },
            None => {
                if constructed.bound.is_some() {
                    return Err(
                        StateError::MissingField { element: self.name.clone(), field: bound_key },
                    );
                }
                None
            },
        };
        let meas_key = entry_key(n, StepEntry::Meas);
        match state.get(meas_key.as_str()) {
            Some(Value::Int(selection)) => {
                let same_meas = match constructed.meas {
                    Some(meas) => selection >= 1 && (selection - 1) as u64 == meas as u64,
                    None => false,
                };
                if !same_meas {
                    return Err(
                        table::invalid_value(name, meas_key.as_str(), Value::Int(selection)),
                    );
                }
            },
            Some(other) => {
                return Err(table::invalid_value(name, meas_key.as_str(), other));
            },
            None => {
                if constructed.meas.is_some() {
                    return Err(
                        StateError::MissingField { element: self.name.clone(), field: meas_key },
                    );
                }
            },
        }
        let overrun_key = entry_key(n, StepEntry::OnOverrun);
        let overrun_code: i64 = state.require_i64(name, overrun_key.as_str())?;
        let same_overrun = match OverrunPolicy::decode(overrun_code) {
            Some(on_overrun) => on_overrun == constructed.on_overrun,
            None => false,
        };
        if !same_overrun {
            return Err(
                table::invalid_value(name, overrun_key.as_str(), Value::Int(overrun_code)),
            );
        }
        Ok(BackwashStep { ticks: ticks as u64, value, bound, ..constructed })
    }

    fn restore_request(&self, state: &StateMap, auto_start: AutoStart) -> (r: Result<
        (bool, bool, i64),
        StateError,
    >)
        ensures
            table::agrees(r, request_field(state@, self@.name, auto_start)),
            r matches Ok((armed, pending, source)) ==> (pending ==> !armed && 1 <= source <= 3) && (
            !pending ==> source == 0),
    {
        let name = self.name.as_str();
        let armed = state.require_bool(name, "request")?;
        let pending = state.require_bool(name, "pending")?;
        let source: i64 = state.require_i64(name, "pending_source")?;
        if source < 0 || source > 3 || (source != 0) != pending {
            return Err(table::invalid_value(name, "pending_source", Value::Int(source)));
        }
        if pending && (armed || auto_start != AutoStart::Pending) {
            return Err(table::invalid_value(name, "pending", Value::Bool(pending)));
        }
        Ok((armed, pending, source))
    }

    /// Reads the status fields into `run`, which holds the rest.
    fn restore_status(
        &self,
        state: &StateMap,
        config: &BackwashSequenceConfig,
        steps: &Vec<BackwashStep>,
        run: SequenceRun,
    ) -> (r: Result<SequenceRun, StateError>)
        requires
            run.current < steps@.len(),
            steps@.len() > 0,
            (SequenceView { config: *config, steps: steps@, ..self@ }).with_run(run).wf(),
        ensures
            match r {
                Ok(status) => (SequenceView { config: *config, steps: steps@, ..self@ }).with_run(
                    run,
                ).restored_status(state@) == Ok::<SequenceView, StateErrorView>(
                    (SequenceView { config: *config, steps: steps@, ..self@ }).with_run(status),
                ) && (SequenceView { config: *config, steps: steps@, ..self@ }).with_run(
                    status,
                ).wf(),
                Err(error) => (SequenceView { config: *config, steps: steps@, ..self@ }).with_run(
                    run,
                ).restored_status(state@) == Err::<SequenceView, StateErrorView>(error@),
            },
    {
        let name = self.name.as_str();
        let source: i64 = state.require_i64(name, "trigger_source")?;
        if source < 0 || source > 4 {
            return Err(table::invalid_value(name, "trigger_source", Value::Int(source)));
        }
        let completed = state.require_bool(name, "done")?;
        if completed && (run.armed || run.current != steps.len() - 1) {
            return Err(table::invalid_value(name, "done", Value::Bool(completed)));
        }
        let aborted = state.require_bool(name, "aborted")?;
        if aborted && (run.armed || run.elapsed != 0) {
            return Err(table::invalid_value(name, "aborted", Value::Bool(aborted)));
        }
        let fault_hold = state.require_bool(name, "fault_hold")?;
        if fault_hold && !run.armed {
            return Err(table::invalid_value(name, "fault_hold", Value::Bool(fault_hold)));
        }
        let overrun = state.require_bool(name, "overrun")?;
        let step = steps[run.current];
        let stands = run.armed && !fault_hold && step.advance == AdvanceMode::Measured
            && run.elapsed >= step.tick_bound();
        if overrun && !stands {
            return Err(table::invalid_value(name, "overrun", Value::Bool(overrun)));
        }
        if source != 0 && !(run.armed || completed || aborted || run.pending) {
            return Err(table::invalid_value(name, "trigger_source", Value::Int(source)));
        }
        let mask: i64 = state.require_i64(name, "trigger_held")?;
        if mask < 0 || mask >= 16 {
            return Err(table::invalid_value(name, "trigger_held", Value::Int(mask)));
        }
        let seen = state.optional_bool(name, "fault_seen")?;
        Ok(
            SequenceRun {
                trigger_source: source,
                completed,
                aborted,
                fault_hold,
                held: Triggers::from_mask(mask),
                fault_seen: match seen {
                    Some(seen) => seen,
                    None => false,
                },
                ..run
            },
        )
    }

    /// Takes over a checkpoint. The whole checkpoint is read before anything
    /// changes, so a refused one leaves the sequence as it was.
    pub fn restore_state(&mut self, state: &StateMap) -> (r: Result<(), StateError>)
        requires
            old(self)@.wf(),
        ensures
            final(self)@.wf(),
            match r {
                Ok(_) => old(self)@.restored(state.keys(), state@) == Ok::<
                    SequenceView,
                    StateErrorView,
                >(final(self)@),
                Err(error) => old(self)@.restored(state.keys(), state@) == Err::<
                    SequenceView,
                    StateErrorView,
                >(error@) && final(self)@ == old(self)@,
            },
    {
        let ghost before = self@;
        state.ensure_known_fields(self.name.as_str(), &self.known_names())?;
        let config = self.restore_config(state)?;
        let mut steps: Vec<BackwashStep> = Vec::new();
        while steps.len() < self.steps.len()
            invariant
                self@ == before,
                before.wf(),
                steps.len() <= self.steps.len(),
                restored_steps(state@, before.name, before.steps, steps@.len()) == Ok::<
                    Seq<BackwashStep>,
                    StateErrorView,
                >(steps@),
                forall|i: int|
                    0 <= i < steps.len() ==> (#[trigger] steps@[i]).valid(before.measurements()),
                known_fields(
                    state.keys(),
                    before.name,
                    step_names(sequence_names(), before.steps.len()),
                ) is Ok,
                restored_config(state@, before.name, before.count()) == Ok::<
                    BackwashSequenceConfig,
                    StateErrorView,
                >(config),
                config.abort_step < before.count(),
                config.on_fault_step < before.count(),
            decreases self.steps.len() - steps.len(),
        {
            match self.restore_step(state, steps.len()) {
                Ok(step) => steps.push(step),
                Err(error) => {
                    proof {
                        lemma_first_step_refusal(
                            state@,
                            before.name,
                            before.steps,
                            steps@.len() + 1,
                            before.steps.len(),
                        );
                    }
                    return Err(error);
                },
            }
        }
        let position: i64 = self.restore_position(state, "step")?;
        let current: usize = (position - 1) as usize;
        let elapsed: i64 = state.require_i64(self.name.as_str(), "elapsed")?;
        if elapsed < 0 || elapsed as u64 > steps[current].tick_bound() {
            return Err(table::invalid_value(self.name.as_str(), "elapsed", Value::Int(elapsed)));
        }
        let (armed, pending, pending_source): (bool, bool, i64) = self.restore_request(
            state,
            config.auto_start,
        )?;
        let run = SequenceRun {
            current,
            elapsed: elapsed as u64,
            armed,
            pending,
            pending_source,
            ..self.run
        };
        let cleared = SequenceRun { completed: false, aborted: false, fault_hold: false, ..run };
        proof {
            lemma_status_ignores(
                (SequenceView { config, steps: steps@, ..self@ }).with_run(run),
                (SequenceView { config, steps: steps@, ..self@ }).with_run(cleared),
                state@,
            );
        }
        let status = self.restore_status(state, &config, &steps, cleared)?;
        self.config = config;
        self.steps = steps;
        self.run = status;
        Ok(())
    }
}

impl SequenceRun {
    /// Arms a fresh run.
    fn arm(self, source: i64) -> (r: SequenceRun)
        ensures
            r == (SequenceRun {
                current: 0,
                elapsed: 0,
                armed: true,
                pending: false,
                pending_source: 0,
                trigger_source: source,
                completed: false,
                aborted: false,
                fault_hold: false,
                held: self.held,
                fault_seen: self.fault_seen,
            }),
    {
        SequenceRun {
            current: 0,
            elapsed: 0,
            armed: true,
            pending: false,
            pending_source: 0,
            trigger_source: source,
            completed: false,
            aborted: false,
            fault_hold: false,
            held: self.held,
            fault_seen: self.fault_seen,
        }
    }

    /// Takes the abort path.
    fn abort(self, abort_step: usize) -> (r: SequenceRun)
        ensures
            r == (SequenceRun {
                current: abort_step,
                elapsed: 0,
                armed: false,
                pending: false,
                pending_source: 0,
                completed: false,
                aborted: true,
                fault_hold: false,
                ..self
            }),
    {
        SequenceRun {
            current: abort_step,
            elapsed: 0,
            armed: false,
            pending: false,
            pending_source: 0,
            completed: false,
            aborted: true,
            fault_hold: false,
            ..self
        }
    }
}

/// Adds roles for ports with numbered names.
fn push_roles(roles: &mut Vec<RoleHint>, prefix: &str, role: PortRole, count: usize)
    ensures
        role_views(final(roles)@) == numbered_roles(
            role_views(old(roles)@),
            prefix@,
            role,
            count as nat,
        ),
{
    let ghost leading = role_views(roles@);
    let mut index: usize = 0;
    while index < count
        invariant
            index <= count,
            role_views(roles@) == numbered_roles(leading, prefix@, role, index as nat),
        decreases count - index,
    {
        roles.push(describe::hint(text::numbered(prefix, index as u64 + 1).as_str(), role));
        index = index + 1;
        assert(role_views(roles@) == numbered_roles(leading, prefix@, role, index as nat));
    }
}

/// An error found while checking stays the first one.
proof fn lemma_first_table_error(
    name: Seq<char>,
    steps: Seq<BackwashStep>,
    measurements: nat,
    found: nat,
    all: nat,
)
    requires
        table_error(name, steps, measurements, found) is Some,
        found <= all,
    ensures
        table_error(name, steps, measurements, all) == table_error(
            name,
            steps,
            measurements,
            found,
        ),
    decreases all,
{
    if found < all {
        lemma_first_table_error(name, steps, measurements, found, (all - 1) as nat);
    }
}

/// An error found while reading stays the first one.
proof fn lemma_first_read_error(
    name: Seq<char>,
    parameters: Map<Seq<char>, Value>,
    measurements: nat,
    found: nat,
    all: nat,
)
    requires
        read_steps(name, parameters, measurements, found) is Err,
        found <= all,
    ensures
        read_steps(name, parameters, measurements, all) == read_steps(
            name,
            parameters,
            measurements,
            found,
        ),
    decreases all,
{
    if found < all {
        lemma_first_read_error(name, parameters, measurements, found, (all - 1) as nat);
    }
}

/// A refusal found stays the first one.
proof fn lemma_first_step_refusal(
    fields: Map<Seq<char>, Value>,
    name: Seq<char>,
    constructed: Seq<BackwashStep>,
    found: nat,
    all: nat,
)
    requires
        restored_steps(fields, name, constructed, found) is Err,
        found <= all,
    ensures
        restored_steps(fields, name, constructed, all) == restored_steps(
            fields,
            name,
            constructed,
            found,
        ),
    decreases all,
{
    if found < all {
        lemma_first_step_refusal(fields, name, constructed, found, (all - 1) as nat);
    }
}

/// The status that a checkpoint carries replaces the one that stood.
proof fn lemma_status_ignores(a: SequenceView, b: SequenceView, fields: Map<Seq<char>, Value>)
    requires
        b == (SequenceView { completed: false, aborted: false, fault_hold: false, ..a }),
    ensures
        a.restored_status(fields) == b.restored_status(fields),
{
}

/// The role hints follow the ports one by one.
proof fn lemma_roles_follow_ports(sequence: SequenceView)
    requires
        sequence.wf(),
    ensures
        hints_declared(sequence.requirements(), sequence.roles()),
{
    lemma_meas_roles(
        sequence.control_ports(),
        sequence.control_roles(),
        sequence.inputs.meas@,
        sequence.inputs.meas@.len(),
    );
    lemma_phase_roles(
        sequence.status_ports(),
        sequence.status_roles(),
        sequence.outputs.phases@,
        sequence.steps.len(),
    );
    describe::parallel_hints(sequence.requirements(), sequence.roles());
}

proof fn lemma_meas_roles(
    ports: Seq<RequirementView>,
    roles: Seq<(Seq<char>, PortRole)>,
    meas: Seq<PointId>,
    done: nat,
)
    requires
        ports.len() == roles.len(),
        forall|i: int| 0 <= i < roles.len() ==> (#[trigger] roles[i]).0 == ports[i].name,
    ensures
        ({
            let all = numbered_roles(roles, "meas_"@, PortRole::ProcessValue, done);
            &&& meas_ports(ports, meas, done).len() == all.len()
            &&& forall|i: int|
                0 <= i < all.len() ==> (#[trigger] all[i]).0 == meas_ports(ports, meas, done)[i].name
        }),
    decreases done,
{
    if done > 0 {
        lemma_meas_roles(ports, roles, meas, (done - 1) as nat);
    }
}

proof fn lemma_phase_roles(
    ports: Seq<RequirementView>,
    roles: Seq<(Seq<char>, PortRole)>,
    phases: Seq<PointId>,
    done: nat,
)
    requires
        ports.len() == roles.len(),
        forall|i: int| 0 <= i < roles.len() ==> (#[trigger] roles[i]).0 == ports[i].name,
    ensures
        ({
            let all = numbered_roles(roles, "phase_"@, PortRole::Output, done);
            &&& phase_ports(ports, phases, done).len() == all.len()
            &&& forall|i: int|
                0 <= i < all.len() ==> (#[trigger] all[i]).0 == phase_ports(
                    ports,
                    phases,
                    done,
                )[i].name
        }),
    decreases done,
{
    if done > 0 {
        lemma_phase_roles(ports, roles, phases, (done - 1) as nat);
    }
}

} // verus!
