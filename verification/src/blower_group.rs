//! Staging a group of blowers against a continuous capacity demand.

use crate::blower_model::{
    amount_field, bound_named, bounds_error, bounds_field, ceilings, commanded_count, first_gap,
    group_names, insert_ranked, max_current_name, max_flow_name, min_flow_name, order_after,
    order_lists, rank_of, ranked, read_authority, read_bounds, read_rotation, restored_bounds,
    restored_config, restored_pair, restored_units, spec_from_parameters, spec_new, state_field,
    unit_field, unit_names, unit_parameters, unit_roles, with_bounds, with_units, without,
    BlowerScan, GroupView,
};
use crate::describe::{
    self, hints_declared, parameter_views, requirement_views, role_views, spec_nonnegative_f64,
    ComponentDescriptor, IoRequirement, ParameterDescriptor, PortRole, RequirementView, RoleHint,
};
use crate::float::Float;
use crate::params::{
    self, spec_invalid, spec_required_f64, spec_required_u64, CommandError, CommandErrorView,
    ParameterError, ParameterErrorView, Parameters,
};
use crate::table::{self, bool_field, known_fields, StateError, StateErrorView, StateMap};
use crate::text::{self, index_of, spec_indexed};
use crate::value::{PointId, Quality, Reading, Tick, Value, ValueKind, Write};
use vstd::prelude::*;

verus! {

/// Who may move the staged set.
#[derive(Debug, Clone, Copy, PartialEq, Eq, Structural)]
pub enum StagingAuthority {
    /// `0`: the group stages and rotates on its own evaluation.
    Automatic,
    /// `1`: a computed change waits for the operator. One assertion of
    /// `approve` grants one change, and must clear before the next grant.
    OperatorApproval,
    /// `2`: the group commands nothing and only flags a warranted change.
    FlagOnly,
}

impl StagingAuthority {
    /// The code of the authority.
    pub open spec fn spec_code(self) -> i64 {
        match self {
            StagingAuthority::Automatic => 0,
            StagingAuthority::OperatorApproval => 1,
            StagingAuthority::FlagOnly => 2,
        }
    }

    /// The authority that `code` selects.
    pub open spec fn spec_decode(code: int) -> Option<StagingAuthority> {
        if code == 0 {
            Some(StagingAuthority::Automatic)
        } else if code == 1 {
            Some(StagingAuthority::OperatorApproval)
        } else if code == 2 {
            Some(StagingAuthority::FlagOnly)
        } else {
            None
        }
    }

    /// The code that `staging_authority` carries.
    pub fn code(self) -> (r: i64)
        ensures
            r == self.spec_code(),
    {
        match self {
            StagingAuthority::Automatic => 0,
            StagingAuthority::OperatorApproval => 1,
            StagingAuthority::FlagOnly => 2,
        }
    }

    /// The authority that `code` selects.
    pub fn decode(code: i64) -> (r: Option<StagingAuthority>)
        ensures
            r == StagingAuthority::spec_decode(code as int),
    {
        match code {
            0 => Some(StagingAuthority::Automatic),
            1 => Some(StagingAuthority::OperatorApproval),
            2 => Some(StagingAuthority::FlagOnly),
            _ => None,
        }
    }
}

/// How the group picks the unit that a change touches.
#[derive(Debug, Clone, Copy, PartialEq, Eq, Structural)]
pub enum BlowerRotation {
    /// `0`: joins pick the lowest-indexed unit, departures the most
    /// recently joined one.
    NoRotation,
    /// `1`: joins pick the least-run unit, departures the most-run one, and
    /// the group swaps the two once their run-hours lie far enough apart.
    EqualizeRuntime,
    /// `2`: joins pick the lowest-indexed unit, departures the
    /// highest-indexed one.
    FixedOrder,
}

impl BlowerRotation {
    /// The code of the policy.
    pub open spec fn spec_code(self) -> i64 {
        match self {
            BlowerRotation::NoRotation => 0,
            BlowerRotation::EqualizeRuntime => 1,
            BlowerRotation::FixedOrder => 2,
        }
    }

    /// The policy that `code` selects.
    pub open spec fn spec_decode(code: int) -> Option<BlowerRotation> {
        if code == 0 {
            Some(BlowerRotation::NoRotation)
        } else if code == 1 {
            Some(BlowerRotation::EqualizeRuntime)
        } else if code == 2 {
            Some(BlowerRotation::FixedOrder)
        } else {
            None
        }
    }

    /// The code that `rotation` carries.
    pub fn code(self) -> (r: i64)
        ensures
            r == self.spec_code(),
    {
        match self {
            BlowerRotation::NoRotation => 0,
            BlowerRotation::EqualizeRuntime => 1,
            BlowerRotation::FixedOrder => 2,
        }
    }

    /// The policy that `code` selects.
    pub fn decode(code: i64) -> (r: Option<BlowerRotation>)
        ensures
            r == BlowerRotation::spec_decode(code as int),
    {
        match code {
            0 => Some(BlowerRotation::NoRotation),
            1 => Some(BlowerRotation::EqualizeRuntime),
            2 => Some(BlowerRotation::FixedOrder),
            _ => None,
        }
    }
}

/// The points of one blower.
#[derive(Debug, Clone, Copy, PartialEq, Eq, Structural)]
pub struct BlowerIo {
    /// `cmd_i`: the group's run request.
    pub cmd: PointId,
    /// `run_i`: the run feedback, which proves the join and the departure.
    pub run: PointId,
    /// `fault_i`: the proven feedback failure.
    pub fault: PointId,
    /// `avail_i`: the aggregated availability.
    pub avail: PointId,
    /// `capacity_i`: the unit's share of the demand.
    pub capacity: PointId,
    /// `vent_i`: the vent valve command; `true` holds the unit off the
    /// header.
    pub vent: PointId,
}

/// The points the group reports on.
#[derive(Debug, Clone, Copy, PartialEq, Eq, Structural)]
pub struct BlowerOutputs {
    /// `staged`: how many units the group commands.
    pub staged: PointId,
    /// `none_available`: no unit is available.
    pub none_available: PointId,
    /// `all_faulted`: every unit reads failed.
    pub all_faulted: PointId,
    /// `staging_pending`: a warranted change stands unexecuted.
    pub staging_pending: PointId,
    /// `transition`: a join, a departure or a rotation is in progress.
    pub transition: PointId,
}

/// The machine bounds that one blower's capacity is clamped to.
#[derive(Debug, Clone, Copy, PartialEq, Eq, Structural)]
pub struct UnitBounds {
    /// The floor on the header, and the share while the start proves.
    pub min_flow: Float,
    /// The flow ceiling.
    pub max_flow: Float,
    /// The current bound in the demand coordinate, a second ceiling.
    pub max_current: Float,
}

impl UnitBounds {
    /// Whether the bounds are non-negative and ordered.
    pub open spec fn valid(self) -> bool {
        &&& self.min_flow.nonnegative()
        &&& self.max_flow.nonnegative()
        &&& self.max_current.nonnegative()
        &&& self.ordered()
    }

    /// Whether the floor lies under both ceilings.
    pub open spec fn ordered(self) -> bool {
        !self.max_flow.lt(self.min_flow) && !self.max_current.lt(self.min_flow)
    }

    /// The ceiling: the tighter of the flow and current bounds.
    pub open spec fn spec_effective_max(self) -> Float {
        if self.max_current.lt(self.max_flow) {
            self.max_current
        } else {
            self.max_flow
        }
    }

    /// The bounds of unit `index`, or the first parameter that they break.
    pub open spec fn spec_checked(component: Seq<char>, index: nat, bounds: UnitBounds) -> Result<
        UnitBounds,
        ParameterErrorView,
    > {
        let detail = "must be a non-negative finite value"@;
        if !bounds.min_flow.nonnegative() {
            Err(spec_invalid(component, min_flow_name(index), detail))
        } else if !bounds.max_flow.nonnegative() {
            Err(spec_invalid(component, max_flow_name(index), detail))
        } else if !bounds.max_current.nonnegative() {
            Err(spec_invalid(component, max_current_name(index), detail))
        } else if bounds.max_flow.lt(bounds.min_flow) {
            Err(
                spec_invalid(
                    component,
                    max_flow_name(index),
                    "must be at least "@ + min_flow_name(index),
                ),
            )
        } else if bounds.max_current.lt(bounds.min_flow) {
            Err(
                spec_invalid(
                    component,
                    max_current_name(index),
                    "must be at least "@ + min_flow_name(index),
                ),
            )
        } else {
            Ok(bounds)
        }
    }

    /// The ceiling: the tighter of the flow and current bounds.
    pub fn effective_max(&self) -> (r: Float)
        ensures
            r == self.spec_effective_max(),
    {
        if self.max_current.less_than(self.max_flow) {
            self.max_current
        } else {
            self.max_flow
        }
    }

    /// Checks the bounds of unit `index`.
    fn checked(component: &str, index: u64, bounds: UnitBounds) -> (r: Result<
        UnitBounds,
        ParameterError,
    >)
        ensures
            params::agrees(r, UnitBounds::spec_checked(component@, index as nat, bounds)),
    {
        let min_flow = text::indexed("unit_", index, "_min_flow");
        let max_flow = text::indexed("unit_", index, "_max_flow");
        let max_current = text::indexed("unit_", index, "_max_current");
        let detail = "must be a non-negative finite value";
        if !bounds.min_flow.is_nonnegative() {
            return Err(params::invalid(component, min_flow.as_str(), detail));
        }
        if !bounds.max_flow.is_nonnegative() {
            return Err(params::invalid(component, max_flow.as_str(), detail));
        }
        if !bounds.max_current.is_nonnegative() {
            return Err(params::invalid(component, max_current.as_str(), detail));
        }
        let least = text::join("must be at least ", min_flow.as_str());
        if bounds.max_flow.less_than(bounds.min_flow) {
            return Err(params::invalid(component, max_flow.as_str(), least.as_str()));
        }
        if bounds.max_current.less_than(bounds.min_flow) {
            return Err(params::invalid(component, max_current.as_str(), least.as_str()));
        }
        Ok(bounds)
    }
}

/// The tuned behaviour that a group runs under.
#[derive(Debug, Clone, Copy, PartialEq, Eq, Structural)]
pub struct BlowerGroupConfig {
    /// Who may move the staged set.
    pub staging_authority: StagingAuthority,
    /// The fraction of the committed capacity whose exceedance warrants
    /// another unit.
    pub stage_up: Float,
    /// The fraction of the remaining capacity below which a unit may
    /// depart.
    pub stage_down: Float,
    /// Scans that a joined unit must serve before it may depart.
    pub min_run_ticks: u64,
    /// Scans that a stopped unit must sit out before it may start again.
    pub min_start_interval_ticks: u64,
    /// Scans that a join has to prove the run, and a departure the stop.
    pub vent_ticks: u64,
    /// How units are picked.
    pub rotation: BlowerRotation,
}

impl BlowerGroupConfig {
    /// Whether the thresholds are non-negative and the window is not empty.
    pub open spec fn valid(self) -> bool {
        self.stage_up.nonnegative() && self.stage_down.nonnegative() && self.vent_ticks >= 1
    }

    /// The configuration, or the first parameter that breaks it.
    pub open spec fn spec_checked(component: Seq<char>, config: BlowerGroupConfig) -> Result<
        BlowerGroupConfig,
        ParameterErrorView,
    > {
        let detail = "must be a non-negative finite value"@;
        if !config.stage_up.nonnegative() {
            Err(spec_invalid(component, "stage_up"@, detail))
        } else if !config.stage_down.nonnegative() {
            Err(spec_invalid(component, "stage_down"@, detail))
        } else if config.vent_ticks < 1 {
            Err(spec_invalid(component, "vent_ticks"@, "must be at least 1"@))
        } else {
            Ok(config)
        }
    }

    /// Checks the configuration.
    fn checked(component: &str, config: BlowerGroupConfig) -> (r: Result<
        BlowerGroupConfig,
        ParameterError,
    >)
        ensures
            params::agrees(r, BlowerGroupConfig::spec_checked(component@, config)),
    {
        let detail = "must be a non-negative finite value";
        if !config.stage_up.is_nonnegative() {
            return Err(params::invalid(component, "stage_up", detail));
        }
        if !config.stage_down.is_nonnegative() {
            return Err(params::invalid(component, "stage_down", detail));
        }
        if config.vent_ticks < 1 {
            return Err(params::invalid(component, "vent_ticks", "must be at least 1"));
        }
        Ok(config)
    }
}

/// Where a unit stands in the join and departure choreography.
#[derive(Debug, Clone, Copy, PartialEq, Eq, Structural)]
pub enum Phase {
    /// `0`: uncommanded.
    Offline,
    /// `1`: starting off the header while the run feedback proves.
    Joining,
    /// `2`: on the header.
    Joined,
    /// `3`: stopping off the header while the run feedback proves the stop.
    Departing,
}

impl Phase {
    /// The code of the phase.
    pub open spec fn spec_code(self) -> i64 {
        match self {
            Phase::Offline => 0,
            Phase::Joining => 1,
            Phase::Joined => 2,
            Phase::Departing => 3,
        }
    }

    /// The phase that `code` selects.
    pub open spec fn spec_decode(code: int) -> Option<Phase> {
        if code == 0 {
            Some(Phase::Offline)
        } else if code == 1 {
            Some(Phase::Joining)
        } else if code == 2 {
            Some(Phase::Joined)
        } else if code == 3 {
            Some(Phase::Departing)
        } else {
            None
        }
    }

    /// Whether a unit in the phase is commanded to run.
    pub open spec fn commanded(self) -> bool {
        self == Phase::Joining || self == Phase::Joined
    }

    /// Whether a unit in the phase is held off the header by its vent.
    pub open spec fn vented(self) -> bool {
        self == Phase::Joining || self == Phase::Departing
    }

    /// The code that `phase_<i>` carries.
    pub fn code(self) -> (r: i64)
        ensures
            r == self.spec_code(),
    {
        match self {
            Phase::Offline => 0,
            Phase::Joining => 1,
            Phase::Joined => 2,
            Phase::Departing => 3,
        }
    }

    /// The phase that `code` selects.
    pub fn decode(code: i64) -> (r: Option<Phase>)
        ensures
            r == Phase::spec_decode(code as int),
    {
        match code {
            0 => Some(Phase::Offline),
            1 => Some(Phase::Joining),
            2 => Some(Phase::Joined),
            3 => Some(Phase::Departing),
            _ => None,
        }
    }
}

/// The run state of one unit.
///
/// Scans are numbered from one, so zero says that something has not happened
/// yet. A unit that a scan numbered zero has started runs like any other, but
/// a checkpoint taken before it is offline again is refused.
#[derive(Debug, Clone, Copy, PartialEq, Eq, Structural)]
pub struct BlowerState {
    /// Where the unit stands in the choreography.
    pub phase: Phase,
    /// Scans that the current leg has run unproven; zero in a settled
    /// phase.
    pub phase_ticks: u64,
    /// Scans that the feedback proved the unit ran.
    pub run_hours: u64,
    /// The scan of the last run request; zero means never.
    pub started_at: u64,
    /// The scan of the last return to `Offline`; zero means never.
    pub stopped_at: u64,
}

impl BlowerState {
    /// A settled phase has spent nothing of a window, and the count of a leg
    /// can go on.
    pub open spec fn wf(self) -> bool {
        self.phase_ticks < u64::MAX && (!self.phase.vented() ==> self.phase_ticks == 0)
    }

    /// The state of a unit that was never commanded.
    pub open spec fn fresh() -> BlowerState {
        BlowerState {
            phase: Phase::Offline,
            phase_ticks: 0,
            run_hours: 0,
            started_at: 0,
            stopped_at: 0,
        }
    }
}

/// A group of staged blowers.
///
/// A unit joins by the offline-start sequence: its vent opens and its
/// command asserts with the unit held off the header, the run feedback must
/// prove within `vent_ticks` scans, then the vent closes and the unit
/// carries its share. A departure runs the sequence in reverse. Elective
/// changes serialize; a unit that faults or loses availability departs at
/// once.
///
/// One scan is [`advance`](Self::advance), then [`stage`](Self::stage) on
/// the two demand limits computed from
/// [`committed_ceilings`](Self::committed_ceilings) and
/// [`departing_ceiling`](Self::departing_ceiling), then
/// [`outputs`](Self::outputs) on the equal share of the demand.
#[derive(Debug)]
pub struct BlowerGroup {
    name: String,
    demand: PointId,
    approve: Option<PointId>,
    units: Vec<BlowerIo>,
    bounds: Vec<UnitBounds>,
    outputs: BlowerOutputs,
    config: BlowerGroupConfig,
    state: Vec<BlowerState>,
    joined_order: Vec<usize>,
    rotation_pair: Option<(usize, usize)>,
    approve_used: bool,
    last_demand: Float,
}

impl View for BlowerGroup {
    type V = GroupView;

    closed spec fn view(&self) -> GroupView {
        GroupView {
            name: self.name@,
            demand: self.demand,
            approve: self.approve,
            units: self.units@,
            bounds: self.bounds@,
            outputs: self.outputs,
            config: self.config,
            state: self.state@,
            order: self.joined_order@,
            pair: self.rotation_pair,
            approve_used: self.approve_used,
            last_demand: self.last_demand,
        }
    }
}

/// One of the three bounds of a unit.
#[derive(Debug, Clone, Copy, PartialEq, Eq, Structural)]
pub enum BoundEntry {
    MinFlow,
    MaxFlow,
    MaxCurrent,
}

impl UnitBounds {
    /// The bounds with one of them replaced.
    pub open spec fn spec_with(self, entry: BoundEntry, value: Float) -> UnitBounds {
        match entry {
            BoundEntry::MinFlow => UnitBounds { min_flow: value, ..self },
            BoundEntry::MaxFlow => UnitBounds { max_flow: value, ..self },
            BoundEntry::MaxCurrent => UnitBounds { max_current: value, ..self },
        }
    }

    fn with(self, entry: BoundEntry, value: Float) -> (r: UnitBounds)
        ensures
            r == self.spec_with(entry, value),
    {
        match entry {
            BoundEntry::MinFlow => UnitBounds { min_flow: value, ..self },
            BoundEntry::MaxFlow => UnitBounds { max_flow: value, ..self },
            BoundEntry::MaxCurrent => UnitBounds { max_current: value, ..self },
        }
    }
}

/// Finds the unit and the bound that `parameter` names.
fn parse_bound(parameter: &str, units: usize) -> (r: Option<(usize, BoundEntry)>)
    ensures
        match r {
            Some((unit, entry)) => bound_named(parameter@, units as int) == Some(
                (unit as int, entry),
            ),
            None => bound_named(parameter@, units as int) is None,
        },
{
    let rest = text::strip_prefix(parameter, "unit_")?;
    let (index, entry) = match text::strip_suffix(rest, "_min_flow") {
        Some(index) => (index, BoundEntry::MinFlow),
        None => match text::strip_suffix(rest, "_max_flow") {
            Some(index) => (index, BoundEntry::MaxFlow),
            None => (text::strip_suffix(rest, "_max_current")?, BoundEntry::MaxCurrent),
        },
    };
    let unit: usize = text::parse_index(index)?;
    if 1 <= unit && unit <= units {
        Some((unit - 1, entry))
    } else {
        None
    }
}

/// What one unit's field points read.
#[derive(Debug, Clone, Copy, PartialEq, Eq)]
pub struct UnitReadings {
    pub run: Reading<bool>,
    pub fault: Reading<bool>,
    pub avail: Reading<bool>,
}

impl UnitReadings {
    /// The feedback proves that the unit runs.
    pub open spec fn running(self) -> bool {
        self.run.trusted()
    }

    /// The feedback proves that the unit stands.
    pub open spec fn stopped(self) -> bool {
        self.run.quality == Quality::Good && !self.run.value
    }

    /// The unit reads failed; an untrusted flag reads so too.
    pub open spec fn faulted(self) -> bool {
        self.fault.value || self.fault.quality != Quality::Good
    }

    /// The unit reads available, trusted, and does not read failed.
    pub open spec fn available(self) -> bool {
        self.avail.trusted() && !self.faulted()
    }

    fn is_stopped(&self) -> (r: bool)
        ensures
            r == self.stopped(),
    {
        self.run.quality.is_good() && !self.run.value
    }

    fn is_faulted(&self) -> (r: bool)
        ensures
            r == self.faulted(),
    {
        self.fault.value || !self.fault.quality.is_good()
    }

    fn is_available(&self) -> (r: bool)
        ensures
            r == self.available(),
    {
        self.avail.is_trusted() && !self.is_faulted()
    }
}

/// What a group reads in one scan.
#[derive(Debug, Clone, PartialEq, Eq)]
pub struct BlowerReadings {
    pub demand: Reading<Float>,
    /// The operator's release, read where the point is bound.
    pub approve: Option<Reading<bool>>,
    /// One entry per unit in declared order.
    pub units: Vec<UnitReadings>,
}

impl View for BlowerReadings {
    type V = BlowerScan;

    open spec fn view(&self) -> BlowerScan {
        BlowerScan { demand: self.demand, approve: self.approve, units: self.units@ }
    }
}

impl BlowerState {
    fn clamped(self, vent_ticks: u64) -> (r: BlowerState)
        requires
            vent_ticks >= 1,
        ensures
            r == self.spec_clamped(vent_ticks),
    {
        let leg = match self.phase {
            Phase::Joining => true,
            Phase::Departing => true,
            _ => false,
        };
        if leg && self.phase_ticks >= vent_ticks {
            BlowerState { phase_ticks: vent_ticks - 1, ..self }
        } else {
            self
        }
    }

    fn advance(
        self,
        readings: &UnitReadings,
        demand: Float,
        vent_ticks: u64,
        tick: Tick,
    ) -> (r: BlowerState)
        requires
            self.wf(),
            vent_ticks >= 1,
        ensures
            r == self.advanced(*readings, demand, vent_ticks, tick),
            r.wf(),
            r.in_window(vent_ticks),
    {
        let run_hours: u64 = if readings.run.is_trusted() && self.run_hours < u64::MAX {
            self.run_hours + 1
        } else {
            self.run_hours
        };
        let unit = BlowerState { run_hours, ..self };
        let offline = BlowerState {
            phase: Phase::Offline,
            phase_ticks: 0,
            stopped_at: tick.0,
            ..unit
        };
        let waited = if unit.phase_ticks + 1 >= vent_ticks {
            offline
        } else {
            BlowerState { phase_ticks: unit.phase_ticks + 1, ..unit }
        };
        match self.phase {
            Phase::Offline => unit,
            Phase::Joining => {
                if readings.is_faulted() || !readings.is_available() || demand.at_most(
                    Float::zero(),
                ) {
                    offline
                } else if readings.run.is_trusted() {
                    BlowerState { phase: Phase::Joined, phase_ticks: 0, ..unit }
                } else {
                    waited
                }
            },
            Phase::Joined => {
                if readings.is_faulted() || !readings.is_available() {
                    BlowerState { phase: Phase::Departing, phase_ticks: 0, ..unit }
                } else {
                    unit
                }
            },
            Phase::Departing => {
                if readings.is_stopped() {
                    offline
                } else {
                    waited
                }
            },
        }
    }
}

/// A stage change that the group computed.
#[derive(Debug, Clone, Copy, PartialEq, Eq, Structural)]
pub enum Request {
    /// Join a unit.
    StageUp(usize),
    /// Depart a unit.
    StageDown(usize),
    /// Join the first unit, then depart the second.
    Rotate(usize, usize),
}

/// Whether a constructor's result is what the specification says.
pub open spec fn built(
    r: Result<BlowerGroup, ParameterError>,
    s: Result<GroupView, ParameterErrorView>,
) -> bool {
    match r {
        Ok(group) => s == Ok::<GroupView, ParameterErrorView>(group@) && group@.wf(),
        Err(error) => s == Err::<GroupView, ParameterErrorView>(error@),
    }
}

impl BlowerGroup {
    /// The kind under which models declare the component.
    pub const KIND: &'static str = "blower-group";

    /// Builds a group from its points, its bounds and its tuning.
    ///
    /// `bounds` carries one entry per unit in the same order.
    /// Operator-approval staging needs a bound `approve`.
    pub fn new(
        name: &str,
        demand: PointId,
        approve: Option<PointId>,
        units: Vec<BlowerIo>,
        bounds: Vec<UnitBounds>,
        outputs: BlowerOutputs,
        config: BlowerGroupConfig,
    ) -> (r: Result<BlowerGroup, ParameterError>)
        ensures
            built(r, spec_new(name@, demand, approve, units@, bounds@, outputs, config)),
    {
        if units.len() == 0 {
            return Err(params::invalid(name, "units", "must declare at least one unit"));
        }
        if bounds.len() != units.len() {
            return Err(params::invalid(name, "bounds", "must carry one entry per declared unit"));
        }
        BlowerGroupConfig::checked(name, config)?;
        let mut state: Vec<BlowerState> = Vec::new();
        let mut index: usize = 0;
        while index < bounds.len()
            invariant
                index <= bounds.len() == units.len(),
                state.len() == index,
                bounds_error(name@, bounds@, index as nat) is None,
                forall|i: int| 0 <= i < index ==> (#[trigger] bounds@[i]).valid(),
                forall|i: int| 0 <= i < index ==> state@[i] == BlowerState::fresh(),
                units.len() > 0,
                BlowerGroupConfig::spec_checked(name@, config) is Ok,
            ensures
                index == bounds.len(),
            decreases bounds.len() - index,
        {
            match UnitBounds::checked(name, index as u64 + 1, bounds[index]) {
                Ok(_) => {},
                Err(error) => {
                    proof {
                        lemma_first_error(name@, bounds@, (index + 1) as nat, bounds@.len());
                    }
                    return Err(error);
                },
            }
            state.push(
                BlowerState {
                    phase: Phase::Offline,
                    phase_ticks: 0,
                    run_hours: 0,
                    started_at: 0,
                    stopped_at: 0,
                },
            );
            index = index + 1;
        }
        if config.staging_authority == StagingAuthority::OperatorApproval && approve.is_none() {
            return Err(
                params::invalid(
                    name,
                    "approve",
                    "operator-approval staging requires a bound approve point",
                ),
            );
        }
        let group = BlowerGroup {
            name: name.to_owned(),
            demand,
            approve,
            units,
            bounds,
            outputs,
            config,
            state,
            joined_order: Vec::new(),
            rotation_pair: None,
            approve_used: false,
            last_demand: Float::zero(),
        };
        assert(group@.state == Seq::new(units@.len(), |i: int| BlowerState::fresh()));
        Ok(group)
    }

    /// Reads one bound of unit `index`.
    fn read_bound(name: &str, parameters: &Parameters, index: u64, suffix: &str) -> (r: Result<
        Float,
        ParameterError,
    >)
        ensures
            params::agrees(
                r,
                spec_required_f64(
                    name@,
                    parameters@,
                    spec_indexed("unit_"@, index as nat, suffix@),
                ),
            ),
    {
        params::required_f64(name, parameters, text::indexed("unit_", index, suffix).as_str())
    }

    /// Reads the bounds of unit `index`.
    fn read_unit(name: &str, parameters: &Parameters, index: u64) -> (r: Result<
        UnitBounds,
        ParameterError,
    >)
        requires
            index > 0,
            read_bounds(name@, parameters@, (index - 1) as nat) is Ok,
        ensures
            match r {
                Ok(bounds) => read_bounds(name@, parameters@, index as nat) == Ok::<
                    Seq<UnitBounds>,
                    ParameterErrorView,
                >(read_bounds(name@, parameters@, (index - 1) as nat)->Ok_0.push(bounds)),
                Err(error) => read_bounds(name@, parameters@, index as nat) == Err::<
                    Seq<UnitBounds>,
                    ParameterErrorView,
                >(error@),
            },
    {
        let min_flow = BlowerGroup::read_bound(name, parameters, index, "_min_flow")?;
        let max_flow = BlowerGroup::read_bound(name, parameters, index, "_max_flow")?;
        let max_current = BlowerGroup::read_bound(name, parameters, index, "_max_current")?;
        Ok(UnitBounds { min_flow, max_flow, max_current })
    }

    /// Reads the authority.
    fn read_authority(name: &str, parameters: &Parameters) -> (r: Result<
        StagingAuthority,
        ParameterError,
    >)
        ensures
            params::agrees(r, read_authority(name@, parameters@)),
    {
        let code: u64 = params::required_u64(name, parameters, "staging_authority")?;
        match StagingAuthority::decode(params::code_of(code)) {
            Some(authority) => Ok(authority),
            None => Err(
                params::invalid(
                    name,
                    "staging_authority",
                    text::join(
                        "expected 0 (automatic), 1 (operator approval), or 2 (flag-only), found ",
                        text::decimal_text(code).as_str(),
                    ).as_str(),
                ),
            ),
        }
    }

    /// Reads the rotation.
    fn read_rotation(name: &str, parameters: &Parameters) -> (r: Result<
        BlowerRotation,
        ParameterError,
    >)
        ensures
            params::agrees(r, read_rotation(name@, parameters@)),
    {
        let code: u64 = params::required_u64(name, parameters, "rotation")?;
        match BlowerRotation::decode(params::code_of(code)) {
            Some(rotation) => Ok(rotation),
            None => Err(
                params::invalid(
                    name,
                    "rotation",
                    text::join(
                        "expected 0 (none), 1 (equalize runtime), or 2 (fixed order), found ",
                        text::decimal_text(code).as_str(),
                    ).as_str(),
                ),
            ),
        }
    }

    /// Builds a group from the parameters that a model declares for it.
    pub fn from_parameters(
        name: &str,
        demand: PointId,
        approve: Option<PointId>,
        units: Vec<BlowerIo>,
        outputs: BlowerOutputs,
        parameters: &Parameters,
    ) -> (r: Result<BlowerGroup, ParameterError>)
        ensures
            built(
                r,
                spec_from_parameters(name@, demand, approve, units@, outputs, parameters@),
            ),
    {
        let staging_authority = BlowerGroup::read_authority(name, parameters)?;
        let stage_up = params::required_f64(name, parameters, "stage_up")?;
        let stage_down = params::required_f64(name, parameters, "stage_down")?;
        let min_run_ticks: u64 = params::required_u64(name, parameters, "min_run_ticks")?;
        let min_start_interval_ticks: u64 = params::required_u64(
            name,
            parameters,
            "min_start_interval_ticks",
        )?;
        let ghost declared = read_bounds(name@, parameters@, units@.len());
        let mut bounds: Vec<UnitBounds> = Vec::new();
        while bounds.len() < units.len()
            invariant
                bounds.len() <= units.len(),
                declared == read_bounds(name@, parameters@, units@.len()),
                read_bounds(name@, parameters@, bounds@.len()) == Ok::<
                    Seq<UnitBounds>,
                    ParameterErrorView,
                >(bounds@),
                read_authority(name@, parameters@) is Ok,
                spec_required_f64(name@, parameters@, "stage_up"@) is Ok,
                spec_required_f64(name@, parameters@, "stage_down"@) is Ok,
                spec_required_u64(name@, parameters@, "min_run_ticks"@) is Ok,
                spec_required_u64(name@, parameters@, "min_start_interval_ticks"@) is Ok,
            decreases units.len() - bounds.len(),
        {
            match BlowerGroup::read_unit(name, parameters, bounds.len() as u64 + 1) {
                Ok(unit) => bounds.push(unit),
                Err(error) => {
                    proof {
                        lemma_first_read_error(
                            name@,
                            parameters@,
                            bounds@.len() + 1,
                            units@.len(),
                        );
                    }
                    return Err(error);
                },
            }
        }
        let vent_ticks: u64 = params::required_u64(name, parameters, "vent_ticks")?;
        let rotation = BlowerGroup::read_rotation(name, parameters)?;
        let config = BlowerGroupConfig {
            staging_authority,
            stage_up,
            stage_down,
            min_run_ticks,
            min_start_interval_ticks,
            vent_ticks,
            rotation,
        };
        BlowerGroup::new(name, demand, approve, units, bounds, outputs, config)
    }

    fn tune_threshold(&self, parameter: &str, value: Value) -> (r: Result<Float, CommandError>)
        ensures
            params::tuned(r, self@.tuned_threshold(parameter@, value)),
    {
        let tuned = params::tune_f64(self.name.as_str(), parameter, value)?;
        if tuned.is_nonnegative() {
            Ok(tuned)
        } else {
            Err(
                params::invalid_parameter(
                    self.name.as_str(),
                    parameter,
                    "must be a non-negative finite value",
                ),
            )
        }
    }

    /// Keeps the counts of the legs in progress inside a window.
    fn clamp_legs(&mut self, vent_ticks: u64)
        requires
            vent_ticks >= 1,
        ensures
            final(self)@ == (GroupView {
                state: Seq::new(
                    old(self)@.state.len(),
                    |i: int| old(self)@.state[i].spec_clamped(vent_ticks),
                ),
                ..old(self)@
            }),
    {
        let ghost before = self@;
        let mut index: usize = 0;
        while index < self.state.len()
            invariant
                vent_ticks >= 1,
                index <= self@.state.len() == before.state.len(),
                self@ == (GroupView { state: self@.state, ..before }),
                forall|i: int|
                    0 <= i < index ==> self@.state[i] == before.state[i].spec_clamped(vent_ticks),
                forall|i: int|
                    index <= i < before.state.len() ==> self@.state[i] == before.state[i],
            decreases self.state.len() - index,
        {
            let unit = self.state[index];
            self.state.set(index, unit.clamped(vent_ticks));
            index = index + 1;
        }
        assert(self@.state == Seq::new(
            before.state.len(),
            |i: int| before.state[i].spec_clamped(vent_ticks),
        ));
    }

    /// Retunes one declared parameter at the scan boundary. A refused value
    /// changes nothing.
    pub fn apply_parameter(&mut self, parameter: &str, value: Value) -> (r: Result<
        (),
        CommandError,
    >)
        requires
            old(self)@.wf(),
        ensures
            final(self)@.wf(),
            match r {
                Ok(_) => old(self)@.tuned(parameter@, value) == Ok::<GroupView, CommandErrorView>(
                    final(self)@,
                ),
                Err(error) => old(self)@.tuned(parameter@, value) == Err::<
                    GroupView,
                    CommandErrorView,
                >(error@) && final(self)@ == old(self)@,
            },
    {
        if text::same(parameter, "staging_authority") {
            let code: u64 = params::tune_u64(self.name.as_str(), parameter, value)?;
            match StagingAuthority::decode(params::code_of(code)) {
                None => {
                    return Err(
                        params::invalid_parameter(
                            self.name.as_str(),
                            parameter,
                            "expected 0 (automatic), 1 (operator approval), or 2 (flag-only)",
                        ),
                    );
                },
                Some(authority) => {
                    if authority == StagingAuthority::OperatorApproval && self.approve.is_none() {
                        return Err(
                            params::invalid_parameter(
                                self.name.as_str(),
                                parameter,
                                "operator-approval staging requires a bound approve point",
                            ),
                        );
                    }
                    self.config.staging_authority = authority;
                },
            }
        } else if text::same(parameter, "stage_up") {
            self.config.stage_up = self.tune_threshold(parameter, value)?;
        } else if text::same(parameter, "stage_down") {
            self.config.stage_down = self.tune_threshold(parameter, value)?;
        } else if text::same(parameter, "min_run_ticks") {
            self.config.min_run_ticks =
            params::tune_u64(self.name.as_str(), parameter, value)?;
        } else if text::same(parameter, "min_start_interval_ticks") {
            self.config.min_start_interval_ticks =
            params::tune_u64(self.name.as_str(), parameter, value)?;
        } else if text::same(parameter, "vent_ticks") {
            let tuned: u64 = params::tune_u64(self.name.as_str(), parameter, value)?;
            if tuned < 1 {
                return Err(
                    params::invalid_parameter(self.name.as_str(), parameter, "must be at least 1"),
                );
            }
            self.clamp_legs(tuned);
            self.config.vent_ticks = tuned;
        } else if text::same(parameter, "rotation") {
            let code: u64 = params::tune_u64(self.name.as_str(), parameter, value)?;
            match BlowerRotation::decode(params::code_of(code)) {
                None => {
                    return Err(
                        params::invalid_parameter(
                            self.name.as_str(),
                            parameter,
                            "expected 0 (none), 1 (equalize runtime), or 2 (fixed order)",
                        ),
                    );
                },
                Some(rotation) => {
                    self.config.rotation = rotation;
                },
            }
        } else {
            match parse_bound(parameter, self.units.len()) {
                None => {
                    return Err(params::unknown_parameter(self.name.as_str(), parameter));
                },
                Some((unit, entry)) => {
                    let tuned = self.tune_threshold(parameter, value)?;
                    let bounds = self.bounds[unit].with(entry, tuned);
                    if bounds.max_flow.less_than(bounds.min_flow) || bounds.max_current.less_than(
                        bounds.min_flow,
                    ) {
                        return Err(
                            params::invalid_parameter(
                                self.name.as_str(),
                                parameter,
                                "the declared bounds must keep min_flow <= max_flow and min_flow <= max_current",
                            ),
                        );
                    }
                    self.bounds.set(unit, bounds);
                },
            }
        }
        Ok(())
    }

    /// Takes a unit out of the join order.
    fn forget(&mut self, unit: usize)
        requires
            old(self)@.order.no_duplicates(),
        ensures
            final(self)@ == (GroupView { order: without(old(self)@.order, unit), ..old(self)@ }),
    {
        let mut at: usize = 0;
        while at < self.joined_order.len()
            invariant
                at <= self.joined_order.len(),
                self@ == old(self)@,
                self@.order.no_duplicates(),
                forall|p: int| 0 <= p < at ==> self@.order[p] != unit,
            decreases self.joined_order.len() - at,
        {
            if self.joined_order[at] == unit {
                assert(self@.order.contains(unit));
                assert(self@.order.index_of(unit) == at);
                self.joined_order.remove(at);
                return;
            }
            at = at + 1;
        }
        assert(!self@.order.contains(unit));
    }

    /// Drops a unit's run request behind its open vent.
    fn initiate_depart(&mut self, unit: usize)
        requires
            old(self)@.order.no_duplicates(),
            unit < old(self)@.state.len(),
        ensures
            final(self)@ == old(self)@.departing(unit as int),
    {
        let mut state = self.state[unit];
        state.phase = Phase::Departing;
        state.phase_ticks = 0;
        self.state.set(unit, state);
        self.forget(unit);
    }

    /// Takes in one scan's readings: refreshes the demand, re-arms the
    /// approval, counts run-hours and moves every unit's choreography on.
    pub fn advance(&mut self, readings: &BlowerReadings, tick: Tick)
        requires
            old(self)@.wf(),
            readings@.fits(old(self)@),
        ensures
            final(self)@ == old(self)@.advanced(readings@, tick),
            final(self)@.wf(),
    {
        let ghost before = self@;
        let ghost after = self@.state_after(readings@, tick);
        if readings.demand.is_usable() {
            self.last_demand = if Float::zero().less_than(readings.demand.value) {
                readings.demand.value
            } else {
                Float::zero()
            };
        }
        if let Some(approve) = readings.approve {
            if approve.quality.is_good() && !approve.value {
                self.approve_used = false;
            }
        }
        let mut index: usize = 0;
        while index < self.units.len()
            invariant
                before.wf(),
                readings@.fits(before),
                index <= before.count(),
                after == before.state_after(readings@, tick),
                self@ == (GroupView {
                    state: self@.state,
                    order: order_after(before.order, before.state, after, index as nat),
                    approve_used: before.approve_used && !readings@.withdrawn(),
                    last_demand: before.demand_after(readings@.demand),
                    ..before
                }),
                self@.state.len() == before.count(),
                forall|i: int| 0 <= i < index ==> self@.state[i] == after[i],
                forall|i: int| index <= i < before.count() ==> self@.state[i] == before.state[i],
                forall|i: int|
                    0 <= i < before.count() ==> (#[trigger] self@.state[i]).wf()
                        && self@.state[i].in_window(before.config.vent_ticks),
                order_lists(self@.order, self@.state),
            decreases self.units.len() - index,
        {
            let unit = self.state[index];
            let next = unit.advance(
                &readings.units[index],
                self.last_demand,
                self.config.vent_ticks,
                tick,
            );
            assert(next == after[index as int]);
            proof {
                lemma_order_step(self@.order, self@.state, index, next);
            }
            let ghost order = self@.order;
            self.state.set(index, next);
            if unit.phase == Phase::Joined {
                if next.phase != Phase::Joined {
                    self.forget(index);
                }
            } else if next.phase == Phase::Joined {
                self.joined_order.push(index);
            }
            index = index + 1;
        }
        assert(self@.state == after);
        let ghost settled = self@;
        if let Some((join, depart)) = self.rotation_pair {
            match self.state[join].phase {
                Phase::Joining => {
                    if self.state[depart].phase != Phase::Joined {
                        self.rotation_pair = None;
                    }
                },
                Phase::Joined => {
                    self.rotation_pair = None;
                    if self.state[depart].phase == Phase::Joined {
                        proof {
                            lemma_order_step(
                                self@.order,
                                self@.state,
                                depart,
                                self@.state[depart as int].entered(Phase::Departing),
                            );
                        }
                        self.initiate_depart(depart);
                    }
                },
                _ => {
                    self.rotation_pair = None;
                },
            }
        }
        assert(self@ == settled.second_leg());
        assert(self@ == before.advanced(readings@, tick));
    }

    /// The ceilings of the commanded units in declared order. Their sum is
    /// the committed capacity.
    pub fn committed_ceilings(&self) -> (r: Vec<Float>)
        requires
            self@.wf(),
        ensures
            r@ == ceilings(self@.bounds, self@.state, self@.state.len()),
    {
        let mut r: Vec<Float> = Vec::new();
        let mut index: usize = 0;
        while index < self.units.len()
            invariant
                self@.wf(),
                index <= self@.count(),
                r@ == ceilings(self@.bounds, self@.state, index as nat),
            decreases self.units.len() - index,
        {
            if self.commanded(index) {
                r.push(self.bounds[index].effective_max());
            }
            index = index + 1;
        }
        r
    }

    /// The ceiling of the unit that a departure would prefer.
    pub fn departing_ceiling(&self) -> (r: Option<Float>)
        requires
            self@.wf(),
        ensures
            r == self@.next_ceiling(),
    {
        match self.pick_departure(None) {
            Some(unit) => Some(self.bounds[unit].effective_max()),
            None => None,
        }
    }

    fn commanded(&self, index: usize) -> (r: bool)
        requires
            index < self@.state.len(),
        ensures
            r == self@.phase(index as int).commanded(),
    {
        match self.state[index].phase {
            Phase::Joining => true,
            Phase::Joined => true,
            _ => false,
        }
    }

    fn vented(&self, index: usize) -> (r: bool)
        requires
            index < self@.state.len(),
        ensures
            r == self@.phase(index as int).vented(),
    {
        match self.state[index].phase {
            Phase::Joining => true,
            Phase::Departing => true,
            _ => false,
        }
    }

    /// Whether a transition is in flight.
    fn is_in_flight(&self) -> (r: bool)
        requires
            self@.wf(),
        ensures
            r == self@.in_flight(),
    {
        if self.rotation_pair.is_some() {
            return true;
        }
        let mut index: usize = 0;
        while index < self.units.len()
            invariant
                self@.wf(),
                index <= self@.count(),
                forall|i: int| 0 <= i < index ==> !(#[trigger] self@.state[i]).phase.vented(),
            decreases self.units.len() - index,
        {
            if self.vented(index) {
                return true;
            }
            index = index + 1;
        }
        false
    }

    fn can_join(&self, readings: &BlowerReadings, tick: Tick, index: usize) -> (r: bool)
        requires
            self@.wf(),
            readings@.fits(self@),
            index < self@.count(),
        ensures
            r == self@.joinable(readings@, tick, index as int),
    {
        let unit = self.state[index];
        unit.phase == Phase::Offline && readings.units[index].is_available() && (unit.stopped_at
            == 0 || (tick.0 >= unit.stopped_at && tick.0 - unit.stopped_at
            >= self.config.min_start_interval_ticks))
    }

    fn can_depart(&self, tick: Tick, index: usize) -> (r: bool)
        requires
            index < self@.state.len(),
        ensures
            r == self@.departable(tick, index as int),
    {
        let unit = self.state[index];
        unit.phase == Phase::Joined && tick.0 >= unit.started_at && tick.0 - unit.started_at
            >= self.config.min_run_ticks
    }

    /// The unit a join picks.
    fn pick_join(&self, readings: &BlowerReadings, tick: Tick) -> (r: Option<usize>)
        requires
            self@.wf(),
            readings@.fits(self@),
        ensures
            r == self@.join_pick(readings@, tick),
    {
        let mut best: Option<usize> = None;
        let mut index: usize = 0;
        while index < self.units.len()
            invariant
                self@.wf(),
                readings@.fits(self@),
                index <= self@.count(),
                match best {
                    Some(i) => i < index && self@.joinable(readings@, tick, i as int) && (forall|
                        j: int,
                    |
                        0 <= j < index && j != i && #[trigger] self@.joinable(readings@, tick, j)
                            ==> self@.joins_before(i as int, j)),
                    None => forall|j: int|
                        0 <= j < index ==> !#[trigger] self@.joinable(readings@, tick, j),
                },
            decreases self.units.len() - index,
        {
            if self.can_join(readings, tick, index) {
                let better = match best {
                    Some(i) => self.config.rotation == BlowerRotation::EqualizeRuntime
                        && self.state[index].run_hours < self.state[i].run_hours,
                    None => true,
                };
                if better {
                    best = Some(index);
                }
            }
            index = index + 1;
        }
        proof {
            if let Some(i) = best {
                assert(self@.is_join_pick(readings@, tick, i));
                let chosen = choose|i: usize| self@.is_join_pick(readings@, tick, i);
                assert(self@.is_join_pick(readings@, tick, chosen));
                if chosen != i {
                    assert(self@.joins_before(i as int, chosen as int));
                    assert(self@.joins_before(chosen as int, i as int));
                }
            } else {
                assert forall|i: usize| !#[trigger] self@.is_join_pick(readings@, tick, i) by {
                    assert(!self@.joinable(readings@, tick, i as int) || i >= self@.count());
                }
            }
        }
        best
    }

    /// The joined unit that departs first.
    fn pick_departure(&self, at: Option<Tick>) -> (r: Option<usize>)
        requires
            self@.wf(),
        ensures
            r == self@.depart_pick(at),
            r matches Some(unit) ==> unit < self@.count() && self@.phase(unit as int)
                == Phase::Joined,
    {
        let mut best: Option<usize> = None;
        let mut position: usize = 0;
        while position < self.joined_order.len()
            invariant
                self@.wf(),
                position <= self@.order.len(),
                match best {
                    Some(p) => p < position && self@.depart_candidate(at, p as int) && (forall|
                        q: int,
                    |
                        0 <= q < position && q != p && #[trigger] self@.depart_candidate(at, q)
                            ==> self@.departs_before(p as int, q)),
                    None => forall|q: int|
                        0 <= q < position ==> !#[trigger] self@.depart_candidate(at, q),
                },
            decreases self.joined_order.len() - position,
        {
            let unit: usize = self.joined_order[position];
            assert(self@.order[position as int] < self@.state.len());
            let candidate = match at {
                None => true,
                Some(tick) => self.can_depart(tick, unit),
            };
            assert(candidate == self@.depart_candidate(at, position as int));
            if candidate {
                let better = match best {
                    Some(p) => {
                        let other: usize = self.joined_order[p];
                        assert(self@.order[p as int] < self@.state.len());
                        match self.config.rotation {
                            BlowerRotation::NoRotation => true,
                            BlowerRotation::FixedOrder => unit > other,
                            BlowerRotation::EqualizeRuntime => if self.state[unit].run_hours
                                != self.state[other].run_hours {
                                self.state[unit].run_hours > self.state[other].run_hours
                            } else {
                                unit < other
                            },
                        }
                    },
                    None => true,
                };
                if better {
                    proof {
                        if let Some(p) = best {
                            assert forall|q: int|
                                0 <= q < position && #[trigger] self@.depart_candidate(
                                    at,
                                    q,
                                ) implies self@.departs_before(position as int, q) by {
                                if q != p {
                                    assert(self@.departs_before(p as int, q));
                                }
                            }
                        }
                    }
                    best = Some(position);
                } else {
                    proof {
                        let p = best->0 as int;
                        assert(self@.order[p] != self@.order[position as int]);
                        assert(self@.departs_before(p, position as int));
                    }
                }
            }
            position = position + 1;
        }
        match best {
            Some(p) => {
                proof {
                    assert(self@.is_depart_pick(at, p as int));
                    let chosen = choose|q: int| self@.is_depart_pick(at, q);
                    assert(self@.is_depart_pick(at, chosen));
                    if chosen != p {
                        assert(self@.departs_before(p as int, chosen));
                        assert(self@.departs_before(chosen, p as int));
                        assert(self@.order[p as int] != self@.order[chosen]);
                    }
                    assert(self@.order.contains(self@.order[p as int]));
                }
                Some(self.joined_order[p])
            },
            None => {
                assert forall|q: int| !#[trigger] self@.is_depart_pick(at, q) by {
                    assert(0 <= q < self@.order.len() ==> !self@.depart_candidate(at, q));
                }
                None
            },
        }
    }

    /// Whether a unit is offline.
    fn any_offline(&self) -> (r: bool)
        requires
            self@.wf(),
        ensures
            r == exists|i: int|
                0 <= i < self@.count() && (#[trigger] self@.state[i]).phase == Phase::Offline,
    {
        let mut index: usize = 0;
        while index < self.units.len()
            invariant
                self@.wf(),
                index <= self@.count(),
                forall|i: int| 0 <= i < index ==> (#[trigger] self@.state[i]).phase
                    != Phase::Offline,
            decreases self.units.len() - index,
        {
            if self.state[index].phase == Phase::Offline {
                return true;
            }
            index = index + 1;
        }
        false
    }

    /// How much longer than a standby a unit must have run.
    fn margin(&self) -> (r: u64)
        ensures
            r == self@.rotation_margin(),
    {
        if self.config.min_run_ticks > 1 {
            self.config.min_run_ticks
        } else {
            1
        }
    }

    /// Whether `unit` lags `other` by the rotation margin.
    fn is_lagging(&self, unit: usize, other: usize) -> (r: bool)
        requires
            unit < self@.state.len(),
            other < self@.state.len(),
        ensures
            r == self@.lags(unit as int, other as int),
    {
        let least: u64 = self.state[unit].run_hours;
        let most: u64 = self.state[other].run_hours;
        most >= least && most - least >= self.margin()
    }

    /// Whether some available standby lags some unit that may depart.
    fn has_spread(&self, readings: &BlowerReadings, tick: Tick) -> (r: bool)
        requires
            self@.wf(),
            readings@.fits(self@),
        ensures
            r == self@.runtime_spread(readings@, tick),
    {
        let mut index: usize = 0;
        while index < self.units.len()
            invariant
                self@.wf(),
                readings@.fits(self@),
                index <= self@.count(),
                forall|i: int, p: int|
                    #![trigger self@.state[i], self@.order[p]]
                    0 <= i < index && 0 <= p < self@.order.len() && self@.state[i].phase
                        == Phase::Offline && readings@.units[i].available() && self@.departable(
                        tick,
                        self@.order[p] as int,
                    ) ==> !self@.lags(i, self@.order[p] as int),
            decreases self.units.len() - index,
        {
            if self.state[index].phase == Phase::Offline && readings.units[index].is_available() {
                let mut position: usize = 0;
                while position < self.joined_order.len()
                    invariant
                        self@.wf(),
                        readings@.fits(self@),
                        index < self@.count(),
                        position <= self@.order.len(),
                        self@.state[index as int].phase == Phase::Offline,
                        readings@.units[index as int].available(),
                        forall|p: int|
                            0 <= p < position && self@.departable(
                                tick,
                                #[trigger] self@.order[p] as int,
                            ) ==> !self@.lags(index as int, self@.order[p] as int),
                    decreases self.joined_order.len() - position,
                {
                    assert(self@.order[position as int] < self@.state.len());
                    let unit: usize = self.joined_order[position];
                    if self.can_depart(tick, unit) && self.is_lagging(index, unit) {
                        assert(self@.state[index as int].phase == Phase::Offline);
                        return true;
                    }
                    position = position + 1;
                }
            }
            index = index + 1;
        }
        false
    }

    /// Opens a unit's vent and asserts its run request.
    fn initiate_join(&mut self, unit: usize, tick: Tick)
        requires
            unit < old(self)@.state.len(),
        ensures
            final(self)@ == old(self)@.joining(unit as int, tick),
    {
        let mut state = self.state[unit];
        state.phase = Phase::Joining;
        state.phase_ticks = 0;
        state.started_at = tick.0;
        self.state.set(unit, state);
    }

    /// Decides the stage change of a scan and begins it where the authority
    /// lets it and no other change is in flight.
    ///
    /// `up_limit` is `stage_up` times the committed capacity, `down_limit`
    /// is `stage_down` times the committed capacity less the departing
    /// ceiling. Says whether a warranted change is left to the operator.
    pub fn stage(
        &mut self,
        readings: &BlowerReadings,
        up_limit: Float,
        down_limit: Float,
        tick: Tick,
    ) -> (pending: bool)
        requires
            old(self)@.wf(),
            readings@.fits(old(self)@),
        ensures
            final(self)@ == old(self)@.staged(readings@, up_limit, down_limit, tick),
            final(self)@.wf(),
            pending == old(self)@.pending(readings@, up_limit, down_limit, tick),
    {
        let zero = Float::zero();
        let up = up_limit.less_than(self.last_demand) && self.any_offline();
        let down = self.joined_order.len() > 0 && (self.last_demand.at_most(zero)
            || self.last_demand.less_than(down_limit));
        let rotate = self.config.rotation == BlowerRotation::EqualizeRuntime && !up && !down
            && self.has_spread(readings, tick);
        let request = if up {
            match self.pick_join(readings, tick) {
                Some(unit) => Some(Request::StageUp(unit)),
                None => None,
            }
        } else if down {
            match self.pick_departure(Some(tick)) {
                Some(unit) => Some(Request::StageDown(unit)),
                None => None,
            }
        } else if rotate {
            match (self.pick_join(readings, tick), self.pick_departure(Some(tick))) {
                (Some(join), Some(depart)) => {
                    proof {
                        lemma_join_pick(self@, readings@, tick);
                    }
                    if self.is_lagging(join, depart) {
                        Some(Request::Rotate(join, depart))
                    } else {
                        None
                    }
                },
                _ => None,
            }
        } else {
            None
        };
        assert(request == self@.request(readings@, up_limit, down_limit, tick));
        let granted = match self.config.staging_authority {
            StagingAuthority::Automatic => true,
            StagingAuthority::OperatorApproval => {
                let approved = match readings.approve {
                    Some(reading) => reading.is_trusted(),
                    None => false,
                };
                approved && !self.approve_used
            },
            StagingAuthority::FlagOnly => false,
        };
        assert(granted == self@.granted(readings@));
        let mut executed = false;
        if let Some(change) = request {
            if granted && !self.is_in_flight() {
                let ghost before = self@;
                match change {
                    Request::StageUp(unit) => {
                        proof {
                            lemma_join_pick(self@, readings@, tick);
                            lemma_order_step(
                                self@.order,
                                self@.state,
                                unit,
                                self@.joining(unit as int, tick).state[unit as int],
                            );
                        }
                        self.initiate_join(unit, tick);
                    },
                    Request::StageDown(unit) => {
                        proof {
                            lemma_order_step(
                                self@.order,
                                self@.state,
                                unit,
                                self@.state[unit as int].entered(Phase::Departing),
                            );
                        }
                        self.initiate_depart(unit);
                    },
                    Request::Rotate(join, depart) => {
                        proof {
                            lemma_join_pick(self@, readings@, tick);
                            lemma_order_step(
                                self@.order,
                                self@.state,
                                join,
                                self@.joining(join as int, tick).state[join as int],
                            );
                        }
                        self.initiate_join(join, tick);
                        self.rotation_pair = Some((join, depart));
                    },
                }
                if self.config.staging_authority == StagingAuthority::OperatorApproval {
                    self.approve_used = true;
                }
                executed = true;
            }
        }
        (up || down || rotate) && !executed && self.config.staging_authority
            != StagingAuthority::Automatic
    }

    /// How many units are on the header.
    pub fn joined_count(&self) -> (r: usize)
        ensures
            r == self@.order.len(),
    {
        self.joined_order.len()
    }

    /// The demand that the group acts on.
    pub fn demand(&self) -> (r: Float)
        ensures
            r == self@.last_demand,
    {
        self.last_demand
    }

    /// Whether no unit is available, and whether every unit reads failed.
    fn conditions(&self, readings: &BlowerReadings) -> (r: (bool, bool))
        requires
            self@.wf(),
            readings@.fits(self@),
        ensures
            r.0 == self@.none_available(readings@),
            r.1 == self@.all_faulted(readings@),
    {
        let mut none_available = true;
        let mut all_faulted = true;
        let mut index: usize = 0;
        while index < self.units.len()
            invariant
                self@.wf(),
                readings@.fits(self@),
                index <= self@.count(),
                none_available == forall|i: int|
                    0 <= i < index ==> !(#[trigger] readings@.units[i]).available(),
                all_faulted == forall|i: int|
                    0 <= i < index ==> (#[trigger] readings@.units[i]).faulted(),
            decreases self.units.len() - index,
        {
            let unit = &readings.units[index];
            assert(*unit == readings@.units[index as int]);
            none_available = none_available && !unit.is_available();
            all_faulted = all_faulted && unit.is_faulted();
            index = index + 1;
        }
        (none_available, all_faulted)
    }

    /// What the group drives after the stage decision. `share` is the
    /// demand divided by the number of joined units, or zero where none is
    /// joined.
    pub fn outputs(
        &self,
        readings: &BlowerReadings,
        pending: bool,
        share: Float,
        tick: Tick,
    ) -> (r: Vec<Write>)
        requires
            self@.wf(),
            readings@.fits(self@),
        ensures
            r@ == self@.writes(readings@, pending, share, tick),
    {
        let mut r: Vec<Write> = Vec::new();
        let mut staged: usize = 0;
        let mut index: usize = 0;
        while index < self.units.len()
            invariant
                self@.wf(),
                index <= self@.count(),
                r@ == self@.unit_writes(share, tick, index as nat),
                staged == commanded_count(self@.state, index as nat),
                staged <= index,
            decreases self.units.len() - index,
        {
            let unit = self.units[index];
            let bounds = self.bounds[index];
            assert(self@.bounds[index as int].valid());
            let commanded = self.commanded(index);
            let capacity = match self.state[index].phase {
                Phase::Joined => share.clamp(bounds.min_flow, bounds.effective_max()),
                Phase::Joining => bounds.min_flow,
                _ => Float::zero(),
            };
            r.push(Write::new(unit.cmd, Value::Bool(commanded), Quality::Good, tick));
            r.push(Write::new(unit.capacity, Value::Float(capacity), Quality::Good, tick));
            r.push(Write::new(unit.vent, Value::Bool(self.vented(index)), Quality::Good, tick));
            if commanded {
                staged = staged + 1;
            }
            index = index + 1;
        }
        let (none_available, all_faulted) = self.conditions(readings);
        let outputs = self.outputs;
        r.push(Write::new(outputs.staged, Value::Int(staged as i64), Quality::Good, tick));
        r.push(
            Write::new(outputs.none_available, Value::Bool(none_available), Quality::Good, tick),
        );
        r.push(Write::new(outputs.all_faulted, Value::Bool(all_faulted), Quality::Good, tick));
        r.push(Write::new(outputs.staging_pending, Value::Bool(pending), Quality::Good, tick));
        r.push(
            Write::new(outputs.transition, Value::Bool(self.is_in_flight()), Quality::Good, tick),
        );
        r
    }

    /// The block's name.
    pub fn name(&self) -> (r: &str)
        ensures
            r@ == self@.name,
    {
        self.name.as_str()
    }

    /// The declared ports.
    pub fn io_requirements(&self) -> (r: Vec<IoRequirement>)
        ensures
            requirement_views(r@) == self@.requirements(),
    {
        let mut r: Vec<IoRequirement> = Vec::new();
        r.push(describe::input("demand", ValueKind::Float, self.demand));
        if let Some(approve) = self.approve {
            r.push(describe::input("approve", ValueKind::Bool, approve));
        }
        let ghost leading = self@.leading_ports();
        assert(requirement_views(r@) == leading);
        let mut index: usize = 0;
        while index < self.units.len()
            invariant
                index <= self.units.len(),
                leading == self@.leading_ports(),
                requirement_views(r@) == self@.unit_ports(leading, index as nat),
            decreases self.units.len() - index,
        {
            let unit = self.units[index];
            let n: u64 = index as u64 + 1;
            let ghost before = r@;
            r.push(describe::output(text::numbered("cmd_", n).as_str(), ValueKind::Bool, unit.cmd));
            r.push(describe::input(text::numbered("run_", n).as_str(), ValueKind::Bool, unit.run));
            r.push(
                describe::input(text::numbered("fault_", n).as_str(), ValueKind::Bool, unit.fault),
            );
            r.push(
                describe::input(text::numbered("avail_", n).as_str(), ValueKind::Bool, unit.avail),
            );
            r.push(
                describe::output(
                    text::numbered("capacity_", n).as_str(),
                    ValueKind::Float,
                    unit.capacity,
                ),
            );
            r.push(
                describe::output(text::numbered("vent_", n).as_str(), ValueKind::Bool, unit.vent),
            );
            index = index + 1;
            assert(requirement_views(r@) == self@.unit_ports(leading, index as nat));
        }
        let outputs = self.outputs;
        r.push(describe::output("staged", ValueKind::Int, outputs.staged));
        r.push(describe::output("none_available", ValueKind::Bool, outputs.none_available));
        r.push(describe::output("all_faulted", ValueKind::Bool, outputs.all_faulted));
        r.push(describe::output("staging_pending", ValueKind::Bool, outputs.staging_pending));
        r.push(describe::output("transition", ValueKind::Bool, outputs.transition));
        assert(requirement_views(r@) == self@.requirements());
        r
    }

    fn role_hints(&self) -> (r: Vec<RoleHint>)
        ensures
            role_views(r@) == self@.roles(),
    {
        let mut r: Vec<RoleHint> = Vec::new();
        r.push(describe::hint("demand", PortRole::Setpoint));
        if self.approve.is_some() {
            r.push(describe::hint("approve", PortRole::Setpoint));
        }
        let ghost leading = self@.leading_roles();
        assert(role_views(r@) == leading);
        let mut index: usize = 0;
        while index < self.units.len()
            invariant
                index <= self.units.len(),
                leading == self@.leading_roles(),
                role_views(r@) == unit_roles(leading, index as nat),
            decreases self.units.len() - index,
        {
            let n: u64 = index as u64 + 1;
            r.push(describe::hint(text::numbered("cmd_", n).as_str(), PortRole::Output));
            r.push(describe::hint(text::numbered("run_", n).as_str(), PortRole::ProcessValue));
            r.push(describe::hint(text::numbered("fault_", n).as_str(), PortRole::ProcessValue));
            r.push(describe::hint(text::numbered("avail_", n).as_str(), PortRole::ProcessValue));
            r.push(describe::hint(text::numbered("capacity_", n).as_str(), PortRole::Output));
            r.push(describe::hint(text::numbered("vent_", n).as_str(), PortRole::Output));
            index = index + 1;
            assert(role_views(r@) == unit_roles(leading, index as nat));
        }
        r.push(describe::hint("staged", PortRole::Status));
        r.push(describe::hint("none_available", PortRole::Status));
        r.push(describe::hint("all_faulted", PortRole::Status));
        r.push(describe::hint("staging_pending", PortRole::Status));
        r.push(describe::hint("transition", PortRole::Status));
        assert(role_views(r@) == self@.roles());
        r
    }

    fn parameter_list(&self) -> (r: Vec<ParameterDescriptor>)
        ensures
            parameter_views(r@) == self@.parameters(),
    {
        let codes = Some(describe::int_range(0, 2));
        let fraction = Some(describe::nonnegative_f64());
        let ticks = Some(describe::nonnegative_int());
        let mut r: Vec<ParameterDescriptor> = Vec::new();
        r.push(describe::parameter("staging_authority", ValueKind::Int, codes));
        r.push(describe::parameter("stage_up", ValueKind::Float, fraction));
        r.push(describe::parameter("stage_down", ValueKind::Float, fraction));
        r.push(describe::parameter("min_run_ticks", ValueKind::Int, ticks));
        r.push(describe::parameter("min_start_interval_ticks", ValueKind::Int, ticks));
        let ghost leading = self@.leading_parameters();
        assert(parameter_views(r@) == leading);
        let mut index: usize = 0;
        while index < self.units.len()
            invariant
                index <= self.units.len(),
                leading == self@.leading_parameters(),
                parameter_views(r@) == unit_parameters(leading, index as nat),
                fraction == Some(spec_nonnegative_f64()),
            decreases self.units.len() - index,
        {
            let n: u64 = index as u64 + 1;
            let min_flow = text::indexed("unit_", n, "_min_flow");
            let max_flow = text::indexed("unit_", n, "_max_flow");
            let max_current = text::indexed("unit_", n, "_max_current");
            r.push(describe::parameter(min_flow.as_str(), ValueKind::Float, fraction));
            r.push(describe::parameter(max_flow.as_str(), ValueKind::Float, fraction));
            r.push(describe::parameter(max_current.as_str(), ValueKind::Float, fraction));
            index = index + 1;
            assert(parameter_views(r@) == unit_parameters(leading, index as nat));
        }
        r.push(
            describe::parameter("vent_ticks", ValueKind::Int, Some(describe::positive_int())),
        );
        r.push(describe::parameter("rotation", ValueKind::Int, codes));
        assert(parameter_views(r@) == self@.parameters());
        r
    }

    /// Describes the group.
    pub fn describe(&self) -> (r: ComponentDescriptor)
        ensures
            r@ == self@.description(),
    {
        proof {
            lemma_roles_follow_ports(self@);
        }
        describe::component(
            self.name.as_str(),
            BlowerGroup::KIND,
            &self.io_requirements(),
            &self.role_hints(),
            self.parameter_list(),
        )
    }

    /// Reports the tuned parameters under the names that a checkpoint uses.
    pub fn report_parameters(&self) -> (r: StateMap)
        requires
            self@.wf(),
        ensures
            r@ == self@.reported(),
    {
        let config = self.config;
        let mut r = StateMap::new();
        r.insert("staging_authority", Value::Int(config.staging_authority.code()));
        r.insert("stage_up", Value::Float(config.stage_up));
        r.insert("stage_down", Value::Float(config.stage_down));
        r.insert("min_run_ticks", Value::Int(config.min_run_ticks as i64));
        r.insert(
            "min_start_interval_ticks",
            Value::Int(config.min_start_interval_ticks as i64),
        );
        let ghost leading = r@;
        let mut index: usize = 0;
        while index < self.bounds.len()
            invariant
                index <= self.bounds.len(),
                r@ == with_bounds(leading, self@.bounds, index as nat),
            decreases self.bounds.len() - index,
        {
            let bounds = self.bounds[index];
            let n: u64 = index as u64 + 1;
            let min_flow = text::indexed("unit_", n, "_min_flow");
            let max_flow = text::indexed("unit_", n, "_max_flow");
            let max_current = text::indexed("unit_", n, "_max_current");
            r.insert(min_flow.as_str(), Value::Float(bounds.min_flow));
            r.insert(max_flow.as_str(), Value::Float(bounds.max_flow));
            r.insert(max_current.as_str(), Value::Float(bounds.max_current));
            index = index + 1;
        }
        r.insert("vent_ticks", Value::Int(config.vent_ticks as i64));
        r.insert("rotation", Value::Int(config.rotation.code()));
        r
    }

    /// The rank of a unit in the join order.
    fn rank(&self, unit: usize) -> (r: usize)
        requires
            self@.order.no_duplicates(),
        ensures
            r == rank_of(self@.order, unit),
    {
        let mut at: usize = 0;
        while at < self.joined_order.len()
            invariant
                at <= self.joined_order.len(),
                self@.order.no_duplicates(),
                forall|p: int| 0 <= p < at ==> self@.order[p] != unit,
            decreases self.joined_order.len() - at,
        {
            if self.joined_order[at] == unit {
                assert(self@.order.contains(unit));
                assert(self@.order.index_of(unit) == at);
                return at + 1;
            }
            at = at + 1;
        }
        assert(!self@.order.contains(unit));
        0
    }

    /// Captures the tuning and the whole run state, so that a standby
    /// resumes mid-join or mid-rotation.
    pub fn capture_state(&self) -> (r: StateMap)
        requires
            self@.wf(),
        ensures
            r@ == self@.captured(),
    {
        let mut r = self.report_parameters();
        r.insert("last_demand", Value::Float(self.last_demand));
        r.insert("approve_used", Value::Bool(self.approve_used));
        let (join, depart): (i64, i64) = match self.rotation_pair {
            Some((join, depart)) => ((join + 1) as i64, (depart + 1) as i64),
            None => (0, 0),
        };
        r.insert("rotation_join", Value::Int(join));
        r.insert("rotation_depart", Value::Int(depart));
        let ghost leading = r@;
        let mut index: usize = 0;
        while index < self.state.len()
            invariant
                self@.wf(),
                index <= self.state.len(),
                r@ == with_units(leading, self@.state, self@.order, index as nat),
            decreases self.state.len() - index,
        {
            let unit = self.state[index];
            let n: u64 = index as u64 + 1;
            r.insert(text::numbered("phase_", n).as_str(), Value::Int(unit.phase.code()));
            r.insert(
                text::numbered("phase_ticks_", n).as_str(),
                Value::Int(unit.phase_ticks as i64),
            );
            r.insert(
                text::numbered("run_hours_", n).as_str(),
                Value::Int(unit.run_hours as i64),
            );
            r.insert(
                text::numbered("started_at_", n).as_str(),
                Value::Int(unit.started_at as i64),
            );
            r.insert(
                text::numbered("stopped_at_", n).as_str(),
                Value::Int(unit.stopped_at as i64),
            );
            r.insert(
                text::numbered("join_rank_", n).as_str(),
                Value::Int(self.rank(index) as i64),
            );
            index = index + 1;
        }
        r
    }

    fn known_names(&self) -> (r: Vec<String>)
        ensures
            text::views(r@) == unit_names(group_names(), self@.units.len()),
    {
        let mut r: Vec<String> = Vec::new();
        r.push("staging_authority".to_owned());
        r.push("stage_up".to_owned());
        r.push("stage_down".to_owned());
        r.push("min_run_ticks".to_owned());
        r.push("min_start_interval_ticks".to_owned());
        r.push("vent_ticks".to_owned());
        r.push("rotation".to_owned());
        r.push("last_demand".to_owned());
        r.push("approve_used".to_owned());
        r.push("rotation_join".to_owned());
        r.push("rotation_depart".to_owned());
        assert(text::views(r@) == group_names());
        let mut index: usize = 0;
        while index < self.units.len()
            invariant
                index <= self.units.len(),
                text::views(r@) == unit_names(group_names(), index as nat),
            decreases self.units.len() - index,
        {
            let n: u64 = index as u64 + 1;
            r.push(text::indexed("unit_", n, "_min_flow"));
            r.push(text::indexed("unit_", n, "_max_flow"));
            r.push(text::indexed("unit_", n, "_max_current"));
            r.push(text::numbered("phase_", n));
            r.push(text::numbered("phase_ticks_", n));
            r.push(text::numbered("run_hours_", n));
            r.push(text::numbered("started_at_", n));
            r.push(text::numbered("stopped_at_", n));
            r.push(text::numbered("join_rank_", n));
            index = index + 1;
            assert(text::views(r@) == unit_names(group_names(), index as nat));
        }
        r
    }

    fn amount(&self, state: &StateMap, field: &str) -> (r: Result<Float, StateError>)
        ensures
            table::agrees(r, amount_field(state@, self@.name, field@)),
    {
        let value = state.require_f64(self.name.as_str(), field)?;
        if value.is_nonnegative() {
            Ok(value)
        } else {
            Err(table::invalid_value(self.name.as_str(), field, Value::Float(value)))
        }
    }

    fn restore_bounds(&self, state: &StateMap, index: u64) -> (r: Result<UnitBounds, StateError>)
        ensures
            table::agrees(r, bounds_field(state@, self@.name, index as nat)),
            r matches Ok(bounds) ==> bounds.valid(),
    {
        let min_name = text::indexed("unit_", index, "_min_flow");
        let max_name = text::indexed("unit_", index, "_max_flow");
        let current_name = text::indexed("unit_", index, "_max_current");
        let min_flow = self.amount(state, min_name.as_str())?;
        let max_flow = self.amount(state, max_name.as_str())?;
        let max_current = self.amount(state, current_name.as_str())?;
        if max_flow.less_than(min_flow) {
            return Err(
                table::invalid_value(
                    self.name.as_str(),
                    max_name.as_str(),
                    Value::Float(max_flow),
                ),
            );
        }
        if max_current.less_than(min_flow) {
            return Err(
                table::invalid_value(
                    self.name.as_str(),
                    current_name.as_str(),
                    Value::Float(max_current),
                ),
            );
        }
        Ok(UnitBounds { min_flow, max_flow, max_current })
    }

    fn restore_config(&self, state: &StateMap) -> (r: Result<BlowerGroupConfig, StateError>)
        ensures
            table::agrees(r, restored_config(state@, self@.name)),
            r matches Ok(config) ==> config.valid(),
    {
        let name = self.name.as_str();
        let authority: i64 = state.require_i64(name, "staging_authority")?;
        let staging_authority = match StagingAuthority::decode(authority) {
            Some(staging_authority) => staging_authority,
            None => {
                return Err(
                    table::invalid_value(name, "staging_authority", Value::Int(authority)),
                );
            },
        };
        let stage_up = self.amount(state, "stage_up")?;
        let stage_down = self.amount(state, "stage_down")?;
        let min_run_ticks: u64 = state.require_count(name, "min_run_ticks")?;
        let min_start_interval_ticks: u64 = state.require_count(name, "min_start_interval_ticks")?;
        let vent_ticks: u64 = state.require_count(name, "vent_ticks")?;
        if vent_ticks < 1 {
            return Err(table::invalid_value(name, "vent_ticks", Value::Int(0)));
        }
        let code: i64 = state.require_i64(name, "rotation")?;
        let rotation = match BlowerRotation::decode(code) {
            Some(rotation) => rotation,
            None => {
                return Err(table::invalid_value(name, "rotation", Value::Int(code)));
            },
        };
        Ok(
            BlowerGroupConfig {
                staging_authority,
                stage_up,
                stage_down,
                min_run_ticks,
                min_start_interval_ticks,
                vent_ticks,
                rotation,
            },
        )
    }

    fn restore_index(&self, state: &StateMap, field: &str) -> (r: Result<i64, StateError>)
        ensures
            table::agrees(r, unit_field(state@, self@.name, field@, self@.count())),
            r matches Ok(unit) ==> 0 <= unit <= self@.count(),
    {
        let unit: i64 = state.require_i64(self.name.as_str(), field)?;
        if unit < 0 || unit as u64 > self.units.len() as u64 {
            return Err(table::invalid_value(self.name.as_str(), field, Value::Int(unit)));
        }
        Ok(unit)
    }

    fn restore_pair(&self, state: &StateMap) -> (r: Result<(i64, i64), StateError>)
        ensures
            table::agrees(r, restored_pair(state@, self@.name, self@.count())),
            r matches Ok((join, depart)) ==> 0 <= join <= self@.count() && 0 <= depart
                <= self@.count() && (join > 0 <==> depart > 0),
    {
        let join: i64 = self.restore_index(state, "rotation_join")?;
        let depart: i64 = self.restore_index(state, "rotation_depart")?;
        if join > 0 && depart == 0 {
            return Err(
                table::invalid_value(self.name.as_str(), "rotation_depart", Value::Int(join)),
            );
        }
        if join == 0 && depart > 0 {
            return Err(
                table::invalid_value(self.name.as_str(), "rotation_join", Value::Int(depart)),
            );
        }
        Ok((join, depart))
    }

    fn restore_unit(&self, state: &StateMap, vent_ticks: u64, index: u64) -> (r: Result<
        (BlowerState, i64),
        StateError,
    >)
        ensures
            table::agrees(
                r,
                state_field(state@, self@.name, vent_ticks, self@.count(), index as nat),
            ),
            r matches Ok((unit, rank)) ==> unit.wf() && unit.in_window(vent_ticks) && (rank > 0
                <==> unit.phase == Phase::Joined),
    {
        let name = self.name.as_str();
        let phase_name = text::numbered("phase_", index);
        let ticks_name = text::numbered("phase_ticks_", index);
        let started_name = text::numbered("started_at_", index);
        let rank_name = text::numbered("join_rank_", index);
        let code: i64 = state.require_i64(name, phase_name.as_str())?;
        let phase = match Phase::decode(code) {
            Some(phase) => phase,
            None => {
                return Err(table::invalid_value(name, phase_name.as_str(), Value::Int(code)));
            },
        };
        let phase_ticks: u64 = state.require_count(name, ticks_name.as_str())?;
        let spent = match phase {
            Phase::Joining => phase_ticks >= vent_ticks,
            Phase::Departing => phase_ticks >= vent_ticks,
            _ => phase_ticks != 0,
        };
        if spent {
            return Err(
                table::invalid_value(name, ticks_name.as_str(), Value::Int(phase_ticks as i64)),
            );
        }
        let run_hours: u64 = state.require_count(
            name,
            text::numbered("run_hours_", index).as_str(),
        )?;
        let started_at: u64 = state.require_count(name, started_name.as_str())?;
        if phase != Phase::Offline && started_at == 0 {
            return Err(table::invalid_value(name, started_name.as_str(), Value::Int(0)));
        }
        let stopped_at: u64 = state.require_count(
            name,
            text::numbered("stopped_at_", index).as_str(),
        )?;
        let rank: i64 = self.restore_index(state, rank_name.as_str())?;
        if (rank > 0) != (phase == Phase::Joined) {
            return Err(table::invalid_value(name, rank_name.as_str(), Value::Int(rank)));
        }
        Ok((BlowerState { phase, phase_ticks, run_hours, started_at, stopped_at }, rank))
    }

    /// Takes over a checkpoint. The whole checkpoint is read before anything
    /// changes, so a refused one leaves the group as it was.
    pub fn restore_state(&mut self, state: &StateMap) -> (r: Result<(), StateError>)
        requires
            old(self)@.wf(),
        ensures
            final(self)@.wf(),
            match r {
                Ok(_) => old(self)@.restored(state.keys(), state@) == Ok::<
                    GroupView,
                    StateErrorView,
                >(final(self)@),
                Err(error) => old(self)@.restored(state.keys(), state@) == Err::<
                    GroupView,
                    StateErrorView,
                >(error@) && final(self)@ == old(self)@,
            },
    {
        let ghost before = self@;
        state.ensure_known_fields(self.name.as_str(), &self.known_names())?;
        let config = self.restore_config(state)?;
        let mut bounds: Vec<UnitBounds> = Vec::new();
        while bounds.len() < self.units.len()
            invariant
                self@ == before,
                before.wf(),
                bounds.len() <= self.units.len(),
                restored_bounds(state@, before.name, bounds@.len()) == Ok::<
                    Seq<UnitBounds>,
                    StateErrorView,
                >(bounds@),
                forall|i: int| 0 <= i < bounds.len() ==> (#[trigger] bounds@[i]).valid(),
                known_fields(
                    state.keys(),
                    before.name,
                    unit_names(group_names(), before.units.len()),
                ) is Ok,
                restored_config(state@, before.name) is Ok,
            decreases self.units.len() - bounds.len(),
        {
            match self.restore_bounds(state, bounds.len() as u64 + 1) {
                Ok(unit) => bounds.push(unit),
                Err(error) => {
                    proof {
                        lemma_first_bounds_refusal(
                            state@,
                            before.name,
                            bounds@.len() + 1,
                            before.units.len(),
                        );
                    }
                    return Err(error);
                },
            }
        }
        let ghost read = bounds@;
        let last_demand = self.amount(state, "last_demand")?;
        let approve_used = state.require_bool(self.name.as_str(), "approve_used")?;
        let (join, depart): (i64, i64) = self.restore_pair(state)?;
        let mut units: Vec<BlowerState> = Vec::new();
        let mut sorted: Vec<(i64, usize)> = Vec::new();
        let ghost mut entries = Seq::<(BlowerState, i64)>::empty();
        while units.len() < self.units.len()
            invariant
                self@ == before,
                before.wf(),
                units.len() <= self.units.len(),
                entries.len() == units.len(),
                restored_units(
                    state@,
                    before.name,
                    config.vent_ticks,
                    before.count(),
                    units@.len(),
                ) == Ok::<Seq<(BlowerState, i64)>, StateErrorView>(entries),
                forall|i: int| 0 <= i < units.len() ==> units@[i] == (#[trigger] entries[i]).0,
                forall|i: int|
                    0 <= i < units.len() ==> (#[trigger] entries[i]).0.wf()
                        && entries[i].0.in_window(config.vent_ticks) && (entries[i].1 > 0
                        <==> entries[i].0.phase == Phase::Joined),
                sorted@ == ranked(entries, units@.len()),
                known_fields(
                    state.keys(),
                    before.name,
                    unit_names(group_names(), before.units.len()),
                ) is Ok,
                restored_config(state@, before.name) == Ok::<BlowerGroupConfig, StateErrorView>(
                    config,
                ),
                restored_bounds(state@, before.name, before.units.len()) == Ok::<
                    Seq<UnitBounds>,
                    StateErrorView,
                >(read),
                amount_field(state@, before.name, "last_demand"@) is Ok,
                bool_field(state@, before.name, "approve_used"@) is Ok,
                restored_pair(state@, before.name, before.count()) is Ok,
            decreases self.units.len() - units.len(),
        {
            let index: usize = units.len();
            match self.restore_unit(state, config.vent_ticks, index as u64 + 1) {
                Ok((unit, rank)) => {
                    let ghost more = entries.push((unit, rank));
                    proof {
                        lemma_ranked_prefix(entries, more, entries.len());
                    }
                    if rank > 0 {
                        place(&mut sorted, rank, index);
                    }
                    units.push(unit);
                    proof {
                        entries = more;
                    }
                },
                Err(error) => {
                    proof {
                        lemma_first_unit_refusal(
                            state@,
                            before.name,
                            config.vent_ticks,
                            before.count(),
                            units@.len() + 1,
                            before.units.len(),
                        );
                    }
                    return Err(error);
                },
            }
        }
        let mut order: Vec<usize> = Vec::new();
        while order.len() < sorted.len()
            invariant
                self@ == before,
                before.wf(),
                order.len() <= sorted.len(),
                sorted@ == ranked(entries, entries.len()),
                first_gap(sorted@, order@.len()) is None,
                forall|p: int| 0 <= p < order.len() ==> #[trigger] order@[p] == sorted@[p].1,
                known_fields(
                    state.keys(),
                    before.name,
                    unit_names(group_names(), before.units.len()),
                ) is Ok,
                restored_config(state@, before.name) == Ok::<BlowerGroupConfig, StateErrorView>(
                    config,
                ),
                restored_bounds(state@, before.name, before.units.len()) == Ok::<
                    Seq<UnitBounds>,
                    StateErrorView,
                >(read),
                amount_field(state@, before.name, "last_demand"@) is Ok,
                bool_field(state@, before.name, "approve_used"@) is Ok,
                restored_pair(state@, before.name, before.count()) is Ok,
                restored_units(
                    state@,
                    before.name,
                    config.vent_ticks,
                    before.count(),
                    before.units.len(),
                ) == Ok::<Seq<(BlowerState, i64)>, StateErrorView>(entries),
            decreases sorted.len() - order.len(),
        {
            let position: usize = order.len();
            let (rank, unit): (i64, usize) = sorted[position];
            if rank < 1 || rank as u64 != position as u64 + 1 {
                proof {
                    lemma_first_gap(sorted@, (position + 1) as nat, sorted@.len());
                }
                return Err(
                    table::invalid_value(self.name.as_str(), "join_rank", Value::Int(rank)),
                );
            }
            order.push(unit);
        }
        proof {
            assert(order@ == Seq::new(sorted@.len(), |p: int| sorted@[p].1));
            lemma_ranked_units(entries, entries.len());
            lemma_restored_order(entries, order@);
            assert(units@ == Seq::new(entries.len(), |i: int| entries[i].0));
        }
        if join > 0 && units[join as usize - 1].phase != Phase::Joining {
            return Err(table::invalid_value(self.name.as_str(), "rotation_join", Value::Int(join)));
        }
        if join > 0 && units[depart as usize - 1].phase != Phase::Joined {
            return Err(
                table::invalid_value(self.name.as_str(), "rotation_depart", Value::Int(depart)),
            );
        }
        if config.staging_authority == StagingAuthority::OperatorApproval
            && self.approve.is_none() {
            return Err(
                table::invalid_value(
                    self.name.as_str(),
                    "staging_authority",
                    Value::Int(config.staging_authority.code()),
                ),
            );
        }
        self.config = config;
        self.bounds = bounds;
        self.last_demand = last_demand;
        self.approve_used = approve_used;
        self.rotation_pair = if join == 0 {
            None
        } else {
            Some((join as usize - 1, depart as usize - 1))
        };
        self.state = units;
        self.joined_order = order;
        assert(self@ == before.restored(state.keys(), state@)->Ok_0);
        Ok(())
    }

    /// The tuned behaviour.
    pub fn config(&self) -> (r: BlowerGroupConfig)
        ensures
            r == self@.config,
    {
        self.config
    }
}

/// Taking a departed unit out of the join order, or putting a joined one
/// last, keeps the order listing the joined units.
pub proof fn lemma_order_step(
    order: Seq<usize>,
    state: Seq<BlowerState>,
    unit: usize,
    next: BlowerState,
)
    requires
        order_lists(order, state),
        unit < state.len(),
    ensures
        state[unit as int].phase != Phase::Joined && next.phase == Phase::Joined ==> order_lists(
            order.push(unit),
            state.update(unit as int, next),
        ),
        state[unit as int].phase == Phase::Joined && next.phase != Phase::Joined ==> order_lists(
            without(order, unit),
            state.update(unit as int, next),
        ),
        (state[unit as int].phase == Phase::Joined <==> next.phase == Phase::Joined)
            ==> order_lists(order, state.update(unit as int, next)),
{
    let after = state.update(unit as int, next);
    if state[unit as int].phase != Phase::Joined && next.phase == Phase::Joined {
        let longer = order.push(unit);
        assert(!order.contains(unit));
        assert forall|i: usize| i < after.len() implies (#[trigger] longer.contains(i)
            <==> after[i as int].phase == Phase::Joined) by {
            assert(longer[order.len() as int] == unit);
            if order.contains(i) {
                let p = order.index_of(i);
                assert(longer[p] == i);
            }
            if longer.contains(i) {
                let p = longer.index_of(i);
                if p < order.len() {
                    assert(order[p] == i);
                }
            }
        }
    }
    if state[unit as int].phase == Phase::Joined && next.phase != Phase::Joined {
        assert(order.contains(unit));
        let at = order.index_of(unit);
        let shorter = without(order, unit);
        assert forall|i: usize| i < after.len() implies (#[trigger] shorter.contains(i)
            <==> after[i as int].phase == Phase::Joined) by {
            if shorter.contains(i) {
                let p = shorter.index_of(i);
                assert(order[if p < at { p } else { p + 1 }] == i);
                assert(order.contains(i));
            }
            if i != unit && order.contains(i) {
                let p = order.index_of(i);
                assert(shorter[if p < at { p } else { p - 1 }] == i);
            }
        }
    }
    assert forall|i: usize| i < after.len() && (state[unit as int].phase == Phase::Joined
        <==> next.phase == Phase::Joined) implies (#[trigger] order.contains(i)
        <==> after[i as int].phase == Phase::Joined) by {
        assert(order.contains(i) <==> state[i as int].phase == Phase::Joined);
    }
}

/// Puts a ranked unit into its place.
fn place(sorted: &mut Vec<(i64, usize)>, rank: i64, unit: usize)
    ensures
        final(sorted)@ == insert_ranked(old(sorted)@, rank, unit),
{
    let mut at: usize = sorted.len();
    while at > 0 && sorted[at - 1].0 > rank
        invariant
            at <= sorted.len(),
            sorted@ == old(sorted)@,
            forall|p: int| at <= p < sorted.len() ==> (#[trigger] sorted@[p]).0 > rank,
        decreases at,
    {
        at = at - 1;
    }
    proof {
        lemma_insert_ranked(sorted@, rank, unit, at as int);
    }
    sorted.insert(at, (rank, unit));
}

proof fn lemma_insert_ranked(sorted: Seq<(i64, usize)>, rank: i64, unit: usize, at: int)
    requires
        0 <= at <= sorted.len(),
        at > 0 ==> sorted[at - 1].0 <= rank,
        forall|p: int| at <= p < sorted.len() ==> (#[trigger] sorted[p]).0 > rank,
    ensures
        insert_ranked(sorted, rank, unit) == sorted.insert(at, (rank, unit)),
    decreases sorted.len(),
{
    if at == sorted.len() {
        assert(sorted.insert(at, (rank, unit)) == sorted.push((rank, unit)));
    } else {
        assert(sorted.last().0 > rank);
        lemma_insert_ranked(sorted.drop_last(), rank, unit, at);
        assert(sorted.insert(at, (rank, unit)) == sorted.drop_last().insert(
            at,
            (rank, unit),
        ).push(sorted.last()));
    }
}

/// The units ranked so far do not depend on later ones.
proof fn lemma_ranked_prefix(a: Seq<(BlowerState, i64)>, b: Seq<(BlowerState, i64)>, done: nat)
    requires
        done <= a.len(),
        done <= b.len(),
        forall|i: int| 0 <= i < done ==> a[i] == b[i],
    ensures
        ranked(a, done) == ranked(b, done),
    decreases done,
{
    if done > 0 {
        lemma_ranked_prefix(a, b, (done - 1) as nat);
    }
}

/// The ranked units are the ones with a rank, each once.
pub proof fn lemma_ranked_units(units: Seq<(BlowerState, i64)>, done: nat)
    requires
        done <= units.len() <= usize::MAX,
    ensures
        forall|p: int|
            0 <= p < ranked(units, done).len() ==> {
                let entry = #[trigger] ranked(units, done)[p];
                entry.1 < done && entry.0 == units[entry.1 as int].1 && entry.0 > 0
            },
        forall|p: int, q: int|
            0 <= p < q < ranked(units, done).len() ==> (#[trigger] ranked(units, done)[p]).1 != (
            #[trigger] ranked(units, done)[q]).1,
        forall|i: int|
            0 <= i < done && (#[trigger] units[i]).1 > 0 ==> ranked(units, done).contains(
                (units[i].1, i as usize),
            ),
    decreases done,
{
    if done > 0 {
        let before = (done - 1) as nat;
        lemma_ranked_units(units, before);
        let earlier = ranked(units, before);
        let rank = units[done - 1].1;
        let unit = (done - 1) as usize;
        if rank > 0 {
            let at = lemma_insert_place(earlier, rank, unit);
            let now = ranked(units, done);
            assert(now == earlier.insert(at, (rank, unit)));
            assert(now[at] == (rank, unit));
            assert forall|i: int| 0 <= i < done && (#[trigger] units[i]).1 > 0 implies now.contains(
                (units[i].1, i as usize),
            ) by {
                if i < before {
                    let p = earlier.index_of((units[i].1, i as usize));
                    assert(now[if p < at { p } else { p + 1 }] == earlier[p]);
                }
            }
        }
    }
}

/// Where a ranked unit goes.
proof fn lemma_insert_place(sorted: Seq<(i64, usize)>, rank: i64, unit: usize) -> (at: int)
    ensures
        0 <= at <= sorted.len(),
        insert_ranked(sorted, rank, unit) == sorted.insert(at, (rank, unit)),
    decreases sorted.len(),
{
    if sorted.len() == 0 || sorted.last().0 <= rank {
        assert(sorted.insert(sorted.len() as int, (rank, unit)) == sorted.push((rank, unit)));
        sorted.len() as int
    } else {
        let at = lemma_insert_place(sorted.drop_last(), rank, unit);
        assert(sorted.insert(at, (rank, unit)) == sorted.drop_last().insert(
            at,
            (rank, unit),
        ).push(sorted.last()));
        at
    }
}

/// The order read back from the ranks lists exactly the joined units.
proof fn lemma_restored_order(units: Seq<(BlowerState, i64)>, order: Seq<usize>)
    requires
        units.len() <= usize::MAX,
        order == Seq::new(
            ranked(units, units.len()).len(),
            |p: int| ranked(units, units.len())[p].1,
        ),
        forall|i: int|
            0 <= i < units.len() ==> ((#[trigger] units[i]).1 > 0 <==> units[i].0.phase
                == Phase::Joined),
    ensures
        order_lists(order, Seq::new(units.len(), |i: int| units[i].0)),
{
    let sorted = ranked(units, units.len());
    let state = Seq::new(units.len(), |i: int| units[i].0);
    lemma_ranked_units(units, units.len());
    assert forall|p: int| 0 <= p < order.len() implies (#[trigger] order[p]) < state.len() by {
        assert(sorted[p].1 < units.len());
    }
    assert forall|p: int, q: int| 0 <= p < order.len() && 0 <= q < order.len() && p
        != q implies order[p] != order[q] by {
        if p < q {
            assert(sorted[p].1 != sorted[q].1);
        } else {
            assert(sorted[q].1 != sorted[p].1);
        }
    }
    assert forall|i: usize| i < state.len() implies (#[trigger] order.contains(i) <==> state[
    i as int].phase == Phase::Joined) by {
        if order.contains(i) {
            let p = order.index_of(i);
            assert(sorted[p].1 == i);
            assert(units[i as int].1 > 0);
        }
        if units[i as int].1 > 0 {
            let p = sorted.index_of((units[i as int].1, i));
            assert(order[p] == i);
        }
    }
}

/// A gap found stays the first one.
proof fn lemma_first_gap(sorted: Seq<(i64, usize)>, found: nat, all: nat)
    requires
        first_gap(sorted, found) is Some,
        found <= all,
    ensures
        first_gap(sorted, all) == first_gap(sorted, found),
    decreases all,
{
    if found < all {
        lemma_first_gap(sorted, found, (all - 1) as nat);
    }
}

/// A refusal found stays the first one.
proof fn lemma_first_bounds_refusal(
    fields: Map<Seq<char>, Value>,
    name: Seq<char>,
    found: nat,
    all: nat,
)
    requires
        restored_bounds(fields, name, found) is Err,
        found <= all,
    ensures
        restored_bounds(fields, name, all) == restored_bounds(fields, name, found),
    decreases all,
{
    if found < all {
        lemma_first_bounds_refusal(fields, name, found, (all - 1) as nat);
    }
}

/// A refusal found stays the first one.
proof fn lemma_first_unit_refusal(
    fields: Map<Seq<char>, Value>,
    name: Seq<char>,
    vent_ticks: u64,
    count: int,
    found: nat,
    all: nat,
)
    requires
        restored_units(fields, name, vent_ticks, count, found) is Err,
        found <= all,
    ensures
        restored_units(fields, name, vent_ticks, count, all) == restored_units(
            fields,
            name,
            vent_ticks,
            count,
            found,
        ),
    decreases all,
{
    if found < all {
        lemma_first_unit_refusal(fields, name, vent_ticks, count, found, (all - 1) as nat);
    }
}

/// The role hints follow the ports one by one.
proof fn lemma_roles_follow_ports(group: GroupView)
    ensures
        hints_declared(group.requirements(), group.roles()),
{
    lemma_unit_roles(group, group.leading_ports(), group.leading_roles(), group.units.len());
    describe::parallel_hints(group.requirements(), group.roles());
}

proof fn lemma_unit_roles(
    group: GroupView,
    ports: Seq<RequirementView>,
    roles: Seq<(Seq<char>, PortRole)>,
    done: nat,
)
    requires
        ports.len() == roles.len(),
        forall|i: int| 0 <= i < roles.len() ==> (#[trigger] roles[i]).0 == ports[i].name,
    ensures
        group.unit_ports(ports, done).len() == unit_roles(roles, done).len(),
        forall|i: int|
            0 <= i < unit_roles(roles, done).len() ==> (#[trigger] unit_roles(roles, done)[i]).0
                == group.unit_ports(ports, done)[i].name,
    decreases done,
{
    if done > 0 {
        lemma_unit_roles(group, ports, roles, (done - 1) as nat);
    }
}

/// A picked unit is joinable.
pub proof fn lemma_join_pick(group: GroupView, scan: BlowerScan, tick: Tick)
    ensures
        group.join_pick(scan, tick) matches Some(unit) ==> unit < group.count() && group.joinable(
            scan,
            tick,
            unit as int,
        ),
{
    if exists|i: usize| group.is_join_pick(scan, tick, i) {
        let chosen = choose|i: usize| group.is_join_pick(scan, tick, i);
        assert(group.is_join_pick(scan, tick, chosen));
    }
}

/// An error found while reading stays the first one.
proof fn lemma_first_read_error(
    name: Seq<char>,
    parameters: Map<Seq<char>, Value>,
    found: nat,
    all: nat,
)
    requires
        read_bounds(name, parameters, found) is Err,
        found <= all,
    ensures
        read_bounds(name, parameters, all) == read_bounds(name, parameters, found),
    decreases all,
{
    if found < all {
        lemma_first_read_error(name, parameters, found, (all - 1) as nat);
    }
}

/// An error found while checking stays the first one.
proof fn lemma_first_error(component: Seq<char>, bounds: Seq<UnitBounds>, found: nat, all: nat)
    requires
        bounds_error(component, bounds, found) is Some,
        found <= all,
    ensures
        bounds_error(component, bounds, all) == bounds_error(component, bounds, found),
    decreases all,
{
    if found < all {
        lemma_first_error(component, bounds, found, (all - 1) as nat);
    }
}

} // verus!
