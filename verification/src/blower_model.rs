//! What a blower group is: its view, its scans, its tuning and its
//! checkpoints.

use crate::blower_group::{
    BlowerGroup, BlowerGroupConfig, BlowerIo, BlowerOutputs, BlowerRotation, BlowerState,
    BoundEntry, Phase, Request, StagingAuthority, UnitBounds, UnitReadings,
};
use crate::describe::{
    spec_component, spec_input, spec_int_range, spec_nonnegative_f64, spec_nonnegative_int,
    spec_output, spec_parameter, spec_positive_int, ComponentView, ParameterView, PortRole,
    RequirementView,
};
use crate::float::Float;
use crate::params::{
    spec_invalid, spec_invalid_parameter, spec_required_f64, spec_required_u64, spec_tune_f64,
    spec_tune_u64, spec_unknown_parameter, CommandErrorView, ParameterErrorView,
};
use crate::table::{
    bool_field, count_field, float_field, int_field, known_fields, spec_invalid_value,
    StateErrorView,
};
use crate::text::{
    after_prefix, before_suffix, decimal, index_of, spec_indexed, spec_numbered,
};
use crate::value::{PointId, Quality, Reading, Tick, Value, ValueKind, Write};
use vstd::prelude::*;

verus! {

/// The parameter `unit_<index>_min_flow`.
pub open spec fn min_flow_name(index: nat) -> Seq<char> {
    spec_indexed("unit_"@, index, "_min_flow"@)
}

/// The parameter `unit_<index>_max_flow`.
pub open spec fn max_flow_name(index: nat) -> Seq<char> {
    spec_indexed("unit_"@, index, "_max_flow"@)
}

/// The parameter `unit_<index>_max_current`.
pub open spec fn max_current_name(index: nat) -> Seq<char> {
    spec_indexed("unit_"@, index, "_max_current"@)
}

/// What a [`BlowerGroup`] is: its wiring, its tuning and its run state.
#[verifier::ext_equal]
pub struct GroupView {
    pub name: Seq<char>,
    pub demand: PointId,
    pub approve: Option<PointId>,
    pub units: Seq<BlowerIo>,
    pub bounds: Seq<UnitBounds>,
    pub outputs: BlowerOutputs,
    pub config: BlowerGroupConfig,
    /// The run state of each unit.
    pub state: Seq<BlowerState>,
    /// The joined units in the order in which they joined.
    pub order: Seq<usize>,
    /// A rotation under way: the joining unit and the one to depart after
    /// it.
    pub pair: Option<(usize, usize)>,
    /// Whether the standing approval has granted its change.
    pub approve_used: bool,
    /// The last trusted demand.
    pub last_demand: Float,
}

impl GroupView {
    /// How many units the group manages.
    pub open spec fn count(self) -> int {
        self.units.len() as int
    }

    /// The phase of unit `i`.
    pub open spec fn phase(self, i: int) -> Phase {
        self.state[i].phase
    }

    /// The invariant of a group.
    pub open spec fn wf(self) -> bool {
        &&& self.units.len() > 0
        &&& self.bounds.len() == self.units.len()
        &&& self.state.len() == self.units.len()
        &&& self.units.len() <= usize::MAX
        &&& self.config.valid()
        &&& forall|i: int| 0 <= i < self.count() ==> (#[trigger] self.bounds[i]).valid()
        &&& self.config.staging_authority == StagingAuthority::OperatorApproval
            ==> self.approve is Some
        &&& self.last_demand.nonnegative()
        &&& self.order_wf()
        &&& forall|i: int|
            0 <= i < self.count() ==> (#[trigger] self.state[i]).wf()
                && self.state[i].in_window(self.config.vent_ticks)
        &&& self.pair matches Some((join, depart)) ==> {
            &&& join < self.count()
            &&& depart < self.count()
            &&& join != depart
            &&& self.phase(join as int) == Phase::Joining
            &&& self.phase(depart as int) == Phase::Joined
        }
    }

    /// The join order lists exactly the joined units, each once.
    pub open spec fn order_wf(self) -> bool {
        order_lists(self.order, self.state)
    }
}

/// Whether `order` lists exactly the joined units of `state`, each once.
pub open spec fn order_lists(order: Seq<usize>, state: Seq<BlowerState>) -> bool {
    &&& order.no_duplicates()
    &&& forall|p: int| 0 <= p < order.len() ==> (#[trigger] order[p]) < state.len()
    &&& forall|i: usize|
        i < state.len() ==> (#[trigger] order.contains(i) <==> state[i as int].phase
            == Phase::Joined)
}

/// The first unit whose bounds break, checked in order.
pub open spec fn bounds_error(
    component: Seq<char>,
    bounds: Seq<UnitBounds>,
    checked: nat,
) -> Option<ParameterErrorView>
    decreases checked,
{
    if checked == 0 {
        None
    } else {
        match bounds_error(component, bounds, (checked - 1) as nat) {
            Some(error) => Some(error),
            None => match UnitBounds::spec_checked(component, checked, bounds[checked - 1]) {
                Ok(_) => None,
                Err(error) => Some(error),
            },
        }
    }
}

/// A fresh group, or the first parameter that its parts break.
pub open spec fn spec_new(
    name: Seq<char>,
    demand: PointId,
    approve: Option<PointId>,
    units: Seq<BlowerIo>,
    bounds: Seq<UnitBounds>,
    outputs: BlowerOutputs,
    config: BlowerGroupConfig,
) -> Result<GroupView, ParameterErrorView> {
    if units.len() == 0 {
        Err(spec_invalid(name, "units"@, "must declare at least one unit"@))
    } else if bounds.len() != units.len() {
        Err(spec_invalid(name, "bounds"@, "must carry one entry per declared unit"@))
    } else {
        match BlowerGroupConfig::spec_checked(name, config) {
            Err(error) => Err(error),
            Ok(_) => match bounds_error(name, bounds, bounds.len()) {
                Some(error) => Err(error),
                None => if config.staging_authority == StagingAuthority::OperatorApproval
                    && approve is None {
                    Err(
                        spec_invalid(
                            name,
                            "approve"@,
                            "operator-approval staging requires a bound approve point"@,
                        ),
                    )
                } else {
                    Ok(
                        GroupView {
                            name,
                            demand,
                            approve,
                            units,
                            bounds,
                            outputs,
                            config,
                            state: Seq::new(units.len(), |i: int| BlowerState::fresh()),
                            order: Seq::empty(),
                            pair: None,
                            approve_used: false,
                            last_demand: Float::spec_zero(),
                        },
                    )
                },
            },
        }
    }
}

/// The bounds that the parameters declare for the first `read` units.
pub open spec fn read_bounds(
    name: Seq<char>,
    parameters: Map<Seq<char>, Value>,
    read: nat,
) -> Result<Seq<UnitBounds>, ParameterErrorView>
    decreases read,
{
    if read == 0 {
        Ok(Seq::empty())
    } else {
        match read_bounds(name, parameters, (read - 1) as nat) {
            Err(error) => Err(error),
            Ok(before) => match spec_required_f64(name, parameters, min_flow_name(read)) {
                Err(error) => Err(error),
                Ok(min_flow) => match spec_required_f64(name, parameters, max_flow_name(read)) {
                    Err(error) => Err(error),
                    Ok(max_flow) => match spec_required_f64(
                        name,
                        parameters,
                        max_current_name(read),
                    ) {
                        Err(error) => Err(error),
                        Ok(max_current) => Ok(
                            before.push(UnitBounds { min_flow, max_flow, max_current }),
                        ),
                    },
                },
            },
        }
    }
}

/// The authority that the parameters declare.
pub open spec fn read_authority(name: Seq<char>, parameters: Map<Seq<char>, Value>) -> Result<
    StagingAuthority,
    ParameterErrorView,
> {
    match spec_required_u64(name, parameters, "staging_authority"@) {
        Err(error) => Err(error),
        Ok(code) => match StagingAuthority::spec_decode(code as int) {
            Some(authority) => Ok(authority),
            None => Err(
                spec_invalid(
                    name,
                    "staging_authority"@,
                    "expected 0 (automatic), 1 (operator approval), or 2 (flag-only), found "@
                        + decimal(code as nat),
                ),
            ),
        },
    }
}

/// The rotation that the parameters declare.
pub open spec fn read_rotation(name: Seq<char>, parameters: Map<Seq<char>, Value>) -> Result<
    BlowerRotation,
    ParameterErrorView,
> {
    match spec_required_u64(name, parameters, "rotation"@) {
        Err(error) => Err(error),
        Ok(code) => match BlowerRotation::spec_decode(code as int) {
            Some(rotation) => Ok(rotation),
            None => Err(
                spec_invalid(
                    name,
                    "rotation"@,
                    "expected 0 (none), 1 (equalize runtime), or 2 (fixed order), found "@
                        + decimal(code as nat),
                ),
            ),
        },
    }
}

/// The tuning that the parameters declare, read key by key, or the first
/// key that fails.
pub open spec fn read_tuning(
    name: Seq<char>,
    units: nat,
    parameters: Map<Seq<char>, Value>,
) -> Result<(BlowerGroupConfig, Seq<UnitBounds>), ParameterErrorView> {
    match read_authority(name, parameters) {
        Err(error) => Err(error),
        Ok(staging_authority) => match spec_required_f64(name, parameters, "stage_up"@) {
            Err(error) => Err(error),
            Ok(stage_up) => match spec_required_f64(name, parameters, "stage_down"@) {
                Err(error) => Err(error),
                Ok(stage_down) => match spec_required_u64(name, parameters, "min_run_ticks"@) {
                    Err(error) => Err(error),
                    Ok(min_run_ticks) => match spec_required_u64(
                        name,
                        parameters,
                        "min_start_interval_ticks"@,
                    ) {
                        Err(error) => Err(error),
                        Ok(min_start_interval_ticks) => match read_bounds(
                            name,
                            parameters,
                            units,
                        ) {
                            Err(error) => Err(error),
                            Ok(bounds) => match spec_required_u64(name, parameters, "vent_ticks"@) {
                                Err(error) => Err(error),
                                Ok(vent_ticks) => match read_rotation(name, parameters) {
                                    Err(error) => Err(error),
                                    Ok(rotation) => Ok(
                                        (
                                            BlowerGroupConfig {
                                                staging_authority,
                                                stage_up,
                                                stage_down,
                                                min_run_ticks,
                                                min_start_interval_ticks,
                                                vent_ticks,
                                                rotation,
                                            },
                                            bounds,
                                        ),
                                    ),
                                },
                            },
                        },
                    },
                },
            },
        },
    }
}

/// The group that the parameters declare.
pub open spec fn spec_from_parameters(
    name: Seq<char>,
    demand: PointId,
    approve: Option<PointId>,
    units: Seq<BlowerIo>,
    outputs: BlowerOutputs,
    parameters: Map<Seq<char>, Value>,
) -> Result<GroupView, ParameterErrorView> {
    match read_tuning(name, units.len(), parameters) {
        Err(error) => Err(error),
        Ok((config, bounds)) => spec_new(name, demand, approve, units, bounds, outputs, config),
    }
}

/// What stands between `unit_` and the name of a bound, and which bound it
/// is.
pub open spec fn bound_entry(parameter: Seq<char>) -> Option<(Seq<char>, BoundEntry)> {
    match after_prefix(parameter, "unit_"@) {
        None => None,
        Some(rest) => match before_suffix(rest, "_min_flow"@) {
            Some(index) => Some((index, BoundEntry::MinFlow)),
            None => match before_suffix(rest, "_max_flow"@) {
                Some(index) => Some((index, BoundEntry::MaxFlow)),
                None => match before_suffix(rest, "_max_current"@) {
                    Some(index) => Some((index, BoundEntry::MaxCurrent)),
                    None => None,
                },
            },
        },
    }
}

/// The unit, counted from zero, and the bound that `parameter` names in a
/// group of `units`.
pub open spec fn bound_named(parameter: Seq<char>, units: int) -> Option<(int, BoundEntry)> {
    match bound_entry(parameter) {
        None => None,
        Some((index, entry)) => match index_of(index) {
            Some(unit) => if 1 <= unit <= units {
                Some((unit - 1, entry))
            } else {
                None
            },
            None => None,
        },
    }
}

impl GroupView {
    /// The group with another configuration.
    pub open spec fn with_config(self, config: BlowerGroupConfig) -> GroupView {
        GroupView { config, ..self }
    }

    /// A retuned threshold.
    pub open spec fn tuned_threshold(self, parameter: Seq<char>, value: Value) -> Result<
        Float,
        CommandErrorView,
    > {
        match spec_tune_f64(self.name, parameter, value) {
            Err(error) => Err(error),
            Ok(tuned) => if tuned.nonnegative() {
                Ok(tuned)
            } else {
                Err(
                    spec_invalid_parameter(
                        self.name,
                        parameter,
                        "must be a non-negative finite value"@,
                    ),
                )
            },
        }
    }

    /// The group after a retune, or its refusal.
    ///
    /// Shortening the window clamps the count of a leg that it leaves behind,
    /// so that the leg is spent at its next unproven scan.
    pub open spec fn tuned(self, parameter: Seq<char>, value: Value) -> Result<
        GroupView,
        CommandErrorView,
    > {
        let config = self.config;
        if parameter == "staging_authority"@ {
            match spec_tune_u64(self.name, parameter, value) {
                Err(error) => Err(error),
                Ok(code) => match StagingAuthority::spec_decode(code as int) {
                    None => Err(
                        spec_invalid_parameter(
                            self.name,
                            parameter,
                            "expected 0 (automatic), 1 (operator approval), or 2 (flag-only)"@,
                        ),
                    ),
                    Some(staging_authority) => if staging_authority
                        == StagingAuthority::OperatorApproval && self.approve is None {
                        Err(
                            spec_invalid_parameter(
                                self.name,
                                parameter,
                                "operator-approval staging requires a bound approve point"@,
                            ),
                        )
                    } else {
                        Ok(self.with_config(BlowerGroupConfig { staging_authority, ..config }))
                    },
                },
            }
        } else if parameter == "stage_up"@ {
            match self.tuned_threshold(parameter, value) {
                Err(error) => Err(error),
                Ok(stage_up) => Ok(self.with_config(BlowerGroupConfig { stage_up, ..config })),
            }
        } else if parameter == "stage_down"@ {
            match self.tuned_threshold(parameter, value) {
                Err(error) => Err(error),
                Ok(stage_down) => Ok(self.with_config(BlowerGroupConfig { stage_down, ..config })),
            }
        } else if parameter == "min_run_ticks"@ {
            match spec_tune_u64(self.name, parameter, value) {
                Err(error) => Err(error),
                Ok(min_run_ticks) => Ok(
                    self.with_config(BlowerGroupConfig { min_run_ticks, ..config }),
                ),
            }
        } else if parameter == "min_start_interval_ticks"@ {
            match spec_tune_u64(self.name, parameter, value) {
                Err(error) => Err(error),
                Ok(min_start_interval_ticks) => Ok(
                    self.with_config(BlowerGroupConfig { min_start_interval_ticks, ..config }),
                ),
            }
        } else if parameter == "vent_ticks"@ {
            match spec_tune_u64(self.name, parameter, value) {
                Err(error) => Err(error),
                Ok(vent_ticks) => if vent_ticks < 1 {
                    Err(spec_invalid_parameter(self.name, parameter, "must be at least 1"@))
                } else {
                    Ok(
                        GroupView {
                            state: Seq::new(
                                self.state.len(),
                                |i: int| self.state[i].spec_clamped(vent_ticks),
                            ),
                            ..self.with_config(BlowerGroupConfig { vent_ticks, ..config })
                        },
                    )
                },
            }
        } else if parameter == "rotation"@ {
            match spec_tune_u64(self.name, parameter, value) {
                Err(error) => Err(error),
                Ok(code) => match BlowerRotation::spec_decode(code as int) {
                    None => Err(
                        spec_invalid_parameter(
                            self.name,
                            parameter,
                            "expected 0 (none), 1 (equalize runtime), or 2 (fixed order)"@,
                        ),
                    ),
                    Some(rotation) => Ok(
                        self.with_config(BlowerGroupConfig { rotation, ..config }),
                    ),
                },
            }
        } else {
            match bound_named(parameter, self.count()) {
                None => Err(spec_unknown_parameter(self.name, parameter)),
                Some((unit, entry)) => match self.tuned_threshold(parameter, value) {
                    Err(error) => Err(error),
                    Ok(tuned) => {
                        let bounds = self.bounds[unit].spec_with(entry, tuned);
                        if bounds.ordered() {
                            Ok(GroupView { bounds: self.bounds.update(unit, bounds), ..self })
                        } else {
                            Err(
                                spec_invalid_parameter(
                                    self.name,
                                    parameter,
                                    "the declared bounds must keep min_flow <= max_flow and min_flow <= max_current"@,
                                ),
                            )
                        }
                    },
                },
            }
        }
    }
}

/// What a [`BlowerReadings`] holds.
pub struct BlowerScan {
    pub demand: Reading<Float>,
    pub approve: Option<Reading<bool>>,
    pub units: Seq<UnitReadings>,
}

impl BlowerScan {
    /// Whether the scan reads the points that the group is wired to.
    pub open spec fn fits(self, group: GroupView) -> bool {
        self.units.len() == group.count() && (self.approve is Some <==> group.approve is Some)
    }

    /// The operator's release stands, trusted.
    pub open spec fn approved(self) -> bool {
        self.approve matches Some(reading) && reading.trusted()
    }

    /// The operator's release is withdrawn, trusted.
    pub open spec fn withdrawn(self) -> bool {
        self.approve matches Some(reading) && reading.quality == Quality::Good && !reading.value
    }
}

impl BlowerState {
    /// Whether a leg in progress is inside the window.
    pub open spec fn in_window(self, vent_ticks: u64) -> bool {
        self.phase.vented() ==> self.phase_ticks < vent_ticks
    }

    /// The unit with the count of a leg in progress kept inside the window.
    pub open spec fn spec_clamped(self, vent_ticks: u64) -> BlowerState {
        if self.phase.vented() && self.phase_ticks >= vent_ticks {
            BlowerState { phase_ticks: (vent_ticks - 1) as u64, ..self }
        } else {
            self
        }
    }

    /// One more scan of proven running, where the feedback proves it.
    pub open spec fn counted(self, readings: UnitReadings) -> BlowerState {
        if readings.running() && self.run_hours < u64::MAX {
            BlowerState { run_hours: (self.run_hours + 1) as u64, ..self }
        } else {
            self
        }
    }

    /// The unit uncommanded since `tick`.
    pub open spec fn offline(self, tick: Tick) -> BlowerState {
        BlowerState { phase: Phase::Offline, phase_ticks: 0, stopped_at: tick.0, ..self }
    }

    /// The unit on a fresh leg or in a settled phase.
    pub open spec fn entered(self, phase: Phase) -> BlowerState {
        BlowerState { phase, phase_ticks: 0, ..self }
    }

    /// One more unproven scan of the current leg, which ends offline when
    /// the window is spent.
    pub open spec fn waited(self, vent_ticks: u64, tick: Tick) -> BlowerState {
        if self.phase_ticks + 1 >= vent_ticks {
            self.offline(tick)
        } else {
            BlowerState { phase_ticks: (self.phase_ticks + 1) as u64, ..self }
        }
    }

    /// The unit after one scan of the choreography.
    ///
    /// A joining unit joins on a proven run; it aborts on a fault, a lost
    /// availability or a vanished demand, and at the window's end. A joined
    /// unit departs on a fault or a lost availability. A departing unit
    /// settles on a proven stop or at the window's end.
    pub open spec fn advanced(
        self,
        readings: UnitReadings,
        demand: Float,
        vent_ticks: u64,
        tick: Tick,
    ) -> BlowerState {
        let unit = self.counted(readings);
        match self.phase {
            Phase::Offline => unit,
            Phase::Joining => if readings.faulted() || !readings.available() || demand.le(
                Float::spec_zero(),
            ) {
                unit.offline(tick)
            } else if readings.running() {
                unit.entered(Phase::Joined)
            } else {
                unit.waited(vent_ticks, tick)
            },
            Phase::Joined => if readings.faulted() || !readings.available() {
                unit.entered(Phase::Departing)
            } else {
                unit
            },
            Phase::Departing => if readings.stopped() {
                unit.offline(tick)
            } else {
                unit.waited(vent_ticks, tick)
            },
        }
    }
}

/// The order with `unit` taken out.
pub open spec fn without(order: Seq<usize>, unit: usize) -> Seq<usize> {
    if order.contains(unit) {
        order.remove(order.index_of(unit))
    } else {
        order
    }
}

/// The join order once the first `done` units have gone from `before` to
/// `after`: a unit that left `Joined` is taken out, a unit that reached it
/// comes last.
pub open spec fn order_after(
    order: Seq<usize>,
    before: Seq<BlowerState>,
    after: Seq<BlowerState>,
    done: nat,
) -> Seq<usize>
    decreases done,
{
    if done == 0 {
        order
    } else {
        let earlier = order_after(order, before, after, (done - 1) as nat);
        let unit = (done - 1) as usize;
        if before[done - 1].phase == Phase::Joined {
            if after[done - 1].phase == Phase::Joined {
                earlier
            } else {
                without(earlier, unit)
            }
        } else if after[done - 1].phase == Phase::Joined {
            earlier.push(unit)
        } else {
            earlier
        }
    }
}

impl GroupView {
    /// The demand after a reading: a usable one replaces the held one, held
    /// at zero from below.
    pub open spec fn demand_after(self, reading: Reading<Float>) -> Float {
        if !reading.usable() {
            self.last_demand
        } else if Float::spec_zero().lt(reading.value) {
            reading.value
        } else {
            Float::spec_zero()
        }
    }

    /// The units after one scan of the choreography.
    pub open spec fn state_after(self, scan: BlowerScan, tick: Tick) -> Seq<BlowerState> {
        Seq::new(
            self.state.len(),
            |i: int|
                self.state[i].advanced(
                    scan.units[i],
                    self.demand_after(scan.demand),
                    self.config.vent_ticks,
                    tick,
                ),
        )
    }

    /// The group with unit `unit` departing.
    pub open spec fn departing(self, unit: int) -> GroupView {
        GroupView {
            state: self.state.update(unit, self.state[unit].entered(Phase::Departing)),
            order: without(self.order, unit as usize),
            ..self
        }
    }

    /// The second leg of a rotation: the banked unit departs once the join
    /// has completed. An aborted join cancels it, and so does a banked unit
    /// that has left on its own.
    pub open spec fn second_leg(self) -> GroupView {
        match self.pair {
            None => self,
            Some((join, depart)) => match self.phase(join as int) {
                Phase::Joining => if self.phase(depart as int) == Phase::Joined {
                    self
                } else {
                    GroupView { pair: None, ..self }
                },
                Phase::Joined => {
                    let released = GroupView { pair: None, ..self };
                    if self.phase(depart as int) == Phase::Joined {
                        released.departing(depart as int)
                    } else {
                        released
                    }
                },
                _ => GroupView { pair: None, ..self },
            },
        }
    }

    /// The group after the readings of a scan, before anything is staged.
    pub open spec fn advanced(self, scan: BlowerScan, tick: Tick) -> GroupView {
        let state = self.state_after(scan, tick);
        GroupView {
            state,
            order: order_after(self.order, self.state, state, self.state.len()),
            approve_used: self.approve_used && !scan.withdrawn(),
            last_demand: self.demand_after(scan.demand),
            ..self
        }.second_leg()
    }
}

/// The ceilings of the commanded units among the first `done`, in order.
pub open spec fn ceilings(
    bounds: Seq<UnitBounds>,
    state: Seq<BlowerState>,
    done: nat,
) -> Seq<Float>
    decreases done,
{
    if done == 0 {
        Seq::empty()
    } else {
        let earlier = ceilings(bounds, state, (done - 1) as nat);
        if state[done - 1].phase.commanded() {
            earlier.push(bounds[done - 1].spec_effective_max())
        } else {
            earlier
        }
    }
}

impl GroupView {
    /// Whether a join or a departure runs, or a rotation waits for its
    /// second leg.
    pub open spec fn in_flight(self) -> bool {
        self.pair is Some || exists|i: int|
            0 <= i < self.count() && (#[trigger] self.state[i]).phase.vented()
    }

    /// Whether unit `i` may start: offline, available and past its start
    /// interval.
    pub open spec fn joinable(self, scan: BlowerScan, tick: Tick, i: int) -> bool {
        let unit = self.state[i];
        &&& unit.phase == Phase::Offline
        &&& scan.units[i].available()
        &&& unit.stopped_at == 0 || tick.0 >= unit.stopped_at
            + self.config.min_start_interval_ticks
    }

    /// Whether unit `i` may depart: joined, with its minimum run served.
    pub open spec fn departable(self, tick: Tick, i: int) -> bool {
        let unit = self.state[i];
        unit.phase == Phase::Joined && tick.0 >= unit.started_at + self.config.min_run_ticks
    }

    /// Whether a join prefers unit `i` to unit `j`.
    pub open spec fn joins_before(self, i: int, j: int) -> bool {
        if self.config.rotation == BlowerRotation::EqualizeRuntime && self.state[i].run_hours
            != self.state[j].run_hours {
            self.state[i].run_hours < self.state[j].run_hours
        } else {
            i < j
        }
    }

    /// Whether unit `i` is the one a join picks.
    pub open spec fn is_join_pick(self, scan: BlowerScan, tick: Tick, i: usize) -> bool {
        &&& i < self.count()
        &&& self.joinable(scan, tick, i as int)
        &&& forall|j: int|
            0 <= j < self.count() && j != i && #[trigger] self.joinable(scan, tick, j)
                ==> self.joins_before(i as int, j)
    }

    /// The unit a join picks.
    pub open spec fn join_pick(self, scan: BlowerScan, tick: Tick) -> Option<usize> {
        if exists|i: usize| self.is_join_pick(scan, tick, i) {
            Some(choose|i: usize| self.is_join_pick(scan, tick, i))
        } else {
            None
        }
    }

    /// Whether a departure prefers the unit at position `p` of the join
    /// order to the one at position `q`.
    pub open spec fn departs_before(self, p: int, q: int) -> bool {
        let i = self.order[p];
        let j = self.order[q];
        match self.config.rotation {
            BlowerRotation::NoRotation => p > q,
            BlowerRotation::FixedOrder => i > j,
            BlowerRotation::EqualizeRuntime => if self.state[i as int].run_hours
                != self.state[j as int].run_hours {
                self.state[i as int].run_hours > self.state[j as int].run_hours
            } else {
                i < j
            },
        }
    }

    /// Whether the unit at position `p` may be picked: any joined unit, or
    /// only one that may depart at the given scan.
    pub open spec fn depart_candidate(self, at: Option<Tick>, p: int) -> bool {
        match at {
            None => true,
            Some(tick) => self.departable(tick, self.order[p] as int),
        }
    }

    /// Whether the unit at position `p` is the one a departure picks.
    pub open spec fn is_depart_pick(self, at: Option<Tick>, p: int) -> bool {
        &&& 0 <= p < self.order.len()
        &&& self.depart_candidate(at, p)
        &&& forall|q: int|
            0 <= q < self.order.len() && q != p && #[trigger] self.depart_candidate(at, q)
                ==> self.departs_before(p, q)
    }

    /// The joined unit that departs first, among all or among those that
    /// may depart at the given scan.
    pub open spec fn depart_pick(self, at: Option<Tick>) -> Option<usize> {
        if exists|p: int| self.is_depart_pick(at, p) {
            Some(self.order[choose|p: int| self.is_depart_pick(at, p)])
        } else {
            None
        }
    }

    /// The ceiling of the joined unit that departs first.
    pub open spec fn next_ceiling(self) -> Option<Float> {
        match self.depart_pick(None) {
            Some(unit) => Some(self.bounds[unit as int].spec_effective_max()),
            None => None,
        }
    }

    /// Whether the demand warrants another unit: it exceeds `up_limit` and
    /// a unit is offline.
    pub open spec fn up_warranted(self, up_limit: Float) -> bool {
        up_limit.lt(self.last_demand) && exists|i: int|
            0 <= i < self.count() && (#[trigger] self.state[i]).phase == Phase::Offline
    }

    /// Whether the demand warrants one unit less: a unit is joined and the
    /// demand has vanished or stays below `down_limit`.
    pub open spec fn down_warranted(self, down_limit: Float) -> bool {
        self.order.len() > 0 && (self.last_demand.le(Float::spec_zero()) || self.last_demand.lt(
            down_limit,
        ))
    }

    /// How much longer than a standby a unit must have run for the two to be
    /// swapped: its minimum run, at least one scan.
    pub open spec fn rotation_margin(self) -> int {
        if self.config.min_run_ticks > 1 {
            self.config.min_run_ticks as int
        } else {
            1
        }
    }

    /// Whether unit `i` lags unit `j` by the rotation margin.
    pub open spec fn lags(self, i: int, j: int) -> bool {
        self.state[j].run_hours >= self.state[i].run_hours + self.rotation_margin()
    }

    /// Whether some available standby lags some unit that may depart.
    pub open spec fn runtime_spread(self, scan: BlowerScan, tick: Tick) -> bool {
        exists|i: int, p: int|
            #![trigger self.state[i], self.order[p]]
            {
                &&& 0 <= i < self.count()
                &&& 0 <= p < self.order.len()
                &&& self.state[i].phase == Phase::Offline
                &&& scan.units[i].available()
                &&& self.departable(tick, self.order[p] as int)
                &&& self.lags(i, self.order[p] as int)
            }
    }

    /// Whether a maintenance swap is warranted.
    pub open spec fn rotate_warranted(
        self,
        scan: BlowerScan,
        up_limit: Float,
        down_limit: Float,
        tick: Tick,
    ) -> bool {
        &&& self.config.rotation == BlowerRotation::EqualizeRuntime
        &&& !self.up_warranted(up_limit)
        &&& !self.down_warranted(down_limit)
        &&& self.runtime_spread(scan, tick)
    }

    /// Whether any change is warranted.
    pub open spec fn warranted(
        self,
        scan: BlowerScan,
        up_limit: Float,
        down_limit: Float,
        tick: Tick,
    ) -> bool {
        ||| self.up_warranted(up_limit)
        ||| self.down_warranted(down_limit)
        ||| self.rotate_warranted(scan, up_limit, down_limit, tick)
    }

    /// The warranted change, where its unit is eligible. A swap waits while
    /// no standby that lags may start.
    pub open spec fn request(
        self,
        scan: BlowerScan,
        up_limit: Float,
        down_limit: Float,
        tick: Tick,
    ) -> Option<Request> {
        if self.up_warranted(up_limit) {
            match self.join_pick(scan, tick) {
                Some(unit) => Some(Request::StageUp(unit)),
                None => None,
            }
        } else if self.down_warranted(down_limit) {
            match self.depart_pick(Some(tick)) {
                Some(unit) => Some(Request::StageDown(unit)),
                None => None,
            }
        } else if self.rotate_warranted(scan, up_limit, down_limit, tick) {
            match (self.join_pick(scan, tick), self.depart_pick(Some(tick))) {
                (Some(join), Some(depart)) => if self.lags(join as int, depart as int) {
                    Some(Request::Rotate(join, depart))
                } else {
                    None
                },
                _ => None,
            }
        } else {
            None
        }
    }

    /// Whether the authority lets an eligible change execute.
    pub open spec fn granted(self, scan: BlowerScan) -> bool {
        match self.config.staging_authority {
            StagingAuthority::Automatic => true,
            StagingAuthority::OperatorApproval => scan.approved() && !self.approve_used,
            StagingAuthority::FlagOnly => false,
        }
    }

    /// Whether a change executes at this scan.
    pub open spec fn executes(
        self,
        scan: BlowerScan,
        up_limit: Float,
        down_limit: Float,
        tick: Tick,
    ) -> bool {
        self.request(scan, up_limit, down_limit, tick) is Some && self.granted(scan)
            && !self.in_flight()
    }

    /// The group with unit `unit` starting.
    pub open spec fn joining(self, unit: int, tick: Tick) -> GroupView {
        GroupView {
            state: self.state.update(
                unit,
                BlowerState { started_at: tick.0, ..self.state[unit].entered(Phase::Joining) },
            ),
            ..self
        }
    }

    /// The group with `request` begun.
    pub open spec fn begun(self, request: Request, tick: Tick) -> GroupView {
        match request {
            Request::StageUp(unit) => self.joining(unit as int, tick),
            Request::StageDown(unit) => self.departing(unit as int),
            Request::Rotate(join, depart) => GroupView {
                pair: Some((join, depart)),
                ..self.joining(join as int, tick)
            },
        }
    }

    /// The group after the stage decision.
    pub open spec fn staged(
        self,
        scan: BlowerScan,
        up_limit: Float,
        down_limit: Float,
        tick: Tick,
    ) -> GroupView {
        if self.executes(scan, up_limit, down_limit, tick) {
            GroupView {
                approve_used: self.approve_used || self.config.staging_authority
                    == StagingAuthority::OperatorApproval,
                ..self.begun(self.request(scan, up_limit, down_limit, tick)->0, tick)
            }
        } else {
            self
        }
    }

    /// Whether a warranted change stands unexecuted for the operator.
    pub open spec fn pending(
        self,
        scan: BlowerScan,
        up_limit: Float,
        down_limit: Float,
        tick: Tick,
    ) -> bool {
        &&& self.warranted(scan, up_limit, down_limit, tick)
        &&& !self.executes(scan, up_limit, down_limit, tick)
        &&& self.config.staging_authority != StagingAuthority::Automatic
    }
}

/// How many of the first `done` units are commanded.
pub open spec fn commanded_count(state: Seq<BlowerState>, done: nat) -> int
    decreases done,
{
    if done == 0 {
        0
    } else {
        commanded_count(state, (done - 1) as nat) + if state[done - 1].phase.commanded() {
            1int
        } else {
            0
        }
    }
}

/// A trusted write.
pub open spec fn good_write(point: PointId, value: Value, tick: Tick) -> Write {
    Write::of(point, value, Quality::Good, tick)
}

impl GroupView {
    /// What unit `i` is asked to deliver: its clamped share on the header,
    /// its floor while it starts, nothing otherwise.
    pub open spec fn capacity(self, share: Float, i: int) -> Float {
        match self.phase(i) {
            Phase::Joined => share.clamped(
                self.bounds[i].min_flow,
                self.bounds[i].spec_effective_max(),
            ),
            Phase::Joining => self.bounds[i].min_flow,
            _ => Float::spec_zero(),
        }
    }

    /// The writes to the first `done` units.
    pub open spec fn unit_writes(self, share: Float, tick: Tick, done: nat) -> Seq<Write>
        decreases done,
    {
        if done == 0 {
            Seq::empty()
        } else {
            let i = done - 1;
            let unit = self.units[i];
            self.unit_writes(share, tick, (done - 1) as nat).push(
                good_write(unit.cmd, Value::Bool(self.phase(i).commanded()), tick),
            ).push(good_write(unit.capacity, Value::Float(self.capacity(share, i)), tick)).push(
                good_write(unit.vent, Value::Bool(self.phase(i).vented()), tick),
            )
        }
    }

    /// No unit is available.
    pub open spec fn none_available(self, scan: BlowerScan) -> bool {
        forall|i: int| 0 <= i < self.count() ==> !(#[trigger] scan.units[i]).available()
    }

    /// Every unit reads failed.
    pub open spec fn all_faulted(self, scan: BlowerScan) -> bool {
        forall|i: int| 0 <= i < self.count() ==> (#[trigger] scan.units[i]).faulted()
    }

    /// Everything the group drives in a scan, in order.
    pub open spec fn writes(
        self,
        scan: BlowerScan,
        pending: bool,
        share: Float,
        tick: Tick,
    ) -> Seq<Write> {
        self.unit_writes(share, tick, self.units.len()).push(
            good_write(
                self.outputs.staged,
                Value::Int(commanded_count(self.state, self.state.len()) as i64),
                tick,
            ),
        ).push(
            good_write(
                self.outputs.none_available,
                Value::Bool(self.none_available(scan)),
                tick,
            ),
        ).push(
            good_write(self.outputs.all_faulted, Value::Bool(self.all_faulted(scan)), tick),
        ).push(good_write(self.outputs.staging_pending, Value::Bool(pending), tick)).push(
            good_write(self.outputs.transition, Value::Bool(self.in_flight()), tick),
        )
    }

    /// The ports of the first `done` units, after those in `leading`.
    pub open spec fn unit_ports(
        self,
        leading: Seq<RequirementView>,
        done: nat,
    ) -> Seq<RequirementView>
        decreases done,
    {
        if done == 0 {
            leading
        } else {
            let unit = self.units[done - 1];
            self.unit_ports(leading, (done - 1) as nat).push(
                spec_output(spec_numbered("cmd_"@, done), ValueKind::Bool, unit.cmd),
            ).push(spec_input(spec_numbered("run_"@, done), ValueKind::Bool, unit.run)).push(
                spec_input(spec_numbered("fault_"@, done), ValueKind::Bool, unit.fault),
            ).push(spec_input(spec_numbered("avail_"@, done), ValueKind::Bool, unit.avail)).push(
                spec_output(spec_numbered("capacity_"@, done), ValueKind::Float, unit.capacity),
            ).push(spec_output(spec_numbered("vent_"@, done), ValueKind::Bool, unit.vent))
        }
    }

    /// The ports before those of the units.
    pub open spec fn leading_ports(self) -> Seq<RequirementView> {
        let demand = seq![spec_input("demand"@, ValueKind::Float, self.demand)];
        match self.approve {
            Some(approve) => demand.push(spec_input("approve"@, ValueKind::Bool, approve)),
            None => demand,
        }
    }

    /// The declared ports.
    pub open spec fn requirements(self) -> Seq<RequirementView> {
        self.unit_ports(self.leading_ports(), self.units.len()).push(
            spec_output("staged"@, ValueKind::Int, self.outputs.staged),
        ).push(
            spec_output("none_available"@, ValueKind::Bool, self.outputs.none_available),
        ).push(spec_output("all_faulted"@, ValueKind::Bool, self.outputs.all_faulted)).push(
            spec_output("staging_pending"@, ValueKind::Bool, self.outputs.staging_pending),
        ).push(spec_output("transition"@, ValueKind::Bool, self.outputs.transition))
    }

    /// The roles of the ports before those of the units.
    pub open spec fn leading_roles(self) -> Seq<(Seq<char>, PortRole)> {
        let demand = seq![("demand"@, PortRole::Setpoint)];
        if self.approve is Some {
            demand.push(("approve"@, PortRole::Setpoint))
        } else {
            demand
        }
    }

    /// The roles of the ports.
    pub open spec fn roles(self) -> Seq<(Seq<char>, PortRole)> {
        unit_roles(self.leading_roles(), self.units.len()).push(("staged"@, PortRole::Status)).push(
            ("none_available"@, PortRole::Status),
        ).push(("all_faulted"@, PortRole::Status)).push(
            ("staging_pending"@, PortRole::Status),
        ).push(("transition"@, PortRole::Status))
    }

    /// The parameters before those of the units.
    pub open spec fn leading_parameters(self) -> Seq<ParameterView> {
        seq![
            spec_parameter("staging_authority"@, ValueKind::Int, spec_int_range(0, 2)),
            spec_parameter("stage_up"@, ValueKind::Float, spec_nonnegative_f64()),
            spec_parameter("stage_down"@, ValueKind::Float, spec_nonnegative_f64()),
            spec_parameter("min_run_ticks"@, ValueKind::Int, spec_nonnegative_int()),
            spec_parameter("min_start_interval_ticks"@, ValueKind::Int, spec_nonnegative_int()),
        ]
    }

    /// The declared parameters.
    pub open spec fn parameters(self) -> Seq<ParameterView> {
        unit_parameters(self.leading_parameters(), self.units.len()).push(
            spec_parameter("vent_ticks"@, ValueKind::Int, spec_positive_int()),
        ).push(spec_parameter("rotation"@, ValueKind::Int, spec_int_range(0, 2)))
    }

    /// The group's description.
    pub open spec fn description(self) -> ComponentView {
        spec_component(
            self.name,
            BlowerGroup::KIND@,
            self.requirements(),
            self.roles(),
            self.parameters(),
        )
    }
}

/// The roles of the ports of the first `done` units, after those in
/// `leading`.
pub open spec fn unit_roles(leading: Seq<(Seq<char>, PortRole)>, done: nat) -> Seq<
    (Seq<char>, PortRole),
>
    decreases done,
{
    if done == 0 {
        leading
    } else {
        unit_roles(leading, (done - 1) as nat).push(
            (spec_numbered("cmd_"@, done), PortRole::Output),
        ).push(
            (spec_numbered("run_"@, done), PortRole::ProcessValue),
        ).push((spec_numbered("fault_"@, done), PortRole::ProcessValue)).push(
            (spec_numbered("avail_"@, done), PortRole::ProcessValue),
        ).push((spec_numbered("capacity_"@, done), PortRole::Output)).push(
            (spec_numbered("vent_"@, done), PortRole::Output),
        )
    }
}

/// The parameters of the first `done` units, after those in `leading`.
pub open spec fn unit_parameters(leading: Seq<ParameterView>, done: nat) -> Seq<ParameterView>
    decreases done,
{
    if done == 0 {
        leading
    } else {
        unit_parameters(leading, (done - 1) as nat).push(
            spec_parameter(min_flow_name(done), ValueKind::Float, spec_nonnegative_f64()),
        ).push(spec_parameter(max_flow_name(done), ValueKind::Float, spec_nonnegative_f64())).push(
            spec_parameter(max_current_name(done), ValueKind::Float, spec_nonnegative_f64()),
        )
    }
}

/// The tuned bounds of the first `done` units, put into `fields`.
pub open spec fn with_bounds(
    fields: Map<Seq<char>, Value>,
    bounds: Seq<UnitBounds>,
    done: nat,
) -> Map<Seq<char>, Value>
    decreases done,
{
    if done == 0 {
        fields
    } else {
        with_bounds(fields, bounds, (done - 1) as nat).insert(
            min_flow_name(done),
            Value::Float(bounds[done - 1].min_flow),
        ).insert(max_flow_name(done), Value::Float(bounds[done - 1].max_flow)).insert(
            max_current_name(done),
            Value::Float(bounds[done - 1].max_current),
        )
    }
}

/// The rank of `unit` in the join order, counted from one; zero for a unit
/// that is not in it.
pub open spec fn rank_of(order: Seq<usize>, unit: usize) -> int {
    if order.contains(unit) {
        order.index_of(unit) + 1
    } else {
        0
    }
}

/// The run state of the first `done` units, put into `fields`.
pub open spec fn with_units(
    fields: Map<Seq<char>, Value>,
    state: Seq<BlowerState>,
    order: Seq<usize>,
    done: nat,
) -> Map<Seq<char>, Value>
    decreases done,
{
    if done == 0 {
        fields
    } else {
        let unit = state[done - 1];
        with_units(fields, state, order, (done - 1) as nat).insert(
            spec_numbered("phase_"@, done),
            Value::Int(unit.phase.spec_code()),
        ).insert(
            spec_numbered("phase_ticks_"@, done),
            Value::Int(unit.phase_ticks as i64),
        ).insert(spec_numbered("run_hours_"@, done), Value::Int(unit.run_hours as i64)).insert(
            spec_numbered("started_at_"@, done),
            Value::Int(unit.started_at as i64),
        ).insert(spec_numbered("stopped_at_"@, done), Value::Int(unit.stopped_at as i64)).insert(
            spec_numbered("join_rank_"@, done),
            Value::Int(rank_of(order, (done - 1) as usize) as i64),
        )
    }
}

impl GroupView {
    /// The tuned parameters as fields.
    pub open spec fn reported(self) -> Map<Seq<char>, Value> {
        let config = self.config;
        with_bounds(
            Map::empty().insert(
                "staging_authority"@,
                Value::Int(config.staging_authority.spec_code()),
            ).insert("stage_up"@, Value::Float(config.stage_up)).insert(
                "stage_down"@,
                Value::Float(config.stage_down),
            ).insert("min_run_ticks"@, Value::Int(config.min_run_ticks as i64)).insert(
                "min_start_interval_ticks"@,
                Value::Int(config.min_start_interval_ticks as i64),
            ),
            self.bounds,
            self.bounds.len(),
        ).insert("vent_ticks"@, Value::Int(config.vent_ticks as i64)).insert(
            "rotation"@,
            Value::Int(config.rotation.spec_code()),
        )
    }

    /// The unit that a rotation joins, counted from one.
    pub open spec fn pair_join(self) -> int {
        match self.pair {
            Some((join, _)) => join + 1,
            None => 0,
        }
    }

    /// The unit that a rotation departs, counted from one.
    pub open spec fn pair_depart(self) -> int {
        match self.pair {
            Some((_, depart)) => depart + 1,
            None => 0,
        }
    }

    /// The tuning and the run state as fields.
    pub open spec fn captured(self) -> Map<Seq<char>, Value> {
        with_units(
            self.reported().insert("last_demand"@, Value::Float(self.last_demand)).insert(
                "approve_used"@,
                Value::Bool(self.approve_used),
            ).insert("rotation_join"@, Value::Int(self.pair_join() as i64)).insert(
                "rotation_depart"@,
                Value::Int(self.pair_depart() as i64),
            ),
            self.state,
            self.order,
            self.state.len(),
        )
    }
}

/// What a non-negative double field holds.
pub open spec fn amount_field(
    fields: Map<Seq<char>, Value>,
    name: Seq<char>,
    field: Seq<char>,
) -> Result<Float, StateErrorView> {
    match float_field(fields, name, field) {
        Err(error) => Err(error),
        Ok(value) => if value.nonnegative() {
            Ok(value)
        } else {
            Err(spec_invalid_value(name, field, Value::Float(value)))
        },
    }
}

/// The bounds that a checkpoint carries for unit `index`.
pub open spec fn bounds_field(
    fields: Map<Seq<char>, Value>,
    name: Seq<char>,
    index: nat,
) -> Result<UnitBounds, StateErrorView> {
    match amount_field(fields, name, min_flow_name(index)) {
        Err(error) => Err(error),
        Ok(min_flow) => match amount_field(fields, name, max_flow_name(index)) {
            Err(error) => Err(error),
            Ok(max_flow) => match amount_field(fields, name, max_current_name(index)) {
                Err(error) => Err(error),
                Ok(max_current) => if max_flow.lt(min_flow) {
                    Err(spec_invalid_value(name, max_flow_name(index), Value::Float(max_flow)))
                } else if max_current.lt(min_flow) {
                    Err(
                        spec_invalid_value(
                            name,
                            max_current_name(index),
                            Value::Float(max_current),
                        ),
                    )
                } else {
                    Ok(UnitBounds { min_flow, max_flow, max_current })
                },
            },
        },
    }
}

/// The bounds that a checkpoint carries for the first `done` units.
pub open spec fn restored_bounds(
    fields: Map<Seq<char>, Value>,
    name: Seq<char>,
    done: nat,
) -> Result<Seq<UnitBounds>, StateErrorView>
    decreases done,
{
    if done == 0 {
        Ok(Seq::empty())
    } else {
        match restored_bounds(fields, name, (done - 1) as nat) {
            Err(error) => Err(error),
            Ok(earlier) => match bounds_field(fields, name, done) {
                Err(error) => Err(error),
                Ok(bounds) => Ok(earlier.push(bounds)),
            },
        }
    }
}

/// The tuning that a checkpoint carries, but for the bounds.
pub open spec fn restored_config(fields: Map<Seq<char>, Value>, name: Seq<char>) -> Result<
    BlowerGroupConfig,
    StateErrorView,
> {
    match int_field(fields, name, "staging_authority"@) {
        Err(error) => Err(error),
        Ok(authority) => match StagingAuthority::spec_decode(authority as int) {
            None => Err(spec_invalid_value(name, "staging_authority"@, Value::Int(authority))),
            Some(staging_authority) => match amount_field(fields, name, "stage_up"@) {
                Err(error) => Err(error),
                Ok(stage_up) => match amount_field(fields, name, "stage_down"@) {
                    Err(error) => Err(error),
                    Ok(stage_down) => match count_field(fields, name, "min_run_ticks"@) {
                        Err(error) => Err(error),
                        Ok(min_run_ticks) => match count_field(
                            fields,
                            name,
                            "min_start_interval_ticks"@,
                        ) {
                            Err(error) => Err(error),
                            Ok(min_start_interval_ticks) => match count_field(
                                fields,
                                name,
                                "vent_ticks"@,
                            ) {
                                Err(error) => Err(error),
                                Ok(vent_ticks) => if vent_ticks < 1 {
                                    Err(spec_invalid_value(name, "vent_ticks"@, Value::Int(0)))
                                } else {
                                    match int_field(fields, name, "rotation"@) {
                                        Err(error) => Err(error),
                                        Ok(code) => match BlowerRotation::spec_decode(code as int) {
                                            None => Err(
                                                spec_invalid_value(
                                                    name,
                                                    "rotation"@,
                                                    Value::Int(code),
                                                ),
                                            ),
                                            Some(rotation) => Ok(
                                                BlowerGroupConfig {
                                                    staging_authority,
                                                    stage_up,
                                                    stage_down,
                                                    min_run_ticks,
                                                    min_start_interval_ticks,
                                                    vent_ticks,
                                                    rotation,
                                                },
                                            ),
                                        },
                                    }
                                },
                            },
                        },
                    },
                },
            },
        },
    }
}

/// A field that names one of `count` units, counted from one, or none.
pub open spec fn unit_field(
    fields: Map<Seq<char>, Value>,
    name: Seq<char>,
    field: Seq<char>,
    count: int,
) -> Result<i64, StateErrorView> {
    match int_field(fields, name, field) {
        Err(error) => Err(error),
        Ok(unit) => if 0 <= unit <= count {
            Ok(unit)
        } else {
            Err(spec_invalid_value(name, field, Value::Int(unit)))
        },
    }
}

/// The rotation pair that a checkpoint carries: both legs or neither.
pub open spec fn restored_pair(
    fields: Map<Seq<char>, Value>,
    name: Seq<char>,
    count: int,
) -> Result<(i64, i64), StateErrorView> {
    match unit_field(fields, name, "rotation_join"@, count) {
        Err(error) => Err(error),
        Ok(join) => match unit_field(fields, name, "rotation_depart"@, count) {
            Err(error) => Err(error),
            Ok(depart) => if join > 0 && depart == 0 {
                Err(spec_invalid_value(name, "rotation_depart"@, Value::Int(join)))
            } else if join == 0 && depart > 0 {
                Err(spec_invalid_value(name, "rotation_join"@, Value::Int(depart)))
            } else {
                Ok((join, depart))
            },
        },
    }
}

/// The run state that a checkpoint carries for unit `index`, and its rank
/// in the join order.
///
/// A leg in progress has spent part of its window, a settled phase nothing;
/// a unit that is not offline has been started; exactly the joined units
/// have a rank.
pub open spec fn state_field(
    fields: Map<Seq<char>, Value>,
    name: Seq<char>,
    vent_ticks: u64,
    count: int,
    index: nat,
) -> Result<(BlowerState, i64), StateErrorView> {
    let ticks_name = spec_numbered("phase_ticks_"@, index);
    match int_field(fields, name, spec_numbered("phase_"@, index)) {
        Err(error) => Err(error),
        Ok(code) => match Phase::spec_decode(code as int) {
            None => Err(
                spec_invalid_value(name, spec_numbered("phase_"@, index), Value::Int(code)),
            ),
            Some(phase) => match count_field(fields, name, ticks_name) {
                Err(error) => Err(error),
                Ok(phase_ticks) => if if phase.vented() {
                    phase_ticks >= vent_ticks
                } else {
                    phase_ticks != 0
                } {
                    Err(spec_invalid_value(name, ticks_name, Value::Int(phase_ticks as i64)))
                } else {
                    match count_field(fields, name, spec_numbered("run_hours_"@, index)) {
                        Err(error) => Err(error),
                        Ok(run_hours) => timing_field(
                            fields,
                            name,
                            count,
                            index,
                            phase,
                            phase_ticks,
                            run_hours,
                        ),
                    }
                },
            },
        },
    }
}

/// The start and stop references and the rank of unit `index`, with what
/// was read before them.
pub open spec fn timing_field(
    fields: Map<Seq<char>, Value>,
    name: Seq<char>,
    count: int,
    index: nat,
    phase: Phase,
    phase_ticks: u64,
    run_hours: u64,
) -> Result<(BlowerState, i64), StateErrorView> {
    let started_name = spec_numbered("started_at_"@, index);
    let rank_name = spec_numbered("join_rank_"@, index);
    match count_field(fields, name, started_name) {
        Err(error) => Err(error),
        Ok(started_at) => if phase != Phase::Offline && started_at == 0 {
            Err(spec_invalid_value(name, started_name, Value::Int(0)))
        } else {
            match count_field(fields, name, spec_numbered("stopped_at_"@, index)) {
                Err(error) => Err(error),
                Ok(stopped_at) => match unit_field(fields, name, rank_name, count) {
                    Err(error) => Err(error),
                    Ok(rank) => if (rank > 0) != (phase == Phase::Joined) {
                        Err(spec_invalid_value(name, rank_name, Value::Int(rank)))
                    } else {
                        Ok(
                            (
                                BlowerState {
                                    phase,
                                    phase_ticks,
                                    run_hours,
                                    started_at,
                                    stopped_at,
                                },
                                rank,
                            ),
                        )
                    },
                },
            }
        },
    }
}

/// The run state that a checkpoint carries for the first `done` units, each
/// with its rank.
pub open spec fn restored_units(
    fields: Map<Seq<char>, Value>,
    name: Seq<char>,
    vent_ticks: u64,
    count: int,
    done: nat,
) -> Result<Seq<(BlowerState, i64)>, StateErrorView>
    decreases done,
{
    if done == 0 {
        Ok(Seq::empty())
    } else {
        match restored_units(fields, name, vent_ticks, count, (done - 1) as nat) {
            Err(error) => Err(error),
            Ok(earlier) => match state_field(fields, name, vent_ticks, count, done) {
                Err(error) => Err(error),
                Ok(unit) => Ok(earlier.push(unit)),
            },
        }
    }
}

/// A ranked unit put behind those of its rank and below, before those
/// above.
pub open spec fn insert_ranked(sorted: Seq<(i64, usize)>, rank: i64, unit: usize) -> Seq<
    (i64, usize),
>
    decreases sorted.len(),
{
    if sorted.len() == 0 || sorted.last().0 <= rank {
        sorted.push((rank, unit))
    } else {
        insert_ranked(sorted.drop_last(), rank, unit).push(sorted.last())
    }
}

/// The joined units among the first `done`, by rank.
pub open spec fn ranked(units: Seq<(BlowerState, i64)>, done: nat) -> Seq<(i64, usize)>
    decreases done,
{
    if done == 0 {
        Seq::empty()
    } else {
        let earlier = ranked(units, (done - 1) as nat);
        let rank = units[done - 1].1;
        if rank > 0 {
            insert_ranked(earlier, rank, (done - 1) as usize)
        } else {
            earlier
        }
    }
}

/// The first rank that breaks the count from one, among the first `done`
/// places.
pub open spec fn first_gap(sorted: Seq<(i64, usize)>, done: nat) -> Option<i64>
    decreases done,
{
    if done == 0 {
        None
    } else {
        match first_gap(sorted, (done - 1) as nat) {
            Some(rank) => Some(rank),
            None => if sorted[done - 1].0 == done {
                None
            } else {
                Some(sorted[done - 1].0)
            },
        }
    }
}

/// The join order that the ranks of `units` stand for: they count from one
/// without a gap or a repeat.
pub open spec fn restored_order(name: Seq<char>, units: Seq<(BlowerState, i64)>) -> Result<
    Seq<usize>,
    StateErrorView,
> {
    let sorted = ranked(units, units.len());
    match first_gap(sorted, sorted.len()) {
        Some(rank) => Err(spec_invalid_value(name, "join_rank"@, Value::Int(rank))),
        None => Ok(Seq::new(sorted.len(), |p: int| sorted[p].1)),
    }
}

/// The names of the fields of the first `done` units, after those in
/// `leading`.
pub open spec fn unit_names(leading: Seq<Seq<char>>, done: nat) -> Seq<Seq<char>>
    decreases done,
{
    if done == 0 {
        leading
    } else {
        unit_names(leading, (done - 1) as nat).push(min_flow_name(done)).push(
            max_flow_name(done),
        ).push(max_current_name(done)).push(spec_numbered("phase_"@, done)).push(
            spec_numbered("phase_ticks_"@, done),
        ).push(spec_numbered("run_hours_"@, done)).push(spec_numbered("started_at_"@, done)).push(
            spec_numbered("stopped_at_"@, done),
        ).push(spec_numbered("join_rank_"@, done))
    }
}

/// The names of the group's own fields.
pub open spec fn group_names() -> Seq<Seq<char>> {
    seq![
        "staging_authority"@,
        "stage_up"@,
        "stage_down"@,
        "min_run_ticks"@,
        "min_start_interval_ticks"@,
        "vent_ticks"@,
        "rotation"@,
        "last_demand"@,
        "approve_used"@,
        "rotation_join"@,
        "rotation_depart"@,
    ]
}

impl GroupView {
    /// The group with a checkpoint's run state taken over, once its tuning
    /// has been read.
    pub open spec fn restored_run(
        self,
        fields: Map<Seq<char>, Value>,
        config: BlowerGroupConfig,
        bounds: Seq<UnitBounds>,
    ) -> Result<GroupView, StateErrorView> {
        let name = self.name;
        match amount_field(fields, name, "last_demand"@) {
            Err(error) => Err(error),
            Ok(last_demand) => match bool_field(fields, name, "approve_used"@) {
                Err(error) => Err(error),
                Ok(approve_used) => match restored_pair(fields, name, self.count()) {
                    Err(error) => Err(error),
                    Ok((join, depart)) => match restored_units(
                        fields,
                        name,
                        config.vent_ticks,
                        self.count(),
                        self.units.len(),
                    ) {
                        Err(error) => Err(error),
                        Ok(units) => match restored_order(name, units) {
                            Err(error) => Err(error),
                            Ok(order) => if join > 0 && units[join - 1].0.phase
                                != Phase::Joining {
                                Err(spec_invalid_value(name, "rotation_join"@, Value::Int(join)))
                            } else if join > 0 && units[depart - 1].0.phase != Phase::Joined {
                                Err(
                                    spec_invalid_value(
                                        name,
                                        "rotation_depart"@,
                                        Value::Int(depart),
                                    ),
                                )
                            } else if config.staging_authority
                                == StagingAuthority::OperatorApproval && self.approve is None {
                                Err(
                                    spec_invalid_value(
                                        name,
                                        "staging_authority"@,
                                        Value::Int(config.staging_authority.spec_code()),
                                    ),
                                )
                            } else {
                                Ok(
                                    GroupView {
                                        config,
                                        bounds,
                                        state: Seq::new(units.len(), |i: int| units[i].0),
                                        order,
                                        pair: if join == 0 {
                                            None
                                        } else {
                                            Some(((join - 1) as usize, (depart - 1) as usize))
                                        },
                                        approve_used,
                                        last_demand,
                                        ..self
                                    },
                                )
                            },
                        },
                    },
                },
            },
        }
    }

    /// The group with a checkpoint taken over, or the checkpoint's refusal.
    pub open spec fn restored(
        self,
        keys: Seq<Seq<char>>,
        fields: Map<Seq<char>, Value>,
    ) -> Result<GroupView, StateErrorView> {
        let name = self.name;
        match known_fields(keys, name, unit_names(group_names(), self.units.len())) {
            Err(error) => Err(error),
            Ok(_) => match restored_config(fields, name) {
                Err(error) => Err(error),
                Ok(config) => match restored_bounds(fields, name, self.units.len()) {
                    Err(error) => Err(error),
                    Ok(bounds) => self.restored_run(fields, config, bounds),
                },
            },
        }
    }
}

} // verus!
