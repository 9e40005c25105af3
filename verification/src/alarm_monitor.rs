//! High and low limits on a measurement, with hysteresis.

use crate::describe::{
    self, agree_on, parameter_views, requirement_views, role_views, spec_component, spec_finite_f64,
    spec_input, spec_nonnegative_f64, spec_output, spec_parameter, ComponentDescriptor,
    ComponentView, IoRequirement, ParameterDescriptor, ParameterView, PortRole, RequirementView,
    RoleHint,
};
use crate::float::Float;
use crate::params::{
    self, spec_invalid, spec_optional_f64, spec_required_f64, ParameterError, ParameterErrorView,
    Parameters,
};
use crate::table::{
    self, field, int_field, known_fields, known_names_pass, spec_invalid_value, StateError,
    StateErrorView, StateMap, Table,
};
use crate::text;
use crate::value::{PointId, Quality, QualityReason, Reading, Tick, Value, ValueKind, Write};
use vstd::prelude::*;

verus! {

/// The limits of an [`AlarmMonitor`].
#[derive(Debug, Clone, Copy, PartialEq, Eq, Structural)]
pub struct AlarmLimits {
    /// Where the low alarm trips.
    pub low: Float,
    /// Where the high alarm trips.
    pub high: Float,
    /// How far a tripped alarm's input must recede from its limit.
    pub hysteresis: Float,
}

/// Which limit holds the alarm, and its code.
#[derive(Debug, Clone, Copy, PartialEq, Eq, Structural)]
pub enum Alarm {
    /// `0`: none.
    Clear,
    /// `1`: the high one.
    High,
    /// `2`: the low one.
    Low,
}

impl Alarm {
    /// The code of the alarm.
    pub open spec fn spec_code(self) -> i64 {
        match self {
            Alarm::Clear => 0,
            Alarm::High => 1,
            Alarm::Low => 2,
        }
    }

    /// The alarm that `code` stands for.
    pub open spec fn spec_decode(code: int) -> Option<Alarm> {
        if code == 0 {
            Some(Alarm::Clear)
        } else if code == 1 {
            Some(Alarm::High)
        } else if code == 2 {
            Some(Alarm::Low)
        } else {
            None
        }
    }

    /// The code of the alarm.
    pub fn code(self) -> (r: i64)
        ensures
            r == self.spec_code(),
    {
        match self {
            Alarm::Clear => 0,
            Alarm::High => 1,
            Alarm::Low => 2,
        }
    }

    /// The alarm that `code` stands for.
    pub fn decode(code: i64) -> (r: Option<Alarm>)
        ensures
            r == Alarm::spec_decode(code as int),
    {
        match code {
            0 => Some(Alarm::Clear),
            1 => Some(Alarm::High),
            2 => Some(Alarm::Low),
            _ => None,
        }
    }
}

/// An alarm monitor: `alarm` is asserted from the scan in which `in` reaches
/// a limit until `in` has receded past it by more than the hysteresis. Within
/// the hysteresis the alarm stays as it is. An input that goes from beyond
/// one limit to beyond the other moves the alarm over at once.
///
/// The limits are checked whatever the quality, and the output carries the
/// input's. A NaN leaves the alarm as it is and counts as a device fault.
///
/// The limits less and plus the hysteresis are floating-point arithmetic,
/// which the caller does; see [`AlarmMonitor::step`].
#[derive(Debug)]
pub struct AlarmMonitor {
    name: String,
    input: PointId,
    alarm: PointId,
    limits: AlarmLimits,
    state: Alarm,
}

/// What an [`AlarmMonitor`] is.
#[verifier::ext_equal]
pub struct AlarmView {
    pub name: Seq<char>,
    pub input: PointId,
    pub alarm: PointId,
    pub limits: AlarmLimits,
    /// The limit that holds the alarm.
    pub state: Alarm,
}

impl View for AlarmMonitor {
    type V = AlarmView;

    closed spec fn view(&self) -> AlarmView {
        AlarmView {
            name: self.name@,
            input: self.input,
            alarm: self.alarm,
            limits: self.limits,
            state: self.state,
        }
    }
}

/// The first limit that a monitor cannot run under, and why.
pub open spec fn limits_error(name: Seq<char>, limits: AlarmLimits) -> Option<ParameterErrorView> {
    if !limits.low.finite() {
        Some(spec_invalid(name, "low_limit"@, "must be finite"@))
    } else if !limits.high.finite() {
        Some(spec_invalid(name, "high_limit"@, "must be finite"@))
    } else if !limits.hysteresis.finite() {
        Some(spec_invalid(name, "hysteresis"@, "must be finite"@))
    } else if limits.high.le(limits.low) {
        Some(spec_invalid(name, "high_limit"@, "limits require low_limit < high_limit"@))
    } else if limits.hysteresis.lt(Float::spec_zero()) {
        Some(spec_invalid(name, "hysteresis"@, "must be non-negative"@))
    } else {
        None
    }
}

/// The monitor with the given parts, or why it cannot be built.
pub open spec fn spec_new(
    name: Seq<char>,
    input: PointId,
    alarm: PointId,
    limits: AlarmLimits,
) -> Result<AlarmView, ParameterErrorView> {
    match limits_error(name, limits) {
        Some(error) => Err(error),
        None => Ok(AlarmView { name, input, alarm, limits, state: Alarm::Clear }),
    }
}

/// The monitor that the parameters declare.
pub open spec fn spec_from_parameters(
    name: Seq<char>,
    input: PointId,
    alarm: PointId,
    parameters: Map<Seq<char>, Value>,
) -> Result<AlarmView, ParameterErrorView> {
    match spec_required_f64(name, parameters, "low_limit"@) {
        Err(error) => Err(error),
        Ok(low) => match spec_required_f64(name, parameters, "high_limit"@) {
            Err(error) => Err(error),
            Ok(high) => match spec_optional_f64(name, parameters, "hysteresis"@) {
                Err(error) => Err(error),
                Ok(hysteresis) => spec_new(
                    name,
                    input,
                    alarm,
                    AlarmLimits {
                        low,
                        high,
                        hysteresis: match hysteresis {
                            Some(hysteresis) => hysteresis,
                            None => Float::spec_zero(),
                        },
                    },
                ),
            },
        },
    }
}

impl AlarmView {
    /// The invariant: the limits can be run under.
    pub open spec fn wf(self) -> bool {
        limits_error(self.name, self.limits) is None
    }

    /// The alarm after a scan. `clear_high` is the high limit less the
    /// hysteresis, `clear_low` the low limit plus it.
    pub open spec fn judged(self, value: Float, clear_high: Float, clear_low: Float) -> Alarm {
        if value.nan() {
            self.state
        } else if self.state == Alarm::High && clear_high.le(value) {
            Alarm::High
        } else if self.state == Alarm::Low && value.le(clear_low) {
            Alarm::Low
        } else if self.limits.high.le(value) {
            Alarm::High
        } else if value.le(self.limits.low) {
            Alarm::Low
        } else {
            Alarm::Clear
        }
    }

    /// The monitor after a scan.
    pub open spec fn after(self, value: Float, clear_high: Float, clear_low: Float) -> AlarmView {
        AlarmView { state: self.judged(value, clear_high, clear_low), ..self }
    }

    /// What the monitor drives in a scan.
    pub open spec fn driven(
        self,
        reading: Reading<Float>,
        clear_high: Float,
        clear_low: Float,
        tick: Tick,
    ) -> Write {
        Write::of(
            self.alarm,
            Value::Bool(self.judged(reading.value, clear_high, clear_low) != Alarm::Clear),
            if reading.value.nan() {
                reading.quality.spec_merge(Quality::Bad(QualityReason::DeviceFault))
            } else {
                reading.quality
            },
            tick,
        )
    }

    /// The declared ports.
    pub open spec fn requirements(self) -> Seq<RequirementView> {
        seq![
            spec_input("in"@, ValueKind::Float, self.input),
            spec_output("alarm"@, ValueKind::Bool, self.alarm),
        ]
    }

    /// The roles of the ports.
    pub open spec fn roles(self) -> Seq<(Seq<char>, PortRole)> {
        seq![
            ("in"@, PortRole::ProcessValue),
            ("alarm"@, PortRole::Status),
        ]
    }

    /// The declared parameters.
    pub open spec fn parameters(self) -> Seq<ParameterView> {
        seq![
            spec_parameter("low_limit"@, ValueKind::Float, spec_finite_f64()),
            spec_parameter("high_limit"@, ValueKind::Float, spec_finite_f64()),
            spec_parameter("hysteresis"@, ValueKind::Float, spec_nonnegative_f64()),
        ]
    }

    /// The block's description.
    pub open spec fn description(self) -> ComponentView {
        spec_component(
            self.name,
            AlarmMonitor::KIND@,
            self.requirements(),
            self.roles(),
            self.parameters(),
        )
    }

    /// The alarm as a field.
    pub open spec fn captured(self) -> Map<Seq<char>, Value> {
        Map::empty().insert("state"@, Value::Int(self.state.spec_code()))
    }

    /// The monitor with a checkpoint taken over, or the checkpoint's
    /// refusal.
    pub open spec fn restored(
        self,
        keys: Seq<Seq<char>>,
        fields: Map<Seq<char>, Value>,
    ) -> Result<AlarmView, StateErrorView> {
        match known_fields(keys, self.name, seq!["state"@]) {
            Err(error) => Err(error),
            Ok(_) => match int_field(fields, self.name, "state"@) {
                Err(error) => Err(error),
                Ok(code) => match Alarm::spec_decode(code as int) {
                    None => Err(spec_invalid_value(self.name, "state"@, Value::Int(code))),
                    Some(state) => Ok(AlarmView { state, ..self }),
                },
            },
        }
    }
}

impl AlarmMonitor {
    /// The kind a plant model selects this block by.
    pub const KIND: &'static str = "alarm-monitor";

    /// Builds a monitor, or tells why it cannot be built.
    pub fn new(name: &str, input: PointId, alarm: PointId, limits: AlarmLimits) -> (r: Result<
        AlarmMonitor,
        ParameterError,
    >)
        ensures
            match r {
                Ok(block) => block@.wf() && spec_new(name@, input, alarm, limits) == Ok::<
                    AlarmView,
                    ParameterErrorView,
                >(block@),
                Err(error) => spec_new(name@, input, alarm, limits) == Err::<
                    AlarmView,
                    ParameterErrorView,
                >(error@),
            },
    {
        if !limits.low.is_finite() {
            return Err(params::invalid(name, "low_limit", "must be finite"));
        }
        if !limits.high.is_finite() {
            return Err(params::invalid(name, "high_limit", "must be finite"));
        }
        if !limits.hysteresis.is_finite() {
            return Err(params::invalid(name, "hysteresis", "must be finite"));
        }
        if limits.high.at_most(limits.low) {
            return Err(
                params::invalid(name, "high_limit", "limits require low_limit < high_limit"),
            );
        }
        if limits.hysteresis.less_than(Float::zero()) {
            return Err(params::invalid(name, "hysteresis", "must be non-negative"));
        }
        Ok(AlarmMonitor { name: name.to_owned(), input, alarm, limits, state: Alarm::Clear })
    }

    /// Builds a monitor from the parameters of a plant model. The hysteresis
    /// is optional and zero by default.
    pub fn from_parameters(
        name: &str,
        input: PointId,
        alarm: PointId,
        parameters: &Parameters,
    ) -> (r: Result<AlarmMonitor, ParameterError>)
        ensures
            match r {
                Ok(block) => block@.wf() && spec_from_parameters(
                    name@,
                    input,
                    alarm,
                    parameters@,
                ) == Ok::<AlarmView, ParameterErrorView>(block@),
                Err(error) => spec_from_parameters(name@, input, alarm, parameters@) == Err::<
                    AlarmView,
                    ParameterErrorView,
                >(error@),
            },
    {
        let low = params::required_f64(name, parameters, "low_limit")?;
        let high = params::required_f64(name, parameters, "high_limit")?;
        let hysteresis = match params::optional_f64(name, parameters, "hysteresis")? {
            Some(hysteresis) => hysteresis,
            None => Float::zero(),
        };
        AlarmMonitor::new(name, input, alarm, AlarmLimits { low, high, hysteresis })
    }

    /// The block's name.
    pub fn name(&self) -> (r: &str)
        ensures
            r@ == self@.name,
    {
        self.name.as_str()
    }

    /// The declared ports.
    pub fn io_requirements(&self) -> (r: Vec<IoRequirement>)
        ensures
            requirement_views(r@) == self@.requirements(),
    {
        let mut r: Vec<IoRequirement> = Vec::new();
        r.push(describe::input("in", ValueKind::Float, self.input));
        r.push(describe::output("alarm", ValueKind::Bool, self.alarm));
        assert(requirement_views(r@) == self@.requirements());
        r
    }

    /// The limits.
    pub fn limits(&self) -> (r: AlarmLimits)
        ensures
            r == self@.limits,
    {
        self.limits
    }

    /// Runs one scan on what `in` reads. `clear_high` is the high limit less
    /// the hysteresis, `clear_low` the low limit plus it.
    pub fn step(
        &mut self,
        reading: Reading<Float>,
        clear_high: Float,
        clear_low: Float,
        tick: Tick,
    ) -> (r: Write)
        ensures
            final(self)@ == old(self)@.after(reading.value, clear_high, clear_low),
            r == old(self)@.driven(reading, clear_high, clear_low, tick),
    {
        let value = reading.value;
        let quality = if value.is_nan() {
            reading.quality.merge(Quality::Bad(QualityReason::DeviceFault))
        } else {
            if self.state == Alarm::High && clear_high.at_most(value) {
                self.state = Alarm::High;
            } else if self.state == Alarm::Low && value.at_most(clear_low) {
                self.state = Alarm::Low;
            } else if self.limits.high.at_most(value) {
                self.state = Alarm::High;
            } else if value.at_most(self.limits.low) {
                self.state = Alarm::Low;
            } else {
                self.state = Alarm::Clear;
            }
            reading.quality
        };
        Write::new(self.alarm, Value::Bool(self.state != Alarm::Clear), quality, tick)
    }

    /// Describes the block.
    pub fn describe(&self) -> (r: ComponentDescriptor)
        ensures
            r@ == self@.description(),
    {
        let mut roles: Vec<RoleHint> = Vec::new();
        roles.push(describe::hint("in", PortRole::ProcessValue));
        roles.push(describe::hint("alarm", PortRole::Status));
        assert(role_views(roles@) == self@.roles());
        let mut parameters: Vec<ParameterDescriptor> = Vec::new();
        parameters.push(
            describe::parameter("low_limit", ValueKind::Float, Some(describe::finite_f64())),
        );
        parameters.push(
            describe::parameter("high_limit", ValueKind::Float, Some(describe::finite_f64())),
        );
        parameters.push(
            describe::parameter("hysteresis", ValueKind::Float, Some(describe::nonnegative_f64())),
        );
        assert(parameter_views(parameters@) == self@.parameters());
        proof {
            describe::parallel_hints(self@.requirements(), self@.roles());
        }
        describe::component(
            self.name.as_str(),
            AlarmMonitor::KIND,
            &self.io_requirements(),
            &roles,
            parameters,
        )
    }

    /// Captures which limit holds the alarm.
    pub fn capture_state(&self) -> (r: StateMap)
        ensures
            r@ == self@.captured(),
    {
        let mut r = StateMap::new();
        r.insert("state", Value::Int(self.state.code()));
        r
    }

    /// Takes over a checkpoint. A refused one leaves the monitor as it was.
    pub fn restore_state(&mut self, state: &StateMap) -> (r: Result<(), StateError>)
        ensures
            match r {
                Ok(_) => old(self)@.restored(state.keys(), state@) == Ok::<
                    AlarmView,
                    StateErrorView,
                >(final(self)@),
                Err(error) => old(self)@.restored(state.keys(), state@) == Err::<
                    AlarmView,
                    StateErrorView,
                >(error@) && final(self)@ == old(self)@,
            },
    {
        let mut known: Vec<String> = Vec::new();
        known.push("state".to_owned());
        assert(text::views(known@) == seq!["state"@]);
        state.ensure_known_fields(self.name.as_str(), &known)?;
        let code: i64 = state.require_i64(self.name.as_str(), "state")?;
        match Alarm::decode(code) {
            Some(alarm) => {
                self.state = alarm;
                Ok(())
            },
            None => Err(table::invalid_value(self.name.as_str(), "state", Value::Int(code))),
        }
    }
}

/// Every alarm code names the alarm it was taken from, and no other code
/// names one.
pub proof fn alarm_codes_read_back(alarm: Alarm, code: i64)
    ensures
        Alarm::spec_decode(alarm.spec_code() as int) == Some(alarm),
        Alarm::spec_decode(code as int) matches Some(named) ==> named.spec_code() == code,
{
}

/// A clear alarm trips exactly where the input reaches a limit.
pub proof fn clear_alarm_trips_at_the_limits(
    monitor: AlarmView,
    value: Float,
    clear_high: Float,
    clear_low: Float,
)
    requires
        monitor.wf(),
        monitor.state == Alarm::Clear,
        !value.nan(),
    ensures
        ({
            let judged = monitor.judged(value, clear_high, clear_low);
            &&& judged == Alarm::High <==> monitor.limits.high.le(value)
            &&& judged == Alarm::Low <==> value.le(monitor.limits.low)
        }),
{
}

/// A tripped alarm stays while its input is within the hysteresis, and ends
/// once it has strictly passed it: it is clear, or on the other side.
pub proof fn tripped_alarm_waits_for_the_hysteresis(
    monitor: AlarmView,
    value: Float,
    clear_high: Float,
    clear_low: Float,
)
    requires
        monitor.wf(),
        !value.nan(),
        clear_high.le(monitor.limits.high),
        monitor.limits.low.le(clear_low),
    ensures
        ({
            let judged = monitor.judged(value, clear_high, clear_low);
            &&& monitor.state == Alarm::High ==> (judged == Alarm::High <==> clear_high.le(value))
            &&& monitor.state == Alarm::Low ==> (judged == Alarm::Low <==> value.le(clear_low))
        }),
{
}

/// An input that goes from beyond one limit to beyond the other moves the
/// alarm over in one scan, as long as the hysteresis does not reach across
/// to the other limit.
pub proof fn plunges_move_the_alarm_over(
    monitor: AlarmView,
    value: Float,
    clear_high: Float,
    clear_low: Float,
)
    requires
        monitor.wf(),
        monitor.limits.low.lt(clear_high),
        clear_low.lt(monitor.limits.high),
    ensures
        ({
            let judged = monitor.judged(value, clear_high, clear_low);
            &&& monitor.state == Alarm::High && value.le(monitor.limits.low) ==> judged
                == Alarm::Low
            &&& monitor.state == Alarm::Low && monitor.limits.high.le(value) ==> judged
                == Alarm::High
        }),
{
}

/// A NaN leaves the alarm as it is and marks the output.
pub proof fn nan_holds_the_alarm(
    monitor: AlarmView,
    reading: Reading<Float>,
    clear_high: Float,
    clear_low: Float,
    tick: Tick,
)
    requires
        reading.value.nan(),
    ensures
        monitor.after(reading.value, clear_high, clear_low) == monitor,
        monitor.driven(reading, clear_high, clear_low, tick).sample.quality
            == Quality::Bad(QualityReason::DeviceFault),
{
}

/// The limits are checked whatever the quality, and the output carries the
/// input's.
pub proof fn degraded_inputs_are_judged(
    monitor: AlarmView,
    value: Float,
    quality: Quality,
    clear_high: Float,
    clear_low: Float,
    tick: Tick,
)
    requires
        !value.nan(),
    ensures
        ({
            let driven = monitor.driven(Reading { value, quality }, clear_high, clear_low, tick);
            &&& driven.sample.quality == quality
            &&& driven.sample.value == Value::Bool(
                monitor.judged(value, clear_high, clear_low) != Alarm::Clear,
            )
        }),
{
}

/// Building reads exactly the described parameters: whatever else is
/// declared makes no difference, without a limit nothing is built, and
/// without a hysteresis there is none.
pub proof fn building_reads_the_described(
    monitor: AlarmView,
    a: Map<Seq<char>, Value>,
    b: Map<Seq<char>, Value>,
)
    ensures
        ({
            let described = monitor.description().parameters;
            let from_a = spec_from_parameters(monitor.name, monitor.input, monitor.alarm, a);
            let from_b = spec_from_parameters(monitor.name, monitor.input, monitor.alarm, b);
            &&& agree_on(described, a, b) ==> from_a == from_b
            &&& field(a, "low_limit"@) is None || field(a, "high_limit"@) is None ==> from_a is Err
            &&& field(a, "hysteresis"@) is None ==> (from_a matches Ok(built)
                ==> built.limits.hysteresis == Float::spec_zero())
        }),
{
    let described = monitor.description().parameters;
    assert(described[0].name == "low_limit"@);
    assert(described[1].name == "high_limit"@);
    assert(described[2].name == "hysteresis"@);
}

/// A monitor that takes over a checkpoint has the captured alarm.
pub proof fn monitor_checkpoint_round_trip(
    monitor: AlarmView,
    standby: AlarmView,
    checkpoint: Table,
)
    requires
        checkpoint@ == monitor.captured(),
    ensures
        standby.restored(checkpoint.keys(), checkpoint@) == Ok::<AlarmView, StateErrorView>(
            AlarmView { state: monitor.state, ..standby },
        ),
{
    assert(seq!["state"@][0] == "state"@);
    known_names_pass(checkpoint, standby.name, seq!["state"@]);
}

/// Where an input puts the alarm. A NaN leaves it. A high alarm stands at and
/// above the high limit less the hysteresis, a low one at and below the low
/// limit plus it. Otherwise an input at or above the high limit is a high alarm,
/// one at or below the low limit a low one, and one between them none.
pub proof fn inputs_place_the_alarm(
    monitor: AlarmView,
    value: Float,
    clear_high: Float,
    clear_low: Float,
)
    requires
        monitor.wf(),
    ensures
        ({
            let next = monitor.after(value, clear_high, clear_low).state;
            let stays = (monitor.state is High && clear_high.le(value)) || (monitor.state is Low
                && value.le(clear_low));
            &&& value.nan() || stays ==> next == monitor.state
            &&& !value.nan() && !stays && monitor.limits.high.le(value) ==> next is High
            &&& !value.nan() && !stays && value.le(monitor.limits.low) ==> next is Low
            &&& !value.nan() && !stays && monitor.limits.low.lt(value) && value.lt(
                monitor.limits.high,
            ) ==> next is Clear
            &&& monitor.after(value, clear_high, clear_low) == (AlarmView {
                state: next,
                ..monitor
            })
        }),
{
}

/// Every scan drives `alarm`, as of this scan: asserted while a limit holds it,
/// with the quality of the input, or a device fault where the input is a NaN.
pub proof fn scans_drive_the_alarm(
    monitor: AlarmView,
    reading: Reading<Float>,
    clear_high: Float,
    clear_low: Float,
    tick: Tick,
)
    ensures
        ({
            let driven = monitor.driven(reading, clear_high, clear_low, tick);
            let after = monitor.after(reading.value, clear_high, clear_low);
            &&& driven.point == monitor.alarm && driven.sample.tick == tick
            &&& driven.sample.value == Value::Bool(after.state is High || after.state is Low)
            &&& !reading.value.nan() ==> driven.sample.quality == reading.quality
            &&& reading.value.nan() ==> driven.sample.quality == Quality::Bad(
                QualityReason::DeviceFault,
            )
        }),
{
}

/// A monitor is built exactly where both limits are declared and finite, the low
/// one below the high one, and the hysteresis, zero where it is not declared, is
/// finite and not below zero. It runs under them with no alarm.
pub proof fn building_takes_the_declared(
    name: Seq<char>,
    input: PointId,
    alarm: PointId,
    parameters: Map<Seq<char>, Value>,
)
    ensures
        ({
            let built = spec_from_parameters(name, input, alarm, parameters);
            let low = spec_required_f64(name, parameters, "low_limit"@);
            let high = spec_required_f64(name, parameters, "high_limit"@);
            let read = spec_optional_f64(name, parameters, "hysteresis"@);
            let hysteresis = match read->Ok_0 {
                Some(declared) => declared,
                None => Float { bits: 0 },
            };
            &&& built is Ok <==> {
                &&& low is Ok && low->Ok_0.finite() && high is Ok && high->Ok_0.finite()
                &&& low->Ok_0.lt(high->Ok_0)
                &&& read is Ok && hysteresis.finite() && (Float { bits: 0 }).le(hysteresis)
            }
            &&& built is Ok ==> {
                let monitor = built->Ok_0;
                &&& monitor.name == name && monitor.input == input && monitor.alarm == alarm
                &&& monitor.limits.low == low->Ok_0 && monitor.limits.high == high->Ok_0
                &&& monitor.limits.hysteresis == hysteresis && monitor.state is Clear
            }
            &&& low is Err ==> built == Err::<AlarmView, ParameterErrorView>(low->Err_0)
            &&& low is Ok && high is Err ==> built == Err::<AlarmView, ParameterErrorView>(
                high->Err_0,
            )
            &&& low is Ok && high is Ok && read is Err ==> built == Err::<
                AlarmView,
                ParameterErrorView,
            >(read->Err_0)
        }),
{
}

/// A refused build names the limit at fault: the first that is not finite, then
/// a pair that is not in order, then a hysteresis below zero.
pub proof fn refused_builds_name_the_limit(
    name: Seq<char>,
    input: PointId,
    alarm: PointId,
    limits: AlarmLimits,
)
    ensures
        ({
            let built = spec_new(name, input, alarm, limits);
            let refused = |parameter: Seq<char>, detail: Seq<char>|
                built == Err::<AlarmView, ParameterErrorView>(
                    ParameterErrorView::Invalid { component: name, parameter, detail },
                );
            let (low, high, hysteresis) = (limits.low, limits.high, limits.hysteresis);
            let finite = low.finite() && high.finite() && hysteresis.finite();
            &&& !low.finite() ==> refused("low_limit"@, "must be finite"@)
            &&& low.finite() && !high.finite() ==> refused("high_limit"@, "must be finite"@)
            &&& low.finite() && high.finite() && !hysteresis.finite() ==> refused(
                "hysteresis"@,
                "must be finite"@,
            )
            &&& finite && high.le(low) ==> refused(
                "high_limit"@,
                "limits require low_limit < high_limit"@,
            )
            &&& finite && low.lt(high) && hysteresis.lt((Float { bits: 0 })) ==> refused(
                "hysteresis"@,
                "must be non-negative"@,
            )
        }),
{
}

/// A checkpoint holds the code of the alarm, 0 for none, 1 for a high and 2 for a
/// low one, and nothing else; it is taken over exactly where it holds such a code
/// and no other name.
pub proof fn checkpoints_hold_the_alarm(
    monitor: AlarmView,
    keys: Seq<Seq<char>>,
    fields: Map<Seq<char>, Value>,
)
    ensures
        ({
            let restored = monitor.restored(keys, fields);
            let code = int_field(fields, monitor.name, "state"@);
            &&& monitor.captured().dom() == set!["state"@]
            &&& monitor.captured()["state"@] == Value::Int(
                match monitor.state {
                    Alarm::Clear => 0,
                    Alarm::High => 1,
                    Alarm::Low => 2,
                },
            )
            &&& restored is Ok <==> known_fields(keys, monitor.name, seq!["state"@]) is Ok && code
                is Ok && 0 <= code->Ok_0 <= 2
            &&& restored is Ok ==> {
                let state = restored->Ok_0.state;
                &&& restored->Ok_0 == (AlarmView { state, ..monitor })
                &&& state is Clear <==> code->Ok_0 == 0
                &&& state is High <==> code->Ok_0 == 1
                &&& state is Low <==> code->Ok_0 == 2
            }
        }),
{
    assert(monitor.captured().dom() =~= set!["state"@]);
}

/// The block is described under its own name and the kind it is selected by,
/// with its ports in this order, each wired to its point, and with these
/// parameters and bounds.
pub proof fn wiring_is_described(monitor: AlarmView)
    ensures
        ({
            let described = monitor.description();
            let wired = monitor.requirements();
            &&& described.name == monitor.name && described.label == monitor.name
            &&& described.kind == "alarm-monitor"@
            &&& wired.len() == 2 && described.ports.len() == 2
            &&& described.parameters.len() == 3
            &&& described.ports[0] == (describe::PortView {
                name: "in"@,
                direction: describe::Direction::In,
                kind: ValueKind::Float,
                role: Some(PortRole::ProcessValue),
                point: None,
            })
            &&& wired[0].name == "in"@ && wired[0].point == monitor.input
            &&& described.ports[1] == (describe::PortView {
                name: "alarm"@,
                direction: describe::Direction::Out,
                kind: ValueKind::Bool,
                role: Some(PortRole::Status),
                point: None,
            })
            &&& wired[1].name == "alarm"@ && wired[1].point == monitor.alarm
            &&& described.parameters[0] == (describe::ParameterView {
                name: "low_limit"@,
                kind: ValueKind::Float,
                range: Some(
                    describe::ParameterRange {
                        min: Value::Float(Float { bits: 0xffef_ffff_ffff_ffff }),
                        max: Value::Float(Float { bits: 0x7fef_ffff_ffff_ffff }),
                    },
                ),
            })
            &&& described.parameters[1] == (describe::ParameterView {
                name: "high_limit"@,
                kind: ValueKind::Float,
                range: Some(
                    describe::ParameterRange {
                        min: Value::Float(Float { bits: 0xffef_ffff_ffff_ffff }),
                        max: Value::Float(Float { bits: 0x7fef_ffff_ffff_ffff }),
                    },
                ),
            })
            &&& described.parameters[2] == (describe::ParameterView {
                name: "hysteresis"@,
                kind: ValueKind::Float,
                range: Some(
                    describe::ParameterRange {
                        min: Value::Float(Float { bits: 0 }),
                        max: Value::Float(Float { bits: 0x7fef_ffff_ffff_ffff }),
                    },
                ),
            })
        }),
{
    reveal_strlit("in");
    reveal_strlit("alarm");
    assert("in"@.len() == 2);
    assert("alarm"@.len() == 5);
    let wired = monitor.requirements();
    let roles = monitor.roles();
    let parameters = monitor.description().parameters;
    describe::ports_are_described_as_declared(
        monitor.name,
        "alarm-monitor"@,
        wired,
        roles,
        parameters,
        0,
        0,
    );
    describe::ports_are_described_as_declared(
        monitor.name,
        "alarm-monitor"@,
        wired,
        roles,
        parameters,
        1,
        1,
    );
}

} // verus!
