//! Expected against measured consumption, compared over a window of scans.

use crate::describe::{
    self, agree_on, describes_parameter, parameter_views, requirement_views, role_views,
    spec_component, spec_input, spec_nonnegative_f64, spec_output, spec_parameter,
    spec_positive_int, ComponentDescriptor, ComponentView, IoRequirement, ParameterDescriptor,
    ParameterView, PortRole, RequirementView, RoleHint,
};
use crate::float::{
    order_is_numeric, patterns_step_by_the_last_place, signs_mirror_the_value, Float, SIGN,
};
use crate::params::{
    self, spec_invalid, spec_invalid_parameter, spec_required_f64, spec_required_u64, spec_tune_f64,
    spec_tune_u64, spec_unknown_parameter, CommandError, CommandErrorView, ParameterError,
    ParameterErrorView, Parameters,
};
use crate::table::{
    self, bool_field, field, float_field, int_field, known_fields, known_names_pass,
    spec_invalid_value, StateError, StateErrorView, StateMap, Table,
};
use crate::text::{self, decimal};
use crate::value::{
    merge_is_worst_of, merged_quality, pair_quality, pairs_carry_the_worse_quality, PointId,
    Quality, QualityReason, Reading, Tick, Value, ValueKind, Write,
};
use vstd::prelude::*;

verus! {

/// What a window has accumulated.
#[derive(Debug, Clone, Copy, PartialEq, Eq, Structural)]
pub struct WindowSums {
    pub expected: Float,
    pub measured: Float,
}

impl WindowSums {
    /// An empty window.
    pub open spec fn spec_empty() -> WindowSums {
        WindowSums { expected: Float::spec_zero(), measured: Float::spec_zero() }
    }

    /// Whether both sums are finite.
    pub open spec fn finite(self) -> bool {
        self.expected.finite() && self.measured.finite()
    }

    /// Whether both sums are zero.
    pub open spec fn zero(self) -> bool {
        self.expected.same(Float::spec_zero()) && self.measured.same(Float::spec_zero())
    }

    /// Whether `quotient` can be the relative deviation of the sums: the
    /// quotient of finite sums, the divisor not zero, is no NaN.
    pub open spec fn divided(self, quotient: Float) -> bool {
        self.finite() && !self.expected.same(Float::spec_zero()) ==> !quotient.nan()
    }

    fn empty() -> (r: WindowSums)
        ensures
            r == WindowSums::spec_empty(),
    {
        WindowSums { expected: Float::zero(), measured: Float::zero() }
    }

    fn is_finite(&self) -> (r: bool)
        ensures
            r == self.finite(),
    {
        self.expected.is_finite() && self.measured.is_finite()
    }
}

/// The largest finite double, or its negation.
pub open spec fn spec_saturated(negative: bool) -> Float {
    if negative {
        Float { bits: (SIGN + describe::LARGEST) as u64 }
    } else {
        Float { bits: describe::LARGEST }
    }
}

/// The relative deviation of a window, given the quotient of the difference
/// of its sums by the expected one. Where there is no finite quotient it is
/// the largest double of the right sign; a window that expected nothing and
/// measured nothing does not deviate.
pub open spec fn spec_relative_deviation(sums: WindowSums, quotient: Float) -> Float {
    if sums.expected.same(Float::spec_zero()) {
        if sums.measured.same(Float::spec_zero()) {
            Float::spec_zero()
        } else {
            spec_saturated(sums.measured.negative())
        }
    } else if quotient.finite() {
        quotient
    } else {
        spec_saturated(quotient.negative())
    }
}

fn saturated(negative: bool) -> (r: Float)
    ensures
        r == spec_saturated(negative),
        r.finite(),
{
    if negative {
        Float::from_bits(SIGN + describe::LARGEST)
    } else {
        Float::from_bits(describe::LARGEST)
    }
}

/// The relative deviation of a window, given the quotient of the difference
/// of its sums by the expected one.
pub fn relative_deviation(sums: WindowSums, quotient: Float) -> (r: Float)
    requires
        sums.divided(quotient),
    ensures
        r == spec_relative_deviation(sums, quotient),
        r.finite(),
{
    if sums.expected.equals(Float::zero()) {
        if sums.measured.equals(Float::zero()) {
            Float::zero()
        } else {
            saturated(sums.measured.to_bits() >= SIGN)
        }
    } else if quotient.is_finite() {
        quotient
    } else {
        saturated(quotient.to_bits() >= SIGN)
    }
}

/// The points of a [`DeviationMonitor`].
#[derive(Debug, Clone, Copy, PartialEq, Eq, Structural)]
pub struct DeviationIo {
    /// `expected`: what was commanded.
    pub expected: PointId,
    /// `measured`: what was consumed.
    pub measured: PointId,
    /// `deviation`: the last closed window's relative deviation.
    pub deviation: PointId,
    /// `deviating`: it exceeds the limit.
    pub deviating: PointId,
}

/// A deviation monitor. Every scan in which both inputs read finite and
/// trusted is banked: its values are added to the window's sums. The scan
/// that fills the window closes it: the relative deviation
/// `(measured - expected) / expected` of its sums becomes the verdict,
/// `deviating` tells whether its magnitude exceeds `deviation_limit`, and an
/// empty window opens. Between two closings both outputs hold the verdict;
/// before the first one it is zero.
///
/// A scan with an untrusted or non-finite input banks nothing, and neither
/// does one whose sums would not be finite. Both outputs carry the worst of
/// the inputs' qualities, where a value or a sum that is not finite counts as
/// a device fault.
///
/// The sums and the quotient are floating-point arithmetic, which the caller
/// does: one scan is [`sums`](DeviationMonitor::sums), the additions, the
/// quotient, and [`step`](DeviationMonitor::step).
#[derive(Debug)]
pub struct DeviationMonitor {
    name: String,
    io: DeviationIo,
    deviation_limit: Float,
    window_ticks: u64,
    sums: WindowSums,
    window_position: u64,
    deviation: Float,
    deviating: bool,
}

/// What a [`DeviationMonitor`] is.
#[verifier::ext_equal]
pub struct MonitorView {
    pub name: Seq<char>,
    pub io: DeviationIo,
    /// The magnitude that a deviation may have.
    pub deviation_limit: Float,
    /// How many banked scans fill a window.
    pub window_ticks: u64,
    /// What the open window has accumulated.
    pub sums: WindowSums,
    /// How many scans it has banked.
    pub window_position: u64,
    /// The verdict's relative deviation.
    pub deviation: Float,
    /// Whether it exceeds the limit.
    pub deviating: bool,
}

impl View for DeviationMonitor {
    type V = MonitorView;

    closed spec fn view(&self) -> MonitorView {
        MonitorView {
            name: self.name@,
            io: self.io,
            deviation_limit: self.deviation_limit,
            window_ticks: self.window_ticks,
            sums: self.sums,
            window_position: self.window_position,
            deviation: self.deviation,
            deviating: self.deviating,
        }
    }
}

/// The first setting that a monitor cannot run under, and why.
pub open spec fn config_error(
    name: Seq<char>,
    deviation_limit: Float,
    window_ticks: u64,
) -> Option<ParameterErrorView> {
    if !deviation_limit.finite() {
        Some(spec_invalid(name, "deviation_limit"@, "must be finite"@))
    } else if deviation_limit.lt(Float::spec_zero()) {
        Some(spec_invalid(name, "deviation_limit"@, "must be non-negative"@))
    } else if window_ticks == 0 {
        Some(spec_invalid(name, "window_ticks"@, "must be at least 1"@))
    } else if window_ticks > i64::MAX {
        Some(
            spec_invalid(
                name,
                "window_ticks"@,
                "must not exceed i64::MAX, found "@ + decimal(window_ticks as nat),
            ),
        )
    } else {
        None
    }
}

/// The monitor with the given parts, or why it cannot be built.
pub open spec fn spec_new(
    name: Seq<char>,
    io: DeviationIo,
    deviation_limit: Float,
    window_ticks: u64,
) -> Result<MonitorView, ParameterErrorView> {
    match config_error(name, deviation_limit, window_ticks) {
        Some(error) => Err(error),
        None => Ok(
            MonitorView {
                name,
                io,
                deviation_limit,
                window_ticks,
                sums: WindowSums::spec_empty(),
                window_position: 0,
                deviation: Float::spec_zero(),
                deviating: false,
            },
        ),
    }
}

/// The monitor that the parameters declare.
pub open spec fn spec_from_parameters(
    name: Seq<char>,
    io: DeviationIo,
    parameters: Map<Seq<char>, Value>,
) -> Result<MonitorView, ParameterErrorView> {
    match spec_required_f64(name, parameters, "deviation_limit"@) {
        Err(error) => Err(error),
        Ok(deviation_limit) => match spec_required_u64(name, parameters, "window_ticks"@) {
            Err(error) => Err(error),
            Ok(window_ticks) => spec_new(name, io, deviation_limit, window_ticks),
        },
    }
}

/// The names that a checkpoint holds.
pub open spec fn known_names() -> Seq<Seq<char>> {
    seq![
        "deviation_limit"@,
        "window_ticks"@,
        "expected_sum"@,
        "measured_sum"@,
        "window_position"@,
        "deviation"@,
        "deviating"@,
    ]
}

/// The fields of a checkpoint, each of its kind.
pub struct MonitorFields {
    pub deviation_limit: Float,
    pub window_ticks: i64,
    pub sums: WindowSums,
    pub window_position: i64,
    pub deviation: Float,
    pub deviating: bool,
}

/// The fields that a checkpoint carries, whatever their values.
pub open spec fn read_fields(fields: Map<Seq<char>, Value>, name: Seq<char>) -> Result<
    MonitorFields,
    StateErrorView,
> {
    match float_field(fields, name, "deviation_limit"@) {
        Err(error) => Err(error),
        Ok(deviation_limit) => match int_field(fields, name, "window_ticks"@) {
            Err(error) => Err(error),
            Ok(window_ticks) => match float_field(fields, name, "expected_sum"@) {
                Err(error) => Err(error),
                Ok(expected) => match float_field(fields, name, "measured_sum"@) {
                    Err(error) => Err(error),
                    Ok(measured) => match int_field(fields, name, "window_position"@) {
                        Err(error) => Err(error),
                        Ok(window_position) => match float_field(fields, name, "deviation"@) {
                            Err(error) => Err(error),
                            Ok(deviation) => match bool_field(fields, name, "deviating"@) {
                                Err(error) => Err(error),
                                Ok(deviating) => Ok(
                                    MonitorFields {
                                        deviation_limit,
                                        window_ticks,
                                        sums: WindowSums { expected, measured },
                                        window_position,
                                        deviation,
                                        deviating,
                                    },
                                ),
                            },
                        },
                    },
                },
            },
        },
    }
}

impl MonitorFields {
    /// The first value that a monitor cannot hold. A position past the
    /// window needs something banked: a retune may have shortened a window
    /// that was already filled further.
    pub open spec fn flaw(self) -> Option<(Seq<char>, Value)> {
        if !self.deviation_limit.nonnegative() {
            Some(("deviation_limit"@, Value::Float(self.deviation_limit)))
        } else if self.window_ticks < 1 {
            Some(("window_ticks"@, Value::Int(self.window_ticks)))
        } else if !self.sums.expected.finite() {
            Some(("expected_sum"@, Value::Float(self.sums.expected)))
        } else if !self.sums.measured.finite() {
            Some(("measured_sum"@, Value::Float(self.sums.measured)))
        } else if !self.deviation.finite() {
            Some(("deviation"@, Value::Float(self.deviation)))
        } else if !(0 <= self.window_position < i64::MAX) || (self.window_position
            >= self.window_ticks && self.sums.zero()) {
            Some(("window_position"@, Value::Int(self.window_position)))
        } else if self.window_position == 0 && !self.sums.zero() {
            Some(("expected_sum"@, Value::Float(self.sums.expected)))
        } else {
            None
        }
    }
}

impl MonitorView {
    /// The invariant: the settings can be run under, everything held is
    /// finite, and an empty window has zero sums.
    pub open spec fn wf(self) -> bool {
        &&& config_error(self.name, self.deviation_limit, self.window_ticks) is None
        &&& self.sums.finite()
        &&& self.window_position < i64::MAX
        &&& self.window_position == 0 ==> self.sums.zero()
        &&& self.deviation.finite()
    }

    /// Whether a scan is banked, given what the sums would be.
    pub open spec fn banks(
        self,
        expected: Reading<Float>,
        measured: Reading<Float>,
        banked: WindowSums,
    ) -> bool {
        expected.usable() && measured.usable() && banked.finite()
    }

    /// The monitor after a scan, given what the sums would be and the
    /// quotient of their difference by the expected one.
    pub open spec fn after(
        self,
        expected: Reading<Float>,
        measured: Reading<Float>,
        banked: WindowSums,
        quotient: Float,
    ) -> MonitorView {
        if !self.banks(expected, measured, banked) {
            self
        } else if self.window_position + 1 < self.window_ticks {
            MonitorView {
                sums: banked,
                window_position: (self.window_position + 1) as u64,
                ..self
            }
        } else {
            let deviation = spec_relative_deviation(banked, quotient);
            MonitorView {
                sums: WindowSums::spec_empty(),
                window_position: 0,
                deviation,
                deviating: self.deviation_limit.lt(deviation.absolute()),
                ..self
            }
        }
    }

    /// The quality of both outputs.
    pub open spec fn quality(
        self,
        expected: Reading<Float>,
        measured: Reading<Float>,
        banked: WindowSums,
    ) -> Quality {
        let merged = pair_quality(expected, measured);
        if expected.usable() && measured.usable() && !banked.finite() {
            merged.spec_merge(Quality::Bad(QualityReason::DeviceFault))
        } else {
            merged
        }
    }

    /// What the monitor drives in a scan, in order.
    pub open spec fn writes(
        self,
        expected: Reading<Float>,
        measured: Reading<Float>,
        banked: WindowSums,
        quotient: Float,
        tick: Tick,
    ) -> Seq<Write> {
        let after = self.after(expected, measured, banked, quotient);
        let quality = self.quality(expected, measured, banked);
        seq![
            Write::of(self.io.deviation, Value::Float(after.deviation), quality, tick),
            Write::of(self.io.deviating, Value::Bool(after.deviating), quality, tick),
        ]
    }

    /// The declared ports.
    pub open spec fn requirements(self) -> Seq<RequirementView> {
        seq![
            spec_input("expected"@, ValueKind::Float, self.io.expected),
            spec_input("measured"@, ValueKind::Float, self.io.measured),
            spec_output("deviation"@, ValueKind::Float, self.io.deviation),
            spec_output("deviating"@, ValueKind::Bool, self.io.deviating),
        ]
    }

    /// The roles of the ports.
    pub open spec fn roles(self) -> Seq<(Seq<char>, PortRole)> {
        seq![
            ("expected"@, PortRole::ProcessValue),
            ("measured"@, PortRole::ProcessValue),
            ("deviation"@, PortRole::Output),
            ("deviating"@, PortRole::Status),
        ]
    }

    /// The declared parameters.
    pub open spec fn parameters(self) -> Seq<ParameterView> {
        seq![
            spec_parameter("deviation_limit"@, ValueKind::Float, spec_nonnegative_f64()),
            spec_parameter("window_ticks"@, ValueKind::Int, spec_positive_int()),
        ]
    }

    /// The block's description.
    pub open spec fn description(self) -> ComponentView {
        spec_component(
            self.name,
            DeviationMonitor::KIND@,
            self.requirements(),
            self.roles(),
            self.parameters(),
        )
    }

    /// The monitor after a retune, or its refusal. The open window is kept.
    pub open spec fn tuned(self, parameter: Seq<char>, value: Value) -> Result<
        MonitorView,
        CommandErrorView,
    > {
        if parameter == "deviation_limit"@ {
            match spec_tune_f64(self.name, parameter, value) {
                Err(error) => Err(error),
                Ok(deviation_limit) => if deviation_limit.nonnegative() {
                    Ok(MonitorView { deviation_limit, ..self })
                } else {
                    Err(
                        spec_invalid_parameter(
                            self.name,
                            parameter,
                            "must be finite and non-negative"@,
                        ),
                    )
                },
            }
        } else if parameter == "window_ticks"@ {
            match spec_tune_u64(self.name, parameter, value) {
                Err(error) => Err(error),
                Ok(window_ticks) => if 1 <= window_ticks <= i64::MAX {
                    Ok(MonitorView { window_ticks, ..self })
                } else {
                    Err(spec_invalid_parameter(self.name, parameter, "must be in 1..=i64::MAX"@))
                },
            }
        } else {
            Err(spec_unknown_parameter(self.name, parameter))
        }
    }

    /// The tuning as fields.
    pub open spec fn reported(self) -> Map<Seq<char>, Value> {
        Map::empty().insert("deviation_limit"@, Value::Float(self.deviation_limit)).insert(
            "window_ticks"@,
            Value::Int(self.window_ticks as i64),
        )
    }

    /// The tuning, the open window and the verdict as fields.
    pub open spec fn captured(self) -> Map<Seq<char>, Value> {
        self.reported().insert("expected_sum"@, Value::Float(self.sums.expected)).insert(
            "measured_sum"@,
            Value::Float(self.sums.measured),
        ).insert("window_position"@, Value::Int(self.window_position as i64)).insert(
            "deviation"@,
            Value::Float(self.deviation),
        ).insert("deviating"@, Value::Bool(self.deviating))
    }

    /// The monitor with a checkpoint taken over, or the checkpoint's
    /// refusal.
    pub open spec fn restored(
        self,
        keys: Seq<Seq<char>>,
        fields: Map<Seq<char>, Value>,
    ) -> Result<MonitorView, StateErrorView> {
        match known_fields(keys, self.name, known_names()) {
            Err(error) => Err(error),
            Ok(_) => match read_fields(fields, self.name) {
                Err(error) => Err(error),
                Ok(read) => match read.flaw() {
                    Some((key, value)) => Err(spec_invalid_value(self.name, key, value)),
                    None => Ok(
                        MonitorView {
                            deviation_limit: read.deviation_limit,
                            window_ticks: read.window_ticks as u64,
                            sums: read.sums,
                            window_position: read.window_position as u64,
                            deviation: read.deviation,
                            deviating: read.deviating,
                            ..self
                        },
                    ),
                },
            },
        }
    }
}

impl DeviationMonitor {
    /// The kind a plant model selects this block by.
    pub const KIND: &'static str = "deviation-monitor";

    /// Builds a monitor, or tells why it cannot be built.
    pub fn new(
        name: &str,
        expected: PointId,
        measured: PointId,
        deviation: PointId,
        deviating: PointId,
        deviation_limit: Float,
        window_ticks: u64,
    ) -> (r: Result<DeviationMonitor, ParameterError>)
        ensures
            match r {
                Ok(block) => block@.wf() && spec_new(
                    name@,
                    (DeviationIo { expected, measured, deviation, deviating }),
                    deviation_limit,
                    window_ticks,
                ) == Ok::<MonitorView, ParameterErrorView>(block@),
                Err(error) => spec_new(
                    name@,
                    (DeviationIo { expected, measured, deviation, deviating }),
                    deviation_limit,
                    window_ticks,
                ) == Err::<MonitorView, ParameterErrorView>(error@),
            },
    {
        if !deviation_limit.is_finite() {
            return Err(params::invalid(name, "deviation_limit", "must be finite"));
        }
        if deviation_limit.less_than(Float::zero()) {
            return Err(params::invalid(name, "deviation_limit", "must be non-negative"));
        }
        if window_ticks == 0 {
            return Err(params::invalid(name, "window_ticks", "must be at least 1"));
        }
        if window_ticks > i64::MAX as u64 {
            return Err(
                params::invalid(
                    name,
                    "window_ticks",
                    text::numbered("must not exceed i64::MAX, found ", window_ticks).as_str(),
                ),
            );
        }
        Ok(
            DeviationMonitor {
                name: name.to_owned(),
                io: DeviationIo { expected, measured, deviation, deviating },
                deviation_limit,
                window_ticks,
                sums: WindowSums::empty(),
                window_position: 0,
                deviation: Float::zero(),
                deviating: false,
            },
        )
    }

    /// Builds a monitor from the parameters of a plant model.
    pub fn from_parameters(
        name: &str,
        expected: PointId,
        measured: PointId,
        deviation: PointId,
        deviating: PointId,
        parameters: &Parameters,
    ) -> (r: Result<DeviationMonitor, ParameterError>)
        ensures
            match r {
                Ok(block) => block@.wf() && spec_from_parameters(
                    name@,
                    (DeviationIo { expected, measured, deviation, deviating }),
                    parameters@,
                ) == Ok::<MonitorView, ParameterErrorView>(block@),
                Err(error) => spec_from_parameters(
                    name@,
                    (DeviationIo { expected, measured, deviation, deviating }),
                    parameters@,
                ) == Err::<MonitorView, ParameterErrorView>(error@),
            },
    {
        let deviation_limit = params::required_f64(name, parameters, "deviation_limit")?;
        let window_ticks: u64 = params::required_u64(name, parameters, "window_ticks")?;
        DeviationMonitor::new(
            name,
            expected,
            measured,
            deviation,
            deviating,
            deviation_limit,
            window_ticks,
        )
    }

    /// The block's name.
    pub fn name(&self) -> (r: &str)
        ensures
            r@ == self@.name,
    {
        self.name.as_str()
    }

    /// The declared ports.
    pub fn io_requirements(&self) -> (r: Vec<IoRequirement>)
        ensures
            requirement_views(r@) == self@.requirements(),
    {
        let mut r: Vec<IoRequirement> = Vec::new();
        r.push(describe::input("expected", ValueKind::Float, self.io.expected));
        r.push(describe::input("measured", ValueKind::Float, self.io.measured));
        r.push(describe::output("deviation", ValueKind::Float, self.io.deviation));
        r.push(describe::output("deviating", ValueKind::Bool, self.io.deviating));
        assert(requirement_views(r@) == self@.requirements());
        r
    }

    /// What the open window has accumulated.
    pub fn sums(&self) -> (r: WindowSums)
        requires
            self@.wf(),
        ensures
            r == self@.sums,
            r.finite(),
    {
        self.sums
    }

    /// Runs one scan on what `expected` and `measured` read. `banked` is the
    /// open window's sums with the two values added, `quotient` the
    /// difference of the banked sums, measured less expected, divided by the
    /// expected one.
    pub fn step(
        &mut self,
        expected: Reading<Float>,
        measured: Reading<Float>,
        banked: WindowSums,
        quotient: Float,
        tick: Tick,
    ) -> (r: Vec<Write>)
        requires
            old(self)@.wf(),
            banked.divided(quotient),
        ensures
            final(self)@ == old(self)@.after(expected, measured, banked, quotient),
            final(self)@.wf(),
            r@ == old(self)@.writes(expected, measured, banked, quotient, tick),
    {
        let mut quality = merged_quality(expected, measured);
        if expected.is_usable() && measured.is_usable() {
            if banked.is_finite() {
                if self.window_position + 1 < self.window_ticks {
                    self.sums = banked;
                    self.window_position = self.window_position + 1;
                } else {
                    self.deviation = relative_deviation(banked, quotient);
                    self.deviating = self.deviation_limit.less_than(self.deviation.abs());
                    self.sums = WindowSums::empty();
                    self.window_position = 0;
                }
            } else {
                quality = quality.merge(Quality::Bad(QualityReason::DeviceFault));
            }
        }
        let mut r: Vec<Write> = Vec::new();
        r.push(Write::new(self.io.deviation, Value::Float(self.deviation), quality, tick));
        r.push(Write::new(self.io.deviating, Value::Bool(self.deviating), quality, tick));
        r
    }

    /// Describes the block.
    pub fn describe(&self) -> (r: ComponentDescriptor)
        ensures
            r@ == self@.description(),
    {
        let mut roles: Vec<RoleHint> = Vec::new();
        roles.push(describe::hint("expected", PortRole::ProcessValue));
        roles.push(describe::hint("measured", PortRole::ProcessValue));
        roles.push(describe::hint("deviation", PortRole::Output));
        roles.push(describe::hint("deviating", PortRole::Status));
        assert(role_views(roles@) == self@.roles());
        let mut parameters: Vec<ParameterDescriptor> = Vec::new();
        parameters.push(
            describe::parameter(
                "deviation_limit",
                ValueKind::Float,
                Some(describe::nonnegative_f64()),
            ),
        );
        parameters.push(
            describe::parameter("window_ticks", ValueKind::Int, Some(describe::positive_int())),
        );
        assert(parameter_views(parameters@) == self@.parameters());
        proof {
            describe::parallel_hints(self@.requirements(), self@.roles());
        }
        describe::component(
            self.name.as_str(),
            DeviationMonitor::KIND,
            &self.io_requirements(),
            &roles,
            parameters,
        )
    }

    /// Retunes one declared parameter at the scan boundary. The open window
    /// keeps what it has banked: a shortened one closes at the next banked
    /// scan, a lengthened one goes on. A refused value changes nothing.
    pub fn apply_parameter(&mut self, parameter: &str, value: Value) -> (r: Result<
        (),
        CommandError,
    >)
        requires
            old(self)@.wf(),
        ensures
            final(self)@.wf(),
            match r {
                Ok(_) => old(self)@.tuned(parameter@, value) == Ok::<MonitorView, CommandErrorView>(
                    final(self)@,
                ),
                Err(error) => old(self)@.tuned(parameter@, value) == Err::<
                    MonitorView,
                    CommandErrorView,
                >(error@) && final(self)@ == old(self)@,
            },
    {
        if text::same(parameter, "deviation_limit") {
            let tuned = params::tune_f64(self.name.as_str(), parameter, value)?;
            if !tuned.is_nonnegative() {
                return Err(
                    params::invalid_parameter(
                        self.name.as_str(),
                        parameter,
                        "must be finite and non-negative",
                    ),
                );
            }
            self.deviation_limit = tuned;
        } else if text::same(parameter, "window_ticks") {
            let tuned: u64 = params::tune_u64(self.name.as_str(), parameter, value)?;
            if tuned == 0 || tuned > i64::MAX as u64 {
                return Err(
                    params::invalid_parameter(
                        self.name.as_str(),
                        parameter,
                        "must be in 1..=i64::MAX",
                    ),
                );
            }
            self.window_ticks = tuned;
        } else {
            return Err(params::unknown_parameter(self.name.as_str(), parameter));
        }
        Ok(())
    }

    /// Reports the tuning under the names that a checkpoint uses.
    pub fn report_parameters(&self) -> (r: StateMap)
        ensures
            r@ == self@.reported(),
    {
        let mut r = StateMap::new();
        r.insert("deviation_limit", Value::Float(self.deviation_limit));
        r.insert("window_ticks", Value::Int(self.window_ticks as i64));
        r
    }

    /// Captures the tuning, the open window and the verdict, so that a
    /// standby continues a half-filled window.
    pub fn capture_state(&self) -> (r: StateMap)
        ensures
            r@ == self@.captured(),
    {
        let mut r = self.report_parameters();
        r.insert("expected_sum", Value::Float(self.sums.expected));
        r.insert("measured_sum", Value::Float(self.sums.measured));
        r.insert("window_position", Value::Int(self.window_position as i64));
        r.insert("deviation", Value::Float(self.deviation));
        r.insert("deviating", Value::Bool(self.deviating));
        r
    }

    /// Takes over a checkpoint. The whole checkpoint is read before anything
    /// changes, so a refused one leaves the monitor as it was.
    pub fn restore_state(&mut self, state: &StateMap) -> (r: Result<(), StateError>)
        requires
            old(self)@.wf(),
        ensures
            final(self)@.wf(),
            match r {
                Ok(_) => old(self)@.restored(state.keys(), state@) == Ok::<
                    MonitorView,
                    StateErrorView,
                >(final(self)@),
                Err(error) => old(self)@.restored(state.keys(), state@) == Err::<
                    MonitorView,
                    StateErrorView,
                >(error@) && final(self)@ == old(self)@,
            },
    {
        let mut known: Vec<String> = Vec::new();
        known.push("deviation_limit".to_owned());
        known.push("window_ticks".to_owned());
        known.push("expected_sum".to_owned());
        known.push("measured_sum".to_owned());
        known.push("window_position".to_owned());
        known.push("deviation".to_owned());
        known.push("deviating".to_owned());
        assert(text::views(known@) == known_names());
        let name = self.name.as_str();
        state.ensure_known_fields(name, &known)?;
        let deviation_limit = state.require_f64(name, "deviation_limit")?;
        let window_ticks: i64 = state.require_i64(name, "window_ticks")?;
        let expected = state.require_f64(name, "expected_sum")?;
        let measured = state.require_f64(name, "measured_sum")?;
        let window_position: i64 = state.require_i64(name, "window_position")?;
        let deviation = state.require_f64(name, "deviation")?;
        let deviating = state.require_bool(name, "deviating")?;
        let ghost read = MonitorFields {
            deviation_limit,
            window_ticks,
            sums: WindowSums { expected, measured },
            window_position,
            deviation,
            deviating,
        };
        assert(read_fields(state@, self@.name) == Ok::<MonitorFields, StateErrorView>(read));
        if !deviation_limit.is_nonnegative() {
            return Err(
                table::invalid_value(name, "deviation_limit", Value::Float(deviation_limit)),
            );
        }
        if window_ticks < 1 {
            return Err(table::invalid_value(name, "window_ticks", Value::Int(window_ticks)));
        }
        if !expected.is_finite() {
            return Err(table::invalid_value(name, "expected_sum", Value::Float(expected)));
        }
        if !measured.is_finite() {
            return Err(table::invalid_value(name, "measured_sum", Value::Float(measured)));
        }
        if !deviation.is_finite() {
            return Err(table::invalid_value(name, "deviation", Value::Float(deviation)));
        }
        let empty = expected.equals(Float::zero()) && measured.equals(Float::zero());
        if window_position < 0 || window_position == i64::MAX || (window_position >= window_ticks
            && empty) {
            return Err(
                table::invalid_value(name, "window_position", Value::Int(window_position)),
            );
        }
        if window_position == 0 && !empty {
            return Err(table::invalid_value(name, "expected_sum", Value::Float(expected)));
        }
        self.deviation_limit = deviation_limit;
        self.window_ticks = window_ticks as u64;
        self.sums = WindowSums { expected, measured };
        self.window_position = window_position as u64;
        self.deviation = deviation;
        self.deviating = deviating;
        Ok(())
    }
}

/// A scan with an untrusted or non-finite input, or whose sums would not be
/// finite, changes nothing: the window does not move and the verdict stands.
/// The outputs are marked.
pub proof fn untrusted_scans_freeze_the_window(
    monitor: MonitorView,
    expected: Reading<Float>,
    measured: Reading<Float>,
    banked: WindowSums,
    quotient: Float,
    tick: Tick,
)
    requires
        !expected.usable() || !measured.usable() || !banked.finite(),
    ensures
        monitor.after(expected, measured, banked, quotient) == monitor,
        monitor.writes(expected, measured, banked, quotient, tick)[0].sample.quality
            != Quality::Good,
        monitor.writes(expected, measured, banked, quotient, tick)[1].sample.quality
            != Quality::Good,
{
    merge_is_worst_of(expected.quality, measured.quality);
}

/// One banked scan: what its inputs read, what the sums became, and the
/// quotient.
pub struct BankedScan {
    pub expected: Reading<Float>,
    pub measured: Reading<Float>,
    pub banked: WindowSums,
    pub quotient: Float,
}

impl BankedScan {
    /// Whether the scan is one that is banked.
    pub open spec fn trusted(self) -> bool {
        self.expected.usable() && self.measured.usable() && self.banked.finite()
    }
}

/// The monitor after some scans.
pub open spec fn after_all(monitor: MonitorView, scans: Seq<BankedScan>) -> MonitorView
    decreases scans.len(),
{
    if scans.len() == 0 {
        monitor
    } else {
        let scan = scans.last();
        after_all(monitor, scans.drop_last()).after(
            scan.expected,
            scan.measured,
            scan.banked,
            scan.quotient,
        )
    }
}

/// The verdict is a window quantity: from an empty window it stands through
/// all but the last of `window_ticks` banked scans, whatever they read, and
/// the last one replaces it by the deviation of the whole window's sums.
pub proof fn windows_close_on_time(monitor: MonitorView, scans: Seq<BankedScan>)
    requires
        monitor.wf(),
        monitor.window_position == 0,
        scans.len() <= monitor.window_ticks,
        forall|i: int| 0 <= i < scans.len() ==> (#[trigger] scans[i]).trusted(),
    ensures
        ({
            let after = after_all(monitor, scans);
            &&& scans.len() < monitor.window_ticks ==> after.window_position == scans.len()
                && after.deviation == monitor.deviation && after.deviating == monitor.deviating
            &&& 0 < scans.len() < monitor.window_ticks ==> after.sums == scans.last().banked
            &&& scans.len() == monitor.window_ticks ==> {
                let verdict = spec_relative_deviation(
                    scans.last().banked,
                    scans.last().quotient,
                );
                &&& after.deviation == verdict
                &&& after.deviating == monitor.deviation_limit.lt(verdict.absolute())
                &&& after.window_position == 0
                &&& after.sums == WindowSums::spec_empty()
            }
        }),
    decreases scans.len(),
{
    lemma_window(monitor, scans);
}

proof fn lemma_window(monitor: MonitorView, scans: Seq<BankedScan>)
    requires
        monitor.wf(),
        monitor.window_position == 0,
        scans.len() <= monitor.window_ticks,
        forall|i: int| 0 <= i < scans.len() ==> (#[trigger] scans[i]).trusted(),
    ensures
        ({
            let after = after_all(monitor, scans);
            &&& after.window_ticks == monitor.window_ticks
            &&& after.deviation_limit == monitor.deviation_limit
            &&& scans.len() < monitor.window_ticks ==> after.window_position == scans.len()
                && after.deviation == monitor.deviation && after.deviating == monitor.deviating
            &&& 0 < scans.len() < monitor.window_ticks ==> after.sums == scans.last().banked
            &&& scans.len() == monitor.window_ticks ==> {
                let verdict = spec_relative_deviation(
                    scans.last().banked,
                    scans.last().quotient,
                );
                &&& after.deviation == verdict
                &&& after.deviating == monitor.deviation_limit.lt(verdict.absolute())
                &&& after.window_position == 0
                &&& after.sums == WindowSums::spec_empty()
            }
        }),
    decreases scans.len(),
{
    if scans.len() > 0 {
        let earlier = scans.drop_last();
        assert forall|i: int| 0 <= i < earlier.len() implies (#[trigger] earlier[i]).trusted() by {
            assert(earlier[i] == scans[i]);
        }
        lemma_window(monitor, earlier);
        assert(scans[scans.len() - 1].trusted());
    }
}

/// A window of one scan gives a verdict on every banked scan.
pub proof fn window_of_one_is_instantaneous(monitor: MonitorView, scan: BankedScan)
    requires
        monitor.window_ticks == 1,
        scan.trusted(),
    ensures
        monitor.after(scan.expected, scan.measured, scan.banked, scan.quotient).deviation
            == spec_relative_deviation(scan.banked, scan.quotient),
{
}

/// A window that is filled to its end, or past it where a retune has shortened
/// it, closes at the next banked scan.
pub proof fn filled_windows_close_at_once(monitor: MonitorView, scan: BankedScan)
    requires
        monitor.wf(),
        monitor.window_position + 1 >= monitor.window_ticks,
        scan.trusted(),
    ensures
        ({
            let after = monitor.after(scan.expected, scan.measured, scan.banked, scan.quotient);
            &&& after.window_position == 0 && after.sums == WindowSums::spec_empty()
            &&& after.deviation == spec_relative_deviation(scan.banked, scan.quotient)
        }),
{
}

/// Consumption against a window that expected nothing trips every limit
/// below the largest double; a window that expected and measured nothing
/// trips none.
pub proof fn unexpected_consumption_trips(
    monitor: MonitorView,
    expected: Reading<Float>,
    measured: Reading<Float>,
    banked: WindowSums,
    quotient: Float,
)
    requires
        monitor.wf(),
        monitor.window_position + 1 >= monitor.window_ticks,
        expected.usable(),
        measured.usable(),
        banked.finite(),
        banked.expected.same(Float::spec_zero()),
    ensures
        ({
            let after = monitor.after(expected, measured, banked, quotient);
            &&& !banked.measured.same(Float::spec_zero()) && monitor.deviation_limit.lt(
                spec_saturated(false),
            ) ==> after.deviating
            &&& banked.measured.same(Float::spec_zero()) ==> !after.deviating
                && after.deviation == Float::spec_zero()
        }),
{
}

/// A verdict keeps the sign: over-delivery is positive, under-delivery
/// negative, also where it saturates.
pub proof fn saturation_keeps_the_sign(sums: WindowSums, quotient: Float)
    requires
        !sums.expected.same(Float::spec_zero()),
    ensures
        spec_relative_deviation(sums, quotient).negative() == quotient.negative(),
{
}

/// A retune of the window keeps what the open one has banked.
pub proof fn retunes_keep_the_window(monitor: MonitorView, parameter: Seq<char>, value: Value)
    ensures
        monitor.tuned(parameter, value) matches Ok::<MonitorView, CommandErrorView>(tuned)
            ==> tuned.sums == monitor.sums && tuned.window_position == monitor.window_position
            && tuned.deviation == monitor.deviation && tuned.deviating == monitor.deviating,
{
}

/// Building reads exactly the described parameters: whatever else is
/// declared makes no difference, and without one of them nothing is built.
pub proof fn building_reads_the_described(
    monitor: MonitorView,
    a: Map<Seq<char>, Value>,
    b: Map<Seq<char>, Value>,
    i: int,
)
    ensures
        ({
            let described = monitor.description().parameters;
            let from_a = spec_from_parameters(monitor.name, monitor.io, a);
            let from_b = spec_from_parameters(monitor.name, monitor.io, b);
            &&& agree_on(described, a, b) ==> from_a == from_b
            &&& 0 <= i < described.len() && field(a, described[i].name) is None ==> from_a is Err
        }),
{
    let described = monitor.description().parameters;
    assert(described[0].name == "deviation_limit"@);
    assert(described[1].name == "window_ticks"@);
}

/// Exactly the described parameters can be retuned: any other name is
/// refused as unknown.
pub proof fn tuning_takes_the_described(monitor: MonitorView, parameter: Seq<char>, value: Value)
    ensures
        ({
            let unknown = spec_unknown_parameter(monitor.name, parameter);
            let refused = Err::<MonitorView, CommandErrorView>(unknown);
            let described = monitor.description().parameters;
            describes_parameter(described, parameter) <==> monitor.tuned(parameter, value)
                != refused
        }),
{
    let described = monitor.description().parameters;
    assert(described[0].name == "deviation_limit"@);
    assert(described[1].name == "window_ticks"@);
}

/// A monitor that takes over a checkpoint continues where the captured one
/// stood, past the end of a shortened window too, unless a window so filled
/// has banked only zeros.
pub proof fn monitor_checkpoint_round_trip(
    monitor: MonitorView,
    standby: MonitorView,
    checkpoint: Table,
)
    requires
        monitor.wf(),
        monitor.window_position < monitor.window_ticks || !monitor.sums.zero(),
        checkpoint@ == monitor.captured(),
    ensures
        standby.restored(checkpoint.keys(), checkpoint@) == Ok::<MonitorView, StateErrorView>(
            MonitorView { name: standby.name, io: standby.io, ..monitor },
        ),
{
    lemma_distinct_names();
    let names = known_names();
    assert(names[0] == "deviation_limit"@ && names[1] == "window_ticks"@);
    assert(names[2] == "expected_sum"@ && names[3] == "measured_sum"@);
    assert(names[4] == "window_position"@ && names[5] == "deviation"@);
    assert(names[6] == "deviating"@);
    known_names_pass(checkpoint, standby.name, names);
}

proof fn lemma_distinct_names()
    ensures
        known_names().no_duplicates(),
{
    reveal_strlit("deviation_limit");
    reveal_strlit("window_ticks");
    reveal_strlit("expected_sum");
    reveal_strlit("measured_sum");
    reveal_strlit("window_position");
    reveal_strlit("deviation");
    reveal_strlit("deviating");
    assert("deviation_limit"@[0] != "window_position"@[0]);
    assert("window_ticks"@[0] != "expected_sum"@[0]);
    assert("window_ticks"@[0] != "measured_sum"@[0]);
    assert("expected_sum"@[0] != "measured_sum"@[0]);
    assert("deviation"@[7] != "deviating"@[7]);
    let names = known_names();
    assert forall|i: int, j: int| 0 <= i < j < 7 implies #[trigger] names[i]
        != #[trigger] names[j] by {
        assert(names[i].len() == names[j].len() ==> names[i] != names[j]);
    }
}

/// The deviation of a window that expected something is the quotient itself,
/// whatever its size, as long as it is finite; beyond that it is the largest
/// double with the quotient's sign. A window that expected nothing deviates by
/// the largest double with the sign of what it measured, and not at all where
/// it measured nothing either.
pub proof fn deviation_is_the_quotient(sums: WindowSums, quotient: Float)
    requires
        sums.expected.finite(),
        sums.measured.finite(),
    ensures
        ({
            let deviation = spec_relative_deviation(sums, quotient);
            let expected = sums.expected.scaled();
            let measured = sums.measured.scaled();
            let largest = Float { bits: 0x7fef_ffff_ffff_ffff };
            let least = Float { bits: 0xffef_ffff_ffff_ffff };
            &&& expected != 0 && quotient.finite() ==> deviation == quotient
            &&& expected != 0 && !quotient.finite() && quotient.bits < 0x8000_0000_0000_0000
                ==> deviation == largest
            &&& expected != 0 && !quotient.finite() && quotient.bits >= 0x8000_0000_0000_0000
                ==> deviation == least
            &&& expected == 0 && measured > 0 ==> deviation == largest
            &&& expected == 0 && measured < 0 ==> deviation == least
            &&& expected == 0 && measured == 0 ==> deviation == (Float { bits: 0 })
            &&& deviation.finite()
        }),
{
    order_is_numeric(sums.expected, Float::spec_zero());
    order_is_numeric(sums.measured, Float::spec_zero());
    patterns_step_by_the_last_place(0);
    signs_mirror_the_value(sums.measured);
}

/// A scan that is banked and fills the window closes it: the verdict is the
/// deviation of its sums, where those expected something and the quotient is
/// finite that quotient itself; it deviates exactly where its distance from
/// zero is above the limit, and an empty window opens.
pub proof fn closing_scans_give_the_verdict(
    monitor: MonitorView,
    expected: Reading<Float>,
    measured: Reading<Float>,
    banked: WindowSums,
    quotient: Float,
    tick: Tick,
)
    requires
        monitor.wf(),
        monitor.window_position + 1 >= monitor.window_ticks,
        expected.quality == Quality::Good && expected.value.finite(),
        measured.quality == Quality::Good && measured.value.finite(),
        banked.expected.finite() && banked.measured.finite(),
    ensures
        ({
            let after = monitor.after(expected, measured, banked, quotient);
            let writes = monitor.writes(expected, measured, banked, quotient, tick);
            let off = after.deviation.scaled();
            let limit = monitor.deviation_limit.scaled();
            &&& banked.expected.scaled() != 0 && quotient.finite() ==> after.deviation == quotient
            &&& after.deviation == spec_relative_deviation(banked, quotient)
            &&& after.deviating <==> off > limit || -off > limit
            &&& after.window_position == 0
            &&& after.sums.expected.bits == 0 && after.sums.measured.bits == 0
            &&& writes[0].sample.value == Value::Float(after.deviation)
            &&& writes[1].sample.value == Value::Bool(off > limit || -off > limit)
        }),
{
    deviation_is_the_quotient(banked, quotient);
    let deviation = spec_relative_deviation(banked, quotient);
    signs_mirror_the_value(deviation);
    order_is_numeric(monitor.deviation_limit, deviation.absolute());
}

/// A scan that is banked without filling the window moves it one scan on with
/// the new sums, and the verdict stands.
pub proof fn banked_scans_move_the_window(
    monitor: MonitorView,
    expected: Reading<Float>,
    measured: Reading<Float>,
    banked: WindowSums,
    quotient: Float,
    tick: Tick,
)
    requires
        monitor.window_position + 1 < monitor.window_ticks,
        expected.quality == Quality::Good && expected.value.finite(),
        measured.quality == Quality::Good && measured.value.finite(),
        banked.expected.finite() && banked.measured.finite(),
    ensures
        ({
            let after = monitor.after(expected, measured, banked, quotient);
            &&& after.window_position == monitor.window_position + 1
            &&& after.sums == banked
            &&& after.deviation == monitor.deviation && after.deviating == monitor.deviating
        }),
{
}

/// A scan with an input that is not trusted or not finite, or whose sums would
/// not be finite, leaves the window and the verdict as they are. No scan
/// changes the settings or the wiring.
pub proof fn unbanked_scans_change_nothing(
    monitor: MonitorView,
    expected: Reading<Float>,
    measured: Reading<Float>,
    banked: WindowSums,
    quotient: Float,
)
    ensures
        ({
            let after = monitor.after(expected, measured, banked, quotient);
            &&& expected.quality != Quality::Good || !expected.value.finite() ==> after == monitor
            &&& measured.quality != Quality::Good || !measured.value.finite() ==> after == monitor
            &&& !banked.expected.finite() || !banked.measured.finite() ==> after == monitor
            &&& after.deviation_limit == monitor.deviation_limit
            &&& after.window_ticks == monitor.window_ticks
            &&& after.name == monitor.name && after.io == monitor.io
        }),
{
}

/// Every scan drives `deviation` and `deviating` with the verdict, in this
/// order, as of this scan and with one quality: a device fault where a value is
/// not finite, or where two trusted values leave a sum that is not, and
/// otherwise that of the worse input.
pub proof fn scans_drive_the_verdict(
    monitor: MonitorView,
    expected: Reading<Float>,
    measured: Reading<Float>,
    banked: WindowSums,
    quotient: Float,
    tick: Tick,
)
    ensures
        ({
            let writes = monitor.writes(expected, measured, banked, quotient, tick);
            let after = monitor.after(expected, measured, banked, quotient);
            let quality = writes[0].sample.quality;
            let finite = expected.value.finite() && measured.value.finite();
            let trusted = expected.quality is Good && measured.quality is Good;
            let summed = banked.expected.finite() && banked.measured.finite();
            &&& writes.len() == 2
            &&& writes[0].point == monitor.io.deviation && writes[0].sample.tick == tick
            &&& writes[1].point == monitor.io.deviating && writes[1].sample.tick == tick
            &&& writes[0].sample.value == Value::Float(after.deviation)
            &&& writes[1].sample.value == Value::Bool(after.deviating)
            &&& writes[1].sample.quality == quality
            &&& !finite ==> quality == Quality::Bad(QualityReason::DeviceFault)
            &&& finite && trusted && summed ==> quality == Quality::Good
            &&& finite && trusted && !summed ==> quality == Quality::Bad(
                QualityReason::DeviceFault,
            )
            &&& finite && expected.quality is Good && !trusted ==> quality == measured.quality
            &&& finite && measured.quality is Good && !trusted ==> quality == expected.quality
            &&& finite && measured.quality is Bad ==> quality == measured.quality
            &&& finite && expected.quality is Bad && !(measured.quality is Bad) ==> quality
                == expected.quality
        }),
{
    pairs_carry_the_worse_quality(expected, measured);
}

/// A monitor is built exactly where the limit is finite and not below zero and
/// the window is from one to the largest `i64`; it runs under the declared
/// values, with an empty window and a verdict of zero.
pub proof fn building_takes_the_declared(
    name: Seq<char>,
    io: DeviationIo,
    parameters: Map<Seq<char>, Value>,
)
    ensures
        ({
            let built = spec_from_parameters(name, io, parameters);
            let limit = spec_required_f64(name, parameters, "deviation_limit"@);
            let ticks = spec_required_u64(name, parameters, "window_ticks"@);
            &&& built is Ok <==> limit is Ok && ticks is Ok && limit->Ok_0.finite() && (Float {
                bits: 0,
            }).le(limit->Ok_0) && 1 <= ticks->Ok_0 <= i64::MAX
            &&& limit is Err ==> built == Err::<MonitorView, ParameterErrorView>(limit->Err_0)
            &&& limit is Ok && ticks is Err ==> built == Err::<MonitorView, ParameterErrorView>(
                ticks->Err_0,
            )
            &&& built is Ok ==> {
                let monitor = built->Ok_0;
                &&& monitor.name == name && monitor.io == io
                &&& monitor.deviation_limit == limit->Ok_0 && monitor.window_ticks == ticks->Ok_0
                &&& monitor.window_position == 0
                &&& monitor.sums.expected.bits == 0 && monitor.sums.measured.bits == 0
                &&& monitor.deviation.bits == 0 && !monitor.deviating
                &&& monitor.wf()
            }
        }),
{
}

/// A refused build names the setting at fault, the limit before the window.
pub proof fn refused_builds_name_the_setting(
    name: Seq<char>,
    io: DeviationIo,
    deviation_limit: Float,
    window_ticks: u64,
)
    ensures
        ({
            let built = spec_new(name, io, deviation_limit, window_ticks);
            let below = deviation_limit.lt((Float { bits: 0 }));
            &&& !deviation_limit.finite() ==> built == Err::<MonitorView, ParameterErrorView>(
                ParameterErrorView::Invalid {
                    component: name,
                    parameter: "deviation_limit"@,
                    detail: "must be finite"@,
                },
            )
            &&& deviation_limit.finite() && below ==> built == Err::<
                MonitorView,
                ParameterErrorView,
            >(
                ParameterErrorView::Invalid {
                    component: name,
                    parameter: "deviation_limit"@,
                    detail: "must be non-negative"@,
                },
            )
            &&& deviation_limit.finite() && !below && window_ticks == 0 ==> built == Err::<
                MonitorView,
                ParameterErrorView,
            >(
                ParameterErrorView::Invalid {
                    component: name,
                    parameter: "window_ticks"@,
                    detail: "must be at least 1"@,
                },
            )
            &&& deviation_limit.finite() && !below && window_ticks > i64::MAX ==> {
                &&& built matches Err(ParameterErrorView::Invalid { component, parameter, .. })
                &&& component == name && parameter == "window_ticks"@
            }
        }),
{
}

/// A retune sets the named setting to the given value and nothing else: a limit
/// that is finite and not below zero, or a window from one to the largest
/// `i64`. Anything else is refused.
pub proof fn retunes_set_the_named_setting(monitor: MonitorView, value: Value)
    ensures
        ({
            let limit = spec_tune_f64(monitor.name, "deviation_limit"@, value);
            let tuned = monitor.tuned("deviation_limit"@, value);
            &&& tuned is Ok <==> limit is Ok && limit->Ok_0.finite() && (Float { bits: 0 }).le(
                limit->Ok_0,
            )
            &&& tuned is Ok ==> tuned->Ok_0.deviation_limit == limit->Ok_0
                && tuned->Ok_0.window_ticks == monitor.window_ticks
        }),
        ({
            let ticks = spec_tune_u64(monitor.name, "window_ticks"@, value);
            let tuned = monitor.tuned("window_ticks"@, value);
            &&& tuned is Ok <==> ticks is Ok && 1 <= ticks->Ok_0 <= i64::MAX
            &&& tuned is Ok ==> tuned->Ok_0.window_ticks == ticks->Ok_0
                && tuned->Ok_0.deviation_limit == monitor.deviation_limit
        }),
{
    reveal_strlit("deviation_limit");
    reveal_strlit("window_ticks");
    assert("deviation_limit"@.len() == 15);
    assert("window_ticks"@.len() == 12);
}

/// A report holds the two settings under their names; a checkpoint holds them
/// with the open window and the verdict.
pub proof fn checkpoints_hold_the_whole_state(monitor: MonitorView)
    requires
        monitor.wf(),
    ensures
        ({
            let captured = monitor.captured();
            let reported = monitor.reported();
            &&& reported.dom() == set!["deviation_limit"@, "window_ticks"@]
            &&& reported["deviation_limit"@] == Value::Float(monitor.deviation_limit)
            &&& reported["window_ticks"@] == Value::Int(monitor.window_ticks as i64)
            &&& captured["deviation_limit"@] == reported["deviation_limit"@]
            &&& captured["window_ticks"@] == reported["window_ticks"@]
            &&& captured["expected_sum"@] == Value::Float(monitor.sums.expected)
            &&& captured["measured_sum"@] == Value::Float(monitor.sums.measured)
            &&& captured["window_position"@] == Value::Int(monitor.window_position as i64)
            &&& captured["deviation"@] == Value::Float(monitor.deviation)
            &&& captured["deviating"@] == Value::Bool(monitor.deviating)
            &&& captured.dom() == set![
                "deviation_limit"@,
                "window_ticks"@,
                "expected_sum"@,
                "measured_sum"@,
                "window_position"@,
                "deviation"@,
                "deviating"@,
            ]
        }),
{
    reveal_strlit("deviation_limit");
    reveal_strlit("window_ticks");
    reveal_strlit("expected_sum");
    reveal_strlit("measured_sum");
    reveal_strlit("window_position");
    reveal_strlit("deviation");
    reveal_strlit("deviating");
    assert("deviation_limit"@.len() == 15);
    assert("window_ticks"@.len() == 12);
    assert("expected_sum"@.len() == 12);
    assert("measured_sum"@.len() == 12);
    assert("window_position"@.len() == 15);
    assert("deviation"@.len() == 9);
    assert("deviating"@.len() == 9);
    assert("window_ticks"@[0] != "expected_sum"@[0]);
    assert("window_ticks"@[0] != "measured_sum"@[0]);
    assert("expected_sum"@[0] != "measured_sum"@[0]);
    assert("deviation_limit"@[0] != "window_position"@[0]);
    assert("deviation"@[7] != "deviating"@[7]);
    assert(monitor.reported().dom() =~= set!["deviation_limit"@, "window_ticks"@]);
    assert(monitor.captured().dom() =~= set![
        "deviation_limit"@,
        "window_ticks"@,
        "expected_sum"@,
        "measured_sum"@,
        "window_position"@,
        "deviation"@,
        "deviating"@,
    ]);
}

/// A checkpoint is taken over exactly where it holds the seven fields and no
/// other, with settings that a monitor can be built under, finite sums and a
/// finite verdict, a position that is not negative and below the largest
/// `i64`, past the window only where something has been banked, and at zero
/// only where nothing has. The monitor then stands where the checkpoint does.
pub proof fn restores_take_what_is_held(
    monitor: MonitorView,
    keys: Seq<Seq<char>>,
    fields: Map<Seq<char>, Value>,
)
    ensures
        ({
            let restored = monitor.restored(keys, fields);
            let name = monitor.name;
            let limit = float_field(fields, name, "deviation_limit"@);
            let ticks = int_field(fields, name, "window_ticks"@);
            let expected = float_field(fields, name, "expected_sum"@);
            let measured = float_field(fields, name, "measured_sum"@);
            let position = int_field(fields, name, "window_position"@);
            let deviation = float_field(fields, name, "deviation"@);
            let deviating = bool_field(fields, name, "deviating"@);
            let known = seq![
                "deviation_limit"@,
                "window_ticks"@,
                "expected_sum"@,
                "measured_sum"@,
                "window_position"@,
                "deviation"@,
                "deviating"@,
            ];
            let empty = expected->Ok_0.scaled() == 0 && measured->Ok_0.scaled() == 0;
            &&& restored is Ok <==> {
                &&& known_fields(keys, name, known) is Ok
                &&& limit is Ok && limit->Ok_0.finite() && limit->Ok_0.scaled() >= 0
                &&& ticks is Ok && ticks->Ok_0 >= 1
                &&& expected is Ok && expected->Ok_0.finite()
                &&& measured is Ok && measured->Ok_0.finite()
                &&& position is Ok && 0 <= position->Ok_0 < i64::MAX
                &&& position->Ok_0 == 0 ==> empty
                &&& position->Ok_0 >= ticks->Ok_0 ==> !empty
                &&& deviation is Ok && deviation->Ok_0.finite()
                &&& deviating is Ok
            }
            &&& restored is Ok ==> {
                let taken = restored->Ok_0;
                &&& taken.name == name && taken.io == monitor.io
                &&& taken.deviation_limit == limit->Ok_0 && taken.window_ticks == ticks->Ok_0
                &&& taken.sums.expected == expected->Ok_0
                &&& taken.sums.measured == measured->Ok_0
                &&& taken.window_position == position->Ok_0
                &&& taken.deviation == deviation->Ok_0 && taken.deviating == deviating->Ok_0
            }
        }),
{
    let name = monitor.name;
    if let Ok(sum) = float_field(fields, name, "expected_sum"@) {
        if sum.finite() {
            order_is_numeric(sum, Float::spec_zero());
        }
    }
    if let Ok(sum) = float_field(fields, name, "measured_sum"@) {
        if sum.finite() {
            order_is_numeric(sum, Float::spec_zero());
        }
    }
    if let Ok(limit) = float_field(fields, name, "deviation_limit"@) {
        if limit.finite() {
            signs_mirror_the_value(limit);
        }
    }
    patterns_step_by_the_last_place(0);
}

/// The block is described under its own name and the kind it is selected by,
/// with its ports in this order, each wired to its point, and with these
/// parameters and bounds.
pub proof fn wiring_is_described(monitor: MonitorView)
    ensures
        ({
            let described = monitor.description();
            let wired = monitor.requirements();
            &&& described.name == monitor.name && described.label == monitor.name
            &&& described.kind == "deviation-monitor"@
            &&& wired.len() == 4 && described.ports.len() == 4
            &&& described.parameters.len() == 2
            &&& described.ports[0] == (describe::PortView {
                name: "expected"@,
                direction: describe::Direction::In,
                kind: ValueKind::Float,
                role: Some(PortRole::ProcessValue),
                point: None,
            })
            &&& wired[0].name == "expected"@ && wired[0].point == monitor.io.expected
            &&& described.ports[1] == (describe::PortView {
                name: "measured"@,
                direction: describe::Direction::In,
                kind: ValueKind::Float,
                role: Some(PortRole::ProcessValue),
                point: None,
            })
            &&& wired[1].name == "measured"@ && wired[1].point == monitor.io.measured
            &&& described.ports[2] == (describe::PortView {
                name: "deviation"@,
                direction: describe::Direction::Out,
                kind: ValueKind::Float,
                role: Some(PortRole::Output),
                point: None,
            })
            &&& wired[2].name == "deviation"@ && wired[2].point == monitor.io.deviation
            &&& described.ports[3] == (describe::PortView {
                name: "deviating"@,
                direction: describe::Direction::Out,
                kind: ValueKind::Bool,
                role: Some(PortRole::Status),
                point: None,
            })
            &&& wired[3].name == "deviating"@ && wired[3].point == monitor.io.deviating
            &&& described.parameters[0] == (describe::ParameterView {
                name: "deviation_limit"@,
                kind: ValueKind::Float,
                range: Some(
                    describe::ParameterRange {
                        min: Value::Float(Float { bits: 0 }),
                        max: Value::Float(Float { bits: 0x7fef_ffff_ffff_ffff }),
                    },
                ),
            })
            &&& described.parameters[1] == (describe::ParameterView {
                name: "window_ticks"@,
                kind: ValueKind::Int,
                range: Some(
                    describe::ParameterRange {
                        min: Value::Int(1),
                        max: Value::Int(i64::MAX),
                    },
                ),
            })
        }),
{
    reveal_strlit("expected");
    reveal_strlit("measured");
    reveal_strlit("deviation");
    reveal_strlit("deviating");
    assert("expected"@.len() == 8);
    assert("measured"@.len() == 8);
    assert("deviation"@.len() == 9);
    assert("deviating"@.len() == 9);
    assert("expected"@[0] != "measured"@[0]);
    assert("deviation"@[7] != "deviating"@[7]);
    let wired = monitor.requirements();
    let roles = monitor.roles();
    let parameters = monitor.description().parameters;
    describe::ports_are_described_as_declared(
        monitor.name,
        "deviation-monitor"@,
        wired,
        roles,
        parameters,
        0,
        0,
    );
    describe::ports_are_described_as_declared(
        monitor.name,
        "deviation-monitor"@,
        wired,
        roles,
        parameters,
        1,
        1,
    );
    describe::ports_are_described_as_declared(
        monitor.name,
        "deviation-monitor"@,
        wired,
        roles,
        parameters,
        2,
        2,
    );
    describe::ports_are_described_as_declared(
        monitor.name,
        "deviation-monitor"@,
        wired,
        roles,
        parameters,
        3,
        3,
    );
}

} // verus!
