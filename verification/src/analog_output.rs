//! An analog output: an engineering value mapped back onto a raw range.

use crate::analog_input::{
    judge_range, ranged_quality, read_scaling, scaling_from_parameters, Scaling,
};
use crate::describe::{
    self, agree_on, describes_parameter, requirement_views, role_views, spec_component, spec_input,
    spec_output, spec_scaling_parameters, ComponentDescriptor, ComponentView, IoRequirement,
    PortRole, RequirementView, RoleHint,
};
use crate::float::{clamp_holds_the_range, counts_are_the_nearest, Float};
use crate::params::{
    self, as_double, spec_invalid, spec_invalid_parameter, spec_required_f64, spec_tune_f64,
    spec_unknown_parameter, CommandError, CommandErrorView, ParameterError, ParameterErrorView,
    Parameters,
};
use crate::table::{
    self, field, float_field, known_fields, known_names_pass, spec_invalid_value, StateError,
    StateErrorView, StateMap, Table,
};
use crate::text;
use crate::value::{
    merge_is_worst_of, PointId, Quality, QualityReason, Reading, Tick, Value, ValueKind, Write,
};
use std::marker::PhantomData;
use vstd::arithmetic::power2::{lemma_pow2_pos, pow2};
use vstd::prelude::*;

verus! {

/// Closes [`RawOutput`] to the kinds of value that can be written.
pub trait Sealed {

}

impl Sealed for i64 {

}

impl Sealed for Float {

}

/// A kind of value that an [`AnalogOutput`] can write: converter counts or a
/// double.
pub trait RawOutput: Sealed + Sized {
    /// What a double is written as.
    spec fn spec_from_f64(value: Float) -> Self;

    /// The value as a point carries it.
    spec fn spec_value(self) -> Value;

    /// The kind of value.
    spec fn spec_kind() -> ValueKind;

    /// What a double is written as.
    fn from_f64(value: Float) -> (r: Self)
        ensures
            r == Self::spec_from_f64(value),
    ;

    /// The value as a point carries it.
    fn into_value(self) -> (r: Value)
        ensures
            r == self.spec_value(),
    ;

    /// The kind of value.
    fn kind() -> (r: ValueKind)
        ensures
            r == Self::spec_kind(),
    ;
}

impl RawOutput for i64 {
    /// The nearest count, held to the range of counts.
    open spec fn spec_from_f64(value: Float) -> i64 {
        value.as_count()
    }

    open spec fn spec_value(self) -> Value {
        Value::Int(self)
    }

    open spec fn spec_kind() -> ValueKind {
        ValueKind::Int
    }

    fn from_f64(value: Float) -> (r: i64) {
        value.to_count()
    }

    fn into_value(self) -> (r: Value) {
        Value::Int(self)
    }

    fn kind() -> (r: ValueKind) {
        ValueKind::Int
    }
}

impl RawOutput for Float {
    open spec fn spec_from_f64(value: Float) -> Float {
        value
    }

    open spec fn spec_value(self) -> Value {
        Value::Float(self)
    }

    open spec fn spec_kind() -> ValueKind {
        ValueKind::Float
    }

    fn from_f64(value: Float) -> (r: Float) {
        value
    }

    fn into_value(self) -> (r: Value) {
        Value::Float(self)
    }

    fn kind() -> (r: ValueKind) {
        ValueKind::Float
    }
}

/// An analog output: `eng` is held to the engineering range and mapped back
/// onto the raw range, and the result, held to the raw range once more, is
/// driven on `raw`. The output's quality is the input's, made worse where
/// the value had to be moved or is no number.
///
/// The inverse map is floating-point arithmetic, which the caller does: one
/// scan is [`operand`](AnalogOutput::operand), the map, and
/// [`step`](AnalogOutput::step).
///
/// The parameters `raw_min`, `raw_max`, `eng_min` and `eng_max` are required
/// and finite, and both ranges have a span.
#[derive(Debug)]
pub struct AnalogOutput<R: RawOutput = Float> {
    name: String,
    eng: PointId,
    raw: PointId,
    scaling: Scaling,
    marker: PhantomData<R>,
}

/// What an [`AnalogOutput`] is.
#[verifier::ext_equal]
pub struct AnalogOutputView {
    pub name: Seq<char>,
    pub eng: PointId,
    pub raw: PointId,
    pub scaling: Scaling,
}

impl<R: RawOutput> View for AnalogOutput<R> {
    type V = AnalogOutputView;

    closed spec fn view(&self) -> AnalogOutputView {
        AnalogOutputView { name: self.name@, eng: self.eng, raw: self.raw, scaling: self.scaling }
    }
}

/// The block with the given parts, or why it cannot be built.
pub open spec fn spec_new(
    name: Seq<char>,
    eng: PointId,
    raw: PointId,
    scaling: Scaling,
) -> Result<AnalogOutputView, ParameterErrorView> {
    match scaling.unbounded() {
        Some((parameter, _)) => Err(spec_invalid(name, parameter, "must be finite"@)),
        None => if scaling.eng_min.same(scaling.eng_max) {
            Err(spec_invalid(name, "eng_max"@, "engineering range must have non-zero span"@))
        } else if scaling.raw_min.same(scaling.raw_max) {
            Err(spec_invalid(name, "raw_max"@, "raw range must have non-zero span"@))
        } else {
            Ok(AnalogOutputView { name, eng, raw, scaling })
        },
    }
}

/// The block that the parameters declare.
pub open spec fn spec_from_parameters(
    name: Seq<char>,
    eng: PointId,
    raw: PointId,
    parameters: Map<Seq<char>, Value>,
) -> Result<AnalogOutputView, ParameterErrorView> {
    match read_scaling(name, parameters) {
        Err(error) => Err(error),
        Ok(scaling) => spec_new(name, eng, raw, scaling),
    }
}

/// The names that a checkpoint holds.
pub open spec fn known_names() -> Seq<Seq<char>> {
    seq!["raw_min"@, "raw_max"@, "eng_min"@, "eng_max"@]
}

/// The scaling that a checkpoint carries, whatever its bounds.
pub open spec fn restored_scaling(fields: Map<Seq<char>, Value>, name: Seq<char>) -> Result<
    Scaling,
    StateErrorView,
> {
    match float_field(fields, name, "raw_min"@) {
        Err(error) => Err(error),
        Ok(raw_min) => match float_field(fields, name, "raw_max"@) {
            Err(error) => Err(error),
            Ok(raw_max) => match float_field(fields, name, "eng_min"@) {
                Err(error) => Err(error),
                Ok(eng_min) => match float_field(fields, name, "eng_max"@) {
                    Err(error) => Err(error),
                    Ok(eng_max) => Ok(Scaling { raw_min, raw_max, eng_min, eng_max }),
                },
            },
        },
    }
}

/// A scaling with one bound replaced; no bound has another name.
pub open spec fn with_bound(scaling: Scaling, parameter: Seq<char>, bound: Float) -> Option<
    Scaling,
> {
    if parameter == "raw_min"@ {
        Some(Scaling { raw_min: bound, ..scaling })
    } else if parameter == "raw_max"@ {
        Some(Scaling { raw_max: bound, ..scaling })
    } else if parameter == "eng_min"@ {
        Some(Scaling { eng_min: bound, ..scaling })
    } else if parameter == "eng_max"@ {
        Some(Scaling { eng_max: bound, ..scaling })
    } else {
        None
    }
}

impl AnalogOutputView {
    /// The invariant: the scaling's bounds are finite and both its ranges
    /// have a span.
    pub open spec fn wf(self) -> bool {
        &&& self.scaling.unbounded() is None
        &&& !self.scaling.eng_min.same(self.scaling.eng_max)
        &&& !self.scaling.raw_min.same(self.scaling.raw_max)
    }

    /// The engineering value of a scan, held to the engineering range.
    pub open spec fn held(self, value: Float) -> Float {
        let (low, high) = self.scaling.spec_eng_bounds();
        value.clamped(low, high)
    }

    /// The raw value of a scan whose held engineering value maps to
    /// `mapped`.
    pub open spec fn raw_value(self, mapped: Float) -> Float {
        let (low, high) = self.scaling.spec_raw_bounds();
        mapped.clamped(low, high)
    }

    /// What the block drives in a scan, given how the raw value is written.
    pub open spec fn driven(self, reading: Reading<Float>, written: Value, tick: Tick) -> Write {
        Write::of(
            self.raw,
            written,
            ranged_quality(reading.quality, reading.value, self.held(reading.value)),
            tick,
        )
    }

    /// The declared ports, for raw values of a kind.
    pub open spec fn requirements(self, kind: ValueKind) -> Seq<RequirementView> {
        seq![
            spec_input("eng"@, ValueKind::Float, self.eng),
            spec_output("raw"@, kind, self.raw),
        ]
    }

    /// The roles of the ports.
    pub open spec fn roles(self) -> Seq<(Seq<char>, PortRole)> {
        seq![
            ("eng"@, PortRole::Setpoint),
            ("raw"@, PortRole::Output),
        ]
    }

    /// The block's description, for raw values of a kind.
    pub open spec fn description(self, kind: ValueKind) -> ComponentView {
        spec_component(
            self.name,
            "analog-output"@,
            self.requirements(kind),
            self.roles(),
            spec_scaling_parameters(),
        )
    }

    /// The block after a retune, or its refusal. The value's kind is checked
    /// before the name.
    pub open spec fn tuned(self, parameter: Seq<char>, value: Value) -> Result<
        AnalogOutputView,
        CommandErrorView,
    > {
        match spec_tune_f64(self.name, parameter, value) {
            Err(error) => Err(error),
            Ok(bound) => match with_bound(self.scaling, parameter, bound) {
                None => Err(spec_unknown_parameter(self.name, parameter)),
                Some(scaling) => if !bound.finite() {
                    Err(spec_invalid_parameter(self.name, parameter, "must be finite"@))
                } else if scaling.eng_min.same(scaling.eng_max) || scaling.raw_min.same(
                    scaling.raw_max,
                ) {
                    Err(
                        spec_invalid_parameter(
                            self.name,
                            parameter,
                            "engineering and raw ranges must have non-zero span"@,
                        ),
                    )
                } else {
                    Ok(AnalogOutputView { scaling, ..self })
                },
            },
        }
    }

    /// The tuning as fields.
    pub open spec fn captured(self) -> Map<Seq<char>, Value> {
        Map::empty().insert("raw_min"@, Value::Float(self.scaling.raw_min)).insert(
            "raw_max"@,
            Value::Float(self.scaling.raw_max),
        ).insert("eng_min"@, Value::Float(self.scaling.eng_min)).insert(
            "eng_max"@,
            Value::Float(self.scaling.eng_max),
        )
    }

    /// The block with a checkpoint taken over, or the checkpoint's refusal.
    pub open spec fn restored(
        self,
        keys: Seq<Seq<char>>,
        fields: Map<Seq<char>, Value>,
    ) -> Result<AnalogOutputView, StateErrorView> {
        let name = self.name;
        match known_fields(keys, name, known_names()) {
            Err(error) => Err(error),
            Ok(_) => match restored_scaling(fields, name) {
                Err(error) => Err(error),
                Ok(scaling) => match scaling.unbounded() {
                    Some((key, bound)) => Err(spec_invalid_value(name, key, Value::Float(bound))),
                    None => if scaling.eng_min.same(scaling.eng_max) {
                        Err(spec_invalid_value(name, "eng_max"@, Value::Float(scaling.eng_max)))
                    } else if scaling.raw_min.same(scaling.raw_max) {
                        Err(spec_invalid_value(name, "raw_max"@, Value::Float(scaling.raw_max)))
                    } else {
                        Ok(AnalogOutputView { scaling, ..self })
                    },
                },
            },
        }
    }
}

impl<R: RawOutput> AnalogOutput<R> {
    /// The kind a plant model selects this block by.
    pub const KIND: &'static str = "analog-output";

    /// Builds an analog output, or tells why it cannot be built.
    pub fn new(name: &str, eng: PointId, raw: PointId, scaling: Scaling) -> (r: Result<
        AnalogOutput<R>,
        ParameterError,
    >)
        ensures
            match r {
                Ok(block) => block@.wf() && spec_new(name@, eng, raw, scaling) == Ok::<
                    AnalogOutputView,
                    ParameterErrorView,
                >(block@),
                Err(error) => spec_new(name@, eng, raw, scaling) == Err::<
                    AnalogOutputView,
                    ParameterErrorView,
                >(error@),
            },
    {
        if let Some((parameter, _)) = scaling.find_unbounded() {
            return Err(params::invalid(name, parameter, "must be finite"));
        }
        if scaling.eng_min.equals(scaling.eng_max) {
            return Err(
                params::invalid(name, "eng_max", "engineering range must have non-zero span"),
            );
        }
        if scaling.raw_min.equals(scaling.raw_max) {
            return Err(params::invalid(name, "raw_max", "raw range must have non-zero span"));
        }
        Ok(AnalogOutput { name: name.to_owned(), eng, raw, scaling, marker: PhantomData })
    }

    /// Builds an analog output from the parameters of a plant model.
    pub fn from_parameters(
        name: &str,
        eng: PointId,
        raw: PointId,
        parameters: &Parameters,
    ) -> (r: Result<AnalogOutput<R>, ParameterError>)
        ensures
            match r {
                Ok(block) => block@.wf() && spec_from_parameters(
                    name@,
                    eng,
                    raw,
                    parameters@,
                ) == Ok::<AnalogOutputView, ParameterErrorView>(block@),
                Err(error) => spec_from_parameters(name@, eng, raw, parameters@) == Err::<
                    AnalogOutputView,
                    ParameterErrorView,
                >(error@),
            },
    {
        let scaling = scaling_from_parameters(name, parameters)?;
        AnalogOutput::new(name, eng, raw, scaling)
    }

    /// The block's name.
    pub fn name(&self) -> (r: &str)
        ensures
            r@ == self@.name,
    {
        self.name.as_str()
    }

    /// The scaling.
    pub fn scaling(&self) -> (r: Scaling)
        ensures
            r == self@.scaling,
    {
        self.scaling
    }

    /// The declared ports.
    pub fn io_requirements(&self) -> (r: Vec<IoRequirement>)
        ensures
            requirement_views(r@) == self@.requirements(R::spec_kind()),
    {
        let mut r: Vec<IoRequirement> = Vec::new();
        r.push(describe::input("eng", ValueKind::Float, self.eng));
        r.push(describe::output("raw", R::kind(), self.raw));
        assert(requirement_views(r@) == self@.requirements(R::spec_kind()));
        r
    }

    /// The engineering value that a scan maps onto the raw range: what `eng`
    /// reads, held to the engineering range.
    pub fn operand(&self, value: Float) -> (r: Float)
        requires
            self@.wf(),
        ensures
            r == self@.held(value),
    {
        let (low, high) = self.scaling.eng_bounds();
        value.clamp(low, high)
    }

    /// Runs one scan on what `eng` reads. `mapped` is what the inverse map
    /// makes of the [`operand`](Self::operand).
    pub fn step(&self, reading: Reading<Float>, mapped: Float, tick: Tick) -> (r: Write)
        requires
            self@.wf(),
        ensures
            r == self@.driven(
                reading,
                R::spec_from_f64(self@.raw_value(mapped)).spec_value(),
                tick,
            ),
    {
        let (low, high) = self.scaling.eng_bounds();
        let held = reading.value.clamp(low, high);
        let (raw_low, raw_high) = self.scaling.raw_bounds();
        let raw = mapped.clamp(raw_low, raw_high);
        Write::new(
            self.raw,
            R::from_f64(raw).into_value(),
            judge_range(reading.quality, reading.value, held),
            tick,
        )
    }

    /// Describes the block.
    pub fn describe(&self) -> (r: ComponentDescriptor)
        ensures
            r@ == self@.description(R::spec_kind()),
    {
        let mut roles: Vec<RoleHint> = Vec::new();
        roles.push(describe::hint("eng", PortRole::Setpoint));
        roles.push(describe::hint("raw", PortRole::Output));
        assert(role_views(roles@) == self@.roles());
        proof {
            describe::parallel_hints(self@.requirements(R::spec_kind()), self@.roles());
        }
        describe::component(
            self.name.as_str(),
            "analog-output",
            &self.io_requirements(),
            &roles,
            describe::scaling_parameters(),
        )
    }

    /// Retunes one bound at the scan boundary. A bound that would leave a
    /// range without a span is refused, and a refused value changes nothing.
    pub fn apply_parameter(&mut self, parameter: &str, value: Value) -> (r: Result<
        (),
        CommandError,
    >)
        requires
            old(self)@.wf(),
        ensures
            final(self)@.wf(),
            match r {
                Ok(_) => old(self)@.tuned(parameter@, value) == Ok::<
                    AnalogOutputView,
                    CommandErrorView,
                >(final(self)@),
                Err(error) => old(self)@.tuned(parameter@, value) == Err::<
                    AnalogOutputView,
                    CommandErrorView,
                >(error@) && final(self)@ == old(self)@,
            },
    {
        let bound = params::tune_f64(self.name.as_str(), parameter, value)?;
        let mut scaling = self.scaling;
        if text::same(parameter, "raw_min") {
            scaling.raw_min = bound;
        } else if text::same(parameter, "raw_max") {
            scaling.raw_max = bound;
        } else if text::same(parameter, "eng_min") {
            scaling.eng_min = bound;
        } else if text::same(parameter, "eng_max") {
            scaling.eng_max = bound;
        } else {
            return Err(params::unknown_parameter(self.name.as_str(), parameter));
        }
        if !bound.is_finite() {
            return Err(params::invalid_parameter(self.name.as_str(), parameter, "must be finite"));
        }
        if scaling.eng_min.equals(scaling.eng_max) || scaling.raw_min.equals(scaling.raw_max) {
            return Err(
                params::invalid_parameter(
                    self.name.as_str(),
                    parameter,
                    "engineering and raw ranges must have non-zero span",
                ),
            );
        }
        self.scaling = scaling;
        Ok(())
    }

    /// Captures the tuning; an analog output has no other state.
    pub fn capture_state(&self) -> (r: StateMap)
        ensures
            r@ == self@.captured(),
    {
        let mut r = StateMap::new();
        r.insert("raw_min", Value::Float(self.scaling.raw_min));
        r.insert("raw_max", Value::Float(self.scaling.raw_max));
        r.insert("eng_min", Value::Float(self.scaling.eng_min));
        r.insert("eng_max", Value::Float(self.scaling.eng_max));
        r
    }

    /// Takes over a checkpoint. A refused one leaves the block as it was.
    pub fn restore_state(&mut self, state: &StateMap) -> (r: Result<(), StateError>)
        requires
            old(self)@.wf(),
        ensures
            final(self)@.wf(),
            match r {
                Ok(_) => old(self)@.restored(state.keys(), state@) == Ok::<
                    AnalogOutputView,
                    StateErrorView,
                >(final(self)@),
                Err(error) => old(self)@.restored(state.keys(), state@) == Err::<
                    AnalogOutputView,
                    StateErrorView,
                >(error@) && final(self)@ == old(self)@,
            },
    {
        let mut known: Vec<String> = Vec::new();
        known.push("raw_min".to_owned());
        known.push("raw_max".to_owned());
        known.push("eng_min".to_owned());
        known.push("eng_max".to_owned());
        assert(text::views(known@) == known_names());
        let name = self.name.as_str();
        state.ensure_known_fields(name, &known)?;
        let raw_min = state.require_f64(name, "raw_min")?;
        let raw_max = state.require_f64(name, "raw_max")?;
        let eng_min = state.require_f64(name, "eng_min")?;
        let eng_max = state.require_f64(name, "eng_max")?;
        let scaling = Scaling { raw_min, raw_max, eng_min, eng_max };
        if let Some((key, bound)) = scaling.find_unbounded() {
            return Err(table::invalid_value(name, key, Value::Float(bound)));
        }
        if eng_min.equals(eng_max) {
            return Err(table::invalid_value(name, "eng_max", Value::Float(eng_max)));
        }
        if raw_min.equals(raw_max) {
            return Err(table::invalid_value(name, "raw_max", Value::Float(raw_max)));
        }
        self.scaling = scaling;
        Ok(())
    }
}

/// Whatever the demand and the map's rounding, what is written lies within
/// the raw range.
pub proof fn outputs_stay_in_the_raw_range(block: AnalogOutputView, mapped: Float)
    requires
        block.wf(),
        !mapped.nan(),
    ensures
        ({
            let (low, high) = block.scaling.spec_raw_bounds();
            low.le(block.raw_value(mapped)) && block.raw_value(mapped).le(high)
        }),
{
    let (low, high) = block.scaling.spec_raw_bounds();
    clamp_holds_the_range(mapped, low, high);
}

/// A demand within the engineering range keeps its quality; one outside is
/// held to it and is at best `Uncertain`, a NaN is `Bad`, and a degraded
/// demand never gets better.
pub proof fn quality_reports_the_range(
    block: AnalogOutputView,
    reading: Reading<Float>,
    written: Value,
    tick: Tick,
)
    requires
        block.wf(),
    ensures
        ({
            let (low, high) = block.scaling.spec_eng_bounds();
            let value = reading.value;
            let driven = block.driven(reading, written, tick).sample.quality;
            &&& low.le(value) && value.le(high) ==> driven == reading.quality && block.held(value)
                == value
            &&& value.lt(low) ==> block.held(value) == low
            &&& high.lt(value) ==> block.held(value) == high
            &&& value.lt(low) || high.lt(value) ==> driven == reading.quality.spec_merge(
                Quality::Uncertain(QualityReason::OutOfRange),
            )
            &&& value.nan() ==> driven == Quality::Bad(QualityReason::DeviceFault)
            &&& driven.severity() >= reading.quality.severity()
        }),
{
    merge_is_worst_of(reading.quality, Quality::Uncertain(QualityReason::OutOfRange));
    merge_is_worst_of(reading.quality, Quality::Bad(QualityReason::DeviceFault));
}

/// Building reads exactly the described parameters: whatever else is
/// declared makes no difference, and without one of them nothing is built.
pub proof fn building_reads_the_described(
    block: AnalogOutputView,
    a: Map<Seq<char>, Value>,
    b: Map<Seq<char>, Value>,
    i: int,
)
    ensures
        ({
            let described = block.description(ValueKind::Float).parameters;
            let from_a = spec_from_parameters(block.name, block.eng, block.raw, a);
            let from_b = spec_from_parameters(block.name, block.eng, block.raw, b);
            &&& agree_on(described, a, b) ==> from_a == from_b
            &&& 0 <= i < described.len() && field(a, described[i].name) is None ==> from_a is Err
        }),
{
    let described = block.description(ValueKind::Float).parameters;
    assert(described[0].name == "raw_min"@);
    assert(described[1].name == "raw_max"@);
    assert(described[2].name == "eng_min"@);
    assert(described[3].name == "eng_max"@);
}

/// Exactly the described parameters can be retuned: any other name is
/// refused as unknown, once the value is a number.
pub proof fn tuning_takes_the_described(block: AnalogOutputView, parameter: Seq<char>, value: Value)
    ensures
        ({
            let unknown = spec_unknown_parameter(block.name, parameter);
            let refused = Err::<AnalogOutputView, CommandErrorView>(unknown);
            let described = block.description(ValueKind::Float).parameters;
            as_double(value) is Some ==> (describes_parameter(described, parameter)
                <==> block.tuned(parameter, value) != refused)
        }),
{
    let described = block.description(ValueKind::Float).parameters;
    assert(described[0].name == "raw_min"@);
    assert(described[1].name == "raw_max"@);
    assert(described[2].name == "eng_min"@);
    assert(described[3].name == "eng_max"@);
}

/// A block that takes over a checkpoint has the captured scaling.
pub proof fn output_checkpoint_round_trip(
    block: AnalogOutputView,
    standby: AnalogOutputView,
    checkpoint: Table,
)
    requires
        block.wf(),
        checkpoint@ == block.captured(),
    ensures
        standby.restored(checkpoint.keys(), checkpoint@) == Ok::<AnalogOutputView, StateErrorView>(
            AnalogOutputView { scaling: block.scaling, ..standby },
        ),
{
    reveal_strlit("raw_min");
    reveal_strlit("raw_max");
    reveal_strlit("eng_min");
    reveal_strlit("eng_max");
    assert("raw_min"@[5] != "raw_max"@[5] && "eng_min"@[5] != "eng_max"@[5]);
    assert("raw_min"@[0] != "eng_min"@[0] && "raw_max"@[0] != "eng_max"@[0]);
    assert("raw_min"@[0] != "eng_max"@[0] && "raw_max"@[0] != "eng_min"@[0]);
    let names = known_names();
    assert(names[0] == "raw_min"@ && names[1] == "raw_max"@);
    assert(names[2] == "eng_min"@ && names[3] == "eng_max"@);
    known_names_pass(checkpoint, standby.name, names);
}

/// The value that is mapped back: what is demanded where that lies between the
/// two bounds of the engineering range, whichever of them is the lower one, and
/// otherwise the bound next to it. What the map gives is held to the raw range
/// likewise. A NaN is passed on.
pub proof fn values_are_held_to_both_ranges(block: AnalogOutputView, value: Float)
    requires
        block.wf(),
    ensures
        ({
            let (one, other) = (block.scaling.eng_min, block.scaling.eng_max);
            let held = block.held(value);
            let below = value.lt(one) && value.lt(other);
            let above = one.lt(value) && other.lt(value);
            &&& value.nan() ==> held == value
            &&& below && one.lt(other) ==> held == one
            &&& below && other.lt(one) ==> held == other
            &&& above && one.lt(other) ==> held == other
            &&& above && other.lt(one) ==> held == one
            &&& !below && !above ==> held == value
        }),
        ({
            let (one, other) = (block.scaling.raw_min, block.scaling.raw_max);
            let held = block.raw_value(value);
            let below = value.lt(one) && value.lt(other);
            let above = one.lt(value) && other.lt(value);
            &&& value.nan() ==> held == value
            &&& below && one.lt(other) ==> held == one
            &&& below && other.lt(one) ==> held == other
            &&& above && one.lt(other) ==> held == other
            &&& above && other.lt(one) ==> held == one
            &&& !below && !above ==> held == value
        }),
{
}

/// Every scan drives `raw` with what is written, as of this scan. A demand
/// between the bounds keeps its quality. One that had to be moved is out of
/// range: that replaces `Good` and any `Uncertain`, and a `Bad` stands. A NaN is
/// a device fault.
pub proof fn scans_drive_the_written_value(
    block: AnalogOutputView,
    reading: Reading<Float>,
    written: Value,
    tick: Tick,
)
    requires
        block.wf(),
    ensures
        ({
            let (one, other) = (block.scaling.eng_min, block.scaling.eng_max);
            let value = reading.value;
            let driven = block.driven(reading, written, tick);
            let outside = (value.lt(one) && value.lt(other)) || (one.lt(value) && other.lt(value));
            let moved = Quality::Uncertain(QualityReason::OutOfRange);
            &&& driven.point == block.raw && driven.sample.tick == tick
            &&& driven.sample.value == written
            &&& !value.nan() && !outside ==> driven.sample.quality == reading.quality
            &&& outside && !(reading.quality is Bad) ==> driven.sample.quality == moved
            &&& outside && reading.quality is Bad ==> driven.sample.quality == reading.quality
            &&& value.nan() ==> driven.sample.quality == Quality::Bad(QualityReason::DeviceFault)
        }),
{
}

/// A double is written as it is, or as the nearest count.
pub proof fn raw_values_are_written(double: Float, count: i64)
    ensures
        <Float as RawOutput>::spec_from_f64(double) == double,
        <Float as RawOutput>::spec_value(double) == Value::Float(double),
        <Float as RawOutput>::spec_kind() == ValueKind::Float,
        <i64 as RawOutput>::spec_from_f64(double) == double.as_count(),
        <i64 as RawOutput>::spec_value(count) == Value::Int(count),
        <i64 as RawOutput>::spec_kind() == ValueKind::Int,
        double.finite() && double.is_integer(count as int) ==> <i64 as RawOutput>::spec_from_f64(
            double,
        ) == count,
{
    if double.finite() && double.is_integer(count as int) {
        counts_are_the_nearest(double);
        let whole = pow2(1074) as int;
        lemma_pow2_pos(1074);
        let nearest = double.nearest_integer();
        assert(nearest == count) by (nonlinear_arith)
            requires
                whole > 0,
                -whole <= 2 * (count * whole - nearest * whole) <= whole,
        ;
    }
}

/// A block is built exactly where the four bounds are declared and finite and
/// the two of each range differ; it maps between the declared ranges. A refused
/// one with a flat range names the upper bound of the engineering range before
/// that of the raw one.
pub proof fn building_takes_the_declared(
    name: Seq<char>,
    eng: PointId,
    raw: PointId,
    parameters: Map<Seq<char>, Value>,
)
    ensures
        ({
            let built = spec_from_parameters(name, eng, raw, parameters);
            let raw_min = spec_required_f64(name, parameters, "raw_min"@);
            let raw_max = spec_required_f64(name, parameters, "raw_max"@);
            let eng_min = spec_required_f64(name, parameters, "eng_min"@);
            let eng_max = spec_required_f64(name, parameters, "eng_max"@);
            let read = raw_min is Ok && raw_max is Ok && eng_min is Ok && eng_max is Ok;
            let finite = raw_min->Ok_0.finite() && raw_max->Ok_0.finite() && eng_min->Ok_0.finite()
                && eng_max->Ok_0.finite();
            let flat_raw = !raw_min->Ok_0.lt(raw_max->Ok_0) && !raw_max->Ok_0.lt(raw_min->Ok_0);
            let flat_eng = !eng_min->Ok_0.lt(eng_max->Ok_0) && !eng_max->Ok_0.lt(eng_min->Ok_0);
            &&& built is Ok <==> read && finite && !flat_raw && !flat_eng
            &&& built is Ok ==> {
                let block = built->Ok_0;
                &&& block.name == name && block.eng == eng && block.raw == raw
                &&& block.scaling.raw_min == raw_min->Ok_0
                &&& block.scaling.raw_max == raw_max->Ok_0
                &&& block.scaling.eng_min == eng_min->Ok_0
                &&& block.scaling.eng_max == eng_max->Ok_0
            }
            &&& read && finite && flat_eng ==> built == Err::<AnalogOutputView, ParameterErrorView>(
                ParameterErrorView::Invalid {
                    component: name,
                    parameter: "eng_max"@,
                    detail: "engineering range must have non-zero span"@,
                },
            )
            &&& read && finite && !flat_eng && flat_raw ==> built == Err::<
                AnalogOutputView,
                ParameterErrorView,
            >(
                ParameterErrorView::Invalid {
                    component: name,
                    parameter: "raw_max"@,
                    detail: "raw range must have non-zero span"@,
                },
            )
        }),
{
}

/// A retune sets the named bound to the given value and nothing else, where the
/// value is finite and differs from the other bound of its range; any other value
/// is refused.
pub proof fn retunes_set_the_named_bound(block: AnalogOutputView, value: Value)
    requires
        block.wf(),
    ensures
        ({
            let read = spec_tune_f64(block.name, "raw_min"@, value);
            let tuned = block.tuned("raw_min"@, value);
            let bound = read->Ok_0;
            let other = block.scaling.raw_max;
            let differs = bound.lt(other) || other.lt(bound);
            &&& tuned is Ok <==> read is Ok && bound.finite() && differs
            &&& tuned is Ok ==> tuned->Ok_0 == (AnalogOutputView {
                scaling: Scaling { raw_min: bound, ..block.scaling },
                ..block
            })
        }),
        ({
            let read = spec_tune_f64(block.name, "raw_max"@, value);
            let tuned = block.tuned("raw_max"@, value);
            let bound = read->Ok_0;
            let other = block.scaling.raw_min;
            let differs = bound.lt(other) || other.lt(bound);
            &&& tuned is Ok <==> read is Ok && bound.finite() && differs
            &&& tuned is Ok ==> tuned->Ok_0 == (AnalogOutputView {
                scaling: Scaling { raw_max: bound, ..block.scaling },
                ..block
            })
        }),
        ({
            let read = spec_tune_f64(block.name, "eng_min"@, value);
            let tuned = block.tuned("eng_min"@, value);
            let bound = read->Ok_0;
            let other = block.scaling.eng_max;
            let differs = bound.lt(other) || other.lt(bound);
            &&& tuned is Ok <==> read is Ok && bound.finite() && differs
            &&& tuned is Ok ==> tuned->Ok_0 == (AnalogOutputView {
                scaling: Scaling { eng_min: bound, ..block.scaling },
                ..block
            })
        }),
        ({
            let read = spec_tune_f64(block.name, "eng_max"@, value);
            let tuned = block.tuned("eng_max"@, value);
            let bound = read->Ok_0;
            let other = block.scaling.eng_min;
            let differs = bound.lt(other) || other.lt(bound);
            &&& tuned is Ok <==> read is Ok && bound.finite() && differs
            &&& tuned is Ok ==> tuned->Ok_0 == (AnalogOutputView {
                scaling: Scaling { eng_max: bound, ..block.scaling },
                ..block
            })
        }),
{
    reveal_strlit("raw_min");
    reveal_strlit("raw_max");
    reveal_strlit("eng_min");
    reveal_strlit("eng_max");
    assert("raw_min"@.len() == 7);
    assert("raw_max"@.len() == 7);
    assert("eng_min"@.len() == 7);
    assert("eng_max"@.len() == 7);
    assert("raw_min"@[5] != "raw_max"@[5]);
    assert("raw_min"@[0] != "eng_min"@[0]);
    assert("raw_max"@[0] != "eng_min"@[0]);
    assert("raw_min"@[0] != "eng_max"@[0]);
    assert("raw_max"@[0] != "eng_max"@[0]);
    assert("eng_min"@[5] != "eng_max"@[5]);
}

/// A checkpoint holds the four bounds and nothing else; it is taken over exactly
/// where it holds them finite, the two of each range different, and no other
/// name, and the block then maps between the held ranges.
pub proof fn checkpoints_hold_the_bounds(
    block: AnalogOutputView,
    keys: Seq<Seq<char>>,
    fields: Map<Seq<char>, Value>,
)
    ensures
        ({
            let captured = block.captured();
            let restored = block.restored(keys, fields);
            let name = block.name;
            let raw_min = float_field(fields, name, "raw_min"@);
            let raw_max = float_field(fields, name, "raw_max"@);
            let eng_min = float_field(fields, name, "eng_min"@);
            let eng_max = float_field(fields, name, "eng_max"@);
            let read = raw_min is Ok && raw_max is Ok && eng_min is Ok && eng_max is Ok;
            let finite = raw_min->Ok_0.finite() && raw_max->Ok_0.finite() && eng_min->Ok_0.finite()
                && eng_max->Ok_0.finite();
            let flat_raw = !raw_min->Ok_0.lt(raw_max->Ok_0) && !raw_max->Ok_0.lt(raw_min->Ok_0);
            let flat_eng = !eng_min->Ok_0.lt(eng_max->Ok_0) && !eng_max->Ok_0.lt(eng_min->Ok_0);
            let known = seq!["raw_min"@, "raw_max"@, "eng_min"@, "eng_max"@];
            &&& captured.dom() == set!["raw_min"@, "raw_max"@, "eng_min"@, "eng_max"@]
            &&& captured["raw_min"@] == Value::Float(block.scaling.raw_min)
            &&& captured["raw_max"@] == Value::Float(block.scaling.raw_max)
            &&& captured["eng_min"@] == Value::Float(block.scaling.eng_min)
            &&& captured["eng_max"@] == Value::Float(block.scaling.eng_max)
            &&& restored is Ok <==> known_fields(keys, name, known) is Ok && read && finite
                && !flat_raw && !flat_eng
            &&& restored is Ok ==> restored->Ok_0 == (AnalogOutputView {
                scaling: Scaling {
                    raw_min: raw_min->Ok_0,
                    raw_max: raw_max->Ok_0,
                    eng_min: eng_min->Ok_0,
                    eng_max: eng_max->Ok_0,
                },
                ..block
            })
        }),
{
    reveal_strlit("raw_min");
    reveal_strlit("raw_max");
    reveal_strlit("eng_min");
    reveal_strlit("eng_max");
    assert("raw_min"@.len() == 7);
    assert("raw_max"@.len() == 7);
    assert("eng_min"@.len() == 7);
    assert("eng_max"@.len() == 7);
    assert("raw_min"@[5] != "raw_max"@[5]);
    assert("raw_min"@[0] != "eng_min"@[0]);
    assert("raw_max"@[0] != "eng_min"@[0]);
    assert("raw_min"@[0] != "eng_max"@[0]);
    assert("raw_max"@[0] != "eng_max"@[0]);
    assert("eng_min"@[5] != "eng_max"@[5]);
    assert(block.captured().dom() =~= set!["raw_min"@, "raw_max"@, "eng_min"@, "eng_max"@]);
}

/// The block is wired by `eng`, a set point, and `raw`, of the kind that it
/// writes, and is described by the bounds of its two ranges.
pub proof fn wiring_is_described(block: AnalogOutputView, kind: ValueKind)
    ensures
        ({
            let described = block.description(kind);
            let ports = block.requirements(kind);
            let roles = block.roles();
            &&& described.name == block.name && described.label == block.name
            &&& described.kind == "analog-output"@
            &&& described.parameters == spec_scaling_parameters()
            &&& described.ports.len() == 2 && ports.len() == 2 && roles.len() == 2
            &&& ports[0] == (RequirementView {
                name: "eng"@,
                direction: describe::Direction::In,
                kind: ValueKind::Float,
                point: block.eng,
            })
            &&& ports[1] == (RequirementView {
                name: "raw"@,
                direction: describe::Direction::Out,
                kind,
                point: block.raw,
            })
            &&& roles[0] == ("eng"@, PortRole::Setpoint)
            &&& roles[1] == ("raw"@, PortRole::Output)
        }),
{
}

} // verus!
