//! An analog input: a raw reading scaled onto an engineering range.

use crate::describe::{
    self, requirement_views, spec_input, spec_output, IoRequirement, RequirementView,
};
use crate::float::{clamp_holds_the_range, small_counts_are_exact, Float};
use crate::params::{
    self, spec_invalid, spec_required_f64, ParameterError, ParameterErrorView, Parameters,
};
use crate::value::{
    merge_is_worst_of, PointId, Quality, QualityReason, Reading, Tick, Value, ValueKind, Write,
};
use std::marker::PhantomData;
use vstd::prelude::*;

verus! {

/// Closes [`RawInput`] to the kinds of value that can be scaled.
pub trait Sealed {

}

impl Sealed for i64 {

}

impl Sealed for Float {

}

/// A kind of value that an [`AnalogInput`] can read: converter counts or a
/// double.
pub trait RawInput: Sealed + Sized {
    /// The value as a double.
    spec fn spec_f64(self) -> Float;

    /// The kind of value.
    spec fn spec_kind() -> ValueKind;

    /// The value as a double.
    fn as_f64(self) -> (r: Float)
        ensures
            r == self.spec_f64(),
    ;

    /// The kind of value.
    fn kind() -> (r: ValueKind)
        ensures
            r == Self::spec_kind(),
    ;
}

impl RawInput for i64 {
    /// The double nearest to the count.
    open spec fn spec_f64(self) -> Float {
        Float::of_count(self)
    }

    open spec fn spec_kind() -> ValueKind {
        ValueKind::Int
    }

    fn as_f64(self) -> (r: Float) {
        Float::from_count(self)
    }

    fn kind() -> (r: ValueKind) {
        ValueKind::Int
    }
}

impl RawInput for Float {
    open spec fn spec_f64(self) -> Float {
        self
    }

    open spec fn spec_kind() -> ValueKind {
        ValueKind::Float
    }

    fn as_f64(self) -> (r: Float) {
        self
    }

    fn kind() -> (r: ValueKind) {
        ValueKind::Float
    }
}

/// A linear map from a raw range onto an engineering range. Either range may
/// run downwards.
#[derive(Debug, Clone, Copy, PartialEq, Eq, Structural)]
pub struct Scaling {
    /// The raw value at `eng_min`.
    pub raw_min: Float,
    /// The raw value at `eng_max`.
    pub raw_max: Float,
    /// The engineering value at `raw_min`.
    pub eng_min: Float,
    /// The engineering value at `raw_max`.
    pub eng_max: Float,
}

/// Two bounds in ascending order.
pub open spec fn ascending(a: Float, b: Float) -> (Float, Float) {
    if b.lt(a) {
        (b, a)
    } else {
        (a, b)
    }
}

fn sorted(a: Float, b: Float) -> (r: (Float, Float))
    ensures
        r == ascending(a, b),
        !a.nan() && !b.nan() ==> r.0.le(r.1),
{
    if b.less_than(a) {
        (b, a)
    } else {
        (a, b)
    }
}

impl Scaling {
    /// The name and the value of the first bound that is not finite.
    pub open spec fn unbounded(self) -> Option<(Seq<char>, Float)> {
        if !self.raw_min.finite() {
            Some(("raw_min"@, self.raw_min))
        } else if !self.raw_max.finite() {
            Some(("raw_max"@, self.raw_max))
        } else if !self.eng_min.finite() {
            Some(("eng_min"@, self.eng_min))
        } else if !self.eng_max.finite() {
            Some(("eng_max"@, self.eng_max))
        } else {
            None
        }
    }

    /// The bounds of the raw range in ascending order.
    pub open spec fn spec_raw_bounds(self) -> (Float, Float) {
        ascending(self.raw_min, self.raw_max)
    }

    /// The bounds of the engineering range in ascending order.
    pub open spec fn spec_eng_bounds(self) -> (Float, Float) {
        ascending(self.eng_min, self.eng_max)
    }

    /// The name and the value of the first bound that is not finite.
    pub fn find_unbounded(&self) -> (r: Option<(&'static str, Float)>)
        ensures
            match r {
                Some((parameter, value)) => self.unbounded() == Some((parameter@, value)),
                None => self.unbounded() is None,
            },
    {
        if !self.raw_min.is_finite() {
            return Some(("raw_min", self.raw_min));
        }
        if !self.raw_max.is_finite() {
            return Some(("raw_max", self.raw_max));
        }
        if !self.eng_min.is_finite() {
            return Some(("eng_min", self.eng_min));
        }
        if !self.eng_max.is_finite() {
            return Some(("eng_max", self.eng_max));
        }
        None
    }

    /// The bounds of the raw range in ascending order.
    pub fn raw_bounds(&self) -> (r: (Float, Float))
        requires
            self.unbounded() is None,
        ensures
            r == self.spec_raw_bounds(),
            r.0.le(r.1),
    {
        sorted(self.raw_min, self.raw_max)
    }

    /// The bounds of the engineering range in ascending order.
    pub fn eng_bounds(&self) -> (r: (Float, Float))
        requires
            self.unbounded() is None,
        ensures
            r == self.spec_eng_bounds(),
            r.0.le(r.1),
    {
        sorted(self.eng_min, self.eng_max)
    }
}

/// The scaling that the parameters declare, whatever its bounds.
pub open spec fn read_scaling(name: Seq<char>, parameters: Map<Seq<char>, Value>) -> Result<
    Scaling,
    ParameterErrorView,
> {
    match spec_required_f64(name, parameters, "raw_min"@) {
        Err(error) => Err(error),
        Ok(raw_min) => match spec_required_f64(name, parameters, "raw_max"@) {
            Err(error) => Err(error),
            Ok(raw_max) => match spec_required_f64(name, parameters, "eng_min"@) {
                Err(error) => Err(error),
                Ok(eng_min) => match spec_required_f64(name, parameters, "eng_max"@) {
                    Err(error) => Err(error),
                    Ok(eng_max) => Ok(Scaling { raw_min, raw_max, eng_min, eng_max }),
                },
            },
        },
    }
}

/// Reads the scaling that the parameters declare, whatever its bounds.
pub fn scaling_from_parameters(name: &str, parameters: &Parameters) -> (r: Result<
    Scaling,
    ParameterError,
>)
    ensures
        params::agrees(r, read_scaling(name@, parameters@)),
{
    let raw_min = params::required_f64(name, parameters, "raw_min")?;
    let raw_max = params::required_f64(name, parameters, "raw_max")?;
    let eng_min = params::required_f64(name, parameters, "eng_min")?;
    let eng_max = params::required_f64(name, parameters, "eng_max")?;
    Ok(Scaling { raw_min, raw_max, eng_min, eng_max })
}

/// The quality of a value that was held to a range: a NaN is a device
/// fault, a value that had to be moved is out of range.
pub open spec fn ranged_quality(quality: Quality, value: Float, held: Float) -> Quality {
    if value.nan() {
        quality.spec_merge(Quality::Bad(QualityReason::DeviceFault))
    } else if !held.same(value) {
        quality.spec_merge(Quality::Uncertain(QualityReason::OutOfRange))
    } else {
        quality
    }
}

/// The quality of a value that was held to a range.
pub fn judge_range(quality: Quality, value: Float, held: Float) -> (r: Quality)
    ensures
        r == ranged_quality(quality, value, held),
{
    if value.is_nan() {
        quality.merge(Quality::Bad(QualityReason::DeviceFault))
    } else if !held.equals(value) {
        quality.merge(Quality::Uncertain(QualityReason::OutOfRange))
    } else {
        quality
    }
}

/// An analog input: `raw` is held to the raw range and mapped linearly onto
/// the engineering range, and the result is driven on `out`. The output's
/// quality is the input's, made worse where the value had to be moved or is
/// no number.
///
/// The linear map is floating-point arithmetic, which the caller does: one
/// scan is [`operand`](AnalogInput::operand), the map, and
/// [`step`](AnalogInput::step).
///
/// The parameters `raw_min`, `raw_max`, `eng_min` and `eng_max` are required
/// and finite, and the raw range has a span.
#[derive(Debug)]
pub struct AnalogInput<R: RawInput = Float> {
    name: String,
    raw: PointId,
    out: PointId,
    scaling: Scaling,
    marker: PhantomData<R>,
}

/// What an [`AnalogInput`] is.
#[verifier::ext_equal]
pub struct AnalogInputView {
    pub name: Seq<char>,
    pub raw: PointId,
    pub out: PointId,
    pub scaling: Scaling,
}

impl<R: RawInput> View for AnalogInput<R> {
    type V = AnalogInputView;

    closed spec fn view(&self) -> AnalogInputView {
        AnalogInputView { name: self.name@, raw: self.raw, out: self.out, scaling: self.scaling }
    }
}

/// The block with the given parts, or why it cannot be built.
pub open spec fn spec_new(
    name: Seq<char>,
    raw: PointId,
    out: PointId,
    scaling: Scaling,
) -> Result<AnalogInputView, ParameterErrorView> {
    match scaling.unbounded() {
        Some((parameter, _)) => Err(spec_invalid(name, parameter, "must be finite"@)),
        None => if scaling.raw_min.same(scaling.raw_max) {
            Err(spec_invalid(name, "raw_max"@, "raw range must have non-zero span"@))
        } else {
            Ok(AnalogInputView { name, raw, out, scaling })
        },
    }
}

/// The block that the parameters declare.
pub open spec fn spec_from_parameters(
    name: Seq<char>,
    raw: PointId,
    out: PointId,
    parameters: Map<Seq<char>, Value>,
) -> Result<AnalogInputView, ParameterErrorView> {
    match read_scaling(name, parameters) {
        Err(error) => Err(error),
        Ok(scaling) => spec_new(name, raw, out, scaling),
    }
}

impl AnalogInputView {
    /// The invariant: the scaling's bounds are finite and its raw range has
    /// a span.
    pub open spec fn wf(self) -> bool {
        self.scaling.unbounded() is None && !self.scaling.raw_min.same(self.scaling.raw_max)
    }

    /// The raw value of a scan, held to the raw range.
    pub open spec fn held(self, value: Float) -> Float {
        let (low, high) = self.scaling.spec_raw_bounds();
        value.clamped(low, high)
    }

    /// What the block drives in a scan whose held raw value maps to
    /// `scaled`.
    pub open spec fn driven(
        self,
        value: Float,
        quality: Quality,
        scaled: Float,
        tick: Tick,
    ) -> Write {
        Write::of(
            self.out,
            Value::Float(scaled),
            ranged_quality(quality, value, self.held(value)),
            tick,
        )
    }

    /// The declared ports, for raw values of a kind.
    pub open spec fn requirements(self, kind: ValueKind) -> Seq<RequirementView> {
        seq![
            spec_input("raw"@, kind, self.raw),
            spec_output("out"@, ValueKind::Float, self.out),
        ]
    }
}

impl<R: RawInput> AnalogInput<R> {
    /// Builds an analog input, or tells why it cannot be built.
    pub fn new(name: &str, raw: PointId, out: PointId, scaling: Scaling) -> (r: Result<
        AnalogInput<R>,
        ParameterError,
    >)
        ensures
            match r {
                Ok(block) => block@.wf() && spec_new(name@, raw, out, scaling) == Ok::<
                    AnalogInputView,
                    ParameterErrorView,
                >(block@),
                Err(error) => spec_new(name@, raw, out, scaling) == Err::<
                    AnalogInputView,
                    ParameterErrorView,
                >(error@),
            },
    {
        if let Some((parameter, _)) = scaling.find_unbounded() {
            return Err(params::invalid(name, parameter, "must be finite"));
        }
        if scaling.raw_min.equals(scaling.raw_max) {
            return Err(params::invalid(name, "raw_max", "raw range must have non-zero span"));
        }
        Ok(AnalogInput { name: name.to_owned(), raw, out, scaling, marker: PhantomData })
    }

    /// Builds an analog input from the parameters of a plant model.
    pub fn from_parameters(
        name: &str,
        raw: PointId,
        out: PointId,
        parameters: &Parameters,
    ) -> (r: Result<AnalogInput<R>, ParameterError>)
        ensures
            match r {
                Ok(block) => block@.wf() && spec_from_parameters(
                    name@,
                    raw,
                    out,
                    parameters@,
                ) == Ok::<AnalogInputView, ParameterErrorView>(block@),
                Err(error) => spec_from_parameters(name@, raw, out, parameters@) == Err::<
                    AnalogInputView,
                    ParameterErrorView,
                >(error@),
            },
    {
        let scaling = scaling_from_parameters(name, parameters)?;
        AnalogInput::new(name, raw, out, scaling)
    }

    /// The block's name.
    pub fn name(&self) -> (r: &str)
        ensures
            r@ == self@.name,
    {
        self.name.as_str()
    }

    /// The scaling.
    pub fn scaling(&self) -> (r: Scaling)
        ensures
            r == self@.scaling,
    {
        self.scaling
    }

    /// The declared ports.
    pub fn io_requirements(&self) -> (r: Vec<IoRequirement>)
        ensures
            requirement_views(r@) == self@.requirements(R::spec_kind()),
    {
        let mut r: Vec<IoRequirement> = Vec::new();
        r.push(describe::input("raw", R::kind(), self.raw));
        r.push(describe::output("out", ValueKind::Float, self.out));
        assert(requirement_views(r@) == self@.requirements(R::spec_kind()));
        r
    }

    /// The raw value that a scan maps onto the engineering range: what `raw`
    /// reads, held to the raw range.
    pub fn operand(&self, value: R) -> (r: Float)
        requires
            self@.wf(),
        ensures
            r == self@.held(value.spec_f64()),
    {
        let (low, high) = self.scaling.raw_bounds();
        value.as_f64().clamp(low, high)
    }

    /// Runs one scan on what `raw` reads. `scaled` is what the linear map
    /// makes of the [`operand`](Self::operand).
    pub fn step(&self, reading: Reading<R>, scaled: Float, tick: Tick) -> (r: Write)
        requires
            self@.wf(),
        ensures
            r == self@.driven(reading.value.spec_f64(), reading.quality, scaled, tick),
    {
        let value = reading.value.as_f64();
        let (low, high) = self.scaling.raw_bounds();
        let held = value.clamp(low, high);
        Write::new(
            self.out,
            Value::Float(scaled),
            judge_range(reading.quality, value, held),
            tick,
        )
    }
}

/// Whatever is read, the map is applied within the raw range, at its bounds
/// where the reading lies outside; a NaN alone passes on.
pub proof fn operands_stay_in_the_raw_range(block: AnalogInputView, value: Float)
    requires
        block.wf(),
        !value.nan(),
    ensures
        ({
            let (low, high) = block.scaling.spec_raw_bounds();
            let held = block.held(value);
            &&& low.le(held) && held.le(high)
            &&& value.lt(low) ==> held == low
            &&& high.lt(value) ==> held == high
            &&& low.le(value) && value.le(high) ==> held == value
        }),
{
    let (low, high) = block.scaling.spec_raw_bounds();
    clamp_holds_the_range(value, low, high);
}

/// A reading within the raw range keeps its quality; one outside is at best
/// `Uncertain`, a NaN is `Bad`, and a degraded reading never gets better.
pub proof fn quality_reports_the_range(
    block: AnalogInputView,
    value: Float,
    quality: Quality,
    scaled: Float,
    tick: Tick,
)
    requires
        block.wf(),
    ensures
        ({
            let (low, high) = block.scaling.spec_raw_bounds();
            let driven = block.driven(value, quality, scaled, tick).sample.quality;
            &&& low.le(value) && value.le(high) ==> driven == quality
            &&& value.lt(low) || high.lt(value) ==> driven == quality.spec_merge(
                Quality::Uncertain(QualityReason::OutOfRange),
            )
            &&& value.nan() ==> driven == Quality::Bad(QualityReason::DeviceFault)
            &&& driven.severity() >= quality.severity()
        }),
{
    merge_is_worst_of(quality, Quality::Uncertain(QualityReason::OutOfRange));
    merge_is_worst_of(quality, Quality::Bad(QualityReason::DeviceFault));
}

/// The raw value that is mapped: what is read where that lies between the two
/// bounds of the raw range, whichever of them is the lower one, and otherwise the
/// bound next to it. A NaN is passed on.
pub proof fn readings_are_held_to_the_raw_range(block: AnalogInputView, value: Float)
    requires
        block.wf(),
    ensures
        ({
            let (one, other) = (block.scaling.raw_min, block.scaling.raw_max);
            let held = block.held(value);
            let below = value.lt(one) && value.lt(other);
            let above = one.lt(value) && other.lt(value);
            &&& value.nan() ==> held == value
            &&& below && one.lt(other) ==> held == one
            &&& below && other.lt(one) ==> held == other
            &&& above && one.lt(other) ==> held == other
            &&& above && other.lt(one) ==> held == one
            &&& !below && !above ==> held == value
        }),
{
}

/// Every scan drives `out` with the mapped value, as of this scan. A reading
/// between the bounds keeps its quality. One that had to be moved is out of
/// range: that replaces `Good` and any `Uncertain`, and a `Bad` stands. A NaN is
/// a device fault.
pub proof fn scans_drive_the_mapped_value(
    block: AnalogInputView,
    value: Float,
    quality: Quality,
    scaled: Float,
    tick: Tick,
)
    requires
        block.wf(),
    ensures
        ({
            let (one, other) = (block.scaling.raw_min, block.scaling.raw_max);
            let driven = block.driven(value, quality, scaled, tick);
            let outside = (value.lt(one) && value.lt(other)) || (one.lt(value) && other.lt(value));
            let moved = Quality::Uncertain(QualityReason::OutOfRange);
            &&& driven.point == block.out && driven.sample.tick == tick
            &&& driven.sample.value == Value::Float(scaled)
            &&& !value.nan() && !outside ==> driven.sample.quality == quality
            &&& outside && !(quality is Bad) ==> driven.sample.quality == moved
            &&& outside && quality is Bad ==> driven.sample.quality == quality
            &&& value.nan() ==> driven.sample.quality == Quality::Bad(QualityReason::DeviceFault)
        }),
{
}

/// Counts are read as the nearest double, doubles as they are.
pub proof fn raw_values_are_numbers(count: i64, double: Float)
    ensures
        <Float as RawInput>::spec_f64(double) == double,
        <Float as RawInput>::spec_kind() == ValueKind::Float,
        <i64 as RawInput>::spec_kind() == ValueKind::Int,
        -0x20_0000_0000_0000 < count < 0x20_0000_0000_0000 ==> <i64 as RawInput>::spec_f64(
            count,
        ).is_integer(count as int),
{
    if -0x20_0000_0000_0000 < count < 0x20_0000_0000_0000 {
        small_counts_are_exact(count);
    }
}

/// A block is built exactly where the four bounds are declared and finite and
/// the two of the raw range differ; it maps between the declared ranges. A
/// refused one names the first bound that cannot be read, then the first that is
/// not finite, and then `raw_max`.
pub proof fn building_takes_the_declared(
    name: Seq<char>,
    raw: PointId,
    out: PointId,
    parameters: Map<Seq<char>, Value>,
)
    ensures
        ({
            let built = spec_from_parameters(name, raw, out, parameters);
            let raw_min = spec_required_f64(name, parameters, "raw_min"@);
            let raw_max = spec_required_f64(name, parameters, "raw_max"@);
            let eng_min = spec_required_f64(name, parameters, "eng_min"@);
            let eng_max = spec_required_f64(name, parameters, "eng_max"@);
            let read = raw_min is Ok && raw_max is Ok && eng_min is Ok && eng_max is Ok;
            let finite = raw_min->Ok_0.finite() && raw_max->Ok_0.finite() && eng_min->Ok_0.finite()
                && eng_max->Ok_0.finite();
            let flat = !raw_min->Ok_0.lt(raw_max->Ok_0) && !raw_max->Ok_0.lt(raw_min->Ok_0);
            &&& built is Ok <==> read && finite && !flat
            &&& built is Ok ==> {
                let block = built->Ok_0;
                &&& block.name == name && block.raw == raw && block.out == out
                &&& block.scaling.raw_min == raw_min->Ok_0
                &&& block.scaling.raw_max == raw_max->Ok_0
                &&& block.scaling.eng_min == eng_min->Ok_0
                &&& block.scaling.eng_max == eng_max->Ok_0
            }
            &&& raw_min is Err ==> built == Err::<AnalogInputView, ParameterErrorView>(
                raw_min->Err_0,
            )
            &&& raw_min is Ok && raw_max is Err ==> built == Err::<
                AnalogInputView,
                ParameterErrorView,
            >(raw_max->Err_0)
            &&& read && finite && flat ==> built == Err::<AnalogInputView, ParameterErrorView>(
                ParameterErrorView::Invalid {
                    component: name,
                    parameter: "raw_max"@,
                    detail: "raw range must have non-zero span"@,
                },
            )
        }),
{
}

/// The first bound of a scaling that is not finite is found under its name, and
/// none where all are finite.
pub proof fn unbounded_scalings_are_named(scaling: Scaling)
    ensures
        ({
            let found = scaling.unbounded();
            let one = scaling.raw_min.finite();
            let two = one && scaling.raw_max.finite();
            let three = two && scaling.eng_min.finite();
            &&& !one ==> found == Some(("raw_min"@, scaling.raw_min))
            &&& one && !two ==> found == Some(("raw_max"@, scaling.raw_max))
            &&& two && !three ==> found == Some(("eng_min"@, scaling.eng_min))
            &&& three && !scaling.eng_max.finite() ==> found == Some(("eng_max"@, scaling.eng_max))
            &&& three && scaling.eng_max.finite() ==> found is None
        }),
        ({
            let (low, high) = scaling.spec_raw_bounds();
            let (least, most) = scaling.spec_eng_bounds();
            &&& (low, high) == (scaling.raw_min, scaling.raw_max) || (low, high) == (
                scaling.raw_max,
                scaling.raw_min,
            )
            &&& (least, most) == (scaling.eng_min, scaling.eng_max) || (least, most) == (
                scaling.eng_max,
                scaling.eng_min,
            )
            &&& scaling.unbounded() is None ==> low.le(high) && least.le(most)
        }),
{
}

/// The block is wired by `raw`, of the kind that it reads, and `out`.
pub proof fn wiring_is_declared(block: AnalogInputView, kind: ValueKind)
    ensures
        ({
            let ports = block.requirements(kind);
            &&& ports.len() == 2
            &&& ports[0] == (RequirementView {
                name: "raw"@,
                direction: describe::Direction::In,
                kind,
                point: block.raw,
            })
            &&& ports[1] == (RequirementView {
                name: "out"@,
                direction: describe::Direction::Out,
                kind: ValueKind::Float,
                point: block.out,
            })
        }),
{
}

} // verus!
