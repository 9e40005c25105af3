//! A feed-forward demand with an additive, bounded feedback trim.

use crate::describe::{
    self, agree_on, describes_parameter, parameter_views, requirement_views, role_views,
    spec_component, spec_finite_f64, spec_input, spec_int_range, spec_output, spec_parameter,
    ComponentDescriptor, ComponentView, IoRequirement, ParameterDescriptor, ParameterView, PortRole,
    RequirementView, RoleHint,
};
use crate::float::{clamp_holds_the_range, Float};
use crate::params::{
    self, spec_invalid, spec_invalid_parameter, spec_required_f64, spec_required_u64, spec_tune_f64,
    spec_tune_u64, spec_unknown_parameter, CommandError, CommandErrorView, ParameterError,
    ParameterErrorView, Parameters,
};
use crate::table::{
    self, field, float_field, int_field, known_fields, known_names_pass, optional,
    spec_invalid_value, StateError, StateErrorView, StateMap, Table,
};
use crate::text::{self, decimal};
use crate::value::{
    merge_is_worst_of, merged_quality, pair_quality, pairs_carry_the_worse_quality, PointId,
    Quality, QualityReason, Reading, Tick, Value, ValueKind, Write,
};
use vstd::prelude::*;

verus! {

/// What an untrusted term contributes to the sum, and its code.
#[derive(Debug, Clone, Copy, PartialEq, Eq, Structural)]
pub enum BadTermResponse {
    /// `0`: nothing, so the other term serves alone.
    Drop,
    /// `1`: its last trusted value, or zero before the first one.
    Hold,
}

impl BadTermResponse {
    /// The code of the response.
    pub open spec fn spec_code(self) -> i64 {
        match self {
            BadTermResponse::Drop => 0,
            BadTermResponse::Hold => 1,
        }
    }

    /// The response that `code` selects.
    pub open spec fn spec_decode(code: int) -> Option<BadTermResponse> {
        if code == 0 {
            Some(BadTermResponse::Drop)
        } else if code == 1 {
            Some(BadTermResponse::Hold)
        } else {
            None
        }
    }

    /// The code of the response.
    pub fn code(self) -> (r: i64)
        ensures
            r == self.spec_code(),
    {
        match self {
            BadTermResponse::Drop => 0,
            BadTermResponse::Hold => 1,
        }
    }

    /// The response that `code` selects.
    pub fn decode(code: i64) -> (r: Option<BadTermResponse>)
        ensures
            r == BadTermResponse::spec_decode(code as int),
    {
        match code {
            0 => Some(BadTermResponse::Drop),
            1 => Some(BadTermResponse::Hold),
            _ => None,
        }
    }
}

/// The tuning of a [`FeedforwardSum`].
#[derive(Debug, Clone, Copy, PartialEq, Eq, Structural)]
pub struct FeedforwardSumConfig {
    /// The lowest the trim may be.
    pub trim_min: Float,
    /// The highest the trim may be.
    pub trim_max: Float,
    /// The lowest the demand may be.
    pub min_demand: Float,
    /// The highest the demand may be.
    pub max_demand: Float,
    /// The response to an untrusted `ff`.
    pub on_bad_ff: BadTermResponse,
    /// The response to an untrusted `trim`.
    pub on_bad_trim: BadTermResponse,
}

/// The points of a [`FeedforwardSum`].
#[derive(Debug, Clone, Copy, PartialEq, Eq, Structural)]
pub struct FeedforwardSumIo {
    /// `ff`: the feed-forward demand.
    pub ff: PointId,
    /// `trim`: the feedback loop's correction.
    pub trim: PointId,
    /// `out`: the bounded sum.
    pub out: PointId,
    /// `clamped`: a bound is engaged.
    pub clamped: PointId,
    /// `fallback_active`: a term is untrusted.
    pub fallback_active: PointId,
}

/// A feed-forward sum: `out` is `ff` plus the trim, the trim held to its own
/// bounds before the sum and the sum held to the demand's after it.
/// `clamped` reports that one of the two moved its value; a value that rests
/// exactly on a bound is not moved.
///
/// A term that is not finite and trusted takes its declared response, and
/// `fallback_active` is asserted; the two terms respond independently, and
/// neither response latches.
///
/// `out` carries the worst of the two qualities, where a value that is not
/// finite counts as a device fault. The two reports are the block's own
/// verdicts and always `Good`.
///
/// The sum itself is a floating-point addition, which the caller makes: one
/// scan is [`terms`](FeedforwardSum::terms), the addition, and
/// [`step`](FeedforwardSum::step).
#[derive(Debug)]
pub struct FeedforwardSum {
    name: String,
    io: FeedforwardSumIo,
    config: FeedforwardSumConfig,
    last_ff: Option<Float>,
    last_trim: Option<Float>,
}

/// What a [`FeedforwardSum`] is.
#[verifier::ext_equal]
pub struct SumView {
    pub name: Seq<char>,
    pub io: FeedforwardSumIo,
    pub config: FeedforwardSumConfig,
    /// The last trusted `ff`.
    pub last_ff: Option<Float>,
    /// The last trusted `trim`.
    pub last_trim: Option<Float>,
}

impl View for FeedforwardSum {
    type V = SumView;

    closed spec fn view(&self) -> SumView {
        SumView {
            name: self.name@,
            io: self.io,
            config: self.config,
            last_ff: self.last_ff,
            last_trim: self.last_trim,
        }
    }
}

/// A code in signed notation: the notation of the `i64` with the same bits.
pub open spec fn signed_text(code: u64) -> Seq<char> {
    if code <= i64::MAX {
        decimal(code as nat)
    } else {
        "-"@ + decimal((0x1_0000_0000_0000_0000 - code) as nat)
    }
}

/// Why a bound cannot stand: its name, its value and the reason.
pub struct BoundFlaw {
    pub parameter: Seq<char>,
    pub value: Float,
    pub detail: Seq<char>,
}

impl FeedforwardSumConfig {
    /// Whether both pairs of bounds are in order.
    pub open spec fn ordered(self) -> bool {
        !self.trim_max.lt(self.trim_min) && !self.max_demand.lt(self.min_demand)
    }

    /// The first bound that cannot stand.
    pub open spec fn flaw(self) -> Option<BoundFlaw> {
        if !self.trim_min.finite() {
            Some(
                BoundFlaw {
                    parameter: "trim_min"@,
                    value: self.trim_min,
                    detail: "must be finite"@,
                },
            )
        } else if !self.trim_max.finite() {
            Some(
                BoundFlaw {
                    parameter: "trim_max"@,
                    value: self.trim_max,
                    detail: "must be finite"@,
                },
            )
        } else if !self.min_demand.finite() {
            Some(
                BoundFlaw {
                    parameter: "min_demand"@,
                    value: self.min_demand,
                    detail: "must be finite"@,
                },
            )
        } else if !self.max_demand.finite() {
            Some(
                BoundFlaw {
                    parameter: "max_demand"@,
                    value: self.max_demand,
                    detail: "must be finite"@,
                },
            )
        } else if self.trim_max.lt(self.trim_min) {
            Some(
                BoundFlaw {
                    parameter: "trim_max"@,
                    value: self.trim_max,
                    detail: "must be at least trim_min"@,
                },
            )
        } else if self.max_demand.lt(self.min_demand) {
            Some(
                BoundFlaw {
                    parameter: "max_demand"@,
                    value: self.max_demand,
                    detail: "must be at least min_demand"@,
                },
            )
        } else {
            None
        }
    }

    /// The first bound that cannot stand.
    fn find_flaw(&self) -> (r: Option<(&'static str, Float, &'static str)>)
        ensures
            match r {
                Some((parameter, value, detail)) => self.flaw() == Some(
                    BoundFlaw { parameter: parameter@, value, detail: detail@ },
                ),
                None => self.flaw() is None,
            },
    {
        if !self.trim_min.is_finite() {
            return Some(("trim_min", self.trim_min, "must be finite"));
        }
        if !self.trim_max.is_finite() {
            return Some(("trim_max", self.trim_max, "must be finite"));
        }
        if !self.min_demand.is_finite() {
            return Some(("min_demand", self.min_demand, "must be finite"));
        }
        if !self.max_demand.is_finite() {
            return Some(("max_demand", self.max_demand, "must be finite"));
        }
        if self.trim_max.less_than(self.trim_min) {
            return Some(("trim_max", self.trim_max, "must be at least trim_min"));
        }
        if self.max_demand.less_than(self.min_demand) {
            return Some(("max_demand", self.max_demand, "must be at least min_demand"));
        }
        None
    }
}

/// The block with the given parts, or why it cannot be built.
pub open spec fn spec_new(
    name: Seq<char>,
    io: FeedforwardSumIo,
    config: FeedforwardSumConfig,
) -> Result<SumView, ParameterErrorView> {
    match config.flaw() {
        Some(flaw) => Err(spec_invalid(name, flaw.parameter, flaw.detail)),
        None => Ok(SumView { name, io, config, last_ff: None, last_trim: None }),
    }
}

/// The response that the parameters declare under `key`.
pub open spec fn read_response(
    name: Seq<char>,
    parameters: Map<Seq<char>, Value>,
    key: Seq<char>,
) -> Result<BadTermResponse, ParameterErrorView> {
    match spec_required_u64(name, parameters, key) {
        Err(error) => Err(error),
        Ok(code) => match BadTermResponse::spec_decode(code as int) {
            None => Err(
                spec_invalid(
                    name,
                    key,
                    "expected 0 (drop) or 1 (hold), found "@ + signed_text(code),
                ),
            ),
            Some(response) => Ok(response),
        },
    }
}

/// The tuning that the parameters declare, whatever its bounds.
pub open spec fn read_config(name: Seq<char>, parameters: Map<Seq<char>, Value>) -> Result<
    FeedforwardSumConfig,
    ParameterErrorView,
> {
    match spec_required_f64(name, parameters, "trim_min"@) {
        Err(error) => Err(error),
        Ok(trim_min) => match spec_required_f64(name, parameters, "trim_max"@) {
            Err(error) => Err(error),
            Ok(trim_max) => match spec_required_f64(name, parameters, "min_demand"@) {
                Err(error) => Err(error),
                Ok(min_demand) => match spec_required_f64(name, parameters, "max_demand"@) {
                    Err(error) => Err(error),
                    Ok(max_demand) => match read_response(name, parameters, "on_bad_ff"@) {
                        Err(error) => Err(error),
                        Ok(on_bad_ff) => match read_response(name, parameters, "on_bad_trim"@) {
                            Err(error) => Err(error),
                            Ok(on_bad_trim) => Ok(
                                FeedforwardSumConfig {
                                    trim_min,
                                    trim_max,
                                    min_demand,
                                    max_demand,
                                    on_bad_ff,
                                    on_bad_trim,
                                },
                            ),
                        },
                    },
                },
            },
        },
    }
}

/// The block that the parameters declare.
pub open spec fn spec_from_parameters(
    name: Seq<char>,
    io: FeedforwardSumIo,
    parameters: Map<Seq<char>, Value>,
) -> Result<SumView, ParameterErrorView> {
    match read_config(name, parameters) {
        Err(error) => Err(error),
        Ok(config) => spec_new(name, io, config),
    }
}

/// The names that a checkpoint may hold.
pub open spec fn known_names() -> Seq<Seq<char>> {
    seq![
        "trim_min"@,
        "trim_max"@,
        "min_demand"@,
        "max_demand"@,
        "on_bad_ff"@,
        "on_bad_trim"@,
        "last_ff"@,
        "last_trim"@,
    ]
}

/// The response that a checkpoint carries under `key`.
pub open spec fn response_field(
    fields: Map<Seq<char>, Value>,
    name: Seq<char>,
    key: Seq<char>,
) -> Result<BadTermResponse, StateErrorView> {
    match int_field(fields, name, key) {
        Err(error) => Err(error),
        Ok(code) => match BadTermResponse::spec_decode(code as int) {
            None => Err(spec_invalid_value(name, key, Value::Int(code))),
            Some(response) => Ok(response),
        },
    }
}

/// The tuning that a checkpoint carries, whatever its bounds.
pub open spec fn restored_config(fields: Map<Seq<char>, Value>, name: Seq<char>) -> Result<
    FeedforwardSumConfig,
    StateErrorView,
> {
    match float_field(fields, name, "trim_min"@) {
        Err(error) => Err(error),
        Ok(trim_min) => match float_field(fields, name, "trim_max"@) {
            Err(error) => Err(error),
            Ok(trim_max) => match float_field(fields, name, "min_demand"@) {
                Err(error) => Err(error),
                Ok(min_demand) => match float_field(fields, name, "max_demand"@) {
                    Err(error) => Err(error),
                    Ok(max_demand) => match response_field(fields, name, "on_bad_ff"@) {
                        Err(error) => Err(error),
                        Ok(on_bad_ff) => match response_field(fields, name, "on_bad_trim"@) {
                            Err(error) => Err(error),
                            Ok(on_bad_trim) => Ok(
                                FeedforwardSumConfig {
                                    trim_min,
                                    trim_max,
                                    min_demand,
                                    max_demand,
                                    on_bad_ff,
                                    on_bad_trim,
                                },
                            ),
                        },
                    },
                },
            },
        },
    }
}

/// What a term contributes to the sum.
pub open spec fn served(
    reading: Reading<Float>,
    last: Option<Float>,
    response: BadTermResponse,
) -> Float {
    if reading.usable() {
        reading.value
    } else {
        match (response, last) {
            (BadTermResponse::Hold, Some(held)) => held,
            _ => Float::spec_zero(),
        }
    }
}

/// What a term contributes to the sum.
fn serve(reading: Reading<Float>, last: Option<Float>, response: BadTermResponse) -> (r: Float)
    ensures
        r == served(reading, last, response),
{
    if reading.is_usable() {
        reading.value
    } else {
        match (response, last) {
            (BadTermResponse::Hold, Some(held)) => held,
            _ => Float::zero(),
        }
    }
}

impl SumView {
    /// The invariant: the bounds can stand, and the held values are finite.
    pub open spec fn wf(self) -> bool {
        &&& self.config.flaw() is None
        &&& self.last_ff matches Some(held) ==> held.finite()
        &&& self.last_trim matches Some(held) ==> held.finite()
    }

    /// What `ff` contributes to the sum of a scan.
    pub open spec fn ff_term(self, ff: Reading<Float>) -> Float {
        served(ff, self.last_ff, self.config.on_bad_ff)
    }

    /// The trim of a scan before its bounds.
    pub open spec fn raw_trim(self, trim: Reading<Float>) -> Float {
        served(trim, self.last_trim, self.config.on_bad_trim)
    }

    /// What the trim contributes to the sum of a scan.
    pub open spec fn trim_term(self, trim: Reading<Float>) -> Float {
        self.raw_trim(trim).clamped(self.config.trim_min, self.config.trim_max)
    }

    /// The demand of a scan whose terms add up to `sum`.
    pub open spec fn demand(self, sum: Float) -> Float {
        sum.clamped(self.config.min_demand, self.config.max_demand)
    }

    /// Whether a bound moves its value in a scan whose terms add up to
    /// `sum`.
    pub open spec fn clamps(self, trim: Reading<Float>, sum: Float) -> bool {
        !self.trim_term(trim).same(self.raw_trim(trim)) || !self.demand(sum).same(sum)
    }

    /// The block after a scan.
    pub open spec fn after(self, ff: Reading<Float>, trim: Reading<Float>) -> SumView {
        SumView {
            last_ff: if ff.usable() {
                Some(ff.value)
            } else {
                self.last_ff
            },
            last_trim: if trim.usable() {
                Some(trim.value)
            } else {
                self.last_trim
            },
            ..self
        }
    }

    /// What the block drives in a scan whose terms add up to `sum`, in
    /// order.
    pub open spec fn writes(
        self,
        ff: Reading<Float>,
        trim: Reading<Float>,
        sum: Float,
        tick: Tick,
    ) -> Seq<Write> {
        seq![
            Write::of(
                self.io.out,
                Value::Float(self.demand(sum)),
                pair_quality(ff, trim),
                tick,
            ),
            Write::of(
                self.io.clamped,
                Value::Bool(self.clamps(trim, sum)),
                Quality::Good,
                tick,
            ),
            Write::of(
                self.io.fallback_active,
                Value::Bool(!(ff.usable() && trim.usable())),
                Quality::Good,
                tick,
            ),
        ]
    }

    /// The declared ports.
    pub open spec fn requirements(self) -> Seq<RequirementView> {
        seq![
            spec_input("ff"@, ValueKind::Float, self.io.ff),
            spec_input("trim"@, ValueKind::Float, self.io.trim),
            spec_output("out"@, ValueKind::Float, self.io.out),
            spec_output("clamped"@, ValueKind::Bool, self.io.clamped),
            spec_output("fallback_active"@, ValueKind::Bool, self.io.fallback_active),
        ]
    }

    /// The roles of the ports.
    pub open spec fn roles(self) -> Seq<(Seq<char>, PortRole)> {
        seq![
            ("ff"@, PortRole::ProcessValue),
            ("trim"@, PortRole::ProcessValue),
            ("out"@, PortRole::Output),
            ("clamped"@, PortRole::Status),
            ("fallback_active"@, PortRole::Status),
        ]
    }

    /// The declared parameters.
    pub open spec fn parameters(self) -> Seq<ParameterView> {
        seq![
            spec_parameter("trim_min"@, ValueKind::Float, spec_finite_f64()),
            spec_parameter("trim_max"@, ValueKind::Float, spec_finite_f64()),
            spec_parameter("min_demand"@, ValueKind::Float, spec_finite_f64()),
            spec_parameter("max_demand"@, ValueKind::Float, spec_finite_f64()),
            spec_parameter("on_bad_ff"@, ValueKind::Int, spec_int_range(0, 1)),
            spec_parameter("on_bad_trim"@, ValueKind::Int, spec_int_range(0, 1)),
        ]
    }

    /// The block's description.
    pub open spec fn description(self) -> ComponentView {
        spec_component(
            self.name,
            FeedforwardSum::KIND@,
            self.requirements(),
            self.roles(),
            self.parameters(),
        )
    }

    /// The block with a retuned bound put in by `put`, or its refusal.
    pub open spec fn tuned_bounds(
        self,
        parameter: Seq<char>,
        value: Value,
        put: spec_fn(Float) -> FeedforwardSumConfig,
    ) -> Result<SumView, CommandErrorView> {
        match spec_tune_f64(self.name, parameter, value) {
            Err(error) => Err(error),
            Ok(bound) => if !bound.finite() {
                Err(spec_invalid_parameter(self.name, parameter, "must be finite"@))
            } else if !put(bound).ordered() {
                Err(
                    spec_invalid_parameter(
                        self.name,
                        parameter,
                        "bounds must keep trim_min <= trim_max and min_demand <= max_demand"@,
                    ),
                )
            } else {
                Ok(SumView { config: put(bound), ..self })
            },
        }
    }

    /// A retuned response.
    pub open spec fn tuned_response(self, parameter: Seq<char>, value: Value) -> Result<
        BadTermResponse,
        CommandErrorView,
    > {
        match spec_tune_u64(self.name, parameter, value) {
            Err(error) => Err(error),
            Ok(code) => match BadTermResponse::spec_decode(code as int) {
                None => Err(
                    spec_invalid_parameter(self.name, parameter, "expected 0 (drop) or 1 (hold)"@),
                ),
                Some(response) => Ok(response),
            },
        }
    }

    /// The block after a retune, or its refusal.
    pub open spec fn tuned(self, parameter: Seq<char>, value: Value) -> Result<
        SumView,
        CommandErrorView,
    > {
        let config = self.config;
        if parameter == "trim_min"@ {
            self.tuned_bounds(
                parameter,
                value,
                |trim_min: Float| FeedforwardSumConfig { trim_min, ..config },
            )
        } else if parameter == "trim_max"@ {
            self.tuned_bounds(
                parameter,
                value,
                |trim_max: Float| FeedforwardSumConfig { trim_max, ..config },
            )
        } else if parameter == "min_demand"@ {
            self.tuned_bounds(
                parameter,
                value,
                |min_demand: Float| FeedforwardSumConfig { min_demand, ..config },
            )
        } else if parameter == "max_demand"@ {
            self.tuned_bounds(
                parameter,
                value,
                |max_demand: Float| FeedforwardSumConfig { max_demand, ..config },
            )
        } else if parameter == "on_bad_ff"@ {
            match self.tuned_response(parameter, value) {
                Err(error) => Err(error),
                Ok(on_bad_ff) => Ok(
                    SumView { config: FeedforwardSumConfig { on_bad_ff, ..config }, ..self },
                ),
            }
        } else if parameter == "on_bad_trim"@ {
            match self.tuned_response(parameter, value) {
                Err(error) => Err(error),
                Ok(on_bad_trim) => Ok(
                    SumView { config: FeedforwardSumConfig { on_bad_trim, ..config }, ..self },
                ),
            }
        } else {
            Err(spec_unknown_parameter(self.name, parameter))
        }
    }

    /// The tuning as fields.
    pub open spec fn reported(self) -> Map<Seq<char>, Value> {
        Map::empty().insert("trim_min"@, Value::Float(self.config.trim_min)).insert(
            "trim_max"@,
            Value::Float(self.config.trim_max),
        ).insert("min_demand"@, Value::Float(self.config.min_demand)).insert(
            "max_demand"@,
            Value::Float(self.config.max_demand),
        ).insert("on_bad_ff"@, Value::Int(self.config.on_bad_ff.spec_code())).insert(
            "on_bad_trim"@,
            Value::Int(self.config.on_bad_trim.spec_code()),
        )
    }

    /// The tuning and the held values as fields; a held value is there once
    /// there is one.
    pub open spec fn captured(self) -> Map<Seq<char>, Value> {
        let with_ff = match self.last_ff {
            Some(held) => self.reported().insert("last_ff"@, Value::Float(held)),
            None => self.reported(),
        };
        match self.last_trim {
            Some(held) => with_ff.insert("last_trim"@, Value::Float(held)),
            None => with_ff,
        }
    }

    /// The block with a checkpoint taken over, or the checkpoint's refusal.
    pub open spec fn restored(
        self,
        keys: Seq<Seq<char>>,
        fields: Map<Seq<char>, Value>,
    ) -> Result<SumView, StateErrorView> {
        let name = self.name;
        match known_fields(keys, name, known_names()) {
            Err(error) => Err(error),
            Ok(_) => match restored_config(fields, name) {
                Err(error) => Err(error),
                Ok(config) => match optional(
                    fields,
                    "last_ff"@,
                    float_field(fields, name, "last_ff"@),
                ) {
                    Err(error) => Err(error),
                    Ok(last_ff) => match optional(
                        fields,
                        "last_trim"@,
                        float_field(fields, name, "last_trim"@),
                    ) {
                        Err(error) => Err(error),
                        Ok(last_trim) => SumView {
                            config,
                            last_ff,
                            last_trim,
                            ..self
                        }.checked(),
                    },
                },
            },
        }
    }

    /// The block with what a checkpoint carried, or the refusal of a value
    /// that it cannot run under.
    pub open spec fn checked(self) -> Result<SumView, StateErrorView> {
        match self.config.flaw() {
            Some(flaw) => Err(
                spec_invalid_value(self.name, flaw.parameter, Value::Float(flaw.value)),
            ),
            None => if self.last_ff matches Some(held) && !held.finite() {
                Err(spec_invalid_value(self.name, "last_ff"@, Value::Float(self.last_ff->0)))
            } else if self.last_trim matches Some(held) && !held.finite() {
                Err(spec_invalid_value(self.name, "last_trim"@, Value::Float(self.last_trim->0)))
            } else {
                Ok(self)
            },
        }
    }
}

impl FeedforwardSum {
    /// The kind a plant model selects this block by.
    pub const KIND: &'static str = "feedforward-sum";

    /// Builds a feed-forward sum, or tells why it cannot be built.
    pub fn new(name: &str, io: FeedforwardSumIo, config: FeedforwardSumConfig) -> (r: Result<
        FeedforwardSum,
        ParameterError,
    >)
        ensures
            match r {
                Ok(block) => block@.wf() && spec_new(name@, io, config) == Ok::<
                    SumView,
                    ParameterErrorView,
                >(block@),
                Err(error) => spec_new(name@, io, config) == Err::<
                    SumView,
                    ParameterErrorView,
                >(error@),
            },
    {
        match config.find_flaw() {
            Some((parameter, _, detail)) => Err(params::invalid(name, parameter, detail)),
            None => Ok(
                FeedforwardSum {
                    name: name.to_owned(),
                    io,
                    config,
                    last_ff: None,
                    last_trim: None,
                },
            ),
        }
    }

    /// The tuning.
    pub fn config(&self) -> (r: FeedforwardSumConfig)
        ensures
            r == self@.config,
    {
        self.config
    }

    /// Builds a feed-forward sum from the parameters of a plant model.
    pub fn from_parameters(name: &str, io: FeedforwardSumIo, parameters: &Parameters) -> (r: Result<
        FeedforwardSum,
        ParameterError,
    >)
        ensures
            match r {
                Ok(block) => block@.wf() && spec_from_parameters(name@, io, parameters@) == Ok::<
                    SumView,
                    ParameterErrorView,
                >(block@),
                Err(error) => spec_from_parameters(name@, io, parameters@) == Err::<
                    SumView,
                    ParameterErrorView,
                >(error@),
            },
    {
        let trim_min = params::required_f64(name, parameters, "trim_min")?;
        let trim_max = params::required_f64(name, parameters, "trim_max")?;
        let min_demand = params::required_f64(name, parameters, "min_demand")?;
        let max_demand = params::required_f64(name, parameters, "max_demand")?;
        let on_bad_ff = response_parameter(name, parameters, "on_bad_ff")?;
        let on_bad_trim = response_parameter(name, parameters, "on_bad_trim")?;
        FeedforwardSum::new(
            name,
            io,
            FeedforwardSumConfig {
                trim_min,
                trim_max,
                min_demand,
                max_demand,
                on_bad_ff,
                on_bad_trim,
            },
        )
    }

    /// The block's name.
    pub fn name(&self) -> (r: &str)
        ensures
            r@ == self@.name,
    {
        self.name.as_str()
    }

    /// The declared ports.
    pub fn io_requirements(&self) -> (r: Vec<IoRequirement>)
        ensures
            requirement_views(r@) == self@.requirements(),
    {
        let mut r: Vec<IoRequirement> = Vec::new();
        r.push(describe::input("ff", ValueKind::Float, self.io.ff));
        r.push(describe::input("trim", ValueKind::Float, self.io.trim));
        r.push(describe::output("out", ValueKind::Float, self.io.out));
        r.push(describe::output("clamped", ValueKind::Bool, self.io.clamped));
        r.push(describe::output("fallback_active", ValueKind::Bool, self.io.fallback_active));
        assert(requirement_views(r@) == self@.requirements());
        r
    }

    /// The two terms that a scan adds up: what `ff` contributes, and what the
    /// trim contributes within its bounds.
    pub fn terms(&self, ff: Reading<Float>, trim: Reading<Float>) -> (r: (Float, Float))
        requires
            self@.wf(),
        ensures
            r == (self@.ff_term(ff), self@.trim_term(trim)),
            r.0.finite(),
            r.1.finite(),
    {
        let served_ff = serve(ff, self.last_ff, self.config.on_bad_ff);
        let served_trim = serve(trim, self.last_trim, self.config.on_bad_trim);
        (served_ff, served_trim.clamp(self.config.trim_min, self.config.trim_max))
    }

    /// Runs one scan on what `ff` and `trim` read. `sum` is the sum of the
    /// two [`terms`](Self::terms).
    pub fn step(
        &mut self,
        ff: Reading<Float>,
        trim: Reading<Float>,
        sum: Float,
        tick: Tick,
    ) -> (r: Vec<Write>)
        requires
            old(self)@.wf(),
        ensures
            final(self)@ == old(self)@.after(ff, trim),
            final(self)@.wf(),
            r@ == old(self)@.writes(ff, trim, sum, tick),
    {
        let config = self.config;
        let served_trim = serve(trim, self.last_trim, config.on_bad_trim);
        let bounded_trim = served_trim.clamp(config.trim_min, config.trim_max);
        let demand = sum.clamp(config.min_demand, config.max_demand);
        let clamped = !bounded_trim.equals(served_trim) || !demand.equals(sum);
        let ff_ok = ff.is_usable();
        if ff_ok {
            self.last_ff = Some(ff.value);
        }
        let trim_ok = trim.is_usable();
        if trim_ok {
            self.last_trim = Some(trim.value);
        }
        let quality = merged_quality(ff, trim);
        let mut r: Vec<Write> = Vec::new();
        r.push(Write::new(self.io.out, Value::Float(demand), quality, tick));
        r.push(Write::new(self.io.clamped, Value::Bool(clamped), Quality::Good, tick));
        r.push(
            Write::new(
                self.io.fallback_active,
                Value::Bool(!(ff_ok && trim_ok)),
                Quality::Good,
                tick,
            ),
        );
        r
    }

    /// Describes the block.
    pub fn describe(&self) -> (r: ComponentDescriptor)
        ensures
            r@ == self@.description(),
    {
        let mut roles: Vec<RoleHint> = Vec::new();
        roles.push(describe::hint("ff", PortRole::ProcessValue));
        roles.push(describe::hint("trim", PortRole::ProcessValue));
        roles.push(describe::hint("out", PortRole::Output));
        roles.push(describe::hint("clamped", PortRole::Status));
        roles.push(describe::hint("fallback_active", PortRole::Status));
        assert(role_views(roles@) == self@.roles());
        let mut parameters: Vec<ParameterDescriptor> = Vec::new();
        parameters.push(
            describe::parameter("trim_min", ValueKind::Float, Some(describe::finite_f64())),
        );
        parameters.push(
            describe::parameter("trim_max", ValueKind::Float, Some(describe::finite_f64())),
        );
        parameters.push(
            describe::parameter("min_demand", ValueKind::Float, Some(describe::finite_f64())),
        );
        parameters.push(
            describe::parameter("max_demand", ValueKind::Float, Some(describe::finite_f64())),
        );
        parameters.push(
            describe::parameter("on_bad_ff", ValueKind::Int, Some(describe::int_range(0, 1))),
        );
        parameters.push(
            describe::parameter("on_bad_trim", ValueKind::Int, Some(describe::int_range(0, 1))),
        );
        assert(parameter_views(parameters@) == self@.parameters());
        proof {
            describe::parallel_hints(self@.requirements(), self@.roles());
        }
        describe::component(
            self.name.as_str(),
            FeedforwardSum::KIND,
            &self.io_requirements(),
            &roles,
            parameters,
        )
    }

    fn tune_bound(&self, parameter: &str, value: Value) -> (r: Result<Float, CommandError>)
        ensures
            match r {
                Ok(bound) => spec_tune_f64(self@.name, parameter@, value) == Ok::<
                    Float,
                    CommandErrorView,
                >(bound) && bound.finite(),
                Err(error) => match spec_tune_f64(self@.name, parameter@, value) {
                    Ok(bound) => !bound.finite() && error@ == spec_invalid_parameter(
                        self@.name,
                        parameter@,
                        "must be finite"@,
                    ),
                    Err(refusal) => error@ == refusal,
                },
            },
    {
        let bound = params::tune_f64(self.name.as_str(), parameter, value)?;
        if bound.is_finite() {
            Ok(bound)
        } else {
            Err(params::invalid_parameter(self.name.as_str(), parameter, "must be finite"))
        }
    }

    fn tune_response(&self, parameter: &str, value: Value) -> (r: Result<
        BadTermResponse,
        CommandError,
    >)
        ensures
            params::tuned(r, self@.tuned_response(parameter@, value)),
    {
        let code: u64 = params::tune_u64(self.name.as_str(), parameter, value)?;
        match BadTermResponse::decode(params::code_of(code)) {
            Some(response) => Ok(response),
            None => Err(
                params::invalid_parameter(
                    self.name.as_str(),
                    parameter,
                    "expected 0 (drop) or 1 (hold)",
                ),
            ),
        }
    }

    /// Retunes one declared parameter at the scan boundary. A value that
    /// breaks a pair of bounds is refused, and a refused value changes
    /// nothing.
    pub fn apply_parameter(&mut self, parameter: &str, value: Value) -> (r: Result<
        (),
        CommandError,
    >)
        requires
            old(self)@.wf(),
        ensures
            final(self)@.wf(),
            match r {
                Ok(_) => old(self)@.tuned(parameter@, value) == Ok::<SumView, CommandErrorView>(
                    final(self)@,
                ),
                Err(error) => old(self)@.tuned(parameter@, value) == Err::<
                    SumView,
                    CommandErrorView,
                >(error@) && final(self)@ == old(self)@,
            },
    {
        let mut config = self.config;
        if text::same(parameter, "trim_min") {
            config.trim_min = self.tune_bound(parameter, value)?;
        } else if text::same(parameter, "trim_max") {
            config.trim_max = self.tune_bound(parameter, value)?;
        } else if text::same(parameter, "min_demand") {
            config.min_demand = self.tune_bound(parameter, value)?;
        } else if text::same(parameter, "max_demand") {
            config.max_demand = self.tune_bound(parameter, value)?;
        } else if text::same(parameter, "on_bad_ff") {
            config.on_bad_ff = self.tune_response(parameter, value)?;
        } else if text::same(parameter, "on_bad_trim") {
            config.on_bad_trim = self.tune_response(parameter, value)?;
        } else {
            return Err(params::unknown_parameter(self.name.as_str(), parameter));
        }
        if config.trim_max.less_than(config.trim_min) || config.max_demand.less_than(
            config.min_demand,
        ) {
            return Err(
                params::invalid_parameter(
                    self.name.as_str(),
                    parameter,
                    "bounds must keep trim_min <= trim_max and min_demand <= max_demand",
                ),
            );
        }
        self.config = config;
        Ok(())
    }

    /// Reports the tuning under the names that a checkpoint uses.
    pub fn report_parameters(&self) -> (r: StateMap)
        ensures
            r@ == self@.reported(),
    {
        let mut r = StateMap::new();
        r.insert("trim_min", Value::Float(self.config.trim_min));
        r.insert("trim_max", Value::Float(self.config.trim_max));
        r.insert("min_demand", Value::Float(self.config.min_demand));
        r.insert("max_demand", Value::Float(self.config.max_demand));
        r.insert("on_bad_ff", Value::Int(self.config.on_bad_ff.code()));
        r.insert("on_bad_trim", Value::Int(self.config.on_bad_trim.code()));
        r
    }

    /// Captures the tuning and the held values, so that a standby continues
    /// an engaged response.
    pub fn capture_state(&self) -> (r: StateMap)
        ensures
            r@ == self@.captured(),
    {
        let mut r = self.report_parameters();
        if let Some(held) = self.last_ff {
            r.insert("last_ff", Value::Float(held));
        }
        if let Some(held) = self.last_trim {
            r.insert("last_trim", Value::Float(held));
        }
        r
    }

    fn restore_response(&self, state: &StateMap, key: &str) -> (r: Result<
        BadTermResponse,
        StateError,
    >)
        ensures
            table::agrees(r, response_field(state@, self@.name, key@)),
    {
        let code: i64 = state.require_i64(self.name.as_str(), key)?;
        match BadTermResponse::decode(code) {
            Some(response) => Ok(response),
            None => Err(table::invalid_value(self.name.as_str(), key, Value::Int(code))),
        }
    }

    fn restore_config(&self, state: &StateMap) -> (r: Result<FeedforwardSumConfig, StateError>)
        ensures
            table::agrees(r, restored_config(state@, self@.name)),
    {
        let name = self.name.as_str();
        let trim_min = state.require_f64(name, "trim_min")?;
        let trim_max = state.require_f64(name, "trim_max")?;
        let min_demand = state.require_f64(name, "min_demand")?;
        let max_demand = state.require_f64(name, "max_demand")?;
        let on_bad_ff = self.restore_response(state, "on_bad_ff")?;
        let on_bad_trim = self.restore_response(state, "on_bad_trim")?;
        Ok(
            FeedforwardSumConfig {
                trim_min,
                trim_max,
                min_demand,
                max_demand,
                on_bad_ff,
                on_bad_trim,
            },
        )
    }

    /// Takes over a checkpoint. The whole checkpoint is read before anything
    /// changes, so a refused one leaves the block as it was.
    pub fn restore_state(&mut self, state: &StateMap) -> (r: Result<(), StateError>)
        requires
            old(self)@.wf(),
        ensures
            final(self)@.wf(),
            match r {
                Ok(_) => old(self)@.restored(state.keys(), state@) == Ok::<
                    SumView,
                    StateErrorView,
                >(final(self)@),
                Err(error) => old(self)@.restored(state.keys(), state@) == Err::<
                    SumView,
                    StateErrorView,
                >(error@) && final(self)@ == old(self)@,
            },
    {
        let mut known: Vec<String> = Vec::new();
        known.push("trim_min".to_owned());
        known.push("trim_max".to_owned());
        known.push("min_demand".to_owned());
        known.push("max_demand".to_owned());
        known.push("on_bad_ff".to_owned());
        known.push("on_bad_trim".to_owned());
        known.push("last_ff".to_owned());
        known.push("last_trim".to_owned());
        assert(text::views(known@) == known_names());
        let name = self.name.as_str();
        state.ensure_known_fields(name, &known)?;
        let config = self.restore_config(state)?;
        let last_ff = state.optional_f64(name, "last_ff")?;
        let last_trim = state.optional_f64(name, "last_trim")?;
        if let Some((parameter, value, _)) = config.find_flaw() {
            return Err(table::invalid_value(name, parameter, Value::Float(value)));
        }
        if let Some(held) = last_ff {
            if !held.is_finite() {
                return Err(table::invalid_value(name, "last_ff", Value::Float(held)));
            }
        }
        if let Some(held) = last_trim {
            if !held.is_finite() {
                return Err(table::invalid_value(name, "last_trim", Value::Float(held)));
            }
        }
        self.config = config;
        self.last_ff = last_ff;
        self.last_trim = last_trim;
        Ok(())
    }
}

fn response_parameter(name: &str, parameters: &Parameters, key: &str) -> (r: Result<
    BadTermResponse,
    ParameterError,
>)
    ensures
        params::agrees(r, read_response(name@, parameters@, key@)),
{
    let code: u64 = params::required_u64(name, parameters, key)?;
    match BadTermResponse::decode(params::code_of(code)) {
        Some(response) => Ok(response),
        None => {
            let found = if code <= i64::MAX as u64 {
                text::decimal_text(code)
            } else {
                text::numbered("-", (u64::MAX - code) + 1)
            };
            Err(
                params::invalid(
                    name,
                    key,
                    text::join("expected 0 (drop) or 1 (hold), found ", found.as_str()).as_str(),
                ),
            )
        },
    }
}

/// Every response code names the response it was taken from, and no other
/// code names one.
pub proof fn term_codes_read_back(response: BadTermResponse, code: i64)
    ensures
        BadTermResponse::spec_decode(response.spec_code() as int) == Some(response),
        BadTermResponse::spec_decode(code as int) matches Some(named) ==> named.spec_code() == code,
{
}

/// The trim trims, it never owns the demand: whatever it reads, what it
/// contributes lies within its bounds.
pub proof fn trim_stays_in_its_authority(block: SumView, trim: Reading<Float>)
    requires
        block.wf(),
    ensures
        block.config.trim_min.le(block.trim_term(trim)),
        block.trim_term(trim).le(block.config.trim_max),
{
    clamp_holds_the_range(block.raw_trim(trim), block.config.trim_min, block.config.trim_max);
}

/// The demand lies within its bounds, whatever the terms add up to.
pub proof fn demand_stays_in_bounds(block: SumView, sum: Float)
    requires
        block.wf(),
        !sum.nan(),
    ensures
        block.config.min_demand.le(block.demand(sum)),
        block.demand(sum).le(block.config.max_demand),
        block.demand(sum).finite(),
{
    clamp_holds_the_range(sum, block.config.min_demand, block.config.max_demand);
}

/// A value within its bounds, resting on one of them included, is not
/// reported as clamped; one outside is.
pub proof fn clamped_reports_a_moved_value(block: SumView, trim: Reading<Float>, sum: Float)
    requires
        block.wf(),
        !sum.nan(),
    ensures
        ({
            let config = block.config;
            let raw = block.raw_trim(trim);
            block.clamps(trim, sum) <==> raw.lt(config.trim_min) || config.trim_max.lt(raw)
                || sum.lt(config.min_demand) || config.max_demand.lt(sum)
        }),
{
}

/// A dropped term contributes zero; a held one its last trusted value, or
/// zero before the first.
pub proof fn untrusted_terms_respond(block: SumView, ff: Reading<Float>, trim: Reading<Float>)
    requires
        !ff.usable(),
        !trim.usable(),
    ensures
        block.config.on_bad_ff == BadTermResponse::Drop ==> block.ff_term(ff) == Float::spec_zero(),
        block.config.on_bad_ff == BadTermResponse::Hold ==> block.ff_term(ff)
            == match block.last_ff {
            Some(held) => held,
            None => Float::spec_zero(),
        },
        block.config.on_bad_trim == BadTermResponse::Drop ==> block.raw_trim(trim)
            == Float::spec_zero(),
        block.config.on_bad_trim == BadTermResponse::Hold ==> block.raw_trim(trim)
            == match block.last_trim {
            Some(held) => held,
            None => Float::spec_zero(),
        },
{
}

/// The terms respond independently: what one reads does not change what the
/// other contributes or holds.
pub proof fn terms_respond_independently(
    block: SumView,
    ff: Reading<Float>,
    other_ff: Reading<Float>,
    trim: Reading<Float>,
    other_trim: Reading<Float>,
)
    ensures
        block.after(ff, trim).last_trim == block.after(other_ff, trim).last_trim,
        block.after(ff, trim).last_ff == block.after(ff, other_trim).last_ff,
{
}

/// An untrusted term is held frozen and marks the output; the first trusted
/// reading serves and is held again. Either term does so, whatever the other
/// one reads.
pub proof fn responses_do_not_latch(
    block: SumView,
    bad: Reading<Float>,
    good: Reading<Float>,
    other: Reading<Float>,
    sum: Float,
    tick: Tick,
)
    requires
        !bad.usable(),
        good.usable(),
    ensures
        block.after(bad, other).last_ff == block.last_ff,
        block.after(bad, other).ff_term(good) == good.value,
        block.after(good, other).last_ff == Some(good.value),
        block.after(other, bad).last_trim == block.last_trim,
        block.after(other, bad).raw_trim(good) == good.value,
        block.after(other, good).last_trim == Some(good.value),
        block.writes(bad, other, sum, tick)[0].sample.quality != Quality::Good,
        block.writes(other, bad, sum, tick)[0].sample.quality != Quality::Good,
        block.writes(bad, other, sum, tick)[2].sample.value == Value::Bool(true),
        block.writes(other, bad, sum, tick)[2].sample.value == Value::Bool(true),
        block.writes(good, good, sum, tick)[0].sample.quality == Quality::Good,
        block.writes(good, good, sum, tick)[2].sample.value == Value::Bool(false),
{
    merge_is_worst_of(bad.quality, other.quality);
    merge_is_worst_of(other.quality, bad.quality);
}

/// A retune leaves the held terms alone.
pub proof fn retunes_keep_the_held_terms(block: SumView, parameter: Seq<char>, value: Value)
    ensures
        block.tuned(parameter, value) matches Ok::<SumView, CommandErrorView>(tuned)
            ==> tuned == (SumView { config: tuned.config, ..block }),
{
}

/// Building reads exactly the described parameters: whatever else is
/// declared makes no difference, and without one of them nothing is built.
pub proof fn building_reads_the_described(
    block: SumView,
    a: Map<Seq<char>, Value>,
    b: Map<Seq<char>, Value>,
    i: int,
)
    ensures
        ({
            let described = block.description().parameters;
            let from_a = spec_from_parameters(block.name, block.io, a);
            let from_b = spec_from_parameters(block.name, block.io, b);
            &&& agree_on(described, a, b) ==> from_a == from_b
            &&& 0 <= i < described.len() && field(a, described[i].name) is None ==> from_a is Err
        }),
{
    let described = block.description().parameters;
    assert(described[0].name == "trim_min"@);
    assert(described[1].name == "trim_max"@);
    assert(described[2].name == "min_demand"@);
    assert(described[3].name == "max_demand"@);
    assert(described[4].name == "on_bad_ff"@);
    assert(described[5].name == "on_bad_trim"@);
}

/// Exactly the described parameters can be retuned: any other name is
/// refused as unknown.
pub proof fn tuning_takes_the_described(block: SumView, parameter: Seq<char>, value: Value)
    ensures
        ({
            let unknown = spec_unknown_parameter(block.name, parameter);
            let refused = Err::<SumView, CommandErrorView>(unknown);
            let described = block.description().parameters;
            describes_parameter(described, parameter) <==> block.tuned(parameter, value) != refused
        }),
{
    let described = block.description().parameters;
    assert(described[0].name == "trim_min"@);
    assert(described[1].name == "trim_max"@);
    assert(described[2].name == "min_demand"@);
    assert(described[3].name == "max_demand"@);
    assert(described[4].name == "on_bad_ff"@);
    assert(described[5].name == "on_bad_trim"@);
}

/// A block that takes over a checkpoint has the captured tuning and held
/// values.
pub proof fn sum_checkpoint_round_trip(block: SumView, standby: SumView, checkpoint: Table)
    requires
        block.wf(),
        checkpoint@ == block.captured(),
    ensures
        standby.restored(checkpoint.keys(), checkpoint@) == Ok::<SumView, StateErrorView>(
            SumView {
                config: block.config,
                last_ff: block.last_ff,
                last_trim: block.last_trim,
                ..standby
            },
        ),
{
    lemma_distinct_names();
    let names = known_names();
    assert(names[0] == "trim_min"@ && names[1] == "trim_max"@ && names[2] == "min_demand"@);
    assert(names[3] == "max_demand"@ && names[4] == "on_bad_ff"@ && names[5] == "on_bad_trim"@);
    assert(names[6] == "last_ff"@ && names[7] == "last_trim"@);
    known_names_pass(checkpoint, standby.name, names);
}

proof fn lemma_distinct_names()
    ensures
        known_names().no_duplicates(),
{
    reveal_strlit("trim_min");
    reveal_strlit("trim_max");
    reveal_strlit("min_demand");
    reveal_strlit("max_demand");
    reveal_strlit("on_bad_ff");
    reveal_strlit("on_bad_trim");
    reveal_strlit("last_ff");
    reveal_strlit("last_trim");
    assert("trim_min"@[6] != "trim_max"@[6]);
    assert("min_demand"@[1] != "max_demand"@[1]);
    assert("on_bad_ff"@[0] != "last_trim"@[0]);
    let names = known_names();
    assert forall|i: int, j: int| 0 <= i < j < 8 implies #[trigger] names[i]
        != #[trigger] names[j] by {
        assert(names[i].len() == names[j].len() ==> names[i] != names[j]);
    }
}

/// What the two terms contribute. A finite and `Good` reading contributes
/// itself; any other one, where it is dropped, zero, and where it is held, the
/// last that was finite and `Good`, or zero before the first. The trim is held
/// to its two bounds after that, `ff` is not.
pub proof fn terms_are_served_by_their_response(
    block: SumView,
    ff: Reading<Float>,
    trim: Reading<Float>,
)
    requires
        block.wf(),
    ensures
        ({
            let zero = Float { bits: 0 };
            let config = block.config;
            let good_ff = ff.quality is Good && ff.value.finite();
            let good_trim = trim.quality is Good && trim.value.finite();
            let served = if good_trim {
                trim.value
            } else if config.on_bad_trim is Hold && block.last_trim is Some {
                block.last_trim->0
            } else {
                zero
            };
            let ff_term = block.ff_term(ff);
            let trim_term = block.trim_term(trim);
            &&& good_ff ==> ff_term == ff.value
            &&& !good_ff && config.on_bad_ff is Drop ==> ff_term == zero
            &&& !good_ff && config.on_bad_ff is Hold && block.last_ff is Some ==> ff_term
                == block.last_ff->0
            &&& !good_ff && config.on_bad_ff is Hold && block.last_ff is None ==> ff_term == zero
            &&& served.lt(config.trim_min) ==> trim_term == config.trim_min
            &&& config.trim_max.lt(served) ==> trim_term == config.trim_max
            &&& config.trim_min.le(served) && served.le(config.trim_max) ==> trim_term == served
            &&& block.raw_trim(trim) == served
        }),
{
}

/// A scan holds each term's reading exactly where it is finite and `Good`, and
/// changes nothing else.
pub proof fn scans_hold_the_trusted_terms(
    block: SumView,
    ff: Reading<Float>,
    trim: Reading<Float>,
)
    ensures
        ({
            let after = block.after(ff, trim);
            let good_ff = ff.quality is Good && ff.value.finite();
            let good_trim = trim.quality is Good && trim.value.finite();
            &&& good_ff ==> after.last_ff == Some(ff.value)
            &&& !good_ff ==> after.last_ff == block.last_ff
            &&& good_trim ==> after.last_trim == Some(trim.value)
            &&& !good_trim ==> after.last_trim == block.last_trim
            &&& after.config == block.config && after.io == block.io && after.name == block.name
        }),
{
}

/// Every scan drives `out`, `clamped` and `fallback_active`, in this order and as
/// of this scan. `out` is the sum, held to the two bounds of the demand.
/// `clamped` tells whether a bound moves the trim or the sum, `fallback_active`
/// whether a term is not finite or not `Good`; both are always `Good`. `out` is a
/// device fault where a term is not finite, and otherwise as bad as the worse
/// term.
pub proof fn scans_drive_every_output(
    block: SumView,
    ff: Reading<Float>,
    trim: Reading<Float>,
    sum: Float,
    tick: Tick,
)
    requires
        block.wf(),
        !sum.nan(),
    ensures
        ({
            let writes = block.writes(ff, trim, sum, tick);
            let config = block.config;
            let out = writes[0].sample;
            let raw = block.raw_trim(trim);
            let good_ff = ff.quality is Good && ff.value.finite();
            let good_trim = trim.quality is Good && trim.value.finite();
            let finite = ff.value.finite() && trim.value.finite();
            let moved = raw.lt(config.trim_min) || config.trim_max.lt(raw) || sum.lt(
                config.min_demand,
            ) || config.max_demand.lt(sum);
            &&& writes.len() == 3
            &&& writes[0].point == block.io.out && writes[0].sample.tick == tick
            &&& writes[1].point == block.io.clamped && writes[1].sample.tick == tick
            &&& writes[2].point == block.io.fallback_active && writes[2].sample.tick == tick
            &&& sum.lt(config.min_demand) ==> out.value == Value::Float(config.min_demand)
            &&& config.max_demand.lt(sum) ==> out.value == Value::Float(config.max_demand)
            &&& config.min_demand.le(sum) && sum.le(config.max_demand) ==> out.value
                == Value::Float(sum)
            &&& writes[1].sample.value == Value::Bool(moved)
            &&& writes[2].sample.value == Value::Bool(!good_ff || !good_trim)
            &&& writes[1].sample.quality == Quality::Good
            &&& writes[2].sample.quality == Quality::Good
            &&& !finite ==> out.quality == Quality::Bad(QualityReason::DeviceFault)
            &&& finite && ff.quality is Good ==> out.quality == trim.quality
            &&& finite && trim.quality is Good ==> out.quality == ff.quality
            &&& finite && trim.quality is Bad ==> out.quality == trim.quality
            &&& finite && ff.quality is Bad && !(trim.quality is Bad) ==> out.quality == ff.quality
        }),
{
    pairs_carry_the_worse_quality(ff, trim);
    clamped_reports_a_moved_value(block, trim, sum);
}

/// A block is built exactly where the four bounds are declared and finite, both
/// pairs in order, and both responses declare 0 or 1, for dropping or holding.
/// It runs under them and holds nothing yet.
pub proof fn building_takes_the_declared(
    name: Seq<char>,
    io: FeedforwardSumIo,
    parameters: Map<Seq<char>, Value>,
)
    ensures
        ({
            let built = spec_from_parameters(name, io, parameters);
            let trim_min = spec_required_f64(name, parameters, "trim_min"@);
            let trim_max = spec_required_f64(name, parameters, "trim_max"@);
            let min_demand = spec_required_f64(name, parameters, "min_demand"@);
            let max_demand = spec_required_f64(name, parameters, "max_demand"@);
            let ff = spec_required_u64(name, parameters, "on_bad_ff"@);
            let trim = spec_required_u64(name, parameters, "on_bad_trim"@);
            &&& built is Ok <==> {
                &&& trim_min is Ok && trim_min->Ok_0.finite()
                &&& trim_max is Ok && trim_max->Ok_0.finite()
                &&& min_demand is Ok && min_demand->Ok_0.finite()
                &&& max_demand is Ok && max_demand->Ok_0.finite()
                &&& trim_min->Ok_0.le(trim_max->Ok_0) && min_demand->Ok_0.le(max_demand->Ok_0)
                &&& ff is Ok && ff->Ok_0 <= 1 && trim is Ok && trim->Ok_0 <= 1
            }
            &&& built is Ok ==> {
                let block = built->Ok_0;
                let config = block.config;
                &&& block.name == name && block.io == io
                &&& block.last_ff is None && block.last_trim is None
                &&& config.trim_min == trim_min->Ok_0 && config.trim_max == trim_max->Ok_0
                &&& config.min_demand == min_demand->Ok_0 && config.max_demand == max_demand->Ok_0
                &&& config.on_bad_ff is Drop <==> ff->Ok_0 == 0
                &&& config.on_bad_trim is Drop <==> trim->Ok_0 == 0
            }
            &&& trim_min is Err ==> built == Err::<SumView, ParameterErrorView>(trim_min->Err_0)
        }),
{
}

/// A refused build names the bound at fault: the first that is not finite, and
/// then the upper one of the first pair that is not in order.
pub proof fn refused_builds_name_the_bound(
    name: Seq<char>,
    io: FeedforwardSumIo,
    config: FeedforwardSumConfig,
)
    ensures
        ({
            let built = spec_new(name, io, config);
            let refused = |parameter: Seq<char>, detail: Seq<char>|
                built == Err::<SumView, ParameterErrorView>(
                    ParameterErrorView::Invalid { component: name, parameter, detail },
                );
            let one = config.trim_min.finite();
            let two = one && config.trim_max.finite();
            let three = two && config.min_demand.finite();
            let all = three && config.max_demand.finite();
            let trims = config.trim_min.le(config.trim_max);
            &&& !one ==> refused("trim_min"@, "must be finite"@)
            &&& one && !two ==> refused("trim_max"@, "must be finite"@)
            &&& two && !three ==> refused("min_demand"@, "must be finite"@)
            &&& three && !all ==> refused("max_demand"@, "must be finite"@)
            &&& all && !trims ==> refused("trim_max"@, "must be at least trim_min"@)
            &&& all && trims && !config.min_demand.le(config.max_demand) ==> refused(
                "max_demand"@,
                "must be at least min_demand"@,
            )
            &&& all && trims && config.min_demand.le(config.max_demand) ==> built == Ok::<
                SumView,
                ParameterErrorView,
            >(SumView { name, io, config, last_ff: None, last_trim: None })
        }),
{
}

/// A retune sets the named setting to the given value and nothing else: a finite
/// bound that keeps its pair in order, or a response of 0 or 1. Anything else is
/// refused.
pub proof fn retunes_set_the_named_setting(block: SumView, value: Value)
    requires
        block.wf(),
    ensures
        ({
            let read = spec_tune_f64(block.name, "trim_min"@, value);
            let tuned = block.tuned("trim_min"@, value);
            let config = FeedforwardSumConfig { trim_min: read->Ok_0, ..block.config };
            &&& tuned is Ok <==> read is Ok && read->Ok_0.finite() && read->Ok_0.le(
                block.config.trim_max,
            )
            &&& tuned is Ok ==> tuned->Ok_0 == (SumView { config, ..block })
        }),
        ({
            let read = spec_tune_f64(block.name, "trim_max"@, value);
            let tuned = block.tuned("trim_max"@, value);
            let config = FeedforwardSumConfig { trim_max: read->Ok_0, ..block.config };
            &&& tuned is Ok <==> read is Ok && read->Ok_0.finite() && block.config.trim_min.le(
                read->Ok_0,
            )
            &&& tuned is Ok ==> tuned->Ok_0 == (SumView { config, ..block })
        }),
        ({
            let read = spec_tune_f64(block.name, "min_demand"@, value);
            let tuned = block.tuned("min_demand"@, value);
            let config = FeedforwardSumConfig { min_demand: read->Ok_0, ..block.config };
            &&& tuned is Ok <==> read is Ok && read->Ok_0.finite() && read->Ok_0.le(
                block.config.max_demand,
            )
            &&& tuned is Ok ==> tuned->Ok_0 == (SumView { config, ..block })
        }),
        ({
            let read = spec_tune_f64(block.name, "max_demand"@, value);
            let tuned = block.tuned("max_demand"@, value);
            let config = FeedforwardSumConfig { max_demand: read->Ok_0, ..block.config };
            &&& tuned is Ok <==> read is Ok && read->Ok_0.finite() && block.config.min_demand.le(
                read->Ok_0,
            )
            &&& tuned is Ok ==> tuned->Ok_0 == (SumView { config, ..block })
        }),
        ({
            let code = spec_tune_u64(block.name, "on_bad_ff"@, value);
            let tuned = block.tuned("on_bad_ff"@, value);
            let on_bad_ff = tuned->Ok_0.config.on_bad_ff;
            let config = FeedforwardSumConfig { on_bad_ff, ..block.config };
            &&& tuned is Ok <==> code is Ok && code->Ok_0 <= 1
            &&& tuned is Ok ==> tuned->Ok_0 == (SumView { config, ..block }) && (on_bad_ff is Drop
                <==> code->Ok_0 == 0)
        }),
        ({
            let code = spec_tune_u64(block.name, "on_bad_trim"@, value);
            let tuned = block.tuned("on_bad_trim"@, value);
            let on_bad_trim = tuned->Ok_0.config.on_bad_trim;
            let config = FeedforwardSumConfig { on_bad_trim, ..block.config };
            &&& tuned is Ok <==> code is Ok && code->Ok_0 <= 1
            &&& tuned is Ok ==> tuned->Ok_0 == (SumView { config, ..block }) && (on_bad_trim is Drop
                <==> code->Ok_0 == 0)
        }),
{
    reveal_strlit("trim_min");
    reveal_strlit("trim_max");
    reveal_strlit("min_demand");
    reveal_strlit("max_demand");
    reveal_strlit("on_bad_ff");
    reveal_strlit("on_bad_trim");
    assert("trim_min"@.len() == 8);
    assert("trim_max"@.len() == 8);
    assert("min_demand"@.len() == 10);
    assert("max_demand"@.len() == 10);
    assert("on_bad_ff"@.len() == 9);
    assert("on_bad_trim"@.len() == 11);
    assert("trim_min"@[6] != "trim_max"@[6]);
    assert("min_demand"@[1] != "max_demand"@[1]);
}

/// A report holds the six settings under their names; a checkpoint holds them
/// and, once there is one, the held value of each term.
pub proof fn checkpoints_hold_the_tuning_and_the_terms(block: SumView)
    ensures
        ({
            let reported = block.reported();
            let captured = block.captured();
            let config = block.config;
            let code = |response: BadTermResponse|
                match response {
                    BadTermResponse::Drop => 0i64,
                    BadTermResponse::Hold => 1i64,
                };
            &&& reported.dom() == set![
                "trim_min"@,
                "trim_max"@,
                "min_demand"@,
                "max_demand"@,
                "on_bad_ff"@,
                "on_bad_trim"@,
            ]
            &&& reported["trim_min"@] == Value::Float(config.trim_min)
            &&& reported["trim_max"@] == Value::Float(config.trim_max)
            &&& reported["min_demand"@] == Value::Float(config.min_demand)
            &&& reported["max_demand"@] == Value::Float(config.max_demand)
            &&& reported["on_bad_ff"@] == Value::Int(code(config.on_bad_ff))
            &&& reported["on_bad_trim"@] == Value::Int(code(config.on_bad_trim))
            &&& block.last_ff is None && block.last_trim is None ==> captured == reported
            &&& captured.dom().contains("last_ff"@) <==> block.last_ff is Some
            &&& block.last_ff is Some ==> captured["last_ff"@] == Value::Float(block.last_ff->0)
            &&& captured.dom().contains("last_trim"@) <==> block.last_trim is Some
            &&& block.last_trim is Some ==> captured["last_trim"@] == Value::Float(
                block.last_trim->0,
            )
            &&& captured.remove("last_ff"@).remove("last_trim"@) == reported
        }),
{
    reveal_strlit("trim_min");
    reveal_strlit("trim_max");
    reveal_strlit("min_demand");
    reveal_strlit("max_demand");
    reveal_strlit("on_bad_ff");
    reveal_strlit("on_bad_trim");
    reveal_strlit("last_ff");
    reveal_strlit("last_trim");
    assert("trim_min"@.len() == 8);
    assert("trim_max"@.len() == 8);
    assert("min_demand"@.len() == 10);
    assert("max_demand"@.len() == 10);
    assert("on_bad_ff"@.len() == 9);
    assert("on_bad_trim"@.len() == 11);
    assert("last_ff"@.len() == 7);
    assert("last_trim"@.len() == 9);
    assert("trim_min"@[6] != "trim_max"@[6]);
    assert("min_demand"@[1] != "max_demand"@[1]);
    assert("on_bad_ff"@[0] != "last_trim"@[0]);
    assert(block.reported().dom() =~= set![
        "trim_min"@,
        "trim_max"@,
        "min_demand"@,
        "max_demand"@,
        "on_bad_ff"@,
        "on_bad_trim"@,
    ]);
    assert(block.captured().remove("last_ff"@).remove("last_trim"@) =~= block.reported());
}

/// A checkpoint is taken over exactly where it holds no other name, the four
/// bounds finite and in order, a code for each response and, where it holds them,
/// finite values of the terms. The block then runs under exactly what it holds.
pub proof fn restores_take_what_is_held(
    block: SumView,
    keys: Seq<Seq<char>>,
    fields: Map<Seq<char>, Value>,
)
    ensures
        ({
            let restored = block.restored(keys, fields);
            let name = block.name;
            let trim_min = float_field(fields, name, "trim_min"@);
            let trim_max = float_field(fields, name, "trim_max"@);
            let min_demand = float_field(fields, name, "min_demand"@);
            let max_demand = float_field(fields, name, "max_demand"@);
            let ff = int_field(fields, name, "on_bad_ff"@);
            let trim = int_field(fields, name, "on_bad_trim"@);
            let last_ff = float_field(fields, name, "last_ff"@);
            let last_trim = float_field(fields, name, "last_trim"@);
            let known = seq![
                "trim_min"@,
                "trim_max"@,
                "min_demand"@,
                "max_demand"@,
                "on_bad_ff"@,
                "on_bad_trim"@,
                "last_ff"@,
                "last_trim"@,
            ];
            &&& restored is Ok <==> {
                &&& known_fields(keys, name, known) is Ok
                &&& trim_min is Ok && trim_min->Ok_0.finite()
                &&& trim_max is Ok && trim_max->Ok_0.finite()
                &&& min_demand is Ok && min_demand->Ok_0.finite()
                &&& max_demand is Ok && max_demand->Ok_0.finite()
                &&& trim_min->Ok_0.le(trim_max->Ok_0) && min_demand->Ok_0.le(max_demand->Ok_0)
                &&& ff is Ok && 0 <= ff->Ok_0 <= 1 && trim is Ok && 0 <= trim->Ok_0 <= 1
                &&& fields.dom().contains("last_ff"@) ==> last_ff is Ok && last_ff->Ok_0.finite()
                &&& fields.dom().contains("last_trim"@) ==> last_trim is Ok
                    && last_trim->Ok_0.finite()
            }
            &&& restored is Ok ==> {
                let taken = restored->Ok_0;
                let config = taken.config;
                &&& taken.name == name && taken.io == block.io
                &&& config.trim_min == trim_min->Ok_0 && config.trim_max == trim_max->Ok_0
                &&& config.min_demand == min_demand->Ok_0 && config.max_demand == max_demand->Ok_0
                &&& config.on_bad_ff is Drop <==> ff->Ok_0 == 0
                &&& config.on_bad_trim is Drop <==> trim->Ok_0 == 0
                &&& taken.last_ff is Some <==> fields.dom().contains("last_ff"@)
                &&& taken.last_ff is Some ==> taken.last_ff->0 == last_ff->Ok_0
                &&& taken.last_trim is Some <==> fields.dom().contains("last_trim"@)
                &&& taken.last_trim is Some ==> taken.last_trim->0 == last_trim->Ok_0
            }
        }),
{
}

/// The block is described under its own name and the kind it is selected by,
/// with its ports in this order, each wired to its point, and with these
/// parameters and bounds.
pub proof fn wiring_is_described(block: SumView)
    ensures
        ({
            let described = block.description();
            let wired = block.requirements();
            &&& described.name == block.name && described.label == block.name
            &&& described.kind == "feedforward-sum"@
            &&& wired.len() == 5 && described.ports.len() == 5
            &&& described.parameters.len() == 6
            &&& described.ports[0] == (describe::PortView {
                name: "ff"@,
                direction: describe::Direction::In,
                kind: ValueKind::Float,
                role: Some(PortRole::ProcessValue),
                point: None,
            })
            &&& wired[0].name == "ff"@ && wired[0].point == block.io.ff
            &&& described.ports[1] == (describe::PortView {
                name: "trim"@,
                direction: describe::Direction::In,
                kind: ValueKind::Float,
                role: Some(PortRole::ProcessValue),
                point: None,
            })
            &&& wired[1].name == "trim"@ && wired[1].point == block.io.trim
            &&& described.ports[2] == (describe::PortView {
                name: "out"@,
                direction: describe::Direction::Out,
                kind: ValueKind::Float,
                role: Some(PortRole::Output),
                point: None,
            })
            &&& wired[2].name == "out"@ && wired[2].point == block.io.out
            &&& described.ports[3] == (describe::PortView {
                name: "clamped"@,
                direction: describe::Direction::Out,
                kind: ValueKind::Bool,
                role: Some(PortRole::Status),
                point: None,
            })
            &&& wired[3].name == "clamped"@ && wired[3].point == block.io.clamped
            &&& described.ports[4] == (describe::PortView {
                name: "fallback_active"@,
                direction: describe::Direction::Out,
                kind: ValueKind::Bool,
                role: Some(PortRole::Status),
                point: None,
            })
            &&& wired[4].name == "fallback_active"@ && wired[4].point == block.io.fallback_active
            &&& described.parameters[0] == (describe::ParameterView {
                name: "trim_min"@,
                kind: ValueKind::Float,
                range: Some(
                    describe::ParameterRange {
                        min: Value::Float(Float { bits: 0xffef_ffff_ffff_ffff }),
                        max: Value::Float(Float { bits: 0x7fef_ffff_ffff_ffff }),
                    },
                ),
            })
            &&& described.parameters[1] == (describe::ParameterView {
                name: "trim_max"@,
                kind: ValueKind::Float,
                range: Some(
                    describe::ParameterRange {
                        min: Value::Float(Float { bits: 0xffef_ffff_ffff_ffff }),
                        max: Value::Float(Float { bits: 0x7fef_ffff_ffff_ffff }),
                    },
                ),
            })
            &&& described.parameters[2] == (describe::ParameterView {
                name: "min_demand"@,
                kind: ValueKind::Float,
                range: Some(
                    describe::ParameterRange {
                        min: Value::Float(Float { bits: 0xffef_ffff_ffff_ffff }),
                        max: Value::Float(Float { bits: 0x7fef_ffff_ffff_ffff }),
                    },
                ),
            })
            &&& described.parameters[3] == (describe::ParameterView {
                name: "max_demand"@,
                kind: ValueKind::Float,
                range: Some(
                    describe::ParameterRange {
                        min: Value::Float(Float { bits: 0xffef_ffff_ffff_ffff }),
                        max: Value::Float(Float { bits: 0x7fef_ffff_ffff_ffff }),
                    },
                ),
            })
            &&& described.parameters[4] == (describe::ParameterView {
                name: "on_bad_ff"@,
                kind: ValueKind::Int,
                range: Some(
                    describe::ParameterRange {
                        min: Value::Int(0),
                        max: Value::Int(1),
                    },
                ),
            })
            &&& described.parameters[5] == (describe::ParameterView {
                name: "on_bad_trim"@,
                kind: ValueKind::Int,
                range: Some(
                    describe::ParameterRange {
                        min: Value::Int(0),
                        max: Value::Int(1),
                    },
                ),
            })
        }),
{
    reveal_strlit("ff");
    reveal_strlit("trim");
    reveal_strlit("out");
    reveal_strlit("clamped");
    reveal_strlit("fallback_active");
    assert("ff"@.len() == 2);
    assert("trim"@.len() == 4);
    assert("out"@.len() == 3);
    assert("clamped"@.len() == 7);
    assert("fallback_active"@.len() == 15);
    let wired = block.requirements();
    let roles = block.roles();
    let parameters = block.description().parameters;
    describe::ports_are_described_as_declared(
        block.name,
        "feedforward-sum"@,
        wired,
        roles,
        parameters,
        0,
        0,
    );
    describe::ports_are_described_as_declared(
        block.name,
        "feedforward-sum"@,
        wired,
        roles,
        parameters,
        1,
        1,
    );
    describe::ports_are_described_as_declared(
        block.name,
        "feedforward-sum"@,
        wired,
        roles,
        parameters,
        2,
        2,
    );
    describe::ports_are_described_as_declared(
        block.name,
        "feedforward-sum"@,
        wired,
        roles,
        parameters,
        3,
        3,
    );
    describe::ports_are_described_as_declared(
        block.name,
        "feedforward-sum"@,
        wired,
        roles,
        parameters,
        4,
        4,
    );
}

} // verus!
