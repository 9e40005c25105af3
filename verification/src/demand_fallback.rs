//! The demand that is served while the measurement behind it cannot be
//! trusted.

use crate::describe::{
    self, agree_on, describes_parameter, parameter_views, requirement_views, role_views,
    spec_component, spec_finite_f64, spec_input, spec_int_range, spec_output, spec_parameter,
    ComponentDescriptor, ComponentView, IoRequirement, ParameterDescriptor, ParameterView, PortRole,
    RequirementView, RoleHint,
};
use crate::float::Float;
use crate::params::{
    self, spec_invalid, spec_invalid_parameter, spec_required_f64, spec_required_u64, spec_tune_f64,
    spec_tune_u64, spec_unknown_parameter, CommandError, CommandErrorView, ParameterError,
    ParameterErrorView, Parameters,
};
use crate::table::{
    self, field, float_field, int_field, known_fields, known_names_pass, optional,
    spec_invalid_value, StateError, StateErrorView, StateMap, Table,
};
use crate::text::{self, decimal};
use crate::value::{
    merge_is_worst_of, merged_quality, pair_quality, pairs_carry_the_worse_quality, PointId,
    Quality, QualityReason, Reading, Tick, Value, ValueKind, Write,
};
use vstd::prelude::*;

verus! {

/// What a [`DemandFallback`] serves while the measurement cannot be trusted,
/// and its code.
#[derive(Debug, Clone, Copy, PartialEq, Eq, Structural)]
pub enum FallbackResponse {
    /// `0`: the last trusted demand.
    Hold,
    /// `1`: the fixed demand `fallback_flow`.
    FallbackFlow,
    /// `2`: the fixed demand `safe_flow`.
    SafeFlow,
}

impl FallbackResponse {
    /// The code of the response.
    pub open spec fn spec_code(self) -> i64 {
        match self {
            FallbackResponse::Hold => 0,
            FallbackResponse::FallbackFlow => 1,
            FallbackResponse::SafeFlow => 2,
        }
    }

    /// The response that `code` selects.
    pub open spec fn spec_decode(code: int) -> Option<FallbackResponse> {
        if code == 0 {
            Some(FallbackResponse::Hold)
        } else if code == 1 {
            Some(FallbackResponse::FallbackFlow)
        } else if code == 2 {
            Some(FallbackResponse::SafeFlow)
        } else {
            None
        }
    }

    /// The code of the response.
    pub fn code(self) -> (r: i64)
        ensures
            r == self.spec_code(),
    {
        match self {
            FallbackResponse::Hold => 0,
            FallbackResponse::FallbackFlow => 1,
            FallbackResponse::SafeFlow => 2,
        }
    }

    /// The response that `code` selects.
    pub fn decode(code: i64) -> (r: Option<FallbackResponse>)
        ensures
            r == FallbackResponse::spec_decode(code as int),
    {
        match code {
            0 => Some(FallbackResponse::Hold),
            1 => Some(FallbackResponse::FallbackFlow),
            2 => Some(FallbackResponse::SafeFlow),
            _ => None,
        }
    }
}

/// The tuning of a [`DemandFallback`].
#[derive(Debug, Clone, Copy, PartialEq, Eq, Structural)]
pub struct DemandFallbackConfig {
    /// The response to an untrusted measurement.
    pub on_bad: FallbackResponse,
    /// The demand that `on_bad` 1 serves.
    pub fallback_flow: Float,
    /// The demand that `on_bad` 2 serves.
    pub safe_flow: Float,
}

/// The points of a [`DemandFallback`].
#[derive(Debug, Clone, Copy, PartialEq, Eq, Structural)]
pub struct DemandFallbackIo {
    /// `in`: the loop's demand.
    pub input: PointId,
    /// `pv`: the measurement that the loop goes by.
    pub pv: PointId,
    /// `out`: the served demand.
    pub out: PointId,
    /// `fallback_active`: the response is engaged.
    pub fallback_active: PointId,
}

/// A demand fallback. While `pv` reads finite and trusted, `in` passes to
/// `out` as it is. Otherwise the response `on_bad` serves, and
/// `fallback_active` is asserted. Nothing latches: the first scan with a
/// trusted `pv` passes `in` again.
///
/// The held demand is the last `in` that passed finite and trusted, or zero
/// before the first one; it is frozen while the response is engaged.
///
/// `out` carries the worst of the two inputs' qualities, where a value that
/// is not finite counts as a device fault. `fallback_active` is the block's
/// own verdict and always `Good`.
#[derive(Debug)]
pub struct DemandFallback {
    name: String,
    io: DemandFallbackIo,
    config: DemandFallbackConfig,
    held_demand: Option<Float>,
}

/// What a [`DemandFallback`] is.
#[verifier::ext_equal]
pub struct FallbackView {
    pub name: Seq<char>,
    pub io: DemandFallbackIo,
    pub config: DemandFallbackConfig,
    /// The last trusted demand.
    pub held_demand: Option<Float>,
}

impl View for DemandFallback {
    type V = FallbackView;

    closed spec fn view(&self) -> FallbackView {
        FallbackView {
            name: self.name@,
            io: self.io,
            config: self.config,
            held_demand: self.held_demand,
        }
    }
}

impl DemandFallbackConfig {
    /// The first fixed demand that is not finite.
    pub open spec fn flaw(self) -> Option<(Seq<char>, Float)> {
        if !self.fallback_flow.finite() {
            Some(("fallback_flow"@, self.fallback_flow))
        } else if !self.safe_flow.finite() {
            Some(("safe_flow"@, self.safe_flow))
        } else {
            None
        }
    }
}

/// The block with the given parts, or why it cannot be built.
pub open spec fn spec_new(
    name: Seq<char>,
    io: DemandFallbackIo,
    config: DemandFallbackConfig,
) -> Result<FallbackView, ParameterErrorView> {
    match config.flaw() {
        Some((parameter, _)) => Err(spec_invalid(name, parameter, "must be finite"@)),
        None => Ok(FallbackView { name, io, config, held_demand: None }),
    }
}

/// The block that the parameters declare.
pub open spec fn spec_from_parameters(
    name: Seq<char>,
    io: DemandFallbackIo,
    parameters: Map<Seq<char>, Value>,
) -> Result<FallbackView, ParameterErrorView> {
    match spec_required_u64(name, parameters, "on_bad"@) {
        Err(error) => Err(error),
        Ok(code) => match FallbackResponse::spec_decode(code as int) {
            None => Err(
                spec_invalid(
                    name,
                    "on_bad"@,
                    "expected 0 (hold), 1 (fallback_flow), or 2 (safe_flow), found "@ + decimal(
                        code as nat,
                    ),
                ),
            ),
            Some(on_bad) => match spec_required_f64(name, parameters, "fallback_flow"@) {
                Err(error) => Err(error),
                Ok(fallback_flow) => match spec_required_f64(name, parameters, "safe_flow"@) {
                    Err(error) => Err(error),
                    Ok(safe_flow) => spec_new(
                        name,
                        io,
                        DemandFallbackConfig { on_bad, fallback_flow, safe_flow },
                    ),
                },
            },
        },
    }
}

/// The names that a checkpoint may hold.
pub open spec fn known_names() -> Seq<Seq<char>> {
    seq!["on_bad"@, "fallback_flow"@, "safe_flow"@, "held_demand"@]
}

/// The tuning that a checkpoint carries, whatever its fixed demands.
pub open spec fn restored_config(fields: Map<Seq<char>, Value>, name: Seq<char>) -> Result<
    DemandFallbackConfig,
    StateErrorView,
> {
    match int_field(fields, name, "on_bad"@) {
        Err(error) => Err(error),
        Ok(code) => match FallbackResponse::spec_decode(code as int) {
            None => Err(spec_invalid_value(name, "on_bad"@, Value::Int(code))),
            Some(on_bad) => match float_field(fields, name, "fallback_flow"@) {
                Err(error) => Err(error),
                Ok(fallback_flow) => match float_field(fields, name, "safe_flow"@) {
                    Err(error) => Err(error),
                    Ok(safe_flow) => Ok(
                        DemandFallbackConfig { on_bad, fallback_flow, safe_flow },
                    ),
                },
            },
        },
    }
}

impl FallbackView {
    /// The invariant: the fixed demands and the held one are finite.
    pub open spec fn wf(self) -> bool {
        &&& self.config.flaw() is None
        &&& self.held_demand matches Some(held) ==> held.finite()
    }

    /// The held demand, or zero before the first one.
    pub open spec fn held(self) -> Float {
        match self.held_demand {
            Some(held) => held,
            None => Float::spec_zero(),
        }
    }

    /// What the response serves.
    pub open spec fn response(self) -> Float {
        match self.config.on_bad {
            FallbackResponse::Hold => self.held(),
            FallbackResponse::FallbackFlow => self.config.fallback_flow,
            FallbackResponse::SafeFlow => self.config.safe_flow,
        }
    }

    /// The block after a scan.
    pub open spec fn after(self, input: Reading<Float>, pv: Reading<Float>) -> FallbackView {
        if pv.usable() && input.usable() {
            FallbackView { held_demand: Some(input.value), ..self }
        } else {
            self
        }
    }

    /// The demand that a scan serves.
    pub open spec fn served(self, input: Reading<Float>, pv: Reading<Float>) -> Float {
        if pv.usable() {
            input.value
        } else {
            self.response()
        }
    }

    /// What the block drives in a scan, in order.
    pub open spec fn writes(
        self,
        input: Reading<Float>,
        pv: Reading<Float>,
        tick: Tick,
    ) -> Seq<Write> {
        seq![
            Write::of(
                self.io.out,
                Value::Float(self.served(input, pv)),
                pair_quality(input, pv),
                tick,
            ),
            Write::of(
                self.io.fallback_active,
                Value::Bool(!pv.usable()),
                Quality::Good,
                tick,
            ),
        ]
    }

    /// The declared ports.
    pub open spec fn requirements(self) -> Seq<RequirementView> {
        seq![
            spec_input("in"@, ValueKind::Float, self.io.input),
            spec_input("pv"@, ValueKind::Float, self.io.pv),
            spec_output("out"@, ValueKind::Float, self.io.out),
            spec_output("fallback_active"@, ValueKind::Bool, self.io.fallback_active),
        ]
    }

    /// The roles of the ports.
    pub open spec fn roles(self) -> Seq<(Seq<char>, PortRole)> {
        seq![
            ("in"@, PortRole::ProcessValue),
            ("pv"@, PortRole::ProcessValue),
            ("out"@, PortRole::Output),
            ("fallback_active"@, PortRole::Status),
        ]
    }

    /// The declared parameters.
    pub open spec fn parameters(self) -> Seq<ParameterView> {
        seq![
            spec_parameter("on_bad"@, ValueKind::Int, spec_int_range(0, 2)),
            spec_parameter("fallback_flow"@, ValueKind::Float, spec_finite_f64()),
            spec_parameter("safe_flow"@, ValueKind::Float, spec_finite_f64()),
        ]
    }

    /// The block's description.
    pub open spec fn description(self) -> ComponentView {
        spec_component(
            self.name,
            DemandFallback::KIND@,
            self.requirements(),
            self.roles(),
            self.parameters(),
        )
    }

    /// A retuned fixed demand, which must be finite.
    pub open spec fn tuned_flow(self, parameter: Seq<char>, value: Value) -> Result<
        Float,
        CommandErrorView,
    > {
        match spec_tune_f64(self.name, parameter, value) {
            Err(error) => Err(error),
            Ok(flow) => if flow.finite() {
                Ok(flow)
            } else {
                Err(spec_invalid_parameter(self.name, parameter, "must be finite"@))
            },
        }
    }

    /// The block after a retune, or its refusal.
    pub open spec fn tuned(self, parameter: Seq<char>, value: Value) -> Result<
        FallbackView,
        CommandErrorView,
    > {
        let config = self.config;
        if parameter == "on_bad"@ {
            match spec_tune_u64(self.name, parameter, value) {
                Err(error) => Err(error),
                Ok(code) => match FallbackResponse::spec_decode(code as int) {
                    None => Err(
                        spec_invalid_parameter(
                            self.name,
                            parameter,
                            "expected 0 (hold), 1 (fallback_flow), or 2 (safe_flow)"@,
                        ),
                    ),
                    Some(on_bad) => Ok(
                        FallbackView {
                            config: DemandFallbackConfig { on_bad, ..config },
                            ..self
                        },
                    ),
                },
            }
        } else if parameter == "fallback_flow"@ {
            match self.tuned_flow(parameter, value) {
                Err(error) => Err(error),
                Ok(fallback_flow) => Ok(
                    FallbackView {
                        config: DemandFallbackConfig { fallback_flow, ..config },
                        ..self
                    },
                ),
            }
        } else if parameter == "safe_flow"@ {
            match self.tuned_flow(parameter, value) {
                Err(error) => Err(error),
                Ok(safe_flow) => Ok(
                    FallbackView {
                        config: DemandFallbackConfig { safe_flow, ..config },
                        ..self
                    },
                ),
            }
        } else {
            Err(spec_unknown_parameter(self.name, parameter))
        }
    }

    /// The tuning as fields.
    pub open spec fn reported(self) -> Map<Seq<char>, Value> {
        Map::empty().insert("on_bad"@, Value::Int(self.config.on_bad.spec_code())).insert(
            "fallback_flow"@,
            Value::Float(self.config.fallback_flow),
        ).insert("safe_flow"@, Value::Float(self.config.safe_flow))
    }

    /// The tuning and the held demand as fields; the held demand is there
    /// once there is one.
    pub open spec fn captured(self) -> Map<Seq<char>, Value> {
        match self.held_demand {
            Some(held) => self.reported().insert("held_demand"@, Value::Float(held)),
            None => self.reported(),
        }
    }

    /// The block with a checkpoint taken over, or the checkpoint's refusal.
    pub open spec fn restored(
        self,
        keys: Seq<Seq<char>>,
        fields: Map<Seq<char>, Value>,
    ) -> Result<FallbackView, StateErrorView> {
        let name = self.name;
        match known_fields(keys, name, known_names()) {
            Err(error) => Err(error),
            Ok(_) => match restored_config(fields, name) {
                Err(error) => Err(error),
                Ok(config) => match optional(
                    fields,
                    "held_demand"@,
                    float_field(fields, name, "held_demand"@),
                ) {
                    Err(error) => Err(error),
                    Ok(held_demand) => match config.flaw() {
                        Some((key, flow)) => Err(spec_invalid_value(name, key, Value::Float(flow))),
                        None => if held_demand matches Some(held) && !held.finite() {
                            Err(
                                spec_invalid_value(
                                    name,
                                    "held_demand"@,
                                    Value::Float(held_demand->0),
                                ),
                            )
                        } else {
                            Ok(FallbackView { config, held_demand, ..self })
                        },
                    },
                },
            },
        }
    }
}

impl DemandFallback {
    /// The kind a plant model selects this block by.
    pub const KIND: &'static str = "demand-fallback";

    /// Builds a demand fallback, or tells why it cannot be built.
    pub fn new(name: &str, io: DemandFallbackIo, config: DemandFallbackConfig) -> (r: Result<
        DemandFallback,
        ParameterError,
    >)
        ensures
            match r {
                Ok(block) => block@.wf() && spec_new(name@, io, config) == Ok::<
                    FallbackView,
                    ParameterErrorView,
                >(block@),
                Err(error) => spec_new(name@, io, config) == Err::<
                    FallbackView,
                    ParameterErrorView,
                >(error@),
            },
    {
        if !config.fallback_flow.is_finite() {
            return Err(params::invalid(name, "fallback_flow", "must be finite"));
        }
        if !config.safe_flow.is_finite() {
            return Err(params::invalid(name, "safe_flow", "must be finite"));
        }
        Ok(DemandFallback { name: name.to_owned(), io, config, held_demand: None })
    }

    /// Builds a demand fallback from the parameters of a plant model.
    pub fn from_parameters(name: &str, io: DemandFallbackIo, parameters: &Parameters) -> (r: Result<
        DemandFallback,
        ParameterError,
    >)
        ensures
            match r {
                Ok(block) => block@.wf() && spec_from_parameters(name@, io, parameters@) == Ok::<
                    FallbackView,
                    ParameterErrorView,
                >(block@),
                Err(error) => spec_from_parameters(name@, io, parameters@) == Err::<
                    FallbackView,
                    ParameterErrorView,
                >(error@),
            },
    {
        let code: u64 = params::required_u64(name, parameters, "on_bad")?;
        let on_bad = match FallbackResponse::decode(params::code_of(code)) {
            Some(on_bad) => on_bad,
            None => {
                return Err(
                    params::invalid(
                        name,
                        "on_bad",
                        text::numbered(
                            "expected 0 (hold), 1 (fallback_flow), or 2 (safe_flow), found ",
                            code,
                        ).as_str(),
                    ),
                );
            },
        };
        let fallback_flow = params::required_f64(name, parameters, "fallback_flow")?;
        let safe_flow = params::required_f64(name, parameters, "safe_flow")?;
        DemandFallback::new(name, io, DemandFallbackConfig { on_bad, fallback_flow, safe_flow })
    }

    /// The tuning.
    pub fn config(&self) -> (r: DemandFallbackConfig)
        ensures
            r == self@.config,
    {
        self.config
    }

    /// The block's name.
    pub fn name(&self) -> (r: &str)
        ensures
            r@ == self@.name,
    {
        self.name.as_str()
    }

    /// The declared ports.
    pub fn io_requirements(&self) -> (r: Vec<IoRequirement>)
        ensures
            requirement_views(r@) == self@.requirements(),
    {
        let mut r: Vec<IoRequirement> = Vec::new();
        r.push(describe::input("in", ValueKind::Float, self.io.input));
        r.push(describe::input("pv", ValueKind::Float, self.io.pv));
        r.push(describe::output("out", ValueKind::Float, self.io.out));
        r.push(describe::output("fallback_active", ValueKind::Bool, self.io.fallback_active));
        assert(requirement_views(r@) == self@.requirements());
        r
    }

    /// Runs one scan on what `in` and `pv` read.
    pub fn step(&mut self, input: Reading<Float>, pv: Reading<Float>, tick: Tick) -> (r: Vec<Write>)
        requires
            old(self)@.wf(),
        ensures
            final(self)@ == old(self)@.after(input, pv),
            final(self)@.wf(),
            r@ == old(self)@.writes(input, pv, tick),
    {
        let trusted = pv.is_usable();
        let out = if trusted {
            if input.is_usable() {
                self.held_demand = Some(input.value);
            }
            input.value
        } else {
            match self.config.on_bad {
                FallbackResponse::Hold => match self.held_demand {
                    Some(held) => held,
                    None => Float::zero(),
                },
                FallbackResponse::FallbackFlow => self.config.fallback_flow,
                FallbackResponse::SafeFlow => self.config.safe_flow,
            }
        };
        let quality = merged_quality(input, pv);
        let mut r: Vec<Write> = Vec::new();
        r.push(Write::new(self.io.out, Value::Float(out), quality, tick));
        r.push(Write::new(self.io.fallback_active, Value::Bool(!trusted), Quality::Good, tick));
        r
    }

    /// Describes the block.
    pub fn describe(&self) -> (r: ComponentDescriptor)
        ensures
            r@ == self@.description(),
    {
        let mut roles: Vec<RoleHint> = Vec::new();
        roles.push(describe::hint("in", PortRole::ProcessValue));
        roles.push(describe::hint("pv", PortRole::ProcessValue));
        roles.push(describe::hint("out", PortRole::Output));
        roles.push(describe::hint("fallback_active", PortRole::Status));
        assert(role_views(roles@) == self@.roles());
        let mut parameters: Vec<ParameterDescriptor> = Vec::new();
        parameters.push(
            describe::parameter("on_bad", ValueKind::Int, Some(describe::int_range(0, 2))),
        );
        parameters.push(
            describe::parameter("fallback_flow", ValueKind::Float, Some(describe::finite_f64())),
        );
        parameters.push(
            describe::parameter("safe_flow", ValueKind::Float, Some(describe::finite_f64())),
        );
        assert(parameter_views(parameters@) == self@.parameters());
        proof {
            describe::parallel_hints(self@.requirements(), self@.roles());
        }
        describe::component(
            self.name.as_str(),
            DemandFallback::KIND,
            &self.io_requirements(),
            &roles,
            parameters,
        )
    }

    fn tune_flow(&self, parameter: &str, value: Value) -> (r: Result<Float, CommandError>)
        ensures
            params::tuned(r, self@.tuned_flow(parameter@, value)),
    {
        let flow = params::tune_f64(self.name.as_str(), parameter, value)?;
        if flow.is_finite() {
            Ok(flow)
        } else {
            Err(params::invalid_parameter(self.name.as_str(), parameter, "must be finite"))
        }
    }

    /// Retunes one declared parameter at the scan boundary. A refused value
    /// changes nothing.
    pub fn apply_parameter(&mut self, parameter: &str, value: Value) -> (r: Result<
        (),
        CommandError,
    >)
        requires
            old(self)@.wf(),
        ensures
            final(self)@.wf(),
            match r {
                Ok(_) => old(self)@.tuned(parameter@, value) == Ok::<
                    FallbackView,
                    CommandErrorView,
                >(final(self)@),
                Err(error) => old(self)@.tuned(parameter@, value) == Err::<
                    FallbackView,
                    CommandErrorView,
                >(error@) && final(self)@ == old(self)@,
            },
    {
        if text::same(parameter, "on_bad") {
            let code: u64 = params::tune_u64(self.name.as_str(), parameter, value)?;
            match FallbackResponse::decode(params::code_of(code)) {
                Some(on_bad) => {
                    self.config.on_bad = on_bad;
                },
                None => {
                    return Err(
                        params::invalid_parameter(
                            self.name.as_str(),
                            parameter,
                            "expected 0 (hold), 1 (fallback_flow), or 2 (safe_flow)",
                        ),
                    );
                },
            }
        } else if text::same(parameter, "fallback_flow") {
            self.config.fallback_flow = self.tune_flow(parameter, value)?;
        } else if text::same(parameter, "safe_flow") {
            self.config.safe_flow = self.tune_flow(parameter, value)?;
        } else {
            return Err(params::unknown_parameter(self.name.as_str(), parameter));
        }
        Ok(())
    }

    /// Reports the tuning under the names that a checkpoint uses.
    pub fn report_parameters(&self) -> (r: StateMap)
        ensures
            r@ == self@.reported(),
    {
        let mut r = StateMap::new();
        r.insert("on_bad", Value::Int(self.config.on_bad.code()));
        r.insert("fallback_flow", Value::Float(self.config.fallback_flow));
        r.insert("safe_flow", Value::Float(self.config.safe_flow));
        r
    }

    /// Captures the tuning and the held demand, so that a standby continues
    /// an engaged response.
    pub fn capture_state(&self) -> (r: StateMap)
        ensures
            r@ == self@.captured(),
    {
        let mut r = self.report_parameters();
        if let Some(held) = self.held_demand {
            r.insert("held_demand", Value::Float(held));
        }
        r
    }

    fn restore_config(&self, state: &StateMap) -> (r: Result<DemandFallbackConfig, StateError>)
        ensures
            table::agrees(r, restored_config(state@, self@.name)),
    {
        let name = self.name.as_str();
        let code: i64 = state.require_i64(name, "on_bad")?;
        let on_bad = match FallbackResponse::decode(code) {
            Some(on_bad) => on_bad,
            None => {
                return Err(table::invalid_value(name, "on_bad", Value::Int(code)));
            },
        };
        let fallback_flow = state.require_f64(name, "fallback_flow")?;
        let safe_flow = state.require_f64(name, "safe_flow")?;
        Ok(DemandFallbackConfig { on_bad, fallback_flow, safe_flow })
    }

    /// Takes over a checkpoint. The whole checkpoint is read before anything
    /// changes, so a refused one leaves the block as it was.
    pub fn restore_state(&mut self, state: &StateMap) -> (r: Result<(), StateError>)
        requires
            old(self)@.wf(),
        ensures
            final(self)@.wf(),
            match r {
                Ok(_) => old(self)@.restored(state.keys(), state@) == Ok::<
                    FallbackView,
                    StateErrorView,
                >(final(self)@),
                Err(error) => old(self)@.restored(state.keys(), state@) == Err::<
                    FallbackView,
                    StateErrorView,
                >(error@) && final(self)@ == old(self)@,
            },
    {
        let mut known: Vec<String> = Vec::new();
        known.push("on_bad".to_owned());
        known.push("fallback_flow".to_owned());
        known.push("safe_flow".to_owned());
        known.push("held_demand".to_owned());
        assert(text::views(known@) == known_names());
        let name = self.name.as_str();
        state.ensure_known_fields(name, &known)?;
        let config = self.restore_config(state)?;
        let held_demand = state.optional_f64(name, "held_demand")?;
        if !config.fallback_flow.is_finite() {
            return Err(
                table::invalid_value(name, "fallback_flow", Value::Float(config.fallback_flow)),
            );
        }
        if !config.safe_flow.is_finite() {
            return Err(table::invalid_value(name, "safe_flow", Value::Float(config.safe_flow)));
        }
        if let Some(held) = held_demand {
            if !held.is_finite() {
                return Err(table::invalid_value(name, "held_demand", Value::Float(held)));
            }
        }
        self.config = config;
        self.held_demand = held_demand;
        Ok(())
    }
}

/// Every response code names the response it was taken from, and no other
/// code names one.
pub proof fn response_codes_read_back(response: FallbackResponse, code: i64)
    ensures
        FallbackResponse::spec_decode(response.spec_code() as int) == Some(response),
        FallbackResponse::spec_decode(code as int) matches Some(named) ==> named.spec_code()
            == code,
{
}

/// While the measurement is trusted the demand passes as it is and the
/// response is not engaged; with a trusted demand the output is `Good`.
pub proof fn trusted_measurement_passes_the_demand(
    block: FallbackView,
    input: Reading<Float>,
    pv: Reading<Float>,
    tick: Tick,
)
    requires
        pv.usable(),
    ensures
        ({
            let writes = block.writes(input, pv, tick);
            &&& writes[0].sample.value == Value::Float(input.value)
            &&& writes[1].sample.value == Value::Bool(false)
            &&& input.usable() ==> writes[0].sample.quality == Quality::Good
            &&& input.value.finite() ==> writes[0].sample.quality == input.quality.spec_merge(
                Quality::Good,
            )
        }),
{
}

/// While the measurement is untrusted the response serves, whatever the
/// demand reads; the output is marked and the held demand is frozen.
pub proof fn untrusted_measurement_engages_the_response(
    block: FallbackView,
    input: Reading<Float>,
    pv: Reading<Float>,
    tick: Tick,
)
    requires
        !pv.usable(),
    ensures
        ({
            let writes = block.writes(input, pv, tick);
            &&& writes[0].sample.value == Value::Float(block.response())
            &&& writes[0].sample.quality != Quality::Good
            &&& writes[1].sample.value == Value::Bool(true)
            &&& block.after(input, pv) == block
        }),
{
    merge_is_worst_of(input.quality, pv.quality);
}

/// The hold response serves the last demand that passed finite and trusted,
/// for as long as the measurement stays untrusted.
pub proof fn hold_serves_the_last_trusted_demand(
    block: FallbackView,
    input: Reading<Float>,
    pv: Reading<Float>,
    later: Reading<Float>,
    failed: Reading<Float>,
)
    requires
        block.config.on_bad == FallbackResponse::Hold,
        pv.usable(),
        input.usable(),
        !failed.usable(),
    ensures
        ({
            let passed = block.after(input, pv);
            &&& passed.served(later, failed) == input.value
            &&& passed.after(later, failed).served(later, failed) == input.value
        }),
{
}

/// Nothing latches: the first scan with a trusted measurement passes the
/// demand again.
pub proof fn fallback_does_not_latch(
    block: FallbackView,
    input: Reading<Float>,
    failed: Reading<Float>,
    recovered: Reading<Float>,
)
    requires
        !failed.usable(),
        recovered.usable(),
    ensures
        block.after(input, failed).served(input, recovered) == input.value,
{
}

/// A retune leaves the held demand alone.
pub proof fn retunes_keep_the_held_demand(block: FallbackView, parameter: Seq<char>, value: Value)
    ensures
        block.tuned(parameter, value) matches Ok::<FallbackView, CommandErrorView>(tuned)
            ==> tuned == (FallbackView { config: tuned.config, ..block }),
{
}

/// Building reads exactly the described parameters: whatever else is
/// declared makes no difference, and without one of them nothing is built.
pub proof fn building_reads_the_described(
    block: FallbackView,
    a: Map<Seq<char>, Value>,
    b: Map<Seq<char>, Value>,
    i: int,
)
    ensures
        ({
            let described = block.description().parameters;
            let from_a = spec_from_parameters(block.name, block.io, a);
            let from_b = spec_from_parameters(block.name, block.io, b);
            &&& agree_on(described, a, b) ==> from_a == from_b
            &&& 0 <= i < described.len() && field(a, described[i].name) is None ==> from_a is Err
        }),
{
    let described = block.description().parameters;
    assert(described[0].name == "on_bad"@);
    assert(described[1].name == "fallback_flow"@);
    assert(described[2].name == "safe_flow"@);
}

/// Exactly the described parameters can be retuned: any other name is
/// refused as unknown.
pub proof fn tuning_takes_the_described(block: FallbackView, parameter: Seq<char>, value: Value)
    ensures
        ({
            let unknown = spec_unknown_parameter(block.name, parameter);
            let refused = Err::<FallbackView, CommandErrorView>(unknown);
            let described = block.description().parameters;
            describes_parameter(described, parameter) <==> block.tuned(parameter, value) != refused
        }),
{
    let described = block.description().parameters;
    assert(described[0].name == "on_bad"@);
    assert(described[1].name == "fallback_flow"@);
    assert(described[2].name == "safe_flow"@);
}

/// A block that takes over a checkpoint has the captured tuning and holds
/// the captured demand.
pub proof fn fallback_checkpoint_round_trip(
    block: FallbackView,
    standby: FallbackView,
    checkpoint: Table,
)
    requires
        block.wf(),
        checkpoint@ == block.captured(),
    ensures
        standby.restored(checkpoint.keys(), checkpoint@) == Ok::<FallbackView, StateErrorView>(
            FallbackView { config: block.config, held_demand: block.held_demand, ..standby },
        ),
{
    reveal_strlit("on_bad");
    reveal_strlit("fallback_flow");
    reveal_strlit("safe_flow");
    reveal_strlit("held_demand");
    assert("on_bad"@.len() == 6 && "fallback_flow"@.len() == 13);
    assert("safe_flow"@.len() == 9 && "held_demand"@.len() == 11);
    let names = known_names();
    assert(names[0] == "on_bad"@ && names[1] == "fallback_flow"@);
    assert(names[2] == "safe_flow"@ && names[3] == "held_demand"@);
    known_names_pass(checkpoint, standby.name, names);
}

/// While `pv` cannot be trusted, or is not finite, the served demand is the
/// one that `on_bad` selects, and `in` makes no difference to it: the fixed
/// demand `fallback_flow` or `safe_flow`, whatever demand was held before, or
/// the held one, which is zero before the first.
pub proof fn untrusted_scans_serve_the_selected_demand(
    block: FallbackView,
    input: Reading<Float>,
    pv: Reading<Float>,
    tick: Tick,
)
    requires
        pv.quality != Quality::Good || !pv.value.finite(),
    ensures
        ({
            let out = block.writes(input, pv, tick)[0].sample.value;
            &&& block.config.on_bad is FallbackFlow ==> out == Value::Float(
                block.config.fallback_flow,
            )
            &&& block.config.on_bad is SafeFlow ==> out == Value::Float(block.config.safe_flow)
            &&& block.config.on_bad is Hold && block.held_demand is Some ==> out == Value::Float(
                block.held_demand->0,
            )
            &&& block.config.on_bad is Hold && block.held_demand is None ==> out == Value::Float(
                (Float { bits: 0 }),
            )
            &&& block.writes(input, pv, tick)[1].sample.value == Value::Bool(true)
            &&& block.after(input, pv) == block
        }),
{
}

/// While `pv` is finite and trusted, `in` is served as it is, bit by bit, and
/// it becomes the held demand exactly where it is finite and trusted itself.
pub proof fn trusted_scans_serve_the_input(
    block: FallbackView,
    input: Reading<Float>,
    pv: Reading<Float>,
    tick: Tick,
)
    requires
        pv.quality == Quality::Good,
        pv.value.finite(),
    ensures
        ({
            let writes = block.writes(input, pv, tick);
            let after = block.after(input, pv);
            &&& writes[0].sample.value == Value::Float(input.value)
            &&& writes[1].sample.value == Value::Bool(false)
            &&& input.quality == Quality::Good && input.value.finite() ==> after.held_demand
                == Some(input.value)
            &&& input.quality != Quality::Good || !input.value.finite() ==> after.held_demand
                == block.held_demand
            &&& after.config == block.config && after.io == block.io && after.name == block.name
        }),
{
}

/// Every scan drives `out` and `fallback_active`, in this order and as of this
/// scan. `out` is a device fault where either value is not finite, and
/// otherwise as bad as the worse input; `fallback_active` is always `Good`.
pub proof fn scans_drive_both_outputs(
    block: FallbackView,
    input: Reading<Float>,
    pv: Reading<Float>,
    tick: Tick,
)
    ensures
        ({
            let writes = block.writes(input, pv, tick);
            let quality = writes[0].sample.quality;
            let finite = input.value.finite() && pv.value.finite();
            &&& writes.len() == 2
            &&& writes[0].point == block.io.out && writes[0].sample.tick == tick
            &&& writes[1].point == block.io.fallback_active && writes[1].sample.tick == tick
            &&& writes[1].sample.quality == Quality::Good
            &&& !finite ==> quality == Quality::Bad(QualityReason::DeviceFault)
            &&& finite && input.quality is Good ==> quality == pv.quality
            &&& finite && pv.quality is Good ==> quality == input.quality
            &&& finite && pv.quality is Bad ==> quality == pv.quality
            &&& finite && input.quality is Bad && !(pv.quality is Bad) ==> quality
                == input.quality
        }),
{
    pairs_carry_the_worse_quality(input, pv);
}

/// A block is built exactly where `on_bad` declares 0, 1 or 2 and both fixed
/// demands are finite; it runs under the declared values and holds no demand
/// yet.
pub proof fn building_takes_the_declared(
    name: Seq<char>,
    io: DemandFallbackIo,
    parameters: Map<Seq<char>, Value>,
)
    ensures
        ({
            let built = spec_from_parameters(name, io, parameters);
            let code = spec_required_u64(name, parameters, "on_bad"@);
            let fallback = spec_required_f64(name, parameters, "fallback_flow"@);
            let safe = spec_required_f64(name, parameters, "safe_flow"@);
            &&& built is Ok <==> code is Ok && code->Ok_0 <= 2 && fallback is Ok && safe is Ok
                && fallback->Ok_0.finite() && safe->Ok_0.finite()
            &&& built is Ok ==> {
                let block = built->Ok_0;
                &&& block.name == name && block.io == io && block.held_demand is None
                &&& block.config.fallback_flow == fallback->Ok_0
                &&& block.config.safe_flow == safe->Ok_0
                &&& block.config.on_bad is Hold <==> code->Ok_0 == 0
                &&& block.config.on_bad is FallbackFlow <==> code->Ok_0 == 1
                &&& block.config.on_bad is SafeFlow <==> code->Ok_0 == 2
            }
        }),
{
}

/// A refused build names the parameter at fault: the first of `on_bad`,
/// `fallback_flow` and `safe_flow` that cannot be read, a code that selects
/// nothing, and then the first fixed demand that is not finite.
pub proof fn refused_builds_name_the_parameter(
    name: Seq<char>,
    io: DemandFallbackIo,
    parameters: Map<Seq<char>, Value>,
)
    ensures
        ({
            let built = spec_from_parameters(name, io, parameters);
            let code = spec_required_u64(name, parameters, "on_bad"@);
            let fallback = spec_required_f64(name, parameters, "fallback_flow"@);
            let safe = spec_required_f64(name, parameters, "safe_flow"@);
            &&& code is Err ==> built == Err::<FallbackView, ParameterErrorView>(code->Err_0)
            &&& code is Ok && code->Ok_0 > 2 ==> (built matches Err(
                ParameterErrorView::Invalid { component, parameter, .. },
            ) && component == name && parameter == "on_bad"@)
            &&& code is Ok && code->Ok_0 <= 2 && fallback is Err ==> built == Err::<
                FallbackView,
                ParameterErrorView,
            >(fallback->Err_0)
            &&& code is Ok && code->Ok_0 <= 2 && fallback is Ok && safe is Err ==> built == Err::<
                FallbackView,
                ParameterErrorView,
            >(safe->Err_0)
            &&& code is Ok && code->Ok_0 <= 2 && fallback is Ok && safe is Ok
                && !fallback->Ok_0.finite() ==> built == Err::<FallbackView, ParameterErrorView>(
                ParameterErrorView::Invalid {
                    component: name,
                    parameter: "fallback_flow"@,
                    detail: "must be finite"@,
                },
            )
            &&& code is Ok && code->Ok_0 <= 2 && fallback is Ok && safe is Ok
                && fallback->Ok_0.finite() && !safe->Ok_0.finite() ==> built == Err::<
                FallbackView,
                ParameterErrorView,
            >(
                ParameterErrorView::Invalid {
                    component: name,
                    parameter: "safe_flow"@,
                    detail: "must be finite"@,
                },
            )
        }),
{
}

/// A retune sets the named setting to the given value and no other: a code of
/// 0, 1 or 2, or a finite demand. Anything else is refused.
pub proof fn retunes_set_the_named_setting(block: FallbackView, value: Value)
    ensures
        ({
            let code = spec_tune_u64(block.name, "on_bad"@, value);
            let tuned = block.tuned("on_bad"@, value);
            &&& tuned is Ok <==> code is Ok && code->Ok_0 <= 2
            &&& tuned is Ok ==> {
                let config = tuned->Ok_0.config;
                &&& config.on_bad is Hold <==> code->Ok_0 == 0
                &&& config.on_bad is FallbackFlow <==> code->Ok_0 == 1
                &&& config.on_bad is SafeFlow <==> code->Ok_0 == 2
                &&& config.fallback_flow == block.config.fallback_flow
                &&& config.safe_flow == block.config.safe_flow
                &&& tuned->Ok_0 == (FallbackView { config, ..block })
            }
        }),
        ({
            let flow = spec_tune_f64(block.name, "fallback_flow"@, value);
            let tuned = block.tuned("fallback_flow"@, value);
            &&& tuned is Ok <==> flow is Ok && flow->Ok_0.finite()
            &&& tuned is Ok ==> {
                let config = tuned->Ok_0.config;
                &&& config.fallback_flow == flow->Ok_0
                &&& config.safe_flow == block.config.safe_flow
                &&& config.on_bad == block.config.on_bad
                &&& tuned->Ok_0 == (FallbackView { config, ..block })
            }
        }),
        ({
            let flow = spec_tune_f64(block.name, "safe_flow"@, value);
            let tuned = block.tuned("safe_flow"@, value);
            &&& tuned is Ok <==> flow is Ok && flow->Ok_0.finite()
            &&& tuned is Ok ==> {
                let config = tuned->Ok_0.config;
                &&& config.safe_flow == flow->Ok_0
                &&& config.fallback_flow == block.config.fallback_flow
                &&& config.on_bad == block.config.on_bad
                &&& tuned->Ok_0 == (FallbackView { config, ..block })
            }
        }),
{
    reveal_strlit("on_bad");
    reveal_strlit("fallback_flow");
    reveal_strlit("safe_flow");
    assert("on_bad"@.len() == 6);
    assert("fallback_flow"@.len() == 13);
    assert("safe_flow"@.len() == 9);
}

/// A checkpoint holds the tuning under the names of its parameters and, once
/// there is one, the held demand; a report holds the tuning alone.
pub proof fn checkpoints_hold_the_tuning_and_the_demand(block: FallbackView)
    ensures
        ({
            let captured = block.captured();
            let reported = block.reported();
            &&& reported.dom() == set!["on_bad"@, "fallback_flow"@, "safe_flow"@]
            &&& reported["on_bad"@] == Value::Int(
                match block.config.on_bad {
                    FallbackResponse::Hold => 0,
                    FallbackResponse::FallbackFlow => 1,
                    FallbackResponse::SafeFlow => 2,
                },
            )
            &&& reported["fallback_flow"@] == Value::Float(block.config.fallback_flow)
            &&& reported["safe_flow"@] == Value::Float(block.config.safe_flow)
            &&& block.held_demand is None ==> captured == reported
            &&& block.held_demand is Some ==> captured == reported.insert(
                "held_demand"@,
                Value::Float(block.held_demand->0),
            )
        }),
{
    reveal_strlit("on_bad");
    reveal_strlit("fallback_flow");
    reveal_strlit("safe_flow");
    reveal_strlit("held_demand");
    assert("on_bad"@.len() == 6);
    assert("fallback_flow"@.len() == 13);
    assert("safe_flow"@.len() == 9);
    assert("held_demand"@.len() == 11);
    let reported = block.reported();
    assert(reported.dom() =~= set!["on_bad"@, "fallback_flow"@, "safe_flow"@]);
}

/// A checkpoint is taken over exactly where it holds no other name, a response
/// code, finite fixed demands and, where it holds one, a finite held demand.
/// The block then runs under exactly what the checkpoint holds.
pub proof fn restores_take_what_is_held(
    block: FallbackView,
    keys: Seq<Seq<char>>,
    fields: Map<Seq<char>, Value>,
)
    ensures
        ({
            let restored = block.restored(keys, fields);
            let code = int_field(fields, block.name, "on_bad"@);
            let fallback = float_field(fields, block.name, "fallback_flow"@);
            let safe = float_field(fields, block.name, "safe_flow"@);
            let held = float_field(fields, block.name, "held_demand"@);
            let holds = fields.dom().contains("held_demand"@);
            let known = seq!["on_bad"@, "fallback_flow"@, "safe_flow"@, "held_demand"@];
            &&& restored is Ok <==> {
                &&& known_fields(keys, block.name, known) is Ok
                &&& code is Ok && 0 <= code->Ok_0 <= 2
                &&& fallback is Ok && fallback->Ok_0.finite()
                &&& safe is Ok && safe->Ok_0.finite()
                &&& holds ==> held is Ok && held->Ok_0.finite()
            }
            &&& restored is Ok ==> {
                let taken = restored->Ok_0;
                &&& taken.name == block.name && taken.io == block.io
                &&& taken.config.on_bad is Hold <==> code->Ok_0 == 0
                &&& taken.config.on_bad is FallbackFlow <==> code->Ok_0 == 1
                &&& taken.config.on_bad is SafeFlow <==> code->Ok_0 == 2
                &&& taken.config.fallback_flow == fallback->Ok_0
                &&& taken.config.safe_flow == safe->Ok_0
                &&& holds ==> taken.held_demand == Some(held->Ok_0)
                &&& !holds ==> taken.held_demand is None
            }
        }),
{
}

/// The block is described under its own name and the kind it is selected by,
/// with its ports in this order, each wired to its point, and with these
/// parameters and bounds.
pub proof fn wiring_is_described(block: FallbackView)
    ensures
        ({
            let described = block.description();
            let wired = block.requirements();
            &&& described.name == block.name && described.label == block.name
            &&& described.kind == "demand-fallback"@
            &&& wired.len() == 4 && described.ports.len() == 4
            &&& described.parameters.len() == 3
            &&& described.ports[0] == (describe::PortView {
                name: "in"@,
                direction: describe::Direction::In,
                kind: ValueKind::Float,
                role: Some(PortRole::ProcessValue),
                point: None,
            })
            &&& wired[0].name == "in"@ && wired[0].point == block.io.input
            &&& described.ports[1] == (describe::PortView {
                name: "pv"@,
                direction: describe::Direction::In,
                kind: ValueKind::Float,
                role: Some(PortRole::ProcessValue),
                point: None,
            })
            &&& wired[1].name == "pv"@ && wired[1].point == block.io.pv
            &&& described.ports[2] == (describe::PortView {
                name: "out"@,
                direction: describe::Direction::Out,
                kind: ValueKind::Float,
                role: Some(PortRole::Output),
                point: None,
            })
            &&& wired[2].name == "out"@ && wired[2].point == block.io.out
            &&& described.ports[3] == (describe::PortView {
                name: "fallback_active"@,
                direction: describe::Direction::Out,
                kind: ValueKind::Bool,
                role: Some(PortRole::Status),
                point: None,
            })
            &&& wired[3].name == "fallback_active"@ && wired[3].point == block.io.fallback_active
            &&& described.parameters[0] == (describe::ParameterView {
                name: "on_bad"@,
                kind: ValueKind::Int,
                range: Some(
                    describe::ParameterRange {
                        min: Value::Int(0),
                        max: Value::Int(2),
                    },
                ),
            })
            &&& described.parameters[1] == (describe::ParameterView {
                name: "fallback_flow"@,
                kind: ValueKind::Float,
                range: Some(
                    describe::ParameterRange {
                        min: Value::Float(Float { bits: 0xffef_ffff_ffff_ffff }),
                        max: Value::Float(Float { bits: 0x7fef_ffff_ffff_ffff }),
                    },
                ),
            })
            &&& described.parameters[2] == (describe::ParameterView {
                name: "safe_flow"@,
                kind: ValueKind::Float,
                range: Some(
                    describe::ParameterRange {
                        min: Value::Float(Float { bits: 0xffef_ffff_ffff_ffff }),
                        max: Value::Float(Float { bits: 0x7fef_ffff_ffff_ffff }),
                    },
                ),
            })
        }),
{
    reveal_strlit("in");
    reveal_strlit("pv");
    reveal_strlit("out");
    reveal_strlit("fallback_active");
    assert("in"@.len() == 2);
    assert("pv"@.len() == 2);
    assert("out"@.len() == 3);
    assert("fallback_active"@.len() == 15);
    assert("in"@[0] != "pv"@[0]);
    let wired = block.requirements();
    let roles = block.roles();
    let parameters = block.description().parameters;
    describe::ports_are_described_as_declared(
        block.name,
        "demand-fallback"@,
        wired,
        roles,
        parameters,
        0,
        0,
    );
    describe::ports_are_described_as_declared(
        block.name,
        "demand-fallback"@,
        wired,
        roles,
        parameters,
        1,
        1,
    );
    describe::ports_are_described_as_declared(
        block.name,
        "demand-fallback"@,
        wired,
        roles,
        parameters,
        2,
        2,
    );
    describe::ports_are_described_as_declared(
        block.name,
        "demand-fallback"@,
        wired,
        roles,
        parameters,
        3,
        3,
    );
}

} // verus!
