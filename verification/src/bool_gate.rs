//! A gate: one truth function over any number of inputs.

use crate::describe::{
    self, agree_on, describes_parameter, parameter_views, requirement_views, role_views,
    spec_component, spec_input, spec_int_range, spec_output, spec_parameter, ComponentDescriptor,
    ComponentView, IoRequirement, ParameterDescriptor, PortRole, RequirementView, RoleHint,
};
use crate::params::{
    self, spec_invalid, spec_invalid_parameter, spec_required_u64, spec_tune_u64,
    spec_unknown_parameter, CommandError, CommandErrorView, ParameterError, ParameterErrorView,
    Parameters,
};
use crate::table::{
    self, field, int_field, known_fields, spec_invalid_value, StateError, StateErrorView, StateMap,
};
use crate::text::{self, decimal, spec_numbered};
use crate::value::{
    worst_reading, PointId, Quality, Reading, Tick, Value, ValueKind, Write,
};
use vstd::prelude::*;

verus! {

/// The truth function a [`BoolGate`] applies across its inputs, and its code.
#[derive(Debug, Clone, Copy, PartialEq, Eq, Structural)]
pub enum GateOperation {
    /// `0`: every input reads `true`.
    And,
    /// `1`: at least one input reads `true`.
    Or,
    /// `2`: an odd number of inputs read `true`.
    Xor,
}

impl GateOperation {
    /// The code of the operation.
    pub open spec fn spec_code(self) -> i64 {
        match self {
            GateOperation::And => 0,
            GateOperation::Or => 1,
            GateOperation::Xor => 2,
        }
    }

    /// The operation that `code` selects.
    pub open spec fn spec_decode(code: int) -> Option<GateOperation> {
        if code == 0 {
            Some(GateOperation::And)
        } else if code == 1 {
            Some(GateOperation::Or)
        } else if code == 2 {
            Some(GateOperation::Xor)
        } else {
            None
        }
    }

    /// The code of the operation.
    pub fn code(self) -> (r: i64)
        ensures
            r == self.spec_code(),
    {
        match self {
            GateOperation::And => 0,
            GateOperation::Or => 1,
            GateOperation::Xor => 2,
        }
    }

    /// The operation that `code` selects.
    pub fn decode(code: i64) -> (r: Option<GateOperation>)
        ensures
            r == GateOperation::spec_decode(code as int),
    {
        match code {
            0 => Some(GateOperation::And),
            1 => Some(GateOperation::Or),
            2 => Some(GateOperation::Xor),
            _ => None,
        }
    }

    /// What the operation makes of its inputs.
    pub open spec fn holds(self, values: Seq<bool>) -> bool {
        match self {
            GateOperation::And => forall|i: int| 0 <= i < values.len() ==> #[trigger] values[i],
            GateOperation::Or => exists|i: int| 0 <= i < values.len() && #[trigger] values[i],
            GateOperation::Xor => count_true(values) % 2 == 1,
        }
    }

    /// What the operation makes of no input at all.
    pub fn identity(self) -> (r: bool)
        ensures
            r == self.holds(Seq::empty()),
    {
        match self {
            GateOperation::And => true,
            GateOperation::Or => false,
            GateOperation::Xor => false,
        }
    }

    /// Folds one more input into what the operation made of the others.
    pub fn apply(self, folded: bool, input: bool) -> (r: bool)
        ensures
            r == match self {
                GateOperation::And => folded && input,
                GateOperation::Or => folded || input,
                GateOperation::Xor => folded != input,
            },
            forall|values: Seq<bool>|
                folded == #[trigger] self.holds(values) ==> r == self.holds(values.push(input)),
    {
        proof {
            assert forall|values: Seq<bool>| folded == #[trigger] self.holds(values) implies (
            match self {
                GateOperation::And => folded && input,
                GateOperation::Or => folded || input,
                GateOperation::Xor => folded != input,
            }) == self.holds(values.push(input)) by {
                fold_step(self, values, input);
            }
        }
        match self {
            GateOperation::And => folded && input,
            GateOperation::Or => folded || input,
            GateOperation::Xor => folded != input,
        }
    }
}

/// How many of the values are `true`.
pub open spec fn count_true(values: Seq<bool>) -> nat
    decreases values.len(),
{
    if values.len() == 0 {
        0
    } else if values.last() {
        count_true(values.drop_last()) + 1
    } else {
        count_true(values.drop_last())
    }
}

/// One more input changes what an operation makes of its inputs by the
/// operation itself.
pub proof fn fold_step(operation: GateOperation, values: Seq<bool>, input: bool)
    ensures
        operation.holds(values.push(input)) == match operation {
            GateOperation::And => operation.holds(values) && input,
            GateOperation::Or => operation.holds(values) || input,
            GateOperation::Xor => operation.holds(values) != input,
        },
{
    let more = values.push(input);
    assert(more.drop_last() == values);
    assert(more[values.len() as int] == input);
    assert(forall|i: int| 0 <= i < values.len() ==> #[trigger] more[i] == values[i]);
    if operation == GateOperation::And && operation.holds(more) {
        assert forall|i: int| 0 <= i < values.len() implies #[trigger] values[i] by {
            assert(more[i]);
        }
    }
    if operation == GateOperation::Or && operation.holds(values) {
        let i = choose|i: int| 0 <= i < values.len() && #[trigger] values[i];
        assert(more[i]);
    }
}

/// With no input a gate is constant: `and` asserts, `or` and `xor` do not.
pub proof fn empty_gate_is_constant()
    ensures
        GateOperation::And.holds(Seq::empty()),
        !GateOperation::Or.holds(Seq::empty()),
        !GateOperation::Xor.holds(Seq::empty()),
{
}

/// A single input passes through unchanged under every operation.
pub proof fn single_input_passes_through(operation: GateOperation, input: bool)
    ensures
        operation.holds(seq![input]) == input,
{
    fold_step(operation, Seq::empty(), input);
    assert(Seq::<bool>::empty().push(input) == seq![input]);
}

/// Every operation code names the operation it was taken from, and no other
/// code names one.
pub proof fn gate_codes_read_back(operation: GateOperation, code: i64)
    ensures
        GateOperation::spec_decode(operation.spec_code() as int) == Some(operation),
        GateOperation::spec_decode(code as int) matches Some(named) ==> named.spec_code() == code,
{
}

/// A gate: it folds its inputs `in_1` to `in_N` through an operation and
/// drives the result on `out`. With no input it drives what the operation
/// makes of none; a single input passes through.
///
/// `out` carries the worst of the inputs' qualities, those of inputs that
/// do not decide the result included. With no input it is `Good`.
///
/// Its one parameter, `operation`, is a [`GateOperation`] code.
#[derive(Debug)]
pub struct BoolGate {
    name: String,
    inputs: Vec<PointId>,
    output: PointId,
    operation: GateOperation,
}

/// What a [`BoolGate`] is.
#[verifier::ext_equal]
pub struct GateView {
    pub name: Seq<char>,
    pub inputs: Seq<PointId>,
    pub output: PointId,
    pub operation: GateOperation,
}

impl View for BoolGate {
    type V = GateView;

    closed spec fn view(&self) -> GateView {
        GateView {
            name: self.name@,
            inputs: self.inputs@,
            output: self.output,
            operation: self.operation,
        }
    }
}

/// The block that the parameters declare.
pub open spec fn spec_from_parameters(
    name: Seq<char>,
    inputs: Seq<PointId>,
    output: PointId,
    parameters: Map<Seq<char>, Value>,
) -> Result<GateView, ParameterErrorView> {
    match spec_required_u64(name, parameters, "operation"@) {
        Err(error) => Err(error),
        Ok(code) => match GateOperation::spec_decode(code as int) {
            None => Err(
                spec_invalid(
                    name,
                    "operation"@,
                    "expected 0 (and), 1 (or), or 2 (xor), found "@ + decimal(code as nat),
                ),
            ),
            Some(operation) => Ok(GateView { name, inputs, output, operation }),
        },
    }
}

/// The values of a list of readings.
pub open spec fn values(readings: Seq<Reading<bool>>) -> Seq<bool> {
    Seq::new(readings.len(), |i: int| readings[i].value)
}

/// The first `done` input ports.
pub open spec fn input_ports(inputs: Seq<PointId>, done: nat) -> Seq<RequirementView>
    decreases done,
{
    if done == 0 {
        Seq::empty()
    } else {
        input_ports(inputs, (done - 1) as nat).push(
            spec_input(spec_numbered("in_"@, done), ValueKind::Bool, inputs[done - 1]),
        )
    }
}

/// The roles of the first `done` input ports.
pub open spec fn input_roles(done: nat) -> Seq<(Seq<char>, PortRole)>
    decreases done,
{
    if done == 0 {
        Seq::empty()
    } else {
        input_roles((done - 1) as nat).push(
            (spec_numbered("in_"@, done), PortRole::ProcessValue),
        )
    }
}

impl GateView {
    /// What the block drives in a scan.
    pub open spec fn driven(self, readings: Seq<Reading<bool>>, tick: Tick) -> Write {
        Write::of(
            self.output,
            Value::Bool(self.operation.holds(values(readings))),
            worst_reading(readings),
            tick,
        )
    }

    /// The declared ports.
    pub open spec fn requirements(self) -> Seq<RequirementView> {
        input_ports(self.inputs, self.inputs.len()).push(
            spec_output("out"@, ValueKind::Bool, self.output),
        )
    }

    /// The roles of the ports.
    pub open spec fn roles(self) -> Seq<(Seq<char>, PortRole)> {
        input_roles(self.inputs.len()).push(("out"@, PortRole::Output))
    }

    /// The block's description.
    pub open spec fn description(self) -> ComponentView {
        spec_component(
            self.name,
            BoolGate::KIND@,
            self.requirements(),
            self.roles(),
            seq![spec_parameter("operation"@, ValueKind::Int, spec_int_range(0, 2))],
        )
    }

    /// The block after a retune, or its refusal.
    pub open spec fn tuned(self, parameter: Seq<char>, value: Value) -> Result<
        GateView,
        CommandErrorView,
    > {
        if parameter == "operation"@ {
            match spec_tune_u64(self.name, parameter, value) {
                Err(error) => Err(error),
                Ok(code) => match GateOperation::spec_decode(code as int) {
                    None => Err(
                        spec_invalid_parameter(
                            self.name,
                            parameter,
                            "expected 0 (and), 1 (or), or 2 (xor)"@,
                        ),
                    ),
                    Some(operation) => Ok(GateView { operation, ..self }),
                },
            }
        } else {
            Err(spec_unknown_parameter(self.name, parameter))
        }
    }

    /// The tuning as fields.
    pub open spec fn reported(self) -> Map<Seq<char>, Value> {
        Map::empty().insert("operation"@, Value::Int(self.operation.spec_code()))
    }

    /// The block with a checkpoint taken over, or the checkpoint's refusal.
    pub open spec fn restored(
        self,
        keys: Seq<Seq<char>>,
        fields: Map<Seq<char>, Value>,
    ) -> Result<GateView, StateErrorView> {
        match known_fields(keys, self.name, seq!["operation"@]) {
            Err(error) => Err(error),
            Ok(_) => match int_field(fields, self.name, "operation"@) {
                Err(error) => Err(error),
                Ok(code) => match GateOperation::spec_decode(code as int) {
                    None => Err(spec_invalid_value(self.name, "operation"@, Value::Int(code))),
                    Some(operation) => Ok(GateView { operation, ..self }),
                },
            },
        }
    }
}

impl BoolGate {
    /// The kind a plant model selects this block by.
    pub const KIND: &'static str = "bool-gate";

    /// Builds a gate. `inputs` become `in_1` to `in_N` in the given order.
    pub fn new(
        name: &str,
        inputs: Vec<PointId>,
        output: PointId,
        operation: GateOperation,
    ) -> (r: BoolGate)
        ensures
            r@ == (GateView { name: name@, inputs: inputs@, output, operation }),
    {
        BoolGate { name: name.to_owned(), inputs, output, operation }
    }

    /// Builds a gate from the parameters of a plant model.
    pub fn from_parameters(
        name: &str,
        inputs: Vec<PointId>,
        output: PointId,
        parameters: &Parameters,
    ) -> (r: Result<BoolGate, ParameterError>)
        ensures
            match r {
                Ok(gate) => spec_from_parameters(name@, inputs@, output, parameters@) == Ok::<
                    GateView,
                    ParameterErrorView,
                >(gate@),
                Err(error) => spec_from_parameters(name@, inputs@, output, parameters@) == Err::<
                    GateView,
                    ParameterErrorView,
                >(error@),
            },
    {
        let code: u64 = params::required_u64(name, parameters, "operation")?;
        match GateOperation::decode(params::code_of(code)) {
            Some(operation) => Ok(BoolGate::new(name, inputs, output, operation)),
            None => Err(
                params::invalid(
                    name,
                    "operation",
                    text::numbered("expected 0 (and), 1 (or), or 2 (xor), found ", code).as_str(),
                ),
            ),
        }
    }

    /// The block's name.
    pub fn name(&self) -> (r: &str)
        ensures
            r@ == self@.name,
    {
        self.name.as_str()
    }

    /// The declared ports.
    pub fn io_requirements(&self) -> (r: Vec<IoRequirement>)
        ensures
            requirement_views(r@) == self@.requirements(),
    {
        let mut r: Vec<IoRequirement> = Vec::new();
        let mut index: usize = 0;
        assert(requirement_views(r@) == input_ports(self@.inputs, 0));
        while index < self.inputs.len()
            invariant
                index <= self.inputs.len(),
                requirement_views(r@) == input_ports(self@.inputs, index as nat),
            decreases self.inputs.len() - index,
        {
            let name = text::numbered("in_", index as u64 + 1);
            r.push(describe::input(name.as_str(), ValueKind::Bool, self.inputs[index]));
            index = index + 1;
            assert(requirement_views(r@) == input_ports(self@.inputs, index as nat));
        }
        r.push(describe::output("out", ValueKind::Bool, self.output));
        assert(requirement_views(r@) == self@.requirements());
        r
    }

    /// Runs one scan on what the inputs read, in their order.
    pub fn step(&self, readings: &Vec<Reading<bool>>, tick: Tick) -> (r: Write)
        requires
            readings@.len() == self@.inputs.len(),
        ensures
            r == self@.driven(readings@, tick),
    {
        let mut folded = self.operation.identity();
        let mut quality = Quality::Good;
        let mut index: usize = 0;
        let ghost all = values(readings@);
        assert(all.take(0) == Seq::<bool>::empty());
        assert(readings@.take(0) == Seq::<Reading<bool>>::empty());
        while index < readings.len()
            invariant
                index <= readings.len(),
                all == values(readings@),
                folded == self@.operation.holds(all.take(index as int)),
                quality == worst_reading(readings@.take(index as int)),
            decreases readings.len() - index,
        {
            let reading = readings[index];
            quality = quality.merge(reading.quality);
            folded = self.operation.apply(folded, reading.value);
            assert(all.take(index as int).push(reading.value) == all.take(index + 1));
            assert(readings@.take(index + 1).drop_last() == readings@.take(index as int));
            index = index + 1;
        }
        assert(all.take(index as int) == all);
        assert(readings@.take(index as int) == readings@);
        Write::new(self.output, Value::Bool(folded), quality, tick)
    }

    /// Describes the block.
    pub fn describe(&self) -> (r: ComponentDescriptor)
        ensures
            r@ == self@.description(),
    {
        let mut roles: Vec<RoleHint> = Vec::new();
        let mut index: usize = 0;
        assert(role_views(roles@) == input_roles(0));
        while index < self.inputs.len()
            invariant
                index <= self.inputs.len(),
                role_views(roles@) == input_roles(index as nat),
            decreases self.inputs.len() - index,
        {
            let name = text::numbered("in_", index as u64 + 1);
            roles.push(describe::hint(name.as_str(), PortRole::ProcessValue));
            index = index + 1;
            assert(role_views(roles@) == input_roles(index as nat));
        }
        roles.push(describe::hint("out", PortRole::Output));
        assert(role_views(roles@) == self@.roles());
        let mut parameters: Vec<ParameterDescriptor> = Vec::new();
        parameters.push(
            describe::parameter("operation", ValueKind::Int, Some(describe::int_range(0, 2))),
        );
        assert(parameter_views(parameters@) == seq![
            spec_parameter("operation"@, ValueKind::Int, spec_int_range(0, 2)),
        ]);
        proof {
            lemma_input_roles(self@.inputs, self@.inputs.len());
            describe::parallel_hints(self@.requirements(), self@.roles());
        }
        describe::component(
            self.name.as_str(),
            BoolGate::KIND,
            &self.io_requirements(),
            &roles,
            parameters,
        )
    }

    /// Retunes `operation` at the scan boundary. A refused value changes
    /// nothing.
    pub fn apply_parameter(&mut self, parameter: &str, value: Value) -> (r: Result<
        (),
        CommandError,
    >)
        ensures
            match r {
                Ok(_) => old(self)@.tuned(parameter@, value) == Ok::<GateView, CommandErrorView>(
                    final(self)@,
                ),
                Err(error) => old(self)@.tuned(parameter@, value) == Err::<
                    GateView,
                    CommandErrorView,
                >(error@) && final(self)@ == old(self)@,
            },
    {
        if text::same(parameter, "operation") {
            let code: u64 = params::tune_u64(self.name.as_str(), parameter, value)?;
            match GateOperation::decode(params::code_of(code)) {
                Some(operation) => {
                    self.operation = operation;
                    Ok(())
                },
                None => Err(
                    params::invalid_parameter(
                        self.name.as_str(),
                        parameter,
                        "expected 0 (and), 1 (or), or 2 (xor)",
                    ),
                ),
            }
        } else {
            Err(params::unknown_parameter(self.name.as_str(), parameter))
        }
    }

    /// Reports the tuning under the names that a checkpoint uses.
    pub fn report_parameters(&self) -> (r: StateMap)
        ensures
            r@ == self@.reported(),
    {
        let mut r = StateMap::new();
        r.insert("operation", Value::Int(self.operation.code()));
        r
    }

    /// Captures the tuning; a gate has no other state.
    pub fn capture_state(&self) -> (r: StateMap)
        ensures
            r@ == self@.reported(),
    {
        self.report_parameters()
    }

    /// Takes over a checkpoint. A refused one leaves the block as it was.
    pub fn restore_state(&mut self, state: &StateMap) -> (r: Result<(), StateError>)
        ensures
            match r {
                Ok(_) => old(self)@.restored(state.keys(), state@) == Ok::<
                    GateView,
                    StateErrorView,
                >(final(self)@),
                Err(error) => old(self)@.restored(state.keys(), state@) == Err::<
                    GateView,
                    StateErrorView,
                >(error@) && final(self)@ == old(self)@,
            },
    {
        let mut known: Vec<String> = Vec::new();
        known.push("operation".to_owned());
        assert(text::views(known@) == seq!["operation"@]);
        state.ensure_known_fields(self.name.as_str(), &known)?;
        let code: i64 = state.require_i64(self.name.as_str(), "operation")?;
        match GateOperation::decode(code) {
            Some(operation) => {
                self.operation = operation;
                Ok(())
            },
            None => Err(table::invalid_value(self.name.as_str(), "operation", Value::Int(code))),
        }
    }
}

proof fn lemma_input_roles(inputs: Seq<PointId>, done: nat)
    ensures
        input_ports(inputs, done).len() == done,
        input_roles(done).len() == done,
        forall|i: int|
            0 <= i < done ==> (#[trigger] input_roles(done)[i]).0 == input_ports(
                inputs,
                done,
            )[i].name,
    decreases done,
{
    if done > 0 {
        lemma_input_roles(inputs, (done - 1) as nat);
    }
}

/// Building reads exactly the described parameters: whatever else is
/// declared makes no difference, and without one of them nothing is built.
pub proof fn building_reads_the_described(
    gate: GateView,
    a: Map<Seq<char>, Value>,
    b: Map<Seq<char>, Value>,
    i: int,
)
    ensures
        ({
            let described = gate.description().parameters;
            let from_a = spec_from_parameters(gate.name, gate.inputs, gate.output, a);
            let from_b = spec_from_parameters(gate.name, gate.inputs, gate.output, b);
            &&& agree_on(described, a, b) ==> from_a == from_b
            &&& 0 <= i < described.len() && field(a, described[i].name) is None ==> from_a is Err
        }),
{
    let described = gate.description().parameters;
    assert(described[0].name == "operation"@);
}

/// Exactly the described parameters can be retuned: any other name is
/// refused as unknown.
pub proof fn tuning_takes_the_described(gate: GateView, parameter: Seq<char>, value: Value)
    ensures
        ({
            let unknown = spec_unknown_parameter(gate.name, parameter);
            let refused = Err::<GateView, CommandErrorView>(unknown);
            let described = gate.description().parameters;
            describes_parameter(described, parameter) <==> gate.tuned(parameter, value) != refused
        }),
{
    let described = gate.description().parameters;
    assert(described[0].name == "operation"@);
}

/// A gate that takes over the checkpoint of another runs the other's
/// operation.
pub proof fn gate_checkpoint_round_trip(gate: GateView, standby: GateView, checkpoint: table::Table)
    requires
        checkpoint@ == gate.reported(),
    ensures
        standby.restored(checkpoint.keys(), checkpoint@) == Ok::<GateView, StateErrorView>(
            GateView { operation: gate.operation, ..standby },
        ),
{
    assert(seq!["operation"@][0] == "operation"@);
    table::known_names_pass(checkpoint, standby.name, seq!["operation"@]);
}

} // verus!
