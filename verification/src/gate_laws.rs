//! What holds of every gate, in terms of what it reads and what is declared.

use crate::bool_gate::{
    empty_gate_is_constant, fold_step, input_ports, input_roles, spec_from_parameters, values,
    GateOperation, GateView,
};
use crate::describe::{Direction, ParameterRange, ParameterView, PortRole, RequirementView};
use crate::params::{spec_required_u64, spec_tune_u64, ParameterErrorView};
use crate::table::{int_field, known_fields};
use crate::text::spec_numbered;
use crate::value::{
    worst_reading_is_the_last_of_the_worst, worst_reading_is_worst, PointId, Quality, Reading, Tick,
    Value, ValueKind,
};
use vstd::prelude::*;

verus! {

/// Every scan drives `out`, as of this scan: under `and` whether all inputs read
/// `true`, under `or` whether one does, whatever their qualities. Under `xor`
/// one more input turns the result around exactly where it reads `true`, and
/// with none it is `false`.
pub proof fn scans_drive_the_operation(
    gate: GateView,
    readings: Seq<Reading<bool>>,
    next: Reading<bool>,
    tick: Tick,
)
    ensures
        ({
            let driven = gate.driven(readings, tick);
            let more = gate.driven(readings.push(next), tick);
            let none = gate.driven(Seq::empty(), tick);
            let all = forall|i: int| 0 <= i < readings.len() ==> (#[trigger] readings[i]).value;
            let any = exists|i: int| 0 <= i < readings.len() && (#[trigger] readings[i]).value;
            &&& driven.point == gate.output && driven.sample.tick == tick
            &&& gate.operation is And ==> driven.sample.value == Value::Bool(all)
            &&& gate.operation is Or ==> driven.sample.value == Value::Bool(any)
            &&& gate.operation is Xor ==> none.sample.value == Value::Bool(false)
            &&& gate.operation is Xor && next.value ==> more.sample.value != driven.sample.value
            &&& gate.operation is Xor && !next.value ==> more.sample.value == driven.sample.value
            &&& driven.sample.value is Bool && more.sample.value is Bool
            &&& none.sample.quality == Quality::Good
        }),
{
    let read = values(readings);
    let more = values(readings.push(next));
    assert(more =~= read.push(next.value));
    assert(values(Seq::<Reading<bool>>::empty()) =~= Seq::<bool>::empty());
    fold_step(gate.operation, read, next.value);
    empty_gate_is_constant();
    let all = forall|i: int| 0 <= i < readings.len() ==> (#[trigger] readings[i]).value;
    let any = exists|i: int| 0 <= i < readings.len() && (#[trigger] readings[i]).value;
    if all {
        assert forall|i: int| 0 <= i < read.len() implies #[trigger] read[i] by {
            assert(readings[i].value);
        }
    }
    if forall|i: int| 0 <= i < read.len() ==> #[trigger] read[i] {
        assert forall|i: int| 0 <= i < readings.len() implies (#[trigger] readings[i]).value by {
            assert(read[i]);
        }
    }
    if any {
        let i = choose|i: int| 0 <= i < readings.len() && (#[trigger] readings[i]).value;
        assert(read[i]);
    }
    if exists|i: int| 0 <= i < read.len() && #[trigger] read[i] {
        let i = choose|i: int| 0 <= i < read.len() && #[trigger] read[i];
        assert(readings[i].value);
    }
    assert(gate.operation is And ==> gate.operation.holds(read) == all);
    assert(gate.operation is Or ==> gate.operation.holds(read) == any);
}

/// The output is as bad as the worst input, and carries the quality of the last
/// of those that are as bad.
pub proof fn outputs_carry_the_last_of_the_worst(
    gate: GateView,
    readings: Seq<Reading<bool>>,
    tick: Tick,
) -> (at: int)
    requires
        readings.len() > 0,
    ensures
        ({
            let quality = gate.driven(readings, tick).sample.quality;
            &&& 0 <= at < readings.len() && quality == readings[at].quality
            &&& forall|i: int|
                0 <= i < readings.len() ==> (#[trigger] readings[i]).quality.severity()
                    <= quality.severity()
            &&& forall|i: int|
                at < i < readings.len() ==> (#[trigger] readings[i]).quality.severity()
                    < quality.severity()
        }),
{
    worst_reading_is_worst(readings);
    worst_reading_is_the_last_of_the_worst(readings)
}

/// A gate is built exactly where `operation` declares 0, 1 or 2, for `and`, `or`
/// or `xor`. A retune to such a code sets it and nothing else.
pub proof fn building_takes_the_declared(
    given: GateView,
    parameters: Map<Seq<char>, Value>,
    value: Value,
)
    ensures
        ({
            let built = spec_from_parameters(given.name, given.inputs, given.output, parameters);
            let code = spec_required_u64(given.name, parameters, "operation"@);
            &&& built is Ok <==> code is Ok && code->Ok_0 <= 2
            &&& code is Err ==> built == Err::<GateView, ParameterErrorView>(code->Err_0)
            &&& code is Ok && code->Ok_0 > 2 ==> {
                &&& built matches Err(ParameterErrorView::Invalid { component, parameter, .. })
                &&& component == given.name && parameter == "operation"@
            }
            &&& built is Ok ==> {
                let operation = built->Ok_0.operation;
                &&& operation is And <==> code->Ok_0 == 0
                &&& operation is Or <==> code->Ok_0 == 1
                &&& operation is Xor <==> code->Ok_0 == 2
                &&& built->Ok_0 == (GateView { operation, ..given })
            }
        }),
        ({
            let code = spec_tune_u64(given.name, "operation"@, value);
            let tuned = given.tuned("operation"@, value);
            &&& tuned is Ok <==> code is Ok && code->Ok_0 <= 2
            &&& tuned is Ok ==> {
                let operation = tuned->Ok_0.operation;
                &&& operation is And <==> code->Ok_0 == 0
                &&& operation is Or <==> code->Ok_0 == 1
                &&& operation is Xor <==> code->Ok_0 == 2
                &&& tuned->Ok_0 == (GateView { operation, ..given })
            }
        }),
{
}

/// A checkpoint holds the code of the operation and nothing else; it is taken
/// over exactly where it holds such a code and no other name.
pub proof fn checkpoints_hold_the_operation(
    gate: GateView,
    keys: Seq<Seq<char>>,
    fields: Map<Seq<char>, Value>,
)
    ensures
        ({
            let reported = gate.reported();
            let restored = gate.restored(keys, fields);
            let code = int_field(fields, gate.name, "operation"@);
            &&& reported.dom() == set!["operation"@]
            &&& reported["operation"@] == Value::Int(
                match gate.operation {
                    GateOperation::And => 0,
                    GateOperation::Or => 1,
                    GateOperation::Xor => 2,
                },
            )
            &&& restored is Ok <==> known_fields(keys, gate.name, seq!["operation"@]) is Ok && code
                is Ok && 0 <= code->Ok_0 <= 2
            &&& restored is Ok ==> {
                let operation = restored->Ok_0.operation;
                &&& operation is And <==> code->Ok_0 == 0
                &&& operation is Or <==> code->Ok_0 == 1
                &&& operation is Xor <==> code->Ok_0 == 2
                &&& restored->Ok_0 == (GateView { operation, ..gate })
            }
        }),
{
    assert(gate.reported().dom() =~= set!["operation"@]);
}

/// What a gate is wired by: its inputs, `in_1` on, in their order, and `out`. It
/// declares its operation, by a code from 0 to 2.
pub proof fn wiring_is_described(gate: GateView, i: int)
    ensures
        ({
            let described = gate.description();
            let ports = gate.requirements();
            let roles = gate.roles();
            let count = gate.inputs.len() as int;
            &&& described.name == gate.name && described.label == gate.name
            &&& described.kind == "bool-gate"@
            &&& ports.len() == count + 1 && roles.len() == count + 1
            &&& described.ports.len() == count + 1
            &&& 0 <= i < count ==> ports[i] == (RequirementView {
                name: spec_numbered("in_"@, (i + 1) as nat),
                direction: Direction::In,
                kind: ValueKind::Bool,
                point: gate.inputs[i],
            }) && roles[i] == (ports[i].name, PortRole::ProcessValue)
            &&& ports[count] == (RequirementView {
                name: "out"@,
                direction: Direction::Out,
                kind: ValueKind::Bool,
                point: gate.output,
            })
            &&& roles[count] == ("out"@, PortRole::Output)
            &&& described.parameters.len() == 1
            &&& described.parameters[0] == (ParameterView {
                name: "operation"@,
                kind: ValueKind::Int,
                range: Some(
                    ParameterRange { min: Value::Int(0), max: Value::Int(2) },
                ),
            })
        }),
{
    lemma_input_wiring(gate.inputs, gate.inputs.len(), i);
}

proof fn lemma_input_wiring(inputs: Seq<PointId>, done: nat, i: int)
    requires
        done <= inputs.len(),
    ensures
        ({
            let ports = input_ports(inputs, done);
            let roles = input_roles(done);
            &&& ports.len() == done && roles.len() == done
            &&& 0 <= i < done ==> ports[i] == (RequirementView {
                name: spec_numbered("in_"@, (i + 1) as nat),
                direction: Direction::In,
                kind: ValueKind::Bool,
                point: inputs[i],
            }) && roles[i] == (ports[i].name, PortRole::ProcessValue)
        }),
    decreases done,
{
    if done > 0 {
        lemma_input_wiring(inputs, (done - 1) as nat, i);
    }
}

} // verus!
