use dcs_blocks::{
    BoolGate, CommandError, Direction, Float, GateOperation, ParameterDescriptor, ParameterError,
    Parameters, PointId, PortDescriptor, PortRole, Quality, QualityReason, Reading, Sample,
    StateError, StateMap, Tick, Value, ValueKind, Write, describe,
};
use std::cell::RefCell;
use std::collections::BTreeMap;

/// A point image: what the inputs read and what was last driven.
struct TestIo {
    samples: RefCell<BTreeMap<u64, Sample>>,
    written: RefCell<BTreeMap<u64, Sample>>,
}

impl TestIo {
    fn new(points: &[(PointId, Direction, Sample)]) -> TestIo {
        let mut samples = BTreeMap::new();
        for (point, _, sample) in points {
            samples.insert(point.0, *sample);
        }
        TestIo { samples: RefCell::new(samples), written: RefCell::new(BTreeMap::new()) }
    }

    fn feed(&self, point: PointId, sample: Sample) {
        self.samples.borrow_mut().insert(point.0, sample);
    }

    fn written(&self, point: PointId) -> Option<Sample> {
        self.written.borrow().get(&point.0).copied()
    }

    fn drive(&self, writes: &[Write]) {
        for write in writes {
            self.written.borrow_mut().insert(write.point.0, write.sample);
        }
    }

    fn read_bool(&self, point: PointId) -> Reading<bool> {
        let sample = self.samples.borrow()[&point.0];
        match sample.value {
            Value::Bool(value) => Reading { value, quality: sample.quality },
            other => panic!("{point:?} holds {other:?}"),
        }
    }
}

/// Reads a block's inputs, runs one scan and drives what it writes.
trait Scan {
    fn scan(&mut self, io: &TestIo, tick: Tick);
}

impl Scan for BoolGate {
    fn scan(&mut self, io: &TestIo, tick: Tick) {
        let mut readings = Vec::new();
        for requirement in self.io_requirements() {
            if requirement.direction == Direction::In {
                readings.push(io.read_bool(requirement.point));
            }
        }
        let write = self.step(&readings, tick);
        io.drive(&[write]);
    }
}

fn num(value: f64) -> Float {
    Float::from_bits(value.to_bits())
}

fn float(value: f64) -> Value {
    Value::Float(num(value))
}

fn table_of<S: AsRef<str>>(entries: &[(S, Value)]) -> Parameters {
    let mut table = Parameters::new();
    for (name, value) in entries {
        table.insert(name.as_ref(), *value);
    }
    table
}

const IN_1: PointId = PointId(200);
const IN_2: PointId = PointId(201);
const IN_3: PointId = PointId(202);
const OUT: PointId = PointId(203);

/// A three-input gate running `operation`.
fn component(operation: GateOperation) -> BoolGate {
    BoolGate::new("gate", vec![IN_1, IN_2, IN_3], OUT, operation)
}

fn io() -> TestIo {
    TestIo::new(&[
        (
            IN_1,
            Direction::In,
            Sample::good(Value::Bool(false), Tick(0)),
        ),
        (
            IN_2,
            Direction::In,
            Sample::good(Value::Bool(false), Tick(0)),
        ),
        (
            IN_3,
            Direction::In,
            Sample::good(Value::Bool(false), Tick(0)),
        ),
        (
            OUT,
            Direction::Out,
            Sample::good(Value::Bool(false), Tick(0)),
        ),
    ])
}

/// Feeds the three inputs and steps once.
fn step(block: &mut BoolGate, io: &TestIo, inputs: [bool; 3], tick: u64) {
    for (point, value) in [IN_1, IN_2, IN_3].into_iter().zip(inputs) {
        io.feed(point, Sample::good(Value::Bool(value), Tick(tick)));
    }
    block.scan(io, Tick(tick));
}

fn out(io: &TestIo) -> Sample {
    io.written(OUT).unwrap()
}

fn driven(io: &TestIo) -> bool {
    out(io).value == Value::Bool(true)
}

#[test]
fn and_asserts_only_when_every_input_holds() {
    let mut block = component(GateOperation::And);
    let io = io();

    // Partial assertion does not satisfy `and`.
    for (tick, inputs) in [
        (1, [true, true, false]),
        (2, [true, false, true]),
        (3, [false, false, false]),
    ] {
        step(&mut block, &io, inputs, tick);
        assert!(!driven(&io), "tick={tick}");
    }

    // All three asserted: the block opens; dropping one closes it on
    // the same scan — the fold is stateless.
    step(&mut block, &io, [true, true, true], 4);
    assert!(driven(&io));
    step(&mut block, &io, [true, false, true], 5);
    assert!(!driven(&io));
}

#[test]
fn or_asserts_when_any_input_holds() {
    let mut block = component(GateOperation::Or);
    let io = io();

    step(&mut block, &io, [false, false, false], 1);
    assert!(!driven(&io));
    for (tick, inputs) in [
        (2, [true, false, false]),
        (3, [false, false, true]),
        (4, [true, true, true]),
    ] {
        step(&mut block, &io, inputs, tick);
        assert!(driven(&io), "tick={tick}");
    }
    step(&mut block, &io, [false, false, false], 5);
    assert!(!driven(&io));
}

#[test]
fn xor_asserts_on_odd_parity() {
    let mut block = component(GateOperation::Xor);
    let io = io();

    // Odd counts assert; even counts — including all-asserted — do
    // not.
    for (tick, inputs, expected) in [
        (1, [false, false, false], false),
        (2, [true, false, false], true),
        (3, [true, true, false], false),
        (4, [true, true, true], true),
        (5, [false, true, true], false),
    ] {
        step(&mut block, &io, inputs, tick);
        assert_eq!(driven(&io), expected, "tick={tick}");
    }
}

#[test]
fn empty_and_single_inputs_follow_the_documented_identity_rule() {
    // No `in_N` ports: the fold yields the operation's identity —
    // `and` reads true, `or` and `xor` read false — at Good quality.
    for (operation, expected) in [
        (GateOperation::And, true),
        (GateOperation::Or, false),
        (GateOperation::Xor, false),
    ] {
        let mut block = BoolGate::new("gate", Vec::new(), OUT, operation);
        let io = TestIo::new(&[(
            OUT,
            Direction::Out,
            Sample::good(Value::Bool(false), Tick(0)),
        )]);
        block.scan(&io, Tick(1));
        assert_eq!(
            out(&io),
            Sample::new(Value::Bool(expected), Quality::Good, Tick(1)),
            "{operation:?}"
        );
    }

    // One input passes through under every operation.
    for operation in [GateOperation::And, GateOperation::Or, GateOperation::Xor] {
        let mut block = BoolGate::new("gate", vec![IN_1], OUT, operation);
        let io = TestIo::new(&[
            (
                IN_1,
                Direction::In,
                Sample::good(Value::Bool(false), Tick(0)),
            ),
            (
                OUT,
                Direction::Out,
                Sample::good(Value::Bool(false), Tick(0)),
            ),
        ]);
        block.scan(&io, Tick(1));
        assert!(!driven(&io), "{operation:?}");
        io.feed(IN_1, Sample::good(Value::Bool(true), Tick(2)));
        block.scan(&io, Tick(2));
        assert!(driven(&io), "{operation:?}");
    }
}

#[test]
fn output_carries_the_worst_input_quality() {
    let mut block = component(GateOperation::And);
    let io = io();
    step(&mut block, &io, [true, true, true], 1);
    assert_eq!(out(&io).quality, Quality::Good);

    // A non-Good input marks the output even where the truth
    // function's result is already decided by other inputs.
    io.feed(
        IN_3,
        Sample::new(
            Value::Bool(true),
            Quality::Uncertain(QualityReason::Stale),
            Tick(2),
        ),
    );
    block.scan(&io, Tick(2));
    assert_eq!(out(&io).value, Value::Bool(true));
    assert_eq!(out(&io).quality, Quality::Uncertain(QualityReason::Stale));

    // A Bad input whose false value decides `and` still drives the
    // folded result, marked with its quality.
    io.feed(
        IN_2,
        Sample::new(
            Value::Bool(false),
            Quality::Bad(QualityReason::DeviceFault),
            Tick(3),
        ),
    );
    block.scan(&io, Tick(3));
    assert_eq!(out(&io).value, Value::Bool(false));
    assert_eq!(out(&io).quality, Quality::Bad(QualityReason::DeviceFault));
}

#[test]
fn tuned_operation_continues_across_restore() {
    // The block is stateless apart from its tuning: a runtime-tuned
    // `operation` is captured run state the standby inherits.
    let mut block = component(GateOperation::And);
    block
        .apply_parameter("operation", Value::Int(GateOperation::Or.code()))
        .unwrap();
    let state = block.capture_state();
    assert_eq!(
        state.get("operation"),
        Some(Value::Int(GateOperation::Or.code()))
    );

    let mut standby = component(GateOperation::And);
    standby.restore_state(&state).unwrap();
    assert_eq!(standby.capture_state(), state);

    // The restored gate runs the tuned operation.
    let io = io();
    step(&mut standby, &io, [true, false, false], 1);
    assert!(driven(&io));
}

#[test]
fn bool_gate_tuning_and_restore_reject_undeclared_or_unknown_codes() {
    let mut block = component(GateOperation::And);
    assert!(matches!(
        block.apply_parameter("operation", Value::Int(7)),
        Err(CommandError::InvalidParameter { ref parameter, .. }) if parameter == "operation"
    ));
    assert!(matches!(
        block.apply_parameter("nope", Value::Int(0)),
        Err(CommandError::UnknownParameter { ref parameter, .. }) if parameter == "nope"
    ));
    // A refused tune changes nothing.
    let io = io();
    step(&mut block, &io, [true, false, false], 1);
    assert!(!driven(&io));

    let mut state = StateMap::new();
    state.insert("operation", Value::Int(7));
    assert!(matches!(
        block.restore_state(&state),
        Err(StateError::InvalidValue { ref field, .. }) if field == "operation"
    ));
    let mut state = StateMap::new();
    state.insert("operation", Value::Bool(true));
    assert!(matches!(
        block.restore_state(&state),
        Err(StateError::IncompatibleField { ref field, .. }) if field == "operation"
    ));
    assert!(matches!(
        block.restore_state(&StateMap::new()),
        Err(StateError::MissingField { ref field, .. }) if field == "operation"
    ));
}

#[test]
fn bool_gate_builds_from_parameter_map() {
    let parameters = table_of(&[("operation".to_string(), Value::Int(1))]);
    let mut block =
        BoolGate::from_parameters("gate", vec![IN_1, IN_2], OUT, &parameters).unwrap();
    assert_eq!(
        block.report_parameters().get("operation"),
        Some(Value::Int(GateOperation::Or.code()))
    );
    let io = TestIo::new(&[
        (
            IN_1,
            Direction::In,
            Sample::good(Value::Bool(true), Tick(0)),
        ),
        (
            IN_2,
            Direction::In,
            Sample::good(Value::Bool(false), Tick(0)),
        ),
        (
            OUT,
            Direction::Out,
            Sample::good(Value::Bool(false), Tick(0)),
        ),
    ]);
    block.scan(&io, Tick(1));
    assert!(driven(&io));

    // `operation` is required and must carry a declared code.
    assert!(matches!(
        BoolGate::from_parameters("gate", vec![IN_1], OUT, &Parameters::new()).unwrap_err(),
        ParameterError::Missing { ref parameter, .. } if parameter == "operation"
    ));
    for value in [
        Value::Int(3),
        Value::Int(-1),
        float(1.5),
        Value::Bool(true),
    ] {
        let bad = table_of(&[("operation".to_string(), value)]);
        assert!(
            matches!(
                BoolGate::from_parameters("gate", vec![IN_1], OUT, &bad).unwrap_err(),
                ParameterError::Invalid { ref parameter, .. } if parameter == "operation"
            ),
            "value={value:?}"
        );
    }
}

#[test]
fn bool_gate_describes_itself() {
    let descriptor = component(GateOperation::Xor).describe();
    assert_eq!(descriptor.name, "gate");
    assert_eq!(descriptor.kind, BoolGate::KIND);
    assert_eq!(descriptor.label, "gate");
    // Ports follow the declared-I/O order: the in_N set, then out.
    assert_eq!(
        descriptor.ports,
        [
            PortDescriptor {
                name: "in_1".to_string(),
                direction: Direction::In,
                kind: ValueKind::Bool,
                role: Some(PortRole::ProcessValue),
                point: None,
            },
            PortDescriptor {
                name: "in_2".to_string(),
                direction: Direction::In,
                kind: ValueKind::Bool,
                role: Some(PortRole::ProcessValue),
                point: None,
            },
            PortDescriptor {
                name: "in_3".to_string(),
                direction: Direction::In,
                kind: ValueKind::Bool,
                role: Some(PortRole::ProcessValue),
                point: None,
            },
            PortDescriptor {
                name: "out".to_string(),
                direction: Direction::Out,
                kind: ValueKind::Bool,
                role: Some(PortRole::Output),
                point: None,
            },
        ]
    );
    // Drift guard: the descriptor's parameter names are exactly the
    // keys `from_parameters` reads.
    assert_eq!(
        descriptor.parameters,
        [ParameterDescriptor {
            name: "operation".to_string(),
            kind: ValueKind::Int,
            range: Some(describe::int_range(0, 2)),
        }]
    );
}
