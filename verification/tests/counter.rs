use dcs_blocks::{
    Counter, Direction, ParameterDescriptor, ParameterError, Parameters, PointId, PortDescriptor,
    PortRole, Quality, QualityReason, Reading, Sample, StateError, StateMap, Tick, Value,
    ValueKind, Write, describe,
};
use std::cell::RefCell;
use std::collections::BTreeMap;

/// A point image: what the inputs read and what was last driven.
struct TestIo {
    samples: RefCell<BTreeMap<u64, Sample>>,
    written: RefCell<BTreeMap<u64, Sample>>,
}

impl TestIo {
    fn new(points: &[(PointId, Direction, Sample)]) -> TestIo {
        let mut samples = BTreeMap::new();
        for (point, _, sample) in points {
            samples.insert(point.0, *sample);
        }
        TestIo { samples: RefCell::new(samples), written: RefCell::new(BTreeMap::new()) }
    }

    fn feed(&self, point: PointId, sample: Sample) {
        self.samples.borrow_mut().insert(point.0, sample);
    }

    fn written(&self, point: PointId) -> Option<Sample> {
        self.written.borrow().get(&point.0).copied()
    }

    fn drive(&self, writes: &[Write]) {
        for write in writes {
            self.written.borrow_mut().insert(write.point.0, write.sample);
        }
    }

    fn read_bool(&self, point: PointId) -> Reading<bool> {
        let sample = self.samples.borrow()[&point.0];
        match sample.value {
            Value::Bool(value) => Reading { value, quality: sample.quality },
            other => panic!("{point:?} holds {other:?}"),
        }
    }
}

/// Reads a block's inputs, runs one scan and drives what it writes.
trait Scan {
    fn scan(&mut self, io: &TestIo, tick: Tick);
}

impl Scan for Counter {
    fn scan(&mut self, io: &TestIo, tick: Tick) {
        let writes = self.step(io.read_bool(IN), io.read_bool(RESET), tick);
        io.drive(&writes);
    }
}

fn table_of<S: AsRef<str>>(entries: &[(S, Value)]) -> Parameters {
    let mut table = Parameters::new();
    for (name, value) in entries {
        table.insert(name.as_ref(), *value);
    }
    table
}

const IN: PointId = PointId(120);
const RESET: PointId = PointId(121);
const COUNT: PointId = PointId(122);
const DONE: PointId = PointId(123);

/// A counter asserting `done` at the third edge.
fn component() -> Counter {
    Counter::new("ctr", IN, RESET, COUNT, DONE, 3).unwrap()
}

fn io() -> TestIo {
    TestIo::new(&[
        (
            IN,
            Direction::In,
            Sample::good(Value::Bool(false), Tick(0)),
        ),
        (
            RESET,
            Direction::In,
            Sample::good(Value::Bool(false), Tick(0)),
        ),
        (
            COUNT,
            Direction::Out,
            Sample::good(Value::Int(0), Tick(0)),
        ),
        (
            DONE,
            Direction::Out,
            Sample::good(Value::Bool(false), Tick(0)),
        ),
    ])
}

/// Feeds `in`/`reset` and steps once.
fn step(block: &mut Counter, io: &TestIo, input: bool, reset: bool, tick: u64) {
    io.feed(IN, Sample::good(Value::Bool(input), Tick(tick)));
    io.feed(RESET, Sample::good(Value::Bool(reset), Tick(tick)));
    block.scan(io, Tick(tick));
}

fn count(io: &TestIo) -> i64 {
    match io.written(COUNT).unwrap().value {
        Value::Int(count) => count,
        other => panic!("count must be Int, found {other:?}"),
    }
}

fn done(io: &TestIo) -> bool {
    io.written(DONE).unwrap().value == Value::Bool(true)
}

#[test]
fn counts_rising_edges_and_asserts_at_the_preset() {
    let mut block = component();
    let io = io();

    // First scan reading true is an edge.
    step(&mut block, &io, true, false, 1);
    assert_eq!(count(&io), 1);
    assert!(!done(&io));

    // A held level counts once.
    step(&mut block, &io, true, false, 2);
    assert_eq!(count(&io), 1);

    // Each further rising edge adds one; the third asserts `done`.
    step(&mut block, &io, false, false, 3);
    step(&mut block, &io, true, false, 4);
    assert_eq!(count(&io), 2);
    assert!(!done(&io));
    step(&mut block, &io, false, false, 5);
    step(&mut block, &io, true, false, 6);
    assert_eq!(count(&io), 3);
    assert!(done(&io));

    // Counting continues past the preset; `done` stays asserted.
    step(&mut block, &io, false, false, 7);
    step(&mut block, &io, true, false, 8);
    assert_eq!(count(&io), 4);
    assert!(done(&io));
}

#[test]
fn reset_clears_the_count_and_dominates_edges() {
    let mut block = component();
    let io = io();

    step(&mut block, &io, true, false, 1);
    step(&mut block, &io, false, false, 2);
    step(&mut block, &io, true, false, 3);
    assert_eq!(count(&io), 2);

    // Reset on a rising edge: the edge is not counted.
    step(&mut block, &io, false, false, 4);
    step(&mut block, &io, true, true, 5);
    assert_eq!(count(&io), 0);
    assert!(!done(&io));

    // The level held high through the reset is not an edge on
    // release; the next genuine rising edge counts.
    step(&mut block, &io, true, false, 6);
    assert_eq!(count(&io), 0);
    step(&mut block, &io, false, false, 7);
    step(&mut block, &io, true, false, 8);
    assert_eq!(count(&io), 1);
}

#[test]
fn zero_preset_asserts_done_unconditionally() {
    let mut block = Counter::new("ctr", IN, RESET, COUNT, DONE, 0).unwrap();
    let io = io();
    step(&mut block, &io, false, false, 1);
    assert_eq!(count(&io), 0);
    assert!(done(&io));
}

#[test]
fn outputs_carry_worst_of_input_qualities() {
    let mut block = component();
    let io = io();
    io.feed(
        IN,
        Sample::new(
            Value::Bool(true),
            Quality::Uncertain(QualityReason::Stale),
            Tick(1),
        ),
    );
    io.feed(
        RESET,
        Sample::new(
            Value::Bool(false),
            Quality::Bad(QualityReason::CommunicationFault),
            Tick(1),
        ),
    );
    block.scan(&io, Tick(1));
    // Reset's value was false, so the edge counted — but both
    // outputs carry the merged Bad quality.
    assert_eq!(count(&io), 1);
    assert_eq!(
        io.written(COUNT).unwrap().quality,
        Quality::Bad(QualityReason::CommunicationFault)
    );
    assert_eq!(
        io.written(DONE).unwrap().quality,
        Quality::Bad(QualityReason::CommunicationFault)
    );
}

#[test]
fn restored_counter_continues_mid_count() {
    let mut block = component();
    let io = io();

    // Two edges banked, `in` currently high — checkpoint.
    step(&mut block, &io, true, false, 1);
    step(&mut block, &io, false, false, 2);
    step(&mut block, &io, true, false, 3);
    let state = block.capture_state();
    assert_eq!(state.get("count"), Some(Value::Int(2)));
    assert_eq!(state.get("previous"), Some(Value::Bool(true)));

    // The standby continues identically: the held-high input is no
    // new edge, and the next rising edge completes the preset.
    let mut standby = component();
    standby.restore_state(&state).unwrap();
    assert_eq!(standby.capture_state(), state);
    step(&mut standby, &io, true, false, 4);
    assert_eq!(count(&io), 2);
    step(&mut standby, &io, false, false, 5);
    step(&mut standby, &io, true, false, 6);
    assert_eq!(count(&io), 3);
    assert!(done(&io));
}

#[test]
fn counter_incompatible_state_is_a_named_error() {
    let mut block = component();
    let mut state = StateMap::new();
    state.insert("count", Value::Int(-1));
    state.insert("previous", Value::Bool(false));
    state.insert("preset", Value::Int(3));
    assert!(matches!(
        block.restore_state(&state),
        Err(StateError::InvalidValue { ref field, .. }) if field == "count"
    ));
    let mut state = StateMap::new();
    state.insert("count", Value::Int(1));
    state.insert("preset", Value::Int(3));
    assert!(matches!(
        block.restore_state(&state),
        Err(StateError::MissingField { ref field, .. }) if field == "previous"
    ));
}

#[test]
fn counter_builds_from_parameter_map() {
    let parameters = table_of(&[("preset".to_string(), Value::Int(3))]);
    let mut block =
        Counter::from_parameters("ctr", IN, RESET, COUNT, DONE, &parameters).unwrap();
    assert_eq!(block.capture_state().get("preset"), Some(Value::Int(3)));
    let io = io();
    step(&mut block, &io, true, false, 1);
    assert_eq!(count(&io), 1);

    assert!(matches!(
        Counter::from_parameters("ctr", IN, RESET, COUNT, DONE, &Parameters::new())
            .unwrap_err(),
        ParameterError::Missing { ref parameter, .. } if parameter == "preset"
    ));
    let negative = table_of(&[("preset".to_string(), Value::Int(-2))]);
    assert!(matches!(
        Counter::from_parameters("ctr", IN, RESET, COUNT, DONE, &negative).unwrap_err(),
        ParameterError::Invalid { ref parameter, .. } if parameter == "preset"
    ));
    assert!(matches!(
        Counter::new("ctr", IN, RESET, COUNT, DONE, i64::MAX as u64 + 1),
        Err(ParameterError::Invalid { ref parameter, .. }) if parameter == "preset"
    ));
}

#[test]
fn counter_describes_itself() {
    let descriptor = component().describe();
    assert_eq!(descriptor.name, "ctr");
    assert_eq!(descriptor.kind, Counter::KIND);
    assert_eq!(descriptor.label, "ctr");
    assert_eq!(
        descriptor.ports,
        [
            PortDescriptor {
                name: "in".to_string(),
                direction: Direction::In,
                kind: ValueKind::Bool,
                role: Some(PortRole::ProcessValue),
                point: None,
            },
            PortDescriptor {
                name: "reset".to_string(),
                direction: Direction::In,
                kind: ValueKind::Bool,
                role: Some(PortRole::Status),
                point: None,
            },
            PortDescriptor {
                name: "count".to_string(),
                direction: Direction::Out,
                kind: ValueKind::Int,
                role: Some(PortRole::Output),
                point: None,
            },
            PortDescriptor {
                name: "done".to_string(),
                direction: Direction::Out,
                kind: ValueKind::Bool,
                role: Some(PortRole::Status),
                point: None,
            },
        ]
    );
    // Drift guard: the descriptor's parameter names are exactly the
    // keys `from_parameters` reads.
    assert_eq!(
        descriptor.parameters,
        [ParameterDescriptor {
            name: "preset".to_string(),
            kind: ValueKind::Int,
            range: Some(describe::nonnegative_int()),
        }]
    );
}
