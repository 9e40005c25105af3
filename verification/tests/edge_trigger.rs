use dcs_blocks::{
    CommandError, Direction, Edge, EdgeTrigger, Float, ParameterDescriptor, ParameterError,
    Parameters, PointId, PortDescriptor, PortRole, Quality, QualityReason, Reading, Sample,
    StateError, StateMap, Tick, Value, ValueKind, Write, describe,
};
use std::cell::RefCell;
use std::collections::BTreeMap;

/// A point image: what the inputs read and what was last driven.
struct TestIo {
    samples: RefCell<BTreeMap<u64, Sample>>,
    written: RefCell<BTreeMap<u64, Sample>>,
}

impl TestIo {
    fn new(points: &[(PointId, Direction, Sample)]) -> TestIo {
        let mut samples = BTreeMap::new();
        for (point, _, sample) in points {
            samples.insert(point.0, *sample);
        }
        TestIo { samples: RefCell::new(samples), written: RefCell::new(BTreeMap::new()) }
    }

    fn feed(&self, point: PointId, sample: Sample) {
        self.samples.borrow_mut().insert(point.0, sample);
    }

    fn written(&self, point: PointId) -> Option<Sample> {
        self.written.borrow().get(&point.0).copied()
    }

    fn drive(&self, writes: &[Write]) {
        for write in writes {
            self.written.borrow_mut().insert(write.point.0, write.sample);
        }
    }

    fn read_bool(&self, point: PointId) -> Reading<bool> {
        let sample = self.samples.borrow()[&point.0];
        match sample.value {
            Value::Bool(value) => Reading { value, quality: sample.quality },
            other => panic!("{point:?} holds {other:?}"),
        }
    }
}

/// Reads a block's inputs, runs one scan and drives what it writes.
trait Scan {
    fn scan(&mut self, io: &TestIo, tick: Tick);
}

impl Scan for EdgeTrigger {
    fn scan(&mut self, io: &TestIo, tick: Tick) {
        let write = self.step(io.read_bool(IN), tick);
        io.drive(&[write]);
    }
}

fn num(value: f64) -> Float {
    Float::from_bits(value.to_bits())
}

fn float(value: f64) -> Value {
    Value::Float(num(value))
}

fn table_of<S: AsRef<str>>(entries: &[(S, Value)]) -> Parameters {
    let mut table = Parameters::new();
    for (name, value) in entries {
        table.insert(name.as_ref(), *value);
    }
    table
}

const IN: PointId = PointId(220);
const OUT: PointId = PointId(221);

/// A rising-edge trigger.
fn component() -> EdgeTrigger {
    EdgeTrigger::new("etr", IN, OUT, Edge::Rising)
}

fn io() -> TestIo {
    TestIo::new(&[
        (
            IN,
            Direction::In,
            Sample::good(Value::Bool(false), Tick(0)),
        ),
        (
            OUT,
            Direction::Out,
            Sample::good(Value::Bool(false), Tick(0)),
        ),
    ])
}

/// Feeds `in` and steps once.
fn step(block: &mut EdgeTrigger, io: &TestIo, value: bool, tick: u64) {
    io.feed(IN, Sample::good(Value::Bool(value), Tick(tick)));
    block.scan(io, Tick(tick));
}

fn out(io: &TestIo) -> Sample {
    io.written(OUT).unwrap()
}

fn pulsed(io: &TestIo) -> bool {
    out(io).value == Value::Bool(true)
}

#[test]
fn rising_edge_pulses_for_exactly_one_scan() {
    let mut block = component();
    let io = io();

    // The rising scan pulses; the held level does not re-pulse.
    step(&mut block, &io, true, 1);
    assert!(pulsed(&io));
    for tick in 2..=3 {
        step(&mut block, &io, true, tick);
        assert!(!pulsed(&io), "tick={tick}");
    }

    // The falling scan is quiet; the next rising edge pulses again.
    step(&mut block, &io, false, 4);
    assert!(!pulsed(&io));
    step(&mut block, &io, true, 5);
    assert!(pulsed(&io));
    step(&mut block, &io, true, 6);
    assert!(!pulsed(&io));
}

#[test]
fn falling_edge_pulses_for_exactly_one_scan() {
    let mut block = EdgeTrigger::new("etr", IN, OUT, Edge::Falling);
    let io = io();

    // Rising scans stay quiet under the falling selection.
    step(&mut block, &io, true, 1);
    assert!(!pulsed(&io));

    // The falling scan pulses; the held-low level does not.
    step(&mut block, &io, false, 2);
    assert!(pulsed(&io));
    step(&mut block, &io, false, 3);
    assert!(!pulsed(&io));
}

#[test]
fn both_edges_pulse_for_exactly_one_scan_each() {
    let mut block = EdgeTrigger::new("etr", IN, OUT, Edge::Both);
    let io = io();

    step(&mut block, &io, true, 1);
    assert!(pulsed(&io));
    step(&mut block, &io, true, 2);
    assert!(!pulsed(&io));
    step(&mut block, &io, false, 3);
    assert!(pulsed(&io));
    step(&mut block, &io, false, 4);
    assert!(!pulsed(&io));
}

#[test]
fn a_first_scan_high_is_a_rising_edge() {
    // The tracked level starts false, so a `true` first read fires
    // the rising selection — Counter's edge convention.
    let mut block = component();
    let high = TestIo::new(&[
        (
            IN,
            Direction::In,
            Sample::good(Value::Bool(true), Tick(0)),
        ),
        (
            OUT,
            Direction::Out,
            Sample::good(Value::Bool(false), Tick(0)),
        ),
    ]);
    block.scan(&high, Tick(1));
    assert!(pulsed(&high));

    // A `false` first read matches no edge under any selection.
    for edge in [Edge::Rising, Edge::Falling, Edge::Both] {
        let mut block = EdgeTrigger::new("etr", IN, OUT, edge);
        let low = io();
        block.scan(&low, Tick(1));
        assert!(!pulsed(&low), "{edge:?}");
    }
}

#[test]
fn a_degraded_edge_still_pulses_marked_with_its_quality() {
    let mut block = component();
    let io = io();

    // The edge is a function of the values observed: a Bad read's
    // transition pulses for its one scan, carrying the Bad quality.
    io.feed(
        IN,
        Sample::new(
            Value::Bool(true),
            Quality::Bad(QualityReason::DeviceFault),
            Tick(1),
        ),
    );
    block.scan(&io, Tick(1));
    assert_eq!(
        out(&io),
        Sample::new(
            Value::Bool(true),
            Quality::Bad(QualityReason::DeviceFault),
            Tick(1)
        )
    );

    // The degraded level was still tracked: a return to Good at the
    // same level is no new edge.
    io.feed(IN, Sample::good(Value::Bool(true), Tick(2)));
    block.scan(&io, Tick(2));
    assert_eq!(out(&io), Sample::good(Value::Bool(false), Tick(2)));
}

#[test]
fn restored_trigger_continues_without_re_pulsing() {
    let mut block = component();
    let io = io();

    // `in` held high after its edge — checkpoint mid-level.
    step(&mut block, &io, true, 1);
    step(&mut block, &io, true, 2);
    let state = block.capture_state();
    assert_eq!(state.get("previous"), Some(Value::Bool(true)));

    // The standby's first scan sees the held level, not a fresh
    // edge: no re-pulse; the next falling→rising pair pulses once
    // more, identically to the uninterrupted run.
    let mut standby = component();
    standby.restore_state(&state).unwrap();
    assert_eq!(standby.capture_state(), state);
    step(&mut standby, &io, true, 3);
    assert!(!pulsed(&io));
    step(&mut standby, &io, false, 4);
    assert!(!pulsed(&io));
    step(&mut standby, &io, true, 5);
    assert!(pulsed(&io));
}

#[test]
fn edge_trigger_tuning_and_restore_reject_undeclared_or_unknown_codes() {
    let mut block = component();
    block
        .apply_parameter("edge", Value::Int(Edge::Both.code()))
        .unwrap();
    let state = block.capture_state();
    assert_eq!(state.get("edge"), Some(Value::Int(Edge::Both.code())));

    assert!(matches!(
        block.apply_parameter("edge", Value::Int(9)),
        Err(CommandError::InvalidParameter { ref parameter, .. }) if parameter == "edge"
    ));
    assert!(matches!(
        block.apply_parameter("edge", Value::Bool(true)),
        Err(CommandError::ParameterTypeMismatch { ref parameter, .. }) if parameter == "edge"
    ));
    assert!(matches!(
        block.apply_parameter("nope", Value::Int(0)),
        Err(CommandError::UnknownParameter { ref parameter, .. }) if parameter == "nope"
    ));
    // The refused tunes changed nothing: `both` still stands.
    assert_eq!(block.capture_state(), state);

    let mut state = StateMap::new();
    state.insert("edge", Value::Int(9));
    state.insert("previous", Value::Bool(false));
    assert!(matches!(
        block.restore_state(&state),
        Err(StateError::InvalidValue { ref field, .. }) if field == "edge"
    ));
    let mut state = StateMap::new();
    state.insert("edge", Value::Int(0));
    assert!(matches!(
        block.restore_state(&state),
        Err(StateError::MissingField { ref field, .. }) if field == "previous"
    ));
}

#[test]
fn edge_trigger_builds_from_parameter_map() {
    let parameters = table_of(&[("edge".to_string(), Value::Int(2))]);
    let mut block = EdgeTrigger::from_parameters("etr", IN, OUT, &parameters).unwrap();
    assert_eq!(
        block.capture_state().get("edge"),
        Some(Value::Int(Edge::Both.code()))
    );
    let io = io();
    step(&mut block, &io, true, 1);
    assert!(pulsed(&io));
    step(&mut block, &io, false, 2);
    assert!(pulsed(&io));

    // `edge` is required and must carry a declared code.
    assert!(matches!(
        EdgeTrigger::from_parameters("etr", IN, OUT, &Parameters::new()).unwrap_err(),
        ParameterError::Missing { ref parameter, .. } if parameter == "edge"
    ));
    for value in [
        Value::Int(3),
        Value::Int(-1),
        float(0.5),
        Value::Bool(true),
    ] {
        let bad = table_of(&[("edge".to_string(), value)]);
        assert!(
            matches!(
                EdgeTrigger::from_parameters("etr", IN, OUT, &bad).unwrap_err(),
                ParameterError::Invalid { ref parameter, .. } if parameter == "edge"
            ),
            "value={value:?}"
        );
    }
}

#[test]
fn edge_trigger_describes_itself() {
    let descriptor = component().describe();
    assert_eq!(descriptor.name, "etr");
    assert_eq!(descriptor.kind, EdgeTrigger::KIND);
    assert_eq!(descriptor.label, "etr");
    assert_eq!(
        descriptor.ports,
        [
            PortDescriptor {
                name: "in".to_string(),
                direction: Direction::In,
                kind: ValueKind::Bool,
                role: Some(PortRole::ProcessValue),
                point: None,
            },
            PortDescriptor {
                name: "out".to_string(),
                direction: Direction::Out,
                kind: ValueKind::Bool,
                role: Some(PortRole::Output),
                point: None,
            },
        ]
    );
    // Drift guard: the descriptor's parameter names are exactly the
    // keys `from_parameters` reads.
    assert_eq!(
        descriptor.parameters,
        [ParameterDescriptor {
            name: "edge".to_string(),
            kind: ValueKind::Int,
            range: Some(describe::int_range(0, 2)),
        }]
    );
}
