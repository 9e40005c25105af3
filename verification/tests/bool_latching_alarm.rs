use dcs_blocks::{
    BoolLatchingAlarm, Direction, Parameters, PointId, PortDescriptor, PortRole, Quality,
    QualityReason, Reading, Sample, StateError, StateMap, Tick, Value, ValueKind, Write,
};
use std::cell::RefCell;
use std::collections::BTreeMap;

/// A point image: what the inputs read and what was last driven.
struct TestIo {
    samples: RefCell<BTreeMap<u64, Sample>>,
    written: RefCell<BTreeMap<u64, Sample>>,
}

impl TestIo {
    fn new(points: &[(PointId, Direction, Sample)]) -> TestIo {
        let mut samples = BTreeMap::new();
        for (point, _, sample) in points {
            samples.insert(point.0, *sample);
        }
        TestIo { samples: RefCell::new(samples), written: RefCell::new(BTreeMap::new()) }
    }

    fn feed(&self, point: PointId, sample: Sample) {
        self.samples.borrow_mut().insert(point.0, sample);
    }

    fn written(&self, point: PointId) -> Option<Sample> {
        self.written.borrow().get(&point.0).copied()
    }

    fn drive(&self, writes: &[Write]) {
        for write in writes {
            self.written.borrow_mut().insert(write.point.0, write.sample);
        }
    }

    fn read_bool(&self, point: PointId) -> Reading<bool> {
        let sample = self.samples.borrow()[&point.0];
        match sample.value {
            Value::Bool(value) => Reading { value, quality: sample.quality },
            other => panic!("{point:?} holds {other:?}"),
        }
    }
}

/// Reads a block's inputs, runs one scan and drives what it writes.
trait Scan {
    fn scan(&mut self, io: &TestIo, tick: Tick);
}

impl Scan for BoolLatchingAlarm {
    fn scan(&mut self, io: &TestIo, tick: Tick) {
        let writes = self.step(io.read_bool(IN), io.read_bool(ACK), tick);
        io.drive(&writes);
    }
}

const IN: PointId = PointId(150);
const ACK: PointId = PointId(151);
const ALARM: PointId = PointId(152);
const UNACK: PointId = PointId(153);

fn component() -> BoolLatchingAlarm {
    BoolLatchingAlarm::new("bal", IN, ACK, ALARM, UNACK)
}

fn io() -> TestIo {
    TestIo::new(&[
        (
            IN,
            Direction::In,
            Sample::good(Value::Bool(false), Tick(0)),
        ),
        (
            ACK,
            Direction::In,
            Sample::good(Value::Bool(false), Tick(0)),
        ),
        (
            ALARM,
            Direction::Out,
            Sample::good(Value::Bool(false), Tick(0)),
        ),
        (
            UNACK,
            Direction::Out,
            Sample::good(Value::Bool(false), Tick(0)),
        ),
    ])
}

/// Feeds `in`/`ack` and steps once.
fn step(block: &mut BoolLatchingAlarm, io: &TestIo, input: bool, ack: bool, tick: u64) {
    io.feed(IN, Sample::good(Value::Bool(input), Tick(tick)));
    io.feed(ACK, Sample::good(Value::Bool(ack), Tick(tick)));
    block.scan(io, Tick(tick));
}

fn alarmed(io: &TestIo) -> bool {
    io.written(ALARM).unwrap().value == Value::Bool(true)
}

fn unacknowledged(io: &TestIo) -> bool {
    io.written(UNACK).unwrap().value == Value::Bool(true)
}

#[test]
fn assertion_asserts_alarm_and_latches_unacknowledged() {
    let mut block = component();
    let io = io();

    // Condition clear: neither output asserted.
    step(&mut block, &io, false, false, 1);
    assert!(!alarmed(&io));
    assert!(!unacknowledged(&io));

    // A fresh assertion trips both outputs.
    step(&mut block, &io, true, false, 2);
    assert!(alarmed(&io));
    assert!(unacknowledged(&io));

    // The standing alarm follows `in` while it holds — a held level
    // is not a fresh assertion, so the latch does not re-arm once
    // cleared on a held `ack`.
    step(&mut block, &io, true, false, 3);
    assert!(alarmed(&io));
    assert!(unacknowledged(&io));
}

#[test]
fn latch_holds_after_the_alarm_clears() {
    let mut block = component();
    let io = io();

    step(&mut block, &io, true, false, 1);
    assert!(alarmed(&io));
    assert!(unacknowledged(&io));

    // The condition clears: `alarm` follows `in` down — no
    // hysteresis — but the latch stands until the operator
    // acknowledges.
    step(&mut block, &io, false, false, 2);
    assert!(!alarmed(&io));
    assert!(unacknowledged(&io));
}

#[test]
fn ack_clears_the_latch_while_the_alarm_still_stands() {
    let mut block = component();
    let io = io();

    step(&mut block, &io, true, false, 1);
    assert!(alarmed(&io));
    assert!(unacknowledged(&io));

    // Acknowledged mid-alarm: the latch clears while the standing
    // indication still reports asserted.
    step(&mut block, &io, true, true, 2);
    assert!(alarmed(&io));
    assert!(!unacknowledged(&io));

    // Releasing ack re-arms nothing — the standing alarm stays
    // acknowledged until `in` asserts afresh.
    step(&mut block, &io, true, false, 3);
    assert!(alarmed(&io));
    assert!(!unacknowledged(&io));

    // Deasserting clears the alarm with nothing left latched.
    step(&mut block, &io, false, false, 4);
    assert!(!alarmed(&io));
    assert!(!unacknowledged(&io));

    // A fresh assertion after acknowledgment latches again.
    step(&mut block, &io, true, false, 5);
    assert!(alarmed(&io));
    assert!(unacknowledged(&io));
}

#[test]
fn ack_clears_the_latch_after_the_alarm_cleared() {
    let mut block = component();
    let io = io();

    // Trip and let the condition clear on its own: the latch
    // stands.
    step(&mut block, &io, true, false, 1);
    step(&mut block, &io, false, false, 2);
    assert!(!alarmed(&io));
    assert!(unacknowledged(&io));

    // The ack still clears the latch — a fleeting alarm stays
    // visible until the operator sees it.
    step(&mut block, &io, false, true, 3);
    assert!(!alarmed(&io));
    assert!(!unacknowledged(&io));
}

#[test]
fn held_ack_dominates_a_simultaneous_trip() {
    let mut block = component();
    let io = io();

    // Documented rule: a scan whose `ack` reads true does not
    // latch, a trip arriving that scan included — a permanently
    // asserted ack suppresses the flag while `alarm` still reports
    // the condition.
    step(&mut block, &io, true, true, 1);
    assert!(alarmed(&io));
    assert!(!unacknowledged(&io));

    // Releasing ack while the condition stands re-latches nothing —
    // the assertion was never fresh under the held ack.
    step(&mut block, &io, true, false, 2);
    assert!(alarmed(&io));
    assert!(!unacknowledged(&io));

    // A fresh assertion — the condition clearing and returning —
    // latches once ack no longer stands.
    step(&mut block, &io, false, false, 3);
    step(&mut block, &io, true, false, 4);
    assert!(alarmed(&io));
    assert!(unacknowledged(&io));
}

#[test]
fn bad_quality_on_either_input_marks_both_outputs() {
    let mut block = component();
    let io = io();

    // A Bad `in` still asserts — the indication is degraded, not
    // hidden — and both outputs carry the input's quality.
    io.feed(
        IN,
        Sample::new(
            Value::Bool(true),
            Quality::Bad(QualityReason::CommunicationFault),
            Tick(1),
        ),
    );
    block.scan(&io, Tick(1));
    assert!(alarmed(&io));
    assert!(unacknowledged(&io));
    for point in [ALARM, UNACK] {
        assert_eq!(
            io.written(point).unwrap().quality,
            Quality::Bad(QualityReason::CommunicationFault)
        );
    }

    // A Bad `ack` is worst-of merged: its value still clears the
    // latch, and both outputs are marked.
    io.feed(
        ACK,
        Sample::new(
            Value::Bool(true),
            Quality::Bad(QualityReason::DeviceFault),
            Tick(2),
        ),
    );
    block.scan(&io, Tick(2));
    assert!(alarmed(&io));
    assert!(!unacknowledged(&io));
    for point in [ALARM, UNACK] {
        assert_eq!(
            io.written(point).unwrap().quality,
            Quality::Bad(QualityReason::DeviceFault)
        );
    }

    // An Uncertain `ack` degrades without hiding Good elsewhere.
    io.feed(IN, Sample::good(Value::Bool(true), Tick(3)));
    io.feed(
        ACK,
        Sample::new(
            Value::Bool(false),
            Quality::Uncertain(QualityReason::Stale),
            Tick(3),
        ),
    );
    block.scan(&io, Tick(3));
    assert_eq!(
        io.written(UNACK).unwrap().quality,
        Quality::Uncertain(QualityReason::Stale)
    );
}

#[test]
fn capture_restore_mid_latch_continues_identically() {
    let mut block = component();
    let active_io = io();

    // Asserted and still unacknowledged — checkpoint mid-latch.
    step(&mut block, &active_io, true, false, 1);
    let state = block.capture_state();
    assert_eq!(state.get("state"), Some(Value::Bool(true)));
    assert_eq!(state.get("unacknowledged"), Some(Value::Bool(true)));

    // The standby inherits the latch and the tracked level: the
    // still-asserted input is not a fresh edge, so the same input
    // sequence produces the same outputs.
    let mut standby = component();
    standby.restore_state(&state).unwrap();
    assert_eq!(standby.capture_state(), state);
    let standby_io = io();
    step(&mut standby, &standby_io, true, false, 2);
    assert!(alarmed(&standby_io));
    assert!(unacknowledged(&standby_io));
    step(&mut standby, &standby_io, true, true, 3);
    assert!(alarmed(&standby_io));
    assert!(!unacknowledged(&standby_io));
}

#[test]
fn restored_standing_alarm_does_not_re_latch() {
    let mut block = component();
    let active_io = io();

    // Trip, acknowledge while the condition still stands, then
    // checkpoint: the standing alarm is alarmed-but-acknowledged.
    step(&mut block, &active_io, true, false, 1);
    step(&mut block, &active_io, true, true, 2);
    let state = block.capture_state();
    assert_eq!(state.get("state"), Some(Value::Bool(true)));
    assert_eq!(state.get("unacknowledged"), Some(Value::Bool(false)));

    // A standby restoring mid-assertion must not read the held
    // level as a fresh edge — the acknowledged alarm stays
    // acknowledged across the switchover.
    let mut standby = component();
    standby.restore_state(&state).unwrap();
    let standby_io = io();
    step(&mut standby, &standby_io, true, false, 3);
    assert!(alarmed(&standby_io));
    assert!(!unacknowledged(&standby_io));
}

#[test]
fn bool_latching_alarm_incompatible_state_is_a_named_error() {
    let mut block = component();

    // A missing field is named.
    assert!(matches!(
        block.restore_state(&StateMap::new()),
        Err(StateError::MissingField { ref field, .. }) if field == "state"
    ));

    // A wrong-typed field is named.
    let mut state = StateMap::new();
    state.insert("state", Value::Int(1));
    state.insert("unacknowledged", Value::Bool(true));
    assert!(matches!(
        block.restore_state(&state),
        Err(StateError::IncompatibleField { ref field, .. }) if field == "state"
    ));

    // A field the kind never captured is rejected, not ignored.
    let mut state = block.capture_state();
    state.insert("trip_count", Value::Int(3));
    assert!(matches!(
        block.restore_state(&state),
        Err(StateError::UnknownField { ref field, .. }) if field == "trip_count"
    ));
}

#[test]
fn bool_latching_alarm_builds_from_parameter_map() {
    // The kind declares no parameters: the empty map builds, and a
    // stray key is unread here — undeclared keys are
    // refused when a plant is composed.
    let block =
        BoolLatchingAlarm::from_parameters("bal", IN, ACK, ALARM, UNACK, &Parameters::new())
            .unwrap();
    assert_eq!(block.capture_state().get("state"), Some(Value::Bool(false)));
    assert_eq!(block.capture_state().get("unacknowledged"), Some(Value::Bool(false)));
}

#[test]
fn bool_latching_alarm_describes_itself() {
    let descriptor = component().describe();
    assert_eq!(descriptor.name, "bal");
    assert_eq!(descriptor.kind, BoolLatchingAlarm::KIND);
    assert_eq!(descriptor.label, "bal");
    // `in` is role-hinted ProcessValue and the rest Status.
    assert_eq!(
        descriptor.ports,
        [
            PortDescriptor {
                name: "in".to_string(),
                direction: Direction::In,
                kind: ValueKind::Bool,
                role: Some(PortRole::ProcessValue),
                point: None,
            },
            PortDescriptor {
                name: "ack".to_string(),
                direction: Direction::In,
                kind: ValueKind::Bool,
                role: Some(PortRole::Status),
                point: None,
            },
            PortDescriptor {
                name: "alarm".to_string(),
                direction: Direction::Out,
                kind: ValueKind::Bool,
                role: Some(PortRole::Status),
                point: None,
            },
            PortDescriptor {
                name: "unacknowledged".to_string(),
                direction: Direction::Out,
                kind: ValueKind::Bool,
                role: Some(PortRole::Status),
                point: None,
            },
        ]
    );
    // Drift guard: the kind declares no parameters and
    // `from_parameters` reads none.
    assert!(descriptor.parameters.is_empty());
}

#[test]
fn bool_latching_alarm_identical_inputs_produce_identical_outputs() {
    let run = || {
        let mut block = component();
        let io = io();
        let mut trace = Vec::new();
        for (tick, (input, ack)) in [
            (false, false),
            (true, false),
            (false, false),
            (false, true),
            (true, false),
        ]
        .into_iter()
        .enumerate()
        {
            step(&mut block, &io, input, ack, tick as u64 + 1);
            trace.push((io.written(ALARM).unwrap(), io.written(UNACK).unwrap()));
        }
        trace
    };
    assert_eq!(run(), run());
}
