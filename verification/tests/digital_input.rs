use dcs_blocks::{
    DigitalInput, Direction, ParameterError, Parameters, PointId, Quality, QualityReason, Reading,
    Sample, Tick, Value, Write,
};
use std::cell::RefCell;
use std::collections::BTreeMap;

/// A point image: what the inputs read and what was last driven.
struct TestIo {
    samples: RefCell<BTreeMap<u64, Sample>>,
    written: RefCell<BTreeMap<u64, Sample>>,
}

impl TestIo {
    fn new(points: &[(PointId, Direction, Sample)]) -> TestIo {
        let mut samples = BTreeMap::new();
        for (point, _, sample) in points {
            samples.insert(point.0, *sample);
        }
        TestIo { samples: RefCell::new(samples), written: RefCell::new(BTreeMap::new()) }
    }

    fn feed(&self, point: PointId, sample: Sample) {
        self.samples.borrow_mut().insert(point.0, sample);
    }

    fn written(&self, point: PointId) -> Option<Sample> {
        self.written.borrow().get(&point.0).copied()
    }

    fn drive(&self, writes: &[Write]) {
        for write in writes {
            self.written.borrow_mut().insert(write.point.0, write.sample);
        }
    }

    fn read_bool(&self, point: PointId) -> Reading<bool> {
        let sample = self.samples.borrow()[&point.0];
        match sample.value {
            Value::Bool(value) => Reading { value, quality: sample.quality },
            other => panic!("{point:?} holds {other:?}"),
        }
    }
}

/// Reads a block's inputs, runs one scan and drives what it writes.
trait Scan {
    fn scan(&mut self, io: &TestIo, tick: Tick);
}

impl Scan for DigitalInput {
    fn scan(&mut self, io: &TestIo, tick: Tick) {
        let write = self.step(io.read_bool(IN), tick);
        io.drive(&[write]);
    }
}

fn table_of<S: AsRef<str>>(entries: &[(S, Value)]) -> Parameters {
    let mut table = Parameters::new();
    for (name, value) in entries {
        table.insert(name.as_ref(), *value);
    }
    table
}

const IN: PointId = PointId(40);
const OUT: PointId = PointId(41);

fn io(field: Sample) -> TestIo {
    TestIo::new(&[
        (IN, Direction::In, field),
        (
            OUT,
            Direction::Out,
            Sample::good(Value::Bool(false), Tick(0)),
        ),
    ])
}

fn feed(io: &TestIo, value: bool, tick: u64) {
    io.feed(IN, Sample::good(Value::Bool(value), Tick(tick)));
}

#[test]
fn passes_field_value_and_quality_through() {
    let mut block = DigitalInput::new("di", IN, OUT);
    let io = io(Sample::good(Value::Bool(true), Tick(0)));
    block.scan(&io, Tick(1));
    let out = io.written(OUT).unwrap();
    assert_eq!(out.value, Value::Bool(true));
    assert_eq!(out.quality, Quality::Good);
    assert_eq!(out.tick, Tick(1));

    io.feed(
        IN,
        Sample::new(
            Value::Bool(false),
            Quality::Bad(QualityReason::CommunicationFault),
            Tick(2),
        ),
    );
    block.scan(&io, Tick(2));
    let out = io.written(OUT).unwrap();
    assert_eq!(out.value, Value::Bool(false));
    assert_eq!(out.quality, Quality::Bad(QualityReason::CommunicationFault));
}

#[test]
fn invert_negates_the_field_value() {
    let mut block = DigitalInput::new("di", IN, OUT).with_invert(true);
    let io = io(Sample::good(Value::Bool(false), Tick(0)));
    block.scan(&io, Tick(1));
    assert_eq!(io.written(OUT).unwrap().value, Value::Bool(true));
}

#[test]
fn debounce_adopts_only_sustained_changes() {
    // The conditioned value must hold for 3 consecutive scans before
    // `out` follows.
    let mut block = DigitalInput::new("di", IN, OUT).with_debounce_ticks(3);
    let io = io(Sample::good(Value::Bool(false), Tick(0)));

    // First scan initializes the output without a debounce delay.
    block.scan(&io, Tick(1));
    assert_eq!(io.written(OUT).unwrap().value, Value::Bool(false));

    // Ticks 2-3: the change to true is pending but not yet adopted.
    for tick in 2..=3 {
        feed(&io, true, tick);
        block.scan(&io, Tick(tick));
        assert_eq!(
            io.written(OUT).unwrap().value,
            Value::Bool(false),
            "tick={tick}"
        );
    }
    // Tick 4: the third consecutive true scan adopts the change.
    feed(&io, true, 4);
    block.scan(&io, Tick(4));
    assert_eq!(io.written(OUT).unwrap().value, Value::Bool(true));

    // A two-scan low pulse is swallowed: the output stays true.
    for tick in 5..=6 {
        feed(&io, false, tick);
        block.scan(&io, Tick(tick));
        assert_eq!(
            io.written(OUT).unwrap().value,
            Value::Bool(true),
            "tick={tick}"
        );
    }
    // The pending change resets when the input returns: a later
    // change must again sustain for the full count.
    feed(&io, true, 7);
    block.scan(&io, Tick(7));
    for tick in 8..=9 {
        feed(&io, false, tick);
        block.scan(&io, Tick(tick));
        assert_eq!(
            io.written(OUT).unwrap().value,
            Value::Bool(true),
            "tick={tick}"
        );
    }
    feed(&io, false, 10);
    block.scan(&io, Tick(10));
    assert_eq!(io.written(OUT).unwrap().value, Value::Bool(false));
}

#[test]
fn held_output_carries_current_input_quality() {
    let mut block = DigitalInput::new("di", IN, OUT).with_debounce_ticks(3);
    let io = io(Sample::good(Value::Bool(false), Tick(0)));
    block.scan(&io, Tick(1));

    // A pending change with degraded quality keeps the old value but
    // marks the output with the input's quality.
    io.feed(
        IN,
        Sample::new(
            Value::Bool(true),
            Quality::Uncertain(QualityReason::Stale),
            Tick(2),
        ),
    );
    block.scan(&io, Tick(2));
    let out = io.written(OUT).unwrap();
    assert_eq!(out.value, Value::Bool(false));
    assert_eq!(out.quality, Quality::Uncertain(QualityReason::Stale));
}

#[test]
fn digital_input_builds_from_parameter_map() {
    let parameters = table_of(&[
        ("invert".to_string(), Value::Bool(true)),
        ("debounce_ticks".to_string(), Value::Int(2)),
    ]);
    let mut block = DigitalInput::from_parameters("di", IN, OUT, &parameters).unwrap();
    assert!(block.invert());
    assert_eq!(block.debounce_ticks(), 2);

    // inverted input true -> conditioned false, held for tick 1;
    // adopted on the second consecutive scan.
    let io = io(Sample::good(Value::Bool(true), Tick(0)));
    block.scan(&io, Tick(1));
    assert_eq!(io.written(OUT).unwrap().value, Value::Bool(false));
    feed(&io, false, 2);
    block.scan(&io, Tick(2));
    assert_eq!(io.written(OUT).unwrap().value, Value::Bool(false));
    block.scan(&io, Tick(3));
    assert_eq!(io.written(OUT).unwrap().value, Value::Bool(true));

    // Both parameters are optional; an empty map builds the plain
    // pass-through block.
    let block = DigitalInput::from_parameters("di", IN, OUT, &Parameters::new()).unwrap();
    assert!(!block.invert());
    assert_eq!(block.debounce_ticks(), 0);

    let wrong = table_of(&[("debounce_ticks".to_string(), Value::Int(-1))]);
    assert!(matches!(
        DigitalInput::from_parameters("di", IN, OUT, &wrong).unwrap_err(),
        ParameterError::Invalid { ref parameter, .. } if parameter == "debounce_ticks"
    ));
}
