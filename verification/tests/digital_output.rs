use dcs_blocks::{
    DigitalOutput, Direction, Float, ParameterError, Parameters, PointId, Quality, QualityReason,
    Reading, Sample, Tick, Value, Write,
};
use std::cell::RefCell;
use std::collections::BTreeMap;

/// A point image: what the inputs read and what was last driven.
struct TestIo {
    samples: RefCell<BTreeMap<u64, Sample>>,
    written: RefCell<BTreeMap<u64, Sample>>,
}

impl TestIo {
    fn new(points: &[(PointId, Direction, Sample)]) -> TestIo {
        let mut samples = BTreeMap::new();
        for (point, _, sample) in points {
            samples.insert(point.0, *sample);
        }
        TestIo { samples: RefCell::new(samples), written: RefCell::new(BTreeMap::new()) }
    }

    fn feed(&self, point: PointId, sample: Sample) {
        self.samples.borrow_mut().insert(point.0, sample);
    }

    fn written(&self, point: PointId) -> Option<Sample> {
        self.written.borrow().get(&point.0).copied()
    }

    fn drive(&self, writes: &[Write]) {
        for write in writes {
            self.written.borrow_mut().insert(write.point.0, write.sample);
        }
    }

    fn read_bool(&self, point: PointId) -> Reading<bool> {
        let sample = self.samples.borrow()[&point.0];
        match sample.value {
            Value::Bool(value) => Reading { value, quality: sample.quality },
            other => panic!("{point:?} holds {other:?}"),
        }
    }
}

/// Reads a block's inputs, runs one scan and drives what it writes.
trait Scan {
    fn scan(&mut self, io: &TestIo, tick: Tick);
}

impl Scan for DigitalOutput {
    fn scan(&mut self, io: &TestIo, tick: Tick) {
        let write = self.step(io.read_bool(IN), tick);
        io.drive(&[write]);
    }
}

fn num(value: f64) -> Float {
    Float::from_bits(value.to_bits())
}

fn float(value: f64) -> Value {
    Value::Float(num(value))
}

fn table_of<S: AsRef<str>>(entries: &[(S, Value)]) -> Parameters {
    let mut table = Parameters::new();
    for (name, value) in entries {
        table.insert(name.as_ref(), *value);
    }
    table
}

const IN: PointId = PointId(30);
const OUT: PointId = PointId(31);

fn io(command: Sample) -> TestIo {
    TestIo::new(&[
        (IN, Direction::In, command),
        (
            OUT,
            Direction::Out,
            Sample::good(Value::Bool(false), Tick(0)),
        ),
    ])
}

#[test]
fn writes_command_and_propagates_quality() {
    let mut block = DigitalOutput::new("do", IN, OUT);
    let io = io(Sample::good(Value::Bool(true), Tick(0)));
    block.scan(&io, Tick(1));
    let out = io.written(OUT).unwrap();
    assert_eq!(out.value, Value::Bool(true));
    assert_eq!(out.quality, Quality::Good);
    assert_eq!(out.tick, Tick(1));

    io.feed(
        IN,
        Sample::new(
            Value::Bool(false),
            Quality::Uncertain(QualityReason::Substituted),
            Tick(2),
        ),
    );
    block.scan(&io, Tick(2));
    let out = io.written(OUT).unwrap();
    assert_eq!(out.value, Value::Bool(false));
    assert_eq!(out.quality, Quality::Uncertain(QualityReason::Substituted));
}

#[test]
fn invert_negates_the_command() {
    let mut block = DigitalOutput::new("do", IN, OUT).with_invert(true);
    let io = io(Sample::good(Value::Bool(false), Tick(0)));
    block.scan(&io, Tick(1));
    assert_eq!(io.written(OUT).unwrap().value, Value::Bool(true));
}

#[test]
fn digital_output_builds_from_parameter_map() {
    let parameters = table_of(&[("invert".to_string(), Value::Bool(true))]);
    let mut block =
        DigitalOutput::from_parameters("do", IN, OUT, &parameters).unwrap();
    assert!(block.invert());
    let io = io(Sample::good(Value::Bool(true), Tick(0)));
    block.scan(&io, Tick(1));
    assert_eq!(io.written(OUT).unwrap().value, Value::Bool(false));

    // The parameter is optional; an empty map builds the plain block.
    let block = DigitalOutput::from_parameters("do", IN, OUT, &Parameters::new()).unwrap();
    assert!(!block.invert());

    let wrong = table_of(&[("invert".to_string(), float(0.5))]);
    assert!(matches!(
        DigitalOutput::from_parameters("do", IN, OUT, &wrong).unwrap_err(),
        ParameterError::Invalid { ref parameter, .. } if parameter == "invert"
    ));
}
