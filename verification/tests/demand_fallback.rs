use dcs_blocks::{
    CommandError, DemandFallback, DemandFallbackConfig, DemandFallbackIo, Direction,
    FallbackResponse, Float, ParameterDescriptor, ParameterError, Parameters, PointId,
    PortDescriptor, PortRole, Quality, QualityReason, Reading, Sample, StateError, StateMap, Tick,
    Value, ValueKind, Write, describe,
};
use std::cell::RefCell;
use std::collections::BTreeMap;

/// A point image: what the inputs read and what was last driven.
struct TestIo {
    samples: RefCell<BTreeMap<u64, Sample>>,
    written: RefCell<BTreeMap<u64, Sample>>,
}

impl TestIo {
    fn new(points: &[(PointId, Direction, Sample)]) -> TestIo {
        let mut samples = BTreeMap::new();
        for (point, _, sample) in points {
            samples.insert(point.0, *sample);
        }
        TestIo { samples: RefCell::new(samples), written: RefCell::new(BTreeMap::new()) }
    }

    fn feed(&self, point: PointId, sample: Sample) {
        self.samples.borrow_mut().insert(point.0, sample);
    }

    fn written(&self, point: PointId) -> Option<Sample> {
        self.written.borrow().get(&point.0).copied()
    }

    fn drive(&self, writes: &[Write]) {
        for write in writes {
            self.written.borrow_mut().insert(write.point.0, write.sample);
        }
    }

    fn read_float(&self, point: PointId) -> Reading<Float> {
        let sample = self.samples.borrow()[&point.0];
        match sample.value {
            Value::Float(value) => Reading { value, quality: sample.quality },
            other => panic!("{point:?} holds {other:?}"),
        }
    }
}

/// Reads a block's inputs, runs one scan and drives what it writes.
trait Scan {
    fn scan(&mut self, io: &TestIo, tick: Tick);
}

impl Scan for DemandFallback {
    fn scan(&mut self, io: &TestIo, tick: Tick) {
        let writes = self.step(io.read_float(IN), io.read_float(PV), tick);
        io.drive(&writes);
    }
}

fn num(value: f64) -> Float {
    Float::from_bits(value.to_bits())
}

fn float(value: f64) -> Value {
    Value::Float(num(value))
}

fn table_of<S: AsRef<str>>(entries: &[(S, Value)]) -> Parameters {
    let mut table = Parameters::new();
    for (name, value) in entries {
        table.insert(name.as_ref(), *value);
    }
    table
}

const IN: PointId = PointId(10);
const PV: PointId = PointId(11);
const OUT: PointId = PointId(20);
const ACTIVE: PointId = PointId(21);

fn points() -> DemandFallbackIo {
    DemandFallbackIo {
        input: IN,
        pv: PV,
        out: OUT,
        fallback_active: ACTIVE,
    }
}

fn config(on_bad: FallbackResponse) -> DemandFallbackConfig {
    DemandFallbackConfig {
        on_bad,
        fallback_flow: num(25.0),
        safe_flow: num(5.0),
    }
}

/// A holding fallback — the stateful response.
fn component() -> DemandFallback {
    DemandFallback::new("dfb", points(), config(FallbackResponse::Hold)).unwrap()
}

fn io() -> TestIo {
    TestIo::new(&[
        (
            IN,
            Direction::In,
            Sample::good(float(42.0), Tick(0)),
        ),
        (
            PV,
            Direction::In,
            Sample::good(float(2.0), Tick(0)),
        ),
        (
            OUT,
            Direction::Out,
            Sample::good(float(0.0), Tick(0)),
        ),
        (
            ACTIVE,
            Direction::Out,
            Sample::good(Value::Bool(false), Tick(0)),
        ),
    ])
}

fn feed(io: &TestIo, point: PointId, value: f64, quality: Quality, tick: u64) {
    io.feed(point, Sample::new(float(value), quality, Tick(tick)));
}

fn out(io: &TestIo) -> Sample {
    io.written(OUT).unwrap()
}

fn active(io: &TestIo) -> bool {
    io.written(ACTIVE).unwrap().value == Value::Bool(true)
}

#[test]
fn a_good_pv_passes_the_demand_through() {
    let mut block = component();
    let io = io();
    block.scan(&io, Tick(1));
    assert_eq!(out(&io).value, float(42.0));
    assert_eq!(out(&io).quality, Quality::Good);
    assert!(!active(&io));
}

#[test]
fn each_on_bad_code_answers_a_non_good_pv() {
    for (on_bad, served) in [
        (FallbackResponse::Hold, 0.0),
        (FallbackResponse::FallbackFlow, 25.0),
        (FallbackResponse::SafeFlow, 5.0),
    ] {
        let mut block = DemandFallback::new("dfb", points(), config(on_bad)).unwrap();
        let io = io();
        // No `Good` demand has been stamped yet: the hold serves
        // zero, the fixed codes serve their declared values, and
        // `out` carries the measurement's quality.
        feed(
            &io,
            PV,
            2.0,
            Quality::Bad(QualityReason::CommunicationFault),
            1,
        );
        block.scan(&io, Tick(1));
        assert_eq!(out(&io).value, float(served), "{on_bad:?}");
        assert_eq!(
            out(&io).quality,
            Quality::Bad(QualityReason::CommunicationFault)
        );
        assert!(active(&io));
        assert_eq!(io.written(ACTIVE).unwrap().quality, Quality::Good);
    }
}

#[test]
fn the_hold_freezes_the_last_good_stamped_demand() {
    let mut block = component();
    let io = io();
    block.scan(&io, Tick(1));

    // The measurement fails: the held demand serves and the flag
    // asserts — and a still-`Good` demand moving during the
    // engagement does not follow it.
    feed(&io, PV, 2.0, Quality::Bad(QualityReason::DeviceFault), 2);
    block.scan(&io, Tick(2));
    assert_eq!(out(&io).value, float(42.0));
    assert!(active(&io));

    feed(&io, IN, 55.0, Quality::Good, 3);
    block.scan(&io, Tick(3));
    assert_eq!(out(&io).value, float(42.0));
    assert!(active(&io));
}

#[test]
fn out_carries_the_worst_of_its_inputs() {
    let mut block = component();
    let io = io();

    // A `Good` pv under an untrusted demand passes the value
    // verbatim, marked by the merged quality.
    feed(&io, IN, 42.0, Quality::Uncertain(QualityReason::Stale), 1);
    block.scan(&io, Tick(1));
    assert_eq!(out(&io).value, float(42.0));
    assert_eq!(out(&io).quality, Quality::Uncertain(QualityReason::Stale));
    assert!(!active(&io));

    // An `Uncertain` pv under a `Bad` demand: the engagement
    // stands and the `Bad` half wins the merge.
    feed(&io, PV, 2.0, Quality::Uncertain(QualityReason::Stale), 2);
    feed(
        &io,
        IN,
        42.0,
        Quality::Bad(QualityReason::CommunicationFault),
        2,
    );
    block.scan(&io, Tick(2));
    assert_eq!(
        out(&io).quality,
        Quality::Bad(QualityReason::CommunicationFault)
    );
    assert!(active(&io));
}

#[test]
fn a_non_finite_pv_counts_as_untrusted() {
    let mut block = component();
    let io = io();
    feed(&io, PV, f64::NAN, Quality::Good, 1);
    block.scan(&io, Tick(1));
    assert_eq!(out(&io).value, float(0.0));
    assert_eq!(out(&io).quality, Quality::Bad(QualityReason::DeviceFault));
    assert!(active(&io));
}

#[test]
fn a_non_finite_demand_is_marked_without_engaging() {
    let mut block = component();
    let io = io();
    feed(&io, IN, f64::NAN, Quality::Good, 1);
    block.scan(&io, Tick(1));
    assert!(matches!(out(&io).value, Value::Float(v) if v.is_nan()));
    assert_eq!(out(&io).quality, Quality::Bad(QualityReason::DeviceFault));
    assert!(!active(&io), "the measurement still reads Good");
}

#[test]
fn a_recovered_pv_resumes_pass_through() {
    let mut block = component();
    let io = io();
    block.scan(&io, Tick(1));
    feed(&io, PV, 2.0, Quality::Bad(QualityReason::DeviceFault), 2);
    block.scan(&io, Tick(2));
    assert!(active(&io));

    // The first `Good` scan resumes pass-through and clears the
    // flag — no latch, no soak.
    feed(&io, PV, 2.0, Quality::Good, 3);
    block.scan(&io, Tick(3));
    assert_eq!(out(&io).value, float(42.0));
    assert_eq!(out(&io).quality, Quality::Good);
    assert!(!active(&io));
}

#[test]
fn a_restored_fallback_resumes_the_held_demand_identically() {
    let mut block = component();
    let io = io();
    block.scan(&io, Tick(1));

    // Capture mid-engagement: the held demand and the tuned config
    // are the run state a standby inherits.
    feed(&io, PV, 2.0, Quality::Bad(QualityReason::DeviceFault), 2);
    block.scan(&io, Tick(2));
    let state = block.capture_state();
    assert_eq!(state.get("held_demand"), Some(float(42.0)));

    let mut standby = component();
    standby.restore_state(&state).unwrap();
    assert_eq!(standby.capture_state(), state);

    // The standby holds the captured demand; recovery resumes
    // pass-through identically.
    feed(&io, PV, 2.0, Quality::Bad(QualityReason::DeviceFault), 3);
    standby.scan(&io, Tick(3));
    assert_eq!(out(&io).value, float(42.0));
    assert!(active(&io));
    feed(&io, PV, 2.0, Quality::Good, 4);
    standby.scan(&io, Tick(4));
    assert_eq!(out(&io).value, float(42.0));
    assert!(!active(&io));
}

#[test]
fn restore_validates_the_captured_vocabulary() {
    let mut block = component();
    let valid = block.capture_state();
    assert_eq!(valid.get("held_demand"), None);

    // Foreign and missing fields are named errors.
    let mut foreign = valid.clone();
    foreign.insert("foreign", Value::Int(1));
    assert!(matches!(
        block.restore_state(&foreign),
        Err(StateError::UnknownField { ref field, .. }) if field == "foreign"
    ));
    assert!(matches!(
        block.restore_state(&StateMap::new()),
        Err(StateError::MissingField { ref field, .. }) if field == "on_bad"
    ));

    // Mistyped and out-of-range fields are named errors, and a
    // rejected map changes nothing.
    let mut mistyped = valid.clone();
    mistyped.insert("fallback_flow", Value::Int(1));
    assert!(matches!(
        block.restore_state(&mistyped),
        Err(StateError::IncompatibleField { ref field, .. }) if field == "fallback_flow"
    ));
    let mut invalid = valid.clone();
    invalid.insert("safe_flow", float(f64::NAN));
    assert!(matches!(
        block.restore_state(&invalid),
        Err(StateError::InvalidValue { ref field, .. }) if field == "safe_flow"
    ));
    let mut bad_code = valid.clone();
    bad_code.insert("on_bad", Value::Int(4));
    assert!(matches!(
        block.restore_state(&bad_code),
        Err(StateError::InvalidValue { ref field, .. }) if field == "on_bad"
    ));
    let mut bad_held = valid.clone();
    bad_held.insert("held_demand", float(f64::INFINITY));
    assert!(matches!(
        block.restore_state(&bad_held),
        Err(StateError::InvalidValue { ref field, .. }) if field == "held_demand"
    ));
    assert_eq!(block.capture_state(), valid);
}

#[test]
fn demand_fallback_builds_from_parameter_map() {
    let parameters = table_of(&[
        ("on_bad".to_string(), Value::Int(2)),
        ("fallback_flow".to_string(), float(25.0)),
        ("safe_flow".to_string(), float(5.0)),
    ]);
    let block = DemandFallback::from_parameters("dfb", points(), &parameters).unwrap();
    assert_eq!(block.config().on_bad, FallbackResponse::SafeFlow);
    assert_eq!(block.config().fallback_flow, num(25.0));
    assert_eq!(block.config().safe_flow, num(5.0));

    for (parameters, parameter) in [
        (Parameters::new(), "on_bad"),
        (
            table_of(&[("on_bad".to_string(), Value::Int(3)),
                    ("fallback_flow".to_string(), float(25.0)),
                    ("safe_flow".to_string(), float(5.0)),
                ]),
            "on_bad",
        ),
        (
            table_of(&[
                ("on_bad".to_string(), Value::Int(0)),
                ("fallback_flow".to_string(), float(f64::NAN)),
                ("safe_flow".to_string(), float(5.0)),
            ]),
            "fallback_flow",
        ),
        (
            table_of(&[
                ("on_bad".to_string(), Value::Int(0)),
                ("fallback_flow".to_string(), float(25.0)),
            ]),
            "safe_flow",
        ),
    ] {
        let parameters: Parameters = parameters;
        assert!(matches!(
            DemandFallback::from_parameters("dfb", points(), &parameters).unwrap_err(),
            ParameterError::Missing { parameter: ref p, .. }
            | ParameterError::Invalid { parameter: ref p, .. } if p == parameter
        ));
    }
}

#[test]
fn tunes_declared_parameters_at_the_scan_boundary() {
    let mut block = component();
    let io = io();

    block.apply_parameter("on_bad", Value::Int(1)).unwrap();
    block
        .apply_parameter("fallback_flow", float(30.0))
        .unwrap();
    block
        .apply_parameter("safe_flow", float(2.0))
        .unwrap();
    assert_eq!(block.config().on_bad, FallbackResponse::FallbackFlow);
    assert_eq!(block.config().fallback_flow, num(30.0));
    assert_eq!(block.config().safe_flow, num(2.0));

    // A refused value changes nothing, naming the parameter.
    assert!(matches!(
        block.apply_parameter("on_bad", Value::Int(4)),
        Err(CommandError::InvalidParameter { ref parameter, .. }) if parameter == "on_bad"
    ));
    assert!(matches!(
        block.apply_parameter("safe_flow", float(f64::NAN)),
        Err(CommandError::InvalidParameter { ref parameter, .. }) if parameter == "safe_flow"
    ));
    assert!(matches!(
        block.apply_parameter("nope", Value::Int(0)),
        Err(CommandError::UnknownParameter { ref parameter, .. }) if parameter == "nope"
    ));
    assert_eq!(block.config().on_bad, FallbackResponse::FallbackFlow);

    // The tuned response engages on the next scan.
    feed(&io, PV, 2.0, Quality::Bad(QualityReason::DeviceFault), 1);
    block.scan(&io, Tick(1));
    assert_eq!(out(&io).value, float(30.0));
    assert!(active(&io));
}

#[test]
fn demand_fallback_describes_itself() {
    let descriptor = component().describe();
    assert_eq!(descriptor.name, "dfb");
    assert_eq!(descriptor.kind, DemandFallback::KIND);
    assert_eq!(descriptor.label, "dfb");
    assert_eq!(
        descriptor.ports,
        [
            PortDescriptor {
                name: "in".to_string(),
                direction: Direction::In,
                kind: ValueKind::Float,
                role: Some(PortRole::ProcessValue),
                point: None,
            },
            PortDescriptor {
                name: "pv".to_string(),
                direction: Direction::In,
                kind: ValueKind::Float,
                role: Some(PortRole::ProcessValue),
                point: None,
            },
            PortDescriptor {
                name: "out".to_string(),
                direction: Direction::Out,
                kind: ValueKind::Float,
                role: Some(PortRole::Output),
                point: None,
            },
            PortDescriptor {
                name: "fallback_active".to_string(),
                direction: Direction::Out,
                kind: ValueKind::Bool,
                role: Some(PortRole::Status),
                point: None,
            },
        ]
    );
    assert_eq!(
        descriptor.parameters,
        [
            ParameterDescriptor {
                name: "on_bad".to_string(),
                kind: ValueKind::Int,
                range: Some(describe::int_range(0, 2)),
            },
            ParameterDescriptor {
                name: "fallback_flow".to_string(),
                kind: ValueKind::Float,
                range: Some(describe::finite_f64()),
            },
            ParameterDescriptor {
                name: "safe_flow".to_string(),
                kind: ValueKind::Float,
                range: Some(describe::finite_f64()),
            },
        ]
    );

    // The descriptor's names are exactly the `from_parameters`
    // key set.
    let mut keyless = Parameters::new();
    for parameter in &descriptor.parameters {
        let value = match parameter.name.as_str() {
            "on_bad" => Value::Int(0),
            "fallback_flow" | "safe_flow" => float(1.0),
            other => panic!("undocumented parameter {other}"),
        };
        keyless.insert(&parameter.name, value);
    }
    DemandFallback::from_parameters("dfb", points(), &keyless).unwrap();
}

#[test]
fn identical_input_sequences_produce_identical_state() {
    let run = || {
        let mut block = component();
        let io = io();
        let mut written = Vec::new();
        for (tick, demand, quality) in [
            (1, 42.0, Quality::Good),
            (2, 55.0, Quality::Bad(QualityReason::DeviceFault)),
            (3, 55.0, Quality::Bad(QualityReason::DeviceFault)),
            (4, 55.0, Quality::Good),
        ] {
            feed(&io, IN, demand, Quality::Good, tick);
            feed(&io, PV, 2.0, quality, tick);
            block.scan(&io, Tick(tick));
            written.push((out(&io), io.written(ACTIVE).unwrap()));
        }
        (block.capture_state(), written)
    };
    assert_eq!(run(), run());
}
