use dcs_blocks::{
    CommandError, DeviationMonitor, Direction, Float, ParameterDescriptor, ParameterError,
    Parameters, PointId, PortDescriptor, PortRole, Quality, QualityReason, Reading, Sample,
    StateError, StateMap, Tick, Value, ValueKind, WindowSums, Write, describe,
};
use std::cell::RefCell;
use std::collections::BTreeMap;

/// A point image: what the inputs read and what was last driven.
struct TestIo {
    samples: RefCell<BTreeMap<u64, Sample>>,
    written: RefCell<BTreeMap<u64, Sample>>,
}

impl TestIo {
    fn new(points: &[(PointId, Direction, Sample)]) -> TestIo {
        let mut samples = BTreeMap::new();
        for (point, _, sample) in points {
            samples.insert(point.0, *sample);
        }
        TestIo { samples: RefCell::new(samples), written: RefCell::new(BTreeMap::new()) }
    }

    fn feed(&self, point: PointId, sample: Sample) {
        self.samples.borrow_mut().insert(point.0, sample);
    }

    fn written(&self, point: PointId) -> Option<Sample> {
        self.written.borrow().get(&point.0).copied()
    }

    fn drive(&self, writes: &[Write]) {
        for write in writes {
            self.written.borrow_mut().insert(write.point.0, write.sample);
        }
    }

    fn read_float(&self, point: PointId) -> Reading<Float> {
        let sample = self.samples.borrow()[&point.0];
        match sample.value {
            Value::Float(value) => Reading { value, quality: sample.quality },
            other => panic!("{point:?} holds {other:?}"),
        }
    }
}

/// Reads a block's inputs, runs one scan and drives what it writes.
trait Scan {
    fn scan(&mut self, io: &TestIo, tick: Tick);
}

impl Scan for DeviationMonitor {
    fn scan(&mut self, io: &TestIo, tick: Tick) {
        let (expected, measured) = (io.read_float(EXPECTED), io.read_float(MEASURED));
        let sums = self.sums();
        let expected_sum = f64_of(sums.expected) + f64_of(expected.value);
        let measured_sum = f64_of(sums.measured) + f64_of(measured.value);
        let banked = WindowSums { expected: num(expected_sum), measured: num(measured_sum) };
        let quotient = (measured_sum - expected_sum) / expected_sum;
        let writes = self.step(expected, measured, banked, num(quotient), tick);
        io.drive(&writes);
    }
}

fn num(value: f64) -> Float {
    Float::from_bits(value.to_bits())
}

fn float(value: f64) -> Value {
    Value::Float(num(value))
}

fn f64_of(value: Float) -> f64 {
    f64::from_bits(value.to_bits())
}

const EXPECTED: PointId = PointId(40);
const MEASURED: PointId = PointId(41);
const DEVIATION: PointId = PointId(50);
const DEVIATING: PointId = PointId(51);

/// Limit 0.1 over a four-scan window.
fn component() -> DeviationMonitor {
    DeviationMonitor::new("dev", EXPECTED, MEASURED, DEVIATION, DEVIATING, num(0.1), 4).unwrap()
}

fn io() -> TestIo {
    TestIo::new(&[
        (
            EXPECTED,
            Direction::In,
            Sample::good(float(0.0), Tick(0)),
        ),
        (
            MEASURED,
            Direction::In,
            Sample::good(float(0.0), Tick(0)),
        ),
        (
            DEVIATION,
            Direction::Out,
            Sample::good(float(0.0), Tick(0)),
        ),
        (
            DEVIATING,
            Direction::Out,
            Sample::good(Value::Bool(false), Tick(0)),
        ),
    ])
}

/// Feeds both inputs `Good` and steps once.
fn step(block: &mut DeviationMonitor, io: &TestIo, expected: f64, measured: f64, tick: u64) {
    io.feed(EXPECTED, Sample::good(float(expected), Tick(tick)));
    io.feed(MEASURED, Sample::good(float(measured), Tick(tick)));
    block.scan(io, Tick(tick));
}

fn deviation(io: &TestIo) -> Sample {
    io.written(DEVIATION).unwrap()
}

fn deviating(io: &TestIo) -> Sample {
    io.written(DEVIATING).unwrap()
}

fn deviating_value(io: &TestIo) -> bool {
    match deviating(io).value {
        Value::Bool(deviating) => deviating,
        value => panic!("deviating must be Bool, got {value:?}"),
    }
}

#[test]
fn a_tracking_measured_signal_keeps_deviating_clear() {
    let mut block = component();
    let io = io();
    // Two full windows of measured tracking expected exactly.
    for tick in 1..=8 {
        step(&mut block, &io, 10.0, 10.0, tick);
        assert!(!deviating_value(&io), "tick {tick}");
    }
    assert_eq!(deviation(&io).value, float(0.0));
    // A window inside the limit reports its signed deviation.
    for tick in 9..=12 {
        step(&mut block, &io, 10.0, 10.5, tick);
    }
    assert_eq!(deviation(&io).value, float(0.05));
    assert!(!deviating_value(&io));
    // Exactly at the limit is not deviating.
    for tick in 13..=16 {
        step(&mut block, &io, 10.0, 11.0, tick);
    }
    assert_eq!(deviation(&io).value, float(0.1));
    assert!(!deviating_value(&io));
}

#[test]
fn a_sustained_deviation_asserts_at_the_windows_close() {
    let mut block = component();
    let io = io();
    // Measured runs 20% over: inside the window the standing
    // verdict holds — the first three excess scans assert nothing.
    for tick in 1..=3 {
        step(&mut block, &io, 10.0, 12.0, tick);
        assert_eq!(deviation(&io).value, float(0.0), "tick {tick}");
        assert!(!deviating_value(&io), "tick {tick}");
    }
    // The fourth banked scan closes the window: deviation 0.2
    // exceeds the 0.1 limit and the verdict asserts.
    step(&mut block, &io, 10.0, 12.0, 4);
    assert_eq!(deviation(&io).value, float(0.2));
    assert!(deviating_value(&io));
    // The verdict stands while the next window accumulates.
    step(&mut block, &io, 10.0, 12.0, 5);
    assert!(deviating_value(&io));
}

#[test]
fn recovery_clears_at_the_close_of_a_within_limit_window() {
    let mut block = component();
    let io = io();
    for tick in 1..=4 {
        step(&mut block, &io, 10.0, 5.0, tick);
    }
    // Under-delivery: deviation −0.5 asserts the same way.
    assert_eq!(deviation(&io).value, float(-0.5));
    assert!(deviating_value(&io));

    // The recovered window still holds the standing verdict until
    // it completes — recovery clears at the window's close.
    for tick in 5..=7 {
        step(&mut block, &io, 10.0, 10.0, tick);
        assert!(deviating_value(&io), "tick {tick}");
    }
    step(&mut block, &io, 10.0, 10.0, 8);
    assert_eq!(deviation(&io).value, float(0.0));
    assert!(!deviating_value(&io));
}

#[test]
fn a_slow_trend_is_compared_over_the_window_not_instantaneously() {
    let mut block = component();
    let io = io();
    // The drawdown shape: a measured rate wandering ±20% around the
    // command. Each scan's instantaneous deviation would trip the
    // limit; the window's accumulated quantities nearly cancel and
    // the verdict stays clear.
    for (tick, measured) in [(1, 8.0), (2, 12.0), (3, 8.0), (4, 12.0)] {
        step(&mut block, &io, 10.0, measured, tick);
        assert!(!deviating_value(&io), "tick {tick}");
    }
    // Sum 40 against 40: the window's deviation is zero.
    assert_eq!(deviation(&io).value, float(0.0));

    // A window of one scan is the instantaneous case the same
    // mechanism covers: each excess scan asserts on the spot.
    let mut instant =
        DeviationMonitor::new("dev", EXPECTED, MEASURED, DEVIATION, DEVIATING, num(0.1), 1).unwrap();
    step(&mut instant, &io, 10.0, 8.0, 5);
    assert!(deviating_value(&io));
    assert_eq!(deviation(&io).value, float(-0.2));
    step(&mut instant, &io, 10.0, 10.0, 6);
    assert!(!deviating_value(&io));
}

#[test]
fn a_lone_excursion_inside_a_tracking_window_never_asserts() {
    let mut block = component();
    let io = io();
    // One scan's thirty-percent shortfall inside an otherwise
    // tracking window dilutes below the limit — the comparison is
    // the window's, not the scan's.
    for (tick, measured) in [(1, 10.0), (2, 7.0), (3, 10.0), (4, 10.0)] {
        step(&mut block, &io, 10.0, measured, tick);
        assert!(!deviating_value(&io), "tick {tick}");
    }
    assert_eq!(deviation(&io).value, float(-0.075));
}

#[test]
fn a_non_good_input_banks_nothing_and_holds_the_verdict() {
    for point in [EXPECTED, MEASURED] {
        let mut block = component();
        let io = io();
        step(&mut block, &io, 10.0, 12.0, 1);
        step(&mut block, &io, 10.0, 12.0, 2);

        // Two bad scans: the window does not advance, the standing
        // verdict holds stamped with the input's quality.
        for tick in 3..=4 {
            io.feed(
                point,
                Sample::new(
                    float(99.0),
                    Quality::Bad(QualityReason::CommunicationFault),
                    Tick(tick),
                ),
            );
            block.scan(&io, Tick(tick));
            assert_eq!(deviation(&io).value, float(0.0));
            assert!(!deviating_value(&io));
            assert_eq!(
                deviating(&io).quality,
                Quality::Bad(QualityReason::CommunicationFault)
            );
        }

        // The window resumes where it froze: the excess completes
        // on the second recovered scan — two banked plus two more.
        step(&mut block, &io, 10.0, 12.0, 5);
        step(&mut block, &io, 10.0, 12.0, 6);
        assert!(deviating_value(&io), "frozen point {point:?}");
        assert_eq!(deviation(&io).quality, Quality::Good);
    }
}

#[test]
fn an_uncertain_input_freezes_and_stamps_the_verdict() {
    let mut block = component();
    let io = io();
    step(&mut block, &io, 10.0, 10.0, 1);
    io.feed(
        EXPECTED,
        Sample::new(
            float(10.0),
            Quality::Uncertain(QualityReason::Stale),
            Tick(2),
        ),
    );
    block.scan(&io, Tick(2));
    assert_eq!(
        deviation(&io).quality,
        Quality::Uncertain(QualityReason::Stale)
    );
    // Recovery resumes the open window.
    for tick in 3..=5 {
        step(&mut block, &io, 10.0, 10.0, tick);
    }
    assert_eq!(deviation(&io).value, float(0.0));
    assert_eq!(deviation(&io).quality, Quality::Good);
}

#[test]
fn a_non_finite_input_freezes_flagged_device_fault() {
    let mut block = component();
    let io = io();
    step(&mut block, &io, 10.0, 10.0, 1);
    io.feed(MEASURED, Sample::good(float(f64::NAN), Tick(2)));
    block.scan(&io, Tick(2));
    assert_eq!(
        deviation(&io).quality,
        Quality::Bad(QualityReason::DeviceFault)
    );
    // A `Good`-stamped NaN banks nothing.
    step(&mut block, &io, 10.0, 10.0, 3);
    step(&mut block, &io, 10.0, 10.0, 4);
    step(&mut block, &io, 10.0, 10.0, 5);
    assert_eq!(deviation(&io).value, float(0.0));
    assert!(!deviating_value(&io));
}

#[test]
fn an_unbankable_sum_freezes_flagged() {
    let mut block = component();
    let io = io();
    step(&mut block, &io, f64::MAX, f64::MAX, 1);
    step(&mut block, &io, f64::MAX, f64::MAX, 2);
    // Both sums overflowed on the second scan — the window froze at
    // one banked pair rather than banking an infinite sum.
    assert_eq!(
        deviation(&io).quality,
        Quality::Bad(QualityReason::DeviceFault)
    );
    assert!(!deviating_value(&io));
}

#[test]
fn a_window_commanding_nothing_compares_against_zero() {
    let mut block = component();
    let io = io();
    // Nothing commanded, nothing delivered: agreement.
    for tick in 1..=4 {
        step(&mut block, &io, 0.0, 0.0, tick);
    }
    assert_eq!(deviation(&io).value, float(0.0));
    assert!(!deviating_value(&io));

    // Measured consumption against a silent command is an
    // unbounded relative deviation — the verdict trips on the
    // saturated value.
    for tick in 5..=8 {
        step(&mut block, &io, 0.0, 2.0, tick);
    }
    assert_eq!(deviation(&io).value, float(f64::MAX));
    assert!(deviating_value(&io));
}

#[test]
fn the_verdict_waits_for_trusted_samples_to_fill_the_window() {
    let mut block = component();
    let io = io();
    // Alternating trusted and bad scans: only the trusted ones
    // bank — after three banked pairs the window is still open.
    for tick in 1..=6 {
        if tick % 2 == 0 {
            io.feed(
                EXPECTED,
                Sample::new(
                    float(10.0),
                    Quality::Bad(QualityReason::DeviceFault),
                    Tick(tick),
                ),
            );
            io.feed(MEASURED, Sample::good(float(15.0), Tick(tick)));
            block.scan(&io, Tick(tick));
        } else {
            step(&mut block, &io, 10.0, 15.0, tick);
        }
        assert!(!deviating_value(&io), "tick {tick}");
    }
    // The fourth trusted scan closes the window: four banked pairs
    // of 10 against 15 give deviation 0.5, and the verdict holds
    // through the following bad scan.
    step(&mut block, &io, 10.0, 15.0, 7);
    assert!(deviating_value(&io));
    assert_eq!(deviation(&io).value, float(0.5));
    io.feed(
        EXPECTED,
        Sample::new(
            float(10.0),
            Quality::Bad(QualityReason::DeviceFault),
            Tick(8),
        ),
    );
    block.scan(&io, Tick(8));
    assert!(deviating_value(&io));
    assert_eq!(
        deviating(&io).quality,
        Quality::Bad(QualityReason::DeviceFault)
    );
}

#[test]
fn capture_restore_mid_window_continues_identically() {
    let mut block = component();
    let io_a = io();
    let io_b = io();

    // Bank two pairs, then tune the limit so the tuned parameter
    // rides the checkpoint too.
    step(&mut block, &io_a, 10.0, 12.0, 1);
    step(&mut block, &io_a, 10.0, 12.0, 2);
    block
        .apply_parameter("deviation_limit", float(0.05))
        .unwrap();
    let state = block.capture_state();
    assert_eq!(state.get("expected_sum"), Some(float(20.0)));
    assert_eq!(state.get("measured_sum"), Some(float(24.0)));
    assert_eq!(state.get("window_position"), Some(Value::Int(2)));
    assert_eq!(state.get("deviation_limit"), Some(float(0.05)));

    let mut standby =
        DeviationMonitor::new("dev", EXPECTED, MEASURED, DEVIATION, DEVIATING, num(0.1), 4).unwrap();
    standby.restore_state(&state).unwrap();

    // Both finish the window identically — the tuned 0.05 limit
    // trips on deviation 0.2 — and keep running in step through
    // the recovered window's clear.
    for tick in 3..=8 {
        let measured = if tick <= 4 { 12.0 } else { 10.0 };
        step(&mut block, &io_a, 10.0, measured, tick);
        step(&mut standby, &io_b, 10.0, measured, tick);
        assert_eq!(deviation(&io_a), deviation(&io_b), "tick {tick}");
        assert_eq!(deviating(&io_a), deviating(&io_b), "tick {tick}");
    }
    // The checkpointed window closed on the excess at tick 4; the
    // recovered one cleared both sides at tick 8.
    assert!(!deviating_value(&io_a));
    assert!(!deviating_value(&io_b));
    assert_eq!(standby.capture_state(), block.capture_state());
}

#[test]
fn deviation_monitor_restore_rejects_an_incompatible_state_map() {
    let mut block = component();

    let mut foreign = block.capture_state();
    foreign.insert("surprise", Value::Int(1));
    assert!(matches!(
        block.restore_state(&foreign),
        Err(StateError::UnknownField { .. })
    ));
    assert!(matches!(
        block.restore_state(&StateMap::new()),
        Err(StateError::MissingField { .. })
    ));

    // A window position outside the accumulator range is refused,
    // as is one that disagrees with the banked sums.
    let mut bad = block.capture_state();
    bad.insert("window_position", Value::Int(4));
    assert_eq!(
        block.restore_state(&bad),
        Err(StateError::InvalidValue {
            element: "dev".to_string(),
            field: "window_position".to_string(),
            value: Value::Int(4),
        })
    );
    let mut bad = block.capture_state();
    bad.insert("expected_sum", float(3.0));
    assert_eq!(
        block.restore_state(&bad),
        Err(StateError::InvalidValue {
            element: "dev".to_string(),
            field: "expected_sum".to_string(),
            value: float(3.0),
        })
    );

    // Parameter invariants apply to the restored vocabulary too.
    let mut bad = block.capture_state();
    bad.insert("deviation_limit", float(-0.5));
    assert_eq!(
        block.restore_state(&bad),
        Err(StateError::InvalidValue {
            element: "dev".to_string(),
            field: "deviation_limit".to_string(),
            value: float(-0.5),
        })
    );
    let mut bad = block.capture_state();
    bad.insert("window_ticks", Value::Int(0));
    assert!(matches!(
        block.restore_state(&bad),
        Err(StateError::InvalidValue { ref field, .. }) if field == "window_ticks"
    ));
    let mut bad = block.capture_state();
    bad.insert("deviation", float(f64::NAN));
    assert!(matches!(
        block.restore_state(&bad),
        Err(StateError::InvalidValue { ref field, .. }) if field == "deviation"
    ));
}

#[test]
fn deviation_monitor_malformed_parameters_fail_construction_naming_the_parameter() {
    for (limit, ticks, parameter) in [
        (f64::NAN, 4, "deviation_limit"),
        (-0.1, 4, "deviation_limit"),
        (0.1, 0, "window_ticks"),
        (0.1, i64::MAX as u64 + 1, "window_ticks"),
    ] {
        match DeviationMonitor::new(
            "dev", EXPECTED, MEASURED, DEVIATION, DEVIATING, num(limit), ticks,
        ) {
            Err(ParameterError::Invalid {
                parameter: found, ..
            }) => assert_eq!(found, parameter),
            other => panic!("{parameter}: expected Invalid, got {other:?}"),
        }
    }

    // Through the parameter map: a missing key is Missing, a
    // mistyped one Invalid.
    let mut parameters = Parameters::new();
    parameters.insert("deviation_limit", float(0.1));
    match DeviationMonitor::from_parameters(
        "dev",
        EXPECTED,
        MEASURED,
        DEVIATION,
        DEVIATING,
        &parameters,
    ) {
        Err(ParameterError::Missing { parameter, .. }) => {
            assert_eq!(parameter, "window_ticks")
        }
        other => panic!("expected Missing window_ticks, got {other:?}"),
    }
    parameters.insert("window_ticks", Value::Int(4));
    DeviationMonitor::from_parameters(
        "dev",
        EXPECTED,
        MEASURED,
        DEVIATION,
        DEVIATING,
        &parameters,
    )
    .unwrap();
    parameters.insert("window_ticks", Value::Int(0));
    match DeviationMonitor::from_parameters(
        "dev",
        EXPECTED,
        MEASURED,
        DEVIATION,
        DEVIATING,
        &parameters,
    ) {
        Err(ParameterError::Invalid { parameter, .. }) => {
            assert_eq!(parameter, "window_ticks")
        }
        other => panic!("expected Invalid window_ticks, got {other:?}"),
    }
    parameters.insert("deviation_limit", Value::Bool(true));
    match DeviationMonitor::from_parameters(
        "dev",
        EXPECTED,
        MEASURED,
        DEVIATION,
        DEVIATING,
        &parameters,
    ) {
        Err(ParameterError::Invalid { parameter, .. }) => {
            assert_eq!(parameter, "deviation_limit")
        }
        other => panic!("expected Invalid deviation_limit, got {other:?}"),
    }
}

#[test]
fn deviation_monitor_tuning_retunes_the_declared_parameters() {
    let mut block = component();
    block
        .apply_parameter("deviation_limit", float(0.25))
        .unwrap();
    block
        .apply_parameter("window_ticks", Value::Int(2))
        .unwrap();
    let reported = block.report_parameters();
    assert_eq!(reported.get("deviation_limit"), Some(float(0.25)));
    assert_eq!(reported.get("window_ticks"), Some(Value::Int(2)));

    // The retuned window closes on the second banked scan.
    let first_io = io();
    step(&mut block, &first_io, 10.0, 13.0, 1);
    step(&mut block, &first_io, 10.0, 13.0, 2);
    assert!(deviating_value(&first_io));
    assert_eq!(deviation(&first_io).value, float(0.3));

    // A shortened window below the open position closes at the
    // next banked scan.
    let mut block = component();
    let tuned_io = io();
    step(&mut block, &tuned_io, 10.0, 12.0, 1);
    step(&mut block, &tuned_io, 10.0, 12.0, 2);
    step(&mut block, &tuned_io, 10.0, 12.0, 3);
    block
        .apply_parameter("window_ticks", Value::Int(1))
        .unwrap();
    step(&mut block, &tuned_io, 10.0, 12.0, 4);
    assert!(deviating_value(&tuned_io));
    assert_eq!(deviation(&tuned_io).value, float(0.2));

    // Refusals name the tuned parameter and change nothing.
    assert!(matches!(
        block
            .apply_parameter("deviation_limit", float(-1.0))
            .unwrap_err(),
        CommandError::InvalidParameter { ref parameter, .. } if parameter == "deviation_limit"
    ));
    assert!(matches!(
        block.apply_parameter("window_ticks", Value::Int(0)).unwrap_err(),
        CommandError::InvalidParameter { ref parameter, .. } if parameter == "window_ticks"
    ));
    assert!(matches!(
        block.apply_parameter("gain", float(1.0)).unwrap_err(),
        CommandError::UnknownParameter { ref parameter, .. } if parameter == "gain"
    ));
    assert!(matches!(
        block
            .apply_parameter("deviation_limit", Value::Bool(true))
            .unwrap_err(),
        CommandError::ParameterTypeMismatch { ref parameter, .. } if parameter == "deviation_limit"
    ));
}

#[test]
fn deviation_monitor_identical_runs_produce_identical_outputs() {
    let run = || {
        let mut block = component();
        let io = io();
        let mut trace = Vec::new();
        for tick in 1..=10u64 {
            match tick {
                5 | 6 => {
                    io.feed(
                        EXPECTED,
                        Sample::new(
                            float(10.0),
                            Quality::Bad(QualityReason::Stale),
                            Tick(tick),
                        ),
                    );
                    io.feed(MEASURED, Sample::good(float(9.0), Tick(tick)));
                    block.scan(&io, Tick(tick));
                }
                _ => step(
                    &mut block,
                    &io,
                    10.0,
                    if tick < 9 { 10.0 } else { 15.0 },
                    tick,
                ),
            }
            trace.push((deviation(&io), deviating(&io)));
        }
        trace
    };
    assert_eq!(run(), run());
}

#[test]
fn deviation_monitor_describes_itself() {
    let descriptor = component().describe();
    assert_eq!(descriptor.name, "dev");
    assert_eq!(descriptor.kind, DeviationMonitor::KIND);
    assert_eq!(descriptor.label, "dev");
    assert_eq!(
        descriptor.ports,
        [
            PortDescriptor {
                name: "expected".to_string(),
                direction: Direction::In,
                kind: ValueKind::Float,
                role: Some(PortRole::ProcessValue),
                point: None,
            },
            PortDescriptor {
                name: "measured".to_string(),
                direction: Direction::In,
                kind: ValueKind::Float,
                role: Some(PortRole::ProcessValue),
                point: None,
            },
            PortDescriptor {
                name: "deviation".to_string(),
                direction: Direction::Out,
                kind: ValueKind::Float,
                role: Some(PortRole::Output),
                point: None,
            },
            PortDescriptor {
                name: "deviating".to_string(),
                direction: Direction::Out,
                kind: ValueKind::Bool,
                role: Some(PortRole::Status),
                point: None,
            },
        ]
    );
    // The declared parameter set is exactly the key set
    // `from_parameters` reads, in the documented order.
    assert_eq!(
        descriptor.parameters,
        [
            ParameterDescriptor {
                name: "deviation_limit".to_string(),
                kind: ValueKind::Float,
                range: Some(describe::nonnegative_f64()),
            },
            ParameterDescriptor {
                name: "window_ticks".to_string(),
                kind: ValueKind::Int,
                range: Some(describe::positive_int()),
            },
        ]
    );
}
