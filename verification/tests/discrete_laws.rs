use dcs_blocks::{
    BoolGate, BoolLatchingAlarm, Counter, DigitalInput, DigitalOutput, Edge, EdgeTrigger,
    GateOperation, Parameters, PointId, Quality, QualityReason, Reading, Tick, Value, Write,
};

const A: PointId = PointId(1);
const B: PointId = PointId(2);
const C: PointId = PointId(3);
const D: PointId = PointId(4);

const STALE: Quality = Quality::Uncertain(QualityReason::Stale);
const FAULT: Quality = Quality::Bad(QualityReason::DeviceFault);

fn good(value: bool) -> Reading<bool> {
    Reading { value, quality: Quality::Good }
}

fn held(write: &Write) -> bool {
    write.sample.value == Value::Bool(true)
}

fn debounced(ticks: i64, invert: bool) -> DigitalInput {
    let mut parameters = Parameters::new();
    parameters.insert("debounce_ticks", Value::Int(ticks));
    parameters.insert("invert", Value::Bool(invert));
    DigitalInput::from_parameters("di", A, B, &parameters).unwrap()
}

#[test]
fn first_value_is_taken_over() {
    for value in [false, true] {
        let mut block = debounced(5, false);
        assert_eq!(held(&block.step(good(value), Tick(1))), value);
        let mut block = debounced(5, true);
        assert_eq!(held(&block.step(good(value), Tick(1))), !value);
    }
}

#[test]
fn no_debounce_passes_changes() {
    for ticks in [0, 1] {
        let mut block = debounced(ticks, false);
        for (tick, value) in [(1, false), (2, true), (3, false), (4, true)] {
            assert_eq!(held(&block.step(good(value), Tick(tick))), value, "ticks={ticks}");
        }
    }
}

#[test]
fn debounce_swallows_short_pulses() {
    let mut block = debounced(3, false);
    block.step(good(false), Tick(1));
    // Two scans of `true` are too short.
    assert!(!held(&block.step(good(true), Tick(2))));
    assert!(!held(&block.step(good(true), Tick(3))));
    assert!(!held(&block.step(good(false), Tick(4))));
    // The third one in a row is driven.
    assert!(!held(&block.step(good(true), Tick(5))));
    assert!(!held(&block.step(good(true), Tick(6))));
    assert!(held(&block.step(good(true), Tick(7))));
}

#[test]
fn input_checkpoint_round_trip() {
    let mut block = debounced(3, false);
    block.step(good(false), Tick(1));
    block.step(good(true), Tick(2));
    block.step(good(true), Tick(3));
    let mut standby = debounced(3, false);
    standby.restore_state(&block.capture_state()).unwrap();
    assert_eq!(standby.capture_state(), block.capture_state());
    assert!(held(&standby.step(good(true), Tick(4))));
}

#[test]
fn output_keeps_the_quality() {
    let block = DigitalOutput::new("do", A, B);
    for quality in [Quality::Good, STALE, FAULT] {
        let write = block.step(Reading { value: true, quality }, Tick(3));
        assert_eq!(write, Write::new(B, Value::Bool(true), quality, Tick(3)));
    }
}

#[test]
fn inverting_twice_restores() {
    let mut parameters = Parameters::new();
    parameters.insert("invert", Value::Bool(true));
    let block = DigitalOutput::from_parameters("do", A, B, &parameters).unwrap();
    for value in [false, true] {
        let between = held(&block.step(good(value), Tick(1)));
        assert_eq!(between, !value);
        assert_eq!(held(&block.step(good(between), Tick(1))), value);
    }
}

#[test]
fn edge_codes_read_back() {
    for edge in [Edge::Rising, Edge::Falling, Edge::Both] {
        assert_eq!(Edge::decode(edge.code()), Some(edge));
    }
    for code in [-1, 3, i64::MAX] {
        assert_eq!(Edge::decode(code), None);
    }
}

#[test]
fn pulses_last_one_scan() {
    for edge in [Edge::Rising, Edge::Falling, Edge::Both] {
        let mut block = EdgeTrigger::new("edge", A, B, edge);
        for tick in 0..8 {
            let value = tick % 4 < 2;
            let pulsed = held(&block.step(good(value), Tick(2 * tick)));
            let again = held(&block.step(good(value), Tick(2 * tick + 1)));
            assert!(!again, "{edge:?} at {tick}");
            assert!(!pulsed || tick % 2 == 0, "{edge:?} at {tick}");
        }
    }
}

#[test]
fn both_is_either() {
    for previous in [false, true] {
        for current in [false, true] {
            let rising = Edge::Rising.matches(previous, current);
            let falling = Edge::Falling.matches(previous, current);
            assert_eq!(rising, !previous && current);
            assert_eq!(falling, previous && !current);
            assert_eq!(Edge::Both.matches(previous, current), rising || falling);
        }
    }
}

#[test]
fn pulses_ignore_quality() {
    for quality in [Quality::Good, STALE, FAULT] {
        let mut block = EdgeTrigger::new("edge", A, B, Edge::Rising);
        let write = block.step(Reading { value: true, quality }, Tick(1));
        assert_eq!(write, Write::new(B, Value::Bool(true), quality, Tick(1)));
    }
}

#[test]
fn edge_checkpoint_round_trip() {
    let mut block = EdgeTrigger::new("edge", A, B, Edge::Falling);
    block.step(good(true), Tick(1));
    let mut standby = EdgeTrigger::new("edge", A, B, Edge::Rising);
    standby.restore_state(&block.capture_state()).unwrap();
    assert_eq!(standby.capture_state(), block.capture_state());
    assert!(held(&standby.step(good(false), Tick(2))));
}

fn counter(preset: u64) -> Counter {
    Counter::new("ctr", A, B, C, D, preset).unwrap()
}

/// Steps once and gives back the count and whether the preset is reached.
fn count(block: &mut Counter, value: bool, reset: bool) -> (i64, bool) {
    let writes = block.step(good(value), good(reset), Tick(1));
    match writes[0].sample.value {
        Value::Int(count) => (count, held(&writes[1])),
        other => panic!("{other:?}"),
    }
}

#[test]
fn reset_dominates() {
    let mut block = counter(2);
    assert_eq!(count(&mut block, true, false), (1, false));
    assert_eq!(count(&mut block, false, false), (1, false));
    assert_eq!(count(&mut block, true, true), (0, false));
    // The level held through the reset is no edge.
    assert_eq!(count(&mut block, true, false), (0, false));
}

#[test]
fn held_level_counts_once() {
    let mut block = counter(9);
    assert_eq!(count(&mut block, true, false), (1, false));
    assert_eq!(count(&mut block, true, false), (1, false));
    assert_eq!(count(&mut block, false, false), (1, false));
    assert_eq!(count(&mut block, true, false), (2, false));
}

#[test]
fn edges_add_one_up_to_the_largest_count() {
    let mut block = counter(3);
    let mut state = block.capture_state();
    state.insert("count", Value::Int(i64::MAX - 1));
    block.restore_state(&state).unwrap();
    assert_eq!(count(&mut block, true, false), (i64::MAX, true));
    assert_eq!(count(&mut block, false, false), (i64::MAX, true));
    assert_eq!(count(&mut block, true, false), (i64::MAX, true));
}

#[test]
fn done_stands_until_reset() {
    let mut block = counter(1);
    assert_eq!(count(&mut block, true, false), (1, true));
    assert_eq!(count(&mut block, false, false), (1, true));
    assert_eq!(count(&mut block, false, true), (0, false));
    assert_eq!(count(&mut counter(0), false, true), (0, true));
}

#[test]
fn counts_ignore_quality() {
    let mut block = counter(1);
    let writes = block.step(
        Reading { value: true, quality: FAULT },
        Reading { value: false, quality: STALE },
        Tick(4),
    );
    assert_eq!(
        writes,
        [
            Write::new(C, Value::Int(1), FAULT, Tick(4)),
            Write::new(D, Value::Bool(true), FAULT, Tick(4)),
        ]
    );
}

#[test]
fn counter_checkpoint_round_trip() {
    let mut block = counter(3);
    count(&mut block, true, false);
    let mut standby = counter(7);
    standby.restore_state(&block.capture_state()).unwrap();
    assert_eq!(standby.capture_state(), block.capture_state());
    assert_eq!(count(&mut standby, true, false), (1, false));
}

#[test]
fn counter_presets_above_the_largest_count_are_refused() {
    let mut block = counter(3);
    let too_large = Value::Float(dcs_blocks::Float::from_bits(1e19f64.to_bits()));
    assert!(block.apply_parameter("preset", too_large).is_err());
    assert_eq!(block.capture_state().get("preset"), Some(Value::Int(3)));
}

fn alarm() -> BoolLatchingAlarm {
    BoolLatchingAlarm::new("alm", A, B, C, D)
}

/// Steps once and gives back the alarm and the latch.
fn judge(block: &mut BoolLatchingAlarm, value: bool, ack: bool) -> (bool, bool) {
    let writes = block.step(good(value), good(ack), Tick(1));
    (held(&writes[0]), held(&writes[1]))
}

#[test]
fn alarm_follows_the_input() {
    let mut block = alarm();
    for (value, ack) in [(true, false), (true, true), (false, true), (false, false)] {
        assert_eq!(judge(&mut block, value, ack).0, value);
    }
}

#[test]
fn acknowledgment_dominates() {
    let mut block = alarm();
    assert_eq!(judge(&mut block, true, true), (true, false));
}

#[test]
fn latch_stands_until_acknowledged() {
    let mut block = alarm();
    assert_eq!(judge(&mut block, true, false), (true, true));
    assert_eq!(judge(&mut block, false, false), (false, true));
    assert_eq!(judge(&mut block, false, true), (false, false));
    assert_eq!(judge(&mut block, false, false), (false, false));
}

#[test]
fn standing_alarm_does_not_relatch() {
    let mut block = alarm();
    judge(&mut block, true, true);
    assert_eq!(judge(&mut block, true, false), (true, false));
    assert_eq!(judge(&mut block, false, false), (false, false));
    assert_eq!(judge(&mut block, true, false), (true, true));
}

#[test]
fn alarms_ignore_quality() {
    let mut block = alarm();
    let writes = block.step(
        Reading { value: true, quality: STALE },
        Reading { value: false, quality: Quality::Good },
        Tick(2),
    );
    assert_eq!(
        writes,
        [
            Write::new(C, Value::Bool(true), STALE, Tick(2)),
            Write::new(D, Value::Bool(true), STALE, Tick(2)),
        ]
    );
}

#[test]
fn alarm_checkpoint_round_trip() {
    let mut block = alarm();
    judge(&mut block, true, false);
    let mut standby = alarm();
    standby.restore_state(&block.capture_state()).unwrap();
    assert_eq!(standby.capture_state(), block.capture_state());
    assert_eq!(judge(&mut standby, true, false), (true, true));
    assert_eq!(judge(&mut standby, true, true), (true, false));
}

const OPERATIONS: [GateOperation; 3] = [GateOperation::And, GateOperation::Or, GateOperation::Xor];

#[test]
fn gate_codes_read_back() {
    for operation in OPERATIONS {
        assert_eq!(GateOperation::decode(operation.code()), Some(operation));
    }
    for code in [-1, 3] {
        assert_eq!(GateOperation::decode(code), None);
    }
}

#[test]
fn gates_fold_input_by_input() {
    for operation in OPERATIONS {
        for bits in 0..16 {
            let values: Vec<bool> = (0..4).map(|i| bits & (1 << i) != 0).collect();
            let mut folded = operation.identity();
            for value in &values {
                folded = operation.apply(folded, *value);
            }
            let gate = BoolGate::new("g", vec![A, B, C, D], PointId(9), operation);
            let readings: Vec<Reading<bool>> = values.iter().map(|value| good(*value)).collect();
            assert_eq!(held(&gate.step(&readings, Tick(1))), folded, "{operation:?} {values:?}");
        }
    }
    assert!(GateOperation::And.identity());
    assert!(!GateOperation::Or.identity());
    assert!(!GateOperation::Xor.identity());
}

#[test]
fn gate_checkpoint_round_trip() {
    let gate = BoolGate::new("g", vec![A], B, GateOperation::Xor);
    let mut standby = BoolGate::new("g", vec![A], B, GateOperation::And);
    standby.restore_state(&gate.capture_state()).unwrap();
    assert_eq!(standby.capture_state(), gate.capture_state());
}

#[test]
fn retunes_keep_the_count() {
    let mut block = counter(5);
    count(&mut block, true, false);
    count(&mut block, false, false);
    count(&mut block, true, false);
    block.apply_parameter("preset", Value::Int(2)).unwrap();
    // The level still stands, so it does not count again.
    assert_eq!(count(&mut block, true, false), (2, true));
}

#[test]
fn retunes_keep_the_level() {
    let mut parameters = Parameters::new();
    parameters.insert("edge", Value::Int(1));
    let mut block = EdgeTrigger::from_parameters("edge", A, B, &parameters).unwrap();
    block.step(good(true), Tick(1));
    block.apply_parameter("edge", Value::Int(0)).unwrap();
    assert!(!held(&block.step(good(true), Tick(2))));
    assert!(!held(&block.step(good(false), Tick(3))));
    assert!(held(&block.step(good(true), Tick(4))));
}

/// Counts the rises since the last reset, whatever the scans.
#[test]
fn counts_follow_the_history() {
    let mut block = counter(3);
    let mut level = false;
    let mut rises = 0;
    for round in 0..200u32 {
        let value = round.wrapping_mul(37) % 5 < 2;
        let reset = round % 41 == 40;
        rises = if reset { 0 } else { rises + i64::from(value && !level) };
        level = value;
        assert_eq!(count(&mut block, value, reset), (rises, rises >= 3), "round {round}");
    }
}

/// Drives the last value that has stood for three scans, and the first one
/// at once.
#[test]
fn debounce_follows_the_history() {
    let mut block = debounced(3, true);
    let mut values = Vec::new();
    let mut driven = false;
    for round in 0..200u32 {
        let value = round.wrapping_mul(29) % 13 < 7;
        values.push(value);
        let tail = &values[values.len().saturating_sub(3)..];
        if values.len() == 1 || (tail.len() == 3 && tail.iter().all(|seen| *seen == value)) {
            driven = !value;
        }
        assert_eq!(held(&block.step(good(value), Tick(1))), driven, "round {round}");
    }
}

/// Latched where the input has risen and nothing has acknowledged since.
#[test]
fn latch_follows_the_history() {
    let mut block = alarm();
    let mut scans: Vec<(bool, bool)> = Vec::new();
    for round in 0..200u32 {
        let scan = (round.wrapping_mul(31) % 7 < 3, round % 9 == 8);
        scans.push(scan);
        let latched = (0..scans.len()).any(|k| {
            let rises = scans[k].0 && (k == 0 || !scans[k - 1].0);
            rises && scans[k..].iter().all(|scan| !scan.1)
        });
        assert_eq!(judge(&mut block, scan.0, scan.1), (scan.0, latched), "round {round}");
    }
}
