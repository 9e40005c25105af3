use dcs_blocks::alarm_monitor::Alarm;
use dcs_blocks::analog_input::judge_range;
use dcs_blocks::deviation_monitor::relative_deviation;
use dcs_blocks::{
    AlarmLimits, AlarmMonitor, AnalogInput, AnalogOutput, BadTermResponse, DemandFallback,
    DemandFallbackConfig, DemandFallbackIo, DeviationMonitor, FailoverSelect, FallbackResponse,
    FeedforwardSum, FeedforwardSumConfig, FeedforwardSumIo, Float, PointId, Quality, QualityReason,
    Reading, Scaling, Tick, Value, WindowSums, Write,
};

const A: PointId = PointId(1);
const B: PointId = PointId(2);
const C: PointId = PointId(3);
const D: PointId = PointId(4);
const E: PointId = PointId(5);

const STALE: Quality = Quality::Uncertain(QualityReason::Stale);
const FAULT: Quality = Quality::Bad(QualityReason::DeviceFault);
const LOST: Quality = Quality::Bad(QualityReason::CommunicationFault);

fn num(value: f64) -> Float {
    Float::from_bits(value.to_bits())
}

fn f64_of(value: Float) -> f64 {
    f64::from_bits(value.to_bits())
}

fn float(value: f64) -> Value {
    Value::Float(num(value))
}

fn good(value: f64) -> Reading<Float> {
    Reading { value: num(value), quality: Quality::Good }
}

fn read(value: f64, quality: Quality) -> Reading<Float> {
    Reading { value: num(value), quality }
}

fn held(write: &Write) -> bool {
    write.sample.value == Value::Bool(true)
}

/// Limits 10 and 90 with a hysteresis of 5.
fn monitor() -> AlarmMonitor {
    let limits = AlarmLimits { low: num(10.0), high: num(90.0), hysteresis: num(5.0) };
    AlarmMonitor::new("alm", A, B, limits).unwrap()
}

fn judge(block: &mut AlarmMonitor, value: f64) -> bool {
    held(&block.step(good(value), num(85.0), num(15.0), Tick(1)))
}

#[test]
fn alarm_codes_read_back() {
    for alarm in [Alarm::Clear, Alarm::Low, Alarm::High] {
        assert_eq!(Alarm::decode(alarm.code()), Some(alarm));
    }
    assert_eq!(Alarm::decode(3), None);
    assert_eq!(Alarm::decode(-2), None);
}

#[test]
fn clear_alarm_trips_at_the_limits() {
    for (value, tripped) in [(10.0, true), (10.1, false), (89.9, false), (90.0, true)] {
        assert_eq!(judge(&mut monitor(), value), tripped, "{value}");
    }
}

#[test]
fn tripped_alarm_waits_for_the_hysteresis() {
    let mut block = monitor();
    assert!(judge(&mut block, 90.0));
    assert!(judge(&mut block, 85.0));
    assert!(!judge(&mut block, 84.9));
    assert!(judge(&mut block, 10.0));
    assert!(judge(&mut block, 15.0));
    assert!(!judge(&mut block, 15.1));
}

#[test]
fn plunges_move_the_alarm_over() {
    let mut block = monitor();
    assert!(judge(&mut block, 95.0));
    assert!(judge(&mut block, 5.0));
    // On the low side now: the high hysteresis no longer counts.
    assert!(judge(&mut block, 14.0));
    assert!(!judge(&mut block, 86.0));
}

#[test]
fn nan_holds_the_alarm() {
    let mut block = monitor();
    assert!(judge(&mut block, 95.0));
    let write = block.step(good(f64::NAN), num(85.0), num(15.0), Tick(2));
    assert_eq!(write, Write::new(B, Value::Bool(true), FAULT, Tick(2)));
    assert!(judge(&mut block, 86.0));
}

#[test]
fn degraded_inputs_are_judged() {
    let write = monitor().step(read(95.0, STALE), num(85.0), num(15.0), Tick(2));
    assert_eq!(write, Write::new(B, Value::Bool(true), STALE, Tick(2)));
}

#[test]
fn monitor_checkpoint_round_trip() {
    let mut block = monitor();
    judge(&mut block, 95.0);
    let mut standby = monitor();
    standby.restore_state(&block.capture_state()).unwrap();
    assert_eq!(standby.capture_state(), block.capture_state());
    assert!(judge(&mut standby, 86.0));
}

/// 4 to 20 onto 0 to 100.
fn scaling() -> Scaling {
    Scaling { raw_min: num(4.0), raw_max: num(20.0), eng_min: num(0.0), eng_max: num(100.0) }
}

#[test]
fn operands_stay_in_the_raw_range() {
    let block = AnalogInput::<Float>::new("ai", A, B, scaling()).unwrap();
    for (value, operand) in [(3.0, 4.0), (4.0, 4.0), (12.5, 12.5), (20.0, 20.0), (1e9, 20.0)] {
        assert_eq!(block.operand(num(value)), num(operand));
    }
    // A falling raw range is held between the same bounds.
    let falling = Scaling { raw_min: num(20.0), raw_max: num(4.0), ..scaling() };
    let block = AnalogInput::<Float>::new("ai", A, B, falling).unwrap();
    assert_eq!(block.operand(num(3.0)), num(4.0));
    assert_eq!(block.operand(num(21.0)), num(20.0));
    let counts = AnalogInput::<i64>::new("ai", A, B, scaling()).unwrap();
    assert_eq!(counts.operand(12), num(12.0));
    assert_eq!(counts.operand(-7), num(4.0));
}

#[test]
fn quality_reports_the_range() {
    let outside = Quality::Uncertain(QualityReason::OutOfRange);
    assert_eq!(judge_range(Quality::Good, num(5.0), num(5.0)), Quality::Good);
    assert_eq!(judge_range(Quality::Good, num(3.0), num(4.0)), outside);
    assert_eq!(judge_range(LOST, num(3.0), num(4.0)), LOST);
    assert_eq!(judge_range(LOST, num(f64::NAN), num(f64::NAN)), FAULT);
    let block = AnalogOutput::<Float>::new("ao", A, B, scaling()).unwrap();
    let write = block.step(good(130.0), num(20.0), Tick(1));
    assert_eq!(write, Write::new(B, float(20.0), outside, Tick(1)));
    let write = block.step(read(50.0, STALE), num(12.0), Tick(1));
    assert_eq!(write, Write::new(B, float(12.0), STALE, Tick(1)));
}

#[test]
fn outputs_stay_in_the_raw_range() {
    let block = AnalogOutput::<Float>::new("ao", A, B, scaling()).unwrap();
    let write = block.step(good(100.0), num(20.000000000000004), Tick(1));
    assert_eq!(write.sample.value, float(20.0));
    let block = AnalogOutput::<i64>::new("ao", A, B, scaling()).unwrap();
    assert_eq!(block.step(good(2.0), num(4.32), Tick(1)).sample.value, Value::Int(4));
    assert_eq!(block.step(good(3.125), num(4.5), Tick(1)).sample.value, Value::Int(5));
    assert_eq!(block.step(good(200.0), num(36.0), Tick(1)).sample.value, Value::Int(20));
}

#[test]
fn output_checkpoint_round_trip() {
    let mut block = AnalogOutput::<Float>::new("ao", A, B, scaling()).unwrap();
    block.apply_parameter("eng_max", Value::Int(50)).unwrap();
    let mut standby = AnalogOutput::<Float>::new("ao", A, B, scaling()).unwrap();
    standby.restore_state(&block.capture_state()).unwrap();
    assert_eq!(standby.scaling(), Scaling { eng_max: num(50.0), ..scaling() });
}

fn selector(unhealthy: Option<PointId>) -> FailoverSelect {
    FailoverSelect::new("fs", A, B, C, D, unhealthy)
}

#[test]
fn healthy_primary_serves() {
    for backup in [good(9.0), read(9.0, LOST), good(f64::NAN)] {
        assert_eq!(
            selector(None).step(good(1.0), backup, Tick(1)),
            [
                Write::new(C, float(1.0), Quality::Good, Tick(1)),
                Write::new(D, Value::Bool(false), Quality::Good, Tick(1)),
            ]
        );
    }
}

#[test]
fn failed_primary_hands_over() {
    for (backup, quality) in [(good(9.0), Quality::Good), (read(9.0, STALE), STALE)] {
        assert_eq!(
            selector(None).step(read(1.0, LOST), backup, Tick(1)),
            [
                Write::new(C, float(9.0), quality, Tick(1)),
                Write::new(D, Value::Bool(true), Quality::Good, Tick(1)),
            ]
        );
    }
}

#[test]
fn backup_health_is_independent() {
    for primary in [good(1.0), read(1.0, LOST)] {
        for (backup, unhealthy) in [(good(9.0), false), (read(9.0, STALE), true)] {
            let writes = selector(Some(E)).step(primary, backup, Tick(1));
            assert_eq!(writes[2], Write::new(E, Value::Bool(unhealthy), Quality::Good, Tick(1)));
            assert_eq!(writes[..2], selector(None).step(primary, backup, Tick(1)));
        }
    }
}

fn fallback(on_bad: FallbackResponse) -> DemandFallback {
    DemandFallback::new(
        "dfb",
        DemandFallbackIo { input: A, pv: B, out: C, fallback_active: D },
        DemandFallbackConfig { on_bad, fallback_flow: num(25.0), safe_flow: num(5.0) },
    )
    .unwrap()
}

#[test]
fn response_codes_read_back() {
    for response in
        [FallbackResponse::Hold, FallbackResponse::FallbackFlow, FallbackResponse::SafeFlow]
    {
        assert_eq!(FallbackResponse::decode(response.code()), Some(response));
    }
    assert_eq!(FallbackResponse::decode(3), None);
}

#[test]
fn trusted_measurement_passes_the_demand() {
    for (input, quality) in [
        (good(42.0), Quality::Good),
        (read(42.0, STALE), STALE),
        (good(f64::INFINITY), FAULT),
    ] {
        assert_eq!(
            fallback(FallbackResponse::SafeFlow).step(input, good(2.0), Tick(1)),
            [
                Write::new(C, Value::Float(input.value), quality, Tick(1)),
                Write::new(D, Value::Bool(false), Quality::Good, Tick(1)),
            ]
        );
    }
}

#[test]
fn untrusted_measurement_engages_the_response() {
    for (response, served) in [
        (FallbackResponse::Hold, 0.0),
        (FallbackResponse::FallbackFlow, 25.0),
        (FallbackResponse::SafeFlow, 5.0),
    ] {
        assert_eq!(
            fallback(response).step(good(42.0), read(2.0, LOST), Tick(1)),
            [
                Write::new(C, float(served), LOST, Tick(1)),
                Write::new(D, Value::Bool(true), Quality::Good, Tick(1)),
            ]
        );
    }
}

#[test]
fn hold_serves_the_last_trusted_demand() {
    let mut block = fallback(FallbackResponse::Hold);
    block.step(good(42.0), good(2.0), Tick(1));
    block.step(read(43.0, STALE), good(2.0), Tick(2));
    for tick in 3..6 {
        let writes = block.step(good(99.0), read(2.0, LOST), Tick(tick));
        assert_eq!(writes[0].sample.value, float(42.0));
    }
}

#[test]
fn fallback_does_not_latch() {
    let mut block = fallback(FallbackResponse::SafeFlow);
    block.step(good(42.0), read(2.0, LOST), Tick(1));
    let writes = block.step(good(42.0), good(2.0), Tick(2));
    assert_eq!(writes[0].sample.value, float(42.0));
    assert!(!held(&writes[1]));
}

#[test]
fn fallback_checkpoint_round_trip() {
    let mut block = fallback(FallbackResponse::Hold);
    block.step(good(42.0), good(2.0), Tick(1));
    block.apply_parameter("safe_flow", Value::Int(7)).unwrap();
    let mut standby = fallback(FallbackResponse::SafeFlow);
    standby.restore_state(&block.capture_state()).unwrap();
    assert_eq!(standby.capture_state(), block.capture_state());
    let writes = standby.step(good(1.0), read(2.0, LOST), Tick(2));
    assert_eq!(writes[0].sample.value, float(42.0));
}

/// Trim within 10 of zero, demand from 0 to 100.
fn sum(on_bad: BadTermResponse) -> FeedforwardSum {
    FeedforwardSum::new(
        "ffs",
        FeedforwardSumIo { ff: A, trim: B, out: C, clamped: D, fallback_active: E },
        FeedforwardSumConfig {
            trim_min: num(-10.0),
            trim_max: num(10.0),
            min_demand: num(0.0),
            max_demand: num(100.0),
            on_bad_ff: on_bad,
            on_bad_trim: on_bad,
        },
    )
    .unwrap()
}

/// Steps once and gives back the demand, `clamped` and `fallback_active`.
fn add(block: &mut FeedforwardSum, ff: Reading<Float>, trim: Reading<Float>) -> (f64, bool, bool) {
    let (first, second) = block.terms(ff, trim);
    let writes = block.step(ff, trim, num(f64_of(first) + f64_of(second)), Tick(1));
    match writes[0].sample.value {
        Value::Float(demand) => (f64_of(demand), held(&writes[1]), held(&writes[2])),
        other => panic!("{other:?}"),
    }
}

#[test]
fn term_codes_read_back() {
    for response in [BadTermResponse::Drop, BadTermResponse::Hold] {
        assert_eq!(BadTermResponse::decode(response.code()), Some(response));
    }
    assert_eq!(BadTermResponse::decode(2), None);
}

#[test]
fn trim_stays_in_its_authority() {
    let block = sum(BadTermResponse::Drop);
    for (trim, bounded) in [(-99.0, -10.0), (-10.0, -10.0), (3.0, 3.0), (99.0, 10.0)] {
        assert_eq!(block.terms(good(60.0), good(trim)), (num(60.0), num(bounded)));
    }
}

#[test]
fn demand_stays_in_bounds_and_reports_it() {
    let mut block = sum(BadTermResponse::Drop);
    assert_eq!(add(&mut block, good(200.0), good(5.0)), (100.0, true, false));
    assert_eq!(add(&mut block, good(-50.0), good(5.0)), (0.0, true, false));
    assert_eq!(add(&mut block, good(90.0), good(10.0)), (100.0, false, false));
    assert_eq!(add(&mut block, good(50.0), good(10.5)), (60.0, true, false));
}

#[test]
fn untrusted_terms_respond() {
    let mut block = sum(BadTermResponse::Drop);
    add(&mut block, good(60.0), good(5.0));
    assert_eq!(add(&mut block, read(61.0, LOST), good(5.0)), (5.0, false, true));
    assert_eq!(add(&mut block, good(61.0), read(6.0, STALE)), (61.0, false, true));
    let mut block = sum(BadTermResponse::Hold);
    assert_eq!(add(&mut block, read(60.0, LOST), read(5.0, LOST)), (0.0, false, true));
    add(&mut block, good(60.0), good(5.0));
    assert_eq!(add(&mut block, read(61.0, LOST), read(6.0, LOST)), (65.0, false, true));
}

#[test]
fn terms_respond_independently() {
    let mut block = sum(BadTermResponse::Hold);
    add(&mut block, good(60.0), good(5.0));
    add(&mut block, read(1.0, LOST), good(7.0));
    assert_eq!(add(&mut block, read(1.0, LOST), read(1.0, LOST)), (67.0, false, true));
}

#[test]
fn responses_do_not_latch() {
    let mut block = sum(BadTermResponse::Hold);
    add(&mut block, read(60.0, LOST), good(5.0));
    assert_eq!(add(&mut block, good(70.0), good(5.0)), (75.0, false, false));
    add(&mut block, good(70.0), read(5.0, LOST));
    assert_eq!(add(&mut block, good(70.0), good(6.0)), (76.0, false, false));
}

#[test]
fn sum_checkpoint_round_trip() {
    let mut block = sum(BadTermResponse::Hold);
    add(&mut block, good(60.0), good(5.0));
    block.apply_parameter("max_demand", Value::Int(64)).unwrap();
    let mut standby = sum(BadTermResponse::Drop);
    standby.restore_state(&block.capture_state()).unwrap();
    assert_eq!(standby.capture_state(), block.capture_state());
    assert_eq!(add(&mut standby, read(0.0, LOST), read(0.0, LOST)), (64.0, true, true));
}

fn window(ticks: u64) -> DeviationMonitor {
    DeviationMonitor::new("dev", A, B, C, D, num(0.1), ticks).unwrap()
}

/// Steps once and gives back the deviation and the verdict.
fn bank(block: &mut DeviationMonitor, expected: f64, measured: Reading<Float>) -> (f64, bool) {
    let sums = block.sums();
    let expected_sum = f64_of(sums.expected) + expected;
    let measured_sum = f64_of(sums.measured) + f64_of(measured.value);
    let banked = WindowSums { expected: num(expected_sum), measured: num(measured_sum) };
    let quotient = (measured_sum - expected_sum) / expected_sum;
    let writes = block.step(good(expected), measured, banked, num(quotient), Tick(1));
    match writes[0].sample.value {
        Value::Float(deviation) => (f64_of(deviation), held(&writes[1])),
        other => panic!("{other:?}"),
    }
}

#[test]
fn untrusted_scans_freeze_the_window() {
    let mut block = window(3);
    bank(&mut block, 10.0, good(12.0));
    let before = block.capture_state();
    for measured in [read(12.0, STALE), good(f64::NAN), good(f64::INFINITY)] {
        bank(&mut block, 10.0, measured);
        assert_eq!(block.capture_state(), before);
    }
    // A sum that would overflow is not banked either.
    bank(&mut block, f64::MAX, good(f64::MAX));
    let before = block.capture_state();
    bank(&mut block, f64::MAX, good(f64::MAX));
    assert_eq!(block.capture_state(), before);
}

#[test]
fn windows_close_on_time() {
    let mut block = window(3);
    assert_eq!(bank(&mut block, 10.0, good(15.0)), (0.0, false));
    assert_eq!(bank(&mut block, 10.0, good(15.0)), (0.0, false));
    assert_eq!(bank(&mut block, 10.0, good(15.0)), (0.5, true));
    assert_eq!(bank(&mut block, 10.0, good(10.0)), (0.5, true));
    assert_eq!(block.sums(), WindowSums { expected: num(10.0), measured: num(10.0) });
}

#[test]
fn window_of_one_is_instantaneous() {
    let mut block = window(1);
    assert_eq!(bank(&mut block, 10.0, good(15.0)), (0.5, true));
    assert_eq!(bank(&mut block, 10.0, good(10.0)), (0.0, false));
    assert_eq!(bank(&mut block, 10.0, good(5.0)), (-0.5, true));
}

#[test]
fn unexpected_consumption_trips() {
    assert_eq!(bank(&mut window(1), 0.0, good(0.0)), (0.0, false));
    assert_eq!(bank(&mut window(1), 0.0, good(0.001)), (f64::MAX, true));
    assert_eq!(bank(&mut window(1), 0.0, good(-0.001)), (f64::MIN, true));
}

#[test]
fn saturation_keeps_the_sign() {
    let sums = WindowSums { expected: num(1e-300), measured: num(1e300) };
    assert_eq!(relative_deviation(sums, num(f64::INFINITY)), num(f64::MAX));
    assert_eq!(relative_deviation(sums, num(f64::NEG_INFINITY)), num(f64::MIN));
    assert_eq!(relative_deviation(sums, num(0.25)), num(0.25));
}

#[test]
fn retunes_keep_the_window() {
    let mut block = window(3);
    bank(&mut block, 10.0, good(15.0));
    let sums = block.sums();
    block.apply_parameter("window_ticks", Value::Int(2)).unwrap();
    assert_eq!(block.sums(), sums);
    assert_eq!(bank(&mut block, 10.0, good(15.0)), (0.5, true));
}

#[test]
fn window_checkpoint_round_trip() {
    let mut block = window(3);
    bank(&mut block, 10.0, good(15.0));
    let mut standby = window(9);
    standby.restore_state(&block.capture_state()).unwrap();
    assert_eq!(standby.capture_state(), block.capture_state());
    bank(&mut standby, 10.0, good(15.0));
    assert_eq!(bank(&mut standby, 10.0, good(15.0)), (0.5, true));
}

#[test]
fn retunes_keep_the_held_demand() {
    let mut block = fallback(FallbackResponse::SafeFlow);
    block.step(good(42.0), good(2.0), Tick(1));
    block.apply_parameter("on_bad", Value::Int(0)).unwrap();
    let writes = block.step(good(99.0), read(2.0, LOST), Tick(2));
    assert_eq!(writes[0].sample.value, float(42.0));
}

#[test]
fn retunes_keep_the_held_terms() {
    let mut block = sum(BadTermResponse::Drop);
    add(&mut block, good(40.0), good(6.0));
    block.apply_parameter("on_bad_ff", Value::Int(1)).unwrap();
    block.apply_parameter("on_bad_trim", Value::Int(1)).unwrap();
    assert_eq!(add(&mut block, read(1.0, LOST), read(1.0, LOST)), (46.0, false, true));
}

/// A window shortened below its position is taken over, and closes at the
/// next banked scan; a position past an empty window is refused.
#[test]
fn shortened_windows_are_taken_over() {
    let mut block = window(4);
    for _ in 0..3 {
        bank(&mut block, 10.0, good(12.0));
    }
    block.apply_parameter("window_ticks", Value::Int(1)).unwrap();
    let state = block.capture_state();
    assert_eq!(state.get("window_position"), Some(Value::Int(3)));
    assert_eq!(state.get("expected_sum"), Some(float(30.0)));
    let mut standby = window(4);
    standby.restore_state(&state).unwrap();
    assert_eq!(standby.capture_state(), state);
    let closed = bank(&mut standby, 10.0, good(12.0));
    assert_eq!(closed, bank(&mut block, 10.0, good(12.0)));
    assert_eq!(closed, (8.0 / 40.0, true));
    assert_eq!(standby.capture_state().get("window_position"), Some(Value::Int(0)));

    for position in [-1, 4, i64::MAX] {
        let mut bad = window(4).capture_state();
        bad.insert("window_position", Value::Int(position));
        assert!(standby.restore_state(&bad).is_err(), "{position}");
    }
}
