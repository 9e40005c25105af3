use dcs_blocks::{
    AdvanceMode, AutoStart, BackwashSequence, BackwashSequenceConfig, BackwashSequenceInputs,
    BackwashSequenceOutputs, BackwashStep, CommandError, FaultPolicy, Float, OverrunPolicy,
    PointId, Quality, QualityReason, Reading, SequenceReadings, StateError, Tick, Value,
};

const STALE: Quality = Quality::Uncertain(QualityReason::Stale);

fn num(value: f64) -> Float {
    Float::from_bits(value.to_bits())
}

fn good(value: bool) -> Reading<bool> {
    Reading { value, quality: Quality::Good }
}

fn step(advance: AdvanceMode, ticks: u64, on_overrun: OverrunPolicy) -> BackwashStep {
    let measured = advance != AdvanceMode::Timed;
    BackwashStep {
        ticks,
        value: num(ticks as f64),
        advance,
        bound: if measured { Some(num(50.0)) } else { None },
        meas: if measured { Some(0) } else { None },
        on_overrun,
    }
}

/// Three scans, then a measured step with a timeout of two, then one scan.
fn sequence(auto_start: AutoStart, on_fault_policy: FaultPolicy) -> BackwashSequence {
    built(
        vec![
            step(AdvanceMode::Timed, 3, OverrunPolicy::Advance),
            step(AdvanceMode::Measured, 2, OverrunPolicy::Hold),
            step(AdvanceMode::Timed, 1, OverrunPolicy::Advance),
        ],
        auto_start,
        on_fault_policy,
    )
}

fn over(steps: Vec<BackwashStep>) -> BackwashSequence {
    built(steps, AutoStart::Direct, FaultPolicy::Hold)
}

fn wiring() -> (BackwashSequenceInputs, BackwashSequenceOutputs) {
    (
        BackwashSequenceInputs {
            trig_time: PointId(1),
            trig_headloss: PointId(2),
            trig_turbidity: PointId(3),
            trig_operator: PointId(4),
            grant: PointId(5),
            abort: PointId(6),
            fault: PointId(7),
            meas: vec![PointId(8)],
        },
        BackwashSequenceOutputs {
            request: PointId(11),
            active: PointId(12),
            pending: PointId(13),
            done: PointId(14),
            aborted: PointId(15),
            overrun: PointId(16),
            trigger_source: PointId(17),
            step: PointId(18),
            out: PointId(19),
            phases: vec![PointId(21), PointId(22), PointId(23)],
        },
    )
}

fn built(
    steps: Vec<BackwashStep>,
    auto_start: AutoStart,
    on_fault_policy: FaultPolicy,
) -> BackwashSequence {
    let (inputs, outputs) = wiring();
    BackwashSequence::new(
        "bws",
        inputs,
        outputs,
        steps,
        BackwashSequenceConfig { auto_start, abort_step: 2, on_fault_step: 1, on_fault_policy },
    )
    .unwrap()
}

/// What a scan drives.
#[derive(Debug, Clone, PartialEq)]
struct Driven {
    request: bool,
    active: bool,
    pending: bool,
    done: bool,
    aborted: bool,
    overrun: bool,
    source: i64,
    step: i64,
    out: Value,
    phases: Vec<bool>,
    quality: Quality,
}

struct Rig {
    block: BackwashSequence,
    meas: Reading<Float>,
}

/// What the control inputs read: released unless said otherwise, granted.
fn idle() -> SequenceReadings {
    SequenceReadings {
        trig_time: good(false),
        trig_headloss: good(false),
        trig_turbidity: good(false),
        trig_operator: good(false),
        grant: good(true),
        abort: good(false),
        fault: good(false),
    }
}

fn boolean(value: Value) -> bool {
    value == Value::Bool(true)
}

fn integer(value: Value) -> i64 {
    match value {
        Value::Int(value) => value,
        other => panic!("{other:?}"),
    }
}

impl Rig {
    fn new(auto_start: AutoStart, on_fault_policy: FaultPolicy) -> Rig {
        Rig {
            block: sequence(auto_start, on_fault_policy),
            meas: Reading { value: num(0.0), quality: Quality::Good },
        }
    }

    fn direct() -> Rig {
        Rig::new(AutoStart::Direct, FaultPolicy::Hold)
    }

    /// A run that the elapsed time has armed, in its first scan.
    fn armed(on_fault_policy: FaultPolicy) -> Rig {
        let mut rig = Rig::new(AutoStart::Direct, on_fault_policy);
        let driven = rig.scan(SequenceReadings { trig_time: good(true), ..idle() });
        assert!(driven.request && driven.active && driven.step == 1);
        rig
    }

    fn scan(&mut self, readings: SequenceReadings) -> Driven {
        let meas = self.block.measured_input(&readings).map(|_| self.meas);
        let writes = self.block.step(&readings, meas, Tick(7));
        assert_eq!(writes.len(), 12);
        for (index, write) in writes.iter().enumerate() {
            assert_eq!(write.sample.quality, writes[0].sample.quality);
            assert_eq!(write.sample.tick, Tick(7));
            let point = if index < 9 { 11 + index as u64 } else { 12 + index as u64 };
            assert_eq!(write.point, PointId(point));
        }
        let value = |index: usize| writes[index].sample.value;
        Driven {
            request: boolean(value(0)),
            active: boolean(value(1)),
            pending: boolean(value(2)),
            done: boolean(value(3)),
            aborted: boolean(value(4)),
            overrun: boolean(value(5)),
            source: integer(value(6)),
            step: integer(value(7)),
            out: value(8),
            phases: (9..12).map(|index| boolean(value(index))).collect(),
            quality: writes[0].sample.quality,
        }
    }
}

#[test]
fn sequence_codes_read_back() {
    for advance in [AdvanceMode::Timed, AdvanceMode::Measured, AdvanceMode::FirstOf] {
        assert_eq!(AdvanceMode::decode(advance.code()), Some(advance));
    }
    for policy in [OverrunPolicy::Advance, OverrunPolicy::Hold] {
        assert_eq!(OverrunPolicy::decode(policy.code()), Some(policy));
    }
    for start in [AutoStart::Direct, AutoStart::Pending] {
        assert_eq!(AutoStart::decode(start.code()), Some(start));
    }
    for policy in [FaultPolicy::Hold, FaultPolicy::Abort] {
        assert_eq!(FaultPolicy::decode(policy.code()), Some(policy));
    }
    assert_eq!(AdvanceMode::decode(3), None);
    assert_eq!(OverrunPolicy::decode(2), None);
    assert_eq!(AutoStart::decode(-1), None);
    assert_eq!(FaultPolicy::decode(2), None);
}

/// Runs every combination of the control inputs, in an order that walks
/// through arming, running, faults and aborts.
#[test]
fn every_scan_reports_one_phase_and_one_end() {
    for start in [AutoStart::Direct, AutoStart::Pending] {
        for policy in [FaultPolicy::Hold, FaultPolicy::Abort] {
            let mut rig = Rig::new(start, policy);
            for round in 0..512u32 {
                let bits = round.wrapping_mul(37) % 128;
                let set = |bit: u32| good(bits & (1 << bit) != 0);
                rig.meas.value = num(if round % 3 == 0 { 60.0 } else { 0.0 });
                let driven = rig.scan(SequenceReadings {
                    trig_time: set(0),
                    trig_headloss: set(1),
                    trig_turbidity: set(2),
                    trig_operator: set(3),
                    grant: good(round % 5 != 0),
                    abort: good(bits % 23 == 1),
                    fault: good(bits % 19 == 1),
                });
                let asserted: Vec<i64> =
                    (1..=3).filter(|n| driven.phases[*n as usize - 1]).collect();
                assert_eq!(asserted, [driven.step]);
                assert!(!(driven.done && driven.aborted));
                assert!(!driven.request || (!driven.done && !driven.aborted));
                assert!(!driven.pending || !driven.request);
                // The checkpoint of every state is one that is taken over.
                let state = rig.block.capture_state();
                let mut standby = sequence(start, policy);
                standby.restore_state(&state).unwrap();
                assert_eq!(standby.capture_state(), state);
            }
        }
    }
}

#[test]
fn runs_are_reported() {
    let mut rig = Rig::armed(FaultPolicy::Hold);
    rig.meas.value = num(60.0);
    for _ in 0..3 {
        rig.scan(idle());
    }
    // The completing scan still steps, reports its step and drops the
    // request.
    assert_eq!(
        rig.scan(idle()),
        Driven {
            request: false,
            active: true,
            pending: false,
            done: true,
            aborted: false,
            overrun: false,
            source: 1,
            step: 3,
            out: Value::Float(num(1.0)),
            phases: vec![false, false, true],
            quality: Quality::Good,
        }
    );
    assert!(!rig.scan(idle()).active);
}

#[test]
fn requests_stand_to_the_end() {
    let mut rig = Rig::armed(FaultPolicy::Hold);
    rig.meas.value = num(60.0);
    let requests: Vec<bool> = (0..5).map(|_| rig.scan(idle()).request).collect();
    assert_eq!(requests, [true, true, true, false, false]);
    let mut rig = Rig::armed(FaultPolicy::Hold);
    assert!(rig.scan(SequenceReadings { fault: good(true), ..idle() }).request);
    let driven = rig.scan(SequenceReadings { abort: good(true), ..idle() });
    assert!(!driven.request && driven.aborted);
}

#[test]
fn steps_end_by_their_mode() {
    for (advance, policy, meets, ends_after) in [
        (AdvanceMode::Timed, OverrunPolicy::Advance, false, 4),
        (AdvanceMode::Measured, OverrunPolicy::Advance, false, 4),
        (AdvanceMode::Measured, OverrunPolicy::Advance, true, 1),
        (AdvanceMode::Measured, OverrunPolicy::Hold, true, 1),
        (AdvanceMode::FirstOf, OverrunPolicy::Advance, false, 4),
        (AdvanceMode::FirstOf, OverrunPolicy::Hold, true, 1),
    ] {
        let mut rig = Rig::direct();
        rig.block = over(vec![
            step(advance, 4, policy),
            step(AdvanceMode::Timed, 1, OverrunPolicy::Advance),
            step(AdvanceMode::Timed, 1, OverrunPolicy::Advance),
        ]);
        rig.meas.value = num(if meets { 50.0 } else { 49.9 });
        let mut scans = 1;
        rig.scan(SequenceReadings { trig_time: good(true), ..idle() });
        while rig.scan(idle()).step == 1 {
            scans += 1;
        }
        assert_eq!(scans, ends_after, "{advance:?} {policy:?}");
    }
}

#[test]
fn abort_dominates() {
    let mut rig = Rig::armed(FaultPolicy::Hold);
    let driven = rig.scan(SequenceReadings { abort: good(true), fault: good(true), ..idle() });
    assert!(driven.aborted && !driven.request && !driven.done);
    assert_eq!(driven.step, 3);
    // With no run it cancels a waiting trigger, and no edge counts.
    let mut rig = Rig::new(AutoStart::Pending, FaultPolicy::Hold);
    assert!(rig.scan(SequenceReadings { trig_headloss: good(true), ..idle() }).pending);
    let driven = rig.scan(SequenceReadings {
        abort: good(true),
        trig_operator: good(true),
        ..idle()
    });
    assert!(!driven.pending && !driven.request && !driven.aborted);
}

#[test]
fn standing_triggers_do_not_arm() {
    let mut rig = Rig::armed(FaultPolicy::Hold);
    rig.meas.value = num(60.0);
    let standing = SequenceReadings { trig_time: good(true), ..idle() };
    for _ in 0..4 {
        rig.scan(standing);
    }
    let driven = rig.scan(standing);
    assert!(driven.done && !driven.request);
    assert!(!rig.scan(standing).request);
    rig.scan(idle());
    assert!(rig.scan(standing).request);
}

#[test]
fn untrusted_inputs_do_not_act() {
    let untrusted = Reading { value: true, quality: STALE };
    let mut rig = Rig::direct();
    let driven = rig.scan(SequenceReadings {
        trig_time: untrusted,
        trig_headloss: untrusted,
        trig_turbidity: untrusted,
        trig_operator: untrusted,
        ..idle()
    });
    assert!(!driven.request);
    assert_eq!(driven.quality, STALE);
    let mut rig = Rig::armed(FaultPolicy::Hold);
    let driven = rig.scan(SequenceReadings { abort: untrusted, fault: untrusted, ..idle() });
    assert!(driven.request && driven.active && !driven.aborted);
    let driven = rig.scan(SequenceReadings { grant: untrusted, ..idle() });
    assert!(driven.request && !driven.active);
}

#[test]
fn untrusted_measurements_satisfy_nothing() {
    let mut rig = Rig::armed(FaultPolicy::Hold);
    rig.meas = Reading { value: num(60.0), quality: STALE };
    for _ in 0..2 {
        rig.scan(idle());
    }
    for _ in 0..3 {
        assert_eq!(rig.scan(idle()).step, 2);
    }
    rig.meas.quality = Quality::Good;
    rig.scan(idle());
    assert_eq!(rig.scan(idle()).step, 3);
}

#[test]
fn no_grant_holds_the_table() {
    let mut rig = Rig::armed(FaultPolicy::Hold);
    let before = rig.block.capture_state();
    for _ in 0..5 {
        let driven = rig.scan(SequenceReadings { grant: good(false), ..idle() });
        assert!(driven.request && !driven.active);
    }
    assert_eq!(rig.block.capture_state().get("elapsed"), before.get("elapsed"));
    assert_eq!(rig.block.capture_state().get("step"), before.get("step"));
}

#[test]
fn arming_takes_the_attribution() {
    let mut rig = Rig::direct();
    let driven = rig.scan(SequenceReadings { trig_turbidity: good(true), ..idle() });
    assert_eq!((driven.step, driven.source), (1, 3));
    rig.meas.value = num(60.0);
    for _ in 0..8 {
        assert_eq!(rig.scan(idle()).source, 3);
    }
    let driven = rig.scan(SequenceReadings { trig_operator: good(true), ..idle() });
    assert_eq!((driven.step, driven.source, driven.done), (1, 4, false));
}

#[test]
fn arming_sources() {
    for (first, source) in [(1, 1), (2, 2), (3, 3), (4, 4)] {
        let readings = SequenceReadings {
            trig_time: good(first <= 1),
            trig_headloss: good(first <= 2),
            trig_turbidity: good(first <= 3),
            trig_operator: good(true),
            ..idle()
        };
        assert_eq!(Rig::direct().scan(readings).source, source);
        // Where automatic triggers wait, the operator's edge arms as itself.
        let mut rig = Rig::new(AutoStart::Pending, FaultPolicy::Hold);
        assert_eq!(rig.scan(readings).source, 4);
    }
    let mut rig = Rig::new(AutoStart::Pending, FaultPolicy::Hold);
    let driven = rig.scan(SequenceReadings { trig_headloss: good(true), ..idle() });
    assert!(driven.pending && !driven.request);
    let driven = rig.scan(SequenceReadings { trig_operator: good(true), ..idle() });
    assert!(driven.request && !driven.pending);
    assert_eq!(driven.source, 2);
}

#[test]
fn running_ignores_edges() {
    let mut rig = Rig::armed(FaultPolicy::Hold);
    let driven = rig.scan(SequenceReadings { trig_headloss: good(true), ..idle() });
    assert_eq!((driven.step, driven.source), (1, 1));
    let driven = rig.scan(SequenceReadings { trig_operator: good(true), ..idle() });
    assert_eq!((driven.step, driven.source), (1, 1));
    assert_eq!(rig.scan(idle()).step, 2);
}

#[test]
fn held_fault_keeps_the_grant() {
    let mut rig = Rig::armed(FaultPolicy::Hold);
    let driven = rig.scan(SequenceReadings { fault: good(true), ..idle() });
    assert!(driven.request && !driven.active && !driven.aborted);
    assert_eq!(driven.step, 2);
    assert_eq!(rig.block.capture_state().get("fault_hold"), Some(Value::Bool(true)));
}

#[test]
fn aborting_fault_drops_the_request() {
    let mut rig = Rig::armed(FaultPolicy::Abort);
    let driven = rig.scan(SequenceReadings { fault: good(true), ..idle() });
    assert!(!driven.request && driven.aborted);
    assert_eq!(driven.step, 3);
}

#[test]
fn held_fault_waits_for_the_operator() {
    let mut rig = Rig::armed(FaultPolicy::Hold);
    rig.scan(SequenceReadings { fault: good(true), ..idle() });
    assert!(!rig.scan(idle()).active);
    // The operator's edge does not count while the fault stands.
    let pressed = SequenceReadings { trig_operator: good(true), ..idle() };
    assert!(!rig.scan(SequenceReadings { fault: good(true), ..pressed }).active);
    assert!(!rig.scan(pressed).active);
    rig.scan(idle());
    assert!(rig.scan(pressed).active);
}

#[test]
fn held_overrun_waits_for_its_bound() {
    let mut rig = Rig::armed(FaultPolicy::Hold);
    rig.scan(idle());
    rig.scan(idle());
    let overruns: Vec<bool> = (0..6).map(|_| rig.scan(idle()).overrun).collect();
    assert_eq!(overruns, [false, true, true, true, true, true]);
    assert_eq!(rig.block.capture_state().get("elapsed"), Some(Value::Int(2)));
    rig.meas.value = num(50.0);
    assert!(!rig.scan(idle()).overrun);
    assert_eq!(rig.scan(idle()).step, 3);
}

#[test]
fn timed_steps_last_their_duration() {
    let mut rig = Rig::armed(FaultPolicy::Hold);
    assert_eq!(rig.scan(idle()).step, 1);
    assert_eq!(rig.scan(idle()).step, 1);
    assert_eq!(rig.scan(idle()).step, 2);
    rig.meas.value = num(60.0);
    assert_eq!(rig.scan(idle()).step, 2);
    let driven = rig.scan(idle());
    assert!(driven.done && !driven.request);
    assert_eq!((driven.step, driven.out), (3, Value::Float(num(1.0))));
    assert_eq!(rig.scan(idle()).step, 3);
}

#[test]
fn entry_names_read_back() {
    let mut rig = Rig::direct();
    for (name, value) in [
        ("step_1_ticks", Value::Int(9)),
        ("step_2_bound", Value::Float(num(7.5))),
        ("step_3_out", Value::Float(num(-2.0))),
    ] {
        rig.block.apply_parameter(name, value).unwrap();
        assert_eq!(rig.block.report_parameters().get(name), Some(value));
    }
    for name in ["step_0_ticks", "step_4_ticks", "step__ticks", "step_1_", "step_1_dwell"] {
        assert!(rig.block.apply_parameter(name, Value::Int(1)).is_err(), "{name}");
    }
}

#[test]
fn sequence_checkpoint_round_trip() {
    let mut rig = Rig::armed(FaultPolicy::Hold);
    rig.block.apply_parameter("step_2_bound", Value::Int(70)).unwrap();
    rig.scan(idle());
    let mut standby = Rig::direct();
    standby.block.restore_state(&rig.block.capture_state()).unwrap();
    for round in 0..10 {
        rig.meas.value = num(10.0 * round as f64);
        standby.meas = rig.meas;
        assert_eq!(standby.scan(idle()), rig.scan(idle()));
    }
    assert_eq!(standby.block.capture_state(), rig.block.capture_state());
}

#[test]
fn outputs_carry_the_worst() {
    let mut rig = Rig::armed(FaultPolicy::Hold);
    let late = |value: bool| Reading { value, quality: STALE };
    for readings in [
        SequenceReadings { trig_time: late(false), ..idle() },
        SequenceReadings { trig_headloss: late(false), ..idle() },
        SequenceReadings { trig_turbidity: late(false), ..idle() },
        SequenceReadings { trig_operator: late(false), ..idle() },
        SequenceReadings { grant: late(true), ..idle() },
        SequenceReadings { abort: late(true), ..idle() },
        SequenceReadings { fault: late(true), ..idle() },
    ] {
        assert_eq!(rig.scan(readings).quality, STALE);
    }
    let mut rig = Rig::armed(FaultPolicy::Hold);
    rig.scan(idle());
    assert_eq!(rig.scan(idle()).quality, Quality::Good);
    // The measured step reads its input too.
    rig.meas.quality = Quality::Bad(QualityReason::DeviceFault);
    assert_eq!(rig.scan(idle()).quality, Quality::Bad(QualityReason::DeviceFault));
}

#[test]
fn retunes_keep_the_run() {
    let mut rig = Rig::armed(FaultPolicy::Hold);
    rig.scan(idle());
    let before = rig.block.capture_state();
    for (name, value) in [
        ("step_3_out", Value::Float(num(8.0))),
        ("step_2_ticks", Value::Int(9)),
        ("step_2_bound", Value::Float(num(7.5))),
        ("abort_step", Value::Int(1)),
        ("auto_start", Value::Int(1)),
        ("on_fault_policy", Value::Int(1)),
    ] {
        rig.block.apply_parameter(name, value).unwrap();
        let after = rig.block.capture_state();
        for field in ["step", "elapsed", "request", "trigger_source", "trigger_held"] {
            assert_eq!(after.get(field), before.get(field), "{name}: {field}");
        }
    }
    // Two scans are banked in the first step: a duration of one clamps them,
    // and the next scan ends the step.
    rig.block.apply_parameter("step_1_ticks", Value::Int(1)).unwrap();
    assert_eq!(rig.scan(idle()).step, 1);
    assert_eq!(rig.scan(idle()).step, 2);
}

#[test]
fn the_shape_is_fixed() {
    let mut rig = Rig::direct();
    let state = rig.block.capture_state();
    for name in ["step_count", "step_2_advance", "step_2_meas", "step_2_on_overrun"] {
        match rig.block.apply_parameter(name, Value::Int(1)) {
            Err(CommandError::InvalidParameter { parameter, .. }) => assert_eq!(parameter, name),
            told => panic!("{told:?}"),
        }
    }
    assert_eq!(rig.block.capture_state(), state);
}

fn fault(value: bool) -> SequenceReadings {
    SequenceReadings { fault: good(value), ..idle() }
}

/// A fault that stood before the run does not park it; once it has cleared,
/// its next rise does.
#[test]
fn standing_faults_do_not_act() {
    for policy in [FaultPolicy::Hold, FaultPolicy::Abort] {
        let mut rig = Rig::new(AutoStart::Direct, policy);
        rig.scan(fault(true));
        let driven = rig.scan(SequenceReadings { trig_time: good(true), ..fault(true) });
        assert!(driven.request && driven.active);
        // The standby remembers the standing fault too.
        let mut standby = Rig::new(AutoStart::Direct, policy);
        standby.block.restore_state(&rig.block.capture_state()).unwrap();
        for rig in [&mut rig, &mut standby] {
            let driven = rig.scan(fault(true));
            assert_eq!((driven.step, driven.request, driven.active), (1, true, true));
            rig.scan(fault(false));
            let driven = rig.scan(fault(true));
            assert!(!driven.active);
            assert_eq!(driven.request, policy == FaultPolicy::Hold);
            assert_eq!(driven.aborted, policy == FaultPolicy::Abort);
        }
    }
}

#[test]
fn untrusted_faults_count_as_released() {
    let mut rig = Rig::direct();
    rig.scan(fault(true));
    let arming = SequenceReadings { trig_time: good(true), ..fault(true) };
    assert!(rig.scan(arming).active);
    let lost = Reading { value: true, quality: STALE };
    assert!(rig.scan(SequenceReadings { fault: lost, ..idle() }).active);
    // It has recovered, so it rises.
    assert!(!rig.scan(fault(true)).active);
}

#[test]
fn arming_does_not_hide_a_fault() {
    let mut rig = Rig::direct();
    rig.scan(idle());
    let driven = rig.scan(SequenceReadings { trig_time: good(true), ..fault(true) });
    assert_eq!((driven.step, driven.active), (1, true));
    let driven = rig.scan(fault(true));
    assert_eq!((driven.step, driven.request, driven.active), (2, true, false));
}

/// A checkpoint that says nothing of the fault takes it as released.
#[test]
fn checkpoints_without_the_fault_are_taken() {
    let mut rig = Rig::direct();
    rig.scan(fault(true));
    let state = rig.block.capture_state();
    assert_eq!(state.get("fault_seen"), Some(Value::Bool(true)));
    let mut shorter = state.clone();
    shorter.remove("fault_seen");
    let mut standby = Rig::direct();
    standby.block.restore_state(&shorter).unwrap();
    let restored = standby.block.capture_state();
    assert_eq!(restored.get("fault_seen"), Some(Value::Bool(false)));
}

/// A held fault and an abort stand under a retune of where they lead, and a
/// standby takes them over.
#[test]
fn retuned_stands_are_taken_over() {
    let mut rig = Rig::armed(FaultPolicy::Hold);
    let driven = rig.scan(fault(true));
    assert_eq!((driven.step, driven.active), (2, false));
    for (name, value) in [("on_fault_step", 1), ("on_fault_policy", 1), ("abort_step", 1)] {
        rig.block.apply_parameter(name, Value::Int(value)).unwrap();
        let state = rig.block.capture_state();
        assert_eq!(state.get("fault_hold"), Some(Value::Bool(true)));
        assert_eq!(state.get("step"), Some(Value::Int(2)));
        let mut standby = Rig::direct();
        standby.block.restore_state(&state).unwrap();
        assert_eq!(standby.block.capture_state(), state);
        assert_eq!(standby.scan(fault(true)).step, 2);
    }
    let mut rig = Rig::armed(FaultPolicy::Hold);
    rig.scan(SequenceReadings { abort: good(true), ..idle() });
    rig.block.apply_parameter("abort_step", Value::Int(1)).unwrap();
    let state = rig.block.capture_state();
    assert_eq!(state.get("aborted"), Some(Value::Bool(true)));
    assert_eq!(state.get("step"), Some(Value::Int(3)));
    let mut standby = Rig::direct();
    standby.block.restore_state(&state).unwrap();
    assert_eq!(standby.block.capture_state(), state);
}

#[test]
fn holds_without_a_run_are_refused() {
    let mut rig = Rig::direct();
    let mut state = rig.block.capture_state();
    state.insert("fault_hold", Value::Bool(true));
    match rig.block.restore_state(&state) {
        Err(StateError::InvalidValue { field, .. }) => assert_eq!(field, "fault_hold"),
        told => panic!("{told:?}"),
    }
    let mut state = Rig::armed(FaultPolicy::Hold).block.capture_state();
    state.insert("aborted", Value::Bool(true));
    match rig.block.restore_state(&state) {
        Err(StateError::InvalidValue { field, .. }) => assert_eq!(field, "aborted"),
        told => panic!("{told:?}"),
    }
}

/// Walks through every combination of the inputs, with retunes between.
#[test]
fn status_is_driven_by_rule() {
    for start in [AutoStart::Direct, AutoStart::Pending] {
        let mut rig = Rig::new(start, FaultPolicy::Hold);
        for round in 0..1024u32 {
            let bits = round.wrapping_mul(73) % 256;
            let set = |bit: u32| good(bits & (1 << bit) != 0);
            if round % 17 == 0 {
                let policy = Value::Int(i64::from(round % 2));
                rig.block.apply_parameter("on_fault_policy", policy).unwrap();
            }
            rig.meas.value = num(if round % 3 == 0 { 60.0 } else { 0.0 });
            let driven = rig.scan(SequenceReadings {
                trig_time: set(0),
                trig_headloss: set(1),
                trig_turbidity: set(2),
                trig_operator: set(3),
                grant: good(round % 5 != 0),
                abort: good(bits % 29 == 1),
                fault: set(4),
            });
            assert!(!(driven.request && (driven.done || driven.aborted || driven.pending)));
            assert!(!(driven.done && driven.aborted));
            assert!(!driven.active || driven.request || driven.done);
            assert!(!driven.overrun || driven.active);
            assert!(!driven.done || driven.step == 3);
            assert!((0..=4).contains(&driven.source));
            assert!(!driven.request || driven.source != 0);
        }
    }
}

/// What is reported rebuilds the same table, and is what is described.
#[test]
fn reports_rebuild_the_table() {
    let mut rig = Rig::new(AutoStart::Pending, FaultPolicy::Abort);
    rig.block.apply_parameter("step_2_bound", Value::Float(num(7.5))).unwrap();
    let reported = rig.block.report_parameters();
    let described = rig.block.describe();
    let mut rest = reported.clone();
    for parameter in &described.parameters {
        assert!(reported.get(&parameter.name).is_some(), "{}", parameter.name);
        rest.remove(&parameter.name);
    }
    assert!(rest.is_empty());
    let (inputs, outputs) = wiring();
    let rebuilt = BackwashSequence::from_parameters("bws", inputs, outputs, &reported).unwrap();
    assert_eq!(rebuilt.report_parameters(), reported);
}

/// After every scan and retune a sequence built alike takes over the
/// checkpoint; a waiting trigger does not survive a retune of `auto_start`.
#[test]
fn standbys_continue_the_sequence() {
    let mut rig = Rig::new(AutoStart::Pending, FaultPolicy::Hold);
    for round in 0..512u32 {
        let bits = round.wrapping_mul(73) % 256;
        let set = |bit: u32| good(bits & (1 << bit) != 0);
        for (name, every) in [("abort_step", 7), ("on_fault_step", 11), ("step_1_ticks", 13)] {
            if round % every == 0 {
                let value = Value::Int(1 + i64::from(round % 3));
                rig.block.apply_parameter(name, value).unwrap();
            }
        }
        rig.meas.value = num(if round % 3 == 0 { 60.0 } else { 0.0 });
        rig.scan(SequenceReadings {
            trig_time: set(0),
            trig_headloss: set(1),
            trig_turbidity: set(2),
            trig_operator: set(3),
            grant: good(round % 5 != 0),
            abort: good(bits % 29 == 1),
            fault: set(4),
        });
        let state = rig.block.capture_state();
        let mut standby = sequence(AutoStart::Pending, FaultPolicy::Hold);
        standby.restore_state(&state).unwrap();
        assert_eq!(standby.capture_state(), state, "round {round}");
    }
    let mut rig = Rig::new(AutoStart::Pending, FaultPolicy::Hold);
    assert!(rig.scan(SequenceReadings { trig_time: good(true), ..idle() }).pending);
    rig.block.apply_parameter("auto_start", Value::Int(0)).unwrap();
    match sequence(AutoStart::Pending, FaultPolicy::Hold).restore_state(&rig.block.capture_state())
    {
        Err(StateError::InvalidValue { field, .. }) => assert_eq!(field, "pending"),
        told => panic!("{told:?}"),
    }
}
