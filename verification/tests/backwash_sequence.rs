use dcs_blocks::{
    AdvanceMode, AutoStart, BackwashSequence, BackwashSequenceConfig, BackwashSequenceInputs,
    BackwashSequenceOutputs, BackwashStep, CommandError, Direction, FaultPolicy, Float,
    OverrunPolicy, ParameterError, Parameters, PointId, PortRole, Quality, QualityReason, Reading,
    Sample, SequenceReadings, StateError, StateMap, Tick, Value, ValueKind, Write,
};
use std::cell::RefCell;
use std::collections::BTreeMap;

/// A point image: what the inputs read and what was last driven.
struct TestIo {
    samples: RefCell<BTreeMap<u64, Sample>>,
    written: RefCell<BTreeMap<u64, Sample>>,
}

impl TestIo {
    fn new(points: &[(PointId, Direction, Sample)]) -> TestIo {
        let mut samples = BTreeMap::new();
        for (point, _, sample) in points {
            samples.insert(point.0, *sample);
        }
        TestIo { samples: RefCell::new(samples), written: RefCell::new(BTreeMap::new()) }
    }

    fn feed(&self, point: PointId, sample: Sample) {
        self.samples.borrow_mut().insert(point.0, sample);
    }

    fn written(&self, point: PointId) -> Option<Sample> {
        self.written.borrow().get(&point.0).copied()
    }

    fn drive(&self, writes: &[Write]) {
        for write in writes {
            self.written.borrow_mut().insert(write.point.0, write.sample);
        }
    }

    fn read_bool(&self, point: PointId) -> Reading<bool> {
        let sample = self.samples.borrow()[&point.0];
        match sample.value {
            Value::Bool(value) => Reading { value, quality: sample.quality },
            other => panic!("{point:?} holds {other:?}"),
        }
    }

    fn read_float(&self, point: PointId) -> Reading<Float> {
        let sample = self.samples.borrow()[&point.0];
        match sample.value {
            Value::Float(value) => Reading { value, quality: sample.quality },
            other => panic!("{point:?} holds {other:?}"),
        }
    }
}

/// Reads a block's inputs, runs one scan and drives what it writes.
trait Scan {
    fn scan(&mut self, io: &TestIo, tick: Tick);
}

impl Scan for BackwashSequence {
    fn scan(&mut self, io: &TestIo, tick: Tick) {
        let readings = SequenceReadings {
            trig_time: io.read_bool(TRIG_TIME),
            trig_headloss: io.read_bool(TRIG_HEADLOSS),
            trig_turbidity: io.read_bool(TRIG_TURBIDITY),
            trig_operator: io.read_bool(TRIG_OPERATOR),
            grant: io.read_bool(GRANT),
            abort: io.read_bool(ABORT),
            fault: io.read_bool(FAULT),
        };
        let measured = match self.measured_input(&readings) {
            Some(index) => Some(io.read_float([MEAS_1, MEAS_2][index])),
            None => None,
        };
        let writes = self.step(&readings, measured, tick);
        io.drive(&writes);
    }
}

fn num(value: f64) -> Float {
    Float::from_bits(value.to_bits())
}

fn float(value: f64) -> Value {
    Value::Float(num(value))
}

fn table_of<S: AsRef<str>>(entries: &[(S, Value)]) -> Parameters {
    let mut table = Parameters::new();
    for (name, value) in entries {
        table.insert(name.as_ref(), *value);
    }
    table
}

fn f64_of(value: Float) -> f64 {
    f64::from_bits(value.to_bits())
}

const TRIG_TIME: PointId = PointId(500);
const TRIG_HEADLOSS: PointId = PointId(501);
const TRIG_TURBIDITY: PointId = PointId(502);
const TRIG_OPERATOR: PointId = PointId(503);
const GRANT: PointId = PointId(504);
const ABORT: PointId = PointId(505);
const FAULT: PointId = PointId(506);
const MEAS_1: PointId = PointId(510);
const MEAS_2: PointId = PointId(511);
const REQUEST: PointId = PointId(520);
const ACTIVE: PointId = PointId(521);
const PENDING: PointId = PointId(522);
const DONE: PointId = PointId(523);
const ABORTED: PointId = PointId(524);
const OVERRUN: PointId = PointId(525);
const SOURCE: PointId = PointId(526);
const STEP: PointId = PointId(527);
const OUT: PointId = PointId(528);
const PHASE_1: PointId = PointId(530);
const PHASE_2: PointId = PointId(531);
const PHASE_3: PointId = PointId(532);
const PHASE_4: PointId = PointId(533);

fn timed(ticks: u64, value: f64) -> BackwashStep {
    BackwashStep {
        ticks,
        value: num(value),
        advance: AdvanceMode::Timed,
        bound: None,
        meas: None,
        on_overrun: OverrunPolicy::Advance,
    }
}

fn measured(
    value: f64,
    meas: usize,
    bound: f64,
    ticks: u64,
    on_overrun: OverrunPolicy,
) -> BackwashStep {
    BackwashStep {
        ticks,
        value: num(value),
        advance: AdvanceMode::Measured,
        bound: Some(num(bound)),
        meas: Some(meas),
        on_overrun,
    }
}

fn first_of(value: f64, meas: usize, bound: f64, ticks: u64) -> BackwashStep {
    BackwashStep {
        ticks,
        value: num(value),
        advance: AdvanceMode::FirstOf,
        bound: Some(num(bound)),
        meas: Some(meas),
        on_overrun: OverrunPolicy::Advance,
    }
}

/// The four-step table the tests share: step 1 timed two scans,
/// step 2 measured on `meas_1` >= 50 with a three-scan overrun
/// timeout held, step 3 first-of on `meas_2` >= 1 or two scans,
/// step 4 timed one scan. `abort_step`/`on_fault_step` are step 4.
fn steps() -> Vec<BackwashStep> {
    vec![
        timed(2, 10.0),
        measured(20.0, 0, 50.0, 3, OverrunPolicy::Hold),
        first_of(30.0, 1, 1.0, 2),
        timed(1, 40.0),
    ]
}

fn inputs() -> BackwashSequenceInputs {
    BackwashSequenceInputs {
        trig_time: TRIG_TIME,
        trig_headloss: TRIG_HEADLOSS,
        trig_turbidity: TRIG_TURBIDITY,
        trig_operator: TRIG_OPERATOR,
        grant: GRANT,
        abort: ABORT,
        fault: FAULT,
        meas: vec![MEAS_1, MEAS_2],
    }
}

fn outputs() -> BackwashSequenceOutputs {
    BackwashSequenceOutputs {
        request: REQUEST,
        active: ACTIVE,
        pending: PENDING,
        done: DONE,
        aborted: ABORTED,
        overrun: OVERRUN,
        trigger_source: SOURCE,
        step: STEP,
        out: OUT,
        phases: vec![PHASE_1, PHASE_2, PHASE_3, PHASE_4],
    }
}

fn config(auto_start: AutoStart, on_fault_policy: FaultPolicy) -> BackwashSequenceConfig {
    BackwashSequenceConfig {
        auto_start,
        abort_step: 3,
        on_fault_step: 3,
        on_fault_policy,
    }
}

fn component() -> BackwashSequence {
    BackwashSequence::new(
        "bws",
        inputs(),
        outputs(),
        steps(),
        config(AutoStart::Direct, FaultPolicy::Hold),
    )
    .unwrap()
}

fn io() -> TestIo {
    let good = Sample::good(Value::Bool(false), Tick(0));
    TestIo::new(&[
        (TRIG_TIME, Direction::In, good),
        (TRIG_HEADLOSS, Direction::In, good),
        (TRIG_TURBIDITY, Direction::In, good),
        (TRIG_OPERATOR, Direction::In, good),
        (GRANT, Direction::In, good),
        (ABORT, Direction::In, good),
        (FAULT, Direction::In, good),
        (
            MEAS_1,
            Direction::In,
            Sample::good(float(0.0), Tick(0)),
        ),
        (
            MEAS_2,
            Direction::In,
            Sample::good(float(0.0), Tick(0)),
        ),
        (REQUEST, Direction::Out, good),
        (ACTIVE, Direction::Out, good),
        (PENDING, Direction::Out, good),
        (DONE, Direction::Out, good),
        (ABORTED, Direction::Out, good),
        (OVERRUN, Direction::Out, good),
        (
            SOURCE,
            Direction::Out,
            Sample::good(Value::Int(0), Tick(0)),
        ),
        (
            STEP,
            Direction::Out,
            Sample::good(Value::Int(0), Tick(0)),
        ),
        (
            OUT,
            Direction::Out,
            Sample::good(float(0.0), Tick(0)),
        ),
        (PHASE_1, Direction::Out, good),
        (PHASE_2, Direction::Out, good),
        (PHASE_3, Direction::Out, good),
        (PHASE_4, Direction::Out, good),
    ])
}

/// Feeds every control input at `Good` quality and steps once —
/// measured inputs stay at their last feed.
fn drive(
    block: &mut BackwashSequence,
    io: &TestIo,
    tick: u64,
    trigs: [bool; 4],
    grant: bool,
    abort: bool,
    fault: bool,
) {
    let points = [TRIG_TIME, TRIG_HEADLOSS, TRIG_TURBIDITY, TRIG_OPERATOR];
    for (index, asserted) in trigs.iter().enumerate() {
        io.feed(
            points[index],
            Sample::good(Value::Bool(*asserted), Tick(tick)),
        );
    }
    io.feed(GRANT, Sample::good(Value::Bool(grant), Tick(tick)));
    io.feed(ABORT, Sample::good(Value::Bool(abort), Tick(tick)));
    io.feed(FAULT, Sample::good(Value::Bool(fault), Tick(tick)));
    block.scan(io, Tick(tick));
}

fn feed(io: &TestIo, point: PointId, value: Value, tick: u64) {
    io.feed(point, Sample::good(value, Tick(tick)));
}

fn boolean(io: &TestIo, point: PointId) -> bool {
    io.written(point).unwrap().value == Value::Bool(true)
}

fn integer(io: &TestIo, point: PointId) -> i64 {
    match io.written(point).unwrap().value {
        Value::Int(value) => value,
        other => panic!("expected Int, found {other:?}"),
    }
}

fn out(io: &TestIo) -> f64 {
    match io.written(OUT).unwrap().value {
        Value::Float(value) => f64_of(value),
        other => panic!("expected Float, found {other:?}"),
    }
}

/// The asserted `phase_<n>` indices this scan — exactly one while
/// the sequence reports a position.
fn phases(io: &TestIo) -> Vec<usize> {
    [PHASE_1, PHASE_2, PHASE_3, PHASE_4]
        .iter()
        .enumerate()
        .filter(|(_, point)| boolean(io, **point))
        .map(|(index, _)| index + 1)
        .collect()
}

#[test]
fn idle_sequence_sits_on_step_one_without_requesting() {
    let mut block = component();
    let io = io();
    drive(&mut block, &io, 1, [false; 4], false, false, false);
    assert_eq!(integer(&io, STEP), 1);
    assert_eq!(out(&io), 10.0);
    assert!(!boolean(&io, REQUEST));
    assert!(!boolean(&io, ACTIVE));
    assert!(!boolean(&io, PENDING));
    assert_eq!(integer(&io, SOURCE), 0);
    assert_eq!(phases(&io), vec![1]);
}

#[test]
fn request_arms_on_the_first_trigger_and_holds_while_ungranted() {
    let mut block = component();
    let io = io();

    // The trig_time edge arms the request the same scan; ungranted,
    // the sequence sits on step 1 without banking.
    drive(
        &mut block,
        &io,
        1,
        [true, false, false, false],
        false,
        false,
        false,
    );
    assert!(boolean(&io, REQUEST));
    assert_eq!(integer(&io, SOURCE), 1);
    assert!(!boolean(&io, ACTIVE));
    assert_eq!(integer(&io, STEP), 1);

    // Held ungranted: the table does not advance and the armed
    // request stands — the queued dwell.
    for tick in 2..=4 {
        drive(&mut block, &io, tick, [false; 4], false, false, false);
        assert!(boolean(&io, REQUEST), "tick={tick}");
        assert_eq!(integer(&io, STEP), 1, "tick={tick}");
        assert!(!boolean(&io, ACTIVE), "tick={tick}");
    }

    // The grant stepping the table: two granted scans of step 1's
    // declared duration, then step 2.
    drive(&mut block, &io, 5, [false; 4], true, false, false);
    assert!(boolean(&io, ACTIVE));
    assert_eq!(integer(&io, STEP), 1);
    drive(&mut block, &io, 6, [false; 4], true, false, false);
    assert_eq!(integer(&io, STEP), 1);
    drive(&mut block, &io, 7, [false; 4], true, false, false);
    assert_eq!(integer(&io, STEP), 2);
    assert_eq!(out(&io), 20.0);
    assert_eq!(phases(&io), vec![2]);
}

#[test]
fn grant_falling_mid_step_pauses_the_table() {
    let mut block = component();
    let io = io();
    drive(
        &mut block,
        &io,
        1,
        [true, false, false, false],
        true,
        false,
        false,
    );
    assert_eq!(integer(&io, STEP), 1);

    // The grant drops after one banked scan: the count stands and
    // `active` falls while the position holds.
    for tick in 2..=4 {
        drive(&mut block, &io, tick, [false; 4], false, false, false);
        assert_eq!(integer(&io, STEP), 1, "tick={tick}");
        assert!(!boolean(&io, ACTIVE), "tick={tick}");
    }
    // Resumed, the step banks its second scan and advances.
    drive(&mut block, &io, 5, [false; 4], true, false, false);
    assert_eq!(integer(&io, STEP), 1);
    drive(&mut block, &io, 6, [false; 4], true, false, false);
    assert_eq!(integer(&io, STEP), 2);
}

#[test]
fn measured_step_advances_when_its_input_crosses_the_bound() {
    let mut block = component();
    let io = io();
    drive(
        &mut block,
        &io,
        1,
        [true, false, false, false],
        true,
        false,
        false,
    );
    drive(&mut block, &io, 2, [false; 4], true, false, false);
    drive(&mut block, &io, 3, [false; 4], true, false, false);
    assert_eq!(integer(&io, STEP), 2);

    // `meas_1` below the bound: the step stands — its ticks are the
    // overrun timeout, not a duration.
    drive(&mut block, &io, 4, [false; 4], true, false, false);
    assert_eq!(integer(&io, STEP), 2);
    assert!(!boolean(&io, OVERRUN));

    // The bound reached on a stepping scan still reports step 2 —
    // the next scan is step 3's.
    feed(&io, MEAS_1, float(52.0), 5);
    drive(&mut block, &io, 5, [false; 4], true, false, false);
    assert_eq!(integer(&io, STEP), 2);
    drive(&mut block, &io, 6, [false; 4], true, false, false);
    assert_eq!(integer(&io, STEP), 3);
    assert_eq!(out(&io), 30.0);
}

#[test]
fn first_of_advances_on_the_bound_or_the_ticks_whichever_first() {
    // The measured bound first: step 3 advances on the satisfying
    // scan, well before its two-tick duration.
    let mut block = component();
    let io = io();
    drive(
        &mut block,
        &io,
        1,
        [true, false, false, false],
        true,
        false,
        false,
    );
    drive(&mut block, &io, 2, [false; 4], true, false, false);
    drive(&mut block, &io, 3, [false; 4], true, false, false);
    feed(&io, MEAS_1, float(60.0), 4);
    drive(&mut block, &io, 4, [false; 4], true, false, false);
    drive(&mut block, &io, 5, [false; 4], true, false, false);
    assert_eq!(integer(&io, STEP), 3);
    feed(&io, MEAS_2, float(1.5), 6);
    drive(&mut block, &io, 6, [false; 4], true, false, false);
    assert_eq!(integer(&io, STEP), 3);
    drive(&mut block, &io, 7, [false; 4], true, false, false);
    assert_eq!(integer(&io, STEP), 4);

    // A fresh run reaching step 3 with the bound never met takes
    // the tick bound instead — no overrun, `2` is a plain duration.
    let mut block = component();
    let fresh = self::io();
    drive(
        &mut block,
        &fresh,
        1,
        [true, false, false, false],
        true,
        false,
        false,
    );
    drive(&mut block, &fresh, 2, [false; 4], true, false, false);
    drive(&mut block, &fresh, 3, [false; 4], true, false, false);
    feed(&fresh, MEAS_1, float(60.0), 4);
    drive(&mut block, &fresh, 4, [false; 4], true, false, false);
    for tick in 5..=6 {
        drive(&mut block, &fresh, tick, [false; 4], true, false, false);
        assert_eq!(integer(&fresh, STEP), 3, "tick={tick}");
        assert!(!boolean(&fresh, OVERRUN), "tick={tick}");
    }
    drive(&mut block, &fresh, 7, [false; 4], true, false, false);
    assert_eq!(integer(&fresh, STEP), 4);
}

#[test]
fn measured_overrun_hold_stands_past_the_timeout_until_satisfied() {
    let mut block = component();
    let io = io();
    drive(
        &mut block,
        &io,
        1,
        [true, false, false, false],
        true,
        false,
        false,
    );
    drive(&mut block, &io, 2, [false; 4], true, false, false);
    drive(&mut block, &io, 3, [false; 4], true, false, false);
    assert_eq!(integer(&io, STEP), 2);

    // Three stepping scans reach the step's overrun timeout: the
    // third reports step 2 with `overrun` asserting, and the step
    // keeps standing past its bound under the hold policy.
    drive(&mut block, &io, 4, [false; 4], true, false, false);
    assert!(!boolean(&io, OVERRUN));
    drive(&mut block, &io, 5, [false; 4], true, false, false);
    assert!(boolean(&io, OVERRUN));
    for tick in 6..=8 {
        drive(&mut block, &io, tick, [false; 4], true, false, false);
        assert_eq!(integer(&io, STEP), 2, "tick={tick}");
        assert!(boolean(&io, OVERRUN), "tick={tick}");
    }

    // The bound met late still advances the step; `overrun` clears.
    feed(&io, MEAS_1, float(55.0), 9);
    drive(&mut block, &io, 9, [false; 4], true, false, false);
    assert_eq!(integer(&io, STEP), 2);
    assert!(!boolean(&io, OVERRUN));
    drive(&mut block, &io, 10, [false; 4], true, false, false);
    assert_eq!(integer(&io, STEP), 3);
}

#[test]
fn measured_overrun_advance_anyway_moves_on_at_the_timeout() {
    let mut block = BackwashSequence::new(
        "bws",
        inputs(),
        outputs(),
        vec![
            timed(1, 10.0),
            measured(20.0, 0, 50.0, 2, OverrunPolicy::Advance),
            timed(1, 30.0),
            timed(1, 40.0),
        ],
        config(AutoStart::Direct, FaultPolicy::Hold),
    )
    .unwrap();
    let io = io();

    // Step 1's single scan completes inside the arming scan.
    drive(
        &mut block,
        &io,
        1,
        [true, false, false, false],
        true,
        false,
        false,
    );
    drive(&mut block, &io, 2, [false; 4], true, false, false);
    assert_eq!(integer(&io, STEP), 2);
    assert!(!boolean(&io, OVERRUN));

    // The bound never met: the timeout's reaching scan reports the
    // step with `overrun` asserted and advances anyway; the next
    // scan sits on step 3 with `overrun` cleared.
    drive(&mut block, &io, 3, [false; 4], true, false, false);
    assert_eq!(integer(&io, STEP), 2);
    assert!(boolean(&io, OVERRUN));
    drive(&mut block, &io, 4, [false; 4], true, false, false);
    assert_eq!(integer(&io, STEP), 3);
    assert!(!boolean(&io, OVERRUN));
}

#[test]
fn the_table_runs_to_done_and_request_releases_the_grant() {
    let mut block = component();
    let io = io();
    drive(
        &mut block,
        &io,
        1,
        [true, false, false, false],
        true,
        false,
        false,
    );
    drive(&mut block, &io, 2, [false; 4], true, false, false);
    feed(&io, MEAS_1, float(60.0), 3);
    drive(&mut block, &io, 3, [false; 4], true, false, false);
    feed(&io, MEAS_2, float(2.0), 4);
    drive(&mut block, &io, 4, [false; 4], true, false, false);

    // Step 4's completing scan: `done` asserts while still
    // reporting step 4 and `request` drops — the grant release.
    drive(&mut block, &io, 5, [false; 4], true, false, false);
    assert_eq!(integer(&io, STEP), 4);
    assert!(boolean(&io, DONE));
    assert!(!boolean(&io, REQUEST));
    assert!(!boolean(&io, ABORTED));

    // `done` holds while no fresh trigger edges; `trigger_source`
    // still reports the arming source.
    drive(&mut block, &io, 6, [false; 4], true, false, false);
    assert!(boolean(&io, DONE));
    assert_eq!(integer(&io, SOURCE), 1);

    // A fresh edge re-arms from step 1 — a trigger still standing
    // through the wash does not: only its new edge counts.
    drive(
        &mut block,
        &io,
        8,
        [false, true, false, false],
        false,
        false,
        false,
    );
    assert!(boolean(&io, REQUEST));
    assert!(!boolean(&io, DONE));
    assert_eq!(integer(&io, STEP), 1);
    assert_eq!(integer(&io, SOURCE), 2);
}

#[test]
fn trigger_attribution_holds_through_the_backwash() {
    for (trigs, source) in [
        ([true, false, false, false], 1),
        ([false, true, false, false], 2),
        ([false, false, true, false], 3),
        ([false, false, false, true], 4),
    ] {
        let mut block = component();
        let io = io();
        drive(&mut block, &io, 1, trigs, true, false, false);
        assert_eq!(integer(&io, SOURCE), source, "trigs={trigs:?}");
        assert!(boolean(&io, REQUEST));
        // The source holds while the table steps and the arming
        // input has long released.
        for tick in 2..=3 {
            drive(&mut block, &io, tick, [false; 4], true, false, false);
            assert_eq!(integer(&io, SOURCE), source, "trigs={trigs:?} tick={tick}");
        }
    }

    // Simultaneous edges resolve in declaration order — time wins.
    let mut block = component();
    let io = io();
    drive(
        &mut block,
        &io,
        1,
        [true, true, false, true],
        true,
        false,
        false,
    );
    assert_eq!(integer(&io, SOURCE), 1);
}

#[test]
fn auto_start_pending_latches_until_the_operator_releases() {
    let mut block = BackwashSequence::new(
        "bws",
        inputs(),
        outputs(),
        steps(),
        config(AutoStart::Pending, FaultPolicy::Hold),
    )
    .unwrap();
    let io = io();

    // An automatic edge latches `pending` instead of requesting.
    drive(
        &mut block,
        &io,
        1,
        [false, false, true, false],
        false,
        false,
        false,
    );
    assert!(boolean(&io, PENDING));
    assert!(!boolean(&io, REQUEST));
    assert_eq!(integer(&io, SOURCE), 0);

    // A second automatic edge keeps the first source.
    drive(
        &mut block,
        &io,
        2,
        [true, false, false, false],
        false,
        false,
        false,
    );
    assert!(boolean(&io, PENDING));
    assert!(!boolean(&io, REQUEST));

    // The operator edge releases the latch: the request arms with
    // the captured automatic source — the recorded reason.
    drive(&mut block, &io, 3, [false; 4], false, false, false);
    drive(
        &mut block,
        &io,
        4,
        [false, false, false, true],
        true,
        false,
        false,
    );
    assert!(!boolean(&io, PENDING));
    assert!(boolean(&io, REQUEST));
    assert_eq!(integer(&io, SOURCE), 3);

    // An operator edge with nothing pending starts a wash
    // unconditionally, attributed to the operator.
    let mut block = BackwashSequence::new(
        "bws",
        inputs(),
        outputs(),
        steps(),
        config(AutoStart::Pending, FaultPolicy::Hold),
    )
    .unwrap();
    let fresh = self::io();
    drive(
        &mut block,
        &fresh,
        1,
        [false, false, false, true],
        false,
        false,
        false,
    );
    assert!(boolean(&fresh, REQUEST));
    assert!(!boolean(&fresh, PENDING));
    assert_eq!(integer(&fresh, SOURCE), 4);
}

#[test]
fn abort_drives_the_declared_step_and_drops_the_request() {
    let mut block = component();
    let io = io();
    drive(
        &mut block,
        &io,
        1,
        [true, false, false, false],
        true,
        false,
        false,
    );
    drive(&mut block, &io, 2, [false; 4], true, false, false);
    assert_eq!(integer(&io, STEP), 1);

    // The abort scan already reports `abort_step`, `aborted`
    // raised, `request` dropped — the grant release.
    drive(&mut block, &io, 3, [false; 4], true, true, false);
    assert_eq!(integer(&io, STEP), 4);
    assert_eq!(out(&io), 40.0);
    assert_eq!(phases(&io), vec![4]);
    assert!(boolean(&io, ABORTED));
    assert!(!boolean(&io, DONE));
    assert!(!boolean(&io, REQUEST));
    assert!(!boolean(&io, ACTIVE));

    // `aborted` stands until a fresh trigger re-arms a new run.
    drive(&mut block, &io, 4, [false; 4], false, false, false);
    assert!(boolean(&io, ABORTED));
    assert_eq!(integer(&io, STEP), 4);
    drive(
        &mut block,
        &io,
        5,
        [false, false, false, true],
        false,
        false,
        false,
    );
    assert!(boolean(&io, REQUEST));
    assert!(!boolean(&io, ABORTED));
    assert_eq!(integer(&io, STEP), 1);
    assert_eq!(integer(&io, SOURCE), 4);
}

#[test]
fn abort_while_queued_ungranted_releases_the_request() {
    let mut block = component();
    let io = io();
    drive(
        &mut block,
        &io,
        1,
        [true, false, false, false],
        false,
        false,
        false,
    );
    assert!(boolean(&io, REQUEST));
    drive(&mut block, &io, 2, [false; 4], false, true, false);
    assert!(!boolean(&io, REQUEST));
    assert!(boolean(&io, ABORTED));
    assert_eq!(integer(&io, STEP), 4);
}

#[test]
fn fault_hold_policy_parks_at_the_fault_step_keeping_the_grant() {
    let mut block = component();
    let io = io();
    drive(
        &mut block,
        &io,
        1,
        [true, false, false, false],
        true,
        false,
        false,
    );
    drive(&mut block, &io, 2, [false; 4], true, false, false);
    drive(&mut block, &io, 3, [false; 4], true, false, false);
    assert_eq!(integer(&io, STEP), 2);

    // A proven fault drives `on_fault_step` and holds — `request`
    // stands so the grant keeps, `active` falls, neither `done`
    // nor `aborted` asserts.
    drive(&mut block, &io, 4, [false; 4], true, false, true);
    assert_eq!(integer(&io, STEP), 4);
    assert!(boolean(&io, REQUEST));
    assert!(!boolean(&io, ACTIVE));
    assert!(!boolean(&io, ABORTED));
    assert!(!boolean(&io, DONE));

    // The table parks at the held step while the fault stands — an
    // operator edge alone does not resume it.
    drive(&mut block, &io, 5, [false; 4], true, false, true);
    drive(
        &mut block,
        &io,
        6,
        [false, false, false, true],
        true,
        false,
        true,
    );
    assert_eq!(integer(&io, STEP), 4);
    assert!(boolean(&io, REQUEST));
    assert!(!boolean(&io, ACTIVE));

    // The fault cleared, the receipted operator edge resumes the
    // table from the held step — step 4's single scan completes the
    // run on the next stepping scan.
    drive(&mut block, &io, 7, [false; 4], true, false, false);
    drive(
        &mut block,
        &io,
        8,
        [false, false, false, true],
        true,
        false,
        false,
    );
    assert_eq!(integer(&io, STEP), 4);
    drive(&mut block, &io, 9, [false; 4], true, false, false);
    assert!(boolean(&io, DONE));
    assert!(!boolean(&io, REQUEST));
    assert!(!boolean(&io, ABORTED));
}

#[test]
fn fault_abort_policy_takes_the_abort_path() {
    let mut block = BackwashSequence::new(
        "bws",
        inputs(),
        outputs(),
        steps(),
        config(AutoStart::Direct, FaultPolicy::Abort),
    )
    .unwrap();
    let io = io();
    drive(
        &mut block,
        &io,
        1,
        [true, false, false, false],
        true,
        false,
        false,
    );
    drive(&mut block, &io, 2, [false; 4], true, false, false);

    // A proven fault under policy 1 drives `abort_step`, asserts
    // `aborted`, and drops `request` — distinct from `done`.
    drive(&mut block, &io, 3, [false; 4], true, false, true);
    assert_eq!(integer(&io, STEP), 4);
    assert!(boolean(&io, ABORTED));
    assert!(!boolean(&io, DONE));
    assert!(!boolean(&io, REQUEST));

    // A fresh trigger re-queues the filter — a new run from step 1.
    drive(&mut block, &io, 4, [false; 4], true, false, false);
    drive(
        &mut block,
        &io,
        5,
        [false, true, false, false],
        false,
        false,
        false,
    );
    assert!(boolean(&io, REQUEST));
    assert!(!boolean(&io, ABORTED));
    assert_eq!(integer(&io, STEP), 1);
}

#[test]
fn backwash_sequence_non_good_inputs_take_the_fail_safe_reading() {
    let mut block = component();
    let io = io();

    // A non-Good trigger cannot arm.
    io.feed(
        TRIG_TIME,
        Sample::new(
            Value::Bool(true),
            Quality::Bad(QualityReason::CommunicationFault),
            Tick(1),
        ),
    );
    block.scan(&io, Tick(1));
    assert!(!boolean(&io, REQUEST));
    assert_eq!(
        io.written(REQUEST).unwrap().quality,
        Quality::Bad(QualityReason::CommunicationFault)
    );

    drive(
        &mut block,
        &io,
        2,
        [true, false, false, false],
        true,
        false,
        false,
    );
    drive(&mut block, &io, 3, [false; 4], true, false, false);
    drive(&mut block, &io, 4, [false; 4], true, false, false);
    assert_eq!(integer(&io, STEP), 2);

    // A non-Good `meas_i` cannot satisfy its bound: the measured
    // step stands on the ticks/overrun rule and the merged quality
    // marks the outputs.
    feed(&io, MEAS_1, float(60.0), 5);
    io.feed(
        MEAS_1,
        Sample::new(
            float(60.0),
            Quality::Uncertain(QualityReason::Stale),
            Tick(5),
        ),
    );
    drive(&mut block, &io, 5, [false; 4], true, false, false);
    assert_eq!(integer(&io, STEP), 2);
    assert_eq!(
        io.written(STEP).unwrap().quality,
        Quality::Uncertain(QualityReason::Stale)
    );
    // Past the overrun timeout it still holds under the hold policy.
    for tick in 6..=8 {
        io.feed(
            MEAS_1,
            Sample::new(
                float(60.0),
                Quality::Uncertain(QualityReason::Stale),
                Tick(tick),
            ),
        );
        drive(&mut block, &io, tick, [false; 4], true, false, false);
    }
    assert_eq!(integer(&io, STEP), 2);
    assert!(boolean(&io, OVERRUN));

    // A non-Good `grant` holds the table mid-step even with the
    // measured bound satisfied — feed it directly rather than
    // through `drive`, which always presents `grant` Good.
    feed(&io, MEAS_1, float(60.0), 9);
    for point in [
        TRIG_TIME,
        TRIG_HEADLOSS,
        TRIG_TURBIDITY,
        TRIG_OPERATOR,
        ABORT,
        FAULT,
    ] {
        io.feed(point, Sample::good(Value::Bool(false), Tick(9)));
    }
    io.feed(
        GRANT,
        Sample::new(
            Value::Bool(true),
            Quality::Bad(QualityReason::CommunicationFault),
            Tick(9),
        ),
    );
    block.scan(&io, Tick(9));
    assert_eq!(integer(&io, STEP), 2);
    assert!(!boolean(&io, ACTIVE));
    assert_eq!(
        io.written(REQUEST).unwrap().quality,
        Quality::Bad(QualityReason::CommunicationFault)
    );

    // A recovered grant steps again — the satisfied bound advances
    // on the stepping scan, the next scan reports the successor.
    drive(&mut block, &io, 10, [false; 4], true, false, false);
    assert_eq!(integer(&io, STEP), 2);
    drive(&mut block, &io, 11, [false; 4], true, false, false);
    assert_eq!(integer(&io, STEP), 3);
}

#[test]
fn capture_restore_mid_sequence_continues_identically() {
    let mut block = component();
    let io = io();

    // Arm on turbidity, step into the measured step, and stand it
    // in overrun — the capture carries the held request, the armed
    // source, the banked count, and the overrun stand.
    drive(
        &mut block,
        &io,
        1,
        [false, false, true, false],
        true,
        false,
        false,
    );
    drive(&mut block, &io, 2, [false; 4], true, false, false);
    drive(&mut block, &io, 3, [false; 4], true, false, false);
    for tick in 4..=7 {
        drive(&mut block, &io, tick, [false; 4], true, false, false);
    }
    assert_eq!(integer(&io, STEP), 2);
    assert!(boolean(&io, OVERRUN));
    let state = block.capture_state();
    assert_eq!(state.get("request"), Some(Value::Bool(true)));
    assert_eq!(state.get("trigger_source"), Some(Value::Int(3)));
    assert_eq!(state.get("overrun"), Some(Value::Bool(true)));
    assert_eq!(state.get("step"), Some(Value::Int(2)));
    assert_eq!(state.get("elapsed"), Some(Value::Int(3)));

    // A standby restores and continues identically: the bound met
    // late advances, the table completes, `request` drops.
    let mut standby = component();
    standby.restore_state(&state).unwrap();
    assert_eq!(standby.capture_state(), state);
    feed(&io, MEAS_1, float(75.0), 8);
    drive(&mut standby, &io, 8, [false; 4], true, false, false);
    assert_eq!(integer(&io, STEP), 2);
    drive(&mut standby, &io, 9, [false; 4], true, false, false);
    assert_eq!(integer(&io, STEP), 3);
}

#[test]
fn capture_restore_carries_the_pending_latch_and_fault_hold() {
    // The `auto_start = 1` latch: source captured, pending held.
    let mut pending_block = BackwashSequence::new(
        "bws",
        inputs(),
        outputs(),
        steps(),
        config(AutoStart::Pending, FaultPolicy::Hold),
    )
    .unwrap();
    let io = io();
    drive(
        &mut pending_block,
        &io,
        1,
        [false, true, false, false],
        false,
        false,
        false,
    );
    let state = pending_block.capture_state();
    assert_eq!(state.get("pending"), Some(Value::Bool(true)));
    assert_eq!(state.get("pending_source"), Some(Value::Int(2)));
    let mut standby = BackwashSequence::new(
        "bws",
        inputs(),
        outputs(),
        steps(),
        config(AutoStart::Pending, FaultPolicy::Hold),
    )
    .unwrap();
    standby.restore_state(&state).unwrap();
    drive(
        &mut standby,
        &io,
        2,
        [false, false, false, true],
        false,
        false,
        false,
    );
    assert!(boolean(&io, REQUEST));
    assert_eq!(integer(&io, SOURCE), 2);

    // The fault-hold stand: parked at `on_fault_step`, request kept.
    let mut block = component();
    let fresh = self::io();
    drive(
        &mut block,
        &fresh,
        1,
        [true, false, false, false],
        true,
        false,
        false,
    );
    drive(&mut block, &fresh, 2, [false; 4], true, false, true);
    let state = block.capture_state();
    assert_eq!(state.get("fault_hold"), Some(Value::Bool(true)));
    assert_eq!(state.get("step"), Some(Value::Int(4)));
    let mut standby = component();
    standby.restore_state(&state).unwrap();
    drive(&mut standby, &fresh, 3, [false; 4], true, false, false);
    assert_eq!(integer(&fresh, STEP), 4);
    assert!(boolean(&fresh, REQUEST));
    assert!(!boolean(&fresh, ACTIVE));
}

#[test]
fn backwash_sequence_incompatible_state_is_a_named_error() {
    let mut block = component();
    let mut state = block.capture_state();
    state.insert("step", Value::Int(5));
    assert!(matches!(
        block.restore_state(&state),
        Err(StateError::InvalidValue { ref field, .. }) if field == "step"
    ));

    let mut state = block.capture_state();
    // `done` standing away from the table's end.
    state.insert("done", Value::Bool(true));
    assert!(matches!(
        block.restore_state(&state),
        Err(StateError::InvalidValue { ref field, .. }) if field == "done"
    ));

    let mut state = block.capture_state();
    // A pending latch under `auto_start = 0`.
    state.insert("pending", Value::Bool(true));
    state.insert("pending_source", Value::Int(1));
    assert!(matches!(
        block.restore_state(&state),
        Err(StateError::InvalidValue { ref field, .. }) if field == "pending"
    ));

    let mut state = block.capture_state();
    // A structural entry from another table shape.
    state.insert("step_2_advance", Value::Int(0));
    assert!(matches!(
        block.restore_state(&state),
        Err(StateError::InvalidValue { ref field, .. }) if field == "step_2_advance"
    ));

    let mut state = block.capture_state();
    state.insert("step_5_ticks", Value::Int(1));
    assert!(matches!(
        block.restore_state(&state),
        Err(StateError::UnknownField { ref field, .. }) if field == "step_5_ticks"
    ));
    assert!(matches!(
        block.restore_state(&StateMap::new()),
        Err(StateError::MissingField { ref field, .. }) if field == "step_count"
    ));
}

#[test]
fn malformed_tables_and_parameters_fail_naming_the_parameter() {
    let parameters = table_of(&[
        ("step_count".to_string(), Value::Int(4)),
        ("auto_start".to_string(), Value::Int(0)),
        ("abort_step".to_string(), Value::Int(4)),
        ("on_fault_step".to_string(), Value::Int(4)),
        ("on_fault_policy".to_string(), Value::Int(0)),
        ("step_1_ticks".to_string(), Value::Int(2)),
        ("step_1_out".to_string(), float(10.0)),
        ("step_1_advance".to_string(), Value::Int(0)),
        ("step_1_on_overrun".to_string(), Value::Int(0)),
        ("step_2_ticks".to_string(), Value::Int(3)),
        ("step_2_out".to_string(), float(20.0)),
        ("step_2_advance".to_string(), Value::Int(1)),
        ("step_2_bound".to_string(), float(50.0)),
        ("step_2_meas".to_string(), Value::Int(1)),
        ("step_2_on_overrun".to_string(), Value::Int(1)),
        ("step_3_ticks".to_string(), Value::Int(2)),
        ("step_3_out".to_string(), float(30.0)),
        ("step_3_advance".to_string(), Value::Int(2)),
        ("step_3_bound".to_string(), float(1.0)),
        ("step_3_meas".to_string(), Value::Int(2)),
        ("step_3_on_overrun".to_string(), Value::Int(0)),
        ("step_4_ticks".to_string(), Value::Int(1)),
        ("step_4_out".to_string(), float(40.0)),
        ("step_4_advance".to_string(), Value::Int(0)),
        ("step_4_on_overrun".to_string(), Value::Int(0)),
    ]);
    let build = |parameters: &Parameters| {
        BackwashSequence::from_parameters("bws", inputs(), outputs(), parameters)
    };
    assert_eq!(
        build(&parameters).unwrap().report_parameters().get("step_count"),
        Some(Value::Int(4))
    );

    for (key, value) in [
        ("step_count", Value::Int(0)),
        ("auto_start", Value::Int(2)),
        ("abort_step", Value::Int(5)),
        ("on_fault_step", Value::Int(0)),
        ("on_fault_policy", Value::Int(2)),
        ("step_1_ticks", Value::Int(-1)),
        ("step_1_out", float(f64::NAN)),
        ("step_2_advance", Value::Int(3)),
        ("step_2_bound", float(f64::INFINITY)),
        ("step_2_meas", Value::Int(3)),
        ("step_2_on_overrun", Value::Int(2)),
    ] {
        let mut broken = parameters.clone();
        broken.insert(key, value);
        assert!(
            matches!(
                build(&broken).unwrap_err(),
                ParameterError::Invalid { ref parameter, .. } if parameter == key
            ),
            "{key} should fail Invalid naming itself"
        );
    }
    for key in [
        "step_count",
        "auto_start",
        "abort_step",
        "on_fault_policy",
        "step_1_ticks",
        "step_1_out",
        "step_1_advance",
        "step_1_on_overrun",
        "step_2_bound",
        "step_2_meas",
    ] {
        let mut broken = parameters.clone();
        broken.remove(key);
        assert!(
            matches!(
                build(&broken).unwrap_err(),
                ParameterError::Missing { ref parameter, .. } if parameter == key
            ),
            "{key} should fail Missing naming itself"
        );
    }
    // `bound`/`meas` are not required on a timed step: a table of
    // timed steps builds without them.
    let mut timed_table = parameters.clone();
    timed_table.insert("step_2_advance", Value::Int(0));
    timed_table.remove("step_2_bound");
    timed_table.remove("step_2_meas");
    assert!(build(&timed_table).is_ok());
}

#[test]
fn tuning_applies_at_the_scan_boundary() {
    let mut block = component();
    let io = io();
    drive(
        &mut block,
        &io,
        1,
        [true, false, false, false],
        true,
        false,
        false,
    );

    // The reported step's `out` retune lands on the next scan.
    block
        .apply_parameter("step_1_out", float(15.0))
        .unwrap();
    drive(&mut block, &io, 2, [false; 4], true, false, false);
    assert_eq!(out(&io), 15.0);

    // A measured bound retunes mid-run.
    block
        .apply_parameter("step_2_bound", float(10.0))
        .unwrap();
    drive(&mut block, &io, 3, [false; 4], true, false, false);
    assert_eq!(integer(&io, STEP), 2);
    feed(&io, MEAS_1, float(12.0), 4);
    drive(&mut block, &io, 4, [false; 4], true, false, false);
    drive(&mut block, &io, 5, [false; 4], true, false, false);
    assert_eq!(integer(&io, STEP), 3);

    // Structural entries and `step_count` are construction-fixed;
    // unknown and out-of-range names reject.
    for parameter in [
        "step_count",
        "step_2_advance",
        "step_2_meas",
        "step_2_on_overrun",
    ] {
        assert!(matches!(
            block.apply_parameter(parameter, Value::Int(0)),
            Err(CommandError::InvalidParameter {
                parameter: ref p,
                ..
            }) if p == parameter
        ));
    }
    assert!(matches!(
        block.apply_parameter("step_9_ticks", Value::Int(1)),
        Err(CommandError::UnknownParameter { ref parameter, .. }) if parameter == "step_9_ticks"
    ));
    assert!(matches!(
        block.apply_parameter("dwell", Value::Int(1)),
        Err(CommandError::UnknownParameter { ref parameter, .. }) if parameter == "dwell"
    ));
    assert!(matches!(
        block.apply_parameter("abort_step", Value::Int(9)),
        Err(CommandError::InvalidParameter { ref parameter, .. }) if parameter == "abort_step"
    ));

    // The tuned table is part of the captured state a standby gets.
    let state = block.capture_state();
    assert_eq!(state.get("step_1_out"), Some(float(15.0)));
    assert_eq!(state.get("step_2_bound"), Some(float(10.0)));
}

#[test]
fn backwash_sequence_describes_itself() {
    let descriptor = component().describe();
    assert_eq!(descriptor.name, "bws");
    assert_eq!(descriptor.kind, BackwashSequence::KIND);
    assert_eq!(descriptor.ports.len(), 7 + 2 + 9 + 4);
    let port = |name: &str| {
        descriptor
            .ports
            .iter()
            .find(|port| port.name == name)
            .unwrap()
    };
    assert_eq!(port("trig_time").direction, Direction::In);
    assert_eq!(port("meas_2").kind, ValueKind::Float);
    assert_eq!(port("request").role, Some(PortRole::Output));
    assert_eq!(port("abort").role, Some(PortRole::Setpoint));
    assert_eq!(port("trigger_source").kind, ValueKind::Int);
    assert_eq!(port("phase_4").direction, Direction::Out);

    // The declared parameter vocabulary mirrors the
    // `from_parameters` key set: the five scalars plus the
    // per-step entries — four on the timed steps, six where the
    // measured modes add `bound`/`meas`.
    let names: Vec<&str> = descriptor
        .parameters
        .iter()
        .map(|parameter| parameter.name.as_str())
        .collect();
    assert_eq!(
        names[..5],
        [
            "step_count",
            "auto_start",
            "abort_step",
            "on_fault_step",
            "on_fault_policy"
        ]
    );
    assert_eq!(names.len(), 5 + 4 + 6 + 6 + 4);
    assert!(names.contains(&"step_2_bound"));
    assert!(!names.contains(&"step_1_bound"));
    assert!(names.contains(&"step_4_on_overrun"));
}

#[test]
fn backwash_sequence_identical_runs_produce_identical_outputs() {
    // A deterministic scripted exercise: arm, grant mid-way, stand
    // the measured step into overrun, satisfy it, complete.
    let run = || {
        let mut block = component();
        let io = io();
        let mut trace = Vec::new();
        for tick in 1..=14u64 {
            let trigs = if tick == 1 {
                [true, false, false, false]
            } else {
                [false; 4]
            };
            let grant = tick != 3 && tick != 4;
            if tick == 9 {
                feed(&io, MEAS_1, float(60.0), tick);
            }
            if tick == 11 {
                feed(&io, MEAS_2, float(2.0), tick);
            }
            drive(&mut block, &io, tick, trigs, grant, false, false);
            trace.push((
                io.written(REQUEST).unwrap(),
                io.written(STEP).unwrap(),
                io.written(OUT).unwrap(),
                io.written(OVERRUN).unwrap(),
                io.written(DONE).unwrap(),
            ));
        }
        trace
    };
    assert_eq!(run(), run());
}
