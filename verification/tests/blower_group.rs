use dcs_blocks::{
    BlowerGroup, BlowerGroupConfig, BlowerIo, BlowerOutputs, BlowerReadings, BlowerRotation,
    CommandError, Direction, Float, ParameterError, Parameters, PointId, PortRole, Quality,
    QualityReason, Reading, Sample, StagingAuthority, StateError, Tick, UnitBounds, UnitReadings,
    Value, ValueKind, Write,
};
use std::cell::RefCell;
use std::collections::BTreeMap;

/// A point image: what the inputs read and what was last driven.
struct TestIo {
    samples: RefCell<BTreeMap<u64, Sample>>,
    written: RefCell<BTreeMap<u64, Sample>>,
}

impl TestIo {
    fn new(points: &[(PointId, Direction, Sample)]) -> TestIo {
        let mut samples = BTreeMap::new();
        for (point, _, sample) in points {
            samples.insert(point.0, *sample);
        }
        TestIo { samples: RefCell::new(samples), written: RefCell::new(BTreeMap::new()) }
    }

    fn feed(&self, point: PointId, sample: Sample) {
        self.samples.borrow_mut().insert(point.0, sample);
    }

    fn written(&self, point: PointId) -> Option<Sample> {
        self.written.borrow().get(&point.0).copied()
    }

    fn drive(&self, writes: &[Write]) {
        for write in writes {
            self.written.borrow_mut().insert(write.point.0, write.sample);
        }
    }

    fn read_bool(&self, point: PointId) -> Reading<bool> {
        let sample = self.samples.borrow()[&point.0];
        match sample.value {
            Value::Bool(value) => Reading { value, quality: sample.quality },
            other => panic!("{point:?} holds {other:?}"),
        }
    }

    fn read_float(&self, point: PointId) -> Reading<Float> {
        let sample = self.samples.borrow()[&point.0];
        match sample.value {
            Value::Float(value) => Reading { value, quality: sample.quality },
            other => panic!("{point:?} holds {other:?}"),
        }
    }
}

/// Reads a block's inputs, runs one scan and drives what it writes.
trait Scan {
    fn scan(&mut self, io: &TestIo, tick: Tick);
}

impl Scan for BlowerGroup {
    fn scan(&mut self, io: &TestIo, tick: Tick) {
        let mut units = Vec::new();
        let mut approve = None;
        for requirement in self.io_requirements() {
            if requirement.name.starts_with("cmd_") {
                let index = units.len() + 1;
                units.push(UnitReadings {
                    run: io.read_bool(run(index)),
                    fault: io.read_bool(fault(index)),
                    avail: io.read_bool(avail(index)),
                });
            } else if requirement.name == "approve" {
                approve = Some(io.read_bool(requirement.point));
            }
        }
        let readings = BlowerReadings { demand: io.read_float(DEMAND), approve, units };
        self.advance(&readings, tick);
        let committed: f64 = self.committed_ceilings().into_iter().map(f64_of).sum();
        let departing = self.departing_ceiling().map_or(0.0, f64_of);
        let up_limit = f64_of(self.config().stage_up) * committed;
        let down_limit = f64_of(self.config().stage_down) * (committed - departing);
        let pending = self.stage(&readings, num(up_limit), num(down_limit), tick);
        let share = match self.joined_count() {
            0 => 0.0,
            joined => f64_of(self.demand()) / joined as f64,
        };
        let writes = self.outputs(&readings, pending, num(share), tick);
        io.drive(&writes);
    }
}

fn num(value: f64) -> Float {
    Float::from_bits(value.to_bits())
}

fn float(value: f64) -> Value {
    Value::Float(num(value))
}

fn table_of<S: AsRef<str>>(entries: &[(S, Value)]) -> Parameters {
    let mut table = Parameters::new();
    for (name, value) in entries {
        table.insert(name.as_ref(), *value);
    }
    table
}

fn f64_of(value: Float) -> f64 {
    f64::from_bits(value.to_bits())
}

const DEMAND: PointId = PointId(10);
const APPROVE: PointId = PointId(11);
const STAGED: PointId = PointId(20);
const NONE_AVAIL: PointId = PointId(21);
const ALL_FAULTED: PointId = PointId(22);
const PENDING: PointId = PointId(23);
const TRANSITION: PointId = PointId(24);

fn cmd(index: usize) -> PointId {
    PointId(100 + index as u64)
}
fn run(index: usize) -> PointId {
    PointId(200 + index as u64)
}
fn fault(index: usize) -> PointId {
    PointId(300 + index as u64)
}
fn avail(index: usize) -> PointId {
    PointId(400 + index as u64)
}
fn capacity(index: usize) -> PointId {
    PointId(500 + index as u64)
}
fn vent(index: usize) -> PointId {
    PointId(600 + index as u64)
}

const OUTPUTS: BlowerOutputs = BlowerOutputs {
    staged: STAGED,
    none_available: NONE_AVAIL,
    all_faulted: ALL_FAULTED,
    staging_pending: PENDING,
    transition: TRANSITION,
};

fn blowers(count: usize) -> Vec<BlowerIo> {
    (1..=count)
        .map(|index| BlowerIo {
            cmd: cmd(index),
            run: run(index),
            fault: fault(index),
            avail: avail(index),
            capacity: capacity(index),
            vent: vent(index),
        })
        .collect()
}

/// Uniform declared bounds: floor 20, the current bound capping the
/// 100 flow ceiling at 90.
fn bounds(count: usize) -> Vec<UnitBounds> {
    vec![
        UnitBounds {
            min_flow: num(20.0),
            max_flow: num(100.0),
            max_current: num(90.0),
        };
        count
    ]
}

fn config() -> BlowerGroupConfig {
    BlowerGroupConfig {
        staging_authority: StagingAuthority::Automatic,
        stage_up: num(0.9),
        stage_down: num(0.8),
        min_run_ticks: 0,
        min_start_interval_ticks: 0,
        vent_ticks: 2,
        rotation: BlowerRotation::NoRotation,
    }
}

fn component(config: BlowerGroupConfig) -> BlowerGroup {
    component_of(3, config, None)
}

fn component_of(
    count: usize,
    config: BlowerGroupConfig,
    approve: Option<PointId>,
) -> BlowerGroup {
    BlowerGroup::new(
        "bg",
        DEMAND,
        approve,
        blowers(count),
        bounds(count),
        OUTPUTS,
        config,
    )
    .unwrap()
}

fn io(count: usize, approve: bool) -> TestIo {
    let mut points = vec![
        (
            DEMAND,
            Direction::In,
            Sample::good(float(0.0), Tick(0)),
        ),
        (
            STAGED,
            Direction::Out,
            Sample::good(Value::Int(0), Tick(0)),
        ),
        (
            NONE_AVAIL,
            Direction::Out,
            Sample::good(Value::Bool(false), Tick(0)),
        ),
        (
            ALL_FAULTED,
            Direction::Out,
            Sample::good(Value::Bool(false), Tick(0)),
        ),
        (
            PENDING,
            Direction::Out,
            Sample::good(Value::Bool(false), Tick(0)),
        ),
        (
            TRANSITION,
            Direction::Out,
            Sample::good(Value::Bool(false), Tick(0)),
        ),
    ];
    if approve {
        points.push((
            APPROVE,
            Direction::In,
            Sample::good(Value::Bool(false), Tick(0)),
        ));
    }
    for index in 1..=count {
        points.extend([
            (
                cmd(index),
                Direction::Out,
                Sample::good(Value::Bool(false), Tick(0)),
            ),
            (
                run(index),
                Direction::In,
                Sample::good(Value::Bool(false), Tick(0)),
            ),
            (
                fault(index),
                Direction::In,
                Sample::good(Value::Bool(false), Tick(0)),
            ),
            (
                avail(index),
                Direction::In,
                Sample::good(Value::Bool(true), Tick(0)),
            ),
            (
                capacity(index),
                Direction::Out,
                Sample::good(float(0.0), Tick(0)),
            ),
            (
                vent(index),
                Direction::Out,
                Sample::good(Value::Bool(false), Tick(0)),
            ),
        ]);
    }
    TestIo::new(&points)
}

fn feed(io: &TestIo, point: PointId, value: Value, tick: u64) {
    io.feed(point, Sample::good(value, Tick(tick)));
}

fn feed_demand(io: &TestIo, value: f64, tick: u64) {
    feed(io, DEMAND, float(value), tick);
}

fn feed_run(io: &TestIo, index: usize, value: bool, tick: u64) {
    feed(io, run(index), Value::Bool(value), tick);
}

fn feed_fault(io: &TestIo, index: usize, value: bool, tick: u64) {
    feed(io, fault(index), Value::Bool(value), tick);
}

fn feed_avail(io: &TestIo, index: usize, value: bool, tick: u64) {
    feed(io, avail(index), Value::Bool(value), tick);
}

fn feed_approve(io: &TestIo, value: bool, tick: u64) {
    feed(io, APPROVE, Value::Bool(value), tick);
}

fn out_bool(io: &TestIo, point: PointId) -> bool {
    match io.written(point).unwrap().value {
        Value::Bool(value) => value,
        value => panic!("expected Bool, found {value:?}"),
    }
}

fn out_int(io: &TestIo, point: PointId) -> i64 {
    match io.written(point).unwrap().value {
        Value::Int(value) => value,
        value => panic!("expected Int, found {value:?}"),
    }
}

fn out_f64(io: &TestIo, point: PointId) -> f64 {
    match io.written(point).unwrap().value {
        Value::Float(value) => f64_of(value),
        value => panic!("expected Float, found {value:?}"),
    }
}

/// Steps the group with `demand` fed and the units' scripted inputs
/// already in place.
fn scan(group: &mut BlowerGroup, io: &TestIo, demand: f64, tick: u64) {
    feed_demand(io, demand, tick);
    group.scan(io, Tick(tick));
}

#[test]
fn join_choreography_stages_up_and_splits_the_demand() {
    let mut group = component(config());
    let io = io(3, false);
    scan(&mut group, &io, 0.0, 1);
    assert_eq!(out_int(&io, STAGED), 0);
    assert!(!out_bool(&io, cmd(1)));
    assert!(!out_bool(&io, TRANSITION));
    assert!(!out_bool(&io, PENDING));

    // Demand 100 against zero committed capacity stages the first
    // unit: the offline start — vent open and command asserted —
    // with the capacity demand at the declared minimum.
    scan(&mut group, &io, 100.0, 2);
    assert!(out_bool(&io, cmd(1)));
    assert!(out_bool(&io, vent(1)));
    assert_eq!(out_f64(&io, capacity(1)), 20.0);
    assert_eq!(out_int(&io, STAGED), 1);
    assert!(out_bool(&io, TRANSITION));

    // The run feedback proves inside the vent window: the vent
    // closes, the unit joins the header, and the still-unmet demand
    // immediately starts the next unit — one elective transition
    // per scan.
    feed_run(&io, 1, true, 3);
    scan(&mut group, &io, 100.0, 3);
    assert!(!out_bool(&io, vent(1)));
    assert_eq!(out_f64(&io, capacity(1)), 90.0);
    assert!(out_bool(&io, cmd(2)));
    assert!(out_bool(&io, vent(2)));
    assert!(out_bool(&io, TRANSITION));

    // Unit 2 proves and joins: 100 over the 180 committed is met
    // and shares equally.
    feed_run(&io, 2, true, 4);
    scan(&mut group, &io, 100.0, 4);
    assert!(!out_bool(&io, vent(2)));
    assert_eq!(out_f64(&io, capacity(1)), 50.0);
    assert_eq!(out_f64(&io, capacity(2)), 50.0);
    assert_eq!(out_int(&io, STAGED), 2);
    assert!(!out_bool(&io, TRANSITION));
}

#[test]
fn stage_up_and_down_hold_at_the_declared_thresholds() {
    let mut group = component(config());
    let io = io(3, false);
    // Join unit 1 and leave it alone: demand at exactly
    // stage_up × committed is not an exceedance.
    scan(&mut group, &io, 81.0, 1);
    feed_run(&io, 1, true, 2);
    scan(&mut group, &io, 81.0, 2);
    assert_eq!(out_int(&io, STAGED), 1);
    scan(&mut group, &io, 81.0, 3);
    assert_eq!(out_int(&io, STAGED), 1);
    // The first tick above the threshold stages the next unit.
    feed_run(&io, 2, true, 4);
    scan(&mut group, &io, 81.1, 4);
    assert_eq!(out_int(&io, STAGED), 2);
    assert!(out_bool(&io, vent(2)));

    // With both joined (committed 180), dropping the most recent
    // leaves 90: demand at exactly stage_down × 90 does not
    // de-stage, the first tick below it does.
    scan(&mut group, &io, 72.0, 5);
    assert_eq!(out_int(&io, STAGED), 2);
    feed_run(&io, 2, false, 6);
    scan(&mut group, &io, 71.9, 6);
    assert!(!out_bool(&io, cmd(2)));
    assert!(out_bool(&io, vent(2)));
    assert!(out_bool(&io, TRANSITION));
    scan(&mut group, &io, 71.9, 7);
    assert_eq!(out_int(&io, STAGED), 1);
    assert!(!out_bool(&io, vent(2)));
    assert_eq!(out_f64(&io, capacity(2)), 0.0);
}

#[test]
fn capacity_split_clamps_to_the_per_unit_bounds() {
    // Asymmetric declared bounds: unit 1's current bound caps it
    // at 60 against the others' 90.
    let mut bounds = bounds(3);
    bounds[0].max_current = num(60.0);
    let mut group =
        BlowerGroup::new("bg", DEMAND, None, blowers(3), bounds, OUTPUTS, config()).unwrap();
    let io = io(3, false);
    // Join all three at 240 — past the 216 stage-up of the 240
    // committed ceiling — then settle.
    for (index, tick) in [(1usize, 1u64), (2, 2), (3, 3)] {
        scan(&mut group, &io, 240.0, tick);
        feed_run(&io, index, true, tick + 1);
    }
    scan(&mut group, &io, 240.0, 4);
    assert_eq!(out_int(&io, STAGED), 3);
    // The equal share 80 clamps unit 1 to its 60 current bound.
    assert_eq!(out_f64(&io, capacity(1)), 60.0);
    assert_eq!(out_f64(&io, capacity(2)), 80.0);
    assert_eq!(out_f64(&io, capacity(3)), 80.0);
    // Demand 60 de-stages unit 3 — dropping it leaves 150
    // committed against stage_down × 150 = 120 — and the equal
    // share lands inside both bounds.
    feed_run(&io, 3, false, 6);
    scan(&mut group, &io, 60.0, 5);
    assert!(out_bool(&io, vent(3)));
    scan(&mut group, &io, 60.0, 6);
    assert_eq!(out_f64(&io, capacity(1)), 30.0);
    assert_eq!(out_f64(&io, capacity(2)), 30.0);
    // Demand 10 de-stages unit 2; the lone unit's share falls
    // below its floor and clamps up to min_flow.
    feed_run(&io, 2, false, 8);
    scan(&mut group, &io, 10.0, 7);
    assert!(out_bool(&io, vent(2)));
    scan(&mut group, &io, 10.0, 8);
    assert_eq!(out_int(&io, STAGED), 1);
    assert_eq!(out_f64(&io, capacity(1)), 20.0);
}

#[test]
fn min_run_ticks_holds_a_warranted_departure() {
    let mut group = component(BlowerGroupConfig {
        min_run_ticks: 3,
        ..config()
    });
    let io = io(3, false);
    // Units 1 and 2 join at ticks 1 and 2.
    scan(&mut group, &io, 150.0, 1);
    feed_run(&io, 1, true, 2);
    scan(&mut group, &io, 150.0, 2);
    feed_run(&io, 2, true, 3);
    // The demand collapses the same scan unit 2 proves: the
    // departure is warranted but both units sit inside their
    // three-tick minimum run — the request stands, nothing moves.
    scan(&mut group, &io, 20.0, 3);
    assert_eq!(out_int(&io, STAGED), 2);
    assert!(out_bool(&io, cmd(1)));
    assert!(out_bool(&io, cmd(2)));
    assert!(!out_bool(&io, TRANSITION));
    // Tick 4 clears unit 1's timer — unit 2's still holds — and
    // the standing request departs the first eligible unit.
    feed_run(&io, 1, false, 5);
    scan(&mut group, &io, 20.0, 4);
    assert!(!out_bool(&io, cmd(1)));
    assert!(out_bool(&io, vent(1)));
    assert!(out_bool(&io, cmd(2)));
    // The proven stop resolves unit 1; unit 2 — the last unit
    // standing against a positive demand — stays on the header.
    scan(&mut group, &io, 20.0, 5);
    assert_eq!(out_int(&io, STAGED), 1);
    assert!(out_bool(&io, cmd(2)));
}

#[test]
fn start_interval_ticks_hold_the_restart() {
    let mut group = component(BlowerGroupConfig {
        min_start_interval_ticks: 4,
        ..config()
    });
    let io = io(3, false);
    // Unit 1 joins at 2, proves at 3; demand drops at 4 and it
    // departs, proven stopped at 5 — its restart holds until tick
    // 5 + 4 = 9.
    scan(&mut group, &io, 50.0, 2);
    feed_run(&io, 1, true, 3);
    scan(&mut group, &io, 50.0, 3);
    feed_run(&io, 1, false, 4);
    scan(&mut group, &io, 0.0, 4);
    assert!(out_bool(&io, vent(1)));
    scan(&mut group, &io, 0.0, 5);
    assert!(!out_bool(&io, vent(1)));

    // Demand returns at 6: unit 1 is held out, so the lowest
    // eligible unit — unit 2 — takes the demand.
    feed_run(&io, 2, true, 7);
    scan(&mut group, &io, 50.0, 6);
    assert!(out_bool(&io, cmd(2)));
    assert!(!out_bool(&io, cmd(1)));
    scan(&mut group, &io, 50.0, 7);
    assert!(!out_bool(&io, vent(2)));
    // Still inside unit 1's interval, a second warranted stage
    // picks unit 3 rather than waiting on it.
    feed_run(&io, 3, true, 9);
    scan(&mut group, &io, 100.0, 8);
    assert!(out_bool(&io, cmd(3)));
    assert!(!out_bool(&io, cmd(1)));
    scan(&mut group, &io, 100.0, 9);
    // Tick 9 clears unit 1's interval: demand 200 needs a third.
    feed_run(&io, 1, true, 11);
    scan(&mut group, &io, 200.0, 10);
    assert!(out_bool(&io, cmd(1)));
    scan(&mut group, &io, 200.0, 11);
    assert_eq!(out_int(&io, STAGED), 3);
}

#[test]
fn a_faulted_joined_unit_departs_and_the_standby_picks_up() {
    let mut group = component(config());
    let io = io(3, false);
    // Units 1 and 2 join on demand 150.
    scan(&mut group, &io, 150.0, 1);
    feed_run(&io, 1, true, 2);
    scan(&mut group, &io, 150.0, 2);
    feed_run(&io, 2, true, 3);
    scan(&mut group, &io, 150.0, 3);
    assert_eq!(out_int(&io, STAGED), 2);

    // Unit 1's fault asserts: it departs through the choreography —
    // vent open, command dropped — at the same scan, while the
    // serialized elective start waits one scan for the handover.
    feed_fault(&io, 1, true, 4);
    feed_run(&io, 1, false, 5);
    feed_run(&io, 3, true, 6);
    scan(&mut group, &io, 150.0, 4);
    assert!(!out_bool(&io, cmd(1)));
    assert!(out_bool(&io, vent(1)));
    assert!(out_bool(&io, TRANSITION));
    assert!(!out_bool(&io, cmd(3)));
    // The proven stop resolves the departure and the standby joins
    // at the next scan.
    scan(&mut group, &io, 150.0, 5);
    assert!(out_bool(&io, cmd(3)));
    assert!(out_bool(&io, vent(3)));
    scan(&mut group, &io, 150.0, 6);
    assert_eq!(out_int(&io, STAGED), 2);
    assert!(!out_bool(&io, vent(3)));
    assert_eq!(out_f64(&io, capacity(3)), 75.0);
    // The faulted unit never re-enters the staging pool.
    scan(&mut group, &io, 250.0, 7);
    assert!(!out_bool(&io, cmd(1)));
}

#[test]
fn unavailable_and_faulted_units_are_excluded() {
    let mut group = component(config());
    let io = io(3, false);
    // Unit 1 unavailable and unit 2 faulted from the start: the
    // demand stages only unit 3.
    feed_avail(&io, 1, false, 1);
    feed_fault(&io, 2, true, 1);
    feed_run(&io, 3, true, 2);
    scan(&mut group, &io, 100.0, 1);
    assert!(out_bool(&io, cmd(3)));
    assert!(!out_bool(&io, cmd(1)));
    assert!(!out_bool(&io, cmd(2)));
    assert!(!out_bool(&io, NONE_AVAIL));
    scan(&mut group, &io, 100.0, 2);
    assert_eq!(out_int(&io, STAGED), 1);
}

#[test]
fn an_unproven_join_aborts_after_vent_ticks() {
    let mut group = component_of(
        1,
        BlowerGroupConfig {
            min_start_interval_ticks: 3,
            ..config()
        },
        None,
    );
    let io = io(1, false);
    // The join starts at tick 1 with no run feedback: the first
    // unproven scan counts one, the second reaches vent_ticks and
    // the start aborts — command and vent off, the unit offline.
    scan(&mut group, &io, 100.0, 1);
    assert!(out_bool(&io, cmd(1)));
    assert!(out_bool(&io, vent(1)));
    scan(&mut group, &io, 100.0, 2);
    assert!(out_bool(&io, cmd(1)));
    scan(&mut group, &io, 100.0, 3);
    assert!(!out_bool(&io, cmd(1)));
    assert!(!out_bool(&io, vent(1)));
    assert_eq!(out_f64(&io, capacity(1)), 0.0);
    // The abort banks the start interval: the standing demand
    // cannot restart the unit until tick 3 + 3.
    scan(&mut group, &io, 100.0, 4);
    assert!(!out_bool(&io, cmd(1)));
    scan(&mut group, &io, 100.0, 5);
    assert!(!out_bool(&io, cmd(1)));
    scan(&mut group, &io, 100.0, 6);
    assert!(out_bool(&io, cmd(1)));
    assert!(out_bool(&io, vent(1)));
}

#[test]
fn an_unproven_stop_resolves_offline_after_vent_ticks() {
    let mut group = component(config());
    let io = io(3, false);
    scan(&mut group, &io, 50.0, 1);
    feed_run(&io, 1, true, 2);
    scan(&mut group, &io, 50.0, 2);
    // Demand falls to nothing: unit 1 departs but its run feedback
    // never drops — after vent_ticks the group releases it anyway
    // and the still-running machine keeps accumulating hours.
    scan(&mut group, &io, 0.0, 3);
    assert!(out_bool(&io, vent(1)));
    assert!(!out_bool(&io, cmd(1)));
    scan(&mut group, &io, 0.0, 4);
    assert!(out_bool(&io, vent(1)));
    scan(&mut group, &io, 0.0, 5);
    assert!(!out_bool(&io, vent(1)));
    assert_eq!(out_int(&io, STAGED), 0);
    let state = group.capture_state();
    assert!(
        matches!(state.get("run_hours_1"), Some(Value::Int(hours)) if hours > 0),
        "the failed-stop unit's run-hours kept accumulating"
    );
}

#[test]
fn no_rotation_departs_the_most_recently_joined() {
    let mut group = component(config());
    let io = io(3, false);
    // All three join in index order on demand 250.
    for (index, tick) in [(1usize, 1u64), (2, 2), (3, 3)] {
        scan(&mut group, &io, 250.0, tick);
        feed_run(&io, index, true, tick + 1);
    }
    scan(&mut group, &io, 250.0, 4);
    assert_eq!(out_int(&io, STAGED), 3);
    // Falling demand departs the tail of the join order — unit 3
    // first, then unit 2.
    feed_run(&io, 3, false, 5);
    scan(&mut group, &io, 140.0, 5);
    assert!(!out_bool(&io, cmd(3)));
    assert!(out_bool(&io, cmd(2)));
    scan(&mut group, &io, 140.0, 6);
    feed_run(&io, 2, false, 7);
    scan(&mut group, &io, 60.0, 7);
    assert!(!out_bool(&io, cmd(2)));
    assert!(out_bool(&io, cmd(1)));
}

#[test]
fn fixed_order_departs_the_highest_index() {
    let mut group = component(BlowerGroupConfig {
        rotation: BlowerRotation::FixedOrder,
        ..config()
    });
    let io = io(3, false);
    // Units 1 and 2 join, unit 1 faults out, unit 3 takes over —
    // the join order is 2,3 while the fixed policy still departs
    // the highest index.
    scan(&mut group, &io, 150.0, 1);
    feed_run(&io, 1, true, 2);
    scan(&mut group, &io, 150.0, 2);
    feed_run(&io, 2, true, 3);
    scan(&mut group, &io, 150.0, 3);
    feed_fault(&io, 1, true, 4);
    feed_run(&io, 1, false, 4);
    feed_run(&io, 3, true, 6);
    scan(&mut group, &io, 150.0, 4);
    scan(&mut group, &io, 150.0, 5);
    scan(&mut group, &io, 150.0, 6);
    assert_eq!(out_int(&io, STAGED), 2);
    // Demand 100 still warrants two joined over 180 committed? No —
    // 100 < 0.8 × (180 − 90) = 72 fails, so both stay. Demand 60
    // de-stages: unit 3 — the highest joined index — departs even
    // though unit 2 joined before it under LIFO too. The
    // distinguishing case: unit 1 recovered and re-joined, so the
    // join order ends …3,1 while the fixed departure picks 3.
    feed_fault(&io, 1, false, 7);
    feed_run(&io, 1, true, 9);
    scan(&mut group, &io, 250.0, 7);
    scan(&mut group, &io, 250.0, 8);
    scan(&mut group, &io, 250.0, 9);
    assert_eq!(out_int(&io, STAGED), 3);
    feed_run(&io, 3, false, 10);
    scan(&mut group, &io, 140.0, 10);
    assert!(!out_bool(&io, cmd(3)), "highest joined index departs");
    assert!(out_bool(&io, cmd(1)));
    assert!(out_bool(&io, cmd(2)));
}

#[test]
fn equalize_runtime_rotates_through_the_choreography() {
    let mut group = component_of(
        2,
        BlowerGroupConfig {
            rotation: BlowerRotation::EqualizeRuntime,
            min_run_ticks: 3,
            ..config()
        },
        None,
    );
    let io = io(2, false);
    // Unit 1 joins at 1 and proves at 2; its run-hours reach the
    // three-tick margin over the zero-hour standby at scan 4 —
    // the rotation fires: unit 2 starts off-header.
    scan(&mut group, &io, 50.0, 1);
    feed_run(&io, 1, true, 2);
    scan(&mut group, &io, 50.0, 2);
    scan(&mut group, &io, 50.0, 3);
    assert!(!out_bool(&io, cmd(2)), "the margin is not yet met");
    scan(&mut group, &io, 50.0, 4);
    assert!(out_bool(&io, cmd(2)));
    assert!(out_bool(&io, vent(2)));
    assert!(out_bool(&io, TRANSITION));
    // The join proves; the same scan's handover departs the
    // most-run unit — transition stays asserted across the pair.
    feed_run(&io, 2, true, 5);
    scan(&mut group, &io, 50.0, 5);
    assert!(!out_bool(&io, cmd(1)));
    assert!(out_bool(&io, vent(1)));
    assert!(out_bool(&io, TRANSITION));
    feed_run(&io, 1, false, 6);
    scan(&mut group, &io, 50.0, 6);
    assert!(!out_bool(&io, vent(1)));
    assert!(!out_bool(&io, TRANSITION));
    assert_eq!(out_int(&io, STAGED), 1);
    assert_eq!(out_f64(&io, capacity(2)), 50.0);
}

#[test]
fn equalize_runtime_picks_least_run_to_join_and_most_run_to_depart() {
    let mut group = component(BlowerGroupConfig {
        rotation: BlowerRotation::EqualizeRuntime,
        min_run_ticks: 2,
        ..config()
    });
    let io = io(3, false);
    // Unit 2 ran two scans before the group ever commanded it —
    // its accumulated hours put it behind the zero-hour units on
    // the join ranking.
    for tick in 1..=2 {
        feed_run(&io, 2, true, tick);
        scan(&mut group, &io, 0.0, tick);
    }
    feed_run(&io, 2, false, 3);
    scan(&mut group, &io, 50.0, 3);
    assert!(out_bool(&io, cmd(1)), "the least-run unit joins");
    feed_run(&io, 1, true, 4);
    scan(&mut group, &io, 50.0, 4);
    // Demand 150 stages a second unit: unit 3's zero hours beat
    // unit 2's two.
    scan(&mut group, &io, 150.0, 5);
    assert!(out_bool(&io, cmd(3)));
    assert!(!out_bool(&io, cmd(2)));
    feed_run(&io, 3, true, 6);
    scan(&mut group, &io, 150.0, 6);
    // Demand falls: the most-run joined unit — unit 1 — departs
    // before unit 3.
    feed_run(&io, 1, false, 7);
    scan(&mut group, &io, 30.0, 7);
    assert!(!out_bool(&io, cmd(1)));
    assert!(out_bool(&io, cmd(3)));
}

#[test]
fn operator_approval_holds_the_request_until_granted() {
    let mut group = component_of(
        2,
        BlowerGroupConfig {
            staging_authority: StagingAuthority::OperatorApproval,
            ..config()
        },
        Some(APPROVE),
    );
    let io = io(2, true);
    // Demand 100 warrants a stage: pending asserts and nothing
    // commands.
    scan(&mut group, &io, 100.0, 1);
    assert!(out_bool(&io, PENDING));
    assert!(!out_bool(&io, cmd(1)));
    scan(&mut group, &io, 100.0, 2);
    assert!(out_bool(&io, PENDING));
    // The approve grant executes the held request at the scan it
    // reads; the join choreography runs normally.
    feed_approve(&io, true, 3);
    feed_run(&io, 1, true, 4);
    scan(&mut group, &io, 100.0, 3);
    assert!(!out_bool(&io, PENDING));
    assert!(out_bool(&io, cmd(1)));
    assert!(out_bool(&io, vent(1)));
    scan(&mut group, &io, 100.0, 4);
    assert!(!out_bool(&io, vent(1)));
    // The standing approve was consumed: the still-warranted second
    // stage pends while the point re-arms on a false, and the next
    // true grants it.
    scan(&mut group, &io, 100.0, 5);
    assert!(out_bool(&io, PENDING));
    assert!(!out_bool(&io, cmd(2)));
    feed_approve(&io, false, 6);
    scan(&mut group, &io, 100.0, 6);
    assert!(out_bool(&io, PENDING));
    feed_approve(&io, true, 7);
    feed_run(&io, 2, true, 8);
    scan(&mut group, &io, 100.0, 7);
    assert!(out_bool(&io, cmd(2)));
    assert!(out_bool(&io, vent(2)));
    scan(&mut group, &io, 100.0, 8);
    assert_eq!(out_int(&io, STAGED), 2);
    assert!(!out_bool(&io, PENDING));
}

#[test]
fn a_standing_approve_grants_the_next_request() {
    let mut group = component_of(
        2,
        BlowerGroupConfig {
            staging_authority: StagingAuthority::OperatorApproval,
            ..config()
        },
        Some(APPROVE),
    );
    let io = io(2, true);
    // Approve standing true ahead of the request pre-authorizes the
    // next eligible change — it executes the scan the demand
    // arrives.
    feed_approve(&io, true, 1);
    feed_run(&io, 1, true, 2);
    scan(&mut group, &io, 50.0, 1);
    assert!(out_bool(&io, cmd(1)));
    assert!(!out_bool(&io, PENDING));
    // The grant is consumed: a later request pends on the still-
    // standing approve.
    scan(&mut group, &io, 100.0, 2);
    assert!(out_bool(&io, PENDING));
    assert!(!out_bool(&io, cmd(2)));
}

#[test]
fn flag_only_flags_the_request_and_never_commands() {
    let mut group = component_of(
        2,
        BlowerGroupConfig {
            staging_authority: StagingAuthority::FlagOnly,
            ..config()
        },
        None,
    );
    let io = io(2, false);
    scan(&mut group, &io, 100.0, 1);
    assert!(out_bool(&io, PENDING));
    assert!(!out_bool(&io, cmd(1)));
    assert_eq!(out_f64(&io, capacity(1)), 0.0);
    assert_eq!(out_int(&io, STAGED), 0);
    // The recommendation stands while the demand does — the
    // operation stays manual.
    for tick in 2..=4 {
        scan(&mut group, &io, 100.0, tick);
        assert!(out_bool(&io, PENDING));
        assert!(!out_bool(&io, cmd(1)));
    }
    scan(&mut group, &io, 0.0, 5);
    assert!(!out_bool(&io, PENDING));
}

#[test]
fn operator_approval_requires_a_bound_approve_point() {
    let error = BlowerGroup::new(
        "bg",
        DEMAND,
        None,
        blowers(1),
        bounds(1),
        OUTPUTS,
        BlowerGroupConfig {
            staging_authority: StagingAuthority::OperatorApproval,
            ..config()
        },
    )
    .unwrap_err();
    match error {
        ParameterError::Invalid { parameter, .. } => assert_eq!(parameter, "approve"),
        other => panic!("expected Invalid, got {other:?}"),
    }
}

#[test]
fn none_available_and_all_faulted_report_the_group_conditions() {
    let mut group = component_of(2, config(), None);
    let io = io(2, false);
    scan(&mut group, &io, 0.0, 1);
    assert!(!out_bool(&io, NONE_AVAIL));
    assert!(!out_bool(&io, ALL_FAULTED));
    // Every availability lost — none_available asserts without a
    // fault standing.
    for index in 1..=2 {
        feed_avail(&io, index, false, 2);
    }
    scan(&mut group, &io, 0.0, 2);
    assert!(out_bool(&io, NONE_AVAIL));
    assert!(!out_bool(&io, ALL_FAULTED));
    // Every fault flag failed: both conditions stand, since a
    // faulted unit is never available.
    for index in 1..=2 {
        feed_avail(&io, index, true, 3);
        feed_fault(&io, index, true, 3);
    }
    scan(&mut group, &io, 0.0, 3);
    assert!(out_bool(&io, NONE_AVAIL));
    assert!(out_bool(&io, ALL_FAULTED));
}

#[test]
fn blower_group_non_good_inputs_take_the_fail_safe_reading() {
    let mut group = component(config());
    let io = io(3, false);
    scan(&mut group, &io, 50.0, 1);
    feed_run(&io, 1, true, 2);
    scan(&mut group, &io, 50.0, 2);
    assert_eq!(out_int(&io, STAGED), 1);

    // A non-Good demand cannot move the group: the held 50 neither
    // stages down nor up while the bad reading stands.
    io.feed(
        DEMAND,
        Sample::new(
            float(0.0),
            Quality::Bad(QualityReason::CommunicationFault),
            Tick(3),
        ),
    );
    group.scan(&io, Tick(3));
    assert_eq!(out_int(&io, STAGED), 1);
    assert!(out_bool(&io, cmd(1)));

    // A non-Good availability reads unavailable — the joined unit
    // departs the same scan.
    io.feed(
        avail(2),
        Sample::new(
            Value::Bool(true),
            Quality::Bad(QualityReason::CommunicationFault),
            Tick(4),
        ),
    );
    feed_run(&io, 3, true, 6);
    io.feed(
        avail(1),
        Sample::new(
            Value::Bool(true),
            Quality::Bad(QualityReason::CommunicationFault),
            Tick(4),
        ),
    );
    feed_run(&io, 1, false, 4);
    feed_demand(&io, 50.0, 4);
    group.scan(&io, Tick(4));
    assert!(!out_bool(&io, cmd(1)));
    assert!(out_bool(&io, vent(1)));
    // The demand hands to unit 3 — unit 2's untrusted availability
    // excludes it.
    group.scan(&io, Tick(5));
    assert!(out_bool(&io, cmd(3)));
    group.scan(&io, Tick(6));
    assert_eq!(out_int(&io, STAGED), 1);
    assert!(!out_bool(&io, vent(3)));
}

#[test]
fn a_non_good_approve_grants_nothing() {
    let mut group = component_of(
        2,
        BlowerGroupConfig {
            staging_authority: StagingAuthority::OperatorApproval,
            ..config()
        },
        Some(APPROVE),
    );
    let io = io(2, true);
    scan(&mut group, &io, 100.0, 1);
    assert!(out_bool(&io, PENDING));
    io.feed(
        APPROVE,
        Sample::new(
            Value::Bool(true),
            Quality::Bad(QualityReason::CommunicationFault),
            Tick(2),
        ),
    );
    group.scan(&io, Tick(2));
    assert!(out_bool(&io, PENDING));
    assert!(!out_bool(&io, cmd(1)));
}

#[test]
fn capture_restore_mid_join_resumes_identically() {
    // The checkpoint lands inside unit 1's prove window: the
    // restored instance continues the same join, run-hours, and
    // held demand — the outputs agree scan for scan.
    let run_pair = |group: &mut BlowerGroup| {
        let io = io(3, false);
        let mut outputs = Vec::new();
        for tick in 1..=5 {
            feed_run(&io, 1, true, 3);
            feed_run(&io, 2, true, 5);
            scan(group, &io, 150.0, tick);
            outputs.push((
                io.written(cmd(1)).unwrap().value,
                io.written(vent(1)).unwrap().value,
                io.written(cmd(2)).unwrap().value,
                io.written(vent(2)).unwrap().value,
                io.written(STAGED).unwrap().value,
                io.written(TRANSITION).unwrap().value,
                io.written(capacity(1)).unwrap().value,
                io.written(capacity(2)).unwrap().value,
            ));
        }
        outputs
    };
    let mut reference = component(config());
    let expected = run_pair(&mut reference);

    let mut interrupted = component(config());
    let io = io(3, false);
    scan(&mut interrupted, &io, 150.0, 1);
    let checkpoint = interrupted.capture_state();
    assert_eq!(checkpoint.get("phase_1"), Some(Value::Int(1)));
    assert_eq!(checkpoint.get("last_demand"), Some(float(150.0)));

    let mut standby = component(config());
    standby.restore_state(&checkpoint).unwrap();
    let mut outputs = vec![(
        io.written(cmd(1)).unwrap().value,
        io.written(vent(1)).unwrap().value,
        io.written(cmd(2)).unwrap().value,
        io.written(vent(2)).unwrap().value,
        io.written(STAGED).unwrap().value,
        io.written(TRANSITION).unwrap().value,
        io.written(capacity(1)).unwrap().value,
        io.written(capacity(2)).unwrap().value,
    )];
    for tick in 2..=5 {
        feed_run(&io, 1, true, 3);
        feed_run(&io, 2, true, 5);
        scan(&mut standby, &io, 150.0, tick);
        outputs.push((
            io.written(cmd(1)).unwrap().value,
            io.written(vent(1)).unwrap().value,
            io.written(cmd(2)).unwrap().value,
            io.written(vent(2)).unwrap().value,
            io.written(STAGED).unwrap().value,
            io.written(TRANSITION).unwrap().value,
            io.written(capacity(1)).unwrap().value,
            io.written(capacity(2)).unwrap().value,
        ));
    }
    assert_eq!(outputs, expected);
}

#[test]
fn checkpoint_round_trips_position_hours_and_timers() {
    let mut group = component(BlowerGroupConfig {
        min_start_interval_ticks: 5,
        ..config()
    });
    let io = io(3, false);
    // Unit 1 joined and running; unit 2 in flight; unit 3 ran one
    // uncommanded scan — the checkpoint carries phases, prove
    // timers, run-hours, and the interval references.
    feed_run(&io, 3, true, 0);
    scan(&mut group, &io, 50.0, 1);
    feed_run(&io, 3, false, 1);
    feed_run(&io, 1, true, 2);
    scan(&mut group, &io, 50.0, 2);
    scan(&mut group, &io, 50.0, 3);
    scan(&mut group, &io, 150.0, 4);
    let state = group.capture_state();
    assert_eq!(state.get("phase_1"), Some(Value::Int(2)));
    assert_eq!(state.get("phase_2"), Some(Value::Int(1)));
    assert_eq!(state.get("phase_3"), Some(Value::Int(0)));
    assert_eq!(state.get("phase_ticks_2"), Some(Value::Int(0)));
    assert_eq!(state.get("started_at_1"), Some(Value::Int(1)));
    assert_eq!(state.get("join_rank_1"), Some(Value::Int(1)));
    assert_eq!(state.get("join_rank_2"), Some(Value::Int(0)));
    // Unit 3 was never commanded: the scan its feedback stood true
    // banked a run-hour without a stop reference.
    assert_eq!(state.get("run_hours_3"), Some(Value::Int(1)));
    assert_eq!(state.get("stopped_at_3"), Some(Value::Int(0)));

    let mut standby = component(BlowerGroupConfig {
        min_start_interval_ticks: 5,
        ..config()
    });
    standby.restore_state(&state).unwrap();
    assert_eq!(standby.capture_state(), state);
}

#[test]
fn restore_rejects_malformed_state_naming_the_field() {
    let group = || component_of(2, config(), None);
    let valid = group().capture_state();

    // An unknown field.
    let mut extra = valid.clone();
    extra.insert("bogus", Value::Int(0));
    assert!(matches!(
        group().restore_state(&extra),
        Err(StateError::UnknownField { ref field, .. }) if field == "bogus"
    ));

    // An undeclared phase code.
    let mut bad = valid.clone();
    bad.insert("phase_1", Value::Int(9));
    assert!(matches!(
        group().restore_state(&bad),
        Err(StateError::InvalidValue { ref field, .. }) if field == "phase_1"
    ));

    // A rank on a unit that is not joined.
    let mut bad = valid.clone();
    bad.insert("join_rank_1", Value::Int(1));
    assert!(matches!(
        group().restore_state(&bad),
        Err(StateError::InvalidValue { ref field, .. }) if field == "join_rank_1"
    ));

    // One rotation leg without the other.
    let mut bad = valid.clone();
    bad.insert("rotation_depart", Value::Int(1));
    assert!(matches!(
        group().restore_state(&bad),
        Err(StateError::InvalidValue { ref field, .. }) if field == "rotation_join"
    ));

    // A bounds inversion.
    let mut bad = valid.clone();
    bad.insert("unit_1_max_flow", float(5.0));
    assert!(matches!(
        group().restore_state(&bad),
        Err(StateError::InvalidValue { ref field, .. }) if field == "unit_1_max_flow"
    ));

    // A negative timer and a zero prove window.
    let mut bad = valid.clone();
    bad.insert("min_run_ticks", Value::Int(-1));
    assert!(matches!(
        group().restore_state(&bad),
        Err(StateError::InvalidValue { ref field, .. }) if field == "min_run_ticks"
    ));
    let mut bad = valid.clone();
    bad.insert("vent_ticks", Value::Int(0));
    assert!(matches!(
        group().restore_state(&bad),
        Err(StateError::InvalidValue { ref field, .. }) if field == "vent_ticks"
    ));
}

#[test]
fn from_parameters_reads_the_declared_map() {
    let parameters = table_of(&[
        ("staging_authority", Value::Int(0)),
        ("stage_up", float(0.9)),
        ("stage_down", float(0.8)),
        ("min_run_ticks", Value::Int(3)),
        ("min_start_interval_ticks", Value::Int(4)),
        ("unit_1_min_flow", float(20.0)),
        ("unit_1_max_flow", float(100.0)),
        ("unit_1_max_current", float(90.0)),
        ("unit_2_min_flow", float(20.0)),
        ("unit_2_max_flow", float(100.0)),
        ("unit_2_max_current", float(90.0)),
        ("vent_ticks", Value::Int(2)),
        ("rotation", Value::Int(1)),
    ]);
    let group =
        BlowerGroup::from_parameters("bg", DEMAND, None, blowers(2), OUTPUTS, &parameters)
            .unwrap();
    let config = group.config();
    assert_eq!(config.staging_authority, StagingAuthority::Automatic);
    assert_eq!(config.rotation, BlowerRotation::EqualizeRuntime);
    assert_eq!(config.min_run_ticks, 3);
    assert_eq!(config.vent_ticks, 2);
}

#[test]
fn from_parameters_names_the_offending_parameter() {
    let full = table_of(&[
        ("staging_authority", Value::Int(0)),
        ("stage_up", float(0.9)),
        ("stage_down", float(0.8)),
        ("min_run_ticks", Value::Int(0)),
        ("min_start_interval_ticks", Value::Int(0)),
        ("unit_1_min_flow", float(20.0)),
        ("unit_1_max_flow", float(100.0)),
        ("unit_1_max_current", float(90.0)),
        ("vent_ticks", Value::Int(2)),
        ("rotation", Value::Int(0)),
    ]);
    let build = |parameters: &Parameters| {
        BlowerGroup::from_parameters("bg", DEMAND, None, blowers(1), OUTPUTS, parameters)
    };

    let mut missing = full.clone();
    missing.remove("staging_authority");
    assert!(matches!(
        build(&missing),
        Err(ParameterError::Missing { ref parameter, .. }) if parameter == "staging_authority"
    ));
    let mut missing = full.clone();
    missing.remove("unit_1_max_flow");
    assert!(matches!(
        build(&missing),
        Err(ParameterError::Missing { ref parameter, .. }) if parameter == "unit_1_max_flow"
    ));

    let mut bad = full.clone();
    bad.insert("staging_authority", Value::Int(7));
    assert!(matches!(
        build(&bad),
        Err(ParameterError::Invalid { ref parameter, .. }) if parameter == "staging_authority"
    ));
    let mut bad = full.clone();
    bad.insert("rotation", Value::Int(3));
    assert!(matches!(
        build(&bad),
        Err(ParameterError::Invalid { ref parameter, .. }) if parameter == "rotation"
    ));
    let mut bad = full.clone();
    bad.insert("unit_1_max_current", float(10.0));
    assert!(matches!(
        build(&bad),
        Err(ParameterError::Invalid { ref parameter, .. }) if parameter == "unit_1_max_current"
    ));
    let mut bad = full.clone();
    bad.insert("vent_ticks", Value::Int(0));
    assert!(matches!(
        build(&bad),
        Err(ParameterError::Invalid { ref parameter, .. }) if parameter == "vent_ticks"
    ));
    let mut bad = full.clone();
    bad.insert("stage_up", float(-0.5));
    assert!(matches!(
        build(&bad),
        Err(ParameterError::Invalid { ref parameter, .. }) if parameter == "stage_up"
    ));
}

#[test]
fn an_empty_unit_set_is_a_construction_error() {
    assert!(matches!(
        BlowerGroup::new("bg", DEMAND, None, vec![], vec![], OUTPUTS, config()),
        Err(ParameterError::Invalid { ref parameter, .. }) if parameter == "units"
    ));
}

#[test]
fn a_bounds_count_mismatch_is_a_construction_error() {
    assert!(matches!(
        BlowerGroup::new("bg", DEMAND, None, blowers(2), bounds(1), OUTPUTS, config()),
        Err(ParameterError::Invalid { ref parameter, .. }) if parameter == "bounds"
    ));
}

#[test]
fn apply_parameter_tunes_and_refuses() {
    let mut group = component_of(2, config(), None);
    group
        .apply_parameter("stage_up", float(0.75))
        .unwrap();
    assert_eq!(group.config().stage_up, num(0.75));
    group.apply_parameter("rotation", Value::Int(2)).unwrap();
    assert_eq!(group.config().rotation, BlowerRotation::FixedOrder);
    group
        .apply_parameter("unit_2_max_flow", float(80.0))
        .unwrap();
    group
        .apply_parameter("min_start_interval_ticks", Value::Int(7))
        .unwrap();
    assert_eq!(group.config().min_start_interval_ticks, 7);

    // Refusals name the parameter and change nothing.
    assert!(matches!(
        group.apply_parameter("vent_ticks", Value::Int(0)),
        Err(CommandError::InvalidParameter { ref parameter, .. }) if parameter == "vent_ticks"
    ));
    assert!(matches!(
        group.apply_parameter("unit_1_min_flow", float(200.0)),
        Err(CommandError::InvalidParameter { ref parameter, .. }) if parameter == "unit_1_min_flow"
    ));
    assert!(matches!(
        group.apply_parameter("rotation", Value::Int(9)),
        Err(CommandError::InvalidParameter { ref parameter, .. }) if parameter == "rotation"
    ));
    // Approval without a bound approve point is refused.
    assert!(matches!(
        group.apply_parameter("staging_authority", Value::Int(1)),
        Err(CommandError::InvalidParameter { ref parameter, .. })
            if parameter == "staging_authority"
    ));
    assert!(matches!(
        group.apply_parameter("nope", Value::Int(0)),
        Err(CommandError::UnknownParameter { ref parameter, .. }) if parameter == "nope"
    ));
    assert!(matches!(
        group.apply_parameter("unit_9_min_flow", float(1.0)),
        Err(CommandError::UnknownParameter { ref parameter, .. })
            if parameter == "unit_9_min_flow"
    ));
}

#[test]
fn describe_reports_roles_and_parameter_ranges() {
    let group = component_of(2, config(), Some(APPROVE));
    let descriptor = group.describe();
    assert_eq!(descriptor.kind, BlowerGroup::KIND);

    let port = |name: &str| {
        descriptor
            .ports
            .iter()
            .find(|port| port.name == name)
            .unwrap_or_else(|| panic!("missing port {name}"))
    };
    assert_eq!(port("demand").direction, Direction::In);
    assert_eq!(port("demand").kind, ValueKind::Float);
    assert_eq!(port("demand").role, Some(PortRole::Setpoint));
    assert_eq!(port("approve").role, Some(PortRole::Setpoint));
    assert_eq!(port("cmd_1").role, Some(PortRole::Output));
    assert_eq!(port("run_2").role, Some(PortRole::ProcessValue));
    assert_eq!(port("capacity_2").direction, Direction::Out);
    assert_eq!(port("capacity_2").kind, ValueKind::Float);
    assert_eq!(port("vent_2").direction, Direction::Out);
    assert_eq!(port("staged").kind, ValueKind::Int);
    assert_eq!(port("transition").role, Some(PortRole::Status));
    // The unbound form declares no `approve` port.
    assert!(
        component_of(2, config(), None)
            .describe()
            .ports
            .iter()
            .all(|port| port.name != "approve")
    );

    let names: Vec<&str> = descriptor
        .parameters
        .iter()
        .map(|parameter| parameter.name.as_str())
        .collect();
    assert_eq!(
        names,
        [
            "staging_authority",
            "stage_up",
            "stage_down",
            "min_run_ticks",
            "min_start_interval_ticks",
            "unit_1_min_flow",
            "unit_1_max_flow",
            "unit_1_max_current",
            "unit_2_min_flow",
            "unit_2_max_flow",
            "unit_2_max_current",
            "vent_ticks",
            "rotation",
        ]
    );
    let authority = descriptor
        .parameters
        .iter()
        .find(|parameter| parameter.name == "staging_authority")
        .unwrap();
    assert_eq!(authority.range.unwrap().min, Value::Int(0));
    assert_eq!(authority.range.unwrap().max, Value::Int(2));
}

#[test]
fn identical_input_runs_capture_identical_state() {
    let run_to = |group: &mut BlowerGroup| {
        let io = io(3, false);
        for tick in 1..=8 {
            feed_run(&io, 1, true, 2);
            feed_run(&io, 2, true, 4);
            feed_run(&io, 3, true, 6);
            scan(group, &io, if tick >= 5 { 200.0 } else { 100.0 }, tick);
        }
        group.capture_state()
    };
    assert_eq!(
        run_to(&mut component(config())),
        run_to(&mut component(config()))
    );
}
