use dcs_blocks::blower_group::Phase;
use dcs_blocks::{
    BlowerGroup, BlowerGroupConfig, BlowerIo, BlowerOutputs, BlowerReadings, BlowerRotation, Float,
    PointId, Quality, QualityReason, Reading, StagingAuthority, StateError, Tick, UnitBounds,
    UnitReadings, Value,
};

const STALE: Quality = Quality::Uncertain(QualityReason::Stale);

fn num(value: f64) -> Float {
    Float::from_bits(value.to_bits())
}

fn f64_of(value: Float) -> f64 {
    f64::from_bits(value.to_bits())
}

fn good(value: bool) -> Reading<bool> {
    Reading { value, quality: Quality::Good }
}

fn config() -> BlowerGroupConfig {
    BlowerGroupConfig {
        staging_authority: StagingAuthority::Automatic,
        stage_up: num(1.0),
        stage_down: num(0.5),
        min_run_ticks: 0,
        min_start_interval_ticks: 0,
        vent_ticks: 3,
        rotation: BlowerRotation::NoRotation,
    }
}

/// Three units from 20 to 100.
fn group(config: BlowerGroupConfig) -> BlowerGroup {
    let units = (0..3)
        .map(|i| BlowerIo {
            cmd: PointId(100 + i),
            run: PointId(200 + i),
            fault: PointId(300 + i),
            avail: PointId(400 + i),
            capacity: PointId(500 + i),
            vent: PointId(600 + i),
        })
        .collect();
    let bounds =
        UnitBounds { min_flow: num(20.0), max_flow: num(120.0), max_current: num(100.0) };
    BlowerGroup::new(
        "bg",
        PointId(1),
        Some(PointId(2)),
        units,
        vec![bounds; 3],
        BlowerOutputs {
            staged: PointId(3),
            none_available: PointId(4),
            all_faulted: PointId(5),
            staging_pending: PointId(6),
            transition: PointId(7),
        },
        config,
    )
    .unwrap()
}

/// What a scan drives.
#[derive(Debug, Clone, PartialEq)]
struct Driven {
    commands: Vec<bool>,
    capacities: Vec<f64>,
    vents: Vec<bool>,
    staged: i64,
    none_available: bool,
    all_faulted: bool,
    pending: bool,
    transition: bool,
}

/// A group whose units follow their commands, unless told otherwise.
struct Rig {
    group: BlowerGroup,
    demand: Reading<Float>,
    approve: Reading<bool>,
    units: Vec<UnitReadings>,
    follows: bool,
    tick: u64,
}

fn boolean(value: Value) -> bool {
    value == Value::Bool(true)
}

impl Rig {
    fn new(config: BlowerGroupConfig) -> Rig {
        let unit = UnitReadings { run: good(false), fault: good(false), avail: good(true) };
        Rig {
            group: group(config),
            demand: Reading { value: num(0.0), quality: Quality::Good },
            approve: good(false),
            units: vec![unit; 3],
            follows: true,
            tick: 0,
        }
    }

    /// A rig on which the demand has stood for some scans.
    fn settled(config: BlowerGroupConfig, demand: f64) -> Rig {
        let mut rig = Rig::new(config);
        for _ in 0..12 {
            rig.ask(demand);
        }
        rig
    }

    fn ask(&mut self, demand: f64) -> Driven {
        self.demand.value = num(demand);
        self.scan()
    }

    fn scan(&mut self) -> Driven {
        self.tick += 1;
        let tick = Tick(self.tick);
        let readings = BlowerReadings {
            demand: self.demand,
            approve: Some(self.approve),
            units: self.units.clone(),
        };
        self.group.advance(&readings, tick);
        let committed: f64 = self.group.committed_ceilings().into_iter().map(f64_of).sum();
        let departing = self.group.departing_ceiling().map_or(0.0, f64_of);
        let config = self.group.config();
        let up_limit = f64_of(config.stage_up) * committed;
        let down_limit = f64_of(config.stage_down) * (committed - departing);
        let pending = self.group.stage(&readings, num(up_limit), num(down_limit), tick);
        let share = match self.group.joined_count() {
            0 => 0.0,
            joined => f64_of(self.group.demand()) / joined as f64,
        };
        let writes = self.group.outputs(&readings, pending, num(share), tick);
        assert_eq!(writes.len(), 14);
        for write in &writes {
            assert_eq!((write.sample.quality, write.sample.tick), (Quality::Good, tick));
        }
        let value = |index: usize| writes[index].sample.value;
        let driven = Driven {
            commands: (0..3).map(|i| boolean(value(3 * i))).collect(),
            capacities: (0..3)
                .map(|i| match value(3 * i + 1) {
                    Value::Float(capacity) => f64_of(capacity),
                    other => panic!("{other:?}"),
                })
                .collect(),
            vents: (0..3).map(|i| boolean(value(3 * i + 2))).collect(),
            staged: match value(9) {
                Value::Int(staged) => staged,
                other => panic!("{other:?}"),
            },
            none_available: boolean(value(10)),
            all_faulted: boolean(value(11)),
            pending: boolean(value(12)),
            transition: boolean(value(13)),
        };
        if self.follows {
            for i in 0..3 {
                self.units[i].run.value = driven.commands[i];
            }
        }
        driven
    }

    fn phase(&self, unit: usize) -> Phase {
        match self.group.capture_state().get(&format!("phase_{unit}")) {
            Some(Value::Int(code)) => Phase::decode(code).unwrap(),
            other => panic!("{other:?}"),
        }
    }

    fn run_hours(&self, unit: usize) -> i64 {
        match self.group.capture_state().get(&format!("run_hours_{unit}")) {
            Some(Value::Int(hours)) => hours,
            other => panic!("{other:?}"),
        }
    }
}

#[test]
fn blower_codes_read_back() {
    for authority in [
        StagingAuthority::Automatic,
        StagingAuthority::OperatorApproval,
        StagingAuthority::FlagOnly,
    ] {
        assert_eq!(StagingAuthority::decode(authority.code()), Some(authority));
    }
    for rotation in [
        BlowerRotation::NoRotation,
        BlowerRotation::EqualizeRuntime,
        BlowerRotation::FixedOrder,
    ] {
        assert_eq!(BlowerRotation::decode(rotation.code()), Some(rotation));
    }
    for phase in [Phase::Offline, Phase::Joining, Phase::Joined, Phase::Departing] {
        assert_eq!(Phase::decode(phase.code()), Some(phase));
    }
    assert_eq!(StagingAuthority::decode(3), None);
    assert_eq!(BlowerRotation::decode(-1), None);
    assert_eq!(Phase::decode(4), None);
}

#[test]
fn untrusted_readings_fail_safe() {
    let mut rig = Rig::new(config());
    rig.units[0].avail.quality = STALE;
    rig.units[1].fault.quality = STALE;
    let driven = rig.ask(50.0);
    assert_eq!(driven.commands, [false, false, true]);
    assert!(!driven.none_available && !driven.all_faulted);
    // An untrusted feedback proves no join.
    rig.units[2].run = Reading { value: true, quality: STALE };
    rig.follows = false;
    rig.scan();
    assert_eq!(rig.phase(3), Phase::Joining);
    assert_eq!(rig.run_hours(3), 0);
    for unit in 0..3 {
        rig.units[unit].fault.quality = STALE;
    }
    let driven = rig.scan();
    assert!(driven.none_available && driven.all_faulted);
}

#[test]
fn untrusted_demand_is_held() {
    let mut rig = Rig::settled(config(), 80.0);
    rig.demand = Reading { value: num(5.0), quality: STALE };
    assert_eq!(rig.scan().capacities, [80.0, 0.0, 0.0]);
    rig.demand = Reading { value: num(f64::NAN), quality: Quality::Good };
    assert_eq!(rig.scan().capacities, [80.0, 0.0, 0.0]);
    rig.demand = Reading { value: num(-3.0), quality: Quality::Good };
    rig.scan();
    assert_eq!(rig.group.demand(), num(0.0));
}

#[test]
fn flag_only_never_stages() {
    let mut rig =
        Rig::new(BlowerGroupConfig { staging_authority: StagingAuthority::FlagOnly, ..config() });
    for _ in 0..5 {
        let driven = rig.ask(250.0);
        assert!(driven.pending && !driven.transition);
        assert_eq!(driven.staged, 0);
    }
    assert!(!rig.ask(0.0).pending);
}

#[test]
fn automatic_changes_begin_at_once() {
    let mut rig = Rig::new(config());
    let driven = rig.ask(250.0);
    assert!(driven.transition && !driven.pending);
    assert_eq!(driven.staged, 1);
}

#[test]
fn elective_changes_serialize() {
    let mut rig = Rig::new(config());
    for _ in 0..12 {
        let driven = rig.ask(250.0);
        let moving = driven.vents.iter().filter(|open| **open).count();
        assert!(moving <= 1);
        assert_eq!(driven.transition, moving == 1);
    }
    assert_eq!(rig.scan().staged, 3);
}

#[test]
fn departures_serve_their_run() {
    let mut rig = Rig::new(BlowerGroupConfig { min_run_ticks: 6, ..config() });
    rig.ask(50.0);
    rig.ask(50.0);
    assert_eq!(rig.phase(1), Phase::Joined);
    let mut commanded = Vec::new();
    for _ in 0..6 {
        commanded.push(rig.ask(0.0).commands[0]);
    }
    // Started in scan 1, so scan 7 is the first that may depart it.
    assert_eq!(commanded, [true, true, true, true, false, false]);
}

#[test]
fn starts_sit_out_their_interval() {
    let mut rig = Rig::new(BlowerGroupConfig { min_start_interval_ticks: 5, ..config() });
    rig.ask(50.0);
    rig.ask(50.0);
    rig.ask(0.0);
    rig.ask(0.0);
    assert_eq!(rig.phase(1), Phase::Offline);
    rig.units[1].avail.value = false;
    rig.units[2].avail.value = false;
    // Offline since scan 4: the unit may start in scan 9.
    let started: Vec<bool> = (0..6).map(|_| rig.ask(50.0).commands[0]).collect();
    assert_eq!(started, [false, false, false, false, true, true]);
}

#[test]
fn joins_follow_the_rotation() {
    for (rotation, first) in
        [(BlowerRotation::NoRotation, 1), (BlowerRotation::EqualizeRuntime, 3)]
    {
        let mut rig = Rig::new(BlowerGroupConfig { rotation, ..config() });
        // Units 1 and 2 turn for a while without being asked to.
        rig.follows = false;
        rig.units[0].run.value = true;
        rig.units[1].run.value = true;
        for _ in 0..3 {
            rig.ask(0.0);
        }
        rig.units[0].run.value = false;
        rig.units[1].run.value = false;
        rig.ask(0.0);
        let driven = rig.ask(50.0);
        let started: Vec<bool> = (1..=3).map(|unit| unit == first).collect();
        assert_eq!(driven.commands, started, "{rotation:?}");
    }
}

#[test]
fn departures_follow_the_rotation() {
    for (rotation, departs) in [
        (BlowerRotation::NoRotation, 1),
        (BlowerRotation::FixedOrder, 3),
        (BlowerRotation::EqualizeRuntime, 2),
    ] {
        let mut rig = Rig::new(BlowerGroupConfig { rotation, stage_down: num(0.9), ..config() });
        // Unit 1 joins last.
        rig.units[0].avail.value = false;
        for _ in 0..5 {
            rig.ask(150.0);
        }
        rig.units[0].avail.value = true;
        for _ in 0..3 {
            rig.ask(250.0);
        }
        assert_eq!(rig.scan().staged, 3);
        let driven = rig.ask(150.0);
        let kept: Vec<bool> = (1..=3).map(|unit| unit != departs).collect();
        assert_eq!(driven.commands, kept, "{rotation:?}");
    }
}

#[test]
fn one_approval_grants_one_change() {
    let mut rig = Rig::new(BlowerGroupConfig {
        staging_authority: StagingAuthority::OperatorApproval,
        ..config()
    });
    let driven = rig.ask(250.0);
    assert!(driven.pending && driven.staged == 0);
    rig.approve = Reading { value: true, quality: STALE };
    assert_eq!(rig.scan().staged, 0);
    rig.approve = good(true);
    assert_eq!(rig.scan().staged, 1);
    for _ in 0..4 {
        let driven = rig.scan();
        assert!(driven.pending && driven.staged == 1);
    }
    rig.approve = good(false);
    rig.scan();
    rig.approve = good(true);
    assert_eq!(rig.scan().staged, 2);
}

#[test]
fn capacity_stays_in_bounds() {
    let mut rig = Rig::settled(config(), 80.0);
    assert_eq!(rig.scan().capacities, [80.0, 0.0, 0.0]);
    assert_eq!(rig.ask(5.0).capacities, [20.0, 0.0, 0.0]);
    rig.units[1].avail.value = false;
    rig.units[2].avail.value = false;
    assert_eq!(rig.ask(500.0).capacities, [100.0, 0.0, 0.0]);
}

#[test]
fn lost_units_depart_at_once() {
    let mut rig = Rig::settled(BlowerGroupConfig { min_run_ticks: 1000, ..config() }, 80.0);
    rig.units[0].fault.value = true;
    let driven = rig.scan();
    assert_eq!(rig.phase(1), Phase::Departing);
    assert!(!driven.commands[0] && driven.vents[0]);
}

/// Unit 1 carries the demand and has run; unit 2 is due to take over.
fn due_to_rotate() -> Rig {
    let mut rig = Rig::new(config());
    rig.units[2].avail.value = false;
    for _ in 0..6 {
        rig.ask(80.0);
    }
    rig.group.apply_parameter("rotation", Value::Int(1)).unwrap();
    rig
}

#[test]
fn rotation_departs_after_its_join() {
    let mut rig = due_to_rotate();
    let driven = rig.scan();
    assert_eq!((rig.phase(1), rig.phase(2)), (Phase::Joined, Phase::Joining));
    assert!(driven.transition);
    let driven = rig.scan();
    assert_eq!((rig.phase(1), rig.phase(2)), (Phase::Departing, Phase::Joined));
    assert!(driven.transition);
    let driven = rig.scan();
    assert_eq!((rig.phase(1), rig.phase(2)), (Phase::Offline, Phase::Joined));
    assert!(!driven.transition);
}

#[test]
fn rotation_is_one_transition() {
    let mut rig = due_to_rotate();
    let transitions: Vec<bool> = (0..4).map(|_| rig.scan().transition).collect();
    assert_eq!(transitions, [true, true, false, false]);
    // An aborted join cancels the swap.
    let mut rig = due_to_rotate();
    rig.scan();
    rig.units[1].fault.value = true;
    rig.scan();
    assert_eq!((rig.phase(1), rig.phase(2)), (Phase::Joined, Phase::Offline));
}

#[test]
fn run_hours_count_proven_runs() {
    let mut rig = Rig::new(config());
    rig.follows = false;
    rig.units[1].run.value = true;
    for _ in 0..4 {
        rig.scan();
    }
    rig.units[1].run.quality = STALE;
    rig.scan();
    assert_eq!((rig.run_hours(1), rig.run_hours(2)), (0, 4));
}

#[test]
fn legs_last_their_window() {
    // A start that is never proven.
    let mut rig = Rig::new(BlowerGroupConfig { min_start_interval_ticks: 10, ..config() });
    rig.follows = false;
    rig.units[1].avail.value = false;
    rig.units[2].avail.value = false;
    let phases: Vec<Phase> = (0..4)
        .map(|_| {
            rig.ask(50.0);
            rig.phase(1)
        })
        .collect();
    assert_eq!(phases, [Phase::Joining, Phase::Joining, Phase::Joining, Phase::Offline]);

    // A stop that is never proven ends the same way.
    let mut rig = Rig::settled(config(), 50.0);
    rig.follows = false;
    let phases: Vec<Phase> = (0..4)
        .map(|_| {
            rig.ask(0.0);
            rig.phase(1)
        })
        .collect();
    assert_eq!(
        phases,
        [Phase::Departing, Phase::Departing, Phase::Departing, Phase::Offline]
    );
}

#[test]
fn phases_are_driven() {
    let mut rig = Rig::new(config());
    let driven = rig.ask(50.0);
    assert_eq!(
        (driven.commands[0], driven.vents[0], driven.capacities[0]),
        (true, true, 20.0)
    );
    let driven = rig.ask(50.0);
    assert_eq!(
        (driven.commands[0], driven.vents[0], driven.capacities[0]),
        (true, false, 50.0)
    );
    let driven = rig.ask(0.0);
    assert_eq!(
        (driven.commands[0], driven.vents[0], driven.capacities[0]),
        (false, true, 0.0)
    );
    let driven = rig.ask(0.0);
    assert_eq!(
        (driven.commands[0], driven.vents[0], driven.capacities[0]),
        (false, false, 0.0)
    );
}

#[test]
fn blower_checkpoint_round_trip() {
    for scans in 0..9 {
        let mut rig = Rig::new(config());
        for _ in 0..scans {
            rig.ask(250.0);
        }
        let mut standby = Rig::new(BlowerGroupConfig { stage_up: num(0.1), ..config() });
        standby.group.restore_state(&rig.group.capture_state()).unwrap();
        assert_eq!(standby.group.capture_state(), rig.group.capture_state());
        standby.units = rig.units.clone();
        standby.tick = rig.tick;
        for demand in [250.0, 120.0, 40.0, 0.0] {
            assert_eq!(standby.ask(demand), rig.ask(demand), "after {scans} scans");
        }
    }
}

#[test]
fn retunes_keep_the_units() {
    let mut rig = Rig::settled(config(), 250.0);
    let before = rig.group.capture_state();
    for (name, value) in [
        ("stage_up", Value::Float(num(0.7))),
        ("vent_ticks", Value::Int(5)),
        ("rotation", Value::Int(1)),
        ("staging_authority", Value::Int(1)),
        ("unit_2_max_flow", Value::Float(num(90.0))),
    ] {
        rig.group.apply_parameter(name, value).unwrap();
        let after = rig.group.capture_state();
        assert_eq!(after.get("last_demand"), before.get("last_demand"));
        assert_eq!(after.get("approve_used"), before.get("approve_used"));
        for unit in 1..=3 {
            for field in ["phase", "phase_ticks", "run_hours", "started_at", "stopped_at"] {
                let key = format!("{field}_{unit}");
                assert!(after.get(&key).is_some(), "{key}");
                assert_eq!(after.get(&key), before.get(&key), "{name}: {key}");
            }
        }
    }
}

#[test]
fn vanished_demand_destages() {
    for demand in [0.0, -5.0] {
        let mut rig = Rig::settled(config(), 250.0);
        assert_eq!(rig.scan().staged, 3);
        for _ in 0..12 {
            rig.ask(demand);
        }
        let driven = rig.scan();
        assert_eq!((driven.staged, driven.transition), (0, false));
    }
}

#[test]
fn bound_names_read_back() {
    let mut group = group(config());
    for unit in 1..=3 {
        for entry in ["min_flow", "max_flow", "max_current"] {
            let name = format!("unit_{unit}_{entry}");
            let value = Value::Float(num(90.0 + unit as f64));
            if entry == "min_flow" {
                group.apply_parameter(&name, Value::Int(unit)).unwrap();
                assert_eq!(
                    group.report_parameters().get(&name),
                    Some(Value::Float(num(unit as f64)))
                );
            } else {
                group.apply_parameter(&name, value).unwrap();
                assert_eq!(group.report_parameters().get(&name), Some(value));
            }
        }
    }
}

/// Units 1 and 2 joined for a hundred scans, unit 3 on standby. Unit 1 has
/// just been started again and may not depart yet; it has run a hundred scans,
/// unit 2 has run `second`.
fn after_a_restart(second: i64) -> Rig {
    let mut rig = Rig::settled(
        BlowerGroupConfig {
            min_run_ticks: 10,
            rotation: BlowerRotation::EqualizeRuntime,
            ..config()
        },
        150.0,
    );
    let mut state = rig.group.capture_state();
    for (name, value) in [
        ("run_hours_1", 100),
        ("run_hours_2", second),
        ("run_hours_3", 0),
        ("started_at_1", 95),
        ("started_at_2", 1),
    ] {
        state.insert(name, Value::Int(value));
    }
    rig.group.restore_state(&state).unwrap();
    rig.tick = 99;
    rig
}

#[test]
fn rotations_swap_a_lagging_standby() {
    // Only the unit that may not depart leads the standby by the margin.
    let mut rig = after_a_restart(5);
    let driven = rig.scan();
    assert_eq!(driven.commands, [true, true, false]);
    assert!(!driven.transition);
    // The unit that may depart leads it by the margin.
    let mut rig = after_a_restart(20);
    let driven = rig.scan();
    assert_eq!(driven.commands, [true, true, true]);
    assert!(driven.transition);
    let state = rig.group.capture_state();
    assert_eq!(state.get("rotation_join"), Some(Value::Int(3)));
    assert_eq!(state.get("rotation_depart"), Some(Value::Int(2)));
}

/// The swap waits for a standby that lags: another one that may start is not
/// taken in its place.
#[test]
fn rotations_wait_for_their_standby() {
    let mut rig = Rig::settled(
        BlowerGroupConfig {
            min_run_ticks: 10,
            min_start_interval_ticks: 50,
            rotation: BlowerRotation::EqualizeRuntime,
            ..config()
        },
        80.0,
    );
    let mut state = rig.group.capture_state();
    for (name, value) in [
        ("run_hours_1", 100),
        ("run_hours_2", 0),
        ("run_hours_3", 95),
        ("stopped_at_2", 90),
    ] {
        state.insert(name, Value::Int(value));
    }
    rig.group.restore_state(&state).unwrap();
    rig.tick = 99;
    assert_eq!(rig.scan().commands, [true, false, false]);
    rig.tick = 139;
    assert_eq!(rig.scan().commands, [true, true, false]);
}

#[test]
fn lost_units_end_their_rotation() {
    let mut rig = after_a_restart(20);
    rig.scan();
    // The banked unit fails while the standby still proves its start.
    rig.units[1].fault = good(true);
    rig.units[2].run = good(false);
    let driven = rig.scan();
    assert!(driven.transition);
    assert_eq!(rig.phase(2), Phase::Departing);
    let state = rig.group.capture_state();
    assert_eq!(state.get("rotation_join"), Some(Value::Int(0)));
    let mut standby = Rig::new(rig.group.config());
    standby.group.restore_state(&state).unwrap();
    assert_eq!(standby.group.capture_state(), state);
    standby.units = rig.units.clone();
    standby.tick = rig.tick;
    for _ in 0..8 {
        assert_eq!(standby.ask(150.0), rig.ask(150.0));
    }
}

/// A window shortened below a leg's count clamps it; the checkpoint is taken,
/// and the leg ends at its next unproven scan.
#[test]
fn shortened_windows_keep_their_checkpoint() {
    let mut rig = Rig::new(BlowerGroupConfig { vent_ticks: 5, ..config() });
    rig.follows = false;
    for _ in 0..4 {
        rig.ask(50.0);
    }
    assert_eq!(rig.group.capture_state().get("phase_ticks_1"), Some(Value::Int(3)));
    rig.group.apply_parameter("vent_ticks", Value::Int(2)).unwrap();
    let state = rig.group.capture_state();
    assert_eq!(state.get("phase_ticks_1"), Some(Value::Int(1)));
    assert_eq!(rig.phase(1), Phase::Joining);
    let mut standby = Rig::new(config());
    standby.group.restore_state(&state).unwrap();
    assert_eq!(standby.group.capture_state(), state);
    rig.units[0].avail = good(true);
    rig.ask(50.0);
    assert_ne!(rig.phase(1), Phase::Joining);
}

#[test]
fn starts_exclude_other_legs() {
    for rotation in [BlowerRotation::NoRotation, BlowerRotation::EqualizeRuntime] {
        let mut rig = Rig::new(BlowerGroupConfig { rotation, ..config() });
        let mut before = vec![false; 3];
        for round in 0..400u32 {
            let demand = f64::from(round.wrapping_mul(97) % 320) - 20.0;
            rig.units[(round % 3) as usize].fault = good(round % 11 == 0);
            let driven = rig.ask(demand);
            for i in 0..3 {
                if !before[i] && driven.commands[i] && driven.vents[i] {
                    let open = driven.vents.iter().filter(|vent| **vent).count();
                    assert_eq!(open, 1, "round {round}");
                }
                match (driven.commands[i], driven.vents[i]) {
                    (true, true) => assert_eq!(driven.capacities[i], 20.0),
                    (true, false) => assert!((20.0..=100.0).contains(&driven.capacities[i])),
                    _ => assert_eq!(driven.capacities[i], 0.0),
                }
                assert!(!driven.vents[i] || driven.transition);
            }
            let commanded = driven.commands.iter().filter(|cmd| **cmd).count();
            assert_eq!(driven.staged, commanded as i64);
            before = driven.commands;
        }
    }
}

#[test]
fn flag_only_only_flags() {
    let mut rig = Rig::new(BlowerGroupConfig {
        staging_authority: StagingAuthority::FlagOnly,
        ..config()
    });
    for (demand, quality, flagged) in [
        (0.0, Quality::Good, false),
        (80.0, Quality::Good, true),
        (0.0, STALE, true),
        (-3.0, Quality::Good, false),
        (500.0, STALE, false),
        (500.0, Quality::Good, true),
    ] {
        rig.demand.quality = quality;
        let driven = rig.ask(demand);
        assert_eq!(driven.commands, [false; 3]);
        assert_eq!(driven.vents, [false; 3]);
        assert_eq!(driven.capacities, [0.0; 3]);
        assert_eq!((driven.staged, driven.transition), (0, false));
        assert_eq!(driven.pending, flagged, "{demand}");
    }
}

/// After every scan and retune a group built alike takes over the checkpoint
/// and drives the same.
#[test]
fn standbys_continue_the_group() {
    for rotation in [BlowerRotation::NoRotation, BlowerRotation::EqualizeRuntime] {
        let config = BlowerGroupConfig { rotation, ..config() };
        let mut rig = Rig::new(config);
        for round in 0..300u32 {
            if round % 13 == 0 {
                let window = Value::Int(1 + i64::from(round % 4));
                rig.group.apply_parameter("vent_ticks", window).unwrap();
            }
            let unit = (round % 3) as usize;
            rig.units[unit].avail = good(round % 7 != 0);
            rig.units[unit].run = good(round % 5 != 0);
            let demand = f64::from(round.wrapping_mul(97) % 320) - 20.0;
            rig.ask(demand);
            let state = rig.group.capture_state();
            let mut standby = Rig::new(config);
            standby.group.restore_state(&state).unwrap();
            assert_eq!(standby.group.capture_state(), state, "round {round}");
        }
    }
}

/// Scans are numbered from one: a start in a scan numbered zero runs, and its
/// checkpoint is refused until the unit is offline again.
#[test]
fn a_start_before_the_first_scan_is_not_taken_over() {
    let mut rig = Rig::new(config());
    let readings = BlowerReadings {
        demand: Reading { value: num(50.0), quality: Quality::Good },
        approve: Some(rig.approve),
        units: rig.units.clone(),
    };
    rig.group.advance(&readings, Tick(0));
    rig.group.stage(&readings, num(0.0), num(0.0), Tick(0));
    assert_eq!(rig.phase(1), Phase::Joining);
    match group(config()).restore_state(&rig.group.capture_state()) {
        Err(StateError::InvalidValue { field, .. }) => assert_eq!(field, "started_at_1"),
        told => panic!("{told:?}"),
    }
    rig.ask(0.0);
    assert_eq!(rig.phase(1), Phase::Offline);
    group(config()).restore_state(&rig.group.capture_state()).unwrap();
}
