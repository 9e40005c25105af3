use dcs_blocks::{
    BackwashCoordinator, BackwashCoordinatorConfig, CommandError, CoordinatorOutputs,
    CoordinatorReadings, Direction, FilterIo, ParameterDescriptor, ParameterError, Parameters,
    PermissiveInputs, PointId, PortDescriptor, PortRole, Quality, QualityReason, QueuePolicy,
    QueuedState, Reading, Sample, StateError, StateMap, Tick, Value, ValueKind, Write, describe,
};
use std::cell::RefCell;
use std::collections::BTreeMap;

/// A point image: what the inputs read and what was last driven.
struct TestIo {
    samples: RefCell<BTreeMap<u64, Sample>>,
    written: RefCell<BTreeMap<u64, Sample>>,
}

impl TestIo {
    fn new(points: &[(PointId, Direction, Sample)]) -> TestIo {
        let mut samples = BTreeMap::new();
        for (point, _, sample) in points {
            samples.insert(point.0, *sample);
        }
        TestIo { samples: RefCell::new(samples), written: RefCell::new(BTreeMap::new()) }
    }

    fn feed(&self, point: PointId, sample: Sample) {
        self.samples.borrow_mut().insert(point.0, sample);
    }

    fn written(&self, point: PointId) -> Option<Sample> {
        self.written.borrow().get(&point.0).copied()
    }

    fn drive(&self, writes: &[Write]) {
        for write in writes {
            self.written.borrow_mut().insert(write.point.0, write.sample);
        }
    }

    fn read_bool(&self, point: PointId) -> Reading<bool> {
        let sample = self.samples.borrow()[&point.0];
        match sample.value {
            Value::Bool(value) => Reading { value, quality: sample.quality },
            other => panic!("{point:?} holds {other:?}"),
        }
    }

    fn read_int(&self, point: PointId) -> Reading<i64> {
        let sample = self.samples.borrow()[&point.0];
        match sample.value {
            Value::Int(value) => Reading { value, quality: sample.quality },
            other => panic!("{point:?} holds {other:?}"),
        }
    }
}

/// Reads a block's inputs, runs one scan and drives what it writes.
trait Scan {
    fn scan(&mut self, io: &TestIo, tick: Tick);
}

impl Scan for BackwashCoordinator {
    fn scan(&mut self, io: &TestIo, tick: Tick) {
        let mut requests = Vec::new();
        let mut reorder = None;
        for requirement in self.io_requirements() {
            if requirement.name.starts_with("request_") {
                requests.push(io.read_bool(requirement.point));
            } else if requirement.name == "reorder" {
                reorder = Some(io.read_int(requirement.point));
            }
        }
        let readings = CoordinatorReadings {
            requests,
            supply_ok: io.read_bool(SUPPLY),
            waste_ok: io.read_bool(WASTE),
            flow_ok: io.read_bool(FLOW),
            reorder,
        };
        let writes = self.step(&readings, tick);
        io.drive(&writes);
    }
}

const SUPPLY: PointId = PointId(10);
const WASTE: PointId = PointId(11);
const FLOW: PointId = PointId(12);
const REORDER: PointId = PointId(13);
const ACTIVE: PointId = PointId(14);
const QUEUED: PointId = PointId(15);
const BLOCKED: PointId = PointId(16);

fn request(index: usize) -> PointId {
    PointId(100 + index as u64)
}
fn grant(index: usize) -> PointId {
    PointId(200 + index as u64)
}
fn position(index: usize) -> PointId {
    PointId(300 + index as u64)
}

const PERMISSIVES: PermissiveInputs = PermissiveInputs {
    supply_ok: SUPPLY,
    waste_ok: WASTE,
    flow_ok: FLOW,
};
const OUTPUTS: CoordinatorOutputs = CoordinatorOutputs {
    active: ACTIVE,
    queued: QUEUED,
    resource_blocked: BLOCKED,
};

fn filters(count: usize) -> Vec<FilterIo> {
    (1..=count)
        .map(|index| FilterIo {
            request: request(index),
            grant: grant(index),
            position: position(index),
        })
        .collect()
}

fn config() -> BackwashCoordinatorConfig {
    BackwashCoordinatorConfig {
        queue_policy: QueuePolicy::Fifo,
        queued_state: QueuedState::KeepFiltering,
    }
}

/// A `count`-filter coordinator under the given config, with the
/// `reorder` point bound.
fn component_of(
    count: usize,
    config: BackwashCoordinatorConfig,
    reorder: Option<PointId>,
) -> BackwashCoordinator {
    BackwashCoordinator::new("bwc", PERMISSIVES, reorder, filters(count), OUTPUTS, config)
        .unwrap()
}

fn component(count: usize) -> BackwashCoordinator {
    component_of(count, config(), Some(REORDER))
}

/// The test rig: every declared point plus `reorder`, all
/// permissives satisfied and no requests.
fn io(count: usize) -> TestIo {
    let mut points = vec![
        (
            SUPPLY,
            Direction::In,
            Sample::good(Value::Bool(true), Tick(0)),
        ),
        (
            WASTE,
            Direction::In,
            Sample::good(Value::Bool(true), Tick(0)),
        ),
        (
            FLOW,
            Direction::In,
            Sample::good(Value::Bool(true), Tick(0)),
        ),
        (
            REORDER,
            Direction::In,
            Sample::good(Value::Int(0), Tick(0)),
        ),
        (
            ACTIVE,
            Direction::Out,
            Sample::good(Value::Int(0), Tick(0)),
        ),
        (
            QUEUED,
            Direction::Out,
            Sample::good(Value::Int(0), Tick(0)),
        ),
        (
            BLOCKED,
            Direction::Out,
            Sample::good(Value::Bool(false), Tick(0)),
        ),
    ];
    for index in 1..=count {
        points.extend([
            (
                request(index),
                Direction::In,
                Sample::good(Value::Bool(false), Tick(0)),
            ),
            (
                grant(index),
                Direction::Out,
                Sample::good(Value::Bool(false), Tick(0)),
            ),
            (
                position(index),
                Direction::Out,
                Sample::good(Value::Int(0), Tick(0)),
            ),
        ]);
    }
    TestIo::new(&points)
}

fn feed_request(io: &TestIo, index: usize, value: bool, tick: u64) {
    io.feed(request(index), Sample::good(Value::Bool(value), Tick(tick)));
}

fn feed_permissive(io: &TestIo, point: PointId, value: bool, tick: u64) {
    io.feed(point, Sample::good(Value::Bool(value), Tick(tick)));
}

fn feed_reorder(io: &TestIo, value: i64, tick: u64) {
    io.feed(REORDER, Sample::good(Value::Int(value), Tick(tick)));
}

fn granted_to(io: &TestIo, index: usize) -> bool {
    matches!(io.written(grant(index)), Some(sample) if sample.value == Value::Bool(true))
}

fn granted_count(io: &TestIo, count: usize) -> usize {
    (1..=count).filter(|&index| granted_to(io, index)).count()
}

fn output_int(io: &TestIo, point: PointId) -> i64 {
    match io.written(point).unwrap().value {
        Value::Int(value) => value,
        value => panic!("expected Int, found {value:?}"),
    }
}

fn output_bool(io: &TestIo, point: PointId) -> bool {
    match io.written(point).unwrap().value {
        Value::Bool(value) => value,
        value => panic!("expected Bool, found {value:?}"),
    }
}

fn scan(coordinator: &mut BackwashCoordinator, io: &TestIo, tick: u64) {
    coordinator.scan(io, Tick(tick));
}

#[test]
fn the_first_requester_takes_the_grant_exclusively() {
    let mut coordinator = component(3);
    let io = io(3);
    feed_request(&io, 1, true, 1);
    scan(&mut coordinator, &io, 1);
    assert!(granted_to(&io, 1));
    assert_eq!(granted_count(&io, 3), 1);
    assert_eq!(output_int(&io, ACTIVE), 1);
    assert_eq!(output_int(&io, QUEUED), 0);
    // The grant holder reports position 0 — it holds the grant, not
    // a queue slot.
    assert_eq!(output_int(&io, position(1)), 0);
    assert!(!output_bool(&io, BLOCKED));

    // Later requests queue behind the held grant, never alongside.
    feed_request(&io, 2, true, 2);
    feed_request(&io, 3, true, 2);
    scan(&mut coordinator, &io, 2);
    assert_eq!(granted_count(&io, 3), 1);
    assert_eq!(output_int(&io, ACTIVE), 1);
    assert_eq!(output_int(&io, QUEUED), 2);
    assert_eq!(output_int(&io, position(2)), 1);
    assert_eq!(output_int(&io, position(3)), 2);
}

#[test]
fn fifo_serves_the_queue_in_assertion_order() {
    let mut coordinator = component(3);
    let io = io(3);
    // Requests assert out of index order while filter 1 holds:
    // filter 3 ahead of filter 2.
    feed_request(&io, 1, true, 1);
    scan(&mut coordinator, &io, 1);
    feed_request(&io, 3, true, 2);
    scan(&mut coordinator, &io, 2);
    feed_request(&io, 2, true, 3);
    scan(&mut coordinator, &io, 3);
    assert_eq!(output_int(&io, position(3)), 1);
    assert_eq!(output_int(&io, position(2)), 2);

    // The held request dropping releases the grant and hands it to
    // the queue's head at the same scan.
    feed_request(&io, 1, false, 4);
    scan(&mut coordinator, &io, 4);
    assert!(granted_to(&io, 3));
    assert!(!granted_to(&io, 1));
    assert_eq!(output_int(&io, ACTIVE), 3);
    assert_eq!(output_int(&io, QUEUED), 1);
    assert_eq!(output_int(&io, position(2)), 1);
    assert_eq!(output_int(&io, position(3)), 0);

    feed_request(&io, 3, false, 5);
    scan(&mut coordinator, &io, 5);
    assert!(granted_to(&io, 2));
    assert_eq!(output_int(&io, ACTIVE), 2);

    feed_request(&io, 2, false, 6);
    scan(&mut coordinator, &io, 6);
    assert_eq!(output_int(&io, ACTIVE), 0);
    assert_eq!(output_int(&io, QUEUED), 0);
}

#[test]
fn every_permissive_gates_the_grant() {
    for permissive in [SUPPLY, WASTE, FLOW] {
        let mut coordinator = component(2);
        let io = io(2);
        feed_permissive(&io, permissive, false, 1);
        feed_request(&io, 1, true, 1);
        scan(&mut coordinator, &io, 1);
        // The request stands first in queue while the permissive
        // fails: no grant, and the block flag asserts the same
        // scan.
        assert_eq!(granted_count(&io, 2), 0);
        assert_eq!(output_int(&io, ACTIVE), 0);
        assert_eq!(output_int(&io, QUEUED), 1);
        assert_eq!(output_int(&io, position(1)), 1);
        assert!(output_bool(&io, BLOCKED));

        feed_permissive(&io, permissive, true, 2);
        scan(&mut coordinator, &io, 2);
        assert!(granted_to(&io, 1));
        assert_eq!(output_int(&io, ACTIVE), 1);
        assert!(!output_bool(&io, BLOCKED));
    }
}

#[test]
fn a_non_good_permissive_reads_as_not_ok() {
    let mut coordinator = component(1);
    let io = io(1);
    feed_request(&io, 1, true, 1);
    io.feed(
        WASTE,
        Sample::new(
            Value::Bool(true),
            Quality::Bad(QualityReason::DeviceFault),
            Tick(1),
        ),
    );
    scan(&mut coordinator, &io, 1);
    assert!(!granted_to(&io, 1));
    assert!(output_bool(&io, BLOCKED));
}

#[test]
fn a_non_good_request_cannot_queue_or_hold_the_grant() {
    let mut coordinator = component(2);
    let io = io(2);
    // An untrusted request never enters the queue.
    io.feed(
        request(1),
        Sample::new(
            Value::Bool(true),
            Quality::Uncertain(QualityReason::Stale),
            Tick(1),
        ),
    );
    scan(&mut coordinator, &io, 1);
    assert_eq!(output_int(&io, QUEUED), 0);
    assert_eq!(output_int(&io, ACTIVE), 0);

    // A granted request going non-Good releases the grant that
    // scan — identically to the request dropping.
    feed_request(&io, 1, true, 2);
    feed_request(&io, 2, true, 2);
    scan(&mut coordinator, &io, 2);
    assert!(granted_to(&io, 1));
    io.feed(
        request(1),
        Sample::new(
            Value::Bool(true),
            Quality::Uncertain(QualityReason::Stale),
            Tick(3),
        ),
    );
    scan(&mut coordinator, &io, 3);
    assert!(!granted_to(&io, 1));
    assert!(granted_to(&io, 2));
    assert_eq!(output_int(&io, ACTIVE), 2);
}

#[test]
fn the_held_grant_survives_a_permissive_outage() {
    let mut coordinator = component(2);
    let io = io(2);
    feed_request(&io, 1, true, 1);
    feed_request(&io, 2, true, 1);
    scan(&mut coordinator, &io, 1);
    assert!(granted_to(&io, 1));

    // The permissive outage gates the asserted output while the
    // holding stands: `active` still reports the holder, and the
    // queued request reads as blocked.
    feed_permissive(&io, SUPPLY, false, 2);
    scan(&mut coordinator, &io, 2);
    assert!(!granted_to(&io, 1));
    assert_eq!(output_int(&io, ACTIVE), 1);
    assert!(output_bool(&io, BLOCKED));

    // The holding re-asserts the scan the permissives restore —
    // no re-queue, no reorder.
    feed_permissive(&io, SUPPLY, true, 3);
    scan(&mut coordinator, &io, 3);
    assert!(granted_to(&io, 1));
    assert_eq!(output_int(&io, position(2)), 1);
    assert!(!output_bool(&io, BLOCKED));
}

#[test]
fn priority_by_trigger_orders_the_queue_by_filter_index() {
    let mut coordinator = component_of(
        3,
        BackwashCoordinatorConfig {
            queue_policy: QueuePolicy::PriorityByTrigger,
            ..config()
        },
        Some(REORDER),
    );
    let io = io(3);
    feed_request(&io, 1, true, 1);
    scan(&mut coordinator, &io, 1);
    // Filter 3 asserts ahead of filter 2 — index order puts 2
    // ahead anyway.
    feed_request(&io, 3, true, 2);
    scan(&mut coordinator, &io, 2);
    feed_request(&io, 2, true, 3);
    scan(&mut coordinator, &io, 3);
    assert_eq!(output_int(&io, position(2)), 1);
    assert_eq!(output_int(&io, position(3)), 2);

    feed_request(&io, 1, false, 4);
    scan(&mut coordinator, &io, 4);
    assert!(granted_to(&io, 2));
    feed_request(&io, 2, false, 5);
    scan(&mut coordinator, &io, 5);
    assert!(granted_to(&io, 3));
}

#[test]
fn operator_managed_serves_only_the_standing_selection() {
    let mut coordinator = component_of(
        3,
        BackwashCoordinatorConfig {
            queue_policy: QueuePolicy::OperatorManaged,
            ..config()
        },
        Some(REORDER),
    );
    let io = io(3);
    // Requests queue and report position — but no grant issues
    // while the reorder point stands idle.
    feed_request(&io, 1, true, 1);
    feed_request(&io, 2, true, 1);
    scan(&mut coordinator, &io, 1);
    assert_eq!(granted_count(&io, 3), 0);
    assert_eq!(output_int(&io, QUEUED), 2);
    assert_eq!(output_int(&io, position(1)), 1);
    assert_eq!(output_int(&io, position(2)), 2);
    assert_eq!(output_int(&io, ACTIVE), 0);

    // The operator's standing pick moves to the head and takes the
    // grant.
    feed_reorder(&io, 2, 2);
    scan(&mut coordinator, &io, 2);
    assert!(granted_to(&io, 2));
    assert_eq!(output_int(&io, ACTIVE), 2);
    assert_eq!(output_int(&io, position(1)), 1);

    // The grant releasing on the request drop serves nothing while
    // the standing instruction names no queued member — filter 2's
    // request is down.
    feed_request(&io, 2, false, 3);
    scan(&mut coordinator, &io, 3);
    assert_eq!(granted_count(&io, 3), 0);
    assert_eq!(output_int(&io, ACTIVE), 0);
    assert_eq!(output_int(&io, QUEUED), 1);

    // A fresh selection serves the remaining request.
    feed_reorder(&io, 1, 4);
    scan(&mut coordinator, &io, 4);
    assert!(granted_to(&io, 1));
}

#[test]
fn the_reorder_point_promotes_a_queued_member_to_the_head() {
    let mut coordinator = component(3);
    let io = io(3);
    feed_request(&io, 1, true, 1);
    feed_request(&io, 2, true, 1);
    feed_request(&io, 3, true, 1);
    scan(&mut coordinator, &io, 1);
    assert!(granted_to(&io, 1));
    assert_eq!(output_int(&io, position(2)), 1);
    assert_eq!(output_int(&io, position(3)), 2);

    // The held instruction reorders the queue under FIFO.
    feed_reorder(&io, 3, 2);
    scan(&mut coordinator, &io, 2);
    assert_eq!(output_int(&io, position(3)), 1);
    assert_eq!(output_int(&io, position(2)), 2);

    // On release the promoted member — not the earlier arrival —
    // takes the grant.
    feed_request(&io, 1, false, 3);
    scan(&mut coordinator, &io, 3);
    assert!(granted_to(&io, 3));
    assert_eq!(output_int(&io, ACTIVE), 3);
}

#[test]
fn out_of_range_and_untrusted_reorder_values_apply_nothing() {
    let mut coordinator = component(3);
    let io = io(3);
    feed_request(&io, 1, true, 1);
    feed_request(&io, 2, true, 1);
    feed_request(&io, 3, true, 1);
    scan(&mut coordinator, &io, 1);

    // `0`, a value naming no queued member, an out-of-range value,
    // and a non-Good read all leave the order untouched.
    feed_reorder(&io, 0, 2);
    scan(&mut coordinator, &io, 2);
    feed_reorder(&io, 9, 3);
    scan(&mut coordinator, &io, 3);
    io.feed(
        REORDER,
        Sample::new(
            Value::Int(3),
            Quality::Bad(QualityReason::DeviceFault),
            Tick(4),
        ),
    );
    scan(&mut coordinator, &io, 4);
    assert_eq!(output_int(&io, position(2)), 1);
    assert_eq!(output_int(&io, position(3)), 2);

    // The granted filter is not queued — naming it is a no-op too.
    feed_reorder(&io, 1, 5);
    scan(&mut coordinator, &io, 5);
    assert_eq!(output_int(&io, position(2)), 1);
}

#[test]
fn capture_and_restore_mid_queue_continue_identically() {
    let mut coordinator = component(3);
    let io = io(3);
    feed_request(&io, 1, true, 1);
    feed_request(&io, 3, true, 1);
    scan(&mut coordinator, &io, 1);
    feed_request(&io, 2, true, 2);
    scan(&mut coordinator, &io, 2);
    let state = coordinator.capture_state();
    assert_eq!(state.get("granted"), Some(Value::Int(1)));
    assert_eq!(state.get("queued_count"), Some(Value::Int(2)));
    assert_eq!(state.get("queue_1"), Some(Value::Int(3)));
    assert_eq!(state.get("queue_2"), Some(Value::Int(2)));

    // A standby restores the queue order and the held grant — its
    // own capture reproduces the map — and the run continues
    // identically: filter 1's drop hands the grant to filter 3
    // ahead of filter 2.
    let mut standby = component(3);
    standby.restore_state(&state).unwrap();
    assert_eq!(standby.capture_state(), state);
    feed_request(&io, 1, false, 3);
    scan(&mut standby, &io, 3);
    assert!(granted_to(&io, 3));
    assert!(!granted_to(&io, 1));
    assert_eq!(output_int(&io, ACTIVE), 3);
    assert_eq!(output_int(&io, position(2)), 1);
}

#[test]
fn a_restored_queue_rejects_malformed_maps() {
    let mut coordinator = component(2);
    let io = io(2);
    feed_request(&io, 1, true, 1);
    feed_request(&io, 2, true, 1);
    scan(&mut coordinator, &io, 1);
    let state = coordinator.capture_state();

    // Unknown fields, missing members, out-of-range and duplicate
    // queue entries, and a granted member still queued all reject —
    // and the rejected map changes nothing.
    let mut unknown = state.clone();
    unknown.insert("mystery", Value::Int(1));
    assert!(matches!(
        coordinator.restore_state(&unknown),
        Err(StateError::UnknownField { ref field, .. }) if field == "mystery"
    ));

    let mut missing = StateMap::new();
    missing.insert("queued_count", Value::Int(0));
    assert!(matches!(
        coordinator.restore_state(&missing),
        Err(StateError::MissingField { ref field, .. }) if field == "queue_policy"
    ));

    let mut duplicate = coordinator.capture_state();
    duplicate.insert("queued_count", Value::Int(2));
    duplicate.insert("queue_1", Value::Int(1));
    duplicate.insert("queue_2", Value::Int(1));
    assert!(matches!(
        coordinator.restore_state(&duplicate),
        Err(StateError::InvalidValue { ref field, .. }) if field == "queue_2"
    ));

    let mut held_queued = state.clone();
    held_queued.insert("queued_count", Value::Int(2));
    held_queued.insert("queue_1", Value::Int(1));
    held_queued.insert("queue_2", Value::Int(2));
    assert!(matches!(
        coordinator.restore_state(&held_queued),
        Err(StateError::InvalidValue { ref field, .. }) if field == "granted"
    ));
    // The rejected maps left the live state untouched.
    assert_eq!(coordinator.capture_state(), state);
}

#[test]
fn backwash_coordinator_malformed_parameters_fail_construction_naming_the_parameter() {
    let mut parameters = Parameters::new();
    assert_eq!(
        BackwashCoordinator::from_parameters(
            "bwc",
            PERMISSIVES,
            None,
            filters(2),
            OUTPUTS,
            &parameters,
        )
        .unwrap_err(),
        ParameterError::Missing {
            component: "bwc".to_string(),
            parameter: "queue_policy".to_string(),
        }
    );

    parameters.insert("queue_policy", Value::Int(9));
    assert_eq!(
        BackwashCoordinator::from_parameters(
            "bwc",
            PERMISSIVES,
            None,
            filters(2),
            OUTPUTS,
            &parameters,
        )
        .unwrap_err(),
        ParameterError::Invalid {
            component: "bwc".to_string(),
            parameter: "queue_policy".to_string(),
            detail:
                "expected 0 (FIFO), 1 (priority by trigger), or 2 (operator managed), found 9"
                    .to_string(),
        }
    );

    parameters.insert("queue_policy", Value::Int(0));
    assert!(matches!(
        BackwashCoordinator::from_parameters(
            "bwc",
            PERMISSIVES,
            None,
            filters(2),
            OUTPUTS,
            &parameters,
        )
        .unwrap_err(),
        ParameterError::Missing { ref parameter, .. } if parameter == "queued_state"
    ));

    parameters.insert("queued_state", Value::Int(7));
    assert!(matches!(
        BackwashCoordinator::from_parameters(
            "bwc",
            PERMISSIVES,
            None,
            filters(2),
            OUTPUTS,
            &parameters,
        )
        .unwrap_err(),
        ParameterError::Invalid { ref parameter, .. } if parameter == "queued_state"
    ));

    // A filterless instance fails construction too.
    parameters.insert("queued_state", Value::Int(0));
    assert!(matches!(
        BackwashCoordinator::from_parameters(
            "bwc",
            PERMISSIVES,
            None,
            Vec::new(),
            OUTPUTS,
            &parameters,
        )
        .unwrap_err(),
        ParameterError::Invalid { ref parameter, .. } if parameter == "filters"
    ));
}

#[test]
fn descriptor_reports_the_declared_ports_and_parameters() {
    let coordinator = component(2);
    let descriptor = coordinator.describe();
    assert_eq!(descriptor.kind, BackwashCoordinator::KIND);
    assert_eq!(descriptor.name, "bwc");

    // The ports mirror io_requirements, every one role-hinted.
    let ports: Vec<(String, _, _)> = descriptor
        .ports
        .iter()
        .map(|port| (port.name.clone(), port.direction, port.kind))
        .collect();
    assert_eq!(
        ports,
        coordinator
            .io_requirements()
            .iter()
            .map(|requirement| (
                requirement.name.clone(),
                requirement.direction,
                requirement.kind
            ))
            .collect::<Vec<_>>()
    );
    assert!(descriptor.ports.iter().all(|port| port.role.is_some()));
    assert_eq!(
        descriptor.ports,
        vec![
            PortDescriptor {
                name: "supply_ok".to_string(),
                direction: Direction::In,
                kind: ValueKind::Bool,
                role: Some(PortRole::ProcessValue),
                point: None,
            },
            PortDescriptor {
                name: "waste_ok".to_string(),
                direction: Direction::In,
                kind: ValueKind::Bool,
                role: Some(PortRole::ProcessValue),
                point: None,
            },
            PortDescriptor {
                name: "flow_ok".to_string(),
                direction: Direction::In,
                kind: ValueKind::Bool,
                role: Some(PortRole::ProcessValue),
                point: None,
            },
            PortDescriptor {
                name: "reorder".to_string(),
                direction: Direction::In,
                kind: ValueKind::Int,
                role: Some(PortRole::Setpoint),
                point: None,
            },
            PortDescriptor {
                name: "request_1".to_string(),
                direction: Direction::In,
                kind: ValueKind::Bool,
                role: Some(PortRole::ProcessValue),
                point: None,
            },
            PortDescriptor {
                name: "grant_1".to_string(),
                direction: Direction::Out,
                kind: ValueKind::Bool,
                role: Some(PortRole::Output),
                point: None,
            },
            PortDescriptor {
                name: "position_1".to_string(),
                direction: Direction::Out,
                kind: ValueKind::Int,
                role: Some(PortRole::Status),
                point: None,
            },
            PortDescriptor {
                name: "request_2".to_string(),
                direction: Direction::In,
                kind: ValueKind::Bool,
                role: Some(PortRole::ProcessValue),
                point: None,
            },
            PortDescriptor {
                name: "grant_2".to_string(),
                direction: Direction::Out,
                kind: ValueKind::Bool,
                role: Some(PortRole::Output),
                point: None,
            },
            PortDescriptor {
                name: "position_2".to_string(),
                direction: Direction::Out,
                kind: ValueKind::Int,
                role: Some(PortRole::Status),
                point: None,
            },
            PortDescriptor {
                name: "active".to_string(),
                direction: Direction::Out,
                kind: ValueKind::Int,
                role: Some(PortRole::Status),
                point: None,
            },
            PortDescriptor {
                name: "queued".to_string(),
                direction: Direction::Out,
                kind: ValueKind::Int,
                role: Some(PortRole::Status),
                point: None,
            },
            PortDescriptor {
                name: "resource_blocked".to_string(),
                direction: Direction::Out,
                kind: ValueKind::Bool,
                role: Some(PortRole::Status),
                point: None,
            },
        ]
    );

    // The descriptor's parameter names are exactly the key set
    // `from_parameters` reads, ranges included.
    assert_eq!(
        descriptor.parameters,
        vec![
            ParameterDescriptor {
                name: "queue_policy".to_string(),
                kind: ValueKind::Int,
                range: Some(describe::int_range(0, 2)),
            },
            ParameterDescriptor {
                name: "queued_state".to_string(),
                kind: ValueKind::Int,
                range: Some(describe::int_range(0, 1)),
            },
        ]
    );

    // An unwired `reorder` instance declares no `reorder` port.
    let unwired = component_of(1, config(), None);
    assert!(
        !unwired
            .describe()
            .ports
            .iter()
            .any(|port| port.name == "reorder")
    );
    assert!(
        !unwired
            .io_requirements()
            .iter()
            .any(|requirement| requirement.name == "reorder")
    );
}

#[test]
fn tuning_the_declared_parameters_rejects_bad_codes() {
    let mut coordinator = component(3);
    let io = io(3);

    // Both codes tune within their declared ranges and report back.
    coordinator
        .apply_parameter("queue_policy", Value::Int(1))
        .unwrap();
    coordinator
        .apply_parameter("queued_state", Value::Int(1))
        .unwrap();
    assert_eq!(
        coordinator.config(),
        BackwashCoordinatorConfig {
            queue_policy: QueuePolicy::PriorityByTrigger,
            queued_state: QueuedState::OfflineWithStandby,
        }
    );
    assert_eq!(
        coordinator.report_parameters().get("queue_policy"),
        Some(Value::Int(1))
    );

    // The retuned policy orders subsequent arrivals by index:
    // filter 1 holds the grant, filter 3 queues ahead of filter 2
    // by arrival, and the retuned priority order inserts 2 ahead.
    feed_request(&io, 1, true, 1);
    scan(&mut coordinator, &io, 1);
    feed_request(&io, 3, true, 2);
    scan(&mut coordinator, &io, 2);
    assert_eq!(output_int(&io, position(3)), 1);
    feed_request(&io, 2, true, 3);
    scan(&mut coordinator, &io, 3);
    assert_eq!(output_int(&io, position(2)), 1);
    assert_eq!(output_int(&io, position(3)), 2);

    // Out-of-range codes and undeclared names are refused naming
    // the parameter; the tuned state stands.
    assert!(matches!(
        coordinator.apply_parameter("queue_policy", Value::Int(5)),
        Err(CommandError::InvalidParameter { ref parameter, .. }) if parameter == "queue_policy"
    ));
    assert!(matches!(
        coordinator.apply_parameter("queued_state", Value::Int(2)),
        Err(CommandError::InvalidParameter { ref parameter, .. }) if parameter == "queued_state"
    ));
    assert!(matches!(
        coordinator.apply_parameter("stride", Value::Int(1)),
        Err(CommandError::UnknownParameter { ref parameter, .. }) if parameter == "stride"
    ));
    assert_eq!(
        coordinator.config().queue_policy,
        QueuePolicy::PriorityByTrigger
    );
}
