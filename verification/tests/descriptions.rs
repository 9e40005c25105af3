use dcs_blocks::{
    AlarmMonitor, AnalogOutput, BackwashCoordinator, BackwashSequence, BackwashSequenceInputs,
    BackwashSequenceOutputs, BlowerGroup, BlowerIo, BlowerOutputs, BoolGate, CommandError,
    ComponentDescriptor, CoordinatorOutputs, Counter, DemandFallback, DemandFallbackIo,
    DeviationMonitor, EdgeTrigger, FeedforwardSum, FeedforwardSumIo, FilterIo, Float,
    ParameterError, Parameters, PermissiveInputs, PointId, Value,
};

const A: PointId = PointId(1);
const B: PointId = PointId(2);
const C: PointId = PointId(3);
const D: PointId = PointId(4);
const E: PointId = PointId(5);

fn num(value: f64) -> Value {
    Value::Float(Float::from_bits(value.to_bits()))
}

fn count(value: i64) -> Value {
    Value::Int(value)
}

fn declared(entries: &[(&str, Value)]) -> Parameters {
    let mut parameters = Parameters::new();
    for (name, value) in entries {
        parameters.insert(name, *value);
    }
    parameters
}

/// Builds a block from exactly `entries` and from more, and fails to build it
/// from fewer. The block describes what it was built from, name by name.
fn reads_the_described<T>(
    entries: &[(&str, Value)],
    build: impl Fn(&Parameters) -> Result<T, ParameterError>,
    describe: impl Fn(&T) -> ComponentDescriptor,
) -> T {
    let block = build(&declared(entries)).unwrap();
    let described = describe(&block);
    let names: Vec<&str> = described.parameters.iter().map(|p| p.name.as_str()).collect();
    assert_eq!(names, entries.iter().map(|(name, _)| *name).collect::<Vec<_>>());

    let mut more = declared(entries);
    more.insert("colour", count(7));
    assert_eq!(describe(&build(&more).unwrap()), described);

    for missing in 0..entries.len() {
        let mut fewer = entries.to_vec();
        let (name, _) = fewer.remove(missing);
        match build(&declared(&fewer)) {
            Err(ParameterError::Missing { parameter, .. }) => assert_eq!(parameter, name),
            Err(other) => panic!("{name}: {other:?}"),
            Ok(_) => panic!("{name} is not read"),
        }
    }
    block
}

/// Retunes every entry to its own value, or is told why not; another name is
/// unknown.
fn takes_the_described(
    entries: &[(&str, Value)],
    mut apply: impl FnMut(&str, Value) -> Result<(), CommandError>,
) {
    for (name, value) in entries {
        let unknown = matches!(apply(name, *value), Err(CommandError::UnknownParameter { .. }));
        assert!(!unknown, "{name}");
    }
    for other in ["colour", "", "unit_9_min_flow", "step_9_ticks", "unit_min_flow", "step_1_hue"] {
        match apply(other, num(1.0)) {
            Err(CommandError::UnknownParameter { parameter, .. }) => assert_eq!(parameter, other),
            told => panic!("{other}: {told:?}"),
        }
    }
}

#[test]
fn alarm_monitor_reads_the_described() {
    let build = |p: &Parameters| AlarmMonitor::from_parameters("alm", A, B, p);
    let limits = [("low_limit", num(1.0)), ("high_limit", num(9.0))];
    let block = build(&declared(&limits)).unwrap();
    let described = block.describe();
    let names: Vec<&str> = described.parameters.iter().map(|p| p.name.as_str()).collect();
    assert_eq!(names, ["low_limit", "high_limit", "hysteresis"]);

    // No hysteresis is a hysteresis of zero, and other names are not read.
    let mut more = declared(&limits);
    more.insert("hysteresis", num(0.0));
    more.insert("colour", count(7));
    assert_eq!(format!("{:?}", build(&more).unwrap()), format!("{block:?}"));

    for (limit, other) in [(0, 1), (1, 0)] {
        match build(&declared(&[limits[limit], ("hysteresis", num(0.5))])) {
            Err(ParameterError::Missing { parameter, .. }) => {
                assert_eq!(parameter, limits[other].0);
            }
            told => panic!("{told:?}"),
        }
    }
}

#[test]
fn analog_output_reads_the_described() {
    let entries = [
        ("raw_min", num(4.0)),
        ("raw_max", num(20.0)),
        ("eng_min", num(0.0)),
        ("eng_max", num(100.0)),
    ];
    let mut block = reads_the_described(
        &entries,
        |p| AnalogOutput::<Float>::from_parameters("ao", A, B, p),
        |block| block.describe(),
    );
    takes_the_described(&entries, |name, value| block.apply_parameter(name, value));
}

#[test]
fn bool_gate_reads_the_described() {
    let entries = [("operation", count(1))];
    let mut block = reads_the_described(
        &entries,
        |p| BoolGate::from_parameters("gate", vec![A, B], C, p),
        |block| block.describe(),
    );
    takes_the_described(&entries, |name, value| block.apply_parameter(name, value));
}

#[test]
fn counter_reads_the_described() {
    let entries = [("preset", count(5))];
    let mut block = reads_the_described(
        &entries,
        |p| Counter::from_parameters("ctr", A, B, C, D, p),
        |block| block.describe(),
    );
    takes_the_described(&entries, |name, value| block.apply_parameter(name, value));
}

#[test]
fn edge_trigger_reads_the_described() {
    let entries = [("edge", count(2))];
    let mut block = reads_the_described(
        &entries,
        |p| EdgeTrigger::from_parameters("edge", A, B, p),
        |block| block.describe(),
    );
    takes_the_described(&entries, |name, value| block.apply_parameter(name, value));
}

#[test]
fn demand_fallback_reads_the_described() {
    let entries = [("on_bad", count(1)), ("fallback_flow", num(40.0)), ("safe_flow", num(10.0))];
    let io = || DemandFallbackIo { input: A, pv: B, out: C, fallback_active: D };
    let mut block = reads_the_described(
        &entries,
        |p| DemandFallback::from_parameters("dfb", io(), p),
        |block| block.describe(),
    );
    takes_the_described(&entries, |name, value| block.apply_parameter(name, value));
}

#[test]
fn deviation_monitor_reads_the_described() {
    let entries = [("deviation_limit", num(0.1)), ("window_ticks", count(10))];
    let mut block = reads_the_described(
        &entries,
        |p| DeviationMonitor::from_parameters("dev", A, B, C, D, p),
        |block| block.describe(),
    );
    takes_the_described(&entries, |name, value| block.apply_parameter(name, value));
}

#[test]
fn feedforward_sum_reads_the_described() {
    let entries = [
        ("trim_min", num(-10.0)),
        ("trim_max", num(10.0)),
        ("min_demand", num(0.0)),
        ("max_demand", num(100.0)),
        ("on_bad_ff", count(0)),
        ("on_bad_trim", count(1)),
    ];
    let io = || FeedforwardSumIo { ff: A, trim: B, out: C, clamped: D, fallback_active: E };
    let mut block = reads_the_described(
        &entries,
        |p| FeedforwardSum::from_parameters("ffs", io(), p),
        |block| block.describe(),
    );
    takes_the_described(&entries, |name, value| block.apply_parameter(name, value));
}

#[test]
fn coordinator_reads_the_described() {
    let entries = [("queue_policy", count(1)), ("queued_state", count(0))];
    let filters = || {
        (0..2)
            .map(|i| FilterIo {
                request: PointId(10 + i),
                grant: PointId(20 + i),
                position: PointId(30 + i),
            })
            .collect()
    };
    let mut block = reads_the_described(
        &entries,
        |p| {
            BackwashCoordinator::from_parameters(
                "bwc",
                PermissiveInputs { supply_ok: A, waste_ok: B, flow_ok: C },
                None,
                filters(),
                CoordinatorOutputs { active: D, queued: E, resource_blocked: PointId(6) },
                p,
            )
        },
        |block| block.describe(),
    );
    takes_the_described(&entries, |name, value| block.apply_parameter(name, value));
}

/// A timed step and a measured one.
fn sequence(parameters: &Parameters) -> Result<BackwashSequence, ParameterError> {
    BackwashSequence::from_parameters(
        "bws",
        BackwashSequenceInputs {
            trig_time: A,
            trig_headloss: B,
            trig_turbidity: C,
            trig_operator: D,
            grant: E,
            abort: PointId(6),
            fault: PointId(7),
            meas: vec![PointId(8)],
        },
        BackwashSequenceOutputs {
            request: PointId(11),
            active: PointId(12),
            pending: PointId(13),
            done: PointId(14),
            aborted: PointId(15),
            overrun: PointId(16),
            trigger_source: PointId(17),
            step: PointId(18),
            out: PointId(19),
            phases: vec![PointId(21), PointId(22)],
        },
        parameters,
    )
}

#[test]
fn sequence_reads_the_described() {
    let entries = [
        ("step_count", count(2)),
        ("auto_start", count(1)),
        ("abort_step", count(2)),
        ("on_fault_step", count(1)),
        ("on_fault_policy", count(0)),
        ("step_1_ticks", count(3)),
        ("step_1_out", num(10.0)),
        ("step_1_advance", count(0)),
        ("step_1_on_overrun", count(0)),
        ("step_2_ticks", count(4)),
        ("step_2_out", num(20.0)),
        ("step_2_advance", count(1)),
        ("step_2_bound", num(50.0)),
        ("step_2_meas", count(1)),
        ("step_2_on_overrun", count(1)),
    ];
    let mut block = reads_the_described(&entries, sequence, |block| block.describe());
    takes_the_described(&entries, |name, value| block.apply_parameter(name, value));
}

/// A timed step may declare a bound and a measured input too; where it does,
/// it describes them.
#[test]
fn timed_steps_describe_the_bound_they_declare() {
    let entries = [
        ("step_count", count(2)),
        ("auto_start", count(1)),
        ("abort_step", count(2)),
        ("on_fault_step", count(1)),
        ("on_fault_policy", count(0)),
        ("step_1_ticks", count(3)),
        ("step_1_out", num(10.0)),
        ("step_1_advance", count(0)),
        ("step_1_bound", num(5.0)),
        ("step_1_meas", count(1)),
        ("step_1_on_overrun", count(0)),
        ("step_2_ticks", count(4)),
        ("step_2_out", num(20.0)),
        ("step_2_advance", count(0)),
        ("step_2_on_overrun", count(1)),
    ];
    let described = sequence(&declared(&entries)).unwrap().describe();
    let names: Vec<&str> = described.parameters.iter().map(|p| p.name.as_str()).collect();
    assert_eq!(names, entries.iter().map(|(name, _)| *name).collect::<Vec<_>>());
}

#[test]
fn blower_group_reads_the_described() {
    let entries = [
        ("staging_authority", count(0)),
        ("stage_up", num(1.0)),
        ("stage_down", num(0.5)),
        ("min_run_ticks", count(4)),
        ("min_start_interval_ticks", count(6)),
        ("unit_1_min_flow", num(20.0)),
        ("unit_1_max_flow", num(120.0)),
        ("unit_1_max_current", num(100.0)),
        ("unit_2_min_flow", num(30.0)),
        ("unit_2_max_flow", num(130.0)),
        ("unit_2_max_current", num(110.0)),
        ("vent_ticks", count(3)),
        ("rotation", count(2)),
    ];
    let units = || {
        (0..2)
            .map(|i| BlowerIo {
                cmd: PointId(100 + i),
                run: PointId(200 + i),
                fault: PointId(300 + i),
                avail: PointId(400 + i),
                capacity: PointId(500 + i),
                vent: PointId(600 + i),
            })
            .collect()
    };
    let mut block = reads_the_described(
        &entries,
        |p| {
            BlowerGroup::from_parameters(
                "bg",
                A,
                None,
                units(),
                BlowerOutputs {
                    staged: B,
                    none_available: C,
                    all_faulted: D,
                    staging_pending: E,
                    transition: PointId(6),
                },
                p,
            )
        },
        |block| block.describe(),
    );
    takes_the_described(&entries, |name, value| block.apply_parameter(name, value));
}
