use dcs_blocks::{Direction, IoRequirement, PointId, PortDescriptor, PortRole, ValueKind, describe};

fn requirements() -> Vec<IoRequirement> {
    vec![
        describe::input("pv", ValueKind::Float, PointId(1)),
        describe::output("out", ValueKind::Float, PointId(2)),
    ]
}

#[test]
fn builds_ports_from_requirements_with_named_roles() {
    let descriptor = describe::component(
        "lic-101",
        "pid",
        &requirements(),
        &vec![describe::hint("pv", PortRole::ProcessValue), describe::hint("out", PortRole::Output)],
        vec![describe::parameter("kp", ValueKind::Float, Some(describe::finite_f64()))],
    );
    assert_eq!(descriptor.name, "lic-101");
    assert_eq!(descriptor.kind, "pid");
    assert_eq!(descriptor.label, "lic-101");
    assert_eq!(
        descriptor.ports,
        [
            PortDescriptor {
                name: "pv".to_string(),
                direction: Direction::In,
                kind: ValueKind::Float,
                role: Some(PortRole::ProcessValue),
                point: None,
            },
            PortDescriptor {
                name: "out".to_string(),
                direction: Direction::Out,
                kind: ValueKind::Float,
                role: Some(PortRole::Output),
                point: None,
            },
        ]
    );
    assert_eq!(
        descriptor.parameters,
        [describe::parameter("kp", ValueKind::Float, Some(describe::finite_f64()))]
    );
}
