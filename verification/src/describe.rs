//! How a block describes itself: its ports, the role each one plays, and
//! the parameters it can be built and retuned with.

use crate::float::Float;
use crate::text;
use crate::value::{PointId, Value, ValueKind};
use crate::table::field;
use vstd::prelude::*;

verus! {

/// Which way a port points, seen from the block.
#[derive(Debug, Clone, Copy, PartialEq, Eq, Structural)]
pub enum Direction {
    In,
    Out,
}

/// What a port means on the block's faceplate.
#[derive(Debug, Clone, Copy, PartialEq, Eq, Structural)]
pub enum PortRole {
    ProcessValue,
    Setpoint,
    Output,
    Status,
}

/// One port a block is wired by.
#[derive(Debug, Clone, PartialEq, Eq)]
pub struct IoRequirement {
    pub name: String,
    pub direction: Direction,
    pub kind: ValueKind,
    pub point: PointId,
}

/// What an [`IoRequirement`] says.
pub struct RequirementView {
    pub name: Seq<char>,
    pub direction: Direction,
    pub kind: ValueKind,
    pub point: PointId,
}

impl View for IoRequirement {
    type V = RequirementView;

    open spec fn view(&self) -> RequirementView {
        RequirementView {
            name: self.name@,
            direction: self.direction,
            kind: self.kind,
            point: self.point,
        }
    }
}

/// The views of a list of ports.
pub open spec fn requirement_views(ports: Seq<IoRequirement>) -> Seq<RequirementView> {
    Seq::new(ports.len(), |i: int| ports[i]@)
}

/// An input port.
pub open spec fn spec_input(name: Seq<char>, kind: ValueKind, point: PointId) -> RequirementView {
    RequirementView { name, direction: Direction::In, kind, point }
}

/// An output port.
pub open spec fn spec_output(name: Seq<char>, kind: ValueKind, point: PointId) -> RequirementView {
    RequirementView { name, direction: Direction::Out, kind, point }
}

/// Declares an input port.
pub fn input(name: &str, kind: ValueKind, point: PointId) -> (r: IoRequirement)
    ensures
        r@ == spec_input(name@, kind, point),
{
    IoRequirement { name: name.to_owned(), direction: Direction::In, kind, point }
}

/// Declares an output port.
pub fn output(name: &str, kind: ValueKind, point: PointId) -> (r: IoRequirement)
    ensures
        r@ == spec_output(name@, kind, point),
{
    IoRequirement { name: name.to_owned(), direction: Direction::Out, kind, point }
}

/// An inclusive bound on a parameter's value.
#[derive(Debug, Clone, Copy, PartialEq, Eq, Structural)]
pub struct ParameterRange {
    pub min: Value,
    pub max: Value,
}

/// The integers from `min` to `max`.
pub open spec fn spec_int_range(min: i64, max: i64) -> ParameterRange {
    ParameterRange { min: Value::Int(min), max: Value::Int(max) }
}

/// The doubles from the pattern `min` to the pattern `max`.
pub open spec fn spec_float_range(min: u64, max: u64) -> ParameterRange {
    ParameterRange {
        min: Value::Float(Float { bits: min }),
        max: Value::Float(Float { bits: max }),
    }
}

/// The bit pattern of the largest finite double.
pub const LARGEST: u64 = 0x7fef_ffff_ffff_ffff;

/// The bit pattern of the smallest positive normal double.
pub const SMALLEST: u64 = 0x0010_0000_0000_0000;

/// The bit pattern of one.
pub const ONE: u64 = 0x3ff0_0000_0000_0000;

/// The bound of a parameter that takes every finite double.
pub open spec fn spec_finite_f64() -> ParameterRange {
    spec_float_range(0xffef_ffff_ffff_ffff, LARGEST)
}

/// The bound of a parameter that takes positive doubles. The lower bound is
/// the smallest positive normal double, the tightest inclusive one.
pub open spec fn spec_positive_f64() -> ParameterRange {
    spec_float_range(SMALLEST, LARGEST)
}

/// The bound of a parameter that takes non-negative doubles.
pub open spec fn spec_nonnegative_f64() -> ParameterRange {
    spec_float_range(0, LARGEST)
}

/// The bound of a parameter that takes a positive fraction of at most one.
pub open spec fn spec_fraction_f64() -> ParameterRange {
    spec_float_range(SMALLEST, ONE)
}

/// The bound of a parameter that takes non-negative integers.
pub open spec fn spec_nonnegative_int() -> ParameterRange {
    spec_int_range(0, i64::MAX)
}

/// The bound of a parameter that takes positive integers.
pub open spec fn spec_positive_int() -> ParameterRange {
    spec_int_range(1, i64::MAX)
}

/// The integers from `min` to `max`.
pub fn int_range(min: i64, max: i64) -> (r: ParameterRange)
    ensures
        r == spec_int_range(min, max),
{
    ParameterRange { min: Value::Int(min), max: Value::Int(max) }
}

fn float_range(min: u64, max: u64) -> (r: ParameterRange)
    ensures
        r == spec_float_range(min, max),
{
    ParameterRange {
        min: Value::Float(Float::from_bits(min)),
        max: Value::Float(Float::from_bits(max)),
    }
}

/// The bound of a parameter that takes every finite double.
pub fn finite_f64() -> (r: ParameterRange)
    ensures
        r == spec_finite_f64(),
{
    float_range(0xffef_ffff_ffff_ffff, LARGEST)
}

/// The bound of a parameter that takes positive doubles.
pub fn positive_f64() -> (r: ParameterRange)
    ensures
        r == spec_positive_f64(),
{
    float_range(SMALLEST, LARGEST)
}

/// The bound of a parameter that takes non-negative doubles.
pub fn nonnegative_f64() -> (r: ParameterRange)
    ensures
        r == spec_nonnegative_f64(),
{
    float_range(0, LARGEST)
}

/// The bound of a parameter that takes a positive fraction of at most one.
pub fn fraction_f64() -> (r: ParameterRange)
    ensures
        r == spec_fraction_f64(),
{
    float_range(SMALLEST, ONE)
}

/// The bound of a parameter that takes non-negative integers.
pub fn nonnegative_int() -> (r: ParameterRange)
    ensures
        r == spec_nonnegative_int(),
{
    int_range(0, i64::MAX)
}

/// The bound of a parameter that takes positive integers.
pub fn positive_int() -> (r: ParameterRange)
    ensures
        r == spec_positive_int(),
{
    int_range(1, i64::MAX)
}

/// One parameter that a block declares.
#[derive(Debug, Clone, PartialEq, Eq)]
pub struct ParameterDescriptor {
    pub name: String,
    pub kind: ValueKind,
    pub range: Option<ParameterRange>,
}

/// What a [`ParameterDescriptor`] says.
pub struct ParameterView {
    pub name: Seq<char>,
    pub kind: ValueKind,
    pub range: Option<ParameterRange>,
}

impl View for ParameterDescriptor {
    type V = ParameterView;

    open spec fn view(&self) -> ParameterView {
        ParameterView { name: self.name@, kind: self.kind, range: self.range }
    }
}

/// The views of a list of parameters.
pub open spec fn parameter_views(parameters: Seq<ParameterDescriptor>) -> Seq<ParameterView> {
    Seq::new(parameters.len(), |i: int| parameters[i]@)
}

/// Whether `name` is the name of a described parameter.
pub open spec fn describes_parameter(parameters: Seq<ParameterView>, name: Seq<char>) -> bool {
    exists|i: int| 0 <= i < parameters.len() && (#[trigger] parameters[i]).name == name
}

/// Whether two sets of declared values agree in every described parameter.
pub open spec fn agree_on(
    parameters: Seq<ParameterView>,
    a: Map<Seq<char>, Value>,
    b: Map<Seq<char>, Value>,
) -> bool {
    forall|i: int|
        0 <= i < parameters.len() ==> field(a, (#[trigger] parameters[i]).name) == field(
            b,
            parameters[i].name,
        )
}

/// A bounded parameter.
pub open spec fn spec_parameter(
    name: Seq<char>,
    kind: ValueKind,
    range: ParameterRange,
) -> ParameterView {
    ParameterView { name, kind, range: Some(range) }
}

/// Declares a parameter: its name in the parameter map, the kind of value
/// it takes, and the inclusive bound on it, where there is one.
pub fn parameter(name: &str, kind: ValueKind, range: Option<ParameterRange>) -> (r:
    ParameterDescriptor)
    ensures
        r@ == (ParameterView { name: name@, kind, range }),
{
    ParameterDescriptor { name: name.to_owned(), kind, range }
}

/// One port in a description. The bound point is left to whoever serves it.
#[derive(Debug, Clone, PartialEq, Eq)]
pub struct PortDescriptor {
    pub name: String,
    pub direction: Direction,
    pub kind: ValueKind,
    pub role: Option<PortRole>,
    pub point: Option<PointId>,
}

/// What a [`PortDescriptor`] says.
pub struct PortView {
    pub name: Seq<char>,
    pub direction: Direction,
    pub kind: ValueKind,
    pub role: Option<PortRole>,
    pub point: Option<PointId>,
}

impl View for PortDescriptor {
    type V = PortView;

    open spec fn view(&self) -> PortView {
        PortView {
            name: self.name@,
            direction: self.direction,
            kind: self.kind,
            role: self.role,
            point: self.point,
        }
    }
}

/// A block's description.
#[derive(Debug, Clone, PartialEq, Eq)]
pub struct ComponentDescriptor {
    pub name: String,
    pub kind: String,
    pub label: String,
    pub ports: Vec<PortDescriptor>,
    pub parameters: Vec<ParameterDescriptor>,
}

/// What a [`ComponentDescriptor`] says.
#[verifier::ext_equal]
pub struct ComponentView {
    pub name: Seq<char>,
    pub kind: Seq<char>,
    pub label: Seq<char>,
    pub ports: Seq<PortView>,
    pub parameters: Seq<ParameterView>,
}

impl View for ComponentDescriptor {
    type V = ComponentView;

    open spec fn view(&self) -> ComponentView {
        ComponentView {
            name: self.name@,
            kind: self.kind@,
            label: self.label@,
            ports: Seq::new(self.ports@.len(), |i: int| self.ports@[i]@),
            parameters: parameter_views(self.parameters@),
        }
    }
}

/// A role attached to a port by the port's name.
#[derive(Debug, Clone, PartialEq, Eq)]
pub struct RoleHint {
    pub port: String,
    pub role: PortRole,
}

impl View for RoleHint {
    type V = (Seq<char>, PortRole);

    open spec fn view(&self) -> (Seq<char>, PortRole) {
        (self.port@, self.role)
    }
}

/// The views of a list of hints.
pub open spec fn role_views(roles: Seq<RoleHint>) -> Seq<(Seq<char>, PortRole)> {
    Seq::new(roles.len(), |i: int| roles[i]@)
}

/// Attaches a role to a port.
pub fn hint(port: &str, role: PortRole) -> (r: RoleHint)
    ensures
        r@ == (port@, role),
{
    RoleHint { port: port.to_owned(), role }
}

/// The role that the first hint for `port` gives it.
pub open spec fn role_of(roles: Seq<(Seq<char>, PortRole)>, port: Seq<char>) -> Option<PortRole>
    decreases roles.len(),
{
    if roles.len() == 0 {
        None
    } else if roles[0].0 == port {
        Some(roles[0].1)
    } else {
        role_of(roles.drop_first(), port)
    }
}

/// Whether one of `requirements` is the port `port`.
pub open spec fn declares(requirements: Seq<RequirementView>, port: Seq<char>) -> bool {
    exists|i: int| 0 <= i < requirements.len() && (#[trigger] requirements[i]).name == port
}

/// Whether every hint names a declared port.
pub open spec fn hints_declared(
    requirements: Seq<RequirementView>,
    roles: Seq<(Seq<char>, PortRole)>,
) -> bool {
    forall|i: int| 0 <= i < roles.len() ==> declares(requirements, (#[trigger] roles[i]).0)
}

/// The description of a block from what it declares: its ports in the
/// declared order, each with the role hinted for it.
pub open spec fn spec_component(
    name: Seq<char>,
    kind: Seq<char>,
    requirements: Seq<RequirementView>,
    roles: Seq<(Seq<char>, PortRole)>,
    parameters: Seq<ParameterView>,
) -> ComponentView {
    ComponentView {
        name,
        kind,
        label: name,
        ports: Seq::new(
            requirements.len(),
            |i: int|
                PortView {
                    name: requirements[i].name,
                    direction: requirements[i].direction,
                    kind: requirements[i].kind,
                    role: role_of(roles, requirements[i].name),
                    point: None,
                },
        ),
        parameters,
    }
}

/// Hints that follow the declared ports one by one name declared ports.
pub proof fn parallel_hints(requirements: Seq<RequirementView>, roles: Seq<(Seq<char>, PortRole)>)
    requires
        roles.len() == requirements.len(),
        forall|i: int|
            0 <= i < roles.len() ==> (#[trigger] roles[i]).0 == requirements[i].name,
    ensures
        hints_declared(requirements, roles),
{
    assert forall|i: int| 0 <= i < roles.len() implies declares(
        requirements,
        (#[trigger] roles[i]).0,
    ) by {
        assert(requirements[i].name == roles[i].0);
    }
}

fn find_role(roles: &Vec<RoleHint>, port: &str) -> (r: Option<PortRole>)
    ensures
        r == role_of(role_views(roles@), port@),
{
    let ghost all = role_views(roles@);
    let mut next: usize = 0;
    assert(all.skip(0) == all);
    while next < roles.len()
        invariant
            next <= roles.len(),
            all == role_views(roles@),
            role_of(all.skip(next as int), port@) == role_of(all, port@),
        decreases roles.len() - next,
    {
        assert(all.skip(next as int)[0] == roles@[next as int]@);
        assert(all.skip(next as int).drop_first() == all.skip(next + 1));
        if text::same(roles[next].port.as_str(), port) {
            return Some(roles[next].role);
        }
        next = next + 1;
    }
    None
}

/// Builds a block's description. Names, directions and kinds come from the
/// declared ports, so the description cannot drift from them; a hint must
/// name one of them.
pub fn component(
    name: &str,
    kind: &str,
    requirements: &Vec<IoRequirement>,
    roles: &Vec<RoleHint>,
    parameters: Vec<ParameterDescriptor>,
) -> (r: ComponentDescriptor)
    requires
        hints_declared(requirement_views(requirements@), role_views(roles@)),
    ensures
        r@ == spec_component(
            name@,
            kind@,
            requirement_views(requirements@),
            role_views(roles@),
            parameter_views(parameters@),
        ),
{
    let mut ports: Vec<PortDescriptor> = Vec::new();
    let ghost views = requirement_views(requirements@);
    let ghost hints = role_views(roles@);
    let mut next: usize = 0;
    while next < requirements.len()
        invariant
            next <= requirements.len(),
            ports.len() == next,
            views == requirement_views(requirements@),
            hints == role_views(roles@),
            forall|i: int|
                0 <= i < next ==> (#[trigger] ports@[i])@ == (PortView {
                    name: views[i].name,
                    direction: views[i].direction,
                    kind: views[i].kind,
                    role: role_of(hints, views[i].name),
                    point: None,
                }),
        decreases requirements.len() - next,
    {
        let requirement = &requirements[next];
        ports.push(
            PortDescriptor {
                name: requirement.name.clone(),
                direction: requirement.direction,
                kind: requirement.kind,
                role: find_role(roles, requirement.name.as_str()),
                point: None,
            },
        );
        next = next + 1;
    }
    let r = ComponentDescriptor {
        name: name.to_owned(),
        kind: kind.to_owned(),
        label: name.to_owned(),
        ports,
        parameters,
    };
    assert(r@ =~= spec_component(name@, kind@, views, hints, parameter_views(parameters@)));
    r
}

/// The parameters of a linear map: the bounds of its two ranges.
pub open spec fn spec_scaling_parameters() -> Seq<ParameterView> {
    seq![
        spec_parameter("raw_min"@, ValueKind::Float, spec_finite_f64()),
        spec_parameter("raw_max"@, ValueKind::Float, spec_finite_f64()),
        spec_parameter("eng_min"@, ValueKind::Float, spec_finite_f64()),
        spec_parameter("eng_max"@, ValueKind::Float, spec_finite_f64()),
    ]
}

/// Declares the parameters of a linear map.
pub fn scaling_parameters() -> (r: Vec<ParameterDescriptor>)
    ensures
        parameter_views(r@) == spec_scaling_parameters(),
{
    let mut r: Vec<ParameterDescriptor> = Vec::new();
    r.push(parameter("raw_min", ValueKind::Float, Some(finite_f64())));
    r.push(parameter("raw_max", ValueKind::Float, Some(finite_f64())));
    r.push(parameter("eng_min", ValueKind::Float, Some(finite_f64())));
    r.push(parameter("eng_max", ValueKind::Float, Some(finite_f64())));
    assert(parameter_views(r@) == spec_scaling_parameters());
    r
}

/// A block is described by what it declares: under its own name, which is the
/// label too, with its ports in the declared order, each with the name, the
/// direction and the kind that it is wired by, no bound point, and the role
/// that a hint for it gives, where one does.
pub proof fn ports_are_described_as_declared(
    name: Seq<char>,
    kind: Seq<char>,
    requirements: Seq<RequirementView>,
    roles: Seq<(Seq<char>, PortRole)>,
    parameters: Seq<ParameterView>,
    i: int,
    k: int,
)
    requires
        0 <= i < requirements.len(),
    ensures
        ({
            let described = spec_component(name, kind, requirements, roles, parameters);
            let port = described.ports[i];
            &&& described.name == name && described.label == name && described.kind == kind
            &&& described.parameters == parameters
            &&& described.ports.len() == requirements.len()
            &&& port.name == requirements[i].name && port.kind == requirements[i].kind
            &&& port.direction == requirements[i].direction
            &&& port.point is None
            &&& 0 <= k < roles.len() && roles[k].0 == port.name && (forall|j: int|
                0 <= j < k ==> (#[trigger] roles[j]).0 != port.name) ==> port.role == Some(
                roles[k].1,
            )
            &&& (forall|j: int| 0 <= j < roles.len() ==> (#[trigger] roles[j]).0 != port.name)
                ==> port.role is None
        }),
{
    lemma_first_hint(roles, requirements[i].name, k);
}

proof fn lemma_first_hint(roles: Seq<(Seq<char>, PortRole)>, port: Seq<char>, k: int)
    ensures
        0 <= k < roles.len() && roles[k].0 == port && (forall|j: int|
            0 <= j < k ==> (#[trigger] roles[j]).0 != port) ==> role_of(roles, port) == Some(
            roles[k].1,
        ),
        (forall|j: int| 0 <= j < roles.len() ==> (#[trigger] roles[j]).0 != port) ==> role_of(
            roles,
            port,
        ) is None,
    decreases roles.len(),
{
    if roles.len() > 0 && roles[0].0 != port {
        let rest = roles.drop_first();
        lemma_first_hint(rest, port, k - 1);
        if 0 <= k < roles.len() && roles[k].0 == port && (forall|j: int|
            0 <= j < k ==> (#[trigger] roles[j]).0 != port) {
            assert forall|j: int| 0 <= j < k - 1 implies (#[trigger] rest[j]).0 != port by {
                assert(roles[j + 1].0 != port);
            }
            assert(rest[k - 1] == roles[k]);
        }
        if forall|j: int| 0 <= j < roles.len() ==> (#[trigger] roles[j]).0 != port {
            assert forall|j: int| 0 <= j < rest.len() implies (#[trigger] rest[j]).0 != port by {
                assert(roles[j + 1].0 != port);
            }
        }
    }
}

/// A port is wired in the direction it is declared for, and a parameter is
/// described by its name, its kind and its bound.
pub proof fn declarations_hold_their_parts(
    name: Seq<char>,
    kind: ValueKind,
    point: PointId,
    range: ParameterRange,
)
    ensures
        ({
            let input = spec_input(name, kind, point);
            let output = spec_output(name, kind, point);
            let parameter = spec_parameter(name, kind, range);
            &&& input.name == name && input.kind == kind && input.point == point
            &&& input.direction == Direction::In
            &&& output.name == name && output.kind == kind && output.point == point
            &&& output.direction == Direction::Out
            &&& parameter.name == name && parameter.kind == kind && parameter.range == Some(range)
        }),
{
}

/// Whether a value lies within a bound, both ends included.
pub open spec fn within(range: ParameterRange, value: Value) -> bool {
    match (range.min, value, range.max) {
        (Value::Int(min), Value::Int(n), Value::Int(max)) => min <= n <= max,
        (Value::Float(min), Value::Float(f), Value::Float(max)) => min.le(f) && f.le(max),
        _ => false,
    }
}

/// The bounds tell what a parameter takes: every finite double and no other,
/// the finite ones from zero up, the positive ones that are normal, those of
/// them up to one, the integers from zero or from one up, and those from a
/// least to a greatest.
pub proof fn bounds_hold_what_is_taken(f: Float, n: i64, min: i64, max: i64)
    ensures
        within(spec_finite_f64(), Value::Float(f)) <==> f.finite(),
        within(spec_nonnegative_f64(), Value::Float(f)) <==> f.finite() && (Float { bits: 0 }).le(
            f,
        ),
        within(spec_positive_f64(), Value::Float(f)) <==> f.finite() && (Float {
            bits: 0x10_0000_0000_0000,
        }).le(f),
        within(spec_fraction_f64(), Value::Float(f)) <==> (Float {
            bits: 0x10_0000_0000_0000,
        }).le(f) && f.le((Float { bits: 0x3ff0_0000_0000_0000 })),
        within(spec_nonnegative_int(), Value::Int(n)) <==> 0 <= n,
        within(spec_positive_int(), Value::Int(n)) <==> 1 <= n,
        within(spec_int_range(min, max), Value::Int(n)) <==> min <= n <= max,
{
}

/// A linear map is tuned by the four finite bounds of its two ranges.
pub proof fn scaling_parameters_are_the_bounds(i: int)
    ensures
        spec_scaling_parameters().len() == 4,
        spec_scaling_parameters()[0].name == "raw_min"@,
        spec_scaling_parameters()[1].name == "raw_max"@,
        spec_scaling_parameters()[2].name == "eng_min"@,
        spec_scaling_parameters()[3].name == "eng_max"@,
        0 <= i < 4 ==> spec_scaling_parameters()[i].kind == ValueKind::Float
            && spec_scaling_parameters()[i].range == Some(
            (ParameterRange {
                min: Value::Float(Float { bits: 0xffef_ffff_ffff_ffff }),
                max: Value::Float(Float { bits: 0x7fef_ffff_ffff_ffff }),
            }),
        ),
{
}

} // verus!
