//! Failover between a primary and a backup measurement.

use crate::describe::{
    self, requirement_views, role_views, spec_component, spec_input, spec_output,
    ComponentDescriptor, ComponentView, IoRequirement, ParameterDescriptor, PortRole,
    RequirementView, RoleHint,
};
use crate::float::Float;
use crate::params::{ParameterError, Parameters};
use crate::table::{agrees, known_fields, StateError, StateErrorView, StateMap};
use crate::text;
use crate::value::{PointId, Quality, QualityReason, Reading, Tick, Value, ValueKind, Write};
use vstd::prelude::*;

verus! {

/// A failover: `out` carries `primary` while that reads finite and trusted,
/// and otherwise `backup` as it is, its quality included; a value that is
/// not finite counts as a device fault. `backup_active` reports which one
/// serves. `backup_unhealthy`, where it is wired, reports whether the backup
/// could serve, whichever one does.
///
/// The block has no state and no parameters: a primary that recovers serves
/// again in the same scan. Both reports are its own verdicts and always
/// `Good`.
#[derive(Debug)]
pub struct FailoverSelect {
    name: String,
    primary: PointId,
    backup: PointId,
    out: PointId,
    backup_active: PointId,
    backup_unhealthy: Option<PointId>,
}

/// What a [`FailoverSelect`] is.
#[verifier::ext_equal]
pub struct FailoverView {
    pub name: Seq<char>,
    pub primary: PointId,
    pub backup: PointId,
    pub out: PointId,
    pub backup_active: PointId,
    pub backup_unhealthy: Option<PointId>,
}

impl View for FailoverSelect {
    type V = FailoverView;

    closed spec fn view(&self) -> FailoverView {
        FailoverView {
            name: self.name@,
            primary: self.primary,
            backup: self.backup,
            out: self.out,
            backup_active: self.backup_active,
            backup_unhealthy: self.backup_unhealthy,
        }
    }
}

/// The measurement that serves.
pub open spec fn selected(primary: Reading<Float>, backup: Reading<Float>) -> Reading<Float> {
    if primary.usable() {
        primary
    } else {
        backup
    }
}

/// The quality a measurement is served with.
pub open spec fn served_quality(reading: Reading<Float>) -> Quality {
    if reading.value.finite() {
        reading.quality
    } else {
        reading.quality.spec_merge(Quality::Bad(QualityReason::DeviceFault))
    }
}

impl FailoverView {
    /// What the block drives in a scan, in order.
    pub open spec fn writes(
        self,
        primary: Reading<Float>,
        backup: Reading<Float>,
        tick: Tick,
    ) -> Seq<Write> {
        let serving = selected(primary, backup);
        let selection = seq![
            Write::of(self.out, Value::Float(serving.value), served_quality(serving), tick),
            Write::of(
                self.backup_active,
                Value::Bool(!primary.usable()),
                Quality::Good,
                tick,
            ),
        ];
        match self.backup_unhealthy {
            Some(point) => selection.push(
                Write::of(point, Value::Bool(!backup.usable()), Quality::Good, tick),
            ),
            None => selection,
        }
    }

    /// The declared ports; `backup_unhealthy` is one only where it is wired.
    pub open spec fn requirements(self) -> Seq<RequirementView> {
        let wired = seq![
            spec_input("primary"@, ValueKind::Float, self.primary),
            spec_input("backup"@, ValueKind::Float, self.backup),
            spec_output("out"@, ValueKind::Float, self.out),
            spec_output("backup_active"@, ValueKind::Bool, self.backup_active),
        ];
        match self.backup_unhealthy {
            Some(point) => wired.push(
                spec_output("backup_unhealthy"@, ValueKind::Bool, point),
            ),
            None => wired,
        }
    }

    /// The roles of the ports.
    pub open spec fn roles(self) -> Seq<(Seq<char>, PortRole)> {
        let wired = seq![
            ("primary"@, PortRole::ProcessValue),
            ("backup"@, PortRole::ProcessValue),
            ("out"@, PortRole::Output),
            ("backup_active"@, PortRole::Status),
        ];
        if self.backup_unhealthy is Some {
            wired.push(("backup_unhealthy"@, PortRole::Status))
        } else {
            wired
        }
    }

    /// The block's description.
    pub open spec fn description(self) -> ComponentView {
        spec_component(
            self.name,
            FailoverSelect::KIND@,
            self.requirements(),
            self.roles(),
            Seq::empty(),
        )
    }

    /// What a checkpoint captures.
    pub open spec fn captured(self) -> Map<Seq<char>, Value> {
        Map::empty()
    }

    /// Whether a checkpoint with these field names can be taken over.
    pub open spec fn restorable(self, keys: Seq<Seq<char>>) -> Result<(), StateErrorView> {
        known_fields(keys, self.name, Seq::empty())
    }
}

impl FailoverSelect {
    /// The kind a plant model selects this block by.
    pub const KIND: &'static str = "failover-select";

    /// Builds a failover. `backup_unhealthy` is given only where it is wired.
    pub fn new(
        name: &str,
        primary: PointId,
        backup: PointId,
        out: PointId,
        backup_active: PointId,
        backup_unhealthy: Option<PointId>,
    ) -> (r: FailoverSelect)
        ensures
            r@ == (FailoverView {
                name: name@,
                primary,
                backup,
                out,
                backup_active,
                backup_unhealthy,
            }),
    {
        FailoverSelect {
            name: name.to_owned(),
            primary,
            backup,
            out,
            backup_active,
            backup_unhealthy,
        }
    }

    /// Builds a failover for a plant model. There are no parameters to read,
    /// so it always succeeds.
    pub fn from_parameters(
        name: &str,
        primary: PointId,
        backup: PointId,
        out: PointId,
        backup_active: PointId,
        backup_unhealthy: Option<PointId>,
        _parameters: &Parameters,
    ) -> (r: Result<FailoverSelect, ParameterError>)
        ensures
            r matches Ok(block) && block@ == (FailoverView {
                name: name@,
                primary,
                backup,
                out,
                backup_active,
                backup_unhealthy,
            }),
    {
        Ok(FailoverSelect::new(name, primary, backup, out, backup_active, backup_unhealthy))
    }

    /// The block's name.
    pub fn name(&self) -> (r: &str)
        ensures
            r@ == self@.name,
    {
        self.name.as_str()
    }

    /// The declared ports.
    pub fn io_requirements(&self) -> (r: Vec<IoRequirement>)
        ensures
            requirement_views(r@) == self@.requirements(),
    {
        let mut r: Vec<IoRequirement> = Vec::new();
        r.push(describe::input("primary", ValueKind::Float, self.primary));
        r.push(describe::input("backup", ValueKind::Float, self.backup));
        r.push(describe::output("out", ValueKind::Float, self.out));
        r.push(describe::output("backup_active", ValueKind::Bool, self.backup_active));
        if let Some(point) = self.backup_unhealthy {
            r.push(describe::output("backup_unhealthy", ValueKind::Bool, point));
        }
        assert(requirement_views(r@) == self@.requirements());
        r
    }

    /// Runs one scan on what the two measurements read.
    pub fn step(&self, primary: Reading<Float>, backup: Reading<Float>, tick: Tick) -> (r: Vec<
        Write,
    >)
        ensures
            r@ == self@.writes(primary, backup, tick),
    {
        let on_backup = !primary.is_usable();
        let serving = if on_backup {
            backup
        } else {
            primary
        };
        let quality = if serving.value.is_finite() {
            serving.quality
        } else {
            serving.quality.merge(Quality::Bad(QualityReason::DeviceFault))
        };
        let mut r: Vec<Write> = Vec::new();
        r.push(Write::new(self.out, Value::Float(serving.value), quality, tick));
        r.push(Write::new(self.backup_active, Value::Bool(on_backup), Quality::Good, tick));
        if let Some(point) = self.backup_unhealthy {
            r.push(Write::new(point, Value::Bool(!backup.is_usable()), Quality::Good, tick));
        }
        r
    }

    /// Describes the block.
    pub fn describe(&self) -> (r: ComponentDescriptor)
        ensures
            r@ == self@.description(),
    {
        let mut roles: Vec<RoleHint> = Vec::new();
        roles.push(describe::hint("primary", PortRole::ProcessValue));
        roles.push(describe::hint("backup", PortRole::ProcessValue));
        roles.push(describe::hint("out", PortRole::Output));
        roles.push(describe::hint("backup_active", PortRole::Status));
        if self.backup_unhealthy.is_some() {
            roles.push(describe::hint("backup_unhealthy", PortRole::Status));
        }
        assert(role_views(roles@) == self@.roles());
        let parameters: Vec<ParameterDescriptor> = Vec::new();
        assert(describe::parameter_views(parameters@) == Seq::<describe::ParameterView>::empty());
        proof {
            describe::parallel_hints(self@.requirements(), self@.roles());
        }
        describe::component(
            self.name.as_str(),
            FailoverSelect::KIND,
            &self.io_requirements(),
            &roles,
            parameters,
        )
    }

    /// The block's checkpoint: nothing, since the selection follows from what
    /// the inputs read.
    pub fn capture_state(&self) -> (r: StateMap)
        ensures
            r@ == self@.captured(),
            r.keys() == Seq::<Seq<char>>::empty(),
    {
        StateMap::new()
    }

    /// Takes over a checkpoint. One that holds any field is refused.
    pub fn restore_state(&mut self, state: &StateMap) -> (r: Result<(), StateError>)
        ensures
            agrees(r, old(self)@.restorable(state.keys())),
            *final(self) == *old(self),
    {
        let known: Vec<String> = Vec::new();
        assert(text::views(known@) == Seq::<Seq<char>>::empty());
        state.ensure_known_fields(self.name.as_str(), &known)
    }
}

/// A checkpoint that the block captured is always taken over.
pub proof fn checkpoint_round_trip(block: FailoverView)
    ensures
        block.captured() == Map::<Seq<char>, Value>::empty(),
        block.restorable(Seq::empty()) is Ok,
{
}

/// A checkpoint that holds any field is refused, by the name of the first.
pub proof fn foreign_checkpoints_are_refused(block: FailoverView, keys: Seq<Seq<char>>)
    requires
        keys.len() > 0,
    ensures
        block.restorable(keys) == Err::<(), StateErrorView>(
            StateErrorView::UnknownField { element: block.name, field: keys[0] },
        ),
{
}

/// While the primary is finite and trusted it serves, `Good` as it is, and
/// the backup does not matter to `out`.
pub proof fn healthy_primary_serves(
    block: FailoverView,
    primary: Reading<Float>,
    backup: Reading<Float>,
    tick: Tick,
)
    requires
        primary.usable(),
    ensures
        block.writes(primary, backup, tick)[0] == Write::of(
            block.out,
            Value::Float(primary.value),
            Quality::Good,
            tick,
        ),
        block.writes(primary, backup, tick)[1].sample.value == Value::Bool(false),
{
}

/// A failed primary hands over to the backup at once, verbatim; with both
/// failed, `out` is not `Good`.
pub proof fn failed_primary_hands_over(
    block: FailoverView,
    primary: Reading<Float>,
    backup: Reading<Float>,
    tick: Tick,
)
    requires
        !primary.usable(),
    ensures
        ({
            let writes = block.writes(primary, backup, tick);
            &&& writes[0].sample.value == Value::Float(backup.value)
            &&& backup.value.finite() ==> writes[0].sample.quality == backup.quality
            &&& !backup.usable() ==> writes[0].sample.quality != Quality::Good
            &&& writes[1].sample.value == Value::Bool(true)
        }),
{
}

/// The backup's health is reported whichever measurement serves, and wiring
/// the report changes nothing else.
pub proof fn backup_health_is_independent(
    block: FailoverView,
    primary: Reading<Float>,
    other: Reading<Float>,
    backup: Reading<Float>,
    point: PointId,
    tick: Tick,
)
    requires
        block.backup_unhealthy == Some(point),
    ensures
        ({
            let writes = block.writes(primary, backup, tick);
            let unwired = FailoverView { backup_unhealthy: None, ..block };
            &&& writes.len() == 3
            &&& writes[2] == Write::of(point, Value::Bool(!backup.usable()), Quality::Good, tick)
            &&& writes[2] == block.writes(other, backup, tick)[2]
            &&& unwired.writes(primary, backup, tick) == writes.take(2)
        }),
{
    let writes = block.writes(primary, backup, tick);
    let unwired = FailoverView { backup_unhealthy: None, ..block };
    assert(unwired.writes(primary, backup, tick) =~= writes.take(2));
}

/// Every scan drives `out`, `backup_active` and, where it is wired,
/// `backup_unhealthy`, in this order and as of this scan. `out` carries the
/// primary, bit by bit and `Good`, where that is finite and `Good`, and otherwise
/// the backup with its own quality, which is a device fault where it is not
/// finite. `backup_active` tells whether the backup serves, `backup_unhealthy`
/// whether it could not; both are always `Good`.
pub proof fn scans_drive_the_selection(
    block: FailoverView,
    primary: Reading<Float>,
    backup: Reading<Float>,
    tick: Tick,
    k: int,
)
    ensures
        ({
            let writes = block.writes(primary, backup, tick);
            let out = writes[0].sample;
            let healthy = primary.quality is Good && primary.value.finite();
            let able = backup.quality is Good && backup.value.finite();
            &&& writes.len() == if block.backup_unhealthy is Some {
                3int
            } else {
                2
            }
            &&& writes[0].point == block.out && writes[1].point == block.backup_active
            &&& 0 <= k < writes.len() ==> writes[k].sample.tick == tick
            &&& healthy ==> out.value == Value::Float(primary.value) && out.quality == Quality::Good
            &&& !healthy ==> out.value == Value::Float(backup.value)
            &&& !healthy && backup.value.finite() ==> out.quality == backup.quality
            &&& !healthy && !backup.value.finite() ==> out.quality == Quality::Bad(
                QualityReason::DeviceFault,
            )
            &&& writes[1].sample.value == Value::Bool(!healthy)
            &&& writes[1].sample.quality == Quality::Good
            &&& block.backup_unhealthy matches Some(point) ==> writes[2].point == point
                && writes[2].sample.value == Value::Bool(!able) && writes[2].sample.quality
                == Quality::Good
        }),
{
}

/// What the block is wired by: the two measurements, `out`, `backup_active` and,
/// where it is wired, `backup_unhealthy`. The hints follow the ports one by one,
/// and there are no parameters.
pub proof fn wiring_is_described(block: FailoverView)
    ensures
        ({
            let described = block.description();
            let ports = block.requirements();
            let roles = block.roles();
            let count = if block.backup_unhealthy is Some {
                5int
            } else {
                4
            };
            let input = describe::Direction::In;
            let output = describe::Direction::Out;
            &&& described.name == block.name && described.label == block.name
            &&& described.kind == "failover-select"@ && described.parameters.len() == 0
            &&& described.ports.len() == count && ports.len() == count && roles.len() == count
            &&& ports[0] == (RequirementView {
                name: "primary"@,
                direction: input,
                kind: ValueKind::Float,
                point: block.primary,
            })
            &&& ports[1] == (RequirementView {
                name: "backup"@,
                direction: input,
                kind: ValueKind::Float,
                point: block.backup,
            })
            &&& ports[2] == (RequirementView {
                name: "out"@,
                direction: output,
                kind: ValueKind::Float,
                point: block.out,
            })
            &&& ports[3] == (RequirementView {
                name: "backup_active"@,
                direction: output,
                kind: ValueKind::Bool,
                point: block.backup_active,
            })
            &&& block.backup_unhealthy matches Some(point) ==> ports[4] == (RequirementView {
                name: "backup_unhealthy"@,
                direction: output,
                kind: ValueKind::Bool,
                point: point,
            }) && roles[4] == ("backup_unhealthy"@, PortRole::Status)
            &&& roles[0] == ("primary"@, PortRole::ProcessValue)
            &&& roles[1] == ("backup"@, PortRole::ProcessValue)
            &&& roles[2] == ("out"@, PortRole::Output)
            &&& roles[3] == ("backup_active"@, PortRole::Status)
        }),
{
}

} // verus!
