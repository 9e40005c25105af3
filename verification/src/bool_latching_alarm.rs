//! An alarm on a truth value, with an acknowledgment latch.

use crate::describe::{
    self, parameter_views, requirement_views, role_views, spec_component, spec_input, spec_output,
    ComponentDescriptor, ComponentView, IoRequirement, ParameterDescriptor, ParameterView,
    PortRole, RequirementView, RoleHint,
};
use crate::params::{ParameterError, Parameters};
use crate::table::{
    bool_field, known_fields, known_names_pass, StateError, StateErrorView, StateMap, Table,
};
use crate::text;
use crate::value::{PointId, Quality, Reading, Tick, Value, ValueKind, Write};
use vstd::prelude::*;

verus! {

/// A latching alarm: `alarm` follows `in`, and `unacknowledged` latches when
/// `in` comes up and clears in every scan in which `ack` reads `true`, also
/// while the alarm stands. A trip that comes while `ack` reads `true` does
/// not latch. Before the first scan `in` counts as `false`.
///
/// The values count whatever their quality; both outputs carry the worst of
/// the two inputs' qualities.
///
/// The block has no parameters.
#[derive(Debug)]
pub struct BoolLatchingAlarm {
    name: String,
    input: PointId,
    ack: PointId,
    alarm: PointId,
    unacknowledged: PointId,
    state: bool,
    latched: bool,
}

/// What a [`BoolLatchingAlarm`] is.
#[verifier::ext_equal]
pub struct LatchingAlarmView {
    pub name: Seq<char>,
    pub input: PointId,
    pub ack: PointId,
    pub alarm: PointId,
    pub unacknowledged: PointId,
    /// The level of `in` in the last scan.
    pub state: bool,
    /// The acknowledgment latch.
    pub latched: bool,
}

impl View for BoolLatchingAlarm {
    type V = LatchingAlarmView;

    closed spec fn view(&self) -> LatchingAlarmView {
        LatchingAlarmView {
            name: self.name@,
            input: self.input,
            ack: self.ack,
            alarm: self.alarm,
            unacknowledged: self.unacknowledged,
            state: self.state,
            latched: self.latched,
        }
    }
}

/// A fresh latching alarm.
pub open spec fn spec_new(
    name: Seq<char>,
    input: PointId,
    ack: PointId,
    alarm: PointId,
    unacknowledged: PointId,
) -> LatchingAlarmView {
    LatchingAlarmView {
        name,
        input,
        ack,
        alarm,
        unacknowledged,
        state: false,
        latched: false,
    }
}

/// The names that a checkpoint may hold.
pub open spec fn known_names() -> Seq<Seq<char>> {
    seq!["state"@, "unacknowledged"@]
}

impl LatchingAlarmView {
    /// The block after a scan.
    pub open spec fn after(self, value: bool, ack: bool) -> LatchingAlarmView {
        LatchingAlarmView {
            state: value,
            latched: (self.latched || (value && !self.state)) && !ack,
            ..self
        }
    }

    /// What the block drives in a scan, in order.
    pub open spec fn writes(
        self,
        input: Reading<bool>,
        ack: Reading<bool>,
        tick: Tick,
    ) -> Seq<Write> {
        let after = self.after(input.value, ack.value);
        let quality = input.quality.spec_merge(ack.quality);
        seq![
            Write::of(self.alarm, Value::Bool(after.state), quality, tick),
            Write::of(self.unacknowledged, Value::Bool(after.latched), quality, tick),
        ]
    }

    /// The declared ports.
    pub open spec fn requirements(self) -> Seq<RequirementView> {
        seq![
            spec_input("in"@, ValueKind::Bool, self.input),
            spec_input("ack"@, ValueKind::Bool, self.ack),
            spec_output("alarm"@, ValueKind::Bool, self.alarm),
            spec_output("unacknowledged"@, ValueKind::Bool, self.unacknowledged),
        ]
    }

    /// The roles of the ports.
    pub open spec fn roles(self) -> Seq<(Seq<char>, PortRole)> {
        seq![
            ("in"@, PortRole::ProcessValue),
            ("ack"@, PortRole::Status),
            ("alarm"@, PortRole::Status),
            ("unacknowledged"@, PortRole::Status),
        ]
    }

    /// The declared parameters: none.
    pub open spec fn parameters(self) -> Seq<ParameterView> {
        Seq::empty()
    }

    /// The block's description.
    pub open spec fn description(self) -> ComponentView {
        spec_component(
            self.name,
            BoolLatchingAlarm::KIND@,
            self.requirements(),
            self.roles(),
            self.parameters(),
        )
    }

    /// The level and the latch as fields.
    pub open spec fn captured(self) -> Map<Seq<char>, Value> {
        Map::empty().insert("state"@, Value::Bool(self.state)).insert(
            "unacknowledged"@,
            Value::Bool(self.latched),
        )
    }

    /// The block with a checkpoint taken over, or the checkpoint's refusal.
    pub open spec fn restored(
        self,
        keys: Seq<Seq<char>>,
        fields: Map<Seq<char>, Value>,
    ) -> Result<LatchingAlarmView, StateErrorView> {
        match known_fields(keys, self.name, known_names()) {
            Err(error) => Err(error),
            Ok(_) => match bool_field(fields, self.name, "state"@) {
                Err(error) => Err(error),
                Ok(state) => match bool_field(fields, self.name, "unacknowledged"@) {
                    Err(error) => Err(error),
                    Ok(latched) => Ok(LatchingAlarmView { state, latched, ..self }),
                },
            },
        }
    }
}

impl BoolLatchingAlarm {
    /// The kind a plant model selects this block by.
    pub const KIND: &'static str = "bool-latching-alarm";

    /// Builds a latching alarm.
    pub fn new(
        name: &str,
        input: PointId,
        ack: PointId,
        alarm: PointId,
        unacknowledged: PointId,
    ) -> (r: BoolLatchingAlarm)
        ensures
            r@ == spec_new(name@, input, ack, alarm, unacknowledged),
    {
        BoolLatchingAlarm {
            name: name.to_owned(),
            input,
            ack,
            alarm,
            unacknowledged,
            state: false,
            latched: false,
        }
    }

    /// Builds a latching alarm for a plant model. There are no parameters to
    /// read, so it always succeeds.
    pub fn from_parameters(
        name: &str,
        input: PointId,
        ack: PointId,
        alarm: PointId,
        unacknowledged: PointId,
        _parameters: &Parameters,
    ) -> (r: Result<BoolLatchingAlarm, ParameterError>)
        ensures
            r matches Ok(block) && block@ == spec_new(name@, input, ack, alarm, unacknowledged),
    {
        Ok(BoolLatchingAlarm::new(name, input, ack, alarm, unacknowledged))
    }

    /// The block's name.
    pub fn name(&self) -> (r: &str)
        ensures
            r@ == self@.name,
    {
        self.name.as_str()
    }

    /// The declared ports.
    pub fn io_requirements(&self) -> (r: Vec<IoRequirement>)
        ensures
            requirement_views(r@) == self@.requirements(),
    {
        let mut r: Vec<IoRequirement> = Vec::new();
        r.push(describe::input("in", ValueKind::Bool, self.input));
        r.push(describe::input("ack", ValueKind::Bool, self.ack));
        r.push(describe::output("alarm", ValueKind::Bool, self.alarm));
        r.push(describe::output("unacknowledged", ValueKind::Bool, self.unacknowledged));
        assert(requirement_views(r@) == self@.requirements());
        r
    }

    /// Runs one scan on what `in` and `ack` read.
    pub fn step(&mut self, input: Reading<bool>, ack: Reading<bool>, tick: Tick) -> (r: Vec<Write>)
        ensures
            final(self)@ == old(self)@.after(input.value, ack.value),
            r@ == old(self)@.writes(input, ack, tick),
    {
        let fresh = input.value && !self.state;
        self.state = input.value;
        self.latched = (self.latched || fresh) && !ack.value;
        let quality = input.quality.merge(ack.quality);
        let mut r: Vec<Write> = Vec::new();
        r.push(Write::new(self.alarm, Value::Bool(self.state), quality, tick));
        r.push(Write::new(self.unacknowledged, Value::Bool(self.latched), quality, tick));
        r
    }

    /// Describes the block.
    pub fn describe(&self) -> (r: ComponentDescriptor)
        ensures
            r@ == self@.description(),
    {
        let mut roles: Vec<RoleHint> = Vec::new();
        roles.push(describe::hint("in", PortRole::ProcessValue));
        roles.push(describe::hint("ack", PortRole::Status));
        roles.push(describe::hint("alarm", PortRole::Status));
        roles.push(describe::hint("unacknowledged", PortRole::Status));
        assert(role_views(roles@) == self@.roles());
        let parameters: Vec<ParameterDescriptor> = Vec::new();
        assert(parameter_views(parameters@) == self@.parameters());
        proof {
            describe::parallel_hints(self@.requirements(), self@.roles());
        }
        describe::component(
            self.name.as_str(),
            BoolLatchingAlarm::KIND,
            &self.io_requirements(),
            &roles,
            parameters,
        )
    }

    /// Captures the level and the latch, so that a standby neither loses an
    /// unacknowledged alarm nor latches an acknowledged one again.
    pub fn capture_state(&self) -> (r: StateMap)
        ensures
            r@ == self@.captured(),
    {
        let mut r = StateMap::new();
        r.insert("state", Value::Bool(self.state));
        r.insert("unacknowledged", Value::Bool(self.latched));
        r
    }

    /// Takes over a checkpoint. A refused one leaves the block as it was.
    pub fn restore_state(&mut self, state: &StateMap) -> (r: Result<(), StateError>)
        ensures
            match r {
                Ok(_) => old(self)@.restored(state.keys(), state@) == Ok::<
                    LatchingAlarmView,
                    StateErrorView,
                >(final(self)@),
                Err(error) => old(self)@.restored(state.keys(), state@) == Err::<
                    LatchingAlarmView,
                    StateErrorView,
                >(error@) && final(self)@ == old(self)@,
            },
    {
        let mut known: Vec<String> = Vec::new();
        known.push("state".to_owned());
        known.push("unacknowledged".to_owned());
        assert(text::views(known@) == known_names());
        state.ensure_known_fields(self.name.as_str(), &known)?;
        let level = state.require_bool(self.name.as_str(), "state")?;
        let latched = state.require_bool(self.name.as_str(), "unacknowledged")?;
        self.state = level;
        self.latched = latched;
        Ok(())
    }
}

/// The alarm follows `in`, and no acknowledgment clears it.
pub proof fn alarm_follows_the_input(block: LatchingAlarmView, value: bool, ack: bool)
    ensures
        block.after(value, ack).state == value,
{
}

/// An acknowledgment dominates: while it stands nothing is latched, a trip
/// of the same scan included.
pub proof fn acknowledgment_dominates(block: LatchingAlarmView, value: bool)
    ensures
        !block.after(value, true).latched,
{
}

/// Without an acknowledgment a fresh assertion latches, and a latch stays
/// even after the alarm has cleared.
pub proof fn latch_stands_until_acknowledged(block: LatchingAlarmView, value: bool)
    ensures
        !block.state ==> block.after(true, false).latched,
        block.latched ==> block.after(value, false).latched,
        !block.latched && !(value && !block.state) ==> !block.after(value, false).latched,
{
}

/// An acknowledged alarm that stands does not latch again until it has
/// cleared and come back.
pub proof fn standing_alarm_does_not_relatch(block: LatchingAlarmView)
    ensures
        !block.after(true, true).after(true, false).latched,
        block.after(true, true).after(false, false).after(true, false).latched,
{
}

/// The block after scans, each with its `in` and its `ack`.
pub open spec fn after_scans(
    block: LatchingAlarmView,
    scans: Seq<(bool, bool)>,
) -> LatchingAlarmView
    decreases scans.len(),
{
    if scans.len() == 0 {
        block
    } else {
        after_scans(block, scans.drop_last()).after(scans.last().0, scans.last().1)
    }
}

/// Whether `in` rises in scan `k`, after a level of `start`.
pub open spec fn rises(scans: Seq<(bool, bool)>, start: bool, k: int) -> bool {
    scans[k].0 && !if k == 0 {
        start
    } else {
        scans[k - 1].0
    }
}

/// Whether no scan from `k` on acknowledges.
pub open spec fn unacknowledged_since(scans: Seq<(bool, bool)>, k: int) -> bool {
    forall|j: int| k <= j < scans.len() ==> !(#[trigger] scans[j]).1
}

/// Over any scans: the alarm is what `in` last read, and the latch stands
/// exactly where `in` has risen, or the latch stood before, and no scan since
/// has acknowledged.
pub proof fn latch_follows_the_history(block: LatchingAlarmView, scans: Seq<(bool, bool)>)
    ensures
        ({
            let after = after_scans(block, scans);
            &&& scans.len() > 0 ==> after.state == scans.last().0
            &&& after.latched <==> {
                ||| block.latched && unacknowledged_since(scans, 0)
                ||| exists|k: int|
                    0 <= k < scans.len() && #[trigger] rises(scans, block.state, k)
                        && unacknowledged_since(scans, k)
            }
        }),
    decreases scans.len(),
{
    if scans.len() > 0 {
        let earlier = scans.drop_last();
        let last = scans.len() - 1;
        latch_follows_the_history(block, earlier);
        assert forall|k: int| 0 <= k <= last implies (unacknowledged_since(scans, k) <==> (
        #[trigger] unacknowledged_since(earlier, k)) && !scans[last].1) by {
            if unacknowledged_since(scans, k) {
                assert forall|j: int| k <= j < earlier.len() implies !(#[trigger] earlier[j]).1 by {
                    assert(!scans[j].1);
                }
                assert(!scans[last].1);
            }
            if unacknowledged_since(earlier, k) && !scans[last].1 {
                assert forall|j: int| k <= j < scans.len() implies !(#[trigger] scans[j]).1 by {
                    if j < last {
                        assert(!earlier[j].1);
                    }
                }
            }
        }
        assert(unacknowledged_since(earlier, last));
        let from_start = unacknowledged_since(earlier, 0);
        assert forall|k: int| 0 <= k < last implies #[trigger] rises(scans, block.state, k)
            == rises(earlier, block.state, k) by {}
        let after = after_scans(block, scans);
        let stood = block.latched && unacknowledged_since(scans, 0);
        if after.latched && !stood {
            if after_scans(block, earlier).latched {
                let k = choose|k: int|
                    0 <= k < earlier.len() && #[trigger] rises(earlier, block.state, k)
                        && unacknowledged_since(earlier, k);
                assert(rises(scans, block.state, k) && unacknowledged_since(scans, k));
            } else {
                assert(rises(scans, block.state, last) && unacknowledged_since(scans, last));
            }
        }
        if exists|k: int|
            0 <= k < scans.len() && #[trigger] rises(scans, block.state, k)
                && unacknowledged_since(scans, k) {
            let k = choose|k: int|
                0 <= k < scans.len() && #[trigger] rises(scans, block.state, k)
                    && unacknowledged_since(scans, k);
            if k < last {
                assert(rises(earlier, block.state, k) && unacknowledged_since(earlier, k));
            } else {
                assert(!scans[last].1);
            }
        }
    }
}

/// The values count whatever their quality.
pub proof fn alarms_ignore_quality(
    block: LatchingAlarmView,
    value: bool,
    ack: bool,
    one: Quality,
    other: Quality,
    tick: Tick,
)
    ensures
        ({
            let writes = block.writes(
                Reading { value, quality: one },
                Reading { value: ack, quality: other },
                tick,
            );
            let after = block.after(value, ack);
            &&& writes[0].sample.value == Value::Bool(after.state)
            &&& writes[1].sample.value == Value::Bool(after.latched)
            &&& writes[0].sample.quality == one.spec_merge(other)
            &&& writes[1].sample.quality == one.spec_merge(other)
        }),
{
}

/// A block that takes over a checkpoint has the captured level and latch.
pub proof fn alarm_checkpoint_round_trip(
    block: LatchingAlarmView,
    standby: LatchingAlarmView,
    checkpoint: Table,
)
    requires
        checkpoint@ == block.captured(),
    ensures
        standby.restored(checkpoint.keys(), checkpoint@) == Ok::<LatchingAlarmView, StateErrorView>(
            LatchingAlarmView { state: block.state, latched: block.latched, ..standby },
        ),
{
    reveal_strlit("state");
    reveal_strlit("unacknowledged");
    assert("state"@.len() != "unacknowledged"@.len());
    let names = known_names();
    assert(names[0] == "state"@ && names[1] == "unacknowledged"@);
    known_names_pass(checkpoint, standby.name, names);
}

/// Every scan drives `alarm` and `unacknowledged`, in this order, as of this
/// scan: what `in` reads, and the latch, which an assertion that is new sets and
/// an acknowledgment, in the same scan too, clears. Both carry the worse quality
/// of the two inputs, and no quality changes what they carry.
pub proof fn scans_drive_both_outputs(
    block: LatchingAlarmView,
    input: Reading<bool>,
    ack: Reading<bool>,
    tick: Tick,
)
    ensures
        ({
            let writes = block.writes(input, ack, tick);
            let after = block.after(input.value, ack.value);
            let latch = !ack.value && (block.latched || (input.value && !block.state));
            let quality = writes[0].sample.quality;
            &&& writes.len() == 2
            &&& writes[0].point == block.alarm && writes[1].point == block.unacknowledged
            &&& writes[0].sample.tick == tick && writes[1].sample.tick == tick
            &&& writes[0].sample.value == Value::Bool(input.value)
            &&& writes[1].sample.value == Value::Bool(latch)
            &&& after == (LatchingAlarmView { state: input.value, latched: latch, ..block })
            &&& writes[1].sample.quality == quality
            &&& input.quality is Good ==> quality == ack.quality
            &&& ack.quality is Good ==> quality == input.quality
            &&& ack.quality is Bad ==> quality == ack.quality
            &&& input.quality is Bad && !(ack.quality is Bad) ==> quality == input.quality
            &&& input.quality is Uncertain && ack.quality is Uncertain ==> quality == ack.quality
        }),
{
}

/// A fresh block is neither asserted nor latched, and a checkpoint holds the
/// level and the latch and nothing else: it is taken over exactly where it holds
/// the two, and no other name, and the block then has them.
pub proof fn checkpoints_hold_the_latch(
    block: LatchingAlarmView,
    keys: Seq<Seq<char>>,
    fields: Map<Seq<char>, Value>,
)
    ensures
        ({
            let fresh = spec_new(
                block.name,
                block.input,
                block.ack,
                block.alarm,
                block.unacknowledged,
            );
            let captured = block.captured();
            let restored = block.restored(keys, fields);
            let state = bool_field(fields, block.name, "state"@);
            let latched = bool_field(fields, block.name, "unacknowledged"@);
            let known = seq!["state"@, "unacknowledged"@];
            &&& fresh == (LatchingAlarmView { state: false, latched: false, ..block })
            &&& captured.dom() == set!["state"@, "unacknowledged"@]
            &&& captured["state"@] == Value::Bool(block.state)
            &&& captured["unacknowledged"@] == Value::Bool(block.latched)
            &&& restored is Ok <==> known_fields(keys, block.name, known) is Ok && state is Ok
                && latched is Ok
            &&& restored is Ok ==> restored->Ok_0 == (LatchingAlarmView {
                state: state->Ok_0,
                latched: latched->Ok_0,
                ..block
            })
        }),
{
    reveal_strlit("state");
    reveal_strlit("unacknowledged");
    assert("state"@.len() == 5);
    assert("unacknowledged"@.len() == 14);
    assert(block.captured().dom() =~= set!["state"@, "unacknowledged"@]);
}

/// The block is described under its own name and the kind it is selected by,
/// with its ports in this order, each wired to its point, and with these
/// parameters and bounds.
pub proof fn wiring_is_described(block: LatchingAlarmView)
    ensures
        ({
            let described = block.description();
            let wired = block.requirements();
            &&& described.name == block.name && described.label == block.name
            &&& described.kind == "bool-latching-alarm"@
            &&& wired.len() == 4 && described.ports.len() == 4
            &&& described.parameters.len() == 0
            &&& described.ports[0] == (describe::PortView {
                name: "in"@,
                direction: describe::Direction::In,
                kind: ValueKind::Bool,
                role: Some(PortRole::ProcessValue),
                point: None,
            })
            &&& wired[0].name == "in"@ && wired[0].point == block.input
            &&& described.ports[1] == (describe::PortView {
                name: "ack"@,
                direction: describe::Direction::In,
                kind: ValueKind::Bool,
                role: Some(PortRole::Status),
                point: None,
            })
            &&& wired[1].name == "ack"@ && wired[1].point == block.ack
            &&& described.ports[2] == (describe::PortView {
                name: "alarm"@,
                direction: describe::Direction::Out,
                kind: ValueKind::Bool,
                role: Some(PortRole::Status),
                point: None,
            })
            &&& wired[2].name == "alarm"@ && wired[2].point == block.alarm
            &&& described.ports[3] == (describe::PortView {
                name: "unacknowledged"@,
                direction: describe::Direction::Out,
                kind: ValueKind::Bool,
                role: Some(PortRole::Status),
                point: None,
            })
            &&& wired[3].name == "unacknowledged"@ && wired[3].point == block.unacknowledged
        }),
{
    reveal_strlit("in");
    reveal_strlit("ack");
    reveal_strlit("alarm");
    reveal_strlit("unacknowledged");
    assert("in"@.len() == 2);
    assert("ack"@.len() == 3);
    assert("alarm"@.len() == 5);
    assert("unacknowledged"@.len() == 14);
    let wired = block.requirements();
    let roles = block.roles();
    let parameters = block.description().parameters;
    describe::ports_are_described_as_declared(
        block.name,
        "bool-latching-alarm"@,
        wired,
        roles,
        parameters,
        0,
        0,
    );
    describe::ports_are_described_as_declared(
        block.name,
        "bool-latching-alarm"@,
        wired,
        roles,
        parameters,
        1,
        1,
    );
    describe::ports_are_described_as_declared(
        block.name,
        "bool-latching-alarm"@,
        wired,
        roles,
        parameters,
        2,
        2,
    );
    describe::ports_are_described_as_declared(
        block.name,
        "bool-latching-alarm"@,
        wired,
        roles,
        parameters,
        3,
        3,
    );
}

} // verus!
