//! An edge trigger: a pulse of one scan on a level change.

use crate::describe::{
    self, agree_on, describes_parameter, parameter_views, requirement_views, role_views,
    spec_component, spec_input, spec_int_range, spec_output, spec_parameter, ComponentDescriptor,
    ComponentView, IoRequirement, ParameterDescriptor, ParameterView, PortRole, RequirementView,
    RoleHint,
};
use crate::params::{
    self, spec_invalid, spec_invalid_parameter, spec_required_u64, spec_tune_u64,
    spec_unknown_parameter, CommandError, CommandErrorView, ParameterError, ParameterErrorView,
    Parameters,
};
use crate::table::{
    self, bool_field, field, int_field, known_fields, known_names_pass, spec_invalid_value,
    StateError, StateErrorView, StateMap, Table,
};
use crate::text::{self, decimal};
use crate::value::{PointId, Quality, Reading, Tick, Value, ValueKind, Write};
use vstd::prelude::*;

verus! {

/// Which edge of `in` an [`EdgeTrigger`] fires on, and its code.
#[derive(Debug, Clone, Copy, PartialEq, Eq, Structural)]
pub enum Edge {
    /// `0`: each change to `true`.
    Rising,
    /// `1`: each change to `false`.
    Falling,
    /// `2`: every change.
    Both,
}

impl Edge {
    /// The code of the edge.
    pub open spec fn spec_code(self) -> i64 {
        match self {
            Edge::Rising => 0,
            Edge::Falling => 1,
            Edge::Both => 2,
        }
    }

    /// The edge that `code` selects.
    pub open spec fn spec_decode(code: int) -> Option<Edge> {
        if code == 0 {
            Some(Edge::Rising)
        } else if code == 1 {
            Some(Edge::Falling)
        } else if code == 2 {
            Some(Edge::Both)
        } else {
            None
        }
    }

    /// The code of the edge.
    pub fn code(self) -> (r: i64)
        ensures
            r == self.spec_code(),
    {
        match self {
            Edge::Rising => 0,
            Edge::Falling => 1,
            Edge::Both => 2,
        }
    }

    /// The edge that `code` selects.
    pub fn decode(code: i64) -> (r: Option<Edge>)
        ensures
            r == Edge::spec_decode(code as int),
    {
        match code {
            0 => Some(Edge::Rising),
            1 => Some(Edge::Falling),
            2 => Some(Edge::Both),
            _ => None,
        }
    }

    /// Whether going from one level to another is such an edge.
    pub open spec fn spec_matches(self, previous: bool, current: bool) -> bool {
        match self {
            Edge::Rising => !previous && current,
            Edge::Falling => previous && !current,
            Edge::Both => previous != current,
        }
    }

    /// Whether going from one level to another is such an edge.
    pub fn matches(self, previous: bool, current: bool) -> (r: bool)
        ensures
            r == self.spec_matches(previous, current),
    {
        match self {
            Edge::Rising => !previous && current,
            Edge::Falling => previous && !current,
            Edge::Both => previous != current,
        }
    }
}

/// An edge trigger: it asserts `out` for the one scan in which `in` changes
/// by the selected edge. Before the first scan the level counts as `false`,
/// so a `true` first reading is a rising edge.
///
/// The edge goes by the values alone, and `out` carries the quality of `in`:
/// a pulse from an untrusted reading is marked, not suppressed.
///
/// Its one parameter, `edge`, is an [`Edge`] code.
#[derive(Debug)]
pub struct EdgeTrigger {
    name: String,
    input: PointId,
    output: PointId,
    edge: Edge,
    previous: bool,
}

/// What an [`EdgeTrigger`] is.
#[verifier::ext_equal]
pub struct EdgeTriggerView {
    pub name: Seq<char>,
    pub input: PointId,
    pub output: PointId,
    pub edge: Edge,
    /// The level in the last scan.
    pub previous: bool,
}

impl View for EdgeTrigger {
    type V = EdgeTriggerView;

    closed spec fn view(&self) -> EdgeTriggerView {
        EdgeTriggerView {
            name: self.name@,
            input: self.input,
            output: self.output,
            edge: self.edge,
            previous: self.previous,
        }
    }
}

/// The block that the parameters declare.
pub open spec fn spec_from_parameters(
    name: Seq<char>,
    input: PointId,
    output: PointId,
    parameters: Map<Seq<char>, Value>,
) -> Result<EdgeTriggerView, ParameterErrorView> {
    match spec_required_u64(name, parameters, "edge"@) {
        Err(error) => Err(error),
        Ok(code) => match Edge::spec_decode(code as int) {
            None => Err(
                spec_invalid(
                    name,
                    "edge"@,
                    "expected 0 (rising), 1 (falling), or 2 (both), found "@ + decimal(
                        code as nat,
                    ),
                ),
            ),
            Some(edge) => Ok(EdgeTriggerView { name, input, output, edge, previous: false }),
        },
    }
}

/// The names that a checkpoint may hold.
pub open spec fn known_names() -> Seq<Seq<char>> {
    seq!["edge"@, "previous"@]
}

impl EdgeTriggerView {
    /// Whether the block fires in a scan.
    pub open spec fn fires(self, value: bool) -> bool {
        self.edge.spec_matches(self.previous, value)
    }

    /// The block after a scan.
    pub open spec fn after(self, value: bool) -> EdgeTriggerView {
        EdgeTriggerView { previous: value, ..self }
    }

    /// What the block drives in a scan.
    pub open spec fn driven(self, reading: Reading<bool>, tick: Tick) -> Write {
        Write::of(self.output, Value::Bool(self.fires(reading.value)), reading.quality, tick)
    }

    /// The declared ports.
    pub open spec fn requirements(self) -> Seq<RequirementView> {
        seq![
            spec_input("in"@, ValueKind::Bool, self.input),
            spec_output("out"@, ValueKind::Bool, self.output),
        ]
    }

    /// The roles of the ports.
    pub open spec fn roles(self) -> Seq<(Seq<char>, PortRole)> {
        seq![
            ("in"@, PortRole::ProcessValue),
            ("out"@, PortRole::Output),
        ]
    }

    /// The declared parameters.
    pub open spec fn parameters(self) -> Seq<ParameterView> {
        seq![
            spec_parameter("edge"@, ValueKind::Int, spec_int_range(0, 2)),
        ]
    }

    /// The block's description.
    pub open spec fn description(self) -> ComponentView {
        spec_component(
            self.name,
            EdgeTrigger::KIND@,
            self.requirements(),
            self.roles(),
            self.parameters(),
        )
    }

    /// The block after a retune, or its refusal. The level is kept.
    pub open spec fn tuned(self, parameter: Seq<char>, value: Value) -> Result<
        EdgeTriggerView,
        CommandErrorView,
    > {
        if parameter == "edge"@ {
            match spec_tune_u64(self.name, parameter, value) {
                Err(error) => Err(error),
                Ok(code) => match Edge::spec_decode(code as int) {
                    None => Err(
                        spec_invalid_parameter(
                            self.name,
                            parameter,
                            "expected 0 (rising), 1 (falling), or 2 (both)"@,
                        ),
                    ),
                    Some(edge) => Ok(EdgeTriggerView { edge, ..self }),
                },
            }
        } else {
            Err(spec_unknown_parameter(self.name, parameter))
        }
    }

    /// The tuning as fields.
    pub open spec fn reported(self) -> Map<Seq<char>, Value> {
        Map::empty().insert("edge"@, Value::Int(self.edge.spec_code()))
    }

    /// The tuning and the level as fields.
    pub open spec fn captured(self) -> Map<Seq<char>, Value> {
        self.reported().insert("previous"@, Value::Bool(self.previous))
    }

    /// The edge that a checkpoint carries.
    pub open spec fn restored_edge(
        self,
        keys: Seq<Seq<char>>,
        fields: Map<Seq<char>, Value>,
    ) -> Result<Edge, StateErrorView> {
        match known_fields(keys, self.name, known_names()) {
            Err(error) => Err(error),
            Ok(_) => match int_field(fields, self.name, "edge"@) {
                Err(error) => Err(error),
                Ok(code) => match Edge::spec_decode(code as int) {
                    None => Err(spec_invalid_value(self.name, "edge"@, Value::Int(code))),
                    Some(edge) => Ok(edge),
                },
            },
        }
    }

    /// The block with a checkpoint taken over, or the checkpoint's refusal.
    pub open spec fn restored(
        self,
        keys: Seq<Seq<char>>,
        fields: Map<Seq<char>, Value>,
    ) -> Result<EdgeTriggerView, StateErrorView> {
        match self.restored_edge(keys, fields) {
            Err(error) => Err(error),
            Ok(edge) => match bool_field(fields, self.name, "previous"@) {
                Err(error) => Err(error),
                Ok(previous) => Ok(EdgeTriggerView { edge, previous, ..self }),
            },
        }
    }

    /// What a refused checkpoint leaves of the block: a readable edge has
    /// been taken over by the time the level turns out unreadable.
    pub open spec fn left_by_refused(
        self,
        keys: Seq<Seq<char>>,
        fields: Map<Seq<char>, Value>,
    ) -> EdgeTriggerView {
        match self.restored_edge(keys, fields) {
            Err(_) => self,
            Ok(edge) => EdgeTriggerView { edge, ..self },
        }
    }
}

impl EdgeTrigger {
    /// The kind a plant model selects this block by.
    pub const KIND: &'static str = "edge-trigger";

    /// Builds an edge trigger.
    pub fn new(name: &str, input: PointId, output: PointId, edge: Edge) -> (r: EdgeTrigger)
        ensures
            r@ == (EdgeTriggerView { name: name@, input, output, edge, previous: false }),
    {
        EdgeTrigger { name: name.to_owned(), input, output, edge, previous: false }
    }

    /// Builds an edge trigger from the parameters of a plant model.
    pub fn from_parameters(
        name: &str,
        input: PointId,
        output: PointId,
        parameters: &Parameters,
    ) -> (r: Result<EdgeTrigger, ParameterError>)
        ensures
            match r {
                Ok(block) => spec_from_parameters(name@, input, output, parameters@) == Ok::<
                    EdgeTriggerView,
                    ParameterErrorView,
                >(block@),
                Err(error) => spec_from_parameters(name@, input, output, parameters@) == Err::<
                    EdgeTriggerView,
                    ParameterErrorView,
                >(error@),
            },
    {
        let code: u64 = params::required_u64(name, parameters, "edge")?;
        match Edge::decode(params::code_of(code)) {
            Some(edge) => Ok(EdgeTrigger::new(name, input, output, edge)),
            None => Err(
                params::invalid(
                    name,
                    "edge",
                    text::numbered(
                        "expected 0 (rising), 1 (falling), or 2 (both), found ",
                        code,
                    ).as_str(),
                ),
            ),
        }
    }

    /// The block's name.
    pub fn name(&self) -> (r: &str)
        ensures
            r@ == self@.name,
    {
        self.name.as_str()
    }

    /// The declared ports.
    pub fn io_requirements(&self) -> (r: Vec<IoRequirement>)
        ensures
            requirement_views(r@) == self@.requirements(),
    {
        let mut r: Vec<IoRequirement> = Vec::new();
        r.push(describe::input("in", ValueKind::Bool, self.input));
        r.push(describe::output("out", ValueKind::Bool, self.output));
        assert(requirement_views(r@) == self@.requirements());
        r
    }

    /// Runs one scan on what `in` reads.
    pub fn step(&mut self, reading: Reading<bool>, tick: Tick) -> (r: Write)
        ensures
            final(self)@ == old(self)@.after(reading.value),
            r == old(self)@.driven(reading, tick),
    {
        let fired = self.edge.matches(self.previous, reading.value);
        self.previous = reading.value;
        Write::new(self.output, Value::Bool(fired), reading.quality, tick)
    }

    /// Describes the block.
    pub fn describe(&self) -> (r: ComponentDescriptor)
        ensures
            r@ == self@.description(),
    {
        let mut roles: Vec<RoleHint> = Vec::new();
        roles.push(describe::hint("in", PortRole::ProcessValue));
        roles.push(describe::hint("out", PortRole::Output));
        assert(role_views(roles@) == self@.roles());
        let mut parameters: Vec<ParameterDescriptor> = Vec::new();
        parameters.push(
            describe::parameter("edge", ValueKind::Int, Some(describe::int_range(0, 2))),
        );
        assert(parameter_views(parameters@) == self@.parameters());
        proof {
            describe::parallel_hints(self@.requirements(), self@.roles());
        }
        describe::component(
            self.name.as_str(),
            EdgeTrigger::KIND,
            &self.io_requirements(),
            &roles,
            parameters,
        )
    }

    /// Retunes `edge` at the scan boundary. The level is kept; a refused
    /// value changes nothing.
    pub fn apply_parameter(&mut self, parameter: &str, value: Value) -> (r: Result<
        (),
        CommandError,
    >)
        ensures
            match r {
                Ok(_) => old(self)@.tuned(parameter@, value) == Ok::<
                    EdgeTriggerView,
                    CommandErrorView,
                >(final(self)@),
                Err(error) => old(self)@.tuned(parameter@, value) == Err::<
                    EdgeTriggerView,
                    CommandErrorView,
                >(error@) && final(self)@ == old(self)@,
            },
    {
        if text::same(parameter, "edge") {
            let code: u64 = params::tune_u64(self.name.as_str(), parameter, value)?;
            match Edge::decode(params::code_of(code)) {
                Some(edge) => {
                    self.edge = edge;
                    Ok(())
                },
                None => Err(
                    params::invalid_parameter(
                        self.name.as_str(),
                        parameter,
                        "expected 0 (rising), 1 (falling), or 2 (both)",
                    ),
                ),
            }
        } else {
            Err(params::unknown_parameter(self.name.as_str(), parameter))
        }
    }

    /// Reports the tuning under the names that a checkpoint uses.
    pub fn report_parameters(&self) -> (r: StateMap)
        ensures
            r@ == self@.reported(),
    {
        let mut r = StateMap::new();
        r.insert("edge", Value::Int(self.edge.code()));
        r
    }

    /// Captures the tuning and the level, so that a standby does not fire on
    /// a level that was already there.
    pub fn capture_state(&self) -> (r: StateMap)
        ensures
            r@ == self@.captured(),
    {
        let mut r = self.report_parameters();
        r.insert("previous", Value::Bool(self.previous));
        r
    }

    /// Takes over a checkpoint, field by field.
    pub fn restore_state(&mut self, state: &StateMap) -> (r: Result<(), StateError>)
        ensures
            match r {
                Ok(_) => old(self)@.restored(state.keys(), state@) == Ok::<
                    EdgeTriggerView,
                    StateErrorView,
                >(final(self)@),
                Err(error) => old(self)@.restored(state.keys(), state@) == Err::<
                    EdgeTriggerView,
                    StateErrorView,
                >(error@) && final(self)@ == old(self)@.left_by_refused(state.keys(), state@),
            },
    {
        let mut known: Vec<String> = Vec::new();
        known.push("edge".to_owned());
        known.push("previous".to_owned());
        assert(text::views(known@) == known_names());
        state.ensure_known_fields(self.name.as_str(), &known)?;
        let code: i64 = state.require_i64(self.name.as_str(), "edge")?;
        match Edge::decode(code) {
            Some(edge) => {
                self.edge = edge;
            },
            None => {
                return Err(table::invalid_value(self.name.as_str(), "edge", Value::Int(code)));
            },
        }
        self.previous = state.require_bool(self.name.as_str(), "previous")?;
        Ok(())
    }
}

/// Every edge code names the edge it was taken from, and no other code
/// names one.
pub proof fn edge_codes_read_back(edge: Edge, code: i64)
    ensures
        Edge::spec_decode(edge.spec_code() as int) == Some(edge),
        Edge::spec_decode(code as int) matches Some(named) ==> named.spec_code() == code,
{
}

/// A pulse lasts one scan: a level that is held does not fire again, and
/// after a pulse the next one needs a change.
pub proof fn pulses_last_one_scan(block: EdgeTriggerView, value: bool)
    ensures
        !block.after(value).fires(value),
        block.fires(value) ==> value != block.previous,
{
}

/// Selecting both edges fires exactly where selecting the one or the other
/// would.
pub proof fn both_is_either(previous: bool, current: bool)
    ensures
        Edge::Both.spec_matches(previous, current) == (Edge::Rising.spec_matches(previous, current)
            || Edge::Falling.spec_matches(previous, current)),
        !(Edge::Rising.spec_matches(previous, current) && Edge::Falling.spec_matches(
            previous,
            current,
        )),
{
}

/// The pulse goes by the value alone, and the output by the input's quality.
pub proof fn pulses_ignore_quality(
    block: EdgeTriggerView,
    value: bool,
    one: Quality,
    other: Quality,
    tick: Tick,
)
    ensures
        ({
            let first = block.driven(Reading { value, quality: one }, tick).sample;
            let second = block.driven(Reading { value, quality: other }, tick).sample;
            &&& first.value == second.value
            &&& first.quality == one
            &&& second.quality == other
        }),
{
}

/// A retune leaves the remembered level alone.
pub proof fn retunes_keep_the_level(block: EdgeTriggerView, parameter: Seq<char>, value: Value)
    ensures
        block.tuned(parameter, value) matches Ok::<EdgeTriggerView, CommandErrorView>(tuned)
            ==> tuned == (EdgeTriggerView { edge: tuned.edge, ..block }),
{
}

/// Building reads exactly the described parameters: whatever else is
/// declared makes no difference, and without one of them nothing is built.
pub proof fn building_reads_the_described(
    block: EdgeTriggerView,
    a: Map<Seq<char>, Value>,
    b: Map<Seq<char>, Value>,
    i: int,
)
    ensures
        ({
            let described = block.description().parameters;
            let from_a = spec_from_parameters(block.name, block.input, block.output, a);
            let from_b = spec_from_parameters(block.name, block.input, block.output, b);
            &&& agree_on(described, a, b) ==> from_a == from_b
            &&& 0 <= i < described.len() && field(a, described[i].name) is None ==> from_a is Err
        }),
{
    let described = block.description().parameters;
    assert(described[0].name == "edge"@);
}

/// Exactly the described parameters can be retuned: any other name is
/// refused as unknown.
pub proof fn tuning_takes_the_described(block: EdgeTriggerView, parameter: Seq<char>, value: Value)
    ensures
        ({
            let unknown = spec_unknown_parameter(block.name, parameter);
            let refused = Err::<EdgeTriggerView, CommandErrorView>(unknown);
            let described = block.description().parameters;
            describes_parameter(described, parameter) <==> block.tuned(parameter, value) != refused
        }),
{
    let described = block.description().parameters;
    assert(described[0].name == "edge"@);
}

/// A block that takes over a checkpoint has the captured edge and level.
pub proof fn edge_checkpoint_round_trip(
    block: EdgeTriggerView,
    standby: EdgeTriggerView,
    checkpoint: Table,
)
    requires
        checkpoint@ == block.captured(),
    ensures
        standby.restored(checkpoint.keys(), checkpoint@) == Ok::<EdgeTriggerView, StateErrorView>(
            EdgeTriggerView { edge: block.edge, previous: block.previous, ..standby },
        ),
{
    reveal_strlit("edge");
    reveal_strlit("previous");
    assert("edge"@.len() != "previous"@.len());
    let names = known_names();
    assert(names[0] == "edge"@ && names[1] == "previous"@);
    known_names_pass(checkpoint, standby.name, names);
}

/// Every scan drives `out`, as of this scan and with the quality of `in`: it is
/// asserted where the level has changed as selected, to `true`, to `false` or
/// either way, since the last scan, whose level is all that is remembered.
pub proof fn scans_drive_the_pulse(
    block: EdgeTriggerView,
    reading: Reading<bool>,
    tick: Tick,
)
    ensures
        ({
            let driven = block.driven(reading, tick);
            let rises = reading.value && !block.previous;
            let falls = !reading.value && block.previous;
            &&& driven.point == block.output && driven.sample.tick == tick
            &&& driven.sample.quality == reading.quality
            &&& block.edge is Rising ==> driven.sample.value == Value::Bool(rises)
            &&& block.edge is Falling ==> driven.sample.value == Value::Bool(falls)
            &&& block.edge is Both ==> driven.sample.value == Value::Bool(rises || falls)
            &&& block.after(reading.value) == (EdgeTriggerView {
                previous: reading.value,
                ..block
            })
        }),
{
}

/// A block is built exactly where `edge` declares 0, 1 or 2, for a rise, a fall
/// or both, with a level of `false` before the first scan. A retune of `edge` to
/// such a code sets it and nothing else.
pub proof fn building_takes_the_declared(
    given: EdgeTriggerView,
    parameters: Map<Seq<char>, Value>,
    value: Value,
)
    ensures
        ({
            let built = spec_from_parameters(given.name, given.input, given.output, parameters);
            let code = spec_required_u64(given.name, parameters, "edge"@);
            &&& built is Ok <==> code is Ok && code->Ok_0 <= 2
            &&& code is Err ==> built == Err::<EdgeTriggerView, ParameterErrorView>(code->Err_0)
            &&& code is Ok && code->Ok_0 > 2 ==> {
                &&& built matches Err(ParameterErrorView::Invalid { component, parameter, .. })
                &&& component == given.name && parameter == "edge"@
            }
            &&& built is Ok ==> {
                let edge = built->Ok_0.edge;
                &&& edge is Rising <==> code->Ok_0 == 0
                &&& edge is Falling <==> code->Ok_0 == 1
                &&& edge is Both <==> code->Ok_0 == 2
                &&& built->Ok_0 == (EdgeTriggerView { edge, previous: false, ..given })
            }
        }),
        ({
            let code = spec_tune_u64(given.name, "edge"@, value);
            let tuned = given.tuned("edge"@, value);
            &&& tuned is Ok <==> code is Ok && code->Ok_0 <= 2
            &&& tuned is Ok ==> {
                let edge = tuned->Ok_0.edge;
                &&& edge is Rising <==> code->Ok_0 == 0
                &&& edge is Falling <==> code->Ok_0 == 1
                &&& edge is Both <==> code->Ok_0 == 2
                &&& tuned->Ok_0 == (EdgeTriggerView { edge, ..given })
            }
        }),
{
}

/// A report holds the code of the edge, a checkpoint that and the level. It is
/// taken over exactly where it holds a code of an edge and a level, and no other
/// name, and the block then has them. One that is refused for its level alone
/// still leaves its edge behind, and any other one nothing.
pub proof fn checkpoints_hold_the_edge(
    block: EdgeTriggerView,
    keys: Seq<Seq<char>>,
    fields: Map<Seq<char>, Value>,
)
    ensures
        ({
            let captured = block.captured();
            let restored = block.restored(keys, fields);
            let left = block.left_by_refused(keys, fields);
            let code = int_field(fields, block.name, "edge"@);
            let previous = bool_field(fields, block.name, "previous"@);
            let read = known_fields(keys, block.name, seq!["edge"@, "previous"@]) is Ok && code
                is Ok && 0 <= code->Ok_0 <= 2;
            let edge = if code->Ok_0 == 0 {
                Edge::Rising
            } else if code->Ok_0 == 1 {
                Edge::Falling
            } else {
                Edge::Both
            };
            &&& block.reported().dom() == set!["edge"@]
            &&& block.reported()["edge"@] == captured["edge"@]
            &&& captured.dom() == set!["edge"@, "previous"@]
            &&& captured["edge"@] == Value::Int(
                match block.edge {
                    Edge::Rising => 0,
                    Edge::Falling => 1,
                    Edge::Both => 2,
                },
            )
            &&& captured["previous"@] == Value::Bool(block.previous)
            &&& restored is Ok <==> read && previous is Ok
            &&& restored is Ok ==> restored->Ok_0 == (EdgeTriggerView {
                edge,
                previous: previous->Ok_0,
                ..block
            })
            &&& read ==> left == (EdgeTriggerView { edge, ..block })
            &&& !read ==> left == block
        }),
{
    reveal_strlit("edge");
    reveal_strlit("previous");
    assert("edge"@.len() == 4);
    assert("previous"@.len() == 8);
    assert(block.reported().dom() =~= set!["edge"@]);
    assert(block.captured().dom() =~= set!["edge"@, "previous"@]);
}

/// The block is described under its own name and the kind it is selected by,
/// with its ports in this order, each wired to its point, and with these
/// parameters and bounds.
pub proof fn wiring_is_described(block: EdgeTriggerView)
    ensures
        ({
            let described = block.description();
            let wired = block.requirements();
            &&& described.name == block.name && described.label == block.name
            &&& described.kind == "edge-trigger"@
            &&& wired.len() == 2 && described.ports.len() == 2
            &&& described.parameters.len() == 1
            &&& described.ports[0] == (describe::PortView {
                name: "in"@,
                direction: describe::Direction::In,
                kind: ValueKind::Bool,
                role: Some(PortRole::ProcessValue),
                point: None,
            })
            &&& wired[0].name == "in"@ && wired[0].point == block.input
            &&& described.ports[1] == (describe::PortView {
                name: "out"@,
                direction: describe::Direction::Out,
                kind: ValueKind::Bool,
                role: Some(PortRole::Output),
                point: None,
            })
            &&& wired[1].name == "out"@ && wired[1].point == block.output
            &&& described.parameters[0] == (describe::ParameterView {
                name: "edge"@,
                kind: ValueKind::Int,
                range: Some(
                    describe::ParameterRange {
                        min: Value::Int(0),
                        max: Value::Int(2),
                    },
                ),
            })
        }),
{
    reveal_strlit("in");
    reveal_strlit("out");
    assert("in"@.len() == 2);
    assert("out"@.len() == 3);
    let wired = block.requirements();
    let roles = block.roles();
    let parameters = block.description().parameters;
    describe::ports_are_described_as_declared(
        block.name,
        "edge-trigger"@,
        wired,
        roles,
        parameters,
        0,
        0,
    );
    describe::ports_are_described_as_declared(
        block.name,
        "edge-trigger"@,
        wired,
        roles,
        parameters,
        1,
        1,
    );
}

} // verus!
