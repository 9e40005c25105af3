//! An up-counter with a preset and a reset.

use crate::describe::{
    self, agree_on, describes_parameter, parameter_views, requirement_views, role_views,
    spec_component, spec_input, spec_nonnegative_int, spec_output, spec_parameter,
    ComponentDescriptor, ComponentView, IoRequirement, ParameterDescriptor, ParameterView, PortRole,
    RequirementView, RoleHint,
};
use crate::params::{
    self, spec_invalid, spec_invalid_parameter, spec_required_u64, spec_tune_u64,
    spec_unknown_parameter, CommandError, CommandErrorView, ParameterError, ParameterErrorView,
    Parameters,
};
use crate::table::{
    bool_field, count_field, field, known_fields, known_names_pass, StateError, StateErrorView,
    StateMap, Table,
};
use crate::text::{self, decimal};
use crate::value::{PointId, Quality, Reading, Tick, Value, ValueKind, Write};
use vstd::prelude::*;

verus! {

/// An up-counter: it counts the rising edges of `in`, reports them on
/// `count`, and asserts `done` once they reach `preset`. The count stops at
/// the largest `i64`. Before the first scan the level counts as `false`, so
/// a `true` first reading is an edge.
///
/// While `reset` reads `true` the count is zero and no edge counts. The
/// level is tracked all the same, so a level held through a reset is no edge
/// after it.
///
/// Counting goes by the values alone; both outputs carry the worst of the
/// two inputs' qualities.
///
/// Its one parameter, `preset`, is an integer from zero to the largest
/// `i64`.
#[derive(Debug)]
pub struct Counter {
    name: String,
    input: PointId,
    reset: PointId,
    count_out: PointId,
    done: PointId,
    preset: u64,
    count: u64,
    previous: bool,
}

/// What a [`Counter`] is.
#[verifier::ext_equal]
pub struct CounterView {
    pub name: Seq<char>,
    pub input: PointId,
    pub reset: PointId,
    pub count_out: PointId,
    pub done: PointId,
    pub preset: u64,
    pub count: u64,
    /// The level in the last scan.
    pub previous: bool,
}

impl View for Counter {
    type V = CounterView;

    closed spec fn view(&self) -> CounterView {
        CounterView {
            name: self.name@,
            input: self.input,
            reset: self.reset,
            count_out: self.count_out,
            done: self.done,
            preset: self.preset,
            count: self.count,
            previous: self.previous,
        }
    }
}

/// The counter with the given parts, or why it cannot be built.
pub open spec fn spec_new(
    name: Seq<char>,
    input: PointId,
    reset: PointId,
    count_out: PointId,
    done: PointId,
    preset: u64,
) -> Result<CounterView, ParameterErrorView> {
    if preset > i64::MAX {
        Err(
            spec_invalid(
                name,
                "preset"@,
                "must not exceed i64::MAX, found "@ + decimal(preset as nat),
            ),
        )
    } else {
        Ok(
            CounterView {
                name,
                input,
                reset,
                count_out,
                done,
                preset,
                count: 0,
                previous: false,
            },
        )
    }
}

/// The counter that the parameters declare.
pub open spec fn spec_from_parameters(
    name: Seq<char>,
    input: PointId,
    reset: PointId,
    count_out: PointId,
    done: PointId,
    parameters: Map<Seq<char>, Value>,
) -> Result<CounterView, ParameterErrorView> {
    match spec_required_u64(name, parameters, "preset"@) {
        Err(error) => Err(error),
        Ok(preset) => spec_new(name, input, reset, count_out, done, preset),
    }
}

/// The names that a checkpoint may hold.
pub open spec fn known_names() -> Seq<Seq<char>> {
    seq!["count"@, "previous"@, "preset"@]
}

impl CounterView {
    /// The invariant: the count and the preset fit an `i64`.
    pub open spec fn wf(self) -> bool {
        self.count <= i64::MAX && self.preset <= i64::MAX
    }

    /// The count after a scan.
    pub open spec fn counted(self, value: bool, reset: bool) -> u64 {
        if reset {
            0
        } else if value && !self.previous && self.count < i64::MAX {
            (self.count + 1) as u64
        } else {
            self.count
        }
    }

    /// The counter after a scan.
    pub open spec fn after(self, value: bool, reset: bool) -> CounterView {
        CounterView { count: self.counted(value, reset), previous: value, ..self }
    }

    /// Whether the preset is reached.
    pub open spec fn reached(self) -> bool {
        self.count >= self.preset
    }

    /// What the counter drives in a scan, in order.
    pub open spec fn writes(
        self,
        input: Reading<bool>,
        reset: Reading<bool>,
        tick: Tick,
    ) -> Seq<Write> {
        let after = self.after(input.value, reset.value);
        let quality = input.quality.spec_merge(reset.quality);
        seq![
            Write::of(self.count_out, Value::Int(after.count as i64), quality, tick),
            Write::of(self.done, Value::Bool(after.reached()), quality, tick),
        ]
    }

    /// The declared ports.
    pub open spec fn requirements(self) -> Seq<RequirementView> {
        seq![
            spec_input("in"@, ValueKind::Bool, self.input),
            spec_input("reset"@, ValueKind::Bool, self.reset),
            spec_output("count"@, ValueKind::Int, self.count_out),
            spec_output("done"@, ValueKind::Bool, self.done),
        ]
    }

    /// The roles of the ports.
    pub open spec fn roles(self) -> Seq<(Seq<char>, PortRole)> {
        seq![
            ("in"@, PortRole::ProcessValue),
            ("reset"@, PortRole::Status),
            ("count"@, PortRole::Output),
            ("done"@, PortRole::Status),
        ]
    }

    /// The declared parameters.
    pub open spec fn parameters(self) -> Seq<ParameterView> {
        seq![
            spec_parameter("preset"@, ValueKind::Int, spec_nonnegative_int()),
        ]
    }

    /// The block's description.
    pub open spec fn description(self) -> ComponentView {
        spec_component(
            self.name,
            Counter::KIND@,
            self.requirements(),
            self.roles(),
            self.parameters(),
        )
    }

    /// The counter after a retune, or its refusal. The count is kept.
    pub open spec fn tuned(self, parameter: Seq<char>, value: Value) -> Result<
        CounterView,
        CommandErrorView,
    > {
        if parameter == "preset"@ {
            match spec_tune_u64(self.name, parameter, value) {
                Err(error) => Err(error),
                Ok(preset) => if preset > i64::MAX {
                    Err(spec_invalid_parameter(self.name, parameter, "must not exceed i64::MAX"@))
                } else {
                    Ok(CounterView { preset, ..self })
                },
            }
        } else {
            Err(spec_unknown_parameter(self.name, parameter))
        }
    }

    /// The count, the level and the tuning as fields.
    pub open spec fn captured(self) -> Map<Seq<char>, Value> {
        Map::empty().insert("count"@, Value::Int(self.count as i64)).insert(
            "previous"@,
            Value::Bool(self.previous),
        ).insert("preset"@, Value::Int(self.preset as i64))
    }

    /// The count and the preset that a checkpoint carries.
    pub open spec fn restored_counts(
        self,
        keys: Seq<Seq<char>>,
        fields: Map<Seq<char>, Value>,
    ) -> Result<(u64, u64), StateErrorView> {
        match known_fields(keys, self.name, known_names()) {
            Err(error) => Err(error),
            Ok(_) => match count_field(fields, self.name, "count"@) {
                Err(error) => Err(error),
                Ok(count) => match count_field(fields, self.name, "preset"@) {
                    Err(error) => Err(error),
                    Ok(preset) => Ok((count, preset)),
                },
            },
        }
    }

    /// The counter with a checkpoint taken over, or the checkpoint's
    /// refusal.
    pub open spec fn restored(
        self,
        keys: Seq<Seq<char>>,
        fields: Map<Seq<char>, Value>,
    ) -> Result<CounterView, StateErrorView> {
        match self.restored_counts(keys, fields) {
            Err(error) => Err(error),
            Ok((count, preset)) => match bool_field(fields, self.name, "previous"@) {
                Err(error) => Err(error),
                Ok(previous) => Ok(CounterView { count, previous, preset, ..self }),
            },
        }
    }

    /// What a refused checkpoint leaves of the counter: a readable count has
    /// been taken over by the time the level turns out unreadable.
    pub open spec fn left_by_refused(
        self,
        keys: Seq<Seq<char>>,
        fields: Map<Seq<char>, Value>,
    ) -> CounterView {
        match self.restored_counts(keys, fields) {
            Err(_) => self,
            Ok((count, _)) => CounterView { count, ..self },
        }
    }
}

impl Counter {
    /// The kind a plant model selects this block by.
    pub const KIND: &'static str = "counter";

    /// Builds a counter, or tells why it cannot be built.
    pub fn new(
        name: &str,
        input: PointId,
        reset: PointId,
        count_out: PointId,
        done: PointId,
        preset: u64,
    ) -> (r: Result<Counter, ParameterError>)
        ensures
            match r {
                Ok(block) => block@.wf() && spec_new(
                    name@,
                    input,
                    reset,
                    count_out,
                    done,
                    preset,
                ) == Ok::<CounterView, ParameterErrorView>(block@),
                Err(error) => spec_new(name@, input, reset, count_out, done, preset) == Err::<
                    CounterView,
                    ParameterErrorView,
                >(error@),
            },
    {
        if preset > i64::MAX as u64 {
            return Err(
                params::invalid(
                    name,
                    "preset",
                    text::numbered("must not exceed i64::MAX, found ", preset).as_str(),
                ),
            );
        }
        Ok(
            Counter {
                name: name.to_owned(),
                input,
                reset,
                count_out,
                done,
                preset,
                count: 0,
                previous: false,
            },
        )
    }

    /// Builds a counter from the parameters of a plant model.
    pub fn from_parameters(
        name: &str,
        input: PointId,
        reset: PointId,
        count_out: PointId,
        done: PointId,
        parameters: &Parameters,
    ) -> (r: Result<Counter, ParameterError>)
        ensures
            match r {
                Ok(block) => block@.wf() && spec_from_parameters(
                    name@,
                    input,
                    reset,
                    count_out,
                    done,
                    parameters@,
                ) == Ok::<CounterView, ParameterErrorView>(block@),
                Err(error) => spec_from_parameters(
                    name@,
                    input,
                    reset,
                    count_out,
                    done,
                    parameters@,
                ) == Err::<CounterView, ParameterErrorView>(error@),
            },
    {
        let preset: u64 = params::required_u64(name, parameters, "preset")?;
        Counter::new(name, input, reset, count_out, done, preset)
    }

    /// The block's name.
    pub fn name(&self) -> (r: &str)
        ensures
            r@ == self@.name,
    {
        self.name.as_str()
    }

    /// The declared ports.
    pub fn io_requirements(&self) -> (r: Vec<IoRequirement>)
        ensures
            requirement_views(r@) == self@.requirements(),
    {
        let mut r: Vec<IoRequirement> = Vec::new();
        r.push(describe::input("in", ValueKind::Bool, self.input));
        r.push(describe::input("reset", ValueKind::Bool, self.reset));
        r.push(describe::output("count", ValueKind::Int, self.count_out));
        r.push(describe::output("done", ValueKind::Bool, self.done));
        assert(requirement_views(r@) == self@.requirements());
        r
    }

    /// Runs one scan on what `in` and `reset` read.
    pub fn step(&mut self, input: Reading<bool>, reset: Reading<bool>, tick: Tick) -> (r: Vec<
        Write,
    >)
        requires
            old(self)@.wf(),
        ensures
            final(self)@ == old(self)@.after(input.value, reset.value),
            final(self)@.wf(),
            r@ == old(self)@.writes(input, reset, tick),
    {
        if reset.value {
            self.count = 0;
        } else if input.value && !self.previous && self.count < i64::MAX as u64 {
            self.count = self.count + 1;
        }
        self.previous = input.value;
        let quality = input.quality.merge(reset.quality);
        let mut r: Vec<Write> = Vec::new();
        r.push(Write::new(self.count_out, Value::Int(self.count as i64), quality, tick));
        r.push(Write::new(self.done, Value::Bool(self.count >= self.preset), quality, tick));
        r
    }

    /// Describes the block.
    pub fn describe(&self) -> (r: ComponentDescriptor)
        ensures
            r@ == self@.description(),
    {
        let mut roles: Vec<RoleHint> = Vec::new();
        roles.push(describe::hint("in", PortRole::ProcessValue));
        roles.push(describe::hint("reset", PortRole::Status));
        roles.push(describe::hint("count", PortRole::Output));
        roles.push(describe::hint("done", PortRole::Status));
        assert(role_views(roles@) == self@.roles());
        let mut parameters: Vec<ParameterDescriptor> = Vec::new();
        parameters.push(
            describe::parameter("preset", ValueKind::Int, Some(describe::nonnegative_int())),
        );
        assert(parameter_views(parameters@) == self@.parameters());
        proof {
            describe::parallel_hints(self@.requirements(), self@.roles());
        }
        describe::component(
            self.name.as_str(),
            Counter::KIND,
            &self.io_requirements(),
            &roles,
            parameters,
        )
    }

    /// Retunes `preset` at the scan boundary; the count is kept, and a
    /// refused value changes nothing.
    pub fn apply_parameter(&mut self, parameter: &str, value: Value) -> (r: Result<
        (),
        CommandError,
    >)
        requires
            old(self)@.wf(),
        ensures
            final(self)@.wf(),
            match r {
                Ok(_) => old(self)@.tuned(parameter@, value) == Ok::<CounterView, CommandErrorView>(
                    final(self)@,
                ),
                Err(error) => old(self)@.tuned(parameter@, value) == Err::<
                    CounterView,
                    CommandErrorView,
                >(error@) && final(self)@ == old(self)@,
            },
    {
        if text::same(parameter, "preset") {
            let preset: u64 = params::tune_u64(self.name.as_str(), parameter, value)?;
            if preset > i64::MAX as u64 {
                return Err(
                    params::invalid_parameter(
                        self.name.as_str(),
                        parameter,
                        "must not exceed i64::MAX",
                    ),
                );
            }
            self.preset = preset;
            Ok(())
        } else {
            Err(params::unknown_parameter(self.name.as_str(), parameter))
        }
    }

    /// Captures the count, the level and the tuning, so that a standby
    /// continues without counting a held level again.
    pub fn capture_state(&self) -> (r: StateMap)
        ensures
            r@ == self@.captured(),
    {
        let mut r = StateMap::new();
        r.insert("count", Value::Int(self.count as i64));
        r.insert("previous", Value::Bool(self.previous));
        r.insert("preset", Value::Int(self.preset as i64));
        r
    }

    /// Takes over a checkpoint, field by field.
    pub fn restore_state(&mut self, state: &StateMap) -> (r: Result<(), StateError>)
        requires
            old(self)@.wf(),
        ensures
            final(self)@.wf(),
            match r {
                Ok(_) => old(self)@.restored(state.keys(), state@) == Ok::<
                    CounterView,
                    StateErrorView,
                >(final(self)@),
                Err(error) => old(self)@.restored(state.keys(), state@) == Err::<
                    CounterView,
                    StateErrorView,
                >(error@) && final(self)@ == old(self)@.left_by_refused(state.keys(), state@),
            },
    {
        let mut known: Vec<String> = Vec::new();
        known.push("count".to_owned());
        known.push("previous".to_owned());
        known.push("preset".to_owned());
        assert(text::views(known@) == known_names());
        state.ensure_known_fields(self.name.as_str(), &known)?;
        let count: u64 = state.require_count(self.name.as_str(), "count")?;
        let preset: u64 = state.require_count(self.name.as_str(), "preset")?;
        self.count = count;
        self.previous = state.require_bool(self.name.as_str(), "previous")?;
        self.preset = preset;
        Ok(())
    }
}

/// A reset dominates an edge, and a level held through it is no edge after
/// it.
pub proof fn reset_dominates(counter: CounterView, value: bool)
    ensures
        counter.after(value, true).count == 0,
        counter.after(true, true).after(true, false).count == 0,
{
}

/// A held level counts once: it must fall before it can count again.
pub proof fn held_level_counts_once(counter: CounterView)
    ensures
        counter.after(true, false).after(true, false).count == counter.after(true, false).count,
        counter.after(true, false).after(false, false).count == counter.after(true, false).count,
{
}

/// One scan adds one count per rising edge, and nothing once the largest
/// count is reached.
pub proof fn edges_add_one(counter: CounterView, value: bool)
    requires
        counter.wf(),
    ensures
        ({
            let after = counter.after(value, false);
            &&& value && !counter.previous && counter.count < i64::MAX ==> after.count
                == counter.count + 1
            &&& !(value && !counter.previous) ==> after.count == counter.count
            &&& counter.count == i64::MAX ==> after.count == i64::MAX
            &&& after.wf()
        }),
{
}

/// The counter after scans, each with its `in` and its `reset`.
pub open spec fn after_scans(counter: CounterView, scans: Seq<(bool, bool)>) -> CounterView
    decreases scans.len(),
{
    if scans.len() == 0 {
        counter
    } else {
        after_scans(counter, scans.drop_last()).after(scans.last().0, scans.last().1)
    }
}

/// How many of the scans from `from` on see `in` rise, after a level of
/// `start`.
pub open spec fn rises(scans: Seq<(bool, bool)>, start: bool, from: int) -> nat
    decreases scans.len(),
{
    if scans.len() <= from || scans.len() == 0 {
        0
    } else {
        let level = if scans.len() == 1 {
            start
        } else {
            scans[scans.len() - 2].0
        };
        rises(scans.drop_last(), start, from) + if scans.last().0 && !level {
            1nat
        } else {
            0
        }
    }
}

/// Over any scans: the count is that of the rising edges since the last
/// reset, or since the start where there was none, up to the largest count.
pub proof fn counts_follow_the_history(
    counter: CounterView,
    scans: Seq<(bool, bool)>,
    from: int,
)
    requires
        counter.wf(),
        0 <= from <= scans.len(),
        from > 0 ==> scans[from - 1].1,
        forall|k: int| from <= k < scans.len() ==> !(#[trigger] scans[k]).1,
    ensures
        ({
            let after = after_scans(counter, scans);
            let counted = rises(scans, counter.previous, from) + if from == 0 {
                counter.count as nat
            } else {
                0
            };
            &&& after.count == if counted < i64::MAX {
                counted as int
            } else {
                i64::MAX as int
            }
            &&& after.preset == counter.preset
            &&& after.reached() <==> after.count >= counter.preset
        }),
    decreases scans.len(),
{
    lemma_history(counter, scans);
    if scans.len() > 0 {
        let earlier = scans.drop_last();
        lemma_history(counter, earlier);
        if from < scans.len() {
            assert forall|k: int| from <= k < earlier.len() implies !(#[trigger] earlier[k]).1 by {
                assert(!scans[k].1);
            }
            assert(!scans[scans.len() - 1].1);
            counts_follow_the_history(counter, earlier, from);
        }
    }
}

proof fn lemma_history(counter: CounterView, scans: Seq<(bool, bool)>)
    requires
        counter.wf(),
    ensures
        ({
            let after = after_scans(counter, scans);
            &&& after.wf()
            &&& after.preset == counter.preset
            &&& after.previous == if scans.len() == 0 {
                counter.previous
            } else {
                scans.last().0
            }
        }),
    decreases scans.len(),
{
    if scans.len() > 0 {
        lemma_history(counter, scans.drop_last());
    }
}

/// Once reached, the preset stays reached until a reset or a retune; a
/// preset of zero always is.
pub proof fn done_stands_until_reset(counter: CounterView, value: bool)
    requires
        counter.wf(),
    ensures
        counter.reached() ==> counter.after(value, false).reached(),
        counter.preset == 0 ==> counter.reached(),
{
}

/// Counting goes by the values alone, and both outputs carry the worst of
/// the inputs' qualities.
pub proof fn counts_ignore_quality(
    counter: CounterView,
    value: bool,
    reset: bool,
    one: Quality,
    other: Quality,
    tick: Tick,
)
    ensures
        ({
            let writes = counter.writes(
                Reading { value, quality: one },
                Reading { value: reset, quality: other },
                tick,
            );
            let trusted = counter.writes(
                Reading { value, quality: Quality::Good },
                Reading { value: reset, quality: Quality::Good },
                tick,
            );
            &&& writes[0].sample.value == trusted[0].sample.value
            &&& writes[1].sample.value == trusted[1].sample.value
            &&& writes[0].sample.quality == one.spec_merge(other)
            &&& writes[1].sample.quality == one.spec_merge(other)
        }),
{
}

/// A retune leaves the count and the edge memory alone.
pub proof fn retunes_keep_the_count(counter: CounterView, parameter: Seq<char>, value: Value)
    ensures
        counter.tuned(parameter, value) matches Ok::<CounterView, CommandErrorView>(tuned)
            ==> tuned == (CounterView { preset: tuned.preset, ..counter }),
{
}

/// Building reads exactly the described parameters: whatever else is
/// declared makes no difference, and without one of them nothing is built.
pub proof fn building_reads_the_described(
    counter: CounterView,
    a: Map<Seq<char>, Value>,
    b: Map<Seq<char>, Value>,
    i: int,
)
    ensures
        ({
            let described = counter.description().parameters;
            let from_a = spec_from_parameters(
                counter.name,
                counter.input,
                counter.reset,
                counter.count_out,
                counter.done,
                a,
            );
            let from_b = spec_from_parameters(
                counter.name,
                counter.input,
                counter.reset,
                counter.count_out,
                counter.done,
                b,
            );
            &&& agree_on(described, a, b) ==> from_a == from_b
            &&& 0 <= i < described.len() && field(a, described[i].name) is None ==> from_a is Err
        }),
{
    let described = counter.description().parameters;
    assert(described[0].name == "preset"@);
}

/// Exactly the described parameters can be retuned: any other name is
/// refused as unknown.
pub proof fn tuning_takes_the_described(counter: CounterView, parameter: Seq<char>, value: Value)
    ensures
        ({
            let unknown = spec_unknown_parameter(counter.name, parameter);
            let refused = Err::<CounterView, CommandErrorView>(unknown);
            let described = counter.description().parameters;
            describes_parameter(described, parameter) <==> counter.tuned(parameter, value)
                != refused
        }),
{
    let described = counter.description().parameters;
    assert(described[0].name == "preset"@);
}

/// A counter that takes over a checkpoint continues where the captured one
/// stood.
pub proof fn counter_checkpoint_round_trip(
    counter: CounterView,
    standby: CounterView,
    checkpoint: Table,
)
    requires
        counter.wf(),
        checkpoint@ == counter.captured(),
    ensures
        standby.restored(checkpoint.keys(), checkpoint@) == Ok::<CounterView, StateErrorView>(
            CounterView {
                count: counter.count,
                previous: counter.previous,
                preset: counter.preset,
                ..standby
            },
        ),
{
    reveal_strlit("count");
    reveal_strlit("previous");
    reveal_strlit("preset");
    assert("count"@.len() == 5 && "previous"@.len() == 8 && "preset"@.len() == 6);
    let names = known_names();
    assert(names[0] == "count"@ && names[1] == "previous"@ && names[2] == "preset"@);
    known_names_pass(checkpoint, standby.name, names);
}

/// Every scan drives `count` and `done`, in this order, as of this scan. A reset
/// makes the count zero; otherwise a level that was `false` and is `true` adds
/// one, up to the largest `i64`. `done` tells whether the count has reached the
/// preset. Both carry the worse quality of the two inputs, and no quality
/// changes what they carry.
pub proof fn scans_drive_both_outputs(
    counter: CounterView,
    input: Reading<bool>,
    reset: Reading<bool>,
    tick: Tick,
)
    requires
        counter.wf(),
    ensures
        ({
            let writes = counter.writes(input, reset, tick);
            let after = counter.after(input.value, reset.value);
            let rises = input.value && !counter.previous;
            let quality = writes[0].sample.quality;
            &&& writes.len() == 2
            &&& writes[0].point == counter.count_out && writes[1].point == counter.done
            &&& writes[0].sample.tick == tick && writes[1].sample.tick == tick
            &&& reset.value ==> after.count == 0
            &&& !reset.value && rises && counter.count < i64::MAX ==> after.count == counter.count
                + 1
            &&& !reset.value && (!rises || counter.count == i64::MAX) ==> after.count
                == counter.count
            &&& after.previous == input.value && after.preset == counter.preset
            &&& writes[0].sample.value matches Value::Int(shown) && shown == after.count
            &&& writes[1].sample.value == Value::Bool(after.count >= counter.preset)
            &&& writes[1].sample.quality == quality
            &&& input.quality is Good ==> quality == reset.quality
            &&& reset.quality is Good ==> quality == input.quality
            &&& reset.quality is Bad ==> quality == reset.quality
            &&& input.quality is Bad && !(reset.quality is Bad) ==> quality == input.quality
            &&& input.quality is Uncertain && reset.quality is Uncertain ==> quality
                == reset.quality
        }),
{
}

/// A counter is built exactly where `preset` declares from zero to the largest
/// `i64`; it counts from zero, with a level of `false` before the first scan. A
/// retune of `preset` to such a number sets it and nothing else.
pub proof fn building_takes_the_declared(
    given: CounterView,
    parameters: Map<Seq<char>, Value>,
    value: Value,
)
    ensures
        ({
            let built = spec_from_parameters(
                given.name,
                given.input,
                given.reset,
                given.count_out,
                given.done,
                parameters,
            );
            let preset = spec_required_u64(given.name, parameters, "preset"@);
            &&& built is Ok <==> preset is Ok && preset->Ok_0 <= i64::MAX
            &&& preset is Err ==> built == Err::<CounterView, ParameterErrorView>(preset->Err_0)
            &&& preset is Ok && preset->Ok_0 > i64::MAX ==> {
                &&& built matches Err(ParameterErrorView::Invalid { component, parameter, .. })
                &&& component == given.name && parameter == "preset"@
            }
            &&& built is Ok ==> built->Ok_0 == (CounterView {
                preset: preset->Ok_0,
                count: 0,
                previous: false,
                ..given
            })
        }),
        ({
            let preset = spec_tune_u64(given.name, "preset"@, value);
            let tuned = given.tuned("preset"@, value);
            &&& tuned is Ok <==> preset is Ok && preset->Ok_0 <= i64::MAX
            &&& tuned is Ok ==> tuned->Ok_0 == (CounterView { preset: preset->Ok_0, ..given })
            &&& preset is Ok && preset->Ok_0 > i64::MAX ==> tuned == Err::<
                CounterView,
                CommandErrorView,
            >(
                CommandErrorView::InvalidParameter {
                    component: given.name,
                    parameter: "preset"@,
                    detail: "must not exceed i64::MAX"@,
                },
            )
        }),
{
}

/// A checkpoint holds the count, the level and the preset, and nothing else; it
/// is taken over exactly where it holds all three, neither number negative, and
/// no other name, and the counter then has them. One that is refused for its
/// level alone still leaves its count behind, and any other one nothing.
pub proof fn checkpoints_hold_the_count(
    counter: CounterView,
    keys: Seq<Seq<char>>,
    fields: Map<Seq<char>, Value>,
)
    requires
        counter.wf(),
    ensures
        ({
            let captured = counter.captured();
            let restored = counter.restored(keys, fields);
            let left = counter.left_by_refused(keys, fields);
            let count = count_field(fields, counter.name, "count"@);
            let preset = count_field(fields, counter.name, "preset"@);
            let previous = bool_field(fields, counter.name, "previous"@);
            let known = known_fields(
                keys,
                counter.name,
                seq!["count"@, "previous"@, "preset"@],
            ) is Ok;
            &&& captured.dom() == set!["count"@, "previous"@, "preset"@]
            &&& captured["count"@] == Value::Int(counter.count as i64)
            &&& captured["previous"@] == Value::Bool(counter.previous)
            &&& captured["preset"@] == Value::Int(counter.preset as i64)
            &&& restored is Ok <==> known && count is Ok && preset is Ok && previous is Ok
            &&& restored is Ok ==> restored->Ok_0 == (CounterView {
                count: count->Ok_0,
                preset: preset->Ok_0,
                previous: previous->Ok_0,
                ..counter
            })
            &&& known && count is Ok && preset is Ok ==> left == (CounterView {
                count: count->Ok_0,
                ..counter
            })
            &&& !known || count is Err || preset is Err ==> left == counter
        }),
{
    reveal_strlit("count");
    reveal_strlit("previous");
    reveal_strlit("preset");
    assert("count"@.len() == 5);
    assert("previous"@.len() == 8);
    assert("preset"@.len() == 6);
    assert(counter.captured().dom() =~= set!["count"@, "previous"@, "preset"@]);
}

/// The block is described under its own name and the kind it is selected by,
/// with its ports in this order, each wired to its point, and with these
/// parameters and bounds.
pub proof fn wiring_is_described(counter: CounterView)
    ensures
        ({
            let described = counter.description();
            let wired = counter.requirements();
            &&& described.name == counter.name && described.label == counter.name
            &&& described.kind == "counter"@
            &&& wired.len() == 4 && described.ports.len() == 4
            &&& described.parameters.len() == 1
            &&& described.ports[0] == (describe::PortView {
                name: "in"@,
                direction: describe::Direction::In,
                kind: ValueKind::Bool,
                role: Some(PortRole::ProcessValue),
                point: None,
            })
            &&& wired[0].name == "in"@ && wired[0].point == counter.input
            &&& described.ports[1] == (describe::PortView {
                name: "reset"@,
                direction: describe::Direction::In,
                kind: ValueKind::Bool,
                role: Some(PortRole::Status),
                point: None,
            })
            &&& wired[1].name == "reset"@ && wired[1].point == counter.reset
            &&& described.ports[2] == (describe::PortView {
                name: "count"@,
                direction: describe::Direction::Out,
                kind: ValueKind::Int,
                role: Some(PortRole::Output),
                point: None,
            })
            &&& wired[2].name == "count"@ && wired[2].point == counter.count_out
            &&& described.ports[3] == (describe::PortView {
                name: "done"@,
                direction: describe::Direction::Out,
                kind: ValueKind::Bool,
                role: Some(PortRole::Status),
                point: None,
            })
            &&& wired[3].name == "done"@ && wired[3].point == counter.done
            &&& described.parameters[0] == (describe::ParameterView {
                name: "preset"@,
                kind: ValueKind::Int,
                range: Some(
                    describe::ParameterRange {
                        min: Value::Int(0),
                        max: Value::Int(i64::MAX),
                    },
                ),
            })
        }),
{
    reveal_strlit("in");
    reveal_strlit("reset");
    reveal_strlit("count");
    reveal_strlit("done");
    assert("in"@.len() == 2);
    assert("reset"@.len() == 5);
    assert("count"@.len() == 5);
    assert("done"@.len() == 4);
    assert("reset"@[0] != "count"@[0]);
    let wired = counter.requirements();
    let roles = counter.roles();
    let parameters = counter.description().parameters;
    describe::ports_are_described_as_declared(
        counter.name,
        "counter"@,
        wired,
        roles,
        parameters,
        0,
        0,
    );
    describe::ports_are_described_as_declared(
        counter.name,
        "counter"@,
        wired,
        roles,
        parameters,
        1,
        1,
    );
    describe::ports_are_described_as_declared(
        counter.name,
        "counter"@,
        wired,
        roles,
        parameters,
        2,
        2,
    );
    describe::ports_are_described_as_declared(
        counter.name,
        "counter"@,
        wired,
        roles,
        parameters,
        3,
        3,
    );
}

} // verus!
