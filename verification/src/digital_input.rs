//! A digital input: a field point conditioned by inversion and debounce.

use crate::describe::{
    self, requirement_views, spec_input, spec_output, IoRequirement, RequirementView,
};
use crate::params::{
    self, spec_optional_bool, spec_optional_u64, ParameterError, ParameterErrorView, Parameters,
};
use crate::table::{
    self, bool_field, int_field, known_fields, known_names_pass, optional, spec_invalid_value,
    StateError, StateErrorView, StateMap, Table,
};
use crate::text;
use crate::value::{PointId, Reading, Tick, Value, ValueKind, Write};
use vstd::prelude::*;

verus! {

/// A digital input: it drives the field signal `in`, or its negation, on
/// `out`. A change is taken over only once it has held for `debounce_ticks`
/// consecutive scans; zero and one let every change through at once. The
/// first value seen is taken over at once: the debounce filters changes.
///
/// The output carries the input's quality, also while a change is held back.
///
/// Both parameters are optional: `invert` is `false` by default,
/// `debounce_ticks` is zero.
#[derive(Debug)]
pub struct DigitalInput {
    name: String,
    input: PointId,
    output: PointId,
    invert: bool,
    debounce_ticks: u64,
    stable: Option<(bool, u64)>,
    driven: bool,
}

/// What a [`DigitalInput`] is.
#[verifier::ext_equal]
pub struct DigitalInputView {
    pub name: Seq<char>,
    pub input: PointId,
    pub output: PointId,
    pub invert: bool,
    pub debounce_ticks: u64,
    /// The conditioned value last seen, and for how many scans in a row.
    pub stable: Option<(bool, u64)>,
    /// The value on `out`.
    pub driven: bool,
}

impl View for DigitalInput {
    type V = DigitalInputView;

    closed spec fn view(&self) -> DigitalInputView {
        DigitalInputView {
            name: self.name@,
            input: self.input,
            output: self.output,
            invert: self.invert,
            debounce_ticks: self.debounce_ticks,
            stable: self.stable,
            driven: self.driven,
        }
    }
}

/// A fresh digital input.
pub open spec fn spec_new(
    name: Seq<char>,
    input: PointId,
    output: PointId,
    invert: bool,
    debounce_ticks: u64,
) -> DigitalInputView {
    DigitalInputView { name, input, output, invert, debounce_ticks, stable: None, driven: false }
}

/// The block that the parameters declare.
pub open spec fn spec_from_parameters(
    name: Seq<char>,
    input: PointId,
    output: PointId,
    parameters: Map<Seq<char>, Value>,
) -> Result<DigitalInputView, ParameterErrorView> {
    match spec_optional_bool(name, parameters, "invert"@) {
        Err(error) => Err(error),
        Ok(invert) => match spec_optional_u64(name, parameters, "debounce_ticks"@) {
            Err(error) => Err(error),
            Ok(debounce_ticks) => Ok(
                spec_new(
                    name,
                    input,
                    output,
                    match invert {
                        Some(invert) => invert,
                        None => false,
                    },
                    match debounce_ticks {
                        Some(debounce_ticks) => debounce_ticks,
                        None => 0,
                    },
                ),
            ),
        },
    }
}

/// The observation that a checkpoint carries: both of its fields, or none.
pub open spec fn restored_stable(fields: Map<Seq<char>, Value>, name: Seq<char>) -> Result<
    Option<(bool, u64)>,
    StateErrorView,
> {
    match optional(
        fields,
        "stable_value"@,
        bool_field(fields, name, "stable_value"@),
    ) {
        Err(error) => Err(error),
        Ok(value) => match optional(
            fields,
            "stable_count"@,
            int_field(fields, name, "stable_count"@),
        ) {
            Err(error) => Err(error),
            Ok(count) => match (value, count) {
                (Some(value), Some(count)) => if count >= 0 {
                    Ok(Some((value, count as u64)))
                } else {
                    Err(spec_invalid_value(name, "stable_count"@, Value::Int(count)))
                },
                (None, None) => Ok(None),
                (Some(_), None) => Err(
                    StateErrorView::MissingField { element: name, field: "stable_count"@ },
                ),
                (None, Some(_)) => Err(
                    StateErrorView::MissingField { element: name, field: "stable_value"@ },
                ),
            },
        },
    }
}

/// The names that a checkpoint may hold.
pub open spec fn known_names() -> Seq<Seq<char>> {
    seq!["driven"@, "stable_value"@, "stable_count"@]
}

impl DigitalInputView {
    /// How many scans a change must hold.
    pub open spec fn debounce(self) -> int {
        if self.debounce_ticks > 1 {
            self.debounce_ticks as int
        } else {
            1
        }
    }

    /// For how many scans in a row the conditioned value has been seen,
    /// this one included; the count stops at its largest value.
    pub open spec fn held(self, conditioned: bool) -> u64 {
        match self.stable {
            Some((value, count)) => if value != conditioned {
                1
            } else if count < u64::MAX {
                (count + 1) as u64
            } else {
                count
            },
            None => 1,
        }
    }

    /// The block after a scan.
    pub open spec fn after(self, value: bool) -> DigitalInputView {
        let conditioned = value != self.invert;
        let held = self.held(conditioned);
        DigitalInputView {
            stable: Some((conditioned, held)),
            driven: if self.stable is None || held >= self.debounce() {
                conditioned
            } else {
                self.driven
            },
            ..self
        }
    }

    /// What the block drives in a scan.
    pub open spec fn written(self, reading: Reading<bool>, tick: Tick) -> Write {
        Write::of(
            self.output,
            Value::Bool(self.after(reading.value).driven),
            reading.quality,
            tick,
        )
    }

    /// The declared ports.
    pub open spec fn requirements(self) -> Seq<RequirementView> {
        seq![
            spec_input("in"@, ValueKind::Bool, self.input),
            spec_output("out"@, ValueKind::Bool, self.output),
        ]
    }

    /// The state as fields; the observation is there once there is one.
    pub open spec fn captured(self) -> Map<Seq<char>, Value> {
        let driven = Map::empty().insert("driven"@, Value::Bool(self.driven));
        match self.stable {
            Some((value, count)) => driven.insert("stable_value"@, Value::Bool(value)).insert(
                "stable_count"@,
                Value::Int(count as i64),
            ),
            None => driven,
        }
    }

    /// The block with a checkpoint taken over, or the checkpoint's refusal.
    pub open spec fn restored(
        self,
        keys: Seq<Seq<char>>,
        fields: Map<Seq<char>, Value>,
    ) -> Result<DigitalInputView, StateErrorView> {
        match known_fields(keys, self.name, known_names()) {
            Err(error) => Err(error),
            Ok(_) => match bool_field(fields, self.name, "driven"@) {
                Err(error) => Err(error),
                Ok(driven) => match restored_stable(fields, self.name) {
                    Err(error) => Err(error),
                    Ok(stable) => Ok(DigitalInputView { driven, stable, ..self }),
                },
            },
        }
    }
}

impl DigitalInput {
    /// The kind a plant model selects this block by.
    pub const KIND: &'static str = "digital-input";

    /// Builds a digital input that neither inverts nor debounces.
    pub fn new(name: &str, input: PointId, output: PointId) -> (r: DigitalInput)
        ensures
            r@ == spec_new(name@, input, output, false, 0),
    {
        DigitalInput {
            name: name.to_owned(),
            input,
            output,
            invert: false,
            debounce_ticks: 0,
            stable: None,
            driven: false,
        }
    }

    /// Sets whether the conditioned value is the field signal's negation.
    pub fn with_invert(self, invert: bool) -> (r: DigitalInput)
        ensures
            r@ == (DigitalInputView { invert, ..self@ }),
    {
        DigitalInput { invert, ..self }
    }

    /// Sets for how many scans in a row a changed value must hold.
    pub fn with_debounce_ticks(self, debounce_ticks: u64) -> (r: DigitalInput)
        ensures
            r@ == (DigitalInputView { debounce_ticks, ..self@ }),
    {
        DigitalInput { debounce_ticks, ..self }
    }

    /// Builds a digital input from the parameters of a plant model.
    pub fn from_parameters(
        name: &str,
        input: PointId,
        output: PointId,
        parameters: &Parameters,
    ) -> (r: Result<DigitalInput, ParameterError>)
        ensures
            match r {
                Ok(block) => spec_from_parameters(name@, input, output, parameters@) == Ok::<
                    DigitalInputView,
                    ParameterErrorView,
                >(block@),
                Err(error) => spec_from_parameters(name@, input, output, parameters@) == Err::<
                    DigitalInputView,
                    ParameterErrorView,
                >(error@),
            },
    {
        let invert = match params::optional_bool(name, parameters, "invert")? {
            Some(invert) => invert,
            None => false,
        };
        let debounce_ticks: u64 = match params::optional_u64(name, parameters, "debounce_ticks")? {
            Some(debounce_ticks) => debounce_ticks,
            None => 0,
        };
        Ok(
            DigitalInput::new(name, input, output).with_invert(invert).with_debounce_ticks(
                debounce_ticks,
            ),
        )
    }

    /// The block's name.
    pub fn name(&self) -> (r: &str)
        ensures
            r@ == self@.name,
    {
        self.name.as_str()
    }

    /// Whether the value is negated.
    pub fn invert(&self) -> (r: bool)
        ensures
            r == self@.invert,
    {
        self.invert
    }

    /// For how many scans in a row a changed value must hold.
    pub fn debounce_ticks(&self) -> (r: u64)
        ensures
            r == self@.debounce_ticks,
    {
        self.debounce_ticks
    }

    /// The declared ports.
    pub fn io_requirements(&self) -> (r: Vec<IoRequirement>)
        ensures
            requirement_views(r@) == self@.requirements(),
    {
        let mut r: Vec<IoRequirement> = Vec::new();
        r.push(describe::input("in", ValueKind::Bool, self.input));
        r.push(describe::output("out", ValueKind::Bool, self.output));
        assert(requirement_views(r@) == self@.requirements());
        r
    }

    /// Runs one scan on what `in` reads.
    pub fn step(&mut self, reading: Reading<bool>, tick: Tick) -> (r: Write)
        ensures
            final(self)@ == old(self)@.after(reading.value),
            r == old(self)@.written(reading, tick),
    {
        let conditioned = reading.value != self.invert;
        let held: u64 = match self.stable {
            Some((value, count)) => if value != conditioned {
                1
            } else if count < u64::MAX {
                count + 1
            } else {
                count
            },
            None => {
                self.driven = conditioned;
                1
            },
        };
        self.stable = Some((conditioned, held));
        if held >= self.debounce_ticks {
            self.driven = conditioned;
        }
        Write::new(self.output, Value::Bool(self.driven), reading.quality, tick)
    }

    /// Captures the value on `out` and the observation in progress.
    pub fn capture_state(&self) -> (r: StateMap)
        ensures
            r@ == self@.captured(),
    {
        let mut r = StateMap::new();
        r.insert("driven", Value::Bool(self.driven));
        if let Some((value, count)) = self.stable {
            r.insert("stable_value", Value::Bool(value));
            r.insert("stable_count", Value::Int(count as i64));
        }
        r
    }

    fn restore_stable(&self, state: &StateMap) -> (r: Result<Option<(bool, u64)>, StateError>)
        ensures
            table::agrees(r, restored_stable(state@, self@.name)),
    {
        let name = self.name.as_str();
        let value = state.optional_bool(name, "stable_value")?;
        let count = state.optional_i64(name, "stable_count")?;
        match (value, count) {
            (Some(value), Some(count)) => if count >= 0 {
                Ok(Some((value, count as u64)))
            } else {
                Err(table::invalid_value(name, "stable_count", Value::Int(count)))
            },
            (None, None) => Ok(None),
            (Some(_), None) => Err(
                StateError::MissingField {
                    element: self.name.clone(),
                    field: "stable_count".to_owned(),
                },
            ),
            (None, Some(_)) => Err(
                StateError::MissingField {
                    element: self.name.clone(),
                    field: "stable_value".to_owned(),
                },
            ),
        }
    }

    /// Takes over a checkpoint. A refused one leaves the block as it was.
    pub fn restore_state(&mut self, state: &StateMap) -> (r: Result<(), StateError>)
        ensures
            match r {
                Ok(_) => old(self)@.restored(state.keys(), state@) == Ok::<
                    DigitalInputView,
                    StateErrorView,
                >(final(self)@),
                Err(error) => old(self)@.restored(state.keys(), state@) == Err::<
                    DigitalInputView,
                    StateErrorView,
                >(error@) && final(self)@ == old(self)@,
            },
    {
        let mut known: Vec<String> = Vec::new();
        known.push("driven".to_owned());
        known.push("stable_value".to_owned());
        known.push("stable_count".to_owned());
        assert(text::views(known@) == known_names());
        state.ensure_known_fields(self.name.as_str(), &known)?;
        let driven = state.require_bool(self.name.as_str(), "driven")?;
        let stable = self.restore_stable(state)?;
        self.driven = driven;
        self.stable = stable;
        Ok(())
    }
}

/// The first value seen is driven at once, whatever the debounce.
pub proof fn first_value_is_taken_over(block: DigitalInputView, value: bool)
    requires
        block.stable is None,
    ensures
        block.after(value).driven == (value != block.invert),
{
}

/// Without a debounce every change is driven in the scan it appears in.
pub proof fn no_debounce_passes_changes(block: DigitalInputView, value: bool)
    requires
        block.debounce_ticks <= 1,
    ensures
        block.after(value).driven == (value != block.invert),
{
}

/// The block after scans that all read `value`.
pub open spec fn after_scans(block: DigitalInputView, value: bool, scans: nat) -> DigitalInputView
    decreases scans,
{
    if scans == 0 {
        block
    } else {
        after_scans(block, value, (scans - 1) as nat).after(value)
    }
}

/// A change is driven in exactly the scan in which it has held for the
/// debounce: any shorter pulse is swallowed.
pub proof fn debounce_swallows_short_pulses(block: DigitalInputView, value: bool, scans: nat)
    requires
        block.stable matches Some((seen, _)) && seen == block.driven,
        block.driven != (value != block.invert),
        0 < scans <= block.debounce(),
    ensures
        scans < block.debounce() ==> after_scans(block, value, scans).driven == block.driven,
        scans == block.debounce() ==> after_scans(block, value, scans).driven == (value
            != block.invert),
{
    lemma_pulse(block, value, scans);
}

proof fn lemma_pulse(block: DigitalInputView, value: bool, scans: nat)
    requires
        block.stable matches Some((seen, _)) && seen == block.driven,
        block.driven != (value != block.invert),
        0 < scans <= block.debounce(),
    ensures
        ({
            let after = after_scans(block, value, scans);
            &&& after.invert == block.invert
            &&& after.debounce_ticks == block.debounce_ticks
            &&& after.stable == Some((value != block.invert, scans as u64))
            &&& after.driven == if scans < block.debounce() {
                block.driven
            } else {
                value != block.invert
            }
        }),
    decreases scans,
{
    if scans == 1 {
        assert(after_scans(block, value, 0) == block);
    } else {
        lemma_pulse(block, value, (scans - 1) as nat);
    }
}

/// The block after scans that read `values`.
pub open spec fn after_values(block: DigitalInputView, values: Seq<bool>) -> DigitalInputView
    decreases values.len(),
{
    if values.len() == 0 {
        block
    } else {
        after_values(block, values.drop_last()).after(values.last())
    }
}

/// Whether the last `n` of `values` are all `value`.
pub open spec fn ends_in(values: Seq<bool>, n: int, value: bool) -> bool {
    n <= values.len() && forall|k: int|
        values.len() - n <= k < values.len() ==> #[trigger] values[k] == value
}

/// For how many readings the last one has stood.
spec fn last_run(values: Seq<bool>) -> nat
    decreases values.len(),
{
    if values.len() == 0 {
        0
    } else if values.len() > 1 && values[values.len() - 2] == values.last() {
        last_run(values.drop_last()) + 1
    } else {
        1
    }
}

proof fn lemma_last_run(values: Seq<bool>, n: int)
    requires
        values.len() > 0,
        n >= 1,
    ensures
        last_run(values) >= n <==> ends_in(values, n, values.last()),
        last_run(values) <= values.len(),
    decreases values.len(),
{
    let earlier = values.drop_last();
    let last = values.len() - 1;
    if values.len() > 1 && values[last - 1] == values[last] {
        lemma_last_run(earlier, if n > 1 { n - 1 } else { 1 });
        if n > 1 && ends_in(earlier, n - 1, values[last]) {
            assert forall|k: int| values.len() - n <= k < values.len() implies #[trigger] values[k]
                == values[last] by {
                if k < last {
                    assert(earlier[k] == values[last]);
                }
            }
        }
        if n > 1 && ends_in(values, n, values[last]) {
            assert forall|k: int|
                earlier.len() - (n - 1) <= k < earlier.len() implies #[trigger] earlier[k]
                == values[last] by {
                assert(values[k] == values[last]);
            }
        }
    } else if n > 1 && ends_in(values, n, values[last]) {
        assert(values[last - 1] == values[last]);
    }
}

proof fn lemma_values(block: DigitalInputView, values: Seq<bool>)
    requires
        block.stable is None,
        values.len() > 0,
    ensures
        ({
            let after = after_values(block, values);
            let run = last_run(values);
            &&& after.invert == block.invert
            &&& after.debounce_ticks == block.debounce_ticks
            &&& after.stable == Some(
                (
                    values.last() != block.invert,
                    if run < u64::MAX {
                        run as u64
                    } else {
                        u64::MAX
                    },
                ),
            )
        }),
    decreases values.len(),
{
    if values.len() > 1 {
        lemma_values(block, values.drop_last());
    } else {
        assert(after_values(block, values.drop_last()) == block);
    }
}

/// Over any readings of a fresh block: the first one is driven at once, a
/// value that has stood for the debounce is driven, and the driven value
/// changes only to one that has.
pub proof fn debounce_follows_the_history(block: DigitalInputView, values: Seq<bool>)
    requires
        block.stable is None,
        values.len() > 0,
    ensures
        ({
            let after = after_values(block, values);
            let before = after_values(block, values.drop_last());
            let debounce = block.debounce();
            &&& values.len() == 1 ==> after.driven == (values[0] != block.invert)
            &&& ends_in(values, debounce, values.last()) ==> after.driven == (values.last()
                != block.invert)
            &&& values.len() > 1 && after.driven != before.driven ==> ends_in(
                values,
                debounce,
                after.driven != block.invert,
            )
        }),
{
    lemma_values(block, values);
    lemma_last_run(values, block.debounce());
    if values.len() > 1 {
        lemma_values(block, values.drop_last());
    } else {
        assert(after_values(block, values.drop_last()) == block);
    }
}

/// A block with the same settings that takes over a checkpoint drives on as
/// the captured one would, as long as the count fits the checkpoint's
/// integers.
pub proof fn input_checkpoint_round_trip(
    block: DigitalInputView,
    standby: DigitalInputView,
    checkpoint: Table,
)
    requires
        block.stable matches Some((_, count)) ==> count <= i64::MAX,
        checkpoint@ == block.captured(),
    ensures
        standby.restored(checkpoint.keys(), checkpoint@) == Ok::<DigitalInputView, StateErrorView>(
            DigitalInputView { driven: block.driven, stable: block.stable, ..standby },
        ),
{
    reveal_strlit("driven");
    reveal_strlit("stable_value");
    reveal_strlit("stable_count");
    assert("driven"@.len() == 6 && "stable_value"@.len() == 12 && "stable_count"@.len() == 12);
    assert("stable_value"@[7] != "stable_count"@[7]);
    let names = known_names();
    assert(names[0] == "driven"@ && names[1] == "stable_value"@ && names[2] == "stable_count"@);
    known_names_pass(checkpoint, standby.name, names);
}

/// Every scan drives `out`, as of this scan and with the quality of `in`. The
/// conditioned value is what `in` reads, negated where the block inverts. It is
/// driven in the first scan, and from then on once it has been seen in as many
/// scans in a row as the debounce asks for; until then the driven value stands.
/// The count of those scans begins anew with each change.
pub proof fn scans_drive_the_debounced_value(
    block: DigitalInputView,
    reading: Reading<bool>,
    tick: Tick,
)
    ensures
        ({
            let written = block.written(reading, tick);
            let after = block.after(reading.value);
            let conditioned = if block.invert {
                !reading.value
            } else {
                reading.value
            };
            let again = block.stable matches Some((earlier, _)) && earlier == conditioned;
            let (_, count) = block.stable->0;
            let (seen, held) = after.stable->0;
            &&& written.point == block.output && written.sample.tick == tick
            &&& written.sample.quality == reading.quality
            &&& written.sample.value == Value::Bool(after.driven)
            &&& after.stable is Some && seen == conditioned
            &&& !again ==> held == 1
            &&& again && count < u64::MAX ==> held == count + 1
            &&& again && count == u64::MAX ==> held == count
            &&& block.stable is None || held >= block.debounce_ticks ==> after.driven
                == conditioned
            &&& block.stable is Some && held < block.debounce_ticks ==> after.driven
                == block.driven
            &&& after.invert == block.invert && after.debounce_ticks == block.debounce_ticks
            &&& after.name == block.name && after.input == block.input
            &&& after.output == block.output
        }),
{
}

/// A block is built exactly where what is declared of `invert` and
/// `debounce_ticks` can be read; they are `false` and zero where they are not
/// declared. It has seen nothing and drives nothing yet.
pub proof fn building_takes_the_declared(
    name: Seq<char>,
    input: PointId,
    output: PointId,
    parameters: Map<Seq<char>, Value>,
)
    ensures
        ({
            let built = spec_from_parameters(name, input, output, parameters);
            let invert = spec_optional_bool(name, parameters, "invert"@);
            let ticks = spec_optional_u64(name, parameters, "debounce_ticks"@);
            &&& built is Ok <==> invert is Ok && ticks is Ok
            &&& invert is Err ==> built == Err::<DigitalInputView, ParameterErrorView>(
                invert->Err_0,
            )
            &&& invert is Ok && ticks is Err ==> built == Err::<
                DigitalInputView,
                ParameterErrorView,
            >(ticks->Err_0)
            &&& built is Ok ==> {
                let block = built->Ok_0;
                &&& block.name == name && block.input == input && block.output == output
                &&& block.invert == (invert->Ok_0 == Some(true))
                &&& ticks->Ok_0 is None ==> block.debounce_ticks == 0
                &&& ticks->Ok_0 is Some ==> block.debounce_ticks == ticks->Ok_0->0
                &&& block.stable is None && !block.driven
            }
        }),
{
}

/// A checkpoint holds the driven value and, once there is one, the observation:
/// the value and for how many scans. It is taken over exactly where it holds the
/// driven value, both parts of an observation, the count not negative, or
/// neither, and no other name; the block then drives and has seen what it holds.
pub proof fn checkpoints_hold_the_observation(
    block: DigitalInputView,
    keys: Seq<Seq<char>>,
    fields: Map<Seq<char>, Value>,
)
    ensures
        ({
            let captured = block.captured();
            &&& captured["driven"@] == Value::Bool(block.driven)
            &&& block.stable is None ==> captured.dom() == set!["driven"@]
            &&& block.stable matches Some((seen, count)) ==> {
                &&& captured.dom() == set!["driven"@, "stable_value"@, "stable_count"@]
                &&& captured["stable_value"@] == Value::Bool(seen)
                &&& captured["stable_count"@] == Value::Int(count as i64)
            }
        }),
        ({
            let restored = block.restored(keys, fields);
            let driven = bool_field(fields, block.name, "driven"@);
            let seen = bool_field(fields, block.name, "stable_value"@);
            let count = int_field(fields, block.name, "stable_count"@);
            let holds_value = fields.dom().contains("stable_value"@);
            let holds_count = fields.dom().contains("stable_count"@);
            let known = seq!["driven"@, "stable_value"@, "stable_count"@];
            &&& restored is Ok <==> {
                &&& known_fields(keys, block.name, known) is Ok && driven is Ok
                &&& holds_value <==> holds_count
                &&& holds_value ==> seen is Ok && count is Ok && count->Ok_0 >= 0
            }
            &&& restored is Ok && !holds_value ==> restored->Ok_0 == (DigitalInputView {
                driven: driven->Ok_0,
                stable: None,
                ..block
            })
            &&& restored is Ok && holds_value ==> restored->Ok_0 == (DigitalInputView {
                driven: driven->Ok_0,
                stable: Some((seen->Ok_0, count->Ok_0 as u64)),
                ..block
            })
        }),
{
    reveal_strlit("driven");
    reveal_strlit("stable_value");
    reveal_strlit("stable_count");
    assert("driven"@.len() == 6);
    assert("stable_value"@.len() == 12);
    assert("stable_count"@.len() == 12);
    assert("stable_value"@[7] != "stable_count"@[7]);
    let captured = block.captured();
    if block.stable is None {
        assert(captured.dom() =~= set!["driven"@]);
    } else {
        assert(captured.dom() =~= set!["driven"@, "stable_value"@, "stable_count"@]);
    }
}

/// The block is wired by `in` and `out`.
pub proof fn wiring_is_declared(block: DigitalInputView)
    ensures
        ({
            let ports = block.requirements();
            &&& ports.len() == 2
            &&& ports[0] == (RequirementView {
                name: "in"@,
                direction: describe::Direction::In,
                kind: ValueKind::Bool,
                point: block.input,
            })
            &&& ports[1] == (RequirementView {
                name: "out"@,
                direction: describe::Direction::Out,
                kind: ValueKind::Bool,
                point: block.output,
            })
        }),
{
}

} // verus!
