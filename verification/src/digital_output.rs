//! A digital output: a command copied onto a field point.

use crate::describe::{
    self, requirement_views, spec_input, spec_output, IoRequirement, RequirementView,
};
use crate::params::{self, spec_optional_bool, ParameterError, ParameterErrorView, Parameters};
use crate::value::{PointId, Quality, Reading, Tick, Value, ValueKind, Write};
use vstd::prelude::*;

verus! {

/// A digital output: it drives the command `in`, or its negation, on `out`.
/// The output carries the command's quality, so a degraded command is seen
/// for what it is.
///
/// Its one parameter, `invert`, is optional and `false` by default.
#[derive(Debug)]
pub struct DigitalOutput {
    name: String,
    input: PointId,
    output: PointId,
    invert: bool,
}

/// What a [`DigitalOutput`] is.
#[verifier::ext_equal]
pub struct DigitalOutputView {
    pub name: Seq<char>,
    pub input: PointId,
    pub output: PointId,
    pub invert: bool,
}

impl View for DigitalOutput {
    type V = DigitalOutputView;

    closed spec fn view(&self) -> DigitalOutputView {
        DigitalOutputView {
            name: self.name@,
            input: self.input,
            output: self.output,
            invert: self.invert,
        }
    }
}

/// The block that the parameters declare.
pub open spec fn spec_from_parameters(
    name: Seq<char>,
    input: PointId,
    output: PointId,
    parameters: Map<Seq<char>, Value>,
) -> Result<DigitalOutputView, ParameterErrorView> {
    match spec_optional_bool(name, parameters, "invert"@) {
        Err(error) => Err(error),
        Ok(invert) => Ok(
            DigitalOutputView {
                name,
                input,
                output,
                invert: match invert {
                    Some(invert) => invert,
                    None => false,
                },
            },
        ),
    }
}

impl DigitalOutputView {
    /// What the block drives in a scan.
    pub open spec fn driven(self, command: Reading<bool>, tick: Tick) -> Write {
        Write::of(self.output, Value::Bool(command.value != self.invert), command.quality, tick)
    }

    /// The declared ports.
    pub open spec fn requirements(self) -> Seq<RequirementView> {
        seq![
            spec_input("in"@, ValueKind::Bool, self.input),
            spec_output("out"@, ValueKind::Bool, self.output),
        ]
    }
}

impl DigitalOutput {
    /// Builds a digital output that does not invert.
    pub fn new(name: &str, input: PointId, output: PointId) -> (r: DigitalOutput)
        ensures
            r@ == (DigitalOutputView { name: name@, input, output, invert: false }),
    {
        DigitalOutput { name: name.to_owned(), input, output, invert: false }
    }

    /// Sets whether the written value is the command's negation.
    pub fn with_invert(self, invert: bool) -> (r: DigitalOutput)
        ensures
            r@ == (DigitalOutputView { invert, ..self@ }),
    {
        DigitalOutput { invert, ..self }
    }

    /// Builds a digital output from the parameters of a plant model.
    pub fn from_parameters(
        name: &str,
        input: PointId,
        output: PointId,
        parameters: &Parameters,
    ) -> (r: Result<DigitalOutput, ParameterError>)
        ensures
            match r {
                Ok(block) => spec_from_parameters(name@, input, output, parameters@) == Ok::<
                    DigitalOutputView,
                    ParameterErrorView,
                >(block@),
                Err(error) => spec_from_parameters(name@, input, output, parameters@) == Err::<
                    DigitalOutputView,
                    ParameterErrorView,
                >(error@),
            },
    {
        let invert = match params::optional_bool(name, parameters, "invert")? {
            Some(invert) => invert,
            None => false,
        };
        Ok(DigitalOutput::new(name, input, output).with_invert(invert))
    }

    /// The block's name.
    pub fn name(&self) -> (r: &str)
        ensures
            r@ == self@.name,
    {
        self.name.as_str()
    }

    /// Whether the value is negated.
    pub fn invert(&self) -> (r: bool)
        ensures
            r == self@.invert,
    {
        self.invert
    }

    /// The declared ports.
    pub fn io_requirements(&self) -> (r: Vec<IoRequirement>)
        ensures
            requirement_views(r@) == self@.requirements(),
    {
        let mut r: Vec<IoRequirement> = Vec::new();
        r.push(describe::input("in", ValueKind::Bool, self.input));
        r.push(describe::output("out", ValueKind::Bool, self.output));
        assert(requirement_views(r@) == self@.requirements());
        r
    }

    /// Runs one scan on what `in` reads.
    pub fn step(&self, command: Reading<bool>, tick: Tick) -> (r: Write)
        ensures
            r == self@.driven(command, tick),
    {
        Write::new(self.output, Value::Bool(command.value != self.invert), command.quality, tick)
    }
}

/// The output is as good as the command: never better, never worse.
pub proof fn output_keeps_the_quality(
    block: DigitalOutputView,
    command: Reading<bool>,
    tick: Tick,
)
    ensures
        block.driven(command, tick).sample.quality == command.quality,
        block.driven(command, tick).sample.quality == Quality::Good <==> command.quality
            == Quality::Good,
{
}

/// Inverting twice is not inverting: a second output in line with the same
/// setting restores the command.
pub proof fn inverting_twice_restores(
    first: DigitalOutputView,
    second: DigitalOutputView,
    value: bool,
    quality: Quality,
    tick: Tick,
)
    requires
        first.invert == second.invert,
    ensures
        ({
            let between = first.driven(Reading { value, quality }, tick).sample;
            between.value matches Value::Bool(passed) && second.driven(
                Reading { value: passed, quality: between.quality },
                tick,
            ).sample.value == Value::Bool(value)
        }),
{
}

/// Every scan drives `out`, as of this scan and with the quality of the command:
/// the command where the block does not invert, and its negation where it does.
pub proof fn scans_drive_the_command(block: DigitalOutputView, command: Reading<bool>, tick: Tick)
    ensures
        ({
            let driven = block.driven(command, tick);
            &&& driven.point == block.output && driven.sample.tick == tick
            &&& driven.sample.quality == command.quality
            &&& !block.invert ==> driven.sample.value == Value::Bool(command.value)
            &&& block.invert ==> driven.sample.value == Value::Bool(!command.value)
        }),
{
}

/// A block is built exactly where what is declared of `invert` can be read; it
/// is `false` where it is not declared. It is wired by `in` and `out`.
pub proof fn building_takes_the_declared(
    name: Seq<char>,
    input: PointId,
    output: PointId,
    parameters: Map<Seq<char>, Value>,
)
    ensures
        ({
            let built = spec_from_parameters(name, input, output, parameters);
            let invert = spec_optional_bool(name, parameters, "invert"@);
            &&& invert is Err ==> built == Err::<DigitalOutputView, ParameterErrorView>(
                invert->Err_0,
            )
            &&& invert is Ok ==> built is Ok && {
                let block = built->Ok_0;
                let ports = block.requirements();
                &&& block.name == name && block.input == input && block.output == output
                &&& block.invert == (invert->Ok_0 == Some(true))
                &&& ports.len() == 2
                &&& ports[0] == (RequirementView {
                    name: "in"@,
                    direction: describe::Direction::In,
                    kind: ValueKind::Bool,
                    point: input,
                })
                &&& ports[1] == (RequirementView {
                    name: "out"@,
                    direction: describe::Direction::Out,
                    kind: ValueKind::Bool,
                    point: output,
                })
            }
        }),
{
}

} // verus!
