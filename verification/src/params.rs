//! Reading a block's parameters, when it is built and when it is retuned.

use crate::float::{integers_convert_exactly, Float};
use crate::table::{field, Table};
use crate::value::{Value, ValueKind};
use vstd::prelude::*;

verus! {

/// The parameters a plant model declares for one component.
pub type Parameters = Table;

/// Why a component could not be built.
#[derive(Debug, Clone, PartialEq, Eq)]
pub enum ParameterError {
    /// A required parameter is absent.
    Missing { component: String, parameter: String },
    /// A parameter carries a value that the component cannot run under.
    Invalid { component: String, parameter: String, detail: String },
}

/// What a [`ParameterError`] says.
pub enum ParameterErrorView {
    Missing { component: Seq<char>, parameter: Seq<char> },
    Invalid { component: Seq<char>, parameter: Seq<char>, detail: Seq<char> },
}

impl View for ParameterError {
    type V = ParameterErrorView;

    open spec fn view(&self) -> ParameterErrorView {
        match *self {
            ParameterError::Missing { component, parameter } => ParameterErrorView::Missing {
                component: component@,
                parameter: parameter@,
            },
            ParameterError::Invalid { component, parameter, detail } =>
                ParameterErrorView::Invalid {
                component: component@,
                parameter: parameter@,
                detail: detail@,
            },
        }
    }
}

/// Whether a result carries what the specification says.
pub open spec fn agrees<T>(r: Result<T, ParameterError>, s: Result<T, ParameterErrorView>) -> bool {
    match r {
        Ok(value) => s == Ok::<T, ParameterErrorView>(value),
        Err(error) => s == Err::<T, ParameterErrorView>(error@),
    }
}

/// Why a retune was refused.
#[derive(Debug, Clone, PartialEq, Eq)]
pub enum CommandError {
    /// The component declares no such parameter.
    UnknownParameter { component: String, parameter: String },
    /// The value is of a kind that the parameter cannot take.
    ParameterTypeMismatch {
        component: String,
        parameter: String,
        expected: ValueKind,
        found: ValueKind,
    },
    /// The component cannot run under the value.
    InvalidParameter { component: String, parameter: String, detail: String },
}

/// What a [`CommandError`] says.
pub enum CommandErrorView {
    UnknownParameter { component: Seq<char>, parameter: Seq<char> },
    ParameterTypeMismatch {
        component: Seq<char>,
        parameter: Seq<char>,
        expected: ValueKind,
        found: ValueKind,
    },
    InvalidParameter { component: Seq<char>, parameter: Seq<char>, detail: Seq<char> },
}

impl View for CommandError {
    type V = CommandErrorView;

    open spec fn view(&self) -> CommandErrorView {
        match *self {
            CommandError::UnknownParameter { component, parameter } =>
                CommandErrorView::UnknownParameter {
                component: component@,
                parameter: parameter@,
            },
            CommandError::ParameterTypeMismatch { component, parameter, expected, found } =>
                CommandErrorView::ParameterTypeMismatch {
                component: component@,
                parameter: parameter@,
                expected,
                found,
            },
            CommandError::InvalidParameter { component, parameter, detail } =>
                CommandErrorView::InvalidParameter {
                component: component@,
                parameter: parameter@,
                detail: detail@,
            },
        }
    }
}

/// Whether a retune's result carries what the specification says.
pub open spec fn tuned<T>(r: Result<T, CommandError>, s: Result<T, CommandErrorView>) -> bool {
    match r {
        Ok(value) => s == Ok::<T, CommandErrorView>(value),
        Err(error) => s == Err::<T, CommandErrorView>(error@),
    }
}

/// The refusal to build a component under a value.
pub open spec fn spec_invalid(
    component: Seq<char>,
    parameter: Seq<char>,
    detail: Seq<char>,
) -> ParameterErrorView {
    ParameterErrorView::Invalid { component, parameter, detail }
}

/// The refusal to run under a value.
pub open spec fn spec_invalid_parameter(
    component: Seq<char>,
    parameter: Seq<char>,
    detail: Seq<char>,
) -> CommandErrorView {
    CommandErrorView::InvalidParameter { component, parameter, detail }
}

/// The refusal of an undeclared parameter.
pub open spec fn spec_unknown_parameter(
    component: Seq<char>,
    parameter: Seq<char>,
) -> CommandErrorView {
    CommandErrorView::UnknownParameter { component, parameter }
}

/// The non-negative integer that `value` is: an `Int`, or a `Float` that is
/// one exactly.
pub open spec fn as_count(value: Value) -> Option<u64> {
    match value {
        Value::Int(n) => if n >= 0 {
            Some(n as u64)
        } else {
            None
        },
        Value::Float(f) => f.as_u64(),
        Value::Bool(_) => None,
    }
}

/// The double that `value` is: a `Float`, or an `Int` that is one exactly.
pub open spec fn as_double(value: Value) -> Option<Float> {
    match value {
        Value::Float(f) => Some(f),
        Value::Int(n) => Float::of_integer(n as int),
        Value::Bool(_) => None,
    }
}

/// The truth value that `value` is: a `Bool`, or an `Int` that is 0 or 1.
pub open spec fn as_flag(value: Value) -> Option<bool> {
    match value {
        Value::Bool(b) => Some(b),
        Value::Int(n) => if n == 0 {
            Some(false)
        } else if n == 1 {
            Some(true)
        } else {
            None
        },
        Value::Float(_) => None,
    }
}

/// What a required parameter reads as, given how its value converts.
pub open spec fn required<T>(
    component: Seq<char>,
    parameters: Map<Seq<char>, Value>,
    key: Seq<char>,
    convert: spec_fn(Value) -> Option<T>,
    detail: Seq<char>,
) -> Result<T, ParameterErrorView> {
    match field(parameters, key) {
        None => Err(ParameterErrorView::Missing { component, parameter: key }),
        Some(value) => match convert(value) {
            Some(converted) => Ok(converted),
            None => Err(spec_invalid(component, key, detail)),
        },
    }
}

/// What a parameter that may be absent reads as.
pub open spec fn optional<T>(
    component: Seq<char>,
    parameters: Map<Seq<char>, Value>,
    key: Seq<char>,
    convert: spec_fn(Value) -> Option<T>,
    detail: Seq<char>,
) -> Result<Option<T>, ParameterErrorView> {
    match field(parameters, key) {
        None => Ok(None),
        Some(value) => match convert(value) {
            Some(converted) => Ok(Some(converted)),
            None => Err(spec_invalid(component, key, detail)),
        },
    }
}

/// What a required non-negative integer parameter reads as.
pub open spec fn spec_required_u64(
    component: Seq<char>,
    parameters: Map<Seq<char>, Value>,
    key: Seq<char>,
) -> Result<u64, ParameterErrorView> {
    required(
        component,
        parameters,
        key,
        |value: Value| as_count(value),
        "must be a non-negative integer"@,
    )
}

/// What a non-negative integer parameter that may be absent reads as.
pub open spec fn spec_optional_u64(
    component: Seq<char>,
    parameters: Map<Seq<char>, Value>,
    key: Seq<char>,
) -> Result<Option<u64>, ParameterErrorView> {
    optional(
        component,
        parameters,
        key,
        |value: Value| as_count(value),
        "must be a non-negative integer"@,
    )
}

/// What a required double parameter reads as.
pub open spec fn spec_required_f64(
    component: Seq<char>,
    parameters: Map<Seq<char>, Value>,
    key: Seq<char>,
) -> Result<Float, ParameterErrorView> {
    required(
        component,
        parameters,
        key,
        |value: Value| as_double(value),
        "must be a number that a double holds exactly"@,
    )
}

/// What a double parameter that may be absent reads as.
pub open spec fn spec_optional_f64(
    component: Seq<char>,
    parameters: Map<Seq<char>, Value>,
    key: Seq<char>,
) -> Result<Option<Float>, ParameterErrorView> {
    optional(
        component,
        parameters,
        key,
        |value: Value| as_double(value),
        "must be a number that a double holds exactly"@,
    )
}

/// What a truth-valued parameter that may be absent reads as.
pub open spec fn spec_optional_bool(
    component: Seq<char>,
    parameters: Map<Seq<char>, Value>,
    key: Seq<char>,
) -> Result<Option<bool>, ParameterErrorView> {
    optional(component, parameters, key, |value: Value| as_flag(value), "must be a Bool, 0 or 1"@)
}

/// What a retuned non-negative integer reads as: a `Bool` is of the wrong
/// kind, a negative or fractional number is refused.
pub open spec fn spec_tune_u64(component: Seq<char>, parameter: Seq<char>, value: Value) -> Result<
    u64,
    CommandErrorView,
> {
    match as_count(value) {
        Some(n) => Ok(n),
        None => match value {
            Value::Bool(_) => Err(
                CommandErrorView::ParameterTypeMismatch {
                    component,
                    parameter,
                    expected: ValueKind::Int,
                    found: ValueKind::Bool,
                },
            ),
            _ => Err(
                spec_invalid_parameter(component, parameter, "must be a non-negative integer"@),
            ),
        },
    }
}

/// What a retuned double reads as: a `Bool` is of the wrong kind, an `Int`
/// that no double holds exactly is refused.
pub open spec fn spec_tune_f64(component: Seq<char>, parameter: Seq<char>, value: Value) -> Result<
    Float,
    CommandErrorView,
> {
    match as_double(value) {
        Some(f) => Ok(f),
        None => match value {
            Value::Bool(_) => Err(
                CommandErrorView::ParameterTypeMismatch {
                    component,
                    parameter,
                    expected: ValueKind::Float,
                    found: ValueKind::Bool,
                },
            ),
            _ => Err(
                spec_invalid_parameter(
                    component,
                    parameter,
                    "must be a number that a double holds exactly"@,
                ),
            ),
        },
    }
}

/// Refuses to build a component under a value.
pub fn invalid(component: &str, parameter: &str, detail: &str) -> (r: ParameterError)
    ensures
        r@ == spec_invalid(component@, parameter@, detail@),
{
    ParameterError::Invalid {
        component: component.to_owned(),
        parameter: parameter.to_owned(),
        detail: detail.to_owned(),
    }
}

/// Reports an absent parameter.
pub fn missing(component: &str, parameter: &str) -> (r: ParameterError)
    ensures
        r@ == (ParameterErrorView::Missing { component: component@, parameter: parameter@ }),
{
    ParameterError::Missing { component: component.to_owned(), parameter: parameter.to_owned() }
}

/// Refuses to run under a value.
pub fn invalid_parameter(component: &str, parameter: &str, detail: &str) -> (r: CommandError)
    ensures
        r@ == spec_invalid_parameter(component@, parameter@, detail@),
{
    CommandError::InvalidParameter {
        component: component.to_owned(),
        parameter: parameter.to_owned(),
        detail: detail.to_owned(),
    }
}

/// Refuses an undeclared parameter.
pub fn unknown_parameter(component: &str, parameter: &str) -> (r: CommandError)
    ensures
        r@ == spec_unknown_parameter(component@, parameter@),
{
    CommandError::UnknownParameter {
        component: component.to_owned(),
        parameter: parameter.to_owned(),
    }
}

/// A parameter's integer as the code it selects by: the integer itself, or
/// -1, which selects nothing, where it is too large for a code.
pub fn code_of(n: u64) -> (r: i64)
    ensures
        r == if n <= i64::MAX {
            n as int
        } else {
            -1
        },
{
    if n <= i64::MAX as u64 {
        n as i64
    } else {
        -1
    }
}

/// The non-negative integer that `value` is.
fn count_of(value: Value) -> (r: Option<u64>)
    ensures
        r == as_count(value),
{
    match value {
        Value::Int(n) => if n >= 0 {
            Some(n as u64)
        } else {
            None
        },
        Value::Float(f) => f.to_u64(),
        Value::Bool(_) => None,
    }
}

/// The double that `value` is.
fn double_of(value: Value) -> (r: Option<Float>)
    ensures
        r == as_double(value),
{
    match value {
        Value::Float(f) => Some(f),
        Value::Int(n) => Float::from_i64(n),
        Value::Bool(_) => None,
    }
}

/// The truth value that `value` is.
fn flag_of(value: Value) -> (r: Option<bool>)
    ensures
        r == as_flag(value),
{
    match value {
        Value::Bool(b) => Some(b),
        Value::Int(n) => if n == 0 {
            Some(false)
        } else if n == 1 {
            Some(true)
        } else {
            None
        },
        Value::Float(_) => None,
    }
}

/// Reads a non-negative integer that may be absent.
pub fn optional_u64(component: &str, parameters: &Parameters, key: &str) -> (r: Result<
    Option<u64>,
    ParameterError,
>)
    ensures
        agrees(r, spec_optional_u64(component@, parameters@, key@)),
{
    match parameters.get(key) {
        None => Ok(None),
        Some(value) => match count_of(value) {
            Some(n) => Ok(Some(n)),
            None => Err(invalid(component, key, "must be a non-negative integer")),
        },
    }
}

/// Reads a required non-negative integer.
pub fn required_u64(component: &str, parameters: &Parameters, key: &str) -> (r: Result<
    u64,
    ParameterError,
>)
    ensures
        agrees(r, spec_required_u64(component@, parameters@, key@)),
{
    match optional_u64(component, parameters, key) {
        Ok(Some(n)) => Ok(n),
        Ok(None) => Err(missing(component, key)),
        Err(error) => Err(error),
    }
}

/// Reads a double that may be absent.
pub fn optional_f64(component: &str, parameters: &Parameters, key: &str) -> (r: Result<
    Option<Float>,
    ParameterError,
>)
    ensures
        agrees(r, spec_optional_f64(component@, parameters@, key@)),
{
    match parameters.get(key) {
        None => Ok(None),
        Some(value) => match double_of(value) {
            Some(f) => Ok(Some(f)),
            None => Err(invalid(component, key, "must be a number that a double holds exactly")),
        },
    }
}

/// Reads a required double.
pub fn required_f64(component: &str, parameters: &Parameters, key: &str) -> (r: Result<
    Float,
    ParameterError,
>)
    ensures
        agrees(r, spec_required_f64(component@, parameters@, key@)),
{
    match optional_f64(component, parameters, key) {
        Ok(Some(f)) => Ok(f),
        Ok(None) => Err(missing(component, key)),
        Err(error) => Err(error),
    }
}

/// Reads a truth value that may be absent.
pub fn optional_bool(component: &str, parameters: &Parameters, key: &str) -> (r: Result<
    Option<bool>,
    ParameterError,
>)
    ensures
        agrees(r, spec_optional_bool(component@, parameters@, key@)),
{
    match parameters.get(key) {
        None => Ok(None),
        Some(value) => match flag_of(value) {
            Some(b) => Ok(Some(b)),
            None => Err(invalid(component, key, "must be a Bool, 0 or 1")),
        },
    }
}

/// Reads a retuned non-negative integer.
pub fn tune_u64(component: &str, parameter: &str, value: Value) -> (r: Result<u64, CommandError>)
    ensures
        tuned(r, spec_tune_u64(component@, parameter@, value)),
{
    match count_of(value) {
        Some(n) => Ok(n),
        None => match value {
            Value::Bool(_) => Err(
                CommandError::ParameterTypeMismatch {
                    component: component.to_owned(),
                    parameter: parameter.to_owned(),
                    expected: ValueKind::Int,
                    found: ValueKind::Bool,
                },
            ),
            _ => Err(invalid_parameter(component, parameter, "must be a non-negative integer")),
        },
    }
}

/// Reads a retuned double.
pub fn tune_f64(component: &str, parameter: &str, value: Value) -> (r: Result<Float, CommandError>)
    ensures
        tuned(r, spec_tune_f64(component@, parameter@, value)),
{
    match double_of(value) {
        Some(f) => Ok(f),
        None => match value {
            Value::Bool(_) => Err(
                CommandError::ParameterTypeMismatch {
                    component: component.to_owned(),
                    parameter: parameter.to_owned(),
                    expected: ValueKind::Float,
                    found: ValueKind::Bool,
                },
            ),
            _ => Err(
                invalid_parameter(
                    component,
                    parameter,
                    "must be a number that a double holds exactly",
                ),
            ),
        },
    }
}

/// What a declared parameter reads as. An `Int` reads as the count it is, a
/// `Float` only where it is one exactly; a negative or fractional number and
/// a `Bool` are refused, and an absent parameter is missing.
pub proof fn counts_are_read_exactly(
    component: Seq<char>,
    parameters: Map<Seq<char>, Value>,
    key: Seq<char>,
    count: u64,
)
    ensures
        ({
            let read = spec_required_u64(component, parameters, key);
            let refusal = Err::<u64, ParameterErrorView>(
                ParameterErrorView::Invalid {
                    component,
                    parameter: key,
                    detail: "must be a non-negative integer"@,
                },
            );
            &&& !parameters.dom().contains(key) ==> read == Err::<u64, ParameterErrorView>(
                ParameterErrorView::Missing { component, parameter: key },
            )
            &&& parameters.dom().contains(key) ==> match parameters[key] {
                Value::Bool(_) => read == refusal,
                Value::Int(n) => if n < 0 {
                    read == refusal
                } else {
                    read matches Ok(found) && found == n
                },
                Value::Float(f) => {
                    &&& read == Ok::<u64, ParameterErrorView>(count) <==> f.is_integer(count as int)
                    &&& read is Err ==> read == refusal
                },
            }
        }),
{
    if parameters.dom().contains(key) {
        if let Value::Float(f) = parameters[key] {
            integers_convert_exactly(f, count, 0);
        }
    }
}

/// What a declared double reads as: a `Float` as it is, whatever it is, and an
/// `Int` as the double that is exactly that number, where there is one. A
/// `Bool` is refused, and an absent parameter is missing.
pub proof fn doubles_are_read_exactly(
    component: Seq<char>,
    parameters: Map<Seq<char>, Value>,
    key: Seq<char>,
    double: Float,
)
    ensures
        ({
            let read = spec_required_f64(component, parameters, key);
            let refusal = Err::<Float, ParameterErrorView>(
                ParameterErrorView::Invalid {
                    component,
                    parameter: key,
                    detail: "must be a number that a double holds exactly"@,
                },
            );
            &&& !parameters.dom().contains(key) ==> read == Err::<Float, ParameterErrorView>(
                ParameterErrorView::Missing { component, parameter: key },
            )
            &&& parameters.dom().contains(key) ==> match parameters[key] {
                Value::Bool(_) => read == refusal,
                Value::Float(f) => read == Ok::<Float, ParameterErrorView>(f),
                Value::Int(n) => {
                    &&& read == Ok::<Float, ParameterErrorView>(double) <==> double.is_integer(
                        n as int,
                    ) && double.bits != 0x8000_0000_0000_0000
                    &&& read is Err ==> read == refusal
                },
            }
        }),
{
    if parameters.dom().contains(key) {
        if let Value::Int(n) = parameters[key] {
            integers_convert_exactly(double, 0, n as int);
        }
    }
}

/// A parameter that may be absent reads as a required one does where it is
/// there, and as nothing where it is not. A truth value is a `Bool`, or an
/// `Int` that is 0 or 1; anything else is refused.
pub proof fn absent_parameters_read_as_nothing(
    component: Seq<char>,
    parameters: Map<Seq<char>, Value>,
    key: Seq<char>,
)
    ensures
        ({
            let count = spec_optional_u64(component, parameters, key);
            let double = spec_optional_f64(component, parameters, key);
            let flag = spec_optional_bool(component, parameters, key);
            if !parameters.dom().contains(key) {
                &&& count == Ok::<Option<u64>, ParameterErrorView>(None)
                &&& double == Ok::<Option<Float>, ParameterErrorView>(None)
                &&& flag == Ok::<Option<bool>, ParameterErrorView>(None)
            } else {
                &&& match spec_required_u64(component, parameters, key) {
                    Ok(n) => count == Ok::<Option<u64>, ParameterErrorView>(Some(n)),
                    Err(error) => count == Err::<Option<u64>, ParameterErrorView>(error),
                }
                &&& match spec_required_f64(component, parameters, key) {
                    Ok(f) => double == Ok::<Option<Float>, ParameterErrorView>(Some(f)),
                    Err(error) => double == Err::<Option<Float>, ParameterErrorView>(error),
                }
                &&& match parameters[key] {
                    Value::Bool(b) => flag == Ok::<Option<bool>, ParameterErrorView>(Some(b)),
                    Value::Int(0) => flag == Ok::<Option<bool>, ParameterErrorView>(Some(false)),
                    Value::Int(1) => flag == Ok::<Option<bool>, ParameterErrorView>(Some(true)),
                    _ => flag == Err::<Option<bool>, ParameterErrorView>(
                        ParameterErrorView::Invalid {
                            component,
                            parameter: key,
                            detail: "must be a Bool, 0 or 1"@,
                        },
                    ),
                }
            }
        }),
{
}

/// What a retuned value reads as: what a declared one does, except that a
/// `Bool` is refused as one of the wrong kind.
pub proof fn retunes_read_as_the_declared(
    component: Seq<char>,
    parameter: Seq<char>,
    value: Value,
    count: u64,
    double: Float,
)
    ensures
        ({
            let as_integer = spec_tune_u64(component, parameter, value);
            let as_number = spec_tune_f64(component, parameter, value);
            let no_integer = Err::<u64, CommandErrorView>(
                CommandErrorView::InvalidParameter {
                    component,
                    parameter,
                    detail: "must be a non-negative integer"@,
                },
            );
            let no_double = Err::<Float, CommandErrorView>(
                CommandErrorView::InvalidParameter {
                    component,
                    parameter,
                    detail: "must be a number that a double holds exactly"@,
                },
            );
            match value {
                Value::Bool(_) => {
                    &&& as_integer == Err::<u64, CommandErrorView>(
                        CommandErrorView::ParameterTypeMismatch {
                            component,
                            parameter,
                            expected: ValueKind::Int,
                            found: ValueKind::Bool,
                        },
                    )
                    &&& as_number == Err::<Float, CommandErrorView>(
                        CommandErrorView::ParameterTypeMismatch {
                            component,
                            parameter,
                            expected: ValueKind::Float,
                            found: ValueKind::Bool,
                        },
                    )
                },
                Value::Int(n) => {
                    &&& n < 0 ==> as_integer == no_integer
                    &&& n >= 0 ==> (as_integer matches Ok(found) && found == n)
                    &&& as_number == Ok::<Float, CommandErrorView>(double) <==> double.is_integer(
                        n as int,
                    ) && double.bits != 0x8000_0000_0000_0000
                    &&& as_number is Err ==> as_number == no_double
                },
                Value::Float(f) => {
                    &&& as_integer == Ok::<u64, CommandErrorView>(count) <==> f.is_integer(
                        count as int,
                    )
                    &&& as_integer is Err ==> as_integer == no_integer
                    &&& as_number == Ok::<Float, CommandErrorView>(f)
                },
            }
        }),
{
    match value {
        Value::Float(f) => integers_convert_exactly(f, count, 0),
        Value::Int(n) => integers_convert_exactly(double, 0, n as int),
        Value::Bool(_) => {},
    }
}

} // verus!
