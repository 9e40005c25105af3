//! Named values: the shape of parameter maps and of checkpoints.

use crate::float::Float;
use crate::text;
use crate::value::{Value, ValueKind};
use vstd::prelude::*;

verus! {

/// The value that the last entry named `key` carries.
pub open spec fn lookup(entries: Seq<(Seq<char>, Value)>, key: Seq<char>) -> Option<Value>
    decreases entries.len(),
{
    if entries.len() == 0 {
        None
    } else if entries.last().0 == key {
        Some(entries.last().1)
    } else {
        lookup(entries.drop_last(), key)
    }
}

/// The value of `key` in `fields`, where it has one.
pub open spec fn field(fields: Map<Seq<char>, Value>, key: Seq<char>) -> Option<Value> {
    if fields.dom().contains(key) {
        Some(fields[key])
    } else {
        None
    }
}

/// The first of `keys` that is not among `known`.
pub open spec fn first_unknown(keys: Seq<Seq<char>>, known: Seq<Seq<char>>) -> Option<Seq<char>>
    decreases keys.len(),
{
    if keys.len() == 0 {
        None
    } else if !known.contains(keys[0]) {
        Some(keys[0])
    } else {
        first_unknown(keys.drop_first(), known)
    }
}

/// Why a checkpoint was refused.
#[derive(Debug, Clone, PartialEq, Eq)]
pub enum StateError {
    /// A required field is absent.
    MissingField { element: String, field: String },
    /// A field that the element does not know is present.
    UnknownField { element: String, field: String },
    /// A field carries a value of another kind.
    IncompatibleField { element: String, field: String, expected: ValueKind, found: ValueKind },
    /// A field carries a value that the element cannot hold.
    InvalidValue { element: String, field: String, value: Value },
}

/// What a [`StateError`] says.
pub enum StateErrorView {
    MissingField { element: Seq<char>, field: Seq<char> },
    UnknownField { element: Seq<char>, field: Seq<char> },
    IncompatibleField {
        element: Seq<char>,
        field: Seq<char>,
        expected: ValueKind,
        found: ValueKind,
    },
    InvalidValue { element: Seq<char>, field: Seq<char>, value: Value },
}

impl View for StateError {
    type V = StateErrorView;

    open spec fn view(&self) -> StateErrorView {
        match *self {
            StateError::MissingField { element, field } => StateErrorView::MissingField {
                element: element@,
                field: field@,
            },
            StateError::UnknownField { element, field } => StateErrorView::UnknownField {
                element: element@,
                field: field@,
            },
            StateError::IncompatibleField { element, field, expected, found } =>
                StateErrorView::IncompatibleField {
                element: element@,
                field: field@,
                expected,
                found,
            },
            StateError::InvalidValue { element, field, value } => StateErrorView::InvalidValue {
                element: element@,
                field: field@,
                value,
            },
        }
    }
}

/// Whether a result carries what the specification says.
pub open spec fn agrees<T>(r: Result<T, StateError>, s: Result<T, StateErrorView>) -> bool {
    match r {
        Ok(value) => s == Ok::<T, StateErrorView>(value),
        Err(error) => s == Err::<T, StateErrorView>(error@),
    }
}

/// Named values in the order in which the names were first inserted.
#[derive(Debug, Clone, PartialEq, Eq)]
pub struct Table {
    entries: Vec<(String, Value)>,
}

/// A checkpoint.
pub type StateMap = Table;

impl View for Table {
    type V = Map<Seq<char>, Value>;

    open spec fn view(&self) -> Map<Seq<char>, Value> {
        Map::new(
            |key: Seq<char>| lookup(self.content(), key) is Some,
            |key: Seq<char>| lookup(self.content(), key)->0,
        )
    }
}

/// What an integer field holds.
pub open spec fn int_field(
    fields: Map<Seq<char>, Value>,
    element: Seq<char>,
    name: Seq<char>,
) -> Result<i64, StateErrorView> {
    match field(fields, name) {
        None => Err(StateErrorView::MissingField { element, field: name }),
        Some(Value::Int(value)) => Ok(value),
        Some(other) => Err(
            StateErrorView::IncompatibleField {
                element,
                field: name,
                expected: ValueKind::Int,
                found: other.spec_kind(),
            },
        ),
    }
}

/// What a boolean field holds.
pub open spec fn bool_field(
    fields: Map<Seq<char>, Value>,
    element: Seq<char>,
    name: Seq<char>,
) -> Result<bool, StateErrorView> {
    match field(fields, name) {
        None => Err(StateErrorView::MissingField { element, field: name }),
        Some(Value::Bool(value)) => Ok(value),
        Some(other) => Err(
            StateErrorView::IncompatibleField {
                element,
                field: name,
                expected: ValueKind::Bool,
                found: other.spec_kind(),
            },
        ),
    }
}

/// What a double field holds.
pub open spec fn float_field(
    fields: Map<Seq<char>, Value>,
    element: Seq<char>,
    name: Seq<char>,
) -> Result<Float, StateErrorView> {
    match field(fields, name) {
        None => Err(StateErrorView::MissingField { element, field: name }),
        Some(Value::Float(value)) => Ok(value),
        Some(other) => Err(
            StateErrorView::IncompatibleField {
                element,
                field: name,
                expected: ValueKind::Float,
                found: other.spec_kind(),
            },
        ),
    }
}

/// What a non-negative integer field holds.
pub open spec fn count_field(
    fields: Map<Seq<char>, Value>,
    element: Seq<char>,
    name: Seq<char>,
) -> Result<u64, StateErrorView> {
    match int_field(fields, element, name) {
        Err(error) => Err(error),
        Ok(value) => if value < 0 {
            Err(spec_invalid_value(element, name, Value::Int(value)))
        } else {
            Ok(value as u64)
        },
    }
}

/// The refusal of a value that a field cannot hold.
pub open spec fn spec_invalid_value(
    element: Seq<char>,
    name: Seq<char>,
    value: Value,
) -> StateErrorView {
    StateErrorView::InvalidValue { element, field: name, value }
}

/// What a field that may be absent holds, given how it reads when present.
pub open spec fn optional<T>(
    fields: Map<Seq<char>, Value>,
    name: Seq<char>,
    present: Result<T, StateErrorView>,
) -> Result<Option<T>, StateErrorView> {
    match field(fields, name) {
        None => Ok(None),
        Some(_) => match present {
            Ok(value) => Ok(Some(value)),
            Err(error) => Err(error),
        },
    }
}

/// The refusal of fields outside `known`.
pub open spec fn known_fields(
    keys: Seq<Seq<char>>,
    element: Seq<char>,
    known: Seq<Seq<char>>,
) -> Result<(), StateErrorView> {
    match first_unknown(keys, known) {
        Some(name) => Err(StateErrorView::UnknownField { element, field: name }),
        None => Ok(()),
    }
}

/// The refusal of a value that a field cannot hold.
pub fn invalid_value(element: &str, field: &str, value: Value) -> (r: StateError)
    ensures
        r@ == spec_invalid_value(element@, field@, value),
{
    StateError::InvalidValue { element: element.to_owned(), field: field.to_owned(), value }
}

impl Table {
    /// The entries, in order.
    pub closed spec fn content(&self) -> Seq<(Seq<char>, Value)> {
        Seq::new(
            self.entries@.len(),
            |i: int| (self.entries@[i].0@, self.entries@[i].1),
        )
    }

    /// The names, in order.
    pub open spec fn keys(&self) -> Seq<Seq<char>> {
        Seq::new(self.content().len(), |i: int| self.content()[i].0)
    }

    /// The table without entries.
    pub fn new() -> (r: Table)
        ensures
            r@ == Map::<Seq<char>, Value>::empty(),
            r.keys() == Seq::<Seq<char>>::empty(),
    {
        let r = Table { entries: Vec::new() };
        assert(r.content() == Seq::<(Seq<char>, Value)>::empty());
        assert(r@ =~= Map::<Seq<char>, Value>::empty());
        r
    }

    /// Whether the table has no entry.
    pub fn is_empty(&self) -> (r: bool)
        ensures
            r == (self.keys().len() == 0),
    {
        self.entries.len() == 0
    }

    /// The index of the last entry named `key`.
    fn find(&self, key: &str) -> (r: Option<usize>)
        ensures
            match r {
                Some(i) => i < self.content().len() && self.content()[i as int].0 == key@ && (
                forall|j: int| i < j < self.content().len() ==> self.content()[j].0 != key@)
                    && lookup(self.content(), key@) == Some(self.content()[i as int].1),
                None => lookup(self.content(), key@) is None && (forall|j: int|
                    0 <= j < self.content().len() ==> self.content()[j].0 != key@),
            },
    {
        let mut end: usize = self.entries.len();
        assert(self.content().take(end as int) == self.content());
        while end > 0
            invariant
                end <= self.entries.len(),
                self.content().len() == self.entries.len(),
                forall|j: int| end <= j < self.content().len() ==> self.content()[j].0 != key@,
                lookup(self.content(), key@) == lookup(self.content().take(end as int), key@),
            decreases end,
        {
            assert(self.content().take(end as int).drop_last() == self.content().take(end - 1));
            if text::same(self.entries[end - 1].0.as_str(), key) {
                return Some(end - 1);
            }
            end = end - 1;
        }
        None
    }

    /// The value of `key`.
    pub fn get(&self, key: &str) -> (r: Option<Value>)
        ensures
            r == field(self@, key@),
    {
        match self.find(key) {
            Some(i) => Some(self.entries[i].1),
            None => None,
        }
    }

    /// Sets the value of `key`.
    pub fn insert(&mut self, key: &str, value: Value)
        ensures
            final(self)@ == old(self)@.insert(key@, value),
            final(self).keys() == if old(self)@.dom().contains(key@) {
                old(self).keys()
            } else {
                old(self).keys().push(key@)
            },
    {
        match self.find(key) {
            Some(i) => {
                self.entries.set(i, (key.to_owned(), value));
                assert(self.content() == old(self).content().update(i as int, (key@, value)));
                assert forall|q: Seq<char>| #[trigger] lookup(self.content(), q) == if q == key@ {
                    Some(value)
                } else {
                    lookup(old(self).content(), q)
                } by {
                    lemma_lookup_update(old(self).content(), i as int, key@, value, q);
                }
                assert(self@ =~= old(self)@.insert(key@, value));
                assert(self.keys() == old(self).keys());
            },
            None => {
                self.entries.push((key.to_owned(), value));
                assert(self.content() == old(self).content().push((key@, value)));
                assert(self.content().drop_last() == old(self).content());
                assert(self@ =~= old(self)@.insert(key@, value));
                assert(self.keys() == old(self).keys().push(key@));
            },
        }
    }

    /// Takes `key` out.
    pub fn remove(&mut self, key: &str)
        ensures
            final(self)@ == old(self)@.remove(key@),
    {
        loop
            invariant
                self@.remove(key@) == old(self)@.remove(key@),
            ensures
                self@ == old(self)@.remove(key@),
            decreases self.entries.len(),
        {
            match self.find(key) {
                Some(i) => {
                    let ghost before = self.content();
                    let ghost map_before = self@;
                    self.entries.remove(i);
                    assert(self.content() == before.remove(i as int));
                    assert forall|q: Seq<char>| q != key@ implies #[trigger] lookup(
                        self.content(),
                        q,
                    ) == lookup(before, q) by {
                        lemma_lookup_remove(before, i as int, key@, q);
                    }
                    assert(self@.remove(key@) =~= map_before.remove(key@));
                },
                None => {
                    assert(self@ =~= self@.remove(key@));
                    break;
                },
            }
        }
    }

    /// Refuses a table that holds a name outside `known`.
    pub fn ensure_known_fields(&self, element: &str, known: &Vec<String>) -> (r: Result<
        (),
        StateError,
    >)
        ensures
            agrees(r, known_fields(self.keys(), element@, text::views(known@))),
    {
        let ghost names = text::views(known@);
        let mut next: usize = 0;
        assert(self.keys().skip(0) == self.keys());
        while next < self.entries.len()
            invariant
                next <= self.entries.len(),
                self.keys().len() == self.entries.len(),
                names == text::views(known@),
                first_unknown(self.keys().skip(next as int), names) == first_unknown(
                    self.keys(),
                    names,
                ),
            decreases self.entries.len() - next,
        {
            let ghost rest = self.keys().skip(next as int);
            assert(rest[0] == self.entries@[next as int].0@);
            assert(rest.drop_first() == self.keys().skip(next + 1));
            let mut found = false;
            let mut at: usize = 0;
            while at < known.len()
                invariant
                    next < self.entries.len(),
                    at <= known.len(),
                    names == text::views(known@),
                    rest[0] == self.entries@[next as int].0@,
                    found ==> names.contains(rest[0]),
                    !found ==> forall|j: int| 0 <= j < at ==> names[j] != rest[0],
                decreases known.len() - at,
            {
                if text::same(self.entries[next].0.as_str(), known[at].as_str()) {
                    assert(names[at as int] == rest[0]);
                    found = true;
                }
                at = at + 1;
            }
            if !found {
                return Err(
                    StateError::UnknownField {
                        element: element.to_owned(),
                        field: self.entries[next].0.clone(),
                    },
                );
            }
            next = next + 1;
        }
        Ok(())
    }

    /// Reads an integer field.
    pub fn require_i64(&self, element: &str, name: &str) -> (r: Result<i64, StateError>)
        ensures
            agrees(r, int_field(self@, element@, name@)),
    {
        match self.get(name) {
            None => Err(
                StateError::MissingField { element: element.to_owned(), field: name.to_owned() },
            ),
            Some(Value::Int(value)) => Ok(value),
            Some(other) => Err(
                StateError::IncompatibleField {
                    element: element.to_owned(),
                    field: name.to_owned(),
                    expected: ValueKind::Int,
                    found: other.kind(),
                },
            ),
        }
    }

    /// Reads a boolean field.
    pub fn require_bool(&self, element: &str, name: &str) -> (r: Result<bool, StateError>)
        ensures
            agrees(r, bool_field(self@, element@, name@)),
    {
        match self.get(name) {
            None => Err(
                StateError::MissingField { element: element.to_owned(), field: name.to_owned() },
            ),
            Some(Value::Bool(value)) => Ok(value),
            Some(other) => Err(
                StateError::IncompatibleField {
                    element: element.to_owned(),
                    field: name.to_owned(),
                    expected: ValueKind::Bool,
                    found: other.kind(),
                },
            ),
        }
    }

    /// Reads a double field.
    pub fn require_f64(&self, element: &str, name: &str) -> (r: Result<Float, StateError>)
        ensures
            agrees(r, float_field(self@, element@, name@)),
    {
        match self.get(name) {
            None => Err(
                StateError::MissingField { element: element.to_owned(), field: name.to_owned() },
            ),
            Some(Value::Float(value)) => Ok(value),
            Some(other) => Err(
                StateError::IncompatibleField {
                    element: element.to_owned(),
                    field: name.to_owned(),
                    expected: ValueKind::Float,
                    found: other.kind(),
                },
            ),
        }
    }

    /// Reads a non-negative integer field.
    pub fn require_count(&self, element: &str, name: &str) -> (r: Result<u64, StateError>)
        ensures
            agrees(r, count_field(self@, element@, name@)),
            r matches Ok(value) ==> value <= i64::MAX,
    {
        let value: i64 = self.require_i64(element, name)?;
        if value < 0 {
            return Err(invalid_value(element, name, Value::Int(value)));
        }
        Ok(value as u64)
    }

    /// Reads an integer field that may be absent.
    pub fn optional_i64(&self, element: &str, name: &str) -> (r: Result<Option<i64>, StateError>)
        ensures
            agrees(r, optional(self@, name@, int_field(self@, element@, name@))),
    {
        match self.get(name) {
            None => Ok(None),
            Some(_) => match self.require_i64(element, name) {
                Ok(value) => Ok(Some(value)),
                Err(error) => Err(error),
            },
        }
    }

    /// Reads a boolean field that may be absent.
    pub fn optional_bool(&self, element: &str, name: &str) -> (r: Result<
        Option<bool>,
        StateError,
    >)
        ensures
            agrees(r, optional(self@, name@, bool_field(self@, element@, name@))),
    {
        match self.get(name) {
            None => Ok(None),
            Some(_) => match self.require_bool(element, name) {
                Ok(value) => Ok(Some(value)),
                Err(error) => Err(error),
            },
        }
    }

    /// Reads a double field that may be absent.
    pub fn optional_f64(&self, element: &str, name: &str) -> (r: Result<
        Option<Float>,
        StateError,
    >)
        ensures
            agrees(r, optional(self@, name@, float_field(self@, element@, name@))),
    {
        match self.get(name) {
            None => Ok(None),
            Some(_) => match self.require_f64(element, name) {
                Ok(value) => Ok(Some(value)),
                Err(error) => Err(error),
            },
        }
    }
}

proof fn lemma_lookup_update(
    entries: Seq<(Seq<char>, Value)>,
    i: int,
    key: Seq<char>,
    value: Value,
    q: Seq<char>,
)
    requires
        0 <= i < entries.len(),
        entries[i].0 == key,
        forall|j: int| i < j < entries.len() ==> entries[j].0 != key,
    ensures
        lookup(entries.update(i, (key, value)), q) == if q == key {
            Some(value)
        } else {
            lookup(entries, q)
        },
    decreases entries.len(),
{
    let after = entries.update(i, (key, value));
    if i == entries.len() - 1 {
        assert(after.drop_last() == entries.drop_last());
    } else {
        assert(after.drop_last() == entries.drop_last().update(i, (key, value)));
        lemma_lookup_update(entries.drop_last(), i, key, value, q);
    }
}

proof fn lemma_lookup_remove(
    entries: Seq<(Seq<char>, Value)>,
    i: int,
    key: Seq<char>,
    q: Seq<char>,
)
    requires
        0 <= i < entries.len(),
        entries[i].0 == key,
        q != key,
    ensures
        lookup(entries.remove(i), q) == lookup(entries, q),
    decreases entries.len(),
{
    let after = entries.remove(i);
    if i == entries.len() - 1 {
        assert(after == entries.drop_last());
    } else {
        assert(after.drop_last() == entries.drop_last().remove(i));
        lemma_lookup_remove(entries.drop_last(), i, key, q);
    }
}

proof fn lemma_key_present(entries: Seq<(Seq<char>, Value)>, i: int)
    requires
        0 <= i < entries.len(),
    ensures
        lookup(entries, entries[i].0) is Some,
    decreases entries.len(),
{
    if i < entries.len() - 1 {
        lemma_key_present(entries.drop_last(), i);
    }
}

proof fn lemma_all_known(keys: Seq<Seq<char>>, known: Seq<Seq<char>>)
    requires
        forall|i: int| 0 <= i < keys.len() ==> known.contains(#[trigger] keys[i]),
    ensures
        first_unknown(keys, known) is None,
    decreases keys.len(),
{
    if keys.len() > 0 {
        assert(known.contains(keys[0]));
        assert forall|i: int| 0 <= i < keys.drop_first().len() implies known.contains(
            #[trigger] keys.drop_first()[i],
        ) by {
            assert(keys.drop_first()[i] == keys[i + 1]);
        }
        lemma_all_known(keys.drop_first(), known);
    }
}

/// A table whose names are all known is not refused for one of them.
pub proof fn known_names_pass(table: Table, element: Seq<char>, known: Seq<Seq<char>>)
    requires
        forall|key: Seq<char>| #[trigger] table@.dom().contains(key) ==> known.contains(key),
    ensures
        known_fields(table.keys(), element, known) == Ok::<(), StateErrorView>(()),
{
    assert forall|i: int| 0 <= i < table.keys().len() implies known.contains(
        #[trigger] table.keys()[i],
    ) by {
        lemma_key_present(table.content(), i);
        assert(table@.dom().contains(table.keys()[i]));
    }
    lemma_all_known(table.keys(), known);
}

/// What a field reads as: the value it holds, where that is of the asked
/// kind. One of another kind is refused as incompatible, with both kinds, an
/// absent one as missing, and a negative count as invalid.
pub proof fn fields_read_as_they_hold(
    fields: Map<Seq<char>, Value>,
    element: Seq<char>,
    name: Seq<char>,
)
    ensures
        ({
            let missing = StateErrorView::MissingField { element, field: name };
            let as_int = int_field(fields, element, name);
            let as_bool = bool_field(fields, element, name);
            let as_float = float_field(fields, element, name);
            let as_count = count_field(fields, element, name);
            if !fields.dom().contains(name) {
                &&& as_int == Err::<i64, StateErrorView>(missing)
                &&& as_bool == Err::<bool, StateErrorView>(missing)
                &&& as_float == Err::<Float, StateErrorView>(missing)
                &&& as_count == Err::<u64, StateErrorView>(missing)
            } else {
                &&& match fields[name] {
                    Value::Int(n) => {
                        &&& as_int == Ok::<i64, StateErrorView>(n)
                        &&& n >= 0 ==> (as_count matches Ok(found) && found == n)
                        &&& n < 0 ==> as_count == Err::<u64, StateErrorView>(
                            StateErrorView::InvalidValue {
                                element,
                                field: name,
                                value: fields[name],
                            },
                        )
                    },
                    Value::Bool(b) => as_bool == Ok::<bool, StateErrorView>(b),
                    Value::Float(f) => as_float == Ok::<Float, StateErrorView>(f),
                }
                &&& !(fields[name] is Int) ==> as_int == Err::<i64, StateErrorView>(
                    StateErrorView::IncompatibleField {
                        element,
                        field: name,
                        expected: ValueKind::Int,
                        found: fields[name].spec_kind(),
                    },
                )
                &&& !(fields[name] is Int) ==> (as_int matches Err(error) && as_count == Err::<
                    u64,
                    StateErrorView,
                >(error))
                &&& !(fields[name] is Bool) ==> as_bool == Err::<bool, StateErrorView>(
                    StateErrorView::IncompatibleField {
                        element,
                        field: name,
                        expected: ValueKind::Bool,
                        found: fields[name].spec_kind(),
                    },
                )
                &&& !(fields[name] is Float) ==> as_float == Err::<Float, StateErrorView>(
                    StateErrorView::IncompatibleField {
                        element,
                        field: name,
                        expected: ValueKind::Float,
                        found: fields[name].spec_kind(),
                    },
                )
            }
        }),
{
}

/// A field that may be absent reads as nothing where it is not there, and
/// otherwise as it would if it had to be.
pub proof fn absent_fields_read_as_nothing<T>(
    fields: Map<Seq<char>, Value>,
    name: Seq<char>,
    present: Result<T, StateErrorView>,
)
    ensures
        !fields.dom().contains(name) ==> optional(fields, name, present) == Ok::<
            Option<T>,
            StateErrorView,
        >(None),
        fields.dom().contains(name) ==> match present {
            Ok(value) => optional(fields, name, present) == Ok::<Option<T>, StateErrorView>(
                Some(value),
            ),
            Err(error) => optional(fields, name, present) == Err::<Option<T>, StateErrorView>(
                error,
            ),
        },
{
}

/// Names outside the known ones are refused, by the first of them in the
/// table's order; a table that holds only known names passes.
pub proof fn unknown_names_are_refused(
    keys: Seq<Seq<char>>,
    element: Seq<char>,
    known: Seq<Seq<char>>,
    i: int,
)
    ensures
        known_fields(keys, element, known) is Ok <==> forall|k: int|
            0 <= k < keys.len() ==> known.contains(#[trigger] keys[k]),
        0 <= i < keys.len() && !known.contains(keys[i]) && (forall|k: int|
            0 <= k < i ==> known.contains(#[trigger] keys[k])) ==> known_fields(
            keys,
            element,
            known,
        ) == Err::<(), StateErrorView>(StateErrorView::UnknownField { element, field: keys[i] }),
    decreases keys.len(),
{
    if keys.len() > 0 && known.contains(keys[0]) {
        let rest = keys.drop_first();
        unknown_names_are_refused(rest, element, known, i - 1);
        assert forall|k: int| 0 <= k < rest.len() implies rest[k] == #[trigger] keys[k + 1] by {}
        assert forall|k: int| 1 <= k < keys.len() implies #[trigger] keys[k] == rest[k - 1] by {}
        if forall|k: int| 0 <= k < rest.len() ==> known.contains(#[trigger] rest[k]) {
            assert forall|k: int| 0 <= k < keys.len() implies known.contains(
                #[trigger] keys[k],
            ) by {
                if k > 0 {
                    assert(known.contains(rest[k - 1]));
                }
            }
        }
        if forall|k: int| 0 <= k < keys.len() ==> known.contains(#[trigger] keys[k]) {
            assert forall|k: int| 0 <= k < rest.len() implies known.contains(
                #[trigger] rest[k],
            ) by {
                assert(known.contains(keys[k + 1]));
            }
        }
        if 0 < i < keys.len() && !known.contains(keys[i]) && (forall|k: int|
            0 <= k < i ==> known.contains(#[trigger] keys[k])) {
            assert forall|k: int| 0 <= k < i - 1 implies known.contains(#[trigger] rest[k]) by {
                assert(known.contains(keys[k + 1]));
            }
        }
    }
}

/// A checkpoint that is taken over holds no name outside the known ones.
pub proof fn tables_pass_with_known_names(
    table: Table,
    element: Seq<char>,
    known: Seq<Seq<char>>,
    name: Seq<char>,
)
    requires
        known_fields(table.keys(), element, known) is Ok,
        table@.dom().contains(name),
    ensures
        known.contains(name),
{
    unknown_names_are_refused(table.keys(), element, known, 0);
    let at = lemma_found(table.content(), name);
    assert(table.keys()[at] == name);
}

proof fn lemma_found(entries: Seq<(Seq<char>, Value)>, name: Seq<char>) -> (at: int)
    requires
        lookup(entries, name) is Some,
    ensures
        0 <= at < entries.len(),
        entries[at].0 == name,
        entries[at].1 == lookup(entries, name)->0,
        forall|k: int| at < k < entries.len() ==> (#[trigger] entries[k]).0 != name,
    decreases entries.len(),
{
    if entries.last().0 == name {
        entries.len() - 1
    } else {
        let found = lemma_found(entries.drop_last(), name);
        assert forall|k: int| found < k < entries.len() implies (#[trigger] entries[k]).0
            != name by {
            if k < entries.len() - 1 {
                assert(entries.drop_last()[k] == entries[k]);
            }
        }
        found
    }
}

} // verus!
