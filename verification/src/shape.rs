//! What a caller asks for, and what decoding hands back.

use vstd::prelude::*;
use crate::text::same_text;

verus! {

/// What becomes of a pair whose name is no field of the record.
#[derive(Debug, Clone, Copy, PartialEq, Eq)]
pub enum UnknownFields {
    /// The pair is read and dropped.
    Skip,
    /// Decoding fails at the pair.
    Reject,
}

/// The shape of a value to decode.
#[derive(Debug, PartialEq, Eq)]
pub enum Shape {
    /// The value of the pair, as it stands.
    Str,
    /// The value of the pair, read as "true" or "false".
    Bool,
    /// The name of the pair, as it stands.
    Identifier,
    /// Any other primitive: the value of the pair is handed over as text,
    /// and the caller reads a number or the like out of it.
    Any,
    /// Absent where the value of the pair is empty, else the inner shape
    /// read from the same pair.
    Optional(Box<Shape>),
    /// A record whose fields are filled from the pairs that follow.
    Record(Record),
}

/// A record: its fields in order, and what to do with other pairs.
#[derive(Debug, PartialEq, Eq)]
pub struct Record {
    pub fields: Vec<Field>,
    pub unknown: UnknownFields,
}

/// One field of a record. A pair supplies the field when its name is the
/// field's name, character for character.
#[derive(Debug, PartialEq, Eq)]
pub struct Field {
    pub name: String,
    pub shape: Shape,
}

/// A decoded value.
#[derive(Debug, PartialEq, Eq)]
pub enum Value {
    Str(String),
    Bool(bool),
    /// An optional value that is not set.
    Absent,
    /// An optional value that is set.
    Present(Box<Value>),
    /// The fields of a record, in the order of its shape.
    Record(Vec<Value>),
}

/// A decoded value as mathematics: text is a sequence of characters and a
/// record a sequence of values.
pub enum ValueView {
    Str(Seq<char>),
    Bool(bool),
    Absent,
    Present(Box<ValueView>),
    Record(Seq<ValueView>),
}

impl View for Value {
    type V = ValueView;

    open spec fn view(&self) -> ValueView {
        value_view(*self)
    }
}

/// The view of a value.
pub open spec fn value_view(value: Value) -> ValueView
    decreases value,
{
    match value {
        Value::Str(text) => ValueView::Str(text@),
        Value::Bool(flag) => ValueView::Bool(flag),
        Value::Absent => ValueView::Absent,
        Value::Present(inner) => ValueView::Present(Box::new(value_view(*inner))),
        Value::Record(fields) => ValueView::Record(values_view(fields@)),
    }
}

/// The views of a sequence of values.
pub open spec fn values_view(values: Seq<Value>) -> Seq<ValueView>
    decreases values,
{
    Seq::new(
        values.len(),
        |i: int|
            if 0 <= i < values.len() {
                value_view(values[i])
            } else {
                ValueView::Absent
            },
    )
}

/// The index of the first field named `name`, or the number of fields where
/// there is none.
pub open spec fn field_index(fields: Seq<Field>, name: Seq<char>) -> int
    decreases fields.len(),
{
    if fields.len() == 0 {
        0
    } else if fields[0].name@ == name {
        0
    } else {
        1 + field_index(fields.skip(1), name)
    }
}

/// `field_index` finds a field of that name, and the first of them.
pub proof fn lemma_field_index(fields: Seq<Field>, name: Seq<char>)
    ensures
        0 <= field_index(fields, name) <= fields.len(),
        field_index(fields, name) < fields.len() ==> fields[field_index(fields, name)].name@
            == name,
        forall|k: int| 0 <= k < field_index(fields, name) ==> (#[trigger] fields[k]).name@ != name,
    decreases fields.len(),
{
    if fields.len() != 0 && fields[0].name@ != name {
        let rest = fields.skip(1);
        lemma_field_index(rest, name);
        assert forall|k: int| 0 <= k < field_index(fields, name) implies (#[trigger] fields[k]).name@
            != name by {
            if k > 0 {
                assert(fields[k] == rest[k - 1]);
            }
        }
    }
}

impl Shape {
    /// Whether the shape is an optional one.
    pub open spec fn is_optional(self) -> bool {
        self is Optional
    }

    /// Whether a field of this shape may be left out of the pairs.
    pub fn optional(&self) -> (yes: bool)
        ensures
            yes == self.is_optional(),
    {
        match self {
            Shape::Optional(_) => true,
            _ => false,
        }
    }
}

impl Record {
    /// The record of these fields that drops pairs of other names.
    pub fn new(fields: Vec<Field>) -> (record: Record)
        ensures
            record.fields == fields,
            record.unknown == UnknownFields::Skip,
    {
        Record { fields, unknown: UnknownFields::Skip }
    }

    /// The place of the first field named `name`.
    pub fn position(&self, name: &str) -> (found: Option<usize>)
        ensures
            match found {
                Some(k) => k == field_index(self.fields@, name@) && k < self.fields@.len(),
                None => field_index(self.fields@, name@) == self.fields@.len(),
            },
    {
        let n: usize = self.fields.len();
        let mut k: usize = 0;
        assert(self.fields@.skip(0) =~= self.fields@);
        while k < n
            invariant
                k <= n,
                n == self.fields@.len(),
                field_index(self.fields@, name@) == k + field_index(
                    self.fields@.skip(k as int),
                    name@,
                ),
            decreases n - k,
        {
            if same_text(self.fields[k].name.as_str(), name) {
                assert(self.fields@.skip(k as int)[0] == self.fields@[k as int]);
                return Some(k);
            }
            proof {
                let rest = self.fields@.skip(k as int);
                assert(rest[0] == self.fields@[k as int]);
                assert(rest.skip(1) =~= self.fields@.skip(k + 1));
            }
            k = k + 1;
        }
        assert(self.fields@.skip(k as int).len() == 0);
        None
    }
}

impl Field {
    /// The field named `name` of shape `shape`.
    pub fn new(name: &str, shape: Shape) -> (field: Field)
        ensures
            field.name@ == name@,
            field.shape == shape,
    {
        Field { name: name.to_owned(), shape }
    }
}

} // verus!
