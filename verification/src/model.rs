//! What decoding yields, as mathematics.
//!
//! The functions here take the pairs that are left to read: the pair under
//! the cursor comes first. A value is read from that first pair; a record is
//! filled from all of them.

use vstd::prelude::*;
use crate::error::{
    duplicate_field_text, invalid_bool_text, missing_field_text, unknown_field_text, Error,
};
use crate::pair::PairView;
use crate::shape::{field_index, Field, Record, Shape, UnknownFields, Value, ValueView};
use crate::text::bool_of_text;

verus! {

/// The outcome of decoding: a value, or the message of the error.
pub type Decoded = Result<ValueView, Seq<char>>;

/// What a call returned, as mathematics.
pub open spec fn outcome(result: Result<Value, Error>) -> Decoded {
    match result {
        Ok(value) => Ok(value@),
        Err(error) => Err(error@),
    }
}

/// The fields of a record while it is filled: none for a field that no pair
/// has supplied yet.
pub type Slots = Seq<Option<ValueView>>;

/// A cursor as mathematics: the pairs of the header, and how many of them
/// have been read as values.
pub struct CursorView {
    pub pairs: Seq<PairView>,
    pub index: nat,
}

impl CursorView {
    /// The cursor on `pairs` before anything is read.
    pub open spec fn start(pairs: Seq<PairView>) -> CursorView {
        CursorView { pairs, index: 0 }
    }

    /// The cursor stands on a pair or behind the last.
    pub open spec fn wf(self) -> bool {
        self.index <= self.pairs.len()
    }

    /// A pair is left to read.
    pub open spec fn active(self) -> bool {
        self.index < self.pairs.len()
    }

    /// Every pair has been read.
    pub open spec fn exhausted(self) -> bool {
        self.index == self.pairs.len()
    }

    /// The pair under the cursor.
    pub open spec fn current(self) -> PairView {
        self.pairs[self.index as int]
    }

    /// The pairs from the one under the cursor on.
    pub open spec fn remaining(self) -> Seq<PairView> {
        self.pairs.skip(self.index as int)
    }

    /// The next key: the name of the pair under the cursor, and none once
    /// every pair has been read.
    pub open spec fn key(self) -> Option<Seq<char>> {
        if self.active() {
            Some(self.current().name)
        } else {
            None
        }
    }

    /// The cursor `count` pairs further on.
    pub open spec fn moved(self, count: nat) -> CursorView {
        CursorView { pairs: self.pairs, index: self.index + count }
    }

    /// The cursor after the value of the pair under it has been read with
    /// success.
    pub open spec fn advance(self) -> CursorView {
        self.moved(1)
    }

    /// The cursor behind the last pair.
    pub open spec fn finished(self) -> CursorView {
        CursorView { pairs: self.pairs, index: self.pairs.len() }
    }
}

/// Whether reading `shape` from a pair of this value fills a record, and so
/// reads on to the last pair.
pub open spec fn enters_map(value: Seq<char>, shape: Shape) -> bool
    decreases shape,
{
    match shape {
        Shape::Record(_) => true,
        Shape::Optional(inner) => value.len() > 0 && enters_map(value, *inner),
        _ => false,
    }
}

/// The value of shape `shape` read at the first of the pairs `rest`.
pub open spec fn read(rest: Seq<PairView>, shape: Shape) -> Decoded
    decreases shape, 0nat,
{
    match shape {
        Shape::Str => Ok(ValueView::Str(rest[0].value)),
        Shape::Any => Ok(ValueView::Str(rest[0].value)),
        Shape::Identifier => Ok(ValueView::Str(rest[0].name)),
        Shape::Bool => match bool_of_text(rest[0].value) {
            Some(flag) => Ok(ValueView::Bool(flag)),
            None => Err(invalid_bool_text(rest[0].value)),
        },
        Shape::Optional(inner) => read_optional(rest, *inner),
        Shape::Record(record) => read_record(rest, record),
    }
}

/// The optional value read at the first of the pairs `rest`: absent where
/// the value of that pair is empty, else the shape `inner` read from the
/// same pair.
pub open spec fn read_optional(rest: Seq<PairView>, inner: Shape) -> Decoded
    decreases inner, 1nat,
{
    if rest[0].value.len() == 0 {
        Ok(ValueView::Absent)
    } else {
        match read(rest, inner) {
            Ok(value) => Ok(ValueView::Present(Box::new(value))),
            Err(message) => Err(message),
        }
    }
}

/// The record filled from the pairs `rest`.
pub open spec fn read_record(rest: Seq<PairView>, record: Record) -> Decoded
    decreases record, rest.len() + 1,
{
    match scan(rest, record, empty_slots(record.fields@.len())) {
        Ok(slots) => finish(record.fields@, slots),
        Err(message) => Err(message),
    }
}

/// Slots for `n` fields, none of them supplied.
pub open spec fn empty_slots(n: nat) -> Slots {
    Seq::new(n, |k: int| None)
}

/// The slots after the pairs `rest` have been read into `slots`, one after
/// the other, or the first error met on the way.
///
/// A pair goes to the first field of its name. A pair that names no field is
/// dropped or refused, as the record says. A field that is supplied twice is
/// an error. A field that is itself a record reads all the pairs from its
/// own on, and leaves none.
pub open spec fn scan(rest: Seq<PairView>, record: Record, slots: Slots) -> Result<
    Slots,
    Seq<char>,
>
    decreases record, rest.len(),
{
    if rest.len() == 0 {
        Ok(slots)
    } else {
        let k = field_index(record.fields@, rest[0].name);
        if 0 <= k < record.fields@.len() {
            if slots[k] is Some {
                Err(duplicate_field_text(rest[0].name))
            } else {
                let shape = record.fields@[k].shape;
                match read(rest, shape) {
                    Err(message) => Err(message),
                    Ok(value) => if enters_map(rest[0].value, shape) {
                        Ok(slots.update(k, Some(value)))
                    } else {
                        scan(rest.skip(1), record, slots.update(k, Some(value)))
                    },
                }
            }
        } else {
            match record.unknown {
                UnknownFields::Reject => Err(unknown_field_text(rest[0].name)),
                UnknownFields::Skip => scan(rest.skip(1), record, slots),
            }
        }
    }
}

/// The first field that no pair supplied and that may not be left out, or
/// the number of fields where there is none.
pub open spec fn first_missing(fields: Seq<Field>, slots: Slots) -> int
    decreases fields.len(),
{
    if fields.len() == 0 {
        0
    } else if slots[0] is None && !fields[0].shape.is_optional() {
        0
    } else {
        1 + first_missing(fields.skip(1), slots.skip(1))
    }
}

/// `first_missing` finds a field that is missing, and the first of them.
pub proof fn lemma_first_missing(fields: Seq<Field>, slots: Slots)
    requires
        slots.len() == fields.len(),
    ensures
        0 <= first_missing(fields, slots) <= fields.len(),
        first_missing(fields, slots) < fields.len() ==> slots[first_missing(fields, slots)] is None
            && !fields[first_missing(fields, slots)].shape.is_optional(),
        forall|k: int|
            0 <= k < first_missing(fields, slots) ==> (#[trigger] slots[k]) is Some
                || fields[k].shape.is_optional(),
    decreases fields.len(),
{
    if fields.len() != 0 && !(slots[0] is None && !fields[0].shape.is_optional()) {
        let rest = fields.skip(1);
        let tail = slots.skip(1);
        lemma_first_missing(rest, tail);
        assert forall|k: int| 0 <= k < first_missing(fields, slots) implies (#[trigger] slots[k])
            is Some || fields[k].shape.is_optional() by {
            if k > 0 {
                assert(slots[k] == tail[k - 1]);
                assert(fields[k] == rest[k - 1]);
            }
        }
    }
}

/// The value of a field once all pairs are read: what was supplied, and
/// absent for a field left out.
pub open spec fn settled(slot: Option<ValueView>) -> ValueView {
    match slot {
        Some(value) => value,
        None => ValueView::Absent,
    }
}

/// The record made of `slots`, or the error for the first field that is
/// missing: one that no pair supplied and that is not optional.
pub open spec fn finish(fields: Seq<Field>, slots: Slots) -> Decoded {
    let k = first_missing(fields, slots);
    if 0 <= k < fields.len() {
        Err(missing_field_text(fields[k].name@))
    } else {
        Ok(ValueView::Record(Seq::new(fields.len(), |i: int| settled(slots[i]))))
    }
}

/// How many pairs the cursor moves on while a value of shape `shape` is
/// read at the first of the pairs `rest`: none, unless the value is a record.
pub open spec fn consumed(rest: Seq<PairView>, shape: Shape) -> nat
    decreases shape, 0nat,
{
    match shape {
        Shape::Optional(inner) => consumed_optional(rest, *inner),
        Shape::Record(record) => consumed_record(rest, record),
        _ => 0,
    }
}

/// How many pairs the cursor moves on while an optional value is read.
pub open spec fn consumed_optional(rest: Seq<PairView>, inner: Shape) -> nat
    decreases inner, 1nat,
{
    if rest[0].value.len() == 0 {
        0
    } else {
        consumed(rest, inner)
    }
}

/// How many pairs the cursor moves on while a record is filled.
pub open spec fn consumed_record(rest: Seq<PairView>, record: Record) -> nat
    decreases record, rest.len() + 1,
{
    consumed_scan(rest, record, empty_slots(record.fields@.len()))
}

/// How many pairs the cursor moves on for a value behind a key that is read
/// with success: as many as the value takes, and one more to the next pair
/// where one is left.
pub open spec fn consumed_value(rest: Seq<PairView>, shape: Shape) -> nat
    decreases shape, 2nat,
{
    let taken = consumed(rest, shape);
    if taken < rest.len() {
        taken + 1
    } else {
        taken
    }
}

/// How many of the pairs `rest` the cursor has moved over when `scan` ends:
/// all of them where it succeeds, and else those before the pair at which it
/// fails. The cursor rests on the pair that is refused or whose value cannot
/// be read; where that value is a record, it rests on the pair at which the
/// record failed.
pub open spec fn consumed_scan(rest: Seq<PairView>, record: Record, slots: Slots) -> nat
    decreases record, rest.len(),
{
    if rest.len() == 0 {
        0
    } else {
        let k = field_index(record.fields@, rest[0].name);
        if 0 <= k < record.fields@.len() {
            if slots[k] is Some {
                0
            } else {
                let shape = record.fields@[k].shape;
                match read(rest, shape) {
                    Err(_) => consumed(rest, shape),
                    Ok(value) => if enters_map(rest[0].value, shape) {
                        consumed_value(rest, shape)
                    } else {
                        1 + consumed_scan(rest.skip(1), record, slots.update(k, Some(value)))
                    },
                }
            }
        } else {
            match record.unknown {
                UnknownFields::Reject => 0,
                UnknownFields::Skip => 1 + consumed_scan(rest.skip(1), record, slots),
            }
        }
    }
}

/// A read never moves the cursor beyond the last pair. It leaves the cursor
/// where it is unless it fills a record, and a record that is filled leaves
/// it behind the last pair.
pub proof fn lemma_consumed(rest: Seq<PairView>, shape: Shape)
    ensures
        consumed(rest, shape) <= rest.len(),
        !enters_map(rest[0].value, shape) ==> consumed(rest, shape) == 0,
        enters_map(rest[0].value, shape) && read(rest, shape) is Ok ==> consumed(rest, shape)
            == rest.len(),
    decreases shape, 0nat,
{
    match shape {
        Shape::Optional(inner) => {
            lemma_consumed(rest, *inner);
        },
        Shape::Record(record) => {
            lemma_consumed_scan(rest, record, empty_slots(record.fields@.len()));
        },
        _ => {},
    }
}

/// Filling a record never moves the cursor beyond the last pair, and leaves
/// it behind the last pair where it succeeds.
pub proof fn lemma_consumed_scan(rest: Seq<PairView>, record: Record, slots: Slots)
    ensures
        consumed_scan(rest, record, slots) <= rest.len(),
        scan(rest, record, slots) is Ok ==> consumed_scan(rest, record, slots) == rest.len(),
    decreases record, rest.len(),
{
    if rest.len() > 0 {
        let k = field_index(record.fields@, rest[0].name);
        if 0 <= k < record.fields@.len() {
            if slots[k] is Some {
                assert(consumed_scan(rest, record, slots) == 0);
                assert(scan(rest, record, slots) is Err);
            } else {
                let shape = record.fields@[k].shape;
                lemma_consumed(rest, shape);
                match read(rest, shape) {
                    Err(_) => {
                        assert(consumed_scan(rest, record, slots) == consumed(rest, shape));
                        assert(scan(rest, record, slots) is Err);
                    },
                    Ok(value) => {
                        if enters_map(rest[0].value, shape) {
                            assert(consumed_scan(rest, record, slots) == consumed_value(
                                rest,
                                shape,
                            ));
                        } else {
                            lemma_consumed_scan(
                                rest.skip(1),
                                record,
                                slots.update(k, Some(value)),
                            );
                            assert(consumed_scan(rest, record, slots) == 1 + consumed_scan(
                                rest.skip(1),
                                record,
                                slots.update(k, Some(value)),
                            ));
                        }
                    },
                }
            }
        } else {
            match record.unknown {
                UnknownFields::Reject => {
                    assert(consumed_scan(rest, record, slots) == 0);
                    assert(scan(rest, record, slots) is Err);
                },
                UnknownFields::Skip => {
                    lemma_consumed_scan(rest.skip(1), record, slots);
                },
            }
        }
    }
}

/// A value behind a key that is read with success moves the cursor on by
/// exactly one pair, unless the value is a record.
pub proof fn lemma_consumed_value(rest: Seq<PairView>, shape: Shape)
    requires
        rest.len() > 0,
    ensures
        1 <= consumed_value(rest, shape) <= rest.len(),
        !enters_map(rest[0].value, shape) ==> consumed_value(rest, shape) == 1,
        enters_map(rest[0].value, shape) && read(rest, shape) is Ok ==> consumed_value(rest, shape)
            == rest.len(),
{
    lemma_consumed(rest, shape);
}

} // verus!
