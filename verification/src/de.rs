//! The cursor over a header, and the reads that move it.

use vstd::prelude::*;
use crate::error::{invalid_bool_text, Error};
use crate::model::{
    consumed, consumed_optional, consumed_record, consumed_scan, consumed_value, empty_slots,
    enters_map, first_missing, lemma_consumed, lemma_consumed_value, outcome, read, read_optional,
    read_record, scan, settled, CursorView, Slots,
};
use crate::pair::{source_view, Pair};
use crate::shape::{value_view, values_view, Record, Shape, UnknownFields, Value};
use crate::text::{bool_of_text, parse_bool};

verus! {

/// A cursor over the pairs of a header. It starts on the first pair, moves
/// on by one pair for each value that is read with success, and never moves
/// back.
pub struct HeaderDeserializer<'a> {
    header: &'a [Pair],
    index: usize,
}

impl<'a> View for HeaderDeserializer<'a> {
    type V = CursorView;

    closed spec fn view(&self) -> CursorView {
        CursorView { pairs: source_view(self.header@), index: self.index as nat }
    }
}

impl<'a> HeaderDeserializer<'a> {
    #[verifier::type_invariant]
    spec fn in_range(self) -> bool {
        self.index <= self.header@.len()
    }

    /// A cursor on the first pair of `header`.
    pub fn new(header: &'a [Pair]) -> (de: Self)
        ensures
            de@ == CursorView::start(source_view(header@)),
    {
        HeaderDeserializer { header, index: 0 }
    }

    /// How many pairs have been read as values.
    pub fn index(&self) -> (index: usize)
        ensures
            index == self@.index,
            self@.wf(),
    {
        proof {
            use_type_invariant(self);
        }
        self.index
    }

    /// How many pairs the header holds.
    pub fn len(&self) -> (len: usize)
        ensures
            len == self@.pairs.len(),
            self@.wf(),
    {
        proof {
            use_type_invariant(self);
        }
        self.header.len()
    }

    /// The value of the pair under the cursor, for a shape that the cursor
    /// has no coercion for.
    pub fn deserialize_any(&self) -> (text: &'a str)
        requires
            self@.active(),
        ensures
            text@ == self@.current().value,
    {
        self.header[self.index].value.as_str()
    }

    /// The value of the pair under the cursor, borrowed from the header.
    pub fn deserialize_str(&self) -> (text: &'a str)
        requires
            self@.active(),
        ensures
            text@ == self@.current().value,
    {
        self.header[self.index].value.as_str()
    }

    /// The value of the pair under the cursor, as a string of its own.
    pub fn deserialize_string(&self) -> (text: String)
        requires
            self@.active(),
        ensures
            text@ == self@.current().value,
    {
        self.header[self.index].value.as_str().to_owned()
    }

    /// The value of the pair under the cursor as a boolean: `true` for
    /// "true", `false` for "false", and an error for any other text.
    pub fn deserialize_bool(&self) -> (flag: Result<bool, Error>)
        requires
            self@.active(),
        ensures
            match bool_of_text(self@.current().value) {
                Some(b) => flag == Ok::<bool, Error>(b),
                None => flag is Err && flag->Err_0@ == invalid_bool_text(self@.current().value),
            },
    {
        let text: &str = self.header[self.index].value.as_str();
        match parse_bool(text) {
            Some(b) => Ok(b),
            None => Err(Error::invalid_bool(text)),
        }
    }

    /// Whether the value of the pair under the cursor is empty, which
    /// stands for a parameter that is not set.
    pub fn value_is_empty(&self) -> (empty: bool)
        requires
            self@.active(),
        ensures
            empty == (self@.current().value.len() == 0),
    {
        self.header[self.index].value.as_str().is_empty()
    }

    /// An optional value: absent where the value of the pair under the
    /// cursor is empty, else the shape `inner` read from the same pair.
    pub fn deserialize_option(&mut self, inner: &Shape) -> (value: Result<Value, Error>)
        requires
            old(self)@.active(),
        ensures
            outcome(value) == read_optional(old(self)@.remaining(), *inner),
            final(self)@ == old(self)@.moved(consumed_optional(old(self)@.remaining(), *inner)),
        decreases *inner, 1nat,
    {
        proof {
            use_type_invariant(&*self);
        }
        if self.value_is_empty() {
            Ok(Value::Absent)
        } else {
            match inner.deserialize(self) {
                Ok(value) => Ok(Value::Present(Box::new(value))),
                Err(error) => Err(error),
            }
        }
    }

    /// A record, filled from the pair under the cursor and all that follow.
    pub fn deserialize_map(&mut self, record: &Record) -> (value: Result<Value, Error>)
        ensures
            outcome(value) == read_record(old(self)@.remaining(), *record),
            final(self)@ == old(self)@.moved(consumed_record(old(self)@.remaining(), *record)),
        decreases *record, 3nat,
    {
        proof {
            use_type_invariant(&*self);
        }
        let mut map = KeyValueList::new(
            HeaderDeserializer { header: self.header, index: self.index },
        );
        let value = record.visit_map(&mut map);
        *self = map.into_inner();
        value
    }

    /// A record, filled from the pair under the cursor and all that follow.
    pub fn deserialize_struct(&mut self, record: &Record) -> (value: Result<Value, Error>)
        ensures
            outcome(value) == read_record(old(self)@.remaining(), *record),
            final(self)@ == old(self)@.moved(consumed_record(old(self)@.remaining(), *record)),
        decreases *record, 4nat,
    {
        self.deserialize_map(record)
    }

    /// The name of the pair under the cursor.
    pub fn deserialize_identifier(&self) -> (name: &'a str)
        requires
            self@.active(),
        ensures
            name@ == self@.current().name,
    {
        self.header[self.index].name.as_str()
    }
}

impl Shape {
    /// Reads a value of this shape at the cursor `de`.
    ///
    /// A record may be read at any cursor. Every other shape reads the pair
    /// under the cursor, so there has to be one.
    pub fn deserialize<'a>(&self, de: &mut HeaderDeserializer<'a>) -> (value: Result<
        Value,
        Error,
    >)
        requires
            self is Record || old(de)@.active(),
        ensures
            outcome(value) == read(old(de)@.remaining(), *self),
            final(de)@ == old(de)@.moved(consumed(old(de)@.remaining(), *self)),
        decreases *self, 0nat,
    {
        proof {
            use_type_invariant(&*de);
        }
        match self {
            Shape::Str => Ok(Value::Str(de.deserialize_string())),
            Shape::Any => Ok(Value::Str(de.deserialize_any().to_owned())),
            Shape::Identifier => Ok(Value::Str(de.deserialize_identifier().to_owned())),
            Shape::Bool => match de.deserialize_bool() {
                Ok(flag) => Ok(Value::Bool(flag)),
                Err(error) => Err(error),
            },
            Shape::Optional(inner) => de.deserialize_option(inner),
            Shape::Record(record) => de.deserialize_struct(record),
        }
    }
}

impl Record {
    /// Fills the record from the entries of `map`.
    ///
    /// Each key goes to the first field of that name, and the value behind
    /// it is read in the field's shape. A key that names no field is dropped
    /// with its value, or refused, as the record says. A field supplied
    /// twice is an error. Once the keys are exhausted, a field that no pair
    /// supplied is absent if it is optional and an error if it is not.
    pub fn visit_map<'a>(&self, map: &mut KeyValueList<'a>) -> (value: Result<Value, Error>)
        ensures
            outcome(value) == read_record(old(map)@.remaining(), *self),
            final(map)@ == old(map)@.moved(consumed_record(old(map)@.remaining(), *self)),
        decreases *self, 2nat,
    {
        let n: usize = self.fields.len();
        let mut values: Vec<Value> = Vec::new();
        let mut seen: Vec<bool> = Vec::new();
        let mut filled: usize = 0;
        while filled < n
            invariant
                filled <= n,
                values@.len() == filled,
                seen@.len() == filled,
                forall|j: int| 0 <= j < filled ==> values@[j] == Value::Absent && !seen@[j],
            decreases n - filled,
        {
            values.push(Value::Absent);
            seen.push(false);
            filled = filled + 1;
        }
        let ghost start = map@;
        let ghost slots: Slots = empty_slots(n as nat);
        proof {
            use_type_invariant(&map.de);
        }
        loop
            invariant
                start == old(map)@,
                n == self.fields@.len(),
                values@.len() == n,
                seen@.len() == n,
                slots.len() == n,
                map@.pairs == start.pairs,
                start.index <= map@.index <= map@.pairs.len(),
                forall|j: int| 0 <= j < n ==> seen@[j] == (#[trigger] slots[j] is Some),
                forall|j: int| 0 <= j < n ==> value_view(values@[j]) == settled(#[trigger] slots[j]),
                scan(map@.remaining(), *self, slots) == scan(
                    start.remaining(),
                    *self,
                    empty_slots(n as nat),
                ),
                map@.index + consumed_scan(map@.remaining(), *self, slots) == start.index
                    + consumed_scan(start.remaining(), *self, empty_slots(n as nat)),
            ensures
                map@.exhausted(),
            decreases map@.pairs.len() - map@.index,
        {
            let ghost here = map@;
            let ghost rest = map@.remaining();
            let key: &str = match map.next_key_seed() {
                None => {
                    break ;
                },
                Some(key) => key,
            };
            assert(rest.len() > 0 && rest[0] == here.current());
            assert(rest.skip(1) =~= here.advance().remaining());
            match self.position(key) {
                None => match self.unknown {
                    UnknownFields::Reject => {
                        return Err(Error::unknown_field(key));
                    },
                    UnknownFields::Skip => {
                        map.skip_value();
                    },
                },
                Some(k) => {
                    if seen[k] {
                        return Err(Error::duplicate_field(key));
                    }
                    proof {
                        lemma_consumed_value(rest, self.fields@[k as int].shape);
                    }
                    match map.next_value_seed(&self.fields[k].shape) {
                        Err(error) => {
                            return Err(error);
                        },
                        Ok(value) => {
                            proof {
                                slots = slots.update(k as int, Some(value@));
                                assert(here.finished().remaining().len() == 0);
                            }
                            values[k] = value;
                            seen[k] = true;
                        },
                    }
                },
            }
        }
        assert(map@.remaining().len() == 0);
        let mut k: usize = 0;
        assert(self.fields@.skip(0) =~= self.fields@ && slots.skip(0) =~= slots);
        while k < n
            invariant
                k <= n,
                start == old(map)@,
                map@ == start.finished(),
                map@ == start.moved(
                    consumed_scan(start.remaining(), *self, empty_slots(n as nat)),
                ),
                start.index <= start.pairs.len(),
                n == self.fields@.len(),
                values@.len() == n,
                seen@.len() == n,
                slots.len() == n,
                forall|j: int| 0 <= j < n ==> seen@[j] == (#[trigger] slots[j] is Some),
                forall|j: int| 0 <= j < n ==> value_view(values@[j]) == settled(#[trigger] slots[j]),
                scan(start.remaining(), *self, empty_slots(n as nat)) == Ok::<Slots, Seq<char>>(
                    slots,
                ),
                first_missing(self.fields@, slots) == k + first_missing(
                    self.fields@.skip(k as int),
                    slots.skip(k as int),
                ),
            decreases n - k,
        {
            proof {
                let fields = self.fields@.skip(k as int);
                let tail = slots.skip(k as int);
                assert(fields[0] == self.fields@[k as int] && tail[0] == slots[k as int]);
                assert(fields.skip(1) =~= self.fields@.skip(k + 1));
                assert(tail.skip(1) =~= slots.skip(k + 1));
            }
            if !seen[k] && !self.fields[k].shape.optional() {
                return Err(Error::missing_field(self.fields[k].name.as_str()));
            }
            k = k + 1;
        }
        assert(self.fields@.skip(k as int).len() == 0);
        assert(values_view(values@) =~= Seq::new(
            self.fields@.len(),
            |i: int| settled(slots[i]),
        ));
        Ok(Value::Record(values))
    }
}

/// The pairs of a header as the entries of a map: a key is read without
/// moving the cursor, and the value that follows it moves the cursor on once
/// it has been read with success.
pub struct KeyValueList<'a> {
    de: HeaderDeserializer<'a>,
}

impl<'a> View for KeyValueList<'a> {
    type V = CursorView;

    closed spec fn view(&self) -> CursorView {
        self.de@
    }
}

impl<'a> KeyValueList<'a> {
    /// The entries from the pair under `de` on.
    pub fn new(de: HeaderDeserializer<'a>) -> (map: Self)
        ensures
            map@ == de@,
    {
        KeyValueList { de }
    }

    /// The cursor that the entries are read with.
    pub fn cursor(&self) -> (de: &HeaderDeserializer<'a>)
        ensures
            de@ == self@,
    {
        &self.de
    }

    /// The cursor, where the entries have left it.
    pub fn into_inner(self) -> (de: HeaderDeserializer<'a>)
        ensures
            de@ == self@,
    {
        self.de
    }

    /// Reads the value of shape `seed` from the pair under the cursor. Where
    /// that succeeds the cursor moves on to the next pair; where the value
    /// is a record it has read every pair that is left, and the cursor stays
    /// behind the last. Where the read fails the cursor does not move on: it
    /// rests on the pair whose value could not be read.
    pub fn next_value_seed(&mut self, seed: &Shape) -> (value: Result<Value, Error>)
        requires
            old(self)@.active(),
        ensures
            outcome(value) == read(old(self)@.remaining(), *seed),
            value is Ok ==> final(self)@ == old(self)@.moved(
                consumed_value(old(self)@.remaining(), *seed),
            ),
            value is Err ==> final(self)@ == old(self)@.moved(
                consumed(old(self)@.remaining(), *seed),
            ),
            !enters_map(old(self)@.current().value, *seed) ==> final(self)@ == (if value is Ok {
                old(self)@.advance()
            } else {
                old(self)@
            }),
        decreases *seed, 1nat,
    {
        proof {
            lemma_consumed(self@.remaining(), *seed);
            lemma_consumed_value(self@.remaining(), *seed);
            assert(self@.remaining()[0] == self@.current());
        }
        let result = seed.deserialize(&mut self.de);
        self.finish_value(result)
    }

    /// Settles the cursor once the value behind a key has been read with
    /// the outcome `result`, and hands the outcome back. After a success
    /// the cursor moves on by one pair, unless the value was a record and
    /// has left no pair. After a failure the cursor stays where it is.
    pub fn finish_value<T, E>(&mut self, result: Result<T, E>) -> (same: Result<T, E>)
        ensures
            same == result,
            final(self)@ == (if result is Ok && old(self)@.active() {
                old(self)@.advance()
            } else {
                old(self)@
            }),
    {
        match result {
            Ok(value) => {
                self.advance();
                Ok(value)
            },
            Err(error) => Err(error),
        }
    }

    /// Moves the cursor on by one pair, unless no pair is left.
    pub fn advance(&mut self)
        ensures
            final(self)@ == (if old(self)@.active() {
                old(self)@.advance()
            } else {
                old(self)@
            }),
    {
        if self.de.index < self.de.header.len() {
            self.de.index = self.de.index + 1;
        }
    }

    /// Reads the value of the pair under the cursor as text, drops it, and
    /// moves the cursor on to the next pair.
    pub fn skip_value(&mut self)
        requires
            old(self)@.active(),
        ensures
            final(self)@ == old(self)@.advance(),
    {
        let _ignored: &str = self.de.deserialize_any();
        self.advance();
    }

    /// The next key: the name of the pair under the cursor, or none once
    /// every pair has been read. The cursor stays where it is.
    pub fn next_key_seed(&mut self) -> (key: Option<&'a str>)
        ensures
            final(self)@ == old(self)@,
            old(self)@.wf(),
            match key {
                Some(name) => old(self)@.key() == Some(name@),
                None => old(self)@.key() is None,
            },
    {
        proof {
            use_type_invariant(&self.de);
        }
        let size: usize = self.de.header.len();
        if self.de.index == size {
            None
        } else {
            Some(self.de.deserialize_identifier())
        }
    }
}

/// Decodes a value of shape `shape` from the pairs of `header`.
///
/// A record is filled from all the pairs. Every other shape is read from the
/// first pair, so the header has to hold one.
pub fn from_header_array(header: &[Pair], shape: &Shape) -> (value: Result<Value, Error>)
    requires
        shape is Record || header@.len() > 0,
    ensures
        outcome(value) == read(source_view(header@), *shape),
{
    let mut deserializer = HeaderDeserializer::new(header);
    assert(deserializer@.remaining() =~= source_view(header@));
    shape.deserialize(&mut deserializer)
}

} // verus!
