//! What holds of every cursor, every header and every shape.

use vstd::prelude::*;
use crate::model::{
    empty_slots, enters_map, finish, first_missing, lemma_first_missing, read, read_optional,
    read_record, scan, settled, CursorView, Decoded, Slots,
};
use crate::pair::PairView;
use crate::shape::{field_index, lemma_field_index, Record, Shape, UnknownFields, ValueView};
use crate::text::bool_of_text;

verus! {

/// The cursor after `count` values have been read from the first pair on.
pub open spec fn after_reads(pairs: Seq<PairView>, count: nat) -> CursorView
    decreases count,
{
    if count == 0 {
        CursorView::start(pairs)
    } else {
        after_reads(pairs, (count - 1) as nat).advance()
    }
}

/// A header of N pairs gives N values and then no key: after fewer than N
/// values the cursor stands on a pair, whose name is the next key, and after
/// N values it is exhausted and has no key left.
pub proof fn lemma_exhaustion(pairs: Seq<PairView>, count: nat)
    requires
        count <= pairs.len(),
    ensures
        after_reads(pairs, count).pairs == pairs,
        after_reads(pairs, count).index == count,
        count < pairs.len() ==> after_reads(pairs, count).active() && after_reads(
            pairs,
            count,
        ).key() == Some(pairs[count as int].name),
        count == pairs.len() ==> after_reads(pairs, count).exhausted() && after_reads(
            pairs,
            count,
        ).key() is None,
    decreases count,
{
    if count > 0 {
        lemma_exhaustion(pairs, (count - 1) as nat);
    }
}

/// The entries that `count` rounds of a key read and a value read yield
/// from the cursor on, in the order in which they are read: each key as it
/// is handed out, and each value read as text.
pub open spec fn entries(cursor: CursorView, count: nat) -> Seq<PairView>
    decreases count,
{
    if count == 0 {
        Seq::empty()
    } else {
        let before = cursor.moved((count - 1) as nat);
        entries(cursor, (count - 1) as nat).push(
            PairView {
                name: before.key()->0,
                value: read(before.remaining(), Shape::Str)->Ok_0->Str_0,
            },
        )
    }
}

/// Reading key and value in turn from a cursor hands out the pairs from the
/// cursor on in their order, each of them once: every round finds a key and
/// a value that can be read, the entries of the first rounds are the pairs
/// at those places, and after as many rounds as pairs were left the cursor
/// is behind the last pair and has no key.
pub proof fn lemma_entries_in_order(cursor: CursorView, count: nat)
    requires
        cursor.wf(),
        cursor.index + count <= cursor.pairs.len(),
    ensures
        entries(cursor, count) == cursor.pairs.subrange(
            cursor.index as int,
            (cursor.index + count) as int,
        ),
        forall|round: nat|
            round < count ==> (#[trigger] cursor.moved(round)).key() is Some && read(
                cursor.moved(round).remaining(),
                Shape::Str,
            ) is Ok,
        cursor.index + count == cursor.pairs.len() ==> {
            &&& entries(cursor, count) == cursor.remaining()
            &&& cursor.moved(count) == cursor.finished()
            &&& cursor.moved(count).key() is None
        },
    decreases count,
{
    if count > 0 {
        let fewer = (count - 1) as nat;
        lemma_entries_in_order(cursor, fewer);
        let before = cursor.moved(fewer);
        assert(before.remaining()[0] == cursor.pairs[(cursor.index + fewer) as int]);
        assert(entries(cursor, count) =~= cursor.pairs.subrange(
            cursor.index as int,
            (cursor.index + count) as int,
        ));
    } else {
        assert(entries(cursor, count) =~= cursor.pairs.subrange(
            cursor.index as int,
            (cursor.index + count) as int,
        ));
    }
    if cursor.index + count == cursor.pairs.len() {
        assert(cursor.remaining() =~= cursor.pairs.subrange(
            cursor.index as int,
            (cursor.index + count) as int,
        ));
    }
}

/// A key and the value read after it come from the same pair: the key is
/// the name of the pair under the cursor, and the value read as text is the
/// value of that pair.
pub proof fn lemma_key_then_value(cursor: CursorView)
    requires
        cursor.active(),
    ensures
        cursor.key() == Some(cursor.current().name),
        read(cursor.remaining(), Shape::Str) == Ok::<ValueView, Seq<char>>(
            ValueView::Str(cursor.current().value),
        ),
        cursor.advance().index == cursor.index + 1,
{
}

/// "true" is read as true, "false" as false, and no other text is read as
/// a boolean.
pub proof fn lemma_bool_of_text(text: Seq<char>)
    ensures
        bool_of_text(text) == Some(true) <==> text == "true"@,
        bool_of_text(text) == Some(false) <==> text == "false"@,
        bool_of_text(text) is None <==> text != "true"@ && text != "false"@,
{
    reveal_strlit("true");
    reveal_strlit("false");
    assert("true"@.len() != "false"@.len());
}

/// A boolean read from a pair succeeds on the values "true" and "false",
/// and on no other.
pub proof fn lemma_bool_coercion(rest: Seq<PairView>)
    ensures
        rest[0].value == "true"@ ==> read(rest, Shape::Bool) == Ok::<ValueView, Seq<char>>(
            ValueView::Bool(true),
        ),
        rest[0].value == "false"@ ==> read(rest, Shape::Bool) == Ok::<ValueView, Seq<char>>(
            ValueView::Bool(false),
        ),
        rest[0].value != "true"@ && rest[0].value != "false"@ ==> read(rest, Shape::Bool) is Err,
{
    lemma_bool_of_text(rest[0].value);
}

/// An optional text is absent where the value of the pair is empty, and
/// else present with that value.
pub proof fn lemma_optional_text(rest: Seq<PairView>)
    ensures
        rest[0].value.len() == 0 ==> read_optional(rest, Shape::Str) == Ok::<
            ValueView,
            Seq<char>,
        >(ValueView::Absent),
        rest[0].value.len() > 0 ==> read_optional(rest, Shape::Str) == Ok::<ValueView, Seq<char>>(
            ValueView::Present(Box::new(ValueView::Str(rest[0].value))),
        ),
        read(rest, Shape::Optional(Box::new(Shape::Str))) == read_optional(rest, Shape::Str),
{
}

/// Whether a value of this shape is read the same with a pair named `name`
/// among the pairs: no record in it has a field of that name, and each of
/// them drops the pairs that name none of its fields.
pub open spec fn shape_ignores(shape: Shape, name: Seq<char>) -> bool
    decreases shape,
{
    match shape {
        Shape::Optional(inner) => shape_ignores(*inner, name),
        Shape::Record(record) => record_ignores(record, name),
        _ => true,
    }
}

/// Whether the record has no field named `name`, drops the pairs that name
/// none of its fields, and holds only fields whose shapes do the same.
pub open spec fn record_ignores(record: Record, name: Seq<char>) -> bool
    decreases record,
{
    &&& record.unknown == UnknownFields::Skip
    &&& field_index(record.fields@, name) == record.fields@.len()
    &&& forall|k: int|
        0 <= k < record.fields@.len() ==> shape_ignores((#[trigger] record.fields@[k]).shape, name)
}

/// A pair that a record ignores changes nothing, wherever it stands among
/// the pairs read into the slots.
pub proof fn lemma_scan_ignores(
    rest: Seq<PairView>,
    at: int,
    extra: PairView,
    record: Record,
    slots: Slots,
)
    requires
        0 <= at <= rest.len(),
        record_ignores(record, extra.name),
    ensures
        scan(rest.insert(at, extra), record, slots) == scan(rest, record, slots),
    decreases record, rest.len(),
{
    let longer = rest.insert(at, extra);
    if at == 0 {
        assert(longer[0] == extra);
        assert(longer.skip(1) =~= rest);
    } else {
        assert(longer[0] == rest[0]);
        assert(longer.skip(1) =~= rest.skip(1).insert(at - 1, extra));
        let k = field_index(record.fields@, rest[0].name);
        if 0 <= k < record.fields@.len() {
            if slots[k] is None {
                let shape = record.fields@[k].shape;
                lemma_read_ignores(rest, at, extra, shape);
                if read(rest, shape) is Ok && !enters_map(rest[0].value, shape) {
                    lemma_scan_ignores(
                        rest.skip(1),
                        at - 1,
                        extra,
                        record,
                        slots.update(k, Some(read(rest, shape)->Ok_0)),
                    );
                }
            }
        } else {
            lemma_scan_ignores(rest.skip(1), at - 1, extra, record, slots);
        }
    }
}

/// A pair that a shape ignores changes nothing, wherever it stands behind
/// the pair that the value is read from.
pub proof fn lemma_read_ignores(rest: Seq<PairView>, at: int, extra: PairView, shape: Shape)
    requires
        1 <= at <= rest.len(),
        shape_ignores(shape, extra.name),
    ensures
        read(rest.insert(at, extra), shape) == read(rest, shape),
    decreases shape, rest.len() + 1,
{
    let longer = rest.insert(at, extra);
    assert(longer[0] == rest[0]);
    match shape {
        Shape::Optional(inner) => {
            lemma_read_ignores(rest, at, extra, *inner);
        },
        Shape::Record(record) => {
            lemma_scan_ignores(
                rest,
                at,
                extra,
                record,
                empty_slots(record.fields@.len()),
            );
        },
        _ => {},
    }
}

/// A pair whose name is no field of the record, nor of a record inside it,
/// contributes nothing where such pairs are dropped: with the pair at any
/// place among the others, decoding gives what it gives without it.
pub proof fn lemma_unknown_pair_ignored(
    pairs: Seq<PairView>,
    at: int,
    extra: PairView,
    record: Record,
)
    requires
        0 <= at <= pairs.len(),
        record_ignores(record, extra.name),
    ensures
        read_record(pairs.insert(at, extra), record) == read_record(pairs, record),
        read(pairs.insert(at, extra), Shape::Record(record)) == read(pairs, Shape::Record(record)),
{
    lemma_scan_ignores(pairs, at, extra, record, empty_slots(record.fields@.len()));
}

/// Whether no value of this shape is a record.
pub open spec fn is_plain(shape: Shape) -> bool
    decreases shape,
{
    match shape {
        Shape::Optional(inner) => is_plain(*inner),
        Shape::Record(_) => false,
        _ => true,
    }
}

/// Whether no field of the record is itself a record.
pub open spec fn is_flat(record: Record) -> bool {
    forall|k: int| 0 <= k < record.fields@.len() ==> is_plain((#[trigger] record.fields@[k]).shape)
}

/// The value of shape `shape` that the pair `pair` alone gives.
pub open spec fn coerce(pair: PairView, shape: Shape) -> Decoded {
    read(seq![pair], shape)
}

/// A value that is no record is read from the pair under the cursor alone,
/// and leaves the pairs behind it to the next read.
pub proof fn lemma_plain_read(rest: Seq<PairView>, shape: Shape)
    requires
        is_plain(shape),
    ensures
        read(rest, shape) == coerce(rest[0], shape),
        !enters_map(rest[0].value, shape),
    decreases shape,
{
    assert(seq![rest[0]][0] == rest[0]);
    match shape {
        Shape::Optional(inner) => {
            lemma_plain_read(rest, *inner);
            lemma_plain_read(seq![rest[0]], *inner);
        },
        _ => {},
    }
}

/// The field that pair `i` goes to, as its index, or the number of fields
/// where the pair names none.
pub open spec fn owner(pairs: Seq<PairView>, record: Record, i: int) -> int {
    field_index(record.fields@, pairs[i].name)
}

/// Whether pair `i` is taken: it names a field that no pair before it
/// names, and its value can be read in the shape of that field; or it names
/// no field, and the record drops such pairs.
pub open spec fn pair_accepted(pairs: Seq<PairView>, record: Record, i: int) -> bool {
    let k = owner(pairs, record, i);
    if 0 <= k < record.fields@.len() {
        &&& coerce(pairs[i], record.fields@[k].shape) is Ok
        &&& forall|j: int| 0 <= j < i ==> owner(pairs, record, j) != k
    } else {
        record.unknown == UnknownFields::Skip
    }
}

/// Whether some pair goes to field `k`.
pub open spec fn field_supplied(pairs: Seq<PairView>, record: Record, k: int) -> bool {
    exists|i: int| 0 <= i < pairs.len() && owner(pairs, record, i) == k
}

/// Whether `slots` hold what the first `upto` pairs supply: the value of
/// each of those pairs in the slot of its field, and nothing else.
pub open spec fn slots_hold(pairs: Seq<PairView>, record: Record, upto: int, slots: Slots) -> bool {
    &&& slots.len() == record.fields@.len()
    &&& forall|j: int|
        0 <= j < upto && 0 <= #[trigger] owner(pairs, record, j) < record.fields@.len() ==> {
            &&& slots[owner(pairs, record, j)] is Some
            &&& Ok::<ValueView, Seq<char>>(slots[owner(pairs, record, j)]->0) == coerce(
                pairs[j],
                record.fields@[owner(pairs, record, j)].shape,
            )
        }
    &&& forall|k: int|
        0 <= k < record.fields@.len() && (#[trigger] slots[k]) is Some ==> exists|j: int|
            0 <= j < upto && owner(pairs, record, j) == k
}

/// Reading the pairs from `from` on into slots that hold what the pairs
/// before supply succeeds exactly where each of those pairs is taken, and
/// leaves slots that hold what all the pairs supply.
pub proof fn lemma_scan_flat(pairs: Seq<PairView>, record: Record, from: int, slots: Slots)
    requires
        is_flat(record),
        0 <= from <= pairs.len(),
        slots_hold(pairs, record, from, slots),
    ensures
        scan(pairs.skip(from), record, slots) is Ok <==> (forall|i: int|
            from <= i < pairs.len() ==> pair_accepted(pairs, record, i)),
        scan(pairs.skip(from), record, slots) is Ok ==> slots_hold(
            pairs,
            record,
            pairs.len() as int,
            scan(pairs.skip(from), record, slots)->Ok_0,
        ),
    decreases pairs.len() - from,
{
    let rest = pairs.skip(from);
    let n = record.fields@.len();
    if from < pairs.len() {
        assert(rest[0] == pairs[from]);
        assert(rest.skip(1) =~= pairs.skip(from + 1));
        let k = owner(pairs, record, from);
        lemma_field_index(record.fields@, pairs[from].name);
        if 0 <= k < n {
            let shape = record.fields@[k].shape;
            if slots[k] is Some {
                let j = choose|j: int| 0 <= j < from && owner(pairs, record, j) == k;
                assert(!pair_accepted(pairs, record, from));
            } else {
                lemma_plain_read(rest, shape);
                assert(forall|j: int| 0 <= j < from ==> owner(pairs, record, j) != k);
                match read(rest, shape) {
                    Err(_) => {
                        assert(!pair_accepted(pairs, record, from));
                    },
                    Ok(value) => {
                        let next = slots.update(k, Some(value));
                        assert(pair_accepted(pairs, record, from));
                        assert forall|f: int| 0 <= f < n && (#[trigger] next[f]) is Some implies exists|
                            j: int,
                        | 0 <= j < from + 1 && owner(pairs, record, j) == f by {
                            if f == k {
                                assert(owner(pairs, record, from) == f);
                            } else {
                                assert(slots[f] is Some);
                                let j = choose|j: int| 0 <= j < from && owner(pairs, record, j) == f;
                                assert(0 <= j < from + 1 && owner(pairs, record, j) == f);
                            }
                        }
                        assert(slots_hold(pairs, record, from + 1, next));
                        lemma_scan_flat(pairs, record, from + 1, next);
                    },
                }
            }
        } else {
            match record.unknown {
                UnknownFields::Reject => {
                    assert(!pair_accepted(pairs, record, from));
                },
                UnknownFields::Skip => {
                    assert(pair_accepted(pairs, record, from));
                    assert(slots_hold(pairs, record, from + 1, slots));
                    lemma_scan_flat(pairs, record, from + 1, slots);
                },
            }
        }
    }
}

/// What a record without records inside yields, said without a cursor.
///
/// Decoding succeeds exactly where every pair is taken and every field
/// that is not optional is supplied. The record then holds, for a field
/// that a pair supplies, the value of that pair read in the field's shape,
/// and absent for a field that no pair supplies.
pub proof fn lemma_flat_record(pairs: Seq<PairView>, record: Record)
    requires
        is_flat(record),
    ensures
        read_record(pairs, record) is Ok <==> {
            &&& forall|i: int| 0 <= i < pairs.len() ==> pair_accepted(pairs, record, i)
            &&& forall|k: int|
                0 <= k < record.fields@.len() ==> field_supplied(pairs, record, k)
                    || (#[trigger] record.fields@[k]).shape.is_optional()
        },
        read_record(pairs, record) matches Ok(value) ==> {
            &&& value is Record
            &&& value->Record_0.len() == record.fields@.len()
            &&& forall|i: int|
                0 <= i < pairs.len() && 0 <= #[trigger] owner(pairs, record, i)
                    < record.fields@.len() ==> Ok::<ValueView, Seq<char>>(
                    value->Record_0[owner(pairs, record, i)],
                ) == coerce(pairs[i], record.fields@[owner(pairs, record, i)].shape)
            &&& forall|k: int|
                0 <= k < record.fields@.len() && !field_supplied(pairs, record, k)
                    ==> #[trigger] value->Record_0[k] == ValueView::Absent
        },
{
    let n = record.fields@.len();
    let fields = record.fields@;
    let empty = empty_slots(n);
    assert(pairs.skip(0) =~= pairs);
    assert(slots_hold(pairs, record, 0, empty));
    lemma_scan_flat(pairs, record, 0, empty);
    if scan(pairs, record, empty) is Ok {
        let slots = scan(pairs, record, empty)->Ok_0;
        lemma_first_missing(fields, slots);
        let missing = first_missing(fields, slots);
        assert forall|k: int| 0 <= k < n implies (slots[k] is Some <==> field_supplied(
            pairs,
            record,
            k,
        )) by {
            if field_supplied(pairs, record, k) {
                let i = choose|i: int| 0 <= i < pairs.len() && owner(pairs, record, i) == k;
                assert(slots[owner(pairs, record, i)] is Some);
            }
            if slots[k] is Some {
                let j = choose|j: int| 0 <= j < pairs.len() && owner(pairs, record, j) == k;
                assert(0 <= j < pairs.len() && owner(pairs, record, j) == k);
            }
        }
        if missing < n {
            assert(!field_supplied(pairs, record, missing));
            assert(!fields[missing].shape.is_optional());
        } else {
            assert forall|k: int| 0 <= k < n implies field_supplied(pairs, record, k) || (
            #[trigger] fields[k]).shape.is_optional() by {
                assert(slots[k] is Some || fields[k].shape.is_optional());
            }
        }
    }
}

} // verus!
