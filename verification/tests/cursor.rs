use vendor_params::{
    Error, Field, HeaderDeserializer, KeyValueList, Pair, Record, Shape, UnknownFields, Value,
};

fn three() -> Vec<Pair> {
    vec![Pair::new("a", "1"), Pair::new("b", ""), Pair::new("c", "true")]
}

fn text(s: &str) -> Value {
    Value::Str(s.to_string())
}

#[test]
fn exactly_as_many_values_as_pairs() {
    for n in 0..6usize {
        let header: Vec<Pair> =
            (0..n).map(|i| Pair::new(&format!("k{}", i), &format!("v{}", i))).collect();
        let mut map = KeyValueList::new(HeaderDeserializer::new(&header));
        let mut reads: usize = 0;
        while let Some(key) = map.next_key_seed() {
            assert_eq!(key, format!("k{}", reads));
            assert_eq!(map.next_value_seed(&Shape::Str), Ok(text(&format!("v{}", reads))));
            reads += 1;
            assert_eq!(map.cursor().index(), reads);
        }
        assert_eq!(reads, n);
        assert_eq!(map.next_key_seed(), None);
        assert_eq!(map.next_key_seed(), None);
        assert_eq!(map.cursor().index(), n);
    }
}

#[test]
fn empty_header_has_no_key() {
    let header: Vec<Pair> = vec![];
    let mut map = KeyValueList::new(HeaderDeserializer::new(&header));
    assert_eq!(map.next_key_seed(), None);
    assert_eq!(map.cursor().index(), 0);
    assert_eq!(map.cursor().len(), 0);
}

#[test]
fn key_read_does_not_move_the_cursor() {
    let header = three();
    let mut map = KeyValueList::new(HeaderDeserializer::new(&header));
    assert_eq!(map.next_key_seed(), Some("a"));
    assert_eq!(map.next_key_seed(), Some("a"));
    assert_eq!(map.next_key_seed(), Some("a"));
    assert_eq!(map.cursor().index(), 0);
    assert_eq!(map.next_value_seed(&Shape::Str), Ok(text("1")));
    assert_eq!(map.cursor().index(), 1);
    assert_eq!(map.next_key_seed(), Some("b"));
    assert_eq!(map.cursor().index(), 1);
}

#[test]
fn key_and_value_come_from_the_same_pair() {
    let header = three();
    let mut map = KeyValueList::new(HeaderDeserializer::new(&header));
    for pair in header.iter() {
        let key = map.next_key_seed().unwrap();
        assert_eq!(key, pair.name);
        assert_eq!(map.next_value_seed(&Shape::Str), Ok(Value::Str(pair.value.clone())));
    }
    assert_eq!(map.next_key_seed(), None);
}

#[test]
fn failed_value_read_leaves_the_cursor() {
    let header = three();
    let mut map = KeyValueList::new(HeaderDeserializer::new(&header));
    assert_eq!(
        map.next_value_seed(&Shape::Bool),
        Err(Error::Serde("provided string `1` was not `true` or `false`".to_string()))
    );
    assert_eq!(map.cursor().index(), 0);
    assert_eq!(map.next_key_seed(), Some("a"));
    assert_eq!(map.next_value_seed(&Shape::Str), Ok(text("1")));
    assert_eq!(map.cursor().index(), 1);
    assert_eq!(map.next_value_seed(&Shape::Optional(Box::new(Shape::Bool))), Ok(Value::Absent));
    assert_eq!(map.cursor().index(), 2);
    assert_eq!(map.next_value_seed(&Shape::Bool), Ok(Value::Bool(true)));
    assert_eq!(map.cursor().index(), 3);
    assert_eq!(map.next_key_seed(), None);
}

#[test]
fn failed_bool_on_a_single_pair_leaves_index_zero() {
    let header = vec![Pair::new("flag", "maybe")];
    let mut map = KeyValueList::new(HeaderDeserializer::new(&header));
    assert!(map.next_value_seed(&Shape::Bool).is_err());
    assert_eq!(map.cursor().index(), 0);
    let record = Record::new(vec![Field::new("flag", Shape::Bool)]);
    let mut de = HeaderDeserializer::new(&header);
    assert_eq!(
        de.deserialize_map(&record),
        Err(Error::Serde("provided string `maybe` was not `true` or `false`".to_string()))
    );
    assert_eq!(de.index(), 0);
    let mut de = HeaderDeserializer::new(&header);
    assert!(de.deserialize_struct(&record).is_err());
    assert_eq!(de.index(), 0);
    let mut de = HeaderDeserializer::new(&header);
    assert!(Shape::Record(record).deserialize(&mut de).is_err());
    assert_eq!(de.index(), 0);
}

#[test]
fn failed_record_read_rests_on_the_failing_pair() {
    let header = vec![Pair::new("a", "1"), Pair::new("flag", "maybe"), Pair::new("c", "x")];
    let record = Record::new(vec![Field::new("a", Shape::Str), Field::new("flag", Shape::Bool)]);
    let mut map = KeyValueList::new(HeaderDeserializer::new(&header));
    assert!(record.visit_map(&mut map).is_err());
    assert_eq!(map.cursor().index(), 1);
    assert_eq!(map.next_key_seed(), Some("flag"));
    let header = vec![Pair::new("a", "1"), Pair::new("b", "2"), Pair::new("a", "3")];
    let mut map = KeyValueList::new(HeaderDeserializer::new(&header));
    assert_eq!(
        record.visit_map(&mut map),
        Err(Error::Serde("duplicate field `a`".to_string()))
    );
    assert_eq!(map.cursor().index(), 2);
}

#[test]
fn failed_nested_record_rests_on_the_failing_pair() {
    let header = vec![
        Pair::new("a", "1"),
        Pair::new("inner", ""),
        Pair::new("flag", "maybe"),
        Pair::new("c", "x"),
    ];
    let inner = Shape::Record(Record::new(vec![Field::new("flag", Shape::Bool)]));
    let record = Record::new(vec![Field::new("a", Shape::Str), Field::new("inner", inner)]);
    let mut de = HeaderDeserializer::new(&header);
    assert_eq!(
        de.deserialize_map(&record),
        Err(Error::Serde("provided string `maybe` was not `true` or `false`".to_string()))
    );
    assert_eq!(de.index(), 2);
}

#[test]
fn finish_value_moves_on_after_success_only() {
    let header = three();
    let mut map = KeyValueList::new(HeaderDeserializer::new(&header));
    let failed: Result<u8, &str> = Err("no");
    assert_eq!(map.finish_value(failed), Err("no"));
    assert_eq!(map.cursor().index(), 0);
    let read: Result<u8, &str> = Ok(7);
    assert_eq!(map.finish_value(read), Ok(7));
    assert_eq!(map.cursor().index(), 1);
    map.advance();
    map.advance();
    assert_eq!(map.finish_value(read), Ok(7));
    assert_eq!(map.cursor().index(), 3);
}

#[test]
fn entries_come_in_source_order() {
    let header: Vec<Pair> =
        (0..5).map(|i| Pair::new(&format!("k{}", i), &format!("v{}", i))).collect();
    for from in 0..=header.len() {
        let mut map = KeyValueList::new(HeaderDeserializer::new(&header));
        for _ in 0..from {
            map.skip_value();
        }
        let mut out: Vec<Pair> = Vec::new();
        while let Some(key) = map.next_key_seed() {
            match map.next_value_seed(&Shape::Str) {
                Ok(Value::Str(value)) => out.push(Pair::new(key, &value)),
                other => panic!("unexpected {:?}", other),
            }
        }
        assert_eq!(out, header[from..].to_vec());
        assert_eq!(map.cursor().index(), header.len());
        assert_eq!(map.next_key_seed(), None);
    }
}

#[test]
fn skipped_value_moves_the_cursor() {
    let header = three();
    let mut map = KeyValueList::new(HeaderDeserializer::new(&header));
    map.skip_value();
    assert_eq!(map.cursor().index(), 1);
    assert_eq!(map.next_key_seed(), Some("b"));
}

#[test]
fn advance_stops_behind_the_last_pair() {
    let header = three();
    let mut map = KeyValueList::new(HeaderDeserializer::new(&header));
    for expected in [1usize, 2, 3, 3, 3] {
        map.advance();
        assert_eq!(map.cursor().index(), expected);
    }
    assert_eq!(map.next_key_seed(), None);
}

#[test]
fn cursor_starts_on_the_first_pair() {
    let header = three();
    let de = HeaderDeserializer::new(&header);
    assert_eq!(de.index(), 0);
    assert_eq!(de.len(), 3);
    assert_eq!(de.deserialize_identifier(), "a");
    assert_eq!(de.deserialize_any(), "1");
    assert_eq!(de.deserialize_str(), "1");
    assert_eq!(de.deserialize_string(), "1".to_string());
    assert!(!de.value_is_empty());
    assert_eq!(de.index(), 0);
}

#[test]
fn cursor_reads_where_the_map_left_it() {
    let header = three();
    let mut map = KeyValueList::new(HeaderDeserializer::new(&header));
    map.skip_value();
    let de = map.into_inner();
    assert_eq!(de.index(), 1);
    assert_eq!(de.deserialize_identifier(), "b");
    assert_eq!(de.deserialize_str(), "");
    assert!(de.value_is_empty());
    let mut map = KeyValueList::new(de);
    assert_eq!(map.next_key_seed(), Some("b"));
}

#[test]
fn scalar_reads_leave_the_cursor() {
    let header = three();
    let mut de = HeaderDeserializer::new(&header);
    assert_eq!(Shape::Str.deserialize(&mut de), Ok(text("1")));
    assert_eq!(Shape::Any.deserialize(&mut de), Ok(text("1")));
    assert_eq!(Shape::Identifier.deserialize(&mut de), Ok(text("a")));
    assert!(Shape::Bool.deserialize(&mut de).is_err());
    assert_eq!(de.deserialize_option(&Shape::Str), Ok(Value::Present(Box::new(text("1")))));
    assert_eq!(de.index(), 0);
}

#[test]
fn record_read_leaves_the_cursor_behind_the_last_pair() {
    let header = three();
    let record = Record::new(vec![Field::new("c", Shape::Bool)]);
    let mut de = HeaderDeserializer::new(&header);
    assert_eq!(de.deserialize_struct(&record), Ok(Value::Record(vec![Value::Bool(true)])));
    assert_eq!(de.index(), 3);
    let mut de = HeaderDeserializer::new(&header);
    assert_eq!(de.deserialize_map(&record), Ok(Value::Record(vec![Value::Bool(true)])));
    assert_eq!(de.index(), 3);
    assert_eq!(
        de.deserialize_map(&record),
        Err(Error::Serde("missing field `c`".to_string()))
    );
    assert_eq!(de.index(), 3);
}

#[test]
fn record_read_starts_at_the_cursor() {
    let header = three();
    let record = Record::new(vec![Field::new("a", Shape::Optional(Box::new(Shape::Str)))]);
    let mut map = KeyValueList::new(HeaderDeserializer::new(&header));
    map.skip_value();
    assert_eq!(record.visit_map(&mut map), Ok(Value::Record(vec![Value::Absent])));
    assert_eq!(map.cursor().index(), 3);
}

#[test]
fn record_read_stops_at_the_pair_it_refuses() {
    let header = three();
    let record =
        Record { fields: vec![Field::new("a", Shape::Str)], unknown: UnknownFields::Reject };
    let mut map = KeyValueList::new(HeaderDeserializer::new(&header));
    assert_eq!(
        record.visit_map(&mut map),
        Err(Error::Serde("unknown field `b`".to_string()))
    );
    assert_eq!(map.cursor().index(), 1);
}

#[test]
fn record_as_a_value_leaves_no_pair() {
    let header = three();
    let seed = Shape::Record(Record::new(vec![Field::new("b", Shape::Str)]));
    let mut map = KeyValueList::new(HeaderDeserializer::new(&header));
    assert_eq!(map.next_value_seed(&seed), Ok(Value::Record(vec![text("")])));
    assert_eq!(map.cursor().index(), 3);
    assert_eq!(map.next_key_seed(), None);
}
