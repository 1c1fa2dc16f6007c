use serde_json::{Number, Value};
use wal_rust::codec::{decode, encode, entry_from_json, operation_from, record_from_texts};
use wal_rust::{LogEntry, OperationType, WalError};

fn object(members: &[(&str, Value)]) -> Value {
    let mut made = Value::Object(Default::default());
    for (name, value) in members {
        made[*name] = value.clone();
    }
    made
}

/// An object with the members that every entry needs.
fn entry_object() -> Value {
    object(&[
        ("sequence_number", Value::from(4)),
        ("transaction_id", Value::from("txn")),
        ("operation_type", Value::from("UPDATE")),
        ("key", Value::from("k")),
        ("timestamp", Value::from(2.5)),
    ])
}

fn without(mut value: Value, name: &str) -> Value {
    value.as_object_mut().unwrap().remove(name);
    value
}

fn with(mut value: Value, name: &str, member: Value) -> Value {
    value[name] = member;
    value
}

#[test]
fn record_has_the_members_in_order() {
    let record = record_from_texts(
        1,
        b"\"t1\"",
        OperationType::INSERT,
        b"\"k1\"",
        b"null",
        b"{\"name\":\"A\"}",
        b"1.5",
    )
    .unwrap();
    assert_eq!(
        String::from_utf8(record).unwrap(),
        "{\"sequence_number\":1,\"transaction_id\":\"t1\",\"operation_type\":\"INSERT\",\
         \"key\":\"k1\",\"old_value\":null,\"new_value\":{\"name\":\"A\"},\"timestamp\":1.5}\n"
    );
}

#[test]
fn record_writes_each_operation_by_its_word() {
    for (operation, word) in [
        (OperationType::INSERT, "INSERT"),
        (OperationType::UPDATE, "UPDATE"),
        (OperationType::DELETE, "DELETE"),
    ] {
        let record =
            record_from_texts(18446744073709551615, b"1", operation, b"2", b"3", b"4", b"5")
                .unwrap();
        assert_eq!(
            String::from_utf8(record).unwrap(),
            format!(
                "{{\"sequence_number\":18446744073709551615,\"transaction_id\":1,\
                 \"operation_type\":\"{}\",\"key\":2,\"old_value\":3,\"new_value\":4,\
                 \"timestamp\":5}}\n",
                word
            )
        );
        assert_eq!(operation.as_str(), word);
    }
}

#[test]
fn record_with_a_line_feed_inside_is_refused() {
    let texts: [&[u8]; 5] = [b"\"t\"", b"\"k\"", b"null", b"null", b"0"];
    for broken in 0..5 {
        let mut parts: Vec<Vec<u8>> = texts.iter().map(|text| text.to_vec()).collect();
        parts[broken].insert(1, b'\n');
        let refused = record_from_texts(
            1,
            &parts[0],
            OperationType::INSERT,
            &parts[1],
            &parts[2],
            &parts[3],
            &parts[4],
        );
        assert_eq!(refused, Err(WalError::Serialization));
    }
    let carriage_return = record_from_texts(
        1,
        b"\"t\r\"",
        OperationType::INSERT,
        b"\"k\"",
        b"null",
        b"null",
        b"0",
    );
    assert!(carriage_return.is_ok());
}

#[test]
fn encode_writes_what_serde_json_writes_for_each_member() {
    let entry = LogEntry::with_timestamp(
        12,
        "tx \"1\"".to_string(),
        OperationType::DELETE,
        "k\n\\é".to_string(),
        Some(object(&[("b", Value::from(1)), ("a", Value::Null)])),
        None,
        Number::from_f64(1700000000.25).unwrap(),
    );
    let record = encode(&entry).unwrap();
    assert_eq!(
        String::from_utf8(record).unwrap(),
        "{\"sequence_number\":12,\"transaction_id\":\"tx \\\"1\\\"\",\
         \"operation_type\":\"DELETE\",\"key\":\"k\\n\\\\é\",\
         \"old_value\":{\"a\":null,\"b\":1},\"new_value\":null,\
         \"timestamp\":1700000000.25}\n"
    );
}

#[test]
fn encode_then_decode_gives_the_entry_back() {
    let entry = LogEntry::with_timestamp(
        77,
        "txn \u{1F600}".to_string(),
        OperationType::UPDATE,
        "".to_string(),
        Some(Value::Array(vec![Value::from(1.5), Value::from("x"), Value::from(false)])),
        Some(object(&[("deep", object(&[("deeper", Value::Array(vec![]))]))])),
        Number::from(1700000000u64),
    );
    let record = encode(&entry).unwrap();
    let line = &record[..record.len() - 1];
    let read = decode(line).unwrap();
    assert_eq!(read.sequence_number, entry.sequence_number);
    assert_eq!(read.transaction_id, entry.transaction_id);
    assert_eq!(read.operation_type, entry.operation_type);
    assert_eq!(read.key, entry.key);
    assert_eq!(read.old_value, entry.old_value);
    assert_eq!(read.new_value, entry.new_value);
    assert_eq!(read.timestamp, entry.timestamp);
}

#[test]
fn decode_reads_every_member() {
    let line = b"{\"key\":\"k1\",\"new_value\":{\"name\":\"A\"},\"old_value\":[1,2],\
                 \"operation_type\":\"INSERT\",\"sequence_number\":3,\"timestamp\":1.25,\
                 \"transaction_id\":\"t1\"}";
    let entry = decode(line).unwrap();
    assert_eq!(entry.sequence_number, 3);
    assert_eq!(entry.transaction_id, "t1");
    assert_eq!(entry.operation_type, OperationType::INSERT);
    assert_eq!(entry.key, "k1");
    assert_eq!(entry.old_value, Some(Value::Array(vec![Value::from(1), Value::from(2)])));
    assert_eq!(entry.new_value, Some(object(&[("name", Value::from("A"))])));
    assert_eq!(entry.timestamp, Number::from_f64(1.25).unwrap());
}

#[test]
fn decode_refuses_what_is_not_json() {
    assert!(decode(b"invalid entry").is_none());
    assert!(decode(b"").is_none());
    assert!(decode(b"{\"sequence_number\":1,").is_none());
    assert!(decode(b"{} {}").is_none());
    assert!(decode(&[b'{', b'"', 0xFF, b'"', b':', b'1', b'}']).is_none());
}

#[test]
fn entry_needs_an_object() {
    assert!(entry_from_json(&entry_object()).is_some());
    assert!(entry_from_json(&Value::Null).is_none());
    assert!(entry_from_json(&Value::from("sequence_number")).is_none());
    assert!(entry_from_json(&Value::from(1)).is_none());
    assert!(entry_from_json(&Value::Array(vec![
        Value::from(4),
        Value::from("txn"),
        Value::from("UPDATE"),
        Value::from("k"),
        Value::Null,
        Value::Null,
        Value::from(2.5),
    ]))
    .is_none());
    assert!(entry_from_json(&object(&[])).is_none());
}

#[test]
fn entry_needs_each_required_member() {
    for name in ["sequence_number", "transaction_id", "operation_type", "key", "timestamp"] {
        assert!(entry_from_json(&without(entry_object(), name)).is_none(), "{}", name);
        assert!(entry_from_json(&with(entry_object(), name, Value::Null)).is_none(), "{}", name);
    }
}

#[test]
fn sequence_number_is_an_integer_that_fits() {
    let read = |member: Value| entry_from_json(&with(entry_object(), "sequence_number", member));
    assert_eq!(read(Value::from(0)).unwrap().sequence_number, 0);
    assert_eq!(read(Value::from(u64::MAX)).unwrap().sequence_number, u64::MAX);
    assert!(read(Value::from(-1)).is_none());
    assert!(read(Value::from(1.0)).is_none());
    assert!(read(Value::from("1")).is_none());
    assert!(read(Value::from(true)).is_none());
    assert!(decode(
        b"{\"sequence_number\":18446744073709551616,\"transaction_id\":\"t\",\
          \"operation_type\":\"INSERT\",\"key\":\"k\",\"timestamp\":1}"
    )
    .is_none());
}

#[test]
fn strings_must_be_strings() {
    for name in ["transaction_id", "key", "operation_type"] {
        for member in [Value::from(1), Value::from(true), Value::Array(vec![]), object(&[])] {
            assert!(entry_from_json(&with(entry_object(), name, member)).is_none());
        }
    }
    let empty = entry_from_json(&with(
        with(entry_object(), "transaction_id", Value::from("")),
        "key",
        Value::from(""),
    ))
    .unwrap();
    assert_eq!(empty.transaction_id, "");
    assert_eq!(empty.key, "");
}

#[test]
fn operation_is_one_of_three_words() {
    assert_eq!(operation_from("INSERT"), Some(OperationType::INSERT));
    assert_eq!(operation_from("UPDATE"), Some(OperationType::UPDATE));
    assert_eq!(operation_from("DELETE"), Some(OperationType::DELETE));
    for word in ["insert", "Insert", "INSERT ", " INSERT", "", "UPSERT", "INSER", "INSERTS"] {
        assert_eq!(operation_from(word), None, "{:?}", word);
        assert!(
            entry_from_json(&with(entry_object(), "operation_type", Value::from(word))).is_none()
        );
    }
    let tagged = object(&[("INSERT", Value::Null)]);
    assert!(entry_from_json(&with(entry_object(), "operation_type", tagged)).is_none());
}

#[test]
fn payloads_may_be_missing_or_null() {
    let bare = entry_from_json(&entry_object()).unwrap();
    assert_eq!(bare.old_value, None);
    assert_eq!(bare.new_value, None);

    let nulls = with(with(entry_object(), "old_value", Value::Null), "new_value", Value::Null);
    let read = entry_from_json(&nulls).unwrap();
    assert_eq!(read.old_value, None);
    assert_eq!(read.new_value, None);

    for payload in [
        Value::from(false),
        Value::from(0),
        Value::from(""),
        Value::Array(vec![Value::Null]),
        object(&[]),
    ] {
        let given = with(
            with(entry_object(), "old_value", payload.clone()),
            "new_value",
            payload.clone(),
        );
        let read = entry_from_json(&given).unwrap();
        assert_eq!(read.old_value, Some(payload.clone()));
        assert_eq!(read.new_value, Some(payload));
    }

    let only_old = entry_from_json(&with(entry_object(), "old_value", Value::from(1))).unwrap();
    assert_eq!(only_old.old_value, Some(Value::from(1)));
    assert_eq!(only_old.new_value, None);
}

#[test]
fn timestamp_is_any_number() {
    let read = |member: Value| entry_from_json(&with(entry_object(), "timestamp", member));
    assert_eq!(read(Value::from(2.5)).unwrap().timestamp, Number::from_f64(2.5).unwrap());
    assert_eq!(read(Value::from(7)).unwrap().timestamp, Number::from(7));
    assert_eq!(read(Value::from(-7)).unwrap().timestamp, Number::from(-7));
    assert!(read(Value::from("2.5")).is_none());
    assert!(read(Value::from(false)).is_none());
}

#[test]
fn other_members_are_ignored() {
    let extended = with(entry_object(), "checksum", Value::from("abc"));
    let read = entry_from_json(&extended).unwrap();
    assert_eq!(read.sequence_number, 4);
    assert_eq!(read.transaction_id, "txn");
    assert_eq!(read.operation_type, OperationType::UPDATE);
    assert_eq!(read.key, "k");
    assert_eq!(read.timestamp, Number::from_f64(2.5).unwrap());
}
