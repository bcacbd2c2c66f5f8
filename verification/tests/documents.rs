use serde_sqlx::data::{PgColumn, PgRow, Prim, RawValue};
use serde_sqlx::error::{DecodeError, FormatIssue, Mismatch};
use serde_sqlx::from_pg_row;
use serde_sqlx::deserializers::PgValueDeserializer;
use serde_sqlx::json::{parse_document, PgJsonDeserializer};
use serde_sqlx::map_access::JsonValueMapAccess;
use serde_sqlx::shape::{Field, Shape};
use serde_sqlx::tag::TypeTag;
use serde_sqlx::value::{DocValue, Value};

fn json_row(name: &str, text: &str) -> PgRow {
    PgRow {
        columns: vec![PgColumn {
            name: name.to_string(),
            value: Ok(RawValue {
                tag: TypeTag::Json,
                data: Some(Prim::Bytes(text.as_bytes().to_vec())),
            }),
        }],
    }
}

fn jsonb_row(name: &str, payload: Vec<u8>) -> PgRow {
    PgRow {
        columns: vec![PgColumn {
            name: name.to_string(),
            value: Ok(RawValue {
                tag: TypeTag::Jsonb,
                data: Some(Prim::Bytes(payload)),
            }),
        }],
    }
}

fn field(name: &str, shape: Shape) -> Field {
    Field {
        name: name.to_string(),
        shape,
        flatten: false,
    }
}

fn one_two_three() -> Shape {
    Shape::Record(vec![
        field("one", Shape::I32),
        field("two", Shape::I32),
        field("three", Shape::I32),
    ])
}

#[test]
fn single_json_field_into_a_record() {
    let row = json_row("value", r#"{"one": 1, "two": 2, "three": 3}"#);
    assert_eq!(
        from_pg_row(&row, &one_two_three()).unwrap(),
        Value::Object(vec![
            ("one".to_string(), Value::I32(1)),
            ("two".to_string(), Value::I32(2)),
            ("three".to_string(), Value::I32(3)),
        ])
    );
}

#[test]
fn single_json_field_into_a_record_field() {
    // the record's only field is absent from the object, so the whole
    // object becomes that field's value
    let row = json_row("json_record", r#"{"one": 1, "two": 2, "three": 3}"#);
    let shape = Shape::Record(vec![field("json_record", one_two_three())]);
    assert_eq!(
        from_pg_row(&row, &shape).unwrap(),
        Value::Object(vec![(
            "json_record".to_string(),
            Value::Object(vec![
                ("one".to_string(), Value::I32(1)),
                ("two".to_string(), Value::I32(2)),
                ("three".to_string(), Value::I32(3)),
            ])
        )])
    );
}

#[test]
fn one_field_record_present_in_object_decodes_directly() {
    let row = json_row("value", r#"{"json_record": 7}"#);
    let shape = Shape::Record(vec![field("json_record", Shape::I32)]);
    assert_eq!(
        from_pg_row(&row, &shape).unwrap(),
        Value::Object(vec![("json_record".to_string(), Value::I32(7))])
    );
}

#[test]
fn multi_field_record_requires_all_keys() {
    let row = json_row("value", r#"{"one": 1, "two": 2}"#);
    assert_eq!(
        from_pg_row(&row, &one_two_three()),
        Err(DecodeError::TypeMismatch(Mismatch::MissingDocKeys {
            wanted: vec!["one".to_string(), "two".to_string(), "three".to_string()],
            present: vec!["one".to_string(), "two".to_string()],
        }))
    );
}

#[test]
fn test_query_stats_from_json_field() {
    let row = json_row(
        "query_stats",
        r#"{"query": "dummy query", "calls": 10, "total_exec_time": 123.45, "mean_exec_time": 12.34, "rows": 100, "total_blocks": 256}"#,
    );
    let stats = Shape::Record(vec![
        field("query", Shape::Str),
        field("calls", Shape::I64),
        field("total_exec_time", Shape::F64),
        field("mean_exec_time", Shape::F64),
        field("rows", Shape::I64),
        field("total_blocks", Shape::I64),
    ]);
    let shape = Shape::Record(vec![field("query_stats", stats)]);
    let got = from_pg_row(&row, &shape).unwrap();
    // document numbers that are not integers keep their literal text
    assert_eq!(
        got,
        Value::Object(vec![(
            "query_stats".to_string(),
            Value::Object(vec![
                ("query".to_string(), Value::Str("dummy query".to_string())),
                ("calls".to_string(), Value::I64(10)),
                ("total_exec_time".to_string(), Value::NumLit("123.45".to_string())),
                ("mean_exec_time".to_string(), Value::NumLit("12.34".to_string())),
                ("rows".to_string(), Value::I64(100)),
                ("total_blocks".to_string(), Value::I64(256)),
            ])
        )])
    );
    // and that text parses to the same double the reference parser sees
    let sj: serde_json::Value =
        serde_json::from_str(r#"{"total_exec_time": 123.45}"#).unwrap();
    let expected = sj.get("total_exec_time").unwrap().as_f64().unwrap();
    assert_eq!("123.45".parse::<f64>().unwrap(), expected);
}

#[test]
fn binary_envelope_version_byte_is_stripped() {
    let mut payload = vec![1u8];
    payload.extend_from_slice(br#"{"one": 1}"#);
    let row = jsonb_row("value", payload);
    let shape = Shape::Record(vec![field("one", Shape::I32)]);
    assert_eq!(
        from_pg_row(&row, &shape).unwrap(),
        Value::Object(vec![("one".to_string(), Value::I32(1))])
    );
}

#[test]
fn binary_and_text_variants_agree() {
    let text = r#"{"a": [1, true, null, "x"]}"#;
    let mut payload = vec![1u8];
    payload.extend_from_slice(text.as_bytes());
    let via_binary = parse_document(&payload, true).unwrap();
    let via_text = parse_document(&text.as_bytes().to_vec(), false).unwrap();
    assert_eq!(via_binary, via_text);
}

#[test]
fn empty_binary_payload_is_a_format_error() {
    assert_eq!(
        parse_document(&Vec::new(), true),
        Err(DecodeError::Format(FormatIssue::EmptyBinaryPayload))
    );
}

#[test]
fn wrong_version_byte_is_a_format_error() {
    let payload = vec![2u8, b'1'];
    assert_eq!(
        parse_document(&payload, true),
        Err(DecodeError::Format(FormatIssue::BadVersionByte(2)))
    );
}

#[test]
fn json_scalar_decodes_directly() {
    let row = json_row("value", "42");
    assert_eq!(from_pg_row(&row, &Shape::I64).unwrap(), Value::I64(42));
    assert_eq!(from_pg_row(&row, &Shape::Any).unwrap(), Value::I64(42));
}

#[test]
fn json_object_as_mapping() {
    // a map request walks the columns, so the document appears under its
    // column's name
    let row = json_row("value", r#"{"one": "1", "two": "2"}"#);
    let shape = Shape::Mapping(Box::new(Shape::Mapping(Box::new(Shape::Str))));
    assert_eq!(
        from_pg_row(&row, &shape).unwrap(),
        Value::Object(vec![(
            "value".to_string(),
            Value::Object(vec![
                ("one".to_string(), Value::Str("1".to_string())),
                ("two".to_string(), Value::Str("2".to_string())),
            ])
        )])
    );
}

#[test]
fn json_scalar_as_mapping_is_not_an_object() {
    let row = json_row("value", r#"{"m": 42}"#);
    let shape = Shape::Record(vec![field("m", Shape::Mapping(Box::new(Shape::Str)))]);
    assert_eq!(
        from_pg_row(&row, &shape),
        Err(DecodeError::TypeMismatch(Mismatch::NotAnObject))
    );
}

#[test]
fn json_nested_arrays_and_records() {
    let row = json_row("value", r#"{"items": [{"n": 1}, {"n": 2}]}"#);
    let inner = Shape::Record(vec![field("n", Shape::I32)]);
    let shape = Shape::Record(vec![field("items", Shape::Sequence(Box::new(inner)))]);
    assert_eq!(
        from_pg_row(&row, &shape).unwrap(),
        Value::Object(vec![(
            "items".to_string(),
            Value::Array(vec![
                Value::Object(vec![("n".to_string(), Value::I32(1))]),
                Value::Object(vec![("n".to_string(), Value::I32(2))]),
            ])
        )])
    );
}

#[test]
fn null_document_column_is_a_driver_error() {
    let row = PgRow {
        columns: vec![PgColumn {
            name: "value".to_string(),
            value: Ok(RawValue {
                tag: TypeTag::Json,
                data: None,
            }),
        }],
    };
    let shape = Shape::Record(vec![field("one", Shape::I32)]);
    assert_eq!(
        from_pg_row(&row, &shape),
        Err(DecodeError::Driver {
            target: "json".to_string(),
            tag: "JSON".to_string(),
        })
    );
}

#[test]
fn parser_agrees_with_reference_parser() {
    let text = r#"{"a": [1, -2, "x\nA", true, null], "b": {"c": 3}}"#;
    let parsed = parse_document(&text.as_bytes().to_vec(), false).unwrap();
    let sj: serde_json::Value = serde_json::from_str(text).unwrap();
    match parsed {
        DocValue::Entries(entries) => {
            assert_eq!(entries.len(), sj.as_object().unwrap().len());
            assert_eq!(entries[0].0, "a");
            match &entries[0].1 {
                DocValue::Items(items) => {
                    let sj_items = sj.get("a").unwrap().as_array().unwrap();
                    assert_eq!(items.len(), sj_items.len());
                    assert_eq!(items[0], DocValue::Int(sj_items[0].as_i64().unwrap()));
                    assert_eq!(items[1], DocValue::Int(sj_items[1].as_i64().unwrap()));
                    assert_eq!(
                        items[2],
                        DocValue::Text(sj_items[2].as_str().unwrap().to_string())
                    );
                    assert_eq!(items[3], DocValue::Bool(true));
                    assert_eq!(items[4], DocValue::Null);
                }
                other => panic!("unexpected value {:?}", other),
            }
            assert_eq!(entries[1].0, "b");
            assert_eq!(
                entries[1].1,
                DocValue::Entries(vec![("c".to_string(), DocValue::Int(3))])
            );
        }
        other => panic!("unexpected value {:?}", other),
    }
}

#[test]
fn parser_handles_surrogate_pairs() {
    let text = "\"\\ud83d\\ude00\"";
    let parsed = parse_document(&text.as_bytes().to_vec(), false).unwrap();
    let sj: serde_json::Value = serde_json::from_str(text).unwrap();
    assert_eq!(parsed, DocValue::Text(sj.as_str().unwrap().to_string()));
}

#[test]
fn parser_rejects_malformed_documents() {
    for bad in ["{", "01", "1 2", "-", "[1,]", "{\"a\"}", "tru"] {
        assert_eq!(
            parse_document(&bad.as_bytes().to_vec(), false),
            Err(DecodeError::Format(FormatIssue::Syntax)),
            "expected a syntax error for {:?}",
            bad
        );
        assert!(serde_json::from_str::<serde_json::Value>(bad).is_err());
    }
}

#[test]
fn parser_rejects_invalid_utf8_in_strings() {
    let payload = vec![0x22u8, 0xff, 0x22];
    assert_eq!(
        parse_document(&payload, false),
        Err(DecodeError::Format(FormatIssue::InvalidUtf8))
    );
}

#[test]
fn parser_keeps_big_integers() {
    let parsed = parse_document(&b"9223372036854775807".to_vec(), false).unwrap();
    assert_eq!(parsed, DocValue::Int(i64::MAX));
    let parsed = parse_document(&b"9223372036854775808".to_vec(), false).unwrap();
    assert_eq!(parsed, DocValue::UInt(9223372036854775808));
    let parsed = parse_document(&b"-9223372036854775808".to_vec(), false).unwrap();
    assert_eq!(parsed, DocValue::Int(i64::MIN));
}

#[test]
fn is_json_looks_at_the_first_column() {
    let row = json_row("value", "1");
    let de = serde_sqlx::deserializers::PgRowDeserializer::new(&row);
    assert!(de.is_json());
    let plain = PgRow {
        columns: vec![PgColumn {
            name: "value".to_string(),
            value: Ok(RawValue {
                tag: TypeTag::Int4,
                data: Some(Prim::I32(1)),
            }),
        }],
    };
    let de = serde_sqlx::deserializers::PgRowDeserializer::new(&plain);
    assert!(!de.is_json());
}

#[test]
fn json_map_access_walks_an_object() {
    let doc = parse_document(&br#"{"a": 1, "b": 2}"#.to_vec(), false).unwrap();
    let mut access = JsonValueMapAccess::new(doc).unwrap();
    assert_eq!(access.next_key_seed(), Some("a".to_string()));
    assert_eq!(access.next_value_seed(&Shape::I32).unwrap(), Value::I32(1));
    assert_eq!(access.next_key_seed(), Some("b".to_string()));
    assert_eq!(access.next_value_seed(&Shape::I32).unwrap(), Value::I32(2));
    assert_eq!(access.next_key_seed(), None);
}

#[test]
fn json_map_access_refuses_a_scalar() {
    let doc = parse_document(&b"42".to_vec(), false).unwrap();
    assert_eq!(
        JsonValueMapAccess::new(doc).err(),
        Some(DecodeError::TypeMismatch(Mismatch::NotAnObject))
    );
}

#[test]
fn value_deserializer_decodes_one_column() {
    let raw = RawValue {
        tag: TypeTag::Int4,
        data: Some(Prim::I32(7)),
    };
    let de = PgValueDeserializer { value: &raw };
    assert_eq!(de.deserialize_any().unwrap(), Value::I32(7));
    let absent = RawValue {
        tag: TypeTag::Int4,
        data: None,
    };
    let de = PgValueDeserializer { value: &absent };
    assert_eq!(de.deserialize_option(&Shape::I32).unwrap(), Value::Null);
}

#[test]
fn json_deserializer_reads_a_document_as_it_is() {
    let doc = parse_document(&br#"{"a": 1, "b": [true, "x"]}"#.to_vec(), false).unwrap();
    let de = PgJsonDeserializer { value: doc };
    assert_eq!(
        de.deserialize_any(),
        Value::Object(vec![
            ("a".to_string(), Value::I64(1)),
            (
                "b".to_string(),
                Value::Array(vec![Value::Bool(true), Value::Str("x".to_string())])
            ),
        ])
    );
}
