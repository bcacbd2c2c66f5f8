use serde_sqlx::data::{PgColumn, PgRow, Prim, RawValue};
use serde_sqlx::error::{DecodeError, Mismatch};
use serde_sqlx::seq_access::PgArraySeqAccess;
use serde_sqlx::from_pg_row;
use serde_sqlx::shape::Shape;
use serde_sqlx::tag::TypeTag;
use serde_sqlx::value::Value;

fn array_row(tag: TypeTag, elems: Vec<Option<Prim>>) -> PgRow {
    PgRow {
        columns: vec![PgColumn {
            name: "_0".to_string(),
            value: Ok(RawValue {
                tag,
                data: Some(Prim::Array(elems)),
            }),
        }],
    }
}

#[test]
fn pg_arr_of_bool_as_vec_bool() {
    let row = array_row(
        TypeTag::BoolArray,
        vec![Some(Prim::Bool(true)), Some(Prim::Bool(false))],
    );
    let shape = Shape::Sequence(Box::new(Shape::Bool));
    assert_eq!(
        from_pg_row(&row, &shape).unwrap(),
        Value::Array(vec![Value::Bool(true), Value::Bool(false)])
    );
}

#[test]
fn pg_arr_of_int4_as_vec_i32() {
    let row = array_row(
        TypeTag::Int4Array,
        vec![Some(Prim::I32(42)), Some(Prim::I32(0))],
    );
    let shape = Shape::Sequence(Box::new(Shape::I32));
    assert_eq!(
        from_pg_row(&row, &shape).unwrap(),
        Value::Array(vec![Value::I32(42), Value::I32(0)])
    );
}

#[test]
fn pg_arr_of_text() {
    let row = array_row(
        TypeTag::TextArray,
        vec![
            Some(Prim::Text("a string".to_string())),
            Some(Prim::Text("another string".to_string())),
        ],
    );
    let shape = Shape::Sequence(Box::new(Shape::Str));
    assert_eq!(
        from_pg_row(&row, &shape).unwrap(),
        Value::Array(vec![
            Value::Str("a string".to_string()),
            Value::Str("another string".to_string()),
        ])
    );
}

#[test]
fn pg_arr_of_text_as_vec_nullable_string() {
    let row = array_row(
        TypeTag::TextArray,
        vec![Some(Prim::Text("a string".to_string())), None],
    );
    let shape = Shape::Sequence(Box::new(Shape::Optional(Box::new(Shape::Str))));
    assert_eq!(
        from_pg_row(&row, &shape).unwrap(),
        Value::Array(vec![Value::Str("a string".to_string()), Value::Null])
    );
}

#[test]
fn pg_arr_of_varchar_as_vec_nullable_string() {
    let row = array_row(
        TypeTag::VarcharArray,
        vec![Some(Prim::Text("a string".to_string())), None],
    );
    let shape = Shape::Sequence(Box::new(Shape::Optional(Box::new(Shape::Str))));
    assert_eq!(
        from_pg_row(&row, &shape).unwrap(),
        Value::Array(vec![Value::Str("a string".to_string()), Value::Null])
    );
}

#[test]
fn null_in_non_optional_array_element_is_rejected() {
    let row = array_row(
        TypeTag::TextArray,
        vec![Some(Prim::Text("a string".to_string())), None],
    );
    let shape = Shape::Sequence(Box::new(Shape::Str));
    assert_eq!(
        from_pg_row(&row, &shape),
        Err(DecodeError::TypeMismatch(Mismatch::NullInArray))
    );
}

#[test]
fn pg_arr_of_jsonb_as_vec_of_jsvalue() {
    // two JSONB elements, each carrying the binary envelope version byte
    let row = array_row(
        TypeTag::JsonbArray,
        vec![
            Some(Prim::Bytes(vec![1, b'1'])),
            Some(Prim::Bytes(vec![1, b'2'])),
        ],
    );
    let shape = Shape::Sequence(Box::new(Shape::Any));
    assert_eq!(
        from_pg_row(&row, &shape).unwrap(),
        Value::Array(vec![Value::I64(1), Value::I64(2)])
    );
}

#[test]
fn pg_arr_of_json_as_vec_of_jsvalue() {
    let row = array_row(
        TypeTag::JsonArray,
        vec![
            Some(Prim::Bytes(b"1".to_vec())),
            Some(Prim::Bytes(b"2".to_vec())),
        ],
    );
    let shape = Shape::Sequence(Box::new(Shape::Any));
    assert_eq!(
        from_pg_row(&row, &shape).unwrap(),
        Value::Array(vec![Value::I64(1), Value::I64(2)])
    );
}

#[test]
fn array_as_any_keeps_all_elements() {
    let row = array_row(
        TypeTag::Int4Array,
        vec![Some(Prim::I32(1)), Some(Prim::I32(2)), Some(Prim::I32(3))],
    );
    assert_eq!(
        from_pg_row(&row, &Shape::Any).unwrap(),
        Value::Array(vec![Value::I32(1), Value::I32(2), Value::I32(3)])
    );
}

#[test]
fn array_as_tuple_requires_exact_arity() {
    let row = array_row(
        TypeTag::Int4Array,
        vec![Some(Prim::I32(1)), Some(Prim::I32(2))],
    );
    let good = Shape::Tuple(vec![Shape::I32, Shape::I32]);
    let bad = Shape::Tuple(vec![Shape::I32]);
    assert_eq!(
        from_pg_row(&row, &good).unwrap(),
        Value::Array(vec![Value::I32(1), Value::I32(2)])
    );
    assert_eq!(
        from_pg_row(&row, &bad),
        Err(DecodeError::TypeMismatch(Mismatch::ColumnCount {
            expected: 1,
            found: 2,
        }))
    );
}

#[test]
fn unsupported_array_kind_is_rejected() {
    let row = array_row(
        TypeTag::OtherArray("INT8[]".to_string()),
        vec![Some(Prim::I64(1))],
    );
    let shape = Shape::Sequence(Box::new(Shape::I64));
    assert_eq!(
        from_pg_row(&row, &shape),
        Err(DecodeError::Unsupported("INT8[]".to_string()))
    );
}

#[test]
fn columns_as_sequence_when_not_an_array() {
    let row = PgRow {
        columns: vec![
            PgColumn {
                name: "a".to_string(),
                value: Ok(RawValue {
                    tag: TypeTag::Int4,
                    data: Some(Prim::I32(7)),
                }),
            },
            PgColumn {
                name: "b".to_string(),
                value: Ok(RawValue {
                    tag: TypeTag::Int4,
                    data: Some(Prim::I32(8)),
                }),
            },
        ],
    };
    let shape = Shape::Sequence(Box::new(Shape::I32));
    assert_eq!(
        from_pg_row(&row, &shape).unwrap(),
        Value::Array(vec![Value::I32(7), Value::I32(8)])
    );
}

#[test]
fn array_access_yields_elements_in_order() {
    let mut access = PgArraySeqAccess::new(
        &TypeTag::TextArray,
        vec![Some(Prim::Text("a".to_string())), None],
    );
    let shape = Shape::Optional(Box::new(Shape::Str));
    assert_eq!(
        access.next_element_seed(&shape).unwrap(),
        Some(Value::Str("a".to_string()))
    );
    assert_eq!(access.next_element_seed(&shape).unwrap(), Some(Value::Null));
    assert_eq!(access.next_element_seed(&shape).unwrap(), None);
}
