use serde_sqlx::data::{PgColumn, PgRow, Prim, RawValue};
use serde_sqlx::error::{DecodeError, Mismatch};
use serde_sqlx::from_pg_row;
use serde_sqlx::shape::Shape;
use serde_sqlx::tag::TypeTag;
use serde_sqlx::value::Value;

fn col(name: &str, tag: TypeTag, data: Option<Prim>) -> PgColumn {
    PgColumn {
        name: name.to_string(),
        value: Ok(RawValue { tag, data }),
    }
}

fn one_col_row(tag: TypeTag, data: Option<Prim>) -> PgRow {
    PgRow {
        columns: vec![col("value", tag, data)],
    }
}

#[test]
fn unannotated_as_string() {
    let row = one_col_row(TypeTag::Text, Some(Prim::Text("a string".to_string())));
    let got = from_pg_row(&row, &Shape::Str).unwrap();
    assert_eq!(got, Value::Str("a string".to_string()));
}

#[test]
fn bpchar_as_string() {
    let row = one_col_row(TypeTag::Bpchar, Some(Prim::Text("a string".to_string())));
    assert_eq!(
        from_pg_row(&row, &Shape::Str).unwrap(),
        Value::Str("a string".to_string())
    );
}

#[test]
fn varchar_as_string() {
    let row = one_col_row(TypeTag::Varchar, Some(Prim::Text("a string".to_string())));
    assert_eq!(
        from_pg_row(&row, &Shape::Str).unwrap(),
        Value::Str("a string".to_string())
    );
}

#[test]
fn text_as_string_opt() {
    let present = one_col_row(TypeTag::Text, Some(Prim::Text("a string".to_string())));
    let absent = one_col_row(TypeTag::Text, None);
    let shape = Shape::Optional(Box::new(Shape::Str));
    assert_eq!(
        from_pg_row(&present, &shape).unwrap(),
        Value::Str("a string".to_string())
    );
    assert_eq!(from_pg_row(&absent, &shape).unwrap(), Value::Null);
}

#[test]
fn null_scalar_is_rejected() {
    let absent = one_col_row(TypeTag::Text, None);
    assert_eq!(
        from_pg_row(&absent, &Shape::Str),
        Err(DecodeError::TypeMismatch(Mismatch::NullScalar))
    );
}

#[test]
fn unannotated_as_bool() {
    let t = one_col_row(TypeTag::Bool, Some(Prim::Bool(true)));
    let f = one_col_row(TypeTag::Bool, Some(Prim::Bool(false)));
    assert_eq!(from_pg_row(&t, &Shape::Bool).unwrap(), Value::Bool(true));
    assert_eq!(from_pg_row(&f, &Shape::Bool).unwrap(), Value::Bool(false));
}

#[test]
fn t_unannotated_as_bool_opt() {
    let absent = one_col_row(TypeTag::Bool, None);
    let shape = Shape::Optional(Box::new(Shape::Bool));
    assert_eq!(from_pg_row(&absent, &shape).unwrap(), Value::Null);
}

#[test]
fn int2_as_i16() {
    let row = one_col_row(TypeTag::Int2, Some(Prim::I16(42)));
    assert_eq!(from_pg_row(&row, &Shape::I16).unwrap(), Value::I16(42));
}

#[test]
fn int2_as_i32() {
    let row = one_col_row(TypeTag::Int2, Some(Prim::I16(42)));
    assert_eq!(from_pg_row(&row, &Shape::I32).unwrap(), Value::I32(42));
}

#[test]
fn int2_as_i64() {
    let row = one_col_row(TypeTag::Int2, Some(Prim::I16(42)));
    assert_eq!(from_pg_row(&row, &Shape::I64).unwrap(), Value::I64(42));
}

#[test]
fn int4_as_i32() {
    let row = one_col_row(TypeTag::Int4, Some(Prim::I32(42)));
    assert_eq!(from_pg_row(&row, &Shape::I32).unwrap(), Value::I32(42));
}

#[test]
fn int4_as_i64() {
    let row = one_col_row(TypeTag::Int4, Some(Prim::I32(42)));
    assert_eq!(from_pg_row(&row, &Shape::I64).unwrap(), Value::I64(42));
}

#[test]
fn int8_as_i64() {
    let row = one_col_row(TypeTag::Int8, Some(Prim::I64(42)));
    assert_eq!(from_pg_row(&row, &Shape::I64).unwrap(), Value::I64(42));
}

#[test]
fn int8_as_i64_opt() {
    let row = one_col_row(TypeTag::Int8, Some(Prim::I64(42)));
    let shape = Shape::Optional(Box::new(Shape::I64));
    assert_eq!(from_pg_row(&row, &shape).unwrap(), Value::I64(42));
}

#[test]
fn narrowing_within_range_succeeds() {
    let row = one_col_row(TypeTag::Int4, Some(Prim::I32(1000)));
    assert_eq!(from_pg_row(&row, &Shape::I16).unwrap(), Value::I16(1000));
}

#[test]
fn narrowing_out_of_range_is_rejected() {
    let row = one_col_row(TypeTag::Int4, Some(Prim::I32(40000)));
    assert_eq!(
        from_pg_row(&row, &Shape::I16),
        Err(DecodeError::TypeMismatch(Mismatch::OutOfRange))
    );
}

#[test]
fn real_negative_as_f32() {
    let bits = (-4.2f32).to_bits();
    let row = one_col_row(TypeTag::Float4, Some(Prim::F32Bits(bits)));
    match from_pg_row(&row, &Shape::F32).unwrap() {
        Value::F32Bits(b) => assert_eq!(f32::from_bits(b), -4.2f32),
        other => panic!("unexpected value {:?}", other),
    }
}

#[test]
fn real_nan_as_f32() {
    let bits = f32::NAN.to_bits();
    let row = one_col_row(TypeTag::Float4, Some(Prim::F32Bits(bits)));
    match from_pg_row(&row, &Shape::F32).unwrap() {
        Value::F32Bits(b) => assert!(f32::from_bits(b).is_nan(), "Expected NaN for f32"),
        other => panic!("unexpected value {:?}", other),
    }
}

#[test]
fn double_precision_nan_as_f64() {
    let bits = f64::NAN.to_bits();
    let row = one_col_row(TypeTag::Float8, Some(Prim::F64Bits(bits)));
    match from_pg_row(&row, &Shape::F64).unwrap() {
        Value::F64Bits(b) => assert!(f64::from_bits(b).is_nan(), "Expected NaN for f64"),
        other => panic!("unexpected value {:?}", other),
    }
}

#[test]
fn double_precision_infinity_as_f64() {
    let bits = f64::INFINITY.to_bits();
    let row = one_col_row(TypeTag::Float8, Some(Prim::F64Bits(bits)));
    match from_pg_row(&row, &Shape::F64).unwrap() {
        Value::F64Bits(b) => {
            assert!(
                f64::from_bits(b).is_infinite() && f64::from_bits(b) > 0.0,
                "Expected positive infinity"
            );
        }
        other => panic!("unexpected value {:?}", other),
    }
}

#[test]
fn double_precision_negative_infinity_as_f64() {
    let bits = f64::NEG_INFINITY.to_bits();
    let row = one_col_row(TypeTag::Float8, Some(Prim::F64Bits(bits)));
    match from_pg_row(&row, &Shape::F64).unwrap() {
        Value::F64Bits(b) => {
            assert!(
                f64::from_bits(b).is_infinite() && f64::from_bits(b) < 0.0,
                "Expected negative infinity"
            );
        }
        other => panic!("unexpected value {:?}", other),
    }
}

#[test]
fn real_as_f32_newtype() {
    let bits = 4.2f32.to_bits();
    let row = one_col_row(TypeTag::Float4, Some(Prim::F32Bits(bits)));
    let shape = Shape::NewtypeStruct(Box::new(Shape::F32));
    assert_eq!(from_pg_row(&row, &shape).unwrap(), Value::F32Bits(bits));
}

#[test]
fn double_precision_as_f64_newtype() {
    let bits = 4.2f64.to_bits();
    let row = one_col_row(TypeTag::Float8, Some(Prim::F64Bits(bits)));
    let shape = Shape::NewtypeStruct(Box::new(Shape::F64));
    assert_eq!(from_pg_row(&row, &shape).unwrap(), Value::F64Bits(bits));
}

#[test]
fn unannotated_as_i32_newtype() {
    let row = one_col_row(TypeTag::Int4, Some(Prim::I32(1)));
    let shape = Shape::NewtypeStruct(Box::new(Shape::I32));
    assert_eq!(from_pg_row(&row, &shape).unwrap(), Value::I32(1));
}

#[test]
fn bytea_round_trip() {
    let row = one_col_row(TypeTag::Bytea, Some(Prim::Bytes(vec![0, 1, 255])));
    assert_eq!(
        from_pg_row(&row, &Shape::Bytes).unwrap(),
        Value::Bytes(vec![0, 1, 255])
    );
}

#[test]
fn unknown_tag_falls_back_to_string() {
    let row = one_col_row(
        TypeTag::Other("CITEXT".to_string()),
        Some(Prim::Text("hello".to_string())),
    );
    assert_eq!(
        from_pg_row(&row, &Shape::Str).unwrap(),
        Value::Str("hello".to_string())
    );
}

#[test]
fn unknown_tag_without_text_is_unsupported() {
    let row = one_col_row(TypeTag::Other("POINT".to_string()), Some(Prim::Bytes(vec![1])));
    assert_eq!(
        from_pg_row(&row, &Shape::Str),
        Err(DecodeError::Unsupported("POINT".to_string()))
    );
}

#[test]
fn driver_rejection_names_target_and_tag() {
    let row = one_col_row(TypeTag::Int4, Some(Prim::Bool(true)));
    assert_eq!(
        from_pg_row(&row, &Shape::I32),
        Err(DecodeError::Driver {
            target: "i32".to_string(),
            tag: "INT4".to_string(),
        })
    );
}

#[test]
fn access_failure_is_surfaced_verbatim() {
    let row = PgRow {
        columns: vec![PgColumn {
            name: "value".to_string(),
            value: Err("row source failed".to_string()),
        }],
    };
    assert_eq!(
        from_pg_row(&row, &Shape::I32),
        Err(DecodeError::Access("row source failed".to_string()))
    );
}

#[test]
fn empty_row_decodes_to_unit() {
    let row = PgRow { columns: vec![] };
    assert_eq!(from_pg_row(&row, &Shape::Any).unwrap(), Value::Unit);
}

#[test]
fn scalar_over_several_columns_is_rejected() {
    let row = PgRow {
        columns: vec![
            col("a", TypeTag::Int4, Some(Prim::I32(1))),
            col("b", TypeTag::Int4, Some(Prim::I32(2))),
        ],
    };
    assert_eq!(
        from_pg_row(&row, &Shape::I32),
        Err(DecodeError::TypeMismatch(Mismatch::WrongType))
    );
}
