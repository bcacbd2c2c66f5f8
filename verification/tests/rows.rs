use serde_sqlx::data::{PgColumn, PgRow, Prim, RawValue};
use serde_sqlx::error::{DecodeError, Mismatch};
use serde_sqlx::from_pg_row;
use serde_sqlx::shape::{Field, Shape};
use serde_sqlx::tag::TypeTag;
use serde_sqlx::value::Value;

fn col(name: &str, tag: TypeTag, data: Option<Prim>) -> PgColumn {
    PgColumn {
        name: name.to_string(),
        value: Ok(RawValue { tag, data }),
    }
}

fn field(name: &str, shape: Shape) -> Field {
    Field {
        name: name.to_string(),
        shape,
        flatten: false,
    }
}

fn flat(name: &str, shape: Shape) -> Field {
    Field {
        name: name.to_string(),
        shape,
        flatten: true,
    }
}

fn two_field_row() -> PgRow {
    PgRow {
        columns: vec![
            col("first_field", TypeTag::Bool, Some(Prim::Bool(true))),
            col("second_field", TypeTag::Int4, Some(Prim::I32(42))),
        ],
    }
}

#[test]
fn one_prim_field_struct() {
    let row = PgRow {
        columns: vec![col("the_field", TypeTag::Bool, Some(Prim::Bool(true)))],
    };
    let shape = Shape::Record(vec![field("the_field", Shape::Bool)]);
    assert_eq!(
        from_pg_row(&row, &shape).unwrap(),
        Value::Object(vec![("the_field".to_string(), Value::Bool(true))])
    );
}

#[test]
fn two_prim_field_struct() {
    let shape = Shape::Record(vec![
        field("first_field", Shape::Bool),
        field("second_field", Shape::I32),
    ]);
    assert_eq!(
        from_pg_row(&two_field_row(), &shape).unwrap(),
        Value::Object(vec![
            ("first_field".to_string(), Value::Bool(true)),
            ("second_field".to_string(), Value::I32(42)),
        ])
    );
}

#[test]
fn tuple() {
    let shape = Shape::Tuple(vec![Shape::Bool, Shape::I32]);
    assert_eq!(
        from_pg_row(&two_field_row(), &shape).unwrap(),
        Value::Array(vec![Value::Bool(true), Value::I32(42)])
    );
}

#[test]
fn tuple_struct() {
    // a tuple struct decodes as a tuple of its parts
    let shape = Shape::Tuple(vec![Shape::Bool, Shape::I32]);
    assert_eq!(
        from_pg_row(&two_field_row(), &shape).unwrap(),
        Value::Array(vec![Value::Bool(true), Value::I32(42)])
    );
}

#[test]
fn a_one_item_tuple() {
    let row = PgRow {
        columns: vec![col("_0", TypeTag::Bool, Some(Prim::Bool(true)))],
    };
    let shape = Shape::Tuple(vec![Shape::Bool]);
    assert_eq!(
        from_pg_row(&row, &shape).unwrap(),
        Value::Array(vec![Value::Bool(true)])
    );
}

#[test]
fn tuple_arity_must_match_column_count() {
    let shape = Shape::Tuple(vec![Shape::Bool]);
    assert_eq!(
        from_pg_row(&two_field_row(), &shape),
        Err(DecodeError::TypeMismatch(Mismatch::ColumnCount {
            expected: 1,
            found: 2,
        }))
    );
}

#[test]
fn text_columns_into_hashmap() {
    let row = PgRow {
        columns: vec![
            col("one", TypeTag::Text, Some(Prim::Text("1".to_string()))),
            col("two", TypeTag::Text, Some(Prim::Text("2".to_string()))),
            col("three", TypeTag::Text, Some(Prim::Text("3".to_string()))),
        ],
    };
    let shape = Shape::Mapping(Box::new(Shape::Str));
    assert_eq!(
        from_pg_row(&row, &shape).unwrap(),
        Value::Object(vec![
            ("one".to_string(), Value::Str("1".to_string())),
            ("two".to_string(), Value::Str("2".to_string())),
            ("three".to_string(), Value::Str("3".to_string())),
        ])
    );
}

#[test]
fn int4_columns_into_hashmap() {
    let row = PgRow {
        columns: vec![
            col("one", TypeTag::Int4, Some(Prim::I32(1))),
            col("two", TypeTag::Int4, Some(Prim::I32(2))),
            col("three", TypeTag::Int4, Some(Prim::I32(3))),
        ],
    };
    let shape = Shape::Mapping(Box::new(Shape::I32));
    assert_eq!(
        from_pg_row(&row, &shape).unwrap(),
        Value::Object(vec![
            ("one".to_string(), Value::I32(1)),
            ("two".to_string(), Value::I32(2)),
            ("three".to_string(), Value::I32(3)),
        ])
    );
}

#[test]
fn map_decode_tolerates_duplicate_column_names() {
    let row = PgRow {
        columns: vec![
            col("a", TypeTag::Int4, Some(Prim::I32(1))),
            col("a", TypeTag::Int4, Some(Prim::I32(2))),
        ],
    };
    let shape = Shape::Mapping(Box::new(Shape::I32));
    assert_eq!(
        from_pg_row(&row, &shape).unwrap(),
        Value::Object(vec![
            ("a".to_string(), Value::I32(1)),
            ("a".to_string(), Value::I32(2)),
        ])
    );
}

#[test]
fn int4_columns_into_struct_with_flattenned_field() {
    let row = PgRow {
        columns: vec![
            col("one", TypeTag::Int4, Some(Prim::I32(1))),
            col("two", TypeTag::Int4, Some(Prim::I32(2))),
            col("three", TypeTag::Int4, Some(Prim::I32(3))),
        ],
    };
    let shape = Shape::Record(vec![
        field("one", Shape::I32),
        flat("the_rest", Shape::Mapping(Box::new(Shape::I32))),
    ]);
    assert_eq!(
        from_pg_row(&row, &shape).unwrap(),
        Value::Object(vec![
            ("one".to_string(), Value::I32(1)),
            (
                "the_rest".to_string(),
                Value::Object(vec![
                    ("two".to_string(), Value::I32(2)),
                    ("three".to_string(), Value::I32(3)),
                ])
            ),
        ])
    );
}

#[test]
fn record_with_flattened_map_only() {
    let row = PgRow {
        columns: vec![
            col("one", TypeTag::Int4, Some(Prim::I32(1))),
            col("two", TypeTag::Int4, Some(Prim::I32(2))),
            col("three", TypeTag::Int4, Some(Prim::I32(3))),
        ],
    };
    let shape = Shape::Record(vec![flat("fields", Shape::Mapping(Box::new(Shape::I32)))]);
    assert_eq!(
        from_pg_row(&row, &shape).unwrap(),
        Value::Object(vec![(
            "fields".to_string(),
            Value::Object(vec![
                ("one".to_string(), Value::I32(1)),
                ("two".to_string(), Value::I32(2)),
                ("three".to_string(), Value::I32(3)),
            ])
        )])
    );
}

#[test]
fn two_struct_fields_struct() {
    let shape = Shape::Record(vec![
        flat("left", Shape::Record(vec![field("first_field", Shape::Bool)])),
        flat("right", Shape::Record(vec![field("second_field", Shape::I32)])),
    ]);
    assert_eq!(
        from_pg_row(&two_field_row(), &shape).unwrap(),
        Value::Object(vec![
            (
                "left".to_string(),
                Value::Object(vec![("first_field".to_string(), Value::Bool(true))])
            ),
            (
                "right".to_string(),
                Value::Object(vec![("second_field".to_string(), Value::I32(42))])
            ),
        ])
    );
}

#[test]
fn deep_struct() {
    let row = PgRow {
        columns: vec![col("the_field", TypeTag::Bool, Some(Prim::Bool(true)))],
    };
    let a = Shape::Record(vec![field("the_field", Shape::Bool)]);
    let b = Shape::Record(vec![flat("a", a)]);
    let shape = Shape::Record(vec![flat("b", b)]);
    assert_eq!(
        from_pg_row(&row, &shape).unwrap(),
        Value::Object(vec![(
            "b".to_string(),
            Value::Object(vec![(
                "a".to_string(),
                Value::Object(vec![("the_field".to_string(), Value::Bool(true))])
            )])
        )])
    );
}

#[test]
fn unknown_column_is_rejected() {
    let shape = Shape::Record(vec![
        field("first_field", Shape::Bool),
        field("absent", Shape::I32),
    ]);
    assert_eq!(
        from_pg_row(&two_field_row(), &shape),
        Err(DecodeError::TypeMismatch(Mismatch::UnknownField(
            "second_field".to_string()
        )))
    );
}

#[test]
fn missing_field_without_extra_columns() {
    let row = PgRow {
        columns: vec![
            col("first_field", TypeTag::Bool, Some(Prim::Bool(true))),
            col("second_field", TypeTag::Int4, Some(Prim::I32(42))),
        ],
    };
    let shape = Shape::Record(vec![
        field("first_field", Shape::Bool),
        field("second_field", Shape::I32),
        field("third_field", Shape::I32),
    ]);
    assert_eq!(
        from_pg_row(&row, &shape),
        Err(DecodeError::TypeMismatch(Mismatch::MissingField(
            "third_field".to_string()
        )))
    );
}

#[test]
fn duplicate_field_is_rejected() {
    let row = PgRow {
        columns: vec![
            col("a", TypeTag::Int4, Some(Prim::I32(1))),
            col("a", TypeTag::Int4, Some(Prim::I32(2))),
        ],
    };
    let shape = Shape::Record(vec![field("a", Shape::I32)]);
    assert_eq!(
        from_pg_row(&row, &shape),
        Err(DecodeError::TypeMismatch(Mismatch::DuplicateField(
            "a".to_string()
        )))
    );
}

#[test]
fn multiple_rows_decode_independently() {
    let shape = Shape::Record(vec![
        field("first_field", Shape::Bool),
        field("second_field", Shape::I32),
    ]);
    let rows = vec![
        two_field_row(),
        PgRow {
            columns: vec![
                col("first_field", TypeTag::Bool, Some(Prim::Bool(false))),
                col("second_field", TypeTag::Int4, Some(Prim::I32(0))),
            ],
        },
    ];
    let decoded: Vec<Value> = rows
        .iter()
        .map(|r| from_pg_row(r, &shape).unwrap())
        .collect();
    assert_eq!(
        decoded,
        vec![
            Value::Object(vec![
                ("first_field".to_string(), Value::Bool(true)),
                ("second_field".to_string(), Value::I32(42)),
            ]),
            Value::Object(vec![
                ("first_field".to_string(), Value::Bool(false)),
                ("second_field".to_string(), Value::I32(0)),
            ]),
        ]
    );
}

#[test]
fn test_single_query_stats() {
    let row = PgRow {
        columns: vec![
            col("query", TypeTag::Text, Some(Prim::Text("dummy query".to_string()))),
            col("calls", TypeTag::Int4, Some(Prim::I32(10))),
            col(
                "total_exec_time",
                TypeTag::Numeric,
                Some(Prim::F64Bits(123.45f64.to_bits())),
            ),
            col(
                "mean_exec_time",
                TypeTag::Numeric,
                Some(Prim::F64Bits(12.34f64.to_bits())),
            ),
            col("rows", TypeTag::Int4, Some(Prim::I32(100))),
            col("total_blocks", TypeTag::Int4, Some(Prim::I32(256))),
        ],
    };
    let shape = Shape::Record(vec![
        field("query", Shape::Str),
        field("calls", Shape::I64),
        field("total_exec_time", Shape::F64),
        field("mean_exec_time", Shape::F64),
        field("rows", Shape::I64),
        field("total_blocks", Shape::I64),
    ]);
    assert_eq!(
        from_pg_row(&row, &shape).unwrap(),
        Value::Object(vec![
            ("query".to_string(), Value::Str("dummy query".to_string())),
            ("calls".to_string(), Value::I64(10)),
            (
                "total_exec_time".to_string(),
                Value::F64Bits(123.45f64.to_bits())
            ),
            (
                "mean_exec_time".to_string(),
                Value::F64Bits(12.34f64.to_bits())
            ),
            ("rows".to_string(), Value::I64(100)),
            ("total_blocks".to_string(), Value::I64(256)),
        ])
    );
}

#[test]
fn any_over_several_columns_is_a_sequence() {
    let row = two_field_row();
    assert_eq!(
        from_pg_row(&row, &Shape::Any).unwrap(),
        Value::Array(vec![Value::Bool(true), Value::I32(42)])
    );
}
