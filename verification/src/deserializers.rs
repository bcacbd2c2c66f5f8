use vstd::prelude::*;
use crate::data::{PgRow, Prim, RawValue};
use crate::error::{DecodeError, ErrorModel, Mismatch, MismatchModel};
use crate::fmt::{
    chars_of, date_bytes, duration_bytes, format_date, format_duration, format_time,
    format_timestamp, format_uuid, interval_micros, time_bytes, timestamp_bytes, uuid_bytes,
};
use crate::json::{count_key, e_doc, parse_document, sp_doc, sp_doc_record, sp_parse_document};
use crate::seq_access::{e_array, sp_array};
use crate::shape::{Field, Shape};
use crate::tag::TypeTag;
use crate::value::{doc_entries_model, value_entries_model, DocModel, DocValue, Value, ValueModel};

verus! {

broadcast use vstd::std_specs::vec::group_vec_axioms, vstd::seq::group_seq_axioms;

/// A driver-level rejection: the payload did not fit the recognized tag.
pub open spec fn driver_err(target: Seq<char>, tag: TypeTag) -> ErrorModel {
    ErrorModel::Driver { target, tag: tag.name_model() }
}

/// The driver-level conversion of one non-null payload under its tag: the
/// scalar table of the codec.  Temporal values, intervals and unique
/// identifiers come out as their canonical text; an unrecognized tag falls
/// back to a string decode and is unsupported only when that also fails.
pub open spec fn sp_scalar_base(tag: TypeTag, p: Prim) -> Result<ValueModel, ErrorModel> {
    match tag {
        TypeTag::Bool => match p {
            Prim::Bool(b) => Ok(ValueModel::Bool(b)),
            _ => Err(driver_err("bool"@, tag)),
        },
        TypeTag::Int2 => match p {
            Prim::I16(x) => Ok(ValueModel::I16(x)),
            _ => Err(driver_err("i16"@, tag)),
        },
        TypeTag::Int4 => match p {
            Prim::I32(x) => Ok(ValueModel::I32(x)),
            _ => Err(driver_err("i32"@, tag)),
        },
        TypeTag::Int8 => match p {
            Prim::I64(x) => Ok(ValueModel::I64(x)),
            _ => Err(driver_err("i64"@, tag)),
        },
        TypeTag::Float4 => match p {
            Prim::F32Bits(b) => Ok(ValueModel::F32Bits(b)),
            _ => Err(driver_err("f32"@, tag)),
        },
        TypeTag::Float8 | TypeTag::Numeric => match p {
            Prim::F64Bits(b) => Ok(ValueModel::F64Bits(b)),
            _ => Err(driver_err("f64"@, tag)),
        },
        TypeTag::Char | TypeTag::Text | TypeTag::Varchar | TypeTag::Bpchar => match p {
            Prim::Text(s) => Ok(ValueModel::Str(s@)),
            _ => Err(driver_err("String"@, tag)),
        },
        TypeTag::Bytea => match p {
            Prim::Bytes(b) => Ok(ValueModel::Bytes(b@)),
            _ => Err(driver_err("bytes"@, tag)),
        },
        TypeTag::Date => match p {
            Prim::Date(d) => if d.wf() {
                Ok(ValueModel::Str(chars_of(date_bytes(d))))
            } else {
                Err(driver_err("date"@, tag))
            },
            _ => Err(driver_err("date"@, tag)),
        },
        TypeTag::Time | TypeTag::TimeTz => match p {
            Prim::Time(t) => if t.wf() {
                Ok(ValueModel::Str(chars_of(time_bytes(t))))
            } else {
                Err(driver_err("time"@, tag))
            },
            _ => Err(driver_err("time"@, tag)),
        },
        TypeTag::Timestamp | TypeTag::TimestampTz => match p {
            Prim::Timestamp(ts) => if ts.wf() {
                Ok(ValueModel::Str(chars_of(timestamp_bytes(ts))))
            } else {
                Err(driver_err("timestamp"@, tag))
            },
            _ => Err(driver_err("timestamp"@, tag)),
        },
        TypeTag::Interval => match p {
            Prim::Interval(iv) => Ok(
                ValueModel::Str(
                    chars_of(
                        duration_bytes(
                            interval_micros(iv.days as int, iv.microseconds as int),
                        ),
                    ),
                ),
            ),
            _ => Err(driver_err("interval"@, tag)),
        },
        TypeTag::Uuid => match p {
            Prim::Bytes(b) => if b@.len() == 16 {
                Ok(ValueModel::Str(chars_of(uuid_bytes(b@))))
            } else {
                Err(driver_err("uuid"@, tag))
            },
            _ => Err(driver_err("uuid"@, tag)),
        },
        TypeTag::Json | TypeTag::Jsonb => Err(driver_err("json"@, tag)),
        TypeTag::Other(s) => match p {
            Prim::Text(t) => Ok(ValueModel::Str(t@)),
            _ => Err(ErrorModel::Unsupported(s@)),
        },
        _ => Err(driver_err("array"@, tag)),
    }
}

/// Fit a driver-level value to the requested scalar-like shape: exact kinds
/// pass, integers widen, and a narrowing succeeds only within range.
/// Optional and wrapper shapes are resolved before this table applies.
pub open spec fn sp_coerce(v: ValueModel, shape: Shape) -> Result<ValueModel, ErrorModel> {
    match shape {
        Shape::Any => Ok(v),
        Shape::Bool => match v {
            ValueModel::Bool(_) => Ok(v),
            _ => Err(ErrorModel::TypeMismatch(MismatchModel::WrongType)),
        },
        Shape::I16 => match v {
            ValueModel::I16(_) => Ok(v),
            ValueModel::I32(x) => if -0x8000 <= x <= 0x7fff {
                Ok(ValueModel::I16(x as i16))
            } else {
                Err(ErrorModel::TypeMismatch(MismatchModel::OutOfRange))
            },
            ValueModel::I64(x) => if -0x8000 <= x <= 0x7fff {
                Ok(ValueModel::I16(x as i16))
            } else {
                Err(ErrorModel::TypeMismatch(MismatchModel::OutOfRange))
            },
            _ => Err(ErrorModel::TypeMismatch(MismatchModel::WrongType)),
        },
        Shape::I32 => match v {
            ValueModel::I16(x) => Ok(ValueModel::I32(x as i32)),
            ValueModel::I32(_) => Ok(v),
            ValueModel::I64(x) => if -0x80000000 <= x <= 0x7fffffff {
                Ok(ValueModel::I32(x as i32))
            } else {
                Err(ErrorModel::TypeMismatch(MismatchModel::OutOfRange))
            },
            _ => Err(ErrorModel::TypeMismatch(MismatchModel::WrongType)),
        },
        Shape::I64 => match v {
            ValueModel::I16(x) => Ok(ValueModel::I64(x as i64)),
            ValueModel::I32(x) => Ok(ValueModel::I64(x as i64)),
            ValueModel::I64(_) => Ok(v),
            _ => Err(ErrorModel::TypeMismatch(MismatchModel::WrongType)),
        },
        Shape::F32 | Shape::F64 => match v {
            ValueModel::F32Bits(_)
            | ValueModel::F64Bits(_)
            | ValueModel::I16(_)
            | ValueModel::I32(_)
            | ValueModel::I64(_) => Ok(v),
            _ => Err(ErrorModel::TypeMismatch(MismatchModel::WrongType)),
        },
        Shape::Str => match v {
            ValueModel::Str(_) => Ok(v),
            _ => Err(ErrorModel::TypeMismatch(MismatchModel::WrongType)),
        },
        Shape::Bytes => match v {
            ValueModel::Bytes(_) => Ok(v),
            _ => Err(ErrorModel::TypeMismatch(MismatchModel::WrongType)),
        },
        _ => Err(ErrorModel::TypeMismatch(MismatchModel::WrongType)),
    }
}

/// Decode one column's raw value against a shape: the single-column
/// dispatch.  An optional shape turns a null into an absent value; then
/// array-suffixed tags route to the array codec, document tags through the
/// document bridge, and everything else through the scalar table.
pub open spec fn sp_column(raw: RawValue, shape: Shape) -> Result<ValueModel, ErrorModel>
    decreases shape, raw, 4int,
{
    match shape {
        Shape::Optional(inner) => if raw.data is None {
            Ok(ValueModel::Null)
        } else {
            sp_column(raw, *inner)
        },
        Shape::NewtypeStruct(inner) => sp_column(raw, *inner),
        _ => match raw.data {
            None => if shape is Any {
                Ok(ValueModel::Null)
            } else {
                Err(ErrorModel::TypeMismatch(MismatchModel::NullScalar))
            },
            Some(p) => {
                if raw.tag is OtherArray {
                    Err(ErrorModel::Unsupported(raw.tag.name_model()))
                } else if raw.tag.is_array() {
                    match p {
                        Prim::Array(elems) => sp_array(raw.tag, elems@, shape),
                        _ => Err(driver_err("array"@, raw.tag)),
                    }
                } else if raw.tag.is_document() {
                    match p {
                        Prim::Bytes(bs) => match sp_parse_document(
                            bs@,
                            raw.tag.is_binary_document(),
                        ) {
                            Ok(dm) => sp_doc(dm, shape),
                            Err(e) => Err(e),
                        },
                        _ => Err(driver_err("json"@, raw.tag)),
                    }
                } else {
                    match sp_scalar_base(raw.tag, p) {
                        Ok(base) => sp_coerce(base, shape),
                        Err(e) => Err(e),
                    }
                }
            },
        },
    }
}

/// The driver-level conversion step: one payload under one recognized tag.
pub(crate) fn decode_raw_pg(tag: &TypeTag, p: &Prim) -> (r: Result<Value, DecodeError>)
    ensures
        match (r, sp_scalar_base(*tag, *p)) {
            (Result::Ok(v), Result::Ok(m)) => v.model() == m,
            (Result::Err(a), Result::Err(b)) => a.model() == b,
            _ => false,
        },
{
    match tag {
        TypeTag::Bool => match p {
            Prim::Bool(b) => Ok(Value::Bool(*b)),
            _ => Err(mk_driver("bool", tag)),
        },
        TypeTag::Int2 => match p {
            Prim::I16(x) => Ok(Value::I16(*x)),
            _ => Err(mk_driver("i16", tag)),
        },
        TypeTag::Int4 => match p {
            Prim::I32(x) => Ok(Value::I32(*x)),
            _ => Err(mk_driver("i32", tag)),
        },
        TypeTag::Int8 => match p {
            Prim::I64(x) => Ok(Value::I64(*x)),
            _ => Err(mk_driver("i64", tag)),
        },
        TypeTag::Float4 => match p {
            Prim::F32Bits(b) => Ok(Value::F32Bits(*b)),
            _ => Err(mk_driver("f32", tag)),
        },
        TypeTag::Float8 | TypeTag::Numeric => match p {
            Prim::F64Bits(b) => Ok(Value::F64Bits(*b)),
            _ => Err(mk_driver("f64", tag)),
        },
        TypeTag::Char | TypeTag::Text | TypeTag::Varchar | TypeTag::Bpchar => match p {
            Prim::Text(s) => Ok(Value::Str(s.clone())),
            _ => Err(mk_driver("String", tag)),
        },
        TypeTag::Bytea => match p {
            Prim::Bytes(b) => {
                let mut out: Vec<u8> = Vec::new();
                let mut i: usize = 0;
                while i < b.len()
                    invariant
                        i <= b@.len(),
                        out@ == b@.subrange(0, i as int),
                    decreases b@.len() - i,
                {
                    out.push(b[i]);
                    proof {
                        assert(out@ =~= b@.subrange(0, i + 1));
                    }
                    i = i + 1;
                }
                proof {
                    assert(out@ =~= b@);
                }
                Ok(Value::Bytes(out))
            },
            _ => Err(mk_driver("bytes", tag)),
        },
        TypeTag::Date => match p {
            Prim::Date(d) => if d.check() {
                Ok(Value::Str(format_date(d)))
            } else {
                Err(mk_driver("date", tag))
            },
            _ => Err(mk_driver("date", tag)),
        },
        TypeTag::Time | TypeTag::TimeTz => match p {
            Prim::Time(t) => if t.check() {
                Ok(Value::Str(format_time(t)))
            } else {
                Err(mk_driver("time", tag))
            },
            _ => Err(mk_driver("time", tag)),
        },
        TypeTag::Timestamp | TypeTag::TimestampTz => match p {
            Prim::Timestamp(ts) => if ts.check() {
                Ok(Value::Str(format_timestamp(ts)))
            } else {
                Err(mk_driver("timestamp", tag))
            },
            _ => Err(mk_driver("timestamp", tag)),
        },
        TypeTag::Interval => match p {
            Prim::Interval(iv) => Ok(Value::Str(format_duration(iv.days, iv.microseconds))),
            _ => Err(mk_driver("interval", tag)),
        },
        TypeTag::Uuid => match p {
            Prim::Bytes(b) => if b.len() == 16 {
                Ok(Value::Str(format_uuid(b)))
            } else {
                Err(mk_driver("uuid", tag))
            },
            _ => Err(mk_driver("uuid", tag)),
        },
        TypeTag::Json | TypeTag::Jsonb => Err(mk_driver("json", tag)),
        TypeTag::Other(s) => match p {
            Prim::Text(t) => Ok(Value::Str(t.clone())),
            _ => Err(DecodeError::Unsupported(s.clone())),
        },
        _ => Err(mk_driver("array", tag)),
    }
}

fn mk_driver(target: &str, tag: &TypeTag) -> (r: DecodeError)
    ensures
        r.model() == (ErrorModel::Driver { target: target@, tag: tag.name_model() }),
{
    DecodeError::Driver { target: target.to_owned(), tag: tag.name() }
}

pub(crate) fn e_coerce(v: Value, shape: &Shape) -> (r: Result<Value, DecodeError>)
    ensures
        match (r, sp_coerce(v.model(), *shape)) {
            (Result::Ok(rv), Result::Ok(m)) => rv.model() == m,
            (Result::Err(a), Result::Err(b)) => a.model() == b,
            _ => false,
        },
{
    match shape {
        Shape::Any => Ok(v),
        Shape::Bool => match v {
            Value::Bool(_) => Ok(v),
            _ => Err(DecodeError::TypeMismatch(Mismatch::WrongType)),
        },
        Shape::I16 => match v {
            Value::I16(_) => Ok(v),
            Value::I32(x) => if -0x8000 <= x && x <= 0x7fff {
                Ok(Value::I16(x as i16))
            } else {
                Err(DecodeError::TypeMismatch(Mismatch::OutOfRange))
            },
            Value::I64(x) => if -0x8000 <= x && x <= 0x7fff {
                Ok(Value::I16(x as i16))
            } else {
                Err(DecodeError::TypeMismatch(Mismatch::OutOfRange))
            },
            _ => Err(DecodeError::TypeMismatch(Mismatch::WrongType)),
        },
        Shape::I32 => match v {
            Value::I16(x) => Ok(Value::I32(x as i32)),
            Value::I32(_) => Ok(v),
            Value::I64(x) => if -0x80000000 <= x && x <= 0x7fffffff {
                Ok(Value::I32(x as i32))
            } else {
                Err(DecodeError::TypeMismatch(Mismatch::OutOfRange))
            },
            _ => Err(DecodeError::TypeMismatch(Mismatch::WrongType)),
        },
        Shape::I64 => match v {
            Value::I16(x) => Ok(Value::I64(x as i64)),
            Value::I32(x) => Ok(Value::I64(x as i64)),
            Value::I64(_) => Ok(v),
            _ => Err(DecodeError::TypeMismatch(Mismatch::WrongType)),
        },
        Shape::F32 | Shape::F64 => match v {
            Value::F32Bits(_) | Value::F64Bits(_) | Value::I16(_) | Value::I32(_)
            | Value::I64(_) => Ok(v),
            _ => Err(DecodeError::TypeMismatch(Mismatch::WrongType)),
        },
        Shape::Str => match v {
            Value::Str(_) => Ok(v),
            _ => Err(DecodeError::TypeMismatch(Mismatch::WrongType)),
        },
        Shape::Bytes => match v {
            Value::Bytes(_) => Ok(v),
            _ => Err(DecodeError::TypeMismatch(Mismatch::WrongType)),
        },
        _ => Err(DecodeError::TypeMismatch(Mismatch::WrongType)),
    }
}

/// Decode one column's raw value against a shape.
pub fn e_column(raw: &RawValue, shape: &Shape) -> (r: Result<Value, DecodeError>)
    ensures
        match (r, sp_column(*raw, *shape)) {
            (Result::Ok(v), Result::Ok(m)) => v.model() == m,
            (Result::Err(a), Result::Err(b)) => a.model() == b,
            _ => false,
        },
    decreases *shape, *raw, 4int,
{
    match shape {
        Shape::Optional(inner) => match &raw.data {
            Option::None => Ok(Value::Null),
            Option::Some(_) => e_column(raw, &**inner),
        },
        Shape::NewtypeStruct(inner) => e_column(raw, &**inner),
        _ => match &raw.data {
            Option::None => match shape {
                Shape::Any => Ok(Value::Null),
                _ => Err(DecodeError::TypeMismatch(Mismatch::NullScalar)),
            },
            Option::Some(p) => {
                let other_array: bool = match &raw.tag {
                    TypeTag::OtherArray(_) => true,
                    _ => false,
                };
                if other_array {
                    Err(DecodeError::Unsupported(raw.tag.name()))
                } else if raw.tag.exec_is_array() {
                    match p {
                        Prim::Array(elems) => e_array(&raw.tag, elems, shape),
                        _ => Err(mk_driver("array", &raw.tag)),
                    }
                } else if raw.tag.exec_is_document() {
                    match p {
                        Prim::Bytes(bs) => {
                            let binary: bool = match &raw.tag {
                                TypeTag::Jsonb => true,
                                _ => false,
                            };
                            match parse_document(bs, binary) {
                                Ok(doc) => e_doc(&doc, shape),
                                Err(e) => Err(e),
                            }
                        },
                        _ => Err(mk_driver("json", &raw.tag)),
                    }
                } else {
                    match decode_raw_pg(&raw.tag, p) {
                        Ok(base) => e_coerce(base, shape),
                        Err(e) => Err(e),
                    }
                }
            },
        },
    }
}

/// The names of a record's fields, in declaration order.
pub open spec fn field_names(fields: Seq<Field>) -> Seq<Seq<char>> {
    fields.map_values(|f: Field| f.name@)
}

/// The keys of a document object's entries, in document order.
pub open spec fn entry_keys(es: Seq<(Seq<char>, DocModel)>) -> Seq<Seq<char>> {
    es.map_values(|e: (Seq<char>, DocModel)| e.0)
}

/// True when every field name occurs among the object's keys.
pub open spec fn fields_present(fields: Seq<Field>, es: Seq<(Seq<char>, DocModel)>) -> bool
    decreases fields,
{
    if fields.len() == 0 {
        true
    } else {
        count_key(es, fields[0].name@) >= 1 && fields_present(
            fields.subrange(1, fields.len() as int),
            es,
        )
    }
}

/// The reconciliation rule for a fixed record target over a parsed
/// document.  A one-field record whose field the object already has, and
/// a many-field record with every field present, decode directly; a
/// one-field record otherwise wraps the whole object as that field's
/// value; a many-field record with keys missing names the expected and
/// found keys; a non-object document cannot satisfy a record.
pub open spec fn sp_reconcile(fields: Seq<Field>, dm: DocModel) -> Result<ValueModel, ErrorModel> {
    match dm {
        DocModel::Entries(es) => if fields.len() == 1 {
            if count_key(es, fields[0].name@) >= 1 {
                sp_doc_record(fields, es)
            } else {
                match sp_doc(dm, fields[0].shape) {
                    Ok(v) => Ok(ValueModel::Object(seq![(fields[0].name@, v)])),
                    Err(e) => Err(e),
                }
            }
        } else if fields_present(fields, es) {
            sp_doc_record(fields, es)
        } else {
            Err(
                ErrorModel::TypeMismatch(
                    MismatchModel::MissingDocKeys {
                        wanted: field_names(fields),
                        present: entry_keys(es),
                    },
                ),
            )
        },
        _ => Err(ErrorModel::TypeMismatch(MismatchModel::WrongType)),
    }
}

fn e_fields_present(fields: &Vec<Field>, entries: &Vec<(String, DocValue)>) -> (r: bool)
    ensures
        r == fields_present(fields@, doc_entries_model(entries@)),
{
    let ghost ms = doc_entries_model(entries@);
    let mut idx: usize = 0;
    proof {
        assert(fields@.subrange(0, fields@.len() as int) =~= fields@);
    }
    while idx < fields.len()
        invariant
            idx <= fields@.len(),
            ms == doc_entries_model(entries@),
            fields_present(fields@, ms) == fields_present(
                fields@.subrange(idx as int, fields@.len() as int),
                ms,
            ),
        decreases fields@.len() - idx,
    {
        let ghost pre = fields@.subrange(idx as int, fields@.len() as int);
        proof {
            assert(pre[0] == fields@[idx as int]);
            assert(pre.subrange(1, pre.len() as int) =~= fields@.subrange(
                idx + 1,
                fields@.len() as int,
            ));
        }
        let (cnt, _found) = crate::json::e_find_key(entries, &fields[idx].name);
        if cnt == 0 {
            return false;
        }
        idx = idx + 1;
    }
    proof {
        assert(fields@.subrange(fields@.len() as int, fields@.len() as int)
            =~= Seq::<Field>::empty());
    }
    true
}

fn clone_field_names(fields: &Vec<Field>) -> (r: Vec<String>)
    ensures
        crate::error::names_model(r@) == field_names(fields@),
{
    let mut out: Vec<String> = Vec::new();
    let mut idx: usize = 0;
    while idx < fields.len()
        invariant
            idx <= fields@.len(),
            out@.len() == idx,
            forall|m: int| 0 <= m < idx ==> (#[trigger] out@[m])@ == fields@[m].name@,
        decreases fields@.len() - idx,
    {
        out.push(fields[idx].name.clone());
        idx = idx + 1;
    }
    proof {
        assert(crate::error::names_model(out@) =~= field_names(fields@));
    }
    out
}

fn clone_entry_keys(entries: &Vec<(String, DocValue)>) -> (r: Vec<String>)
    ensures
        crate::error::names_model(r@) == entry_keys(doc_entries_model(entries@)),
{
    let ghost ms = doc_entries_model(entries@);
    proof {
        crate::value::lemma_doc_entries_model(entries@);
    }
    let mut out: Vec<String> = Vec::new();
    let mut idx: usize = 0;
    while idx < entries.len()
        invariant
            idx <= entries@.len(),
            ms == doc_entries_model(entries@),
            ms.len() == entries@.len(),
            out@.len() == idx,
            forall|m: int| 0 <= m < idx ==> (#[trigger] out@[m])@ == ms[m].0,
        decreases entries@.len() - idx,
    {
        proof {
            crate::value::lemma_doc_entries_model(entries@);
        }
        out.push(entries[idx].0.clone());
        idx = idx + 1;
    }
    proof {
        assert(crate::error::names_model(out@) =~= entry_keys(ms));
    }
    out
}

/// Apply the reconciliation rule to a record target over a parsed
/// document.
fn e_reconcile(fields: &Vec<Field>, doc: &DocValue) -> (r: Result<Value, DecodeError>)
    ensures
        match (r, sp_reconcile(fields@, doc.model())) {
            (Result::Ok(v), Result::Ok(m)) => v.model() == m,
            (Result::Err(a), Result::Err(b)) => a.model() == b,
            _ => false,
        },
{
    match doc {
        DocValue::Entries(entries) => {
            if fields.len() == 1 {
                let (cnt, _found) = crate::json::e_find_key(entries, &fields[0].name);
                if cnt >= 1 {
                    crate::json::e_doc_record(fields, entries)
                } else {
                    match crate::json::e_doc(doc, &fields[0].shape) {
                        Err(e) => Err(e),
                        Ok(v) => {
                            let mut es: Vec<(String, Value)> = Vec::new();
                            let k = fields[0].name.clone();
                            proof {
                                crate::value::lemma_value_entries_model_push(es@, k, v);
                            }
                            es.push((k, v));
                            proof {
                                assert(value_entries_model(Seq::<(String, Value)>::empty())
                                    =~= Seq::<(Seq<char>, ValueModel)>::empty());
                                assert(value_entries_model(es@) =~= seq![
                                    (fields@[0].name@, v.model()),
                                ]);
                            }
                            Ok(Value::Object(es))
                        },
                    }
                }
            } else if e_fields_present(fields, entries) {
                crate::json::e_doc_record(fields, entries)
            } else {
                Err(
                    DecodeError::TypeMismatch(
                        Mismatch::MissingDocKeys {
                            wanted: clone_field_names(fields),
                            present: clone_entry_keys(entries),
                        },
                    ),
                )
            }
        },
        _ => Err(DecodeError::TypeMismatch(Mismatch::WrongType)),
    }
}

/// Decode a whole row against a shape: the shape negotiation.  The state
/// is chosen from the column count, the first column's tag and the
/// requested shape, exactly once per call.
pub open spec fn sp_row(row: PgRow, shape: Shape) -> Result<ValueModel, ErrorModel>
    decreases shape,
{
    let cols = row.columns@;
    match shape {
        Shape::Optional(inner) => if cols.len() == 0 {
            Err(ErrorModel::TypeMismatch(MismatchModel::ColumnCount { expected: 1, found: 0 }))
        } else {
            match cols[0].value {
                Err(m) => Err(ErrorModel::Access(m@)),
                Ok(raw) => if raw.data is None {
                    Ok(ValueModel::Null)
                } else {
                    sp_row(row, *inner)
                },
            }
        },
        Shape::NewtypeStruct(inner) => sp_row(row, *inner),
        Shape::Mapping(v) => match crate::map_access::sp_row_map(cols, *v) {
            Ok(es) => Ok(ValueModel::Object(es)),
            Err(e) => Err(e),
        },
        Shape::Record(fields) => if !crate::shape::has_flatten(fields@) && cols.len() == 1 {
            match cols[0].value {
                Err(m) => Err(ErrorModel::Access(m@)),
                Ok(raw) => if raw.tag.is_document() {
                    match raw.data {
                        Some(Prim::Bytes(bs)) => match sp_parse_document(
                            bs@,
                            raw.tag.is_binary_document(),
                        ) {
                            Ok(dm) => sp_reconcile(fields@, dm),
                            Err(e) => Err(e),
                        },
                        _ => Err(driver_err("json"@, raw.tag)),
                    }
                } else {
                    crate::map_access::sp_row_record(fields@, cols)
                },
            }
        } else {
            crate::map_access::sp_row_record(fields@, cols)
        },
        Shape::Sequence(elem) => if cols.len() == 0 {
            Err(ErrorModel::TypeMismatch(MismatchModel::ColumnCount { expected: 1, found: 0 }))
        } else {
            match cols[0].value {
                Err(m) => Err(ErrorModel::Access(m@)),
                Ok(raw) => if raw.tag.is_array() {
                    sp_column(raw, shape)
                } else {
                    match crate::seq_access::sp_row_seq(cols, *elem) {
                        Ok(vs) => Ok(ValueModel::Array(vs)),
                        Err(e) => Err(e),
                    }
                },
            }
        },
        Shape::Tuple(shapes) => if cols.len() == 0 {
            if shapes@.len() == 0 {
                Ok(ValueModel::Array(Seq::empty()))
            } else {
                Err(
                    ErrorModel::TypeMismatch(
                        MismatchModel::ColumnCount { expected: shapes@.len(), found: 0 },
                    ),
                )
            }
        } else {
            match cols[0].value {
                Err(m) => Err(ErrorModel::Access(m@)),
                Ok(raw) => if raw.tag.is_array() {
                    sp_column(raw, shape)
                } else if shapes@.len() == cols.len() {
                    match crate::seq_access::sp_row_tuple(shapes@, cols) {
                        Ok(vs) => Ok(ValueModel::Array(vs)),
                        Err(e) => Err(e),
                    }
                } else {
                    Err(
                        ErrorModel::TypeMismatch(
                            MismatchModel::ColumnCount {
                                expected: shapes@.len(),
                                found: cols.len(),
                            },
                        ),
                    )
                },
            }
        },
        Shape::Any => if cols.len() == 0 {
            Ok(ValueModel::Unit)
        } else if cols.len() == 1 {
            crate::map_access::sp_col_value(cols[0], Shape::Any)
        } else {
            match crate::seq_access::sp_row_seq(cols, Shape::Any) {
                Ok(vs) => Ok(ValueModel::Array(vs)),
                Err(e) => Err(e),
            }
        },
        _ => if cols.len() == 1 {
            crate::map_access::sp_col_value(cols[0], shape)
        } else {
            Err(ErrorModel::TypeMismatch(MismatchModel::WrongType))
        },
    }
}

/// The row decoder: it carries one row and decodes it against a requested
/// shape.  Positional and key-value walks get their own cursors from the
/// sequence and mapping access types.
pub struct PgRowDeserializer<'a> {
    pub row: &'a PgRow,
}

impl<'a> PgRowDeserializer<'a> {
    /// A fresh decoder over a row.
    pub fn new(row: &'a PgRow) -> (r: PgRowDeserializer<'a>)
        ensures
            r.row == row,
    {
        PgRowDeserializer { row }
    }

    /// True when the first column holds an embedded document.
    pub fn is_json(&self) -> (r: bool)
        ensures
            r == (self.row.columns@.len() > 0 && match self.row.columns@[0].value {
                Ok(raw) => raw.tag.is_document(),
                Err(_) => false,
            }),
    {
        if self.row.columns.len() == 0 {
            return false;
        }
        match &self.row.columns[0].value {
            Ok(raw) => raw.tag.exec_is_document(),
            Err(_) => false,
        }
    }

    /// Decode the row against a shape: the one entry point behind every
    /// specific request below.
    pub fn deserialize(&self, shape: &Shape) -> (r: Result<Value, DecodeError>)
        ensures
            match (r, sp_row(*self.row, *shape)) {
                (Result::Ok(v), Result::Ok(m)) => v.model() == m,
                (Result::Err(a), Result::Err(b)) => a.model() == b,
                _ => false,
            },
        decreases *shape, 0int,
    {
        match shape {
            Shape::Any => self.deserialize_any(),
            Shape::Optional(inner) => self.deserialize_option(&**inner),
            Shape::NewtypeStruct(inner) => self.deserialize_newtype_struct(&**inner),
            Shape::Mapping(_) => self.deserialize_map(shape),
            Shape::Record(_) => self.deserialize_struct(shape),
            Shape::Sequence(_) => self.deserialize_seq(shape),
            Shape::Tuple(_) => self.deserialize_tuple(shape),
            _ => {
                let n = self.row.columns.len();
                if n == 1 {
                    crate::map_access::e_col_value(&self.row.columns[0], shape)
                } else {
                    Err(DecodeError::TypeMismatch(Mismatch::WrongType))
                }
            },
        }
    }

    /// A null first column decodes to an absent value; anything else
    /// decodes at the inner shape.
    pub fn deserialize_option(&self, inner: &Shape) -> (r: Result<Value, DecodeError>)
        ensures
            match (r, if self.row.columns@.len() == 0 {
                Err::<ValueModel, ErrorModel>(
                    ErrorModel::TypeMismatch(
                        MismatchModel::ColumnCount { expected: 1, found: 0 },
                    ),
                )
            } else {
                match self.row.columns@[0].value {
                    Err(m) => Err(ErrorModel::Access(m@)),
                    Ok(raw) => if raw.data is None {
                        Ok(ValueModel::Null)
                    } else {
                        sp_row(*self.row, *inner)
                    },
                }
            }) {
                (Result::Ok(v), Result::Ok(m)) => v.model() == m,
                (Result::Err(a), Result::Err(b)) => a.model() == b,
                _ => false,
            },
        decreases *inner, 1int,
    {
        if self.row.columns.len() == 0 {
            return Err(
                DecodeError::TypeMismatch(Mismatch::ColumnCount { expected: 1, found: 0 }),
            );
        }
        match &self.row.columns[0].value {
            Err(m) => Err(DecodeError::Access(m.clone())),
            Ok(raw) => if raw.exec_is_null() {
                Ok(Value::Null)
            } else {
                self.deserialize(inner)
            },
        }
    }

    /// A single-field wrapper decodes exactly as its inner shape.
    pub fn deserialize_newtype_struct(&self, inner: &Shape) -> (r: Result<Value, DecodeError>)
        ensures
            match (r, sp_row(*self.row, *inner)) {
                (Result::Ok(v), Result::Ok(m)) => v.model() == m,
                (Result::Err(a), Result::Err(b)) => a.model() == b,
                _ => false,
            },
        decreases *inner, 1int,
    {
        self.deserialize(inner)
    }

    /// Decode the row as whatever it is: an empty row is a unit, one
    /// column decodes by its tag, several columns become a sequence.
    pub fn deserialize_any(&self) -> (r: Result<Value, DecodeError>)
        ensures
            match (r, sp_row(*self.row, Shape::Any)) {
                (Result::Ok(v), Result::Ok(m)) => v.model() == m,
                (Result::Err(a), Result::Err(b)) => a.model() == b,
                _ => false,
            },
    {
        let n = self.row.columns.len();
        if n == 0 {
            Ok(Value::Unit)
        } else if n == 1 {
            crate::map_access::e_col_value(&self.row.columns[0], &Shape::Any)
        } else {
            match crate::seq_access::e_row_seq(self.row, &Shape::Any) {
                Ok(vs) => Ok(Value::Array(vs)),
                Err(e) => Err(e),
            }
        }
    }

    /// The row as a mapping: each column is a key-value pair.
    pub fn deserialize_map(&self, shape: &Shape) -> (r: Result<Value, DecodeError>)
        requires
            shape is Mapping,
        ensures
            match (r, sp_row(*self.row, *shape)) {
                (Result::Ok(v), Result::Ok(m)) => v.model() == m,
                (Result::Err(a), Result::Err(b)) => a.model() == b,
                _ => false,
            },
    {
        match shape {
            Shape::Mapping(v) => match crate::map_access::e_row_map(self.row, &**v) {
                Ok(es) => Ok(Value::Object(es)),
                Err(e) => Err(e),
            },
            _ => Err(DecodeError::TypeMismatch(Mismatch::WrongType)),
        }
    }

    /// The row as an ordered sequence: an array first column decodes
    /// through the array codec, anything else column by column.
    pub fn deserialize_seq(&self, shape: &Shape) -> (r: Result<Value, DecodeError>)
        requires
            shape is Sequence,
        ensures
            match (r, sp_row(*self.row, *shape)) {
                (Result::Ok(v), Result::Ok(m)) => v.model() == m,
                (Result::Err(a), Result::Err(b)) => a.model() == b,
                _ => false,
            },
    {
        let elem: &Shape = match shape {
            Shape::Sequence(e) => &**e,
            _ => {
                return Err(DecodeError::TypeMismatch(Mismatch::WrongType));
            },
        };
        let n = self.row.columns.len();
        if n == 0 {
            return Err(
                DecodeError::TypeMismatch(Mismatch::ColumnCount { expected: 1, found: 0 }),
            );
        }
        match &self.row.columns[0].value {
            Err(m) => Err(DecodeError::Access(m.clone())),
            Ok(raw) => if raw.tag.exec_is_array() {
                e_column(raw, shape)
            } else {
                match crate::seq_access::e_row_seq(self.row, elem) {
                    Ok(vs) => Ok(Value::Array(vs)),
                    Err(e) => Err(e),
                }
            },
        }
    }

    /// The row as a fixed arity of elements: an array first column
    /// decodes through the array codec, anything else column by column
    /// with an exact column count.
    pub fn deserialize_tuple(&self, shape: &Shape) -> (r: Result<Value, DecodeError>)
        requires
            shape is Tuple,
        ensures
            match (r, sp_row(*self.row, *shape)) {
                (Result::Ok(v), Result::Ok(m)) => v.model() == m,
                (Result::Err(a), Result::Err(b)) => a.model() == b,
                _ => false,
            },
    {
        let shapes: &Vec<Shape> = match shape {
            Shape::Tuple(s) => s,
            _ => {
                return Err(DecodeError::TypeMismatch(Mismatch::WrongType));
            },
        };
        let n = self.row.columns.len();
        if n == 0 {
            if shapes.len() == 0 {
                return Ok(Value::Array(Vec::new()));
            }
            return Err(
                DecodeError::TypeMismatch(
                    Mismatch::ColumnCount { expected: shapes.len(), found: 0 },
                ),
            );
        }
        match &self.row.columns[0].value {
            Err(m) => Err(DecodeError::Access(m.clone())),
            Ok(raw) => if raw.tag.exec_is_array() {
                e_column(raw, shape)
            } else if shapes.len() == n {
                match crate::seq_access::e_row_tuple(shapes, self.row) {
                    Ok(vs) => Ok(Value::Array(vs)),
                    Err(e) => Err(e),
                }
            } else {
                Err(
                    DecodeError::TypeMismatch(
                        Mismatch::ColumnCount { expected: shapes.len(), found: n },
                    ),
                )
            },
        }
    }

    /// The row as a named-field record: a single document column is
    /// reconciled against the record, anything else decodes from the
    /// columns by name.
    pub fn deserialize_struct(&self, shape: &Shape) -> (r: Result<Value, DecodeError>)
        requires
            shape is Record,
        ensures
            match (r, sp_row(*self.row, *shape)) {
                (Result::Ok(v), Result::Ok(m)) => v.model() == m,
                (Result::Err(a), Result::Err(b)) => a.model() == b,
                _ => false,
            },
    {
        let fields: &Vec<Field> = match shape {
            Shape::Record(f) => f,
            _ => {
                return Err(DecodeError::TypeMismatch(Mismatch::WrongType));
            },
        };
        let n = self.row.columns.len();
        if !crate::json::e_has_flatten(fields) && n == 1 {
            match &self.row.columns[0].value {
                Err(m) => Err(DecodeError::Access(m.clone())),
                Ok(raw) => if raw.tag.exec_is_document() {
                    match &raw.data {
                        Option::Some(Prim::Bytes(bs)) => {
                            let binary: bool = match &raw.tag {
                                TypeTag::Jsonb => true,
                                _ => false,
                            };
                            match parse_document(bs, binary) {
                                Ok(doc) => e_reconcile(fields, &doc),
                                Err(e) => Err(e),
                            }
                        },
                        _ => Err(mk_driver("json", &raw.tag)),
                    }
                } else {
                    crate::map_access::e_row_record(fields, &self.row.columns)
                },
            }
        } else {
            crate::map_access::e_row_record(fields, &self.row.columns)
        }
    }
}

/// The per-column decoder: it carries one raw value and decodes it on
/// request.
pub struct PgValueDeserializer<'a> {
    pub value: &'a RawValue,
}

impl<'a> PgValueDeserializer<'a> {
    /// Decode the value as whatever its tag says it is.
    pub fn deserialize_any(&self) -> (r: Result<Value, DecodeError>)
        ensures
            match (r, sp_column(*self.value, Shape::Any)) {
                (Result::Ok(v), Result::Ok(m)) => v.model() == m,
                (Result::Err(a), Result::Err(b)) => a.model() == b,
                _ => false,
            },
    {
        e_column(self.value, &Shape::Any)
    }

    /// Decode the value as an optional of the given shape: a null column
    /// is an absent value, anything else decodes at the inner shape.
    pub fn deserialize_option(&self, inner: &Shape) -> (r: Result<Value, DecodeError>)
        ensures
            match (r, if self.value.is_null() {
                Ok::<ValueModel, ErrorModel>(ValueModel::Null)
            } else {
                sp_column(*self.value, *inner)
            }) {
                (Result::Ok(v), Result::Ok(m)) => v.model() == m,
                (Result::Err(a), Result::Err(b)) => a.model() == b,
                _ => false,
            },
    {
        if self.value.exec_is_null() {
            Ok(Value::Null)
        } else {
            e_column(self.value, inner)
        }
    }
}

} // verus!
