use vstd::prelude::*;
use crate::data::{DateParts, PgColumn, Prim, RawValue};
use crate::deserializers::{sp_column, sp_reconcile};
use crate::error::{ErrorModel, MismatchModel};
use crate::fmt::{chars_of, date_bytes};
use crate::json::{count_key, sp_doc, sp_doc_record};
use crate::map_access::{sp_col_value, sp_row_map};
use crate::seq_access::{sp_elem, sp_elems};
use crate::shape::{Field, Shape};
use crate::tag::TypeTag;
use crate::value::{DocModel, ValueModel};

verus! {

broadcast use vstd::std_specs::vec::group_vec_axioms, vstd::seq::group_seq_axioms;

/// Round-trip law for integers: a stored integer decodes back to the equal
/// value, and widening to any larger integer width also succeeds with the
/// equal value.
pub proof fn law_int_round_trip(x: i16, y: i32, z: i64)
    ensures
        sp_column(RawValue { tag: TypeTag::Int2, data: Some(Prim::I16(x)) }, Shape::I16) == Ok::<
            _,
            ErrorModel,
        >(ValueModel::I16(x)),
        sp_column(RawValue { tag: TypeTag::Int2, data: Some(Prim::I16(x)) }, Shape::I32) == Ok::<
            _,
            ErrorModel,
        >(ValueModel::I32(x as i32)),
        sp_column(RawValue { tag: TypeTag::Int2, data: Some(Prim::I16(x)) }, Shape::I64) == Ok::<
            _,
            ErrorModel,
        >(ValueModel::I64(x as i64)),
        sp_column(RawValue { tag: TypeTag::Int4, data: Some(Prim::I32(y)) }, Shape::I32) == Ok::<
            _,
            ErrorModel,
        >(ValueModel::I32(y)),
        sp_column(RawValue { tag: TypeTag::Int4, data: Some(Prim::I32(y)) }, Shape::I64) == Ok::<
            _,
            ErrorModel,
        >(ValueModel::I64(y as i64)),
        sp_column(RawValue { tag: TypeTag::Int8, data: Some(Prim::I64(z)) }, Shape::I64) == Ok::<
            _,
            ErrorModel,
        >(ValueModel::I64(z)),
{
}

/// Round-trip law for the other scalar tags: booleans, text, raw bytes and
/// float bit patterns all decode back to the equal value, and a
/// well-formed date comes out as its canonical text.
pub proof fn law_scalar_round_trip(b: bool, s: String, bs: Vec<u8>, f: u32, g: u64, d: DateParts)
    requires
        d.wf(),
    ensures
        sp_column(RawValue { tag: TypeTag::Bool, data: Some(Prim::Bool(b)) }, Shape::Bool) == Ok::<
            _,
            ErrorModel,
        >(ValueModel::Bool(b)),
        sp_column(RawValue { tag: TypeTag::Text, data: Some(Prim::Text(s)) }, Shape::Str) == Ok::<
            _,
            ErrorModel,
        >(ValueModel::Str(s@)),
        sp_column(RawValue { tag: TypeTag::Bytea, data: Some(Prim::Bytes(bs)) }, Shape::Bytes)
            == Ok::<_, ErrorModel>(ValueModel::Bytes(bs@)),
        sp_column(RawValue { tag: TypeTag::Float4, data: Some(Prim::F32Bits(f)) }, Shape::F32)
            == Ok::<_, ErrorModel>(ValueModel::F32Bits(f)),
        sp_column(RawValue { tag: TypeTag::Float8, data: Some(Prim::F64Bits(g)) }, Shape::F64)
            == Ok::<_, ErrorModel>(ValueModel::F64Bits(g)),
        sp_column(RawValue { tag: TypeTag::Date, data: Some(Prim::Date(d)) }, Shape::Str) == Ok::<
            _,
            ErrorModel,
        >(ValueModel::Str(chars_of(date_bytes(d)))),
{
}

/// Null law: an optional scalar over a null column is absent; a
/// non-optional scalar over a null column is a type mismatch.
pub proof fn law_null_optional(tag: TypeTag, shape: Shape)
    requires
        shape is Optional,
    ensures
        sp_column(RawValue { tag, data: None }, shape) == Ok::<_, ErrorModel>(ValueModel::Null),
{
}

/// Null law, rejecting half: every non-optional scalar request over a null
/// column fails with the null-scalar mismatch.
pub proof fn law_null_scalar(tag: TypeTag, shape: Shape)
    requires
        shape is Bool || shape is I16 || shape is I32 || shape is I64 || shape is F32 || shape
            is F64 || shape is Str || shape is Bytes,
    ensures
        sp_column(RawValue { tag, data: None }, shape) == Err::<ValueModel, _>(
            ErrorModel::TypeMismatch(MismatchModel::NullScalar),
        ),
{
}

/// Array law: when an array decodes under an absence-tolerant element
/// shape, the output has one value per element, in order; a null element
/// becomes an absent value and a present element decodes alone the same
/// way it decodes in the array.
pub proof fn law_array_order(etag: TypeTag, elems: Seq<Option<Prim>>, shape: Shape)
    requires
        shape is Optional,
        sp_elems(etag, elems, shape) is Ok,
    ensures
        match sp_elems(etag, elems, shape) {
            Ok(vs) => {
                &&& vs.len() == elems.len()
                &&& forall|i: int|
                    0 <= i < elems.len() ==> match #[trigger] elems[i] {
                        None => vs[i] == ValueModel::Null,
                        Some(p) => sp_elem(etag, p, shape) == Ok::<_, ErrorModel>(vs[i]),
                    }
            },
            Err(_) => false,
        },
    decreases elems,
{
    if elems.len() > 0 {
        let tail = elems.subrange(1, elems.len() as int);
        law_array_order(etag, tail, shape);
        assert forall|i: int|
            0 <= i < elems.len() implies match #[trigger] elems[i] {
            None => (match sp_elems(etag, elems, shape) {
                Ok(vs) => vs[i] == ValueModel::Null,
                Err(_) => false,
            }),
            Some(p) => (match sp_elems(etag, elems, shape) {
                Ok(vs) => sp_elem(etag, p, shape) == Ok::<_, ErrorModel>(vs[i]),
                Err(_) => false,
            }),
        } by {
            if i > 0 {
                assert(tail[i - 1] == elems[i]);
            }
        }
    }
}

/// Envelope law: a binary-variant document must start with the expected
/// version byte; an empty payload or another leading byte is a format
/// error, and a valid leading byte is stripped, after which the payload
/// means exactly what the equivalent text-variant payload means.
pub proof fn law_envelope(payload: Seq<u8>)
    ensures
        payload.len() == 0 ==> crate::json::sp_parse_document(payload, true) == Err::<
            DocModel,
            _,
        >(ErrorModel::Format(crate::error::FormatIssue::EmptyBinaryPayload)),
        payload.len() > 0 && payload[0] != 1 ==> crate::json::sp_parse_document(payload, true)
            == Err::<DocModel, _>(
            ErrorModel::Format(crate::error::FormatIssue::BadVersionByte(payload[0])),
        ),
        payload.len() > 0 && payload[0] == 1 ==> crate::json::sp_parse_document(payload, true)
            == crate::json::sp_parse_document(payload.subrange(1, payload.len() as int), false),
{
}

/// Reconciliation law, direct half: a one-field record over a document
/// object that already has the field decodes the object directly as that
/// record.
pub proof fn law_reconcile_direct(fields: Seq<Field>, es: Seq<(Seq<char>, DocModel)>)
    requires
        fields.len() == 1,
        count_key(es, fields[0].name@) >= 1,
    ensures
        sp_reconcile(fields, DocModel::Entries(es)) == sp_doc_record(fields, es),
{
}

/// Reconciliation law, wrapping half: a one-field record over a document
/// object that lacks the field takes the whole object as that field's
/// value.
pub proof fn law_reconcile_wrap(fields: Seq<Field>, es: Seq<(Seq<char>, DocModel)>)
    requires
        fields.len() == 1,
        count_key(es, fields[0].name@) == 0,
    ensures
        sp_reconcile(fields, DocModel::Entries(es)) == (match sp_doc(
            DocModel::Entries(es),
            fields[0].shape,
        ) {
            Ok(v) => Ok::<_, ErrorModel>(ValueModel::Object(seq![(fields[0].name@, v)])),
            Err(e) => Err(e),
        }),
{
}

/// Map law: a mapping decode that succeeds keeps every column, in
/// declaration order, under its own name — duplicate names included — and
/// each value is the column's own decode.
pub proof fn law_map_order(cols: Seq<PgColumn>, v: Shape)
    requires
        sp_row_map(cols, v) is Ok,
    ensures
        match sp_row_map(cols, v) {
            Ok(es) => {
                &&& es.len() == cols.len()
                &&& forall|i: int|
                    0 <= i < cols.len() ==> (#[trigger] es[i]).0 == cols[i].name@ && sp_col_value(
                        cols[i],
                        v,
                    ) == Ok::<_, ErrorModel>(es[i].1)
            },
            Err(_) => false,
        },
    decreases cols,
{
    if cols.len() > 0 {
        let tail = cols.subrange(1, cols.len() as int);
        law_map_order(tail, v);
        match sp_row_map(cols, v) {
            Ok(es) => {
                assert forall|i: int|
                    0 <= i < cols.len() implies (#[trigger] es[i]).0 == cols[i].name@
                    && sp_col_value(cols[i], v) == Ok::<_, ErrorModel>(es[i].1) by {
                    if i > 0 {
                        assert(tail[i - 1] == cols[i]);
                    }
                }
            },
            Err(_) => {},
        }
    }
}

} // verus!
