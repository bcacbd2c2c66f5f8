use vstd::prelude::*;
use crate::error::{DecodeError, ErrorModel, FormatIssue, Mismatch, MismatchModel};
use crate::jsontext::{json_doc, parse_json};
use crate::shape::{claims_name, has_flatten, Field, Shape};
use crate::value::{
    doc_entries_model, doc_list_model, value_entries_model, value_list_model, DocModel, DocValue,
    Value, ValueModel,
};

verus! {

broadcast use vstd::std_specs::vec::group_vec_axioms, vstd::seq::group_seq_axioms;

// ---------------------------------------------------------------------------
// The document envelope.
// ---------------------------------------------------------------------------

/// The expected version byte of a binary-variant document payload.
pub const DOCUMENT_VERSION: u8 = 1;

/// The meaning of a document payload.  A binary-variant payload must begin
/// with the expected version byte, which is stripped before the text is
/// parsed; a text-variant payload is parsed whole.
pub open spec fn sp_parse_document(payload: Seq<u8>, binary: bool) -> Result<DocModel, ErrorModel> {
    if binary {
        if payload.len() == 0 {
            Err(ErrorModel::Format(FormatIssue::EmptyBinaryPayload))
        } else if payload[0] != DOCUMENT_VERSION {
            Err(ErrorModel::Format(FormatIssue::BadVersionByte(payload[0])))
        } else {
            match json_doc(payload.subrange(1, payload.len() as int)) {
                Ok(d) => Ok(d),
                Err(e) => Err(ErrorModel::Format(e)),
            }
        }
    } else {
        match json_doc(payload) {
            Ok(d) => Ok(d),
            Err(e) => Err(ErrorModel::Format(e)),
        }
    }
}

/// Parse an embedded document: check and strip the binary envelope, then
/// parse the text.
pub fn parse_document(payload: &Vec<u8>, binary: bool) -> (r: Result<DocValue, DecodeError>)
    ensures
        match (r, sp_parse_document(payload@, binary)) {
            (Result::Ok(v), Result::Ok(m)) => v.model() == m,
            (Result::Err(a), Result::Err(b)) => a.model() == b,
            _ => false,
        },
{
    if binary {
        if payload.len() == 0 {
            return Err(DecodeError::Format(FormatIssue::EmptyBinaryPayload));
        }
        let v0 = payload[0];
        if v0 != DOCUMENT_VERSION {
            return Err(DecodeError::Format(FormatIssue::BadVersionByte(v0)));
        }
        let mut rest: Vec<u8> = Vec::new();
        let mut i: usize = 1;
        while i < payload.len()
            invariant
                1 <= i <= payload@.len(),
                rest@ == payload@.subrange(1, i as int),
            decreases payload@.len() - i,
        {
            rest.push(payload[i]);
            proof {
                assert(rest@ =~= payload@.subrange(1, i + 1));
            }
            i = i + 1;
        }
        match parse_json(&rest) {
            Ok(d) => Ok(d),
            Err(e) => Err(DecodeError::Format(e)),
        }
    } else {
        match parse_json(payload) {
            Ok(d) => Ok(d),
            Err(e) => Err(DecodeError::Format(e)),
        }
    }
}

// ---------------------------------------------------------------------------
// Decoding a parsed document against a shape.  The specifications speak of
// the mathematical document model; the executable decoder works on the
// parsed tree and is proved to match them.
// ---------------------------------------------------------------------------

/// The identity reading of a document: what it decodes to when the caller
/// asks for whatever is there.
pub open spec fn sp_doc_any(d: DocModel) -> ValueModel
    decreases d, 0int,
{
    match d {
        DocModel::Null => ValueModel::Null,
        DocModel::Bool(b) => ValueModel::Bool(b),
        DocModel::Int(n) => ValueModel::I64(n),
        DocModel::UInt(n) => ValueModel::U64(n),
        DocModel::NumLit(s) => ValueModel::NumLit(s),
        DocModel::Text(s) => ValueModel::Str(s),
        DocModel::Items(items) => ValueModel::Array(sp_any_list(items)),
        DocModel::Entries(entries) => ValueModel::Object(sp_any_entries(entries)),
    }
}

pub open spec fn sp_any_list(items: Seq<DocModel>) -> Seq<ValueModel>
    decreases items, 1int,
{
    if items.len() == 0 {
        Seq::empty()
    } else {
        seq![sp_doc_any(items[0])] + sp_any_list(items.subrange(1, items.len() as int))
    }
}

pub open spec fn sp_any_entries(entries: Seq<(Seq<char>, DocModel)>) -> Seq<
    (Seq<char>, ValueModel),
>
    decreases entries, 1int,
{
    if entries.len() == 0 {
        Seq::empty()
    } else {
        seq![(entries[0].0, sp_doc_any(entries[0].1))] + sp_any_entries(
            entries.subrange(1, entries.len() as int),
        )
    }
}

/// How many entries carry the key `k`.
pub open spec fn count_key(entries: Seq<(Seq<char>, DocModel)>, k: Seq<char>) -> nat
    decreases entries,
{
    if entries.len() == 0 {
        0
    } else {
        (if entries[0].0 == k {
            1nat
        } else {
            0nat
        }) + count_key(entries.subrange(1, entries.len() as int), k)
    }
}

/// The value of the first entry that carries the key `k`.
pub open spec fn first_key_val(entries: Seq<(Seq<char>, DocModel)>, k: Seq<char>) -> DocModel
    decreases entries,
{
    if entries.len() == 0 {
        DocModel::Null
    } else if entries[0].0 == k {
        entries[0].1
    } else {
        first_key_val(entries.subrange(1, entries.len() as int), k)
    }
}

/// The first entry key that no field of a record claims, if any.
pub open spec fn first_unclaimed(fields: Seq<Field>, entries: Seq<(Seq<char>, DocModel)>) -> Option<
    Seq<char>,
>
    decreases entries,
{
    if entries.len() == 0 {
        None
    } else if !claims_name(fields, entries[0].0) {
        Some(entries[0].0)
    } else {
        first_unclaimed(fields, entries.subrange(1, entries.len() as int))
    }
}

/// Decode a parsed document against a shape.  This is the meaning of every
/// nested decode below a document column.
pub open spec fn sp_doc(d: DocModel, shape: Shape) -> Result<ValueModel, ErrorModel>
    decreases shape, d, 0int,
{
    match shape {
        Shape::Any => Ok(sp_doc_any(d)),
        Shape::Optional(inner) => {
            if d is Null {
                Ok(ValueModel::Null)
            } else {
                sp_doc(d, *inner)
            }
        },
        Shape::NewtypeStruct(inner) => sp_doc(d, *inner),
        Shape::Bool => match d {
            DocModel::Bool(b) => Ok(ValueModel::Bool(b)),
            _ => Err(ErrorModel::TypeMismatch(MismatchModel::WrongType)),
        },
        Shape::I16 => match d {
            DocModel::Int(n) => if -0x8000 <= n <= 0x7fff {
                Ok(ValueModel::I16(n as i16))
            } else {
                Err(ErrorModel::TypeMismatch(MismatchModel::OutOfRange))
            },
            DocModel::UInt(_) => Err(ErrorModel::TypeMismatch(MismatchModel::OutOfRange)),
            _ => Err(ErrorModel::TypeMismatch(MismatchModel::WrongType)),
        },
        Shape::I32 => match d {
            DocModel::Int(n) => if -0x80000000 <= n <= 0x7fffffff {
                Ok(ValueModel::I32(n as i32))
            } else {
                Err(ErrorModel::TypeMismatch(MismatchModel::OutOfRange))
            },
            DocModel::UInt(_) => Err(ErrorModel::TypeMismatch(MismatchModel::OutOfRange)),
            _ => Err(ErrorModel::TypeMismatch(MismatchModel::WrongType)),
        },
        Shape::I64 => match d {
            DocModel::Int(n) => Ok(ValueModel::I64(n)),
            DocModel::UInt(_) => Err(ErrorModel::TypeMismatch(MismatchModel::OutOfRange)),
            _ => Err(ErrorModel::TypeMismatch(MismatchModel::WrongType)),
        },
        Shape::F32 | Shape::F64 => match d {
            DocModel::Int(n) => Ok(ValueModel::I64(n)),
            DocModel::UInt(n) => Ok(ValueModel::U64(n)),
            DocModel::NumLit(s) => Ok(ValueModel::NumLit(s)),
            _ => Err(ErrorModel::TypeMismatch(MismatchModel::WrongType)),
        },
        Shape::Str => match d {
            DocModel::Text(s) => Ok(ValueModel::Str(s)),
            _ => Err(ErrorModel::TypeMismatch(MismatchModel::WrongType)),
        },
        Shape::Bytes => Err(ErrorModel::TypeMismatch(MismatchModel::WrongType)),
        Shape::Sequence(elem) => match d {
            DocModel::Items(items) => match sp_doc_list(items, *elem) {
                Ok(vs) => Ok(ValueModel::Array(vs)),
                Err(e) => Err(e),
            },
            _ => Err(ErrorModel::TypeMismatch(MismatchModel::WrongType)),
        },
        Shape::Tuple(elems) => match d {
            DocModel::Items(items) => if items.len() == elems@.len() {
                match sp_doc_tuple(elems@, items) {
                    Ok(vs) => Ok(ValueModel::Array(vs)),
                    Err(e) => Err(e),
                }
            } else {
                Err(
                    ErrorModel::TypeMismatch(
                        MismatchModel::ColumnCount { expected: elems@.len(), found: items.len() },
                    ),
                )
            },
            _ => Err(ErrorModel::TypeMismatch(MismatchModel::WrongType)),
        },
        Shape::Mapping(v) => match d {
            DocModel::Entries(entries) => match sp_doc_mapping(entries, *v) {
                Ok(es) => Ok(ValueModel::Object(es)),
                Err(e) => Err(e),
            },
            _ => Err(ErrorModel::TypeMismatch(MismatchModel::NotAnObject)),
        },
        Shape::Record(fields) => match d {
            DocModel::Entries(entries) => sp_doc_record(fields@, entries),
            _ => Err(ErrorModel::TypeMismatch(MismatchModel::WrongType)),
        },
    }
}

pub open spec fn sp_doc_list(items: Seq<DocModel>, elem: Shape) -> Result<
    Seq<ValueModel>,
    ErrorModel,
>
    decreases elem, items, 1int,
{
    if items.len() == 0 {
        Ok(Seq::empty())
    } else {
        match sp_doc(items[0], elem) {
            Ok(v) => match sp_doc_list(items.subrange(1, items.len() as int), elem) {
                Ok(vs) => Ok(seq![v] + vs),
                Err(e) => Err(e),
            },
            Err(e) => Err(e),
        }
    }
}

pub open spec fn sp_doc_tuple(elems: Seq<Shape>, items: Seq<DocModel>) -> Result<
    Seq<ValueModel>,
    ErrorModel,
>
    decreases elems, items, 1int,
{
    if elems.len() == 0 {
        Ok(Seq::empty())
    } else {
        match sp_doc(items[0], elems[0]) {
            Ok(v) => match sp_doc_tuple(
                elems.subrange(1, elems.len() as int),
                items.subrange(1, items.len() as int),
            ) {
                Ok(vs) => Ok(seq![v] + vs),
                Err(e) => Err(e),
            },
            Err(e) => Err(e),
        }
    }
}

pub open spec fn sp_doc_mapping(entries: Seq<(Seq<char>, DocModel)>, v: Shape) -> Result<
    Seq<(Seq<char>, ValueModel)>,
    ErrorModel,
>
    decreases v, entries, 1int,
{
    if entries.len() == 0 {
        Ok(Seq::empty())
    } else {
        match sp_doc(entries[0].1, v) {
            Ok(val) => match sp_doc_mapping(entries.subrange(1, entries.len() as int), v) {
                Ok(es) => Ok(seq![(entries[0].0, val)] + es),
                Err(e) => Err(e),
            },
            Err(e) => Err(e),
        }
    }
}

/// Decode a record from object entries.  Without flattened fields every
/// entry key must be a field name; with them, unclaimed keys go to a
/// flattened mapping, or are dropped.
pub open spec fn sp_doc_record(fields: Seq<Field>, entries: Seq<(Seq<char>, DocModel)>) -> Result<
    ValueModel,
    ErrorModel,
>
    decreases fields, entries, 2int,
{
    if !has_flatten(fields) {
        match first_unclaimed(fields, entries) {
            Some(k) => Err(ErrorModel::TypeMismatch(MismatchModel::UnknownField(k))),
            None => match sp_doc_fields(fields, fields, entries) {
                Ok(es) => Ok(ValueModel::Object(es)),
                Err(e) => Err(e),
            },
        }
    } else {
        match sp_doc_fields(fields, fields, entries) {
            Ok(es) => Ok(ValueModel::Object(es)),
            Err(e) => Err(e),
        }
    }
}

/// Build each field of a record, in declaration order.  `all` is the whole
/// field list of the record being built; `rem` the fields still to build.
pub open spec fn sp_doc_fields(
    all: Seq<Field>,
    rem: Seq<Field>,
    entries: Seq<(Seq<char>, DocModel)>,
) -> Result<Seq<(Seq<char>, ValueModel)>, ErrorModel>
    decreases rem, entries, 1int,
{
    if rem.len() == 0 {
        Ok(Seq::empty())
    } else {
        let f = rem[0];
        let head: Result<ValueModel, ErrorModel> = if !f.flatten {
            if count_key(entries, f.name@) == 0 {
                Err(ErrorModel::TypeMismatch(MismatchModel::MissingField(f.name@)))
            } else if count_key(entries, f.name@) > 1 {
                Err(ErrorModel::TypeMismatch(MismatchModel::DuplicateField(f.name@)))
            } else {
                sp_doc(first_key_val(entries, f.name@), f.shape)
            }
        } else {
            match f.shape {
                Shape::Record(sub) => match sp_doc_fields(sub@, sub@, entries) {
                    Ok(es) => Ok(ValueModel::Object(es)),
                    Err(e) => Err(e),
                },
                Shape::Mapping(v) => match sp_doc_rest(all, entries, *v) {
                    Ok(es) => Ok(ValueModel::Object(es)),
                    Err(e) => Err(e),
                },
                _ => Err(ErrorModel::TypeMismatch(MismatchModel::WrongType)),
            }
        };
        match head {
            Err(e) => Err(e),
            Ok(v) => match sp_doc_fields(all, rem.subrange(1, rem.len() as int), entries) {
                Ok(es) => Ok(seq![(f.name@, v)] + es),
                Err(e) => Err(e),
            },
        }
    }
}

/// The entries no field of the record claims, each decoded at the
/// flattened mapping's value shape.
pub open spec fn sp_doc_rest(
    all: Seq<Field>,
    entries: Seq<(Seq<char>, DocModel)>,
    v: Shape,
) -> Result<Seq<(Seq<char>, ValueModel)>, ErrorModel>
    decreases v, entries, 1int,
{
    if entries.len() == 0 {
        Ok(Seq::empty())
    } else {
        let rest = sp_doc_rest(all, entries.subrange(1, entries.len() as int), v);
        if claims_name(all, entries[0].0) {
            rest
        } else {
            match sp_doc(entries[0].1, v) {
                Ok(val) => match rest {
                    Ok(es) => Ok(seq![(entries[0].0, val)] + es),
                    Err(e) => Err(e),
                },
                Err(e) => Err(e),
            }
        }
    }
}

// ---------------------------------------------------------------------------
// The executable document decoder, proved equal to the meaning above.
// ---------------------------------------------------------------------------

/// A deserializer over one parsed document: it reads the document out as
/// whatever it is.
pub struct PgJsonDeserializer {
    pub value: DocValue,
}

impl PgJsonDeserializer {
    pub fn deserialize_any(&self) -> (r: Value)
        ensures
            r.model() == sp_doc_any(self.value.model()),
    {
        e_doc_any(&self.value)
    }
}

pub(crate) fn e_has_flatten(fields: &Vec<Field>) -> (r: bool)
    ensures
        r == has_flatten(fields@),
{
    let mut idx: usize = 0;
    while idx < fields.len()
        invariant
            idx <= fields@.len(),
            forall|m: int| 0 <= m < idx ==> !(#[trigger] fields@[m]).flatten,
        decreases fields@.len() - idx,
    {
        if fields[idx].flatten {
            return true;
        }
        idx = idx + 1;
    }
    false
}

pub(crate) fn e_claims(fields: &Vec<Field>, k: &String) -> (r: bool)
    ensures
        r == claims_name(fields@, k@),
    decreases *fields,
{
    let mut idx: usize = 0;
    proof {
        assert(fields@.subrange(0, fields@.len() as int) =~= fields@);
    }
    while idx < fields.len()
        invariant
            idx <= fields@.len(),
            claims_name(fields@, k@) == claims_name(
                fields@.subrange(idx as int, fields@.len() as int),
                k@,
            ),
        decreases fields@.len() - idx,
    {
        let ghost pre = fields@.subrange(idx as int, fields@.len() as int);
        proof {
            assert(pre[0] == fields@[idx as int]);
            assert(pre.subrange(1, pre.len() as int) =~= fields@.subrange(
                idx + 1,
                fields@.len() as int,
            ));
        }
        let f = &fields[idx];
        if !f.flatten {
            if f.name == *k {
                return true;
            }
        } else {
            match &f.shape {
                Shape::Record(sub) => {
                    if e_claims(sub, k) {
                        return true;
                    }
                },
                _ => {},
            }
        }
        idx = idx + 1;
    }
    proof {
        assert(fields@.subrange(fields@.len() as int, fields@.len() as int)
            =~= Seq::<Field>::empty());
    }
    false
}

/// How many entries carry the key, and the first value that does.
pub(crate) fn e_find_key<'a>(entries: &'a Vec<(String, DocValue)>, k: &String) -> (r: (
    usize,
    Option<&'a DocValue>,
))
    ensures
        r.0 == count_key(doc_entries_model(entries@), k@),
        match r.1 {
            Option::Some(d) => r.0 >= 1 && d.model() == first_key_val(
                doc_entries_model(entries@),
                k@,
            ),
            Option::None => r.0 == 0,
        },
{
    let ghost ms = doc_entries_model(entries@);
    let mut idx: usize = 0;
    let mut cnt: usize = 0;
    let mut found: Option<&'a DocValue> = None;
    proof {
        crate::value::lemma_doc_entries_model(entries@);
        assert(ms.subrange(0, ms.len() as int) =~= ms);
    }
    while idx < entries.len()
        invariant
            ms == doc_entries_model(entries@),
            ms.len() == entries@.len(),
            idx <= entries@.len(),
            cnt <= idx,
            count_key(ms, k@) == cnt + count_key(ms.subrange(idx as int, ms.len() as int), k@),
            match found {
                Option::Some(d) => cnt >= 1 && d.model() == first_key_val(ms, k@),
                Option::None => cnt == 0 && first_key_val(ms, k@) == first_key_val(
                    ms.subrange(idx as int, ms.len() as int),
                    k@,
                ),
            },
        decreases entries@.len() - idx,
    {
        let ghost pre = ms.subrange(idx as int, ms.len() as int);
        proof {
            crate::value::lemma_doc_entries_model(entries@);
            assert(pre[0] == ms[idx as int]);
            assert(ms[idx as int] == (entries@[idx as int].0@, entries@[idx as int].1.model()));
            assert(pre.subrange(1, pre.len() as int) =~= ms.subrange(idx + 1, ms.len() as int));
        }
        if entries[idx].0 == *k {
            cnt = cnt + 1;
            if cnt == 1 {
                found = Some(&entries[idx].1);
            }
        }
        idx = idx + 1;
    }
    proof {
        assert(ms.subrange(ms.len() as int, ms.len() as int) =~= Seq::<
            (Seq<char>, DocModel),
        >::empty());
    }
    (cnt, found)
}

pub(crate) fn e_first_unclaimed(fields: &Vec<Field>, entries: &Vec<(String, DocValue)>) -> (r:
    Option<String>)
    ensures
        match (r, first_unclaimed(fields@, doc_entries_model(entries@))) {
            (Option::Some(k), Option::Some(m)) => k@ == m,
            (Option::None, Option::None) => true,
            _ => false,
        },
{
    let ghost ms = doc_entries_model(entries@);
    let mut idx: usize = 0;
    proof {
        crate::value::lemma_doc_entries_model(entries@);
        assert(ms.subrange(0, ms.len() as int) =~= ms);
    }
    while idx < entries.len()
        invariant
            ms == doc_entries_model(entries@),
            ms.len() == entries@.len(),
            idx <= entries@.len(),
            first_unclaimed(fields@, ms) == first_unclaimed(
                fields@,
                ms.subrange(idx as int, ms.len() as int),
            ),
        decreases entries@.len() - idx,
    {
        let ghost pre = ms.subrange(idx as int, ms.len() as int);
        proof {
            crate::value::lemma_doc_entries_model(entries@);
            assert(pre[0] == ms[idx as int]);
            assert(ms[idx as int] == (entries@[idx as int].0@, entries@[idx as int].1.model()));
            assert(pre.subrange(1, pre.len() as int) =~= ms.subrange(idx + 1, ms.len() as int));
        }
        if !e_claims(fields, &entries[idx].0) {
            return Some(entries[idx].0.clone());
        }
        idx = idx + 1;
    }
    proof {
        assert(ms.subrange(ms.len() as int, ms.len() as int) =~= Seq::<
            (Seq<char>, DocModel),
        >::empty());
    }
    None
}

/// The identity reading of a document.
pub(crate) fn e_doc_any(d: &DocValue) -> (r: Value)
    ensures
        r.model() == sp_doc_any(d.model()),
    decreases *d, 0int,
{
    match d {
        DocValue::Null => Value::Null,
        DocValue::Bool(b) => Value::Bool(*b),
        DocValue::Int(n) => Value::I64(*n),
        DocValue::UInt(n) => Value::U64(*n),
        DocValue::NumLit(s) => Value::NumLit(s.clone()),
        DocValue::Text(s) => Value::Str(s.clone()),
        DocValue::Items(items) => Value::Array(e_any_list(items)),
        DocValue::Entries(entries) => Value::Object(e_any_entries(entries)),
    }
}

pub(crate) fn e_any_list(items: &Vec<DocValue>) -> (r: Vec<Value>)
    ensures
        value_list_model(r@) == sp_any_list(doc_list_model(items@)),
    decreases *items, 1int,
{
    let ghost ms = doc_list_model(items@);
    let mut out: Vec<Value> = Vec::new();
    let mut idx: usize = 0;
    proof {
        crate::value::lemma_doc_list_model(items@);
        assert(value_list_model(out@) =~= Seq::<ValueModel>::empty());
        assert(ms.subrange(0, ms.len() as int) =~= ms);
    }
    while idx < items.len()
        invariant
            ms == doc_list_model(items@),
            ms.len() == items@.len(),
            idx <= items@.len(),
            sp_any_list(ms) =~= value_list_model(out@) + sp_any_list(
                ms.subrange(idx as int, ms.len() as int),
            ),
        decreases items@.len() - idx,
    {
        let ghost pre = ms.subrange(idx as int, ms.len() as int);
        proof {
            crate::value::lemma_doc_list_model(items@);
            assert(pre[0] == ms[idx as int]);
            assert(ms[idx as int] == items@[idx as int].model());
            assert(pre.subrange(1, pre.len() as int) =~= ms.subrange(idx + 1, ms.len() as int));
        }
        let v = e_doc_any(&items[idx]);
        proof {
            crate::value::lemma_value_list_model_push(out@, v);
        }
        out.push(v);
        idx = idx + 1;
    }
    proof {
        assert(ms.subrange(ms.len() as int, ms.len() as int) =~= Seq::<DocModel>::empty());
        assert(sp_any_list(ms.subrange(ms.len() as int, ms.len() as int)) =~= Seq::<
            ValueModel,
        >::empty());
        assert(value_list_model(out@) =~= sp_any_list(ms));
    }
    out
}

pub(crate) fn e_any_entries(entries: &Vec<(String, DocValue)>) -> (r: Vec<(String, Value)>)
    ensures
        value_entries_model(r@) == sp_any_entries(doc_entries_model(entries@)),
    decreases *entries, 1int,
{
    let ghost ms = doc_entries_model(entries@);
    let mut out: Vec<(String, Value)> = Vec::new();
    let mut idx: usize = 0;
    proof {
        crate::value::lemma_doc_entries_model(entries@);
        assert(value_entries_model(out@) =~= Seq::<(Seq<char>, ValueModel)>::empty());
        assert(ms.subrange(0, ms.len() as int) =~= ms);
    }
    while idx < entries.len()
        invariant
            ms == doc_entries_model(entries@),
            ms.len() == entries@.len(),
            idx <= entries@.len(),
            sp_any_entries(ms) =~= value_entries_model(out@) + sp_any_entries(
                ms.subrange(idx as int, ms.len() as int),
            ),
        decreases entries@.len() - idx,
    {
        let ghost pre = ms.subrange(idx as int, ms.len() as int);
        proof {
            crate::value::lemma_doc_entries_model(entries@);
            assert(pre[0] == ms[idx as int]);
            assert(ms[idx as int] == (entries@[idx as int].0@, entries@[idx as int].1.model()));
            assert(pre.subrange(1, pre.len() as int) =~= ms.subrange(idx + 1, ms.len() as int));
        }
        let k = entries[idx].0.clone();
        let v = e_doc_any(&entries[idx].1);
        proof {
            crate::value::lemma_value_entries_model_push(out@, k, v);
        }
        out.push((k, v));
        idx = idx + 1;
    }
    proof {
        assert(ms.subrange(ms.len() as int, ms.len() as int) =~= Seq::<
            (Seq<char>, DocModel),
        >::empty());
        assert(sp_any_entries(ms.subrange(ms.len() as int, ms.len() as int)) =~= Seq::<
            (Seq<char>, ValueModel),
        >::empty());
        assert(value_entries_model(out@) =~= sp_any_entries(ms));
    }
    out
}

/// Decode a parsed document against a shape.
pub fn e_doc(d: &DocValue, shape: &Shape) -> (r: Result<Value, DecodeError>)
    ensures
        match (r, sp_doc(d.model(), *shape)) {
            (Result::Ok(v), Result::Ok(m)) => v.model() == m,
            (Result::Err(a), Result::Err(b)) => a.model() == b,
            _ => false,
        },
    decreases *shape, *d, 0int,
{
    match shape {
        Shape::Any => Ok(e_doc_any(d)),
        Shape::Optional(inner) => match d {
            DocValue::Null => Ok(Value::Null),
            _ => e_doc(d, &**inner),
        },
        Shape::NewtypeStruct(inner) => e_doc(d, &**inner),
        Shape::Bool => match d {
            DocValue::Bool(b) => Ok(Value::Bool(*b)),
            _ => Err(DecodeError::TypeMismatch(Mismatch::WrongType)),
        },
        Shape::I16 => match d {
            DocValue::Int(n) => if -0x8000 <= *n && *n <= 0x7fff {
                Ok(Value::I16(*n as i16))
            } else {
                Err(DecodeError::TypeMismatch(Mismatch::OutOfRange))
            },
            DocValue::UInt(_) => Err(DecodeError::TypeMismatch(Mismatch::OutOfRange)),
            _ => Err(DecodeError::TypeMismatch(Mismatch::WrongType)),
        },
        Shape::I32 => match d {
            DocValue::Int(n) => if -0x80000000 <= *n && *n <= 0x7fffffff {
                Ok(Value::I32(*n as i32))
            } else {
                Err(DecodeError::TypeMismatch(Mismatch::OutOfRange))
            },
            DocValue::UInt(_) => Err(DecodeError::TypeMismatch(Mismatch::OutOfRange)),
            _ => Err(DecodeError::TypeMismatch(Mismatch::WrongType)),
        },
        Shape::I64 => match d {
            DocValue::Int(n) => Ok(Value::I64(*n)),
            DocValue::UInt(_) => Err(DecodeError::TypeMismatch(Mismatch::OutOfRange)),
            _ => Err(DecodeError::TypeMismatch(Mismatch::WrongType)),
        },
        Shape::F32 | Shape::F64 => match d {
            DocValue::Int(n) => Ok(Value::I64(*n)),
            DocValue::UInt(n) => Ok(Value::U64(*n)),
            DocValue::NumLit(s) => Ok(Value::NumLit(s.clone())),
            _ => Err(DecodeError::TypeMismatch(Mismatch::WrongType)),
        },
        Shape::Str => match d {
            DocValue::Text(s) => Ok(Value::Str(s.clone())),
            _ => Err(DecodeError::TypeMismatch(Mismatch::WrongType)),
        },
        Shape::Bytes => Err(DecodeError::TypeMismatch(Mismatch::WrongType)),
        Shape::Sequence(elem) => match d {
            DocValue::Items(items) => match e_doc_list(items, &**elem) {
                Ok(vs) => Ok(Value::Array(vs)),
                Err(e) => Err(e),
            },
            _ => Err(DecodeError::TypeMismatch(Mismatch::WrongType)),
        },
        Shape::Tuple(elems) => match d {
            DocValue::Items(items) => if items.len() == elems.len() {
                proof {
                    crate::value::lemma_doc_list_model(items@);
                }
                match e_doc_tuple(elems, items) {
                    Ok(vs) => Ok(Value::Array(vs)),
                    Err(e) => Err(e),
                }
            } else {
                proof {
                    crate::value::lemma_doc_list_model(items@);
                }
                Err(
                    DecodeError::TypeMismatch(
                        Mismatch::ColumnCount { expected: elems.len(), found: items.len() },
                    ),
                )
            },
            _ => Err(DecodeError::TypeMismatch(Mismatch::WrongType)),
        },
        Shape::Mapping(v) => match d {
            DocValue::Entries(entries) => match e_doc_mapping(entries, &**v) {
                Ok(es) => Ok(Value::Object(es)),
                Err(e) => Err(e),
            },
            _ => Err(DecodeError::TypeMismatch(Mismatch::NotAnObject)),
        },
        Shape::Record(fields) => match d {
            DocValue::Entries(entries) => e_doc_record(fields, entries),
            _ => Err(DecodeError::TypeMismatch(Mismatch::WrongType)),
        },
    }
}

fn e_doc_list(items: &Vec<DocValue>, elem: &Shape) -> (r: Result<Vec<Value>, DecodeError>)
    ensures
        match (r, sp_doc_list(doc_list_model(items@), *elem)) {
            (Result::Ok(vs), Result::Ok(m)) => value_list_model(vs@) == m,
            (Result::Err(a), Result::Err(b)) => a.model() == b,
            _ => false,
        },
    decreases *elem, *items, 1int,
{
    let ghost ms = doc_list_model(items@);
    let mut out: Vec<Value> = Vec::new();
    let mut idx: usize = 0;
    proof {
        crate::value::lemma_doc_list_model(items@);
        assert(ms.subrange(0, ms.len() as int) =~= ms);
        assert(value_list_model(out@) =~= Seq::<ValueModel>::empty());
    }
    while idx < items.len()
        invariant
            ms == doc_list_model(items@),
            ms.len() == items@.len(),
            idx <= items@.len(),
            match sp_doc_list(ms.subrange(idx as int, ms.len() as int), *elem) {
                Ok(rest) => sp_doc_list(ms, *elem) == Ok::<_, ErrorModel>(
                    value_list_model(out@) + rest,
                ),
                Err(e) => sp_doc_list(ms, *elem) == Err::<Seq<ValueModel>, _>(e),
            },
        decreases items@.len() - idx,
    {
        let ghost pre = ms.subrange(idx as int, ms.len() as int);
        proof {
            crate::value::lemma_doc_list_model(items@);
            assert(pre[0] == ms[idx as int]);
            assert(ms[idx as int] == items@[idx as int].model());
            assert(pre.subrange(1, pre.len() as int) =~= ms.subrange(idx + 1, ms.len() as int));
        }
        match e_doc(&items[idx], elem) {
            Err(e) => {
                return Err(e);
            },
            Ok(v) => {
                proof {
                    crate::value::lemma_value_list_model_push(out@, v);
                }
                out.push(v);
            },
        }
        proof {
            match sp_doc_list(ms.subrange(idx + 1, ms.len() as int), *elem) {
                Ok(rest2) => match sp_doc_list(ms, *elem) {
                    Ok(whole) => {
                        assert(value_list_model(out@) + rest2 =~= whole);
                    },
                    Err(_) => {},
                },
                Err(_) => {},
            }
        }
        idx = idx + 1;
    }
    proof {
        assert(ms.subrange(ms.len() as int, ms.len() as int) =~= Seq::<DocModel>::empty());
        assert(value_list_model(out@) + Seq::<ValueModel>::empty() =~= value_list_model(out@));
    }
    Ok(out)
}

fn e_doc_tuple(elems: &Vec<Shape>, items: &Vec<DocValue>) -> (r: Result<Vec<Value>, DecodeError>)
    requires
        elems@.len() == items@.len(),
    ensures
        match (r, sp_doc_tuple(elems@, doc_list_model(items@))) {
            (Result::Ok(vs), Result::Ok(m)) => value_list_model(vs@) == m,
            (Result::Err(a), Result::Err(b)) => a.model() == b,
            _ => false,
        },
    decreases *elems, *items, 1int,
{
    let ghost ms = doc_list_model(items@);
    let mut out: Vec<Value> = Vec::new();
    let mut idx: usize = 0;
    proof {
        crate::value::lemma_doc_list_model(items@);
        assert(elems@.subrange(0, elems@.len() as int) =~= elems@);
        assert(ms.subrange(0, ms.len() as int) =~= ms);
        assert(value_list_model(out@) =~= Seq::<ValueModel>::empty());
    }
    while idx < elems.len()
        invariant
            ms == doc_list_model(items@),
            ms.len() == items@.len(),
            idx <= elems@.len() == items@.len(),
            match sp_doc_tuple(
                elems@.subrange(idx as int, elems@.len() as int),
                ms.subrange(idx as int, ms.len() as int),
            ) {
                Ok(rest) => sp_doc_tuple(elems@, ms) == Ok::<_, ErrorModel>(
                    value_list_model(out@) + rest,
                ),
                Err(e) => sp_doc_tuple(elems@, ms) == Err::<Seq<ValueModel>, _>(e),
            },
        decreases elems@.len() - idx,
    {
        let ghost pe = elems@.subrange(idx as int, elems@.len() as int);
        let ghost pi = ms.subrange(idx as int, ms.len() as int);
        proof {
            crate::value::lemma_doc_list_model(items@);
            assert(pe[0] == elems@[idx as int]);
            assert(pi[0] == ms[idx as int]);
            assert(ms[idx as int] == items@[idx as int].model());
            assert(pe.subrange(1, pe.len() as int) =~= elems@.subrange(
                idx + 1,
                elems@.len() as int,
            ));
            assert(pi.subrange(1, pi.len() as int) =~= ms.subrange(idx + 1, ms.len() as int));
        }
        match e_doc(&items[idx], &elems[idx]) {
            Err(e) => {
                return Err(e);
            },
            Ok(v) => {
                proof {
                    crate::value::lemma_value_list_model_push(out@, v);
                }
                out.push(v);
            },
        }
        proof {
            match sp_doc_tuple(
                elems@.subrange(idx + 1, elems@.len() as int),
                ms.subrange(idx + 1, ms.len() as int),
            ) {
                Ok(rest2) => match sp_doc_tuple(elems@, ms) {
                    Ok(whole) => {
                        assert(value_list_model(out@) + rest2 =~= whole);
                    },
                    Err(_) => {},
                },
                Err(_) => {},
            }
        }
        idx = idx + 1;
    }
    proof {
        assert(elems@.subrange(elems@.len() as int, elems@.len() as int) =~= Seq::<Shape>::empty());
        assert(value_list_model(out@) + Seq::<ValueModel>::empty() =~= value_list_model(out@));
    }
    Ok(out)
}

fn e_doc_mapping(entries: &Vec<(String, DocValue)>, v: &Shape) -> (r: Result<
    Vec<(String, Value)>,
    DecodeError,
>)
    ensures
        match (r, sp_doc_mapping(doc_entries_model(entries@), *v)) {
            (Result::Ok(es), Result::Ok(m)) => value_entries_model(es@) == m,
            (Result::Err(a), Result::Err(b)) => a.model() == b,
            _ => false,
        },
    decreases *v, *entries, 1int,
{
    let ghost ms = doc_entries_model(entries@);
    let mut out: Vec<(String, Value)> = Vec::new();
    let mut idx: usize = 0;
    proof {
        crate::value::lemma_doc_entries_model(entries@);
        assert(ms.subrange(0, ms.len() as int) =~= ms);
        assert(value_entries_model(out@) =~= Seq::<(Seq<char>, ValueModel)>::empty());
    }
    while idx < entries.len()
        invariant
            ms == doc_entries_model(entries@),
            ms.len() == entries@.len(),
            idx <= entries@.len(),
            match sp_doc_mapping(ms.subrange(idx as int, ms.len() as int), *v) {
                Ok(rest) => sp_doc_mapping(ms, *v) == Ok::<_, ErrorModel>(
                    value_entries_model(out@) + rest,
                ),
                Err(e) => sp_doc_mapping(ms, *v) == Err::<Seq<(Seq<char>, ValueModel)>, _>(e),
            },
        decreases entries@.len() - idx,
    {
        let ghost pre = ms.subrange(idx as int, ms.len() as int);
        proof {
            crate::value::lemma_doc_entries_model(entries@);
            assert(pre[0] == ms[idx as int]);
            assert(ms[idx as int] == (entries@[idx as int].0@, entries@[idx as int].1.model()));
            assert(pre.subrange(1, pre.len() as int) =~= ms.subrange(idx + 1, ms.len() as int));
        }
        match e_doc(&entries[idx].1, v) {
            Err(e) => {
                return Err(e);
            },
            Ok(val) => {
                let k = entries[idx].0.clone();
                proof {
                    crate::value::lemma_value_entries_model_push(out@, k, val);
                }
                out.push((k, val));
            },
        }
        proof {
            match sp_doc_mapping(ms.subrange(idx + 1, ms.len() as int), *v) {
                Ok(rest2) => match sp_doc_mapping(ms, *v) {
                    Ok(whole) => {
                        assert(value_entries_model(out@) + rest2 =~= whole);
                    },
                    Err(_) => {},
                },
                Err(_) => {},
            }
        }
        idx = idx + 1;
    }
    proof {
        assert(ms.subrange(ms.len() as int, ms.len() as int) =~= Seq::<
            (Seq<char>, DocModel),
        >::empty());
        assert(value_entries_model(out@) + Seq::<(Seq<char>, ValueModel)>::empty()
            =~= value_entries_model(out@));
    }
    Ok(out)
}

/// Decode a record from object entries.
pub(crate) fn e_doc_record(fields: &Vec<Field>, entries: &Vec<(String, DocValue)>) -> (r: Result<
    Value,
    DecodeError,
>)
    ensures
        match (r, sp_doc_record(fields@, doc_entries_model(entries@))) {
            (Result::Ok(v), Result::Ok(m)) => v.model() == m,
            (Result::Err(a), Result::Err(b)) => a.model() == b,
            _ => false,
        },
    decreases *fields, *entries, 2int,
{
    if !e_has_flatten(fields) {
        match e_first_unclaimed(fields, entries) {
            Some(k) => {
                return Err(DecodeError::TypeMismatch(Mismatch::UnknownField(k)));
            },
            None => {},
        }
    }
    match e_doc_fields(fields, entries) {
        Ok(es) => Ok(Value::Object(es)),
        Err(e) => Err(e),
    }
}

fn e_doc_fields(fields: &Vec<Field>, entries: &Vec<(String, DocValue)>) -> (r: Result<
    Vec<(String, Value)>,
    DecodeError,
>)
    ensures
        match (r, sp_doc_fields(fields@, fields@, doc_entries_model(entries@))) {
            (Result::Ok(es), Result::Ok(m)) => value_entries_model(es@) == m,
            (Result::Err(a), Result::Err(b)) => a.model() == b,
            _ => false,
        },
    decreases *fields, *entries, 1int,
{
    let ghost ms = doc_entries_model(entries@);
    let mut out: Vec<(String, Value)> = Vec::new();
    let mut idx: usize = 0;
    proof {
        assert(fields@.subrange(0, fields@.len() as int) =~= fields@);
        assert(value_entries_model(out@) =~= Seq::<(Seq<char>, ValueModel)>::empty());
    }
    while idx < fields.len()
        invariant
            ms == doc_entries_model(entries@),
            idx <= fields@.len(),
            match sp_doc_fields(fields@, fields@.subrange(idx as int, fields@.len() as int), ms) {
                Ok(rest) => sp_doc_fields(fields@, fields@, ms) == Ok::<_, ErrorModel>(
                    value_entries_model(out@) + rest,
                ),
                Err(e) => sp_doc_fields(fields@, fields@, ms) == Err::<
                    Seq<(Seq<char>, ValueModel)>,
                    _,
                >(e),
            },
        decreases fields@.len() - idx,
    {
        let ghost pre = fields@.subrange(idx as int, fields@.len() as int);
        proof {
            assert(pre[0] == fields@[idx as int]);
            assert(pre.subrange(1, pre.len() as int) =~= fields@.subrange(
                idx + 1,
                fields@.len() as int,
            ));
        }
        let f = &fields[idx];
        let head: Value = if !f.flatten {
            let (cnt, found) = e_find_key(entries, &f.name);
            if cnt == 0 {
                return Err(DecodeError::TypeMismatch(Mismatch::MissingField(f.name.clone())));
            } else if cnt > 1 {
                return Err(DecodeError::TypeMismatch(Mismatch::DuplicateField(f.name.clone())));
            } else {
                let d = match found {
                    Some(d) => d,
                    None => {
                        return Err(DecodeError::TypeMismatch(Mismatch::WrongType));
                    },
                };
                match e_doc(d, &f.shape) {
                    Ok(v) => v,
                    Err(e) => {
                        return Err(e);
                    },
                }
            }
        } else {
            match &f.shape {
                Shape::Record(sub) => match e_doc_fields(sub, entries) {
                    Ok(es) => Value::Object(es),
                    Err(e) => {
                        return Err(e);
                    },
                },
                Shape::Mapping(v) => match e_doc_rest(fields, entries, &**v) {
                    Ok(es) => Value::Object(es),
                    Err(e) => {
                        return Err(e);
                    },
                },
                _ => {
                    return Err(DecodeError::TypeMismatch(Mismatch::WrongType));
                },
            }
        };
        let k = f.name.clone();
        proof {
            crate::value::lemma_value_entries_model_push(out@, k, head);
        }
        out.push((k, head));
        proof {
            match sp_doc_fields(fields@, fields@.subrange(idx + 1, fields@.len() as int), ms) {
                Ok(rest2) => match sp_doc_fields(fields@, fields@, ms) {
                    Ok(whole) => {
                        assert(value_entries_model(out@) + rest2 =~= whole);
                    },
                    Err(_) => {},
                },
                Err(_) => {},
            }
        }
        idx = idx + 1;
    }
    proof {
        assert(fields@.subrange(fields@.len() as int, fields@.len() as int)
            =~= Seq::<Field>::empty());
        assert(value_entries_model(out@) + Seq::<(Seq<char>, ValueModel)>::empty()
            =~= value_entries_model(out@));
    }
    Ok(out)
}

fn e_doc_rest(all: &Vec<Field>, entries: &Vec<(String, DocValue)>, v: &Shape) -> (r: Result<
    Vec<(String, Value)>,
    DecodeError,
>)
    ensures
        match (r, sp_doc_rest(all@, doc_entries_model(entries@), *v)) {
            (Result::Ok(es), Result::Ok(m)) => value_entries_model(es@) == m,
            (Result::Err(a), Result::Err(b)) => a.model() == b,
            _ => false,
        },
    decreases *v, *entries, 1int,
{
    let ghost ms = doc_entries_model(entries@);
    let mut out: Vec<(String, Value)> = Vec::new();
    let mut idx: usize = 0;
    proof {
        crate::value::lemma_doc_entries_model(entries@);
        assert(ms.subrange(0, ms.len() as int) =~= ms);
        assert(value_entries_model(out@) =~= Seq::<(Seq<char>, ValueModel)>::empty());
    }
    while idx < entries.len()
        invariant
            ms == doc_entries_model(entries@),
            ms.len() == entries@.len(),
            idx <= entries@.len(),
            match sp_doc_rest(all@, ms.subrange(idx as int, ms.len() as int), *v) {
                Ok(rest) => sp_doc_rest(all@, ms, *v) == Ok::<_, ErrorModel>(
                    value_entries_model(out@) + rest,
                ),
                Err(e) => sp_doc_rest(all@, ms, *v) == Err::<Seq<(Seq<char>, ValueModel)>, _>(e),
            },
        decreases entries@.len() - idx,
    {
        let ghost pre = ms.subrange(idx as int, ms.len() as int);
        proof {
            crate::value::lemma_doc_entries_model(entries@);
            assert(pre[0] == ms[idx as int]);
            assert(ms[idx as int] == (entries@[idx as int].0@, entries@[idx as int].1.model()));
            assert(pre.subrange(1, pre.len() as int) =~= ms.subrange(idx + 1, ms.len() as int));
        }
        if !e_claims(all, &entries[idx].0) {
            match e_doc(&entries[idx].1, v) {
                Err(e) => {
                    return Err(e);
                },
                Ok(val) => {
                    let k = entries[idx].0.clone();
                    proof {
                        crate::value::lemma_value_entries_model_push(out@, k, val);
                    }
                    out.push((k, val));
                },
            }
        }
        proof {
            match sp_doc_rest(all@, ms.subrange(idx + 1, ms.len() as int), *v) {
                Ok(rest2) => match sp_doc_rest(all@, ms, *v) {
                    Ok(whole) => {
                        assert(value_entries_model(out@) + rest2 =~= whole);
                    },
                    Err(_) => {},
                },
                Err(_) => {},
            }
        }
        idx = idx + 1;
    }
    proof {
        assert(ms.subrange(ms.len() as int, ms.len() as int) =~= Seq::<
            (Seq<char>, DocModel),
        >::empty());
        assert(value_entries_model(out@) + Seq::<(Seq<char>, ValueModel)>::empty()
            =~= value_entries_model(out@));
    }
    Ok(out)
}

} // verus!
