use vstd::prelude::*;

verus! {

broadcast use vstd::std_specs::vec::group_vec_axioms, vstd::seq::group_seq_axioms;

/// A fully assembled decode result.
#[derive(Debug, PartialEq)]
pub enum Value {
    /// The decode of an empty row.
    Unit,
    /// An absent optional, or an explicit document null.
    Null,
    Bool(bool),
    I16(i16),
    I32(i32),
    I64(i64),
    U64(u64),
    /// Bit pattern of a 32-bit IEEE-754 value.
    F32Bits(u32),
    /// Bit pattern of a 64-bit IEEE-754 value.
    F64Bits(u64),
    Str(String),
    Bytes(Vec<u8>),
    /// A document number that is not an integer; its literal text is kept
    /// exactly as written.
    NumLit(String),
    Array(Vec<Value>),
    /// Key/value entries in source order; duplicate keys are kept.
    Object(Vec<(String, Value)>),
}

/// Mathematical model of a `Value`.
pub enum ValueModel {
    Unit,
    Null,
    Bool(bool),
    I16(i16),
    I32(i32),
    I64(i64),
    U64(u64),
    F32Bits(u32),
    F64Bits(u64),
    Str(Seq<char>),
    Bytes(Seq<u8>),
    NumLit(Seq<char>),
    Array(Seq<ValueModel>),
    Object(Seq<(Seq<char>, ValueModel)>),
}

impl Value {
    pub open spec fn model(self) -> ValueModel
        decreases self,
    {
        match self {
            Value::Unit => ValueModel::Unit,
            Value::Null => ValueModel::Null,
            Value::Bool(b) => ValueModel::Bool(b),
            Value::I16(n) => ValueModel::I16(n),
            Value::I32(n) => ValueModel::I32(n),
            Value::I64(n) => ValueModel::I64(n),
            Value::U64(n) => ValueModel::U64(n),
            Value::F32Bits(b) => ValueModel::F32Bits(b),
            Value::F64Bits(b) => ValueModel::F64Bits(b),
            Value::Str(s) => ValueModel::Str(s@),
            Value::Bytes(b) => ValueModel::Bytes(b@),
            Value::NumLit(s) => ValueModel::NumLit(s@),
            Value::Array(items) => ValueModel::Array(value_list_model(items@)),
            Value::Object(entries) => ValueModel::Object(value_entries_model(entries@)),
        }
    }
}

pub open spec fn value_list_model(items: Seq<Value>) -> Seq<ValueModel>
    decreases items,
{
    if items.len() == 0 {
        Seq::empty()
    } else {
        seq![items[0].model()] + value_list_model(items.subrange(1, items.len() as int))
    }
}

pub open spec fn value_entries_model(entries: Seq<(String, Value)>) -> Seq<(Seq<char>, ValueModel)>
    decreases entries,
{
    if entries.len() == 0 {
        Seq::empty()
    } else {
        seq![(entries[0].0@, entries[0].1.model())] + value_entries_model(
            entries.subrange(1, entries.len() as int),
        )
    }
}

pub proof fn lemma_value_list_model(items: Seq<Value>)
    ensures
        value_list_model(items).len() == items.len(),
        forall|i: int|
            0 <= i < items.len() ==> value_list_model(items)[i] == #[trigger] items[i].model(),
    decreases items,
{
    if items.len() > 0 {
        lemma_value_list_model(items.subrange(1, items.len() as int));
        assert forall|i: int| 0 <= i < items.len() implies value_list_model(items)[i]
            == #[trigger] items[i].model() by {
            if i > 0 {
                assert(items.subrange(1, items.len() as int)[i - 1] == items[i]);
            }
        }
    }
}

pub proof fn lemma_value_entries_model(entries: Seq<(String, Value)>)
    ensures
        value_entries_model(entries).len() == entries.len(),
        forall|i: int|
            0 <= i < entries.len() ==> value_entries_model(entries)[i] == (
            #[trigger] entries[i].0@,
            entries[i].1.model(),
            ),
    decreases entries,
{
    if entries.len() > 0 {
        lemma_value_entries_model(entries.subrange(1, entries.len() as int));
        assert forall|i: int| 0 <= i < entries.len() implies value_entries_model(entries)[i] == (
        #[trigger] entries[i].0@,
        entries[i].1.model(),
        ) by {
            if i > 0 {
                assert(entries.subrange(1, entries.len() as int)[i - 1] == entries[i]);
            }
        }
    }
}

pub proof fn lemma_value_list_model_push(items: Seq<Value>, v: Value)
    ensures
        value_list_model(items.push(v)) == value_list_model(items).push(v.model()),
{
    lemma_value_list_model(items);
    lemma_value_list_model(items.push(v));
    assert forall|i: int| 0 <= i < items.len() + 1 implies value_list_model(items.push(v))[i]
        == value_list_model(items).push(v.model())[i] by {
        assert(value_list_model(items.push(v))[i] == items.push(v)[i].model());
        if i < items.len() {
            assert(items.push(v)[i] == items[i]);
            assert(value_list_model(items)[i] == items[i].model());
        } else {
            assert(items.push(v)[i] == v);
        }
    }
    assert(value_list_model(items.push(v)) =~= value_list_model(items).push(v.model()));
}

pub proof fn lemma_value_entries_model_push(entries: Seq<(String, Value)>, k: String, v: Value)
    ensures
        value_entries_model(entries.push((k, v))) == value_entries_model(entries).push(
            (k@, v.model()),
        ),
{
    lemma_value_entries_model(entries);
    lemma_value_entries_model(entries.push((k, v)));
    assert forall|i: int| 0 <= i < entries.len() + 1 implies value_entries_model(
        entries.push((k, v)),
    )[i] == value_entries_model(entries).push((k@, v.model()))[i] by {
        assert(value_entries_model(entries.push((k, v)))[i] == (
        entries.push((k, v))[i].0@,
        entries.push((k, v))[i].1.model(),
        ));
        if i < entries.len() {
            assert(entries.push((k, v))[i] == entries[i]);
            assert(value_entries_model(entries)[i] == (entries[i].0@, entries[i].1.model()));
        } else {
            assert(entries.push((k, v))[i] == (k, v));
        }
    }
    assert(value_entries_model(entries.push((k, v))) =~= value_entries_model(entries).push(
        (k@, v.model()),
    ));
}

/// A parsed embedded document: a tree of null, booleans, numbers, strings,
/// arrays and objects.
#[derive(Debug, PartialEq)]
pub enum DocValue {
    Null,
    Bool(bool),
    /// An integer literal in signed 64-bit range.
    Int(i64),
    /// A positive integer literal above signed 64-bit range but within
    /// unsigned 64-bit range.
    UInt(u64),
    /// Any other number literal, kept as its exact text.
    NumLit(String),
    Text(String),
    Items(Vec<DocValue>),
    /// Object entries in document order.
    Entries(Vec<(String, DocValue)>),
}

/// Mathematical model of a `DocValue`.
pub enum DocModel {
    Null,
    Bool(bool),
    Int(i64),
    UInt(u64),
    NumLit(Seq<char>),
    Text(Seq<char>),
    Items(Seq<DocModel>),
    Entries(Seq<(Seq<char>, DocModel)>),
}

impl DocValue {
    pub open spec fn model(self) -> DocModel
        decreases self,
    {
        match self {
            DocValue::Null => DocModel::Null,
            DocValue::Bool(b) => DocModel::Bool(b),
            DocValue::Int(n) => DocModel::Int(n),
            DocValue::UInt(n) => DocModel::UInt(n),
            DocValue::NumLit(s) => DocModel::NumLit(s@),
            DocValue::Text(s) => DocModel::Text(s@),
            DocValue::Items(items) => DocModel::Items(doc_list_model(items@)),
            DocValue::Entries(entries) => DocModel::Entries(doc_entries_model(entries@)),
        }
    }
}

pub open spec fn doc_list_model(items: Seq<DocValue>) -> Seq<DocModel>
    decreases items,
{
    if items.len() == 0 {
        Seq::empty()
    } else {
        seq![items[0].model()] + doc_list_model(items.subrange(1, items.len() as int))
    }
}

pub open spec fn doc_entries_model(entries: Seq<(String, DocValue)>) -> Seq<(Seq<char>, DocModel)>
    decreases entries,
{
    if entries.len() == 0 {
        Seq::empty()
    } else {
        seq![(entries[0].0@, entries[0].1.model())] + doc_entries_model(
            entries.subrange(1, entries.len() as int),
        )
    }
}

pub proof fn lemma_doc_list_model(items: Seq<DocValue>)
    ensures
        doc_list_model(items).len() == items.len(),
        forall|i: int|
            0 <= i < items.len() ==> doc_list_model(items)[i] == #[trigger] items[i].model(),
    decreases items,
{
    if items.len() > 0 {
        lemma_doc_list_model(items.subrange(1, items.len() as int));
        assert forall|i: int| 0 <= i < items.len() implies doc_list_model(items)[i]
            == #[trigger] items[i].model() by {
            if i > 0 {
                assert(items.subrange(1, items.len() as int)[i - 1] == items[i]);
            }
        }
    }
}

pub proof fn lemma_doc_entries_model(entries: Seq<(String, DocValue)>)
    ensures
        doc_entries_model(entries).len() == entries.len(),
        forall|i: int|
            0 <= i < entries.len() ==> doc_entries_model(entries)[i] == (
            #[trigger] entries[i].0@,
            entries[i].1.model(),
            ),
    decreases entries,
{
    if entries.len() > 0 {
        lemma_doc_entries_model(entries.subrange(1, entries.len() as int));
        assert forall|i: int| 0 <= i < entries.len() implies doc_entries_model(entries)[i] == (
        #[trigger] entries[i].0@,
        entries[i].1.model(),
        ) by {
            if i > 0 {
                assert(entries.subrange(1, entries.len() as int)[i - 1] == entries[i]);
            }
        }
    }
}

} // verus!
