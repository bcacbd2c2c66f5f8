use vstd::prelude::*;

verus! {

broadcast use vstd::std_specs::vec::group_vec_axioms, vstd::seq::group_seq_axioms;

/// The statically declared structure a caller wants a row or value decoded
/// into.  The engine consumes this descriptor instead of inferring the
/// shape reflectively.
#[derive(Debug, PartialEq)]
pub enum Shape {
    /// Whatever the source value is, kept as it comes.
    Any,
    Bool,
    I16,
    I32,
    I64,
    F32,
    F64,
    Str,
    Bytes,
    /// An optional value: a null source decodes to an absent value.
    Optional(Box<Shape>),
    /// A single-field wrapper; decodes exactly as its inner shape.
    NewtypeStruct(Box<Shape>),
    /// An ordered sequence of one element shape.
    Sequence(Box<Shape>),
    /// A fixed arity of element shapes.
    Tuple(Vec<Shape>),
    /// String keys, one value shape.
    Mapping(Box<Shape>),
    /// Named fields in declaration order.
    Record(Vec<Field>),
}

/// One field of a record shape.
#[derive(Debug, PartialEq)]
pub struct Field {
    pub name: String,
    pub shape: Shape,
    /// A flattened field merges its sub-record's fields into the parent's
    /// namespace; a flattened mapping collects the keys no field claims.
    pub flatten: bool,
}

impl Shape {
    /// Flattened fields make sense only on sub-records and on key-value
    /// collectors; everything else is used as declared.
    pub open spec fn wf(self) -> bool
        decreases self,
    {
        match self {
            Shape::Optional(inner) => inner.wf(),
            Shape::NewtypeStruct(inner) => inner.wf(),
            Shape::Sequence(elem) => elem.wf(),
            Shape::Tuple(elems) => shapes_wf(elems@),
            Shape::Mapping(v) => v.wf(),
            Shape::Record(fields) => fields_wf(fields@),
            _ => true,
        }
    }
}

pub open spec fn shapes_wf(elems: Seq<Shape>) -> bool
    decreases elems,
{
    if elems.len() == 0 {
        true
    } else {
        elems[0].wf() && shapes_wf(elems.subrange(1, elems.len() as int))
    }
}

pub open spec fn fields_wf(fields: Seq<Field>) -> bool
    decreases fields,
{
    if fields.len() == 0 {
        true
    } else {
        let f = fields[0];
        &&& f.shape.wf()
        &&& (f.flatten ==> (f.shape is Record || f.shape is Mapping))
        &&& fields_wf(fields.subrange(1, fields.len() as int))
    }
}

/// True when some field of `fields` is flattened.
pub open spec fn has_flatten(fields: Seq<Field>) -> bool {
    exists|i: int| 0 <= i < fields.len() && (#[trigger] fields[i]).flatten
}

/// The key names this record consumes: its plain fields' names, and,
/// recursively, the names its flattened sub-records consume.  A flattened
/// mapping claims no name; it collects what is left.
pub open spec fn claims_name(fields: Seq<Field>, k: Seq<char>) -> bool
    decreases fields,
{
    if fields.len() == 0 {
        false
    } else {
        let f = fields[0];
        let here = if !f.flatten {
            f.name@ == k
        } else {
            match f.shape {
                Shape::Record(sub) => claims_name(sub@, k),
                _ => false,
            }
        };
        here || claims_name(fields.subrange(1, fields.len() as int), k)
    }
}

} // verus!
