use vstd::prelude::*;
use crate::data::{PgColumn, PgRow, Prim};
use crate::deserializers::{decode_raw_pg, driver_err, e_coerce, sp_coerce, sp_scalar_base};
use crate::error::{DecodeError, ErrorModel, Mismatch, MismatchModel};
use crate::json::{e_doc, parse_document, sp_doc, sp_parse_document};
use crate::shape::Shape;
use crate::tag::TypeTag;
use crate::value::{value_list_model, Value, ValueModel};

verus! {

broadcast use vstd::std_specs::vec::group_vec_axioms, vstd::seq::group_seq_axioms;

/// Decode one present array element at a shape.  An optional shape is
/// resolved first; then document elements go through the document bridge
/// and everything else through the scalar table.
pub open spec fn sp_elem(etag: TypeTag, p: Prim, shape: Shape) -> Result<ValueModel, ErrorModel>
    decreases shape, p, 0int,
{
    match shape {
        Shape::Optional(inner) => sp_elem(etag, p, *inner),
        Shape::NewtypeStruct(inner) => sp_elem(etag, p, *inner),
        _ => {
            if etag.is_document() {
                match p {
                    Prim::Bytes(bs) => match sp_parse_document(bs@, etag.is_binary_document()) {
                        Ok(dm) => sp_doc(dm, shape),
                        Err(e) => Err(e),
                    },
                    _ => Err(driver_err("json"@, etag)),
                }
            } else {
                match sp_scalar_base(etag, p) {
                    Ok(base) => sp_coerce(base, shape),
                    Err(e) => Err(e),
                }
            }
        },
    }
}

/// Decode a run of array elements at one element shape.  An absent element
/// is an absent value when the shape tolerates absence, and fails the
/// whole array otherwise.
pub open spec fn sp_elems(etag: TypeTag, elems: Seq<Option<Prim>>, shape: Shape) -> Result<
    Seq<ValueModel>,
    ErrorModel,
>
    decreases shape, elems, 1int,
{
    if elems.len() == 0 {
        Ok(Seq::empty())
    } else {
        let head: Result<ValueModel, ErrorModel> = match elems[0] {
            None => if shape is Optional {
                Ok(ValueModel::Null)
            } else {
                Err(ErrorModel::TypeMismatch(MismatchModel::NullInArray))
            },
            Some(p) => sp_elem(etag, p, shape),
        };
        match head {
            Err(e) => Err(e),
            Ok(v) => match sp_elems(etag, elems.subrange(1, elems.len() as int), shape) {
                Ok(vs) => Ok(seq![v] + vs),
                Err(e) => Err(e),
            },
        }
    }
}

/// Decode array elements positionally against a fixed arity of shapes.
pub open spec fn sp_elems_tuple(
    etag: TypeTag,
    shapes: Seq<Shape>,
    elems: Seq<Option<Prim>>,
) -> Result<Seq<ValueModel>, ErrorModel>
    decreases shapes, elems, 1int,
{
    if shapes.len() == 0 {
        Ok(Seq::empty())
    } else {
        let head: Result<ValueModel, ErrorModel> = match elems[0] {
            None => if shapes[0] is Optional {
                Ok(ValueModel::Null)
            } else {
                Err(ErrorModel::TypeMismatch(MismatchModel::NullInArray))
            },
            Some(p) => sp_elem(etag, p, shapes[0]),
        };
        match head {
            Err(e) => Err(e),
            Ok(v) => match sp_elems_tuple(
                etag,
                shapes.subrange(1, shapes.len() as int),
                elems.subrange(1, elems.len() as int),
            ) {
                Ok(vs) => Ok(seq![v] + vs),
                Err(e) => Err(e),
            },
        }
    }
}

/// Decode a whole array column at a shape: an ordered sequence for a
/// sequence request or an open request, a fixed arity for a tuple request,
/// and a mismatch for anything else.
pub open spec fn sp_array(tag: TypeTag, elems: Seq<Option<Prim>>, shape: Shape) -> Result<
    ValueModel,
    ErrorModel,
>
    decreases shape, elems, 2int,
{
    match shape {
        Shape::Any => match sp_elems(tag.element_tag(), elems, Shape::Any) {
            Ok(vs) => Ok(ValueModel::Array(vs)),
            Err(e) => Err(e),
        },
        Shape::Sequence(es) => match sp_elems(tag.element_tag(), elems, *es) {
            Ok(vs) => Ok(ValueModel::Array(vs)),
            Err(e) => Err(e),
        },
        Shape::Tuple(shapes) => if shapes@.len() == elems.len() {
            match sp_elems_tuple(tag.element_tag(), shapes@, elems) {
                Ok(vs) => Ok(ValueModel::Array(vs)),
                Err(e) => Err(e),
            }
        } else {
            Err(
                ErrorModel::TypeMismatch(
                    MismatchModel::ColumnCount { expected: shapes@.len(), found: elems.len() },
                ),
            )
        },
        _ => Err(ErrorModel::TypeMismatch(MismatchModel::WrongType)),
    }
}

fn e_elem(etag: &TypeTag, p: &Prim, shape: &Shape) -> (r: Result<Value, DecodeError>)
    ensures
        match (r, sp_elem(*etag, *p, *shape)) {
            (Result::Ok(v), Result::Ok(m)) => v.model() == m,
            (Result::Err(a), Result::Err(b)) => a.model() == b,
            _ => false,
        },
    decreases *shape, *p, 0int,
{
    match shape {
        Shape::Optional(inner) => e_elem(etag, p, &**inner),
        Shape::NewtypeStruct(inner) => e_elem(etag, p, &**inner),
        _ => {
            if etag.exec_is_document() {
                match p {
                    Prim::Bytes(bs) => {
                        let binary: bool = match etag {
                            TypeTag::Jsonb => true,
                            _ => false,
                        };
                        match parse_document(bs, binary) {
                            Ok(doc) => e_doc(&doc, shape),
                            Err(e) => Err(e),
                        }
                    },
                    _ => Err(
                        DecodeError::Driver {
                            target: String::from_str("json"),
                            tag: etag.name(),
                        },
                    ),
                }
            } else {
                match decode_raw_pg(etag, p) {
                    Ok(base) => e_coerce(base, shape),
                    Err(e) => Err(e),
                }
            }
        },
    }
}

fn e_elems(etag: &TypeTag, elems: &Vec<Option<Prim>>, shape: &Shape) -> (r: Result<
    Vec<Value>,
    DecodeError,
>)
    ensures
        match (r, sp_elems(*etag, elems@, *shape)) {
            (Result::Ok(vs), Result::Ok(m)) => value_list_model(vs@) == m,
            (Result::Err(a), Result::Err(b)) => a.model() == b,
            _ => false,
        },
    decreases *shape, *elems, 1int,
{
    let mut out: Vec<Value> = Vec::new();
    let mut idx: usize = 0;
    proof {
        assert(elems@.subrange(0, elems@.len() as int) =~= elems@);
        assert(value_list_model(out@) =~= Seq::<ValueModel>::empty());
    }
    while idx < elems.len()
        invariant
            idx <= elems@.len(),
            match sp_elems(*etag, elems@.subrange(idx as int, elems@.len() as int), *shape) {
                Ok(rest) => sp_elems(*etag, elems@, *shape) == Ok::<_, ErrorModel>(
                    value_list_model(out@) + rest,
                ),
                Err(e) => sp_elems(*etag, elems@, *shape) == Err::<Seq<ValueModel>, _>(e),
            },
        decreases elems@.len() - idx,
    {
        let ghost pre = elems@.subrange(idx as int, elems@.len() as int);
        proof {
            assert(pre[0] == elems@[idx as int]);
            assert(pre.subrange(1, pre.len() as int) =~= elems@.subrange(
                idx + 1,
                elems@.len() as int,
            ));
        }
        let head: Value = match &elems[idx] {
            Option::None => {
                let tolerant: bool = match shape {
                    Shape::Optional(_) => true,
                    _ => false,
                };
                if tolerant {
                    Value::Null
                } else {
                    return Err(DecodeError::TypeMismatch(Mismatch::NullInArray));
                }
            },
            Option::Some(p) => match e_elem(etag, p, shape) {
                Ok(v) => v,
                Err(e) => {
                    return Err(e);
                },
            },
        };
        proof {
            crate::value::lemma_value_list_model_push(out@, head);
        }
        out.push(head);
        proof {
            match sp_elems(*etag, elems@.subrange(idx + 1, elems@.len() as int), *shape) {
                Ok(rest2) => match sp_elems(*etag, elems@, *shape) {
                    Ok(whole) => {
                        assert(value_list_model(out@) + rest2 =~= whole);
                    },
                    Err(_) => {},
                },
                Err(_) => {},
            }
        }
        idx = idx + 1;
    }
    proof {
        assert(elems@.subrange(elems@.len() as int, elems@.len() as int) =~= Seq::<
            Option<Prim>,
        >::empty());
        assert(value_list_model(out@) + Seq::<ValueModel>::empty() =~= value_list_model(out@));
    }
    Ok(out)
}

fn e_elems_tuple(etag: &TypeTag, shapes: &Vec<Shape>, elems: &Vec<Option<Prim>>) -> (r: Result<
    Vec<Value>,
    DecodeError,
>)
    requires
        shapes@.len() == elems@.len(),
    ensures
        match (r, sp_elems_tuple(*etag, shapes@, elems@)) {
            (Result::Ok(vs), Result::Ok(m)) => value_list_model(vs@) == m,
            (Result::Err(a), Result::Err(b)) => a.model() == b,
            _ => false,
        },
    decreases *shapes, *elems, 1int,
{
    let mut out: Vec<Value> = Vec::new();
    let mut idx: usize = 0;
    proof {
        assert(shapes@.subrange(0, shapes@.len() as int) =~= shapes@);
        assert(elems@.subrange(0, elems@.len() as int) =~= elems@);
        assert(value_list_model(out@) =~= Seq::<ValueModel>::empty());
    }
    while idx < shapes.len()
        invariant
            idx <= shapes@.len() == elems@.len(),
            match sp_elems_tuple(
                *etag,
                shapes@.subrange(idx as int, shapes@.len() as int),
                elems@.subrange(idx as int, elems@.len() as int),
            ) {
                Ok(rest) => sp_elems_tuple(*etag, shapes@, elems@) == Ok::<_, ErrorModel>(
                    value_list_model(out@) + rest,
                ),
                Err(e) => sp_elems_tuple(*etag, shapes@, elems@) == Err::<Seq<ValueModel>, _>(e),
            },
        decreases shapes@.len() - idx,
    {
        let ghost ps = shapes@.subrange(idx as int, shapes@.len() as int);
        let ghost pe = elems@.subrange(idx as int, elems@.len() as int);
        proof {
            assert(ps[0] == shapes@[idx as int]);
            assert(pe[0] == elems@[idx as int]);
            assert(ps.subrange(1, ps.len() as int) =~= shapes@.subrange(
                idx + 1,
                shapes@.len() as int,
            ));
            assert(pe.subrange(1, pe.len() as int) =~= elems@.subrange(
                idx + 1,
                elems@.len() as int,
            ));
        }
        let head: Value = match &elems[idx] {
            Option::None => {
                let tolerant: bool = match &shapes[idx] {
                    Shape::Optional(_) => true,
                    _ => false,
                };
                if tolerant {
                    Value::Null
                } else {
                    return Err(DecodeError::TypeMismatch(Mismatch::NullInArray));
                }
            },
            Option::Some(p) => match e_elem(etag, p, &shapes[idx]) {
                Ok(v) => v,
                Err(e) => {
                    return Err(e);
                },
            },
        };
        proof {
            crate::value::lemma_value_list_model_push(out@, head);
        }
        out.push(head);
        proof {
            match sp_elems_tuple(
                *etag,
                shapes@.subrange(idx + 1, shapes@.len() as int),
                elems@.subrange(idx + 1, elems@.len() as int),
            ) {
                Ok(rest2) => match sp_elems_tuple(*etag, shapes@, elems@) {
                    Ok(whole) => {
                        assert(value_list_model(out@) + rest2 =~= whole);
                    },
                    Err(_) => {},
                },
                Err(_) => {},
            }
        }
        idx = idx + 1;
    }
    proof {
        assert(shapes@.subrange(shapes@.len() as int, shapes@.len() as int)
            =~= Seq::<Shape>::empty());
        assert(value_list_model(out@) + Seq::<ValueModel>::empty() =~= value_list_model(out@));
    }
    Ok(out)
}

/// Decode a whole array column at a shape.
pub fn e_array(tag: &TypeTag, elems: &Vec<Option<Prim>>, shape: &Shape) -> (r: Result<
    Value,
    DecodeError,
>)
    ensures
        match (r, sp_array(*tag, elems@, *shape)) {
            (Result::Ok(v), Result::Ok(m)) => v.model() == m,
            (Result::Err(a), Result::Err(b)) => a.model() == b,
            _ => false,
        },
    decreases *shape, *elems, 2int,
{
    match shape {
        Shape::Any => {
            let etag = tag.exec_element_tag();
            match e_elems(&etag, elems, &Shape::Any) {
                Ok(vs) => Ok(Value::Array(vs)),
                Err(e) => Err(e),
            }
        },
        Shape::Sequence(es) => {
            let etag = tag.exec_element_tag();
            match e_elems(&etag, elems, &**es) {
                Ok(vs) => Ok(Value::Array(vs)),
                Err(e) => Err(e),
            }
        },
        Shape::Tuple(shapes) => if shapes.len() == elems.len() {
            let etag = tag.exec_element_tag();
            match e_elems_tuple(&etag, shapes, elems) {
                Ok(vs) => Ok(Value::Array(vs)),
                Err(e) => Err(e),
            }
        } else {
            Err(
                DecodeError::TypeMismatch(
                    Mismatch::ColumnCount { expected: shapes.len(), found: elems.len() },
                ),
            )
        },
        _ => Err(DecodeError::TypeMismatch(Mismatch::WrongType)),
    }
}

/// The row read as a positional sequence: each column in declaration
/// order decodes at the element shape; the names are discarded.
pub open spec fn sp_row_seq(cols: Seq<PgColumn>, elem: Shape) -> Result<Seq<ValueModel>, ErrorModel>
    decreases cols,
{
    if cols.len() == 0 {
        Ok(Seq::empty())
    } else {
        match crate::map_access::sp_col_value(cols[0], elem) {
            Err(e) => Err(e),
            Ok(v) => match sp_row_seq(cols.subrange(1, cols.len() as int), elem) {
                Ok(vs) => Ok(seq![v] + vs),
                Err(e) => Err(e),
            },
        }
    }
}

/// The row's columns decoded positionally against a fixed arity of shapes.
pub open spec fn sp_row_tuple(shapes: Seq<Shape>, cols: Seq<PgColumn>) -> Result<
    Seq<ValueModel>,
    ErrorModel,
>
    decreases shapes,
{
    if shapes.len() == 0 {
        Ok(Seq::empty())
    } else {
        match crate::map_access::sp_col_value(cols[0], shapes[0]) {
            Err(e) => Err(e),
            Ok(v) => match sp_row_tuple(
                shapes.subrange(1, shapes.len() as int),
                cols.subrange(1, cols.len() as int),
            ) {
                Ok(vs) => Ok(seq![v] + vs),
                Err(e) => Err(e),
            },
        }
    }
}

/// The row's columns as a positional source of values.
pub struct PgRowSeqAccess<'a> {
    pub row: &'a PgRow,
    pub index: usize,
    pub num_cols: usize,
}

impl<'a> PgRowSeqAccess<'a> {
    pub open spec fn wf(&self) -> bool {
        self.index <= self.num_cols == self.row.columns@.len()
    }

    /// Yield the next column decoded at the given shape, or nothing when
    /// the columns are exhausted.
    pub fn next_element_seed(&mut self, shape: &Shape) -> (r: Result<Option<Value>, DecodeError>)
        requires
            old(self).wf(),
        ensures
            final(self).wf(),
            final(self).row == old(self).row,
            final(self).num_cols == old(self).num_cols,
            match r {
                Result::Ok(Option::None) => old(self).index == old(self).num_cols
                    && final(self).index == old(self).index,
                Result::Ok(Option::Some(v)) => {
                    &&& old(self).index < old(self).num_cols
                    &&& final(self).index == old(self).index + 1
                    &&& match crate::map_access::sp_col_value(
                        old(self).row.columns@[old(self).index as int],
                        *shape,
                    ) {
                        Ok(m) => v.model() == m,
                        Err(_) => false,
                    }
                },
                Result::Err(e) => {
                    &&& old(self).index < old(self).num_cols
                    &&& match crate::map_access::sp_col_value(
                        old(self).row.columns@[old(self).index as int],
                        *shape,
                    ) {
                        Ok(_) => false,
                        Err(m) => e.model() == m,
                    }
                },
            },
    {
        if self.index >= self.num_cols {
            return Ok(None);
        }
        let r = crate::map_access::e_col_value(&self.row.columns[self.index], shape);
        match r {
            Ok(v) => {
                self.index = self.index + 1;
                Ok(Some(v))
            },
            Err(e) => Err(e),
        }
    }
}

/// Decode the whole row as a positional sequence of one element shape.
pub(crate) fn e_row_seq(row: &PgRow, elem: &Shape) -> (r: Result<Vec<Value>, DecodeError>)
    ensures
        match (r, sp_row_seq(row.columns@, *elem)) {
            (Result::Ok(vs), Result::Ok(m)) => value_list_model(vs@) == m,
            (Result::Err(a), Result::Err(b)) => a.model() == b,
            _ => false,
        },
{
    let num_cols = row.columns.len();
    let mut acc = PgRowSeqAccess { row, index: 0, num_cols };
    let mut out: Vec<Value> = Vec::new();
    proof {
        assert(row.columns@.subrange(0, row.columns@.len() as int) =~= row.columns@);
        assert(value_list_model(out@) =~= Seq::<ValueModel>::empty());
    }
    loop
        invariant
            acc.wf(),
            acc.row == row,
            acc.num_cols == row.columns@.len(),
            match sp_row_seq(
                row.columns@.subrange(acc.index as int, row.columns@.len() as int),
                *elem,
            ) {
                Ok(rest) => sp_row_seq(row.columns@, *elem) == Ok::<_, ErrorModel>(
                    value_list_model(out@) + rest,
                ),
                Err(e) => sp_row_seq(row.columns@, *elem) == Err::<Seq<ValueModel>, _>(e),
            },
        ensures
            acc.index == row.columns@.len(),
            match sp_row_seq(
                row.columns@.subrange(acc.index as int, row.columns@.len() as int),
                *elem,
            ) {
                Ok(rest) => sp_row_seq(row.columns@, *elem) == Ok::<_, ErrorModel>(
                    value_list_model(out@) + rest,
                ),
                Err(e) => sp_row_seq(row.columns@, *elem) == Err::<Seq<ValueModel>, _>(e),
            },
        decreases row.columns@.len() - acc.index,
    {
        let ghost pre = row.columns@.subrange(acc.index as int, row.columns@.len() as int);
        proof {
            assert(pre.len() > 0 ==> pre[0] == row.columns@[acc.index as int]);
            assert(pre.len() > 0 ==> pre.subrange(1, pre.len() as int) =~= row.columns@.subrange(
                acc.index + 1,
                row.columns@.len() as int,
            ));
        }
        match acc.next_element_seed(elem) {
            Err(e) => {
                return Err(e);
            },
            Ok(Option::None) => {
                break ;
            },
            Ok(Option::Some(v)) => {
                proof {
                    crate::value::lemma_value_list_model_push(out@, v);
                }
                out.push(v);
            },
        }
        proof {
            match sp_row_seq(
                row.columns@.subrange(acc.index as int, row.columns@.len() as int),
                *elem,
            ) {
                Ok(rest2) => match sp_row_seq(row.columns@, *elem) {
                    Ok(whole) => {
                        assert(value_list_model(out@) + rest2 =~= whole);
                    },
                    Err(_) => {},
                },
                Err(_) => {},
            }
        }
    }
    proof {
        assert(row.columns@.subrange(row.columns@.len() as int, row.columns@.len() as int) =~= Seq::<
            PgColumn,
        >::empty());
        assert(value_list_model(out@) + Seq::<ValueModel>::empty() =~= value_list_model(out@));
    }
    Ok(out)
}

/// Decode the whole row positionally against a fixed arity of shapes.
pub(crate) fn e_row_tuple(shapes: &Vec<Shape>, row: &PgRow) -> (r: Result<Vec<Value>, DecodeError>)
    requires
        shapes@.len() == row.columns@.len(),
    ensures
        match (r, sp_row_tuple(shapes@, row.columns@)) {
            (Result::Ok(vs), Result::Ok(m)) => value_list_model(vs@) == m,
            (Result::Err(a), Result::Err(b)) => a.model() == b,
            _ => false,
        },
{
    let mut out: Vec<Value> = Vec::new();
    let mut idx: usize = 0;
    proof {
        assert(shapes@.subrange(0, shapes@.len() as int) =~= shapes@);
        assert(row.columns@.subrange(0, row.columns@.len() as int) =~= row.columns@);
        assert(value_list_model(out@) =~= Seq::<ValueModel>::empty());
    }
    while idx < shapes.len()
        invariant
            idx <= shapes@.len() == row.columns@.len(),
            match sp_row_tuple(
                shapes@.subrange(idx as int, shapes@.len() as int),
                row.columns@.subrange(idx as int, row.columns@.len() as int),
            ) {
                Ok(rest) => sp_row_tuple(shapes@, row.columns@) == Ok::<_, ErrorModel>(
                    value_list_model(out@) + rest,
                ),
                Err(e) => sp_row_tuple(shapes@, row.columns@) == Err::<Seq<ValueModel>, _>(e),
            },
        decreases shapes@.len() - idx,
    {
        let ghost ps = shapes@.subrange(idx as int, shapes@.len() as int);
        let ghost pc = row.columns@.subrange(idx as int, row.columns@.len() as int);
        proof {
            assert(ps[0] == shapes@[idx as int]);
            assert(pc[0] == row.columns@[idx as int]);
            assert(ps.subrange(1, ps.len() as int) =~= shapes@.subrange(
                idx + 1,
                shapes@.len() as int,
            ));
            assert(pc.subrange(1, pc.len() as int) =~= row.columns@.subrange(
                idx + 1,
                row.columns@.len() as int,
            ));
        }
        match crate::map_access::e_col_value(&row.columns[idx], &shapes[idx]) {
            Err(e) => {
                return Err(e);
            },
            Ok(v) => {
                proof {
                    crate::value::lemma_value_list_model_push(out@, v);
                }
                out.push(v);
            },
        }
        proof {
            match sp_row_tuple(
                shapes@.subrange(idx + 1, shapes@.len() as int),
                row.columns@.subrange(idx + 1, row.columns@.len() as int),
            ) {
                Ok(rest2) => match sp_row_tuple(shapes@, row.columns@) {
                    Ok(whole) => {
                        assert(value_list_model(out@) + rest2 =~= whole);
                    },
                    Err(_) => {},
                },
                Err(_) => {},
            }
        }
        idx = idx + 1;
    }
    proof {
        assert(shapes@.subrange(shapes@.len() as int, shapes@.len() as int)
            =~= Seq::<Shape>::empty());
        assert(value_list_model(out@) + Seq::<ValueModel>::empty() =~= value_list_model(out@));
    }
    Ok(out)
}

/// The array codec: it decodes a raw array column into an owned sequence
/// of possibly-null elements and then yields each element at a requested
/// shape.  An absent element succeeds only where the shape tolerates
/// absence.
pub struct PgArraySeqAccess {
    /// The element tag of the array.
    pub etag: TypeTag,
    /// The decoded elements; an absent one was a database null.
    pub elems: Vec<Option<Prim>>,
    /// How many elements have been yielded so far.
    pub index: usize,
}

impl PgArraySeqAccess {
    pub open spec fn wf(&self) -> bool {
        self.index <= self.elems@.len()
    }

    /// Take an array column's tag and decoded elements; the cursor starts
    /// at the first element.
    pub fn new(tag: &TypeTag, elems: Vec<Option<Prim>>) -> (r: PgArraySeqAccess)
        requires
            tag.is_array(),
        ensures
            r.wf(),
            r.etag == tag.element_tag(),
            r.elems@ == elems@,
            r.index == 0,
    {
        PgArraySeqAccess { etag: tag.exec_element_tag(), elems, index: 0 }
    }

    /// Yield the next element decoded at the given shape, or nothing when
    /// the array is exhausted.
    pub fn next_element_seed(&mut self, shape: &Shape) -> (r: Result<Option<Value>, DecodeError>)
        requires
            old(self).wf(),
        ensures
            final(self).wf(),
            final(self).etag == old(self).etag,
            final(self).elems@ == old(self).elems@,
            match r {
                Result::Ok(Option::None) => old(self).index == old(self).elems@.len()
                    && final(self).index == old(self).index,
                Result::Ok(Option::Some(v)) => {
                    &&& old(self).index < old(self).elems@.len()
                    &&& final(self).index == old(self).index + 1
                    &&& match sp_elems(
                        old(self).etag,
                        old(self).elems@.subrange(
                            old(self).index as int,
                            old(self).index + 1,
                        ),
                        *shape,
                    ) {
                        Ok(m) => value_list_model(seq![v]) == m,
                        Err(_) => false,
                    }
                },
                Result::Err(e) => {
                    &&& old(self).index < old(self).elems@.len()
                    &&& match sp_elems(
                        old(self).etag,
                        old(self).elems@.subrange(
                            old(self).index as int,
                            old(self).index + 1,
                        ),
                        *shape,
                    ) {
                        Ok(_) => false,
                        Err(m) => e.model() == m,
                    }
                },
            },
    {
        if self.index >= self.elems.len() {
            return Ok(None);
        }
        let ghost one = self.elems@.subrange(self.index as int, self.index + 1);
        proof {
            assert(one[0] == self.elems@[self.index as int]);
            assert(one.subrange(1, 1) =~= Seq::<Option<Prim>>::empty());
        }
        let head: Value = match &self.elems[self.index] {
            Option::None => {
                let tolerant: bool = match shape {
                    Shape::Optional(_) => true,
                    _ => false,
                };
                if tolerant {
                    Value::Null
                } else {
                    return Err(DecodeError::TypeMismatch(Mismatch::NullInArray));
                }
            },
            Option::Some(p) => match e_elem(&self.etag, p, shape) {
                Ok(v) => v,
                Err(e) => {
                    return Err(e);
                },
            },
        };
        self.index = self.index + 1;
        proof {
            crate::value::lemma_value_list_model(seq![head]);
            assert(sp_elems(self.etag, one.subrange(1, 1), *shape) == Ok::<
                Seq<ValueModel>,
                ErrorModel,
            >(Seq::empty()));
            assert(value_list_model(seq![head]) =~= seq![head.model()]);
            assert(seq![head.model()] + Seq::<ValueModel>::empty() =~= seq![head.model()]);
        }
        Ok(Some(head))
    }
}

} // verus!
