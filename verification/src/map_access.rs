use vstd::prelude::*;
use crate::data::{PgColumn, PgRow};
use crate::deserializers::{e_column, sp_column};
use crate::error::{DecodeError, ErrorModel, Mismatch, MismatchModel};
use crate::json::{e_doc, e_has_flatten, sp_doc};
use crate::shape::{claims_name, has_flatten, Field, Shape};
use crate::value::{value_entries_model, DocModel, DocValue, Value, ValueModel};

verus! {

broadcast use vstd::std_specs::vec::group_vec_axioms, vstd::seq::group_seq_axioms;

/// Decode one column's value at a shape: an access failure is surfaced
/// verbatim, anything else goes through the single-column dispatch.
pub open spec fn sp_col_value(col: PgColumn, shape: Shape) -> Result<ValueModel, ErrorModel> {
    match col.value {
        Err(m) => Err(ErrorModel::Access(m@)),
        Ok(raw) => sp_column(raw, shape),
    }
}

/// The row read as a mapping: each column in declaration order becomes a
/// key-value entry; duplicate names are both kept.
pub open spec fn sp_row_map(cols: Seq<PgColumn>, v: Shape) -> Result<
    Seq<(Seq<char>, ValueModel)>,
    ErrorModel,
>
    decreases cols,
{
    if cols.len() == 0 {
        Ok(Seq::empty())
    } else {
        match sp_col_value(cols[0], v) {
            Err(e) => Err(e),
            Ok(val) => match sp_row_map(cols.subrange(1, cols.len() as int), v) {
                Ok(es) => Ok(seq![(cols[0].name@, val)] + es),
                Err(e) => Err(e),
            },
        }
    }
}

/// How many columns carry the name `k`.
pub open spec fn count_col(cols: Seq<PgColumn>, k: Seq<char>) -> nat
    decreases cols,
{
    if cols.len() == 0 {
        0
    } else {
        (if cols[0].name@ == k {
            1nat
        } else {
            0nat
        }) + count_col(cols.subrange(1, cols.len() as int), k)
    }
}

/// The first column that carries the name `k`.
pub open spec fn first_col(cols: Seq<PgColumn>, k: Seq<char>) -> PgColumn
    decreases cols,
{
    if cols.len() == 0 {
        cols[0]
    } else if cols[0].name@ == k {
        cols[0]
    } else {
        first_col(cols.subrange(1, cols.len() as int), k)
    }
}

/// The first column name that no field of a record claims, if any.
pub open spec fn first_unclaimed_col(fields: Seq<Field>, cols: Seq<PgColumn>) -> Option<Seq<char>>
    decreases cols,
{
    if cols.len() == 0 {
        None
    } else if !claims_name(fields, cols[0].name@) {
        Some(cols[0].name@)
    } else {
        first_unclaimed_col(fields, cols.subrange(1, cols.len() as int))
    }
}

/// Decode a record from the row's columns.  Without flattened fields every
/// column name must be a field name; with them, unclaimed columns go to a
/// flattened mapping, or are dropped.
pub open spec fn sp_row_record(fields: Seq<Field>, cols: Seq<PgColumn>) -> Result<
    ValueModel,
    ErrorModel,
>
    decreases fields, cols, 2int,
{
    if !has_flatten(fields) {
        match first_unclaimed_col(fields, cols) {
            Some(k) => Err(ErrorModel::TypeMismatch(MismatchModel::UnknownField(k))),
            None => match sp_row_fields(fields, fields, cols) {
                Ok(es) => Ok(ValueModel::Object(es)),
                Err(e) => Err(e),
            },
        }
    } else {
        match sp_row_fields(fields, fields, cols) {
            Ok(es) => Ok(ValueModel::Object(es)),
            Err(e) => Err(e),
        }
    }
}

/// Build each record field from the columns, in declaration order.
pub open spec fn sp_row_fields(all: Seq<Field>, rem: Seq<Field>, cols: Seq<PgColumn>) -> Result<
    Seq<(Seq<char>, ValueModel)>,
    ErrorModel,
>
    decreases rem, cols, 1int,
{
    if rem.len() == 0 {
        Ok(Seq::empty())
    } else {
        let f = rem[0];
        let head: Result<ValueModel, ErrorModel> = if !f.flatten {
            if count_col(cols, f.name@) == 0 {
                Err(ErrorModel::TypeMismatch(MismatchModel::MissingField(f.name@)))
            } else if count_col(cols, f.name@) > 1 {
                Err(ErrorModel::TypeMismatch(MismatchModel::DuplicateField(f.name@)))
            } else {
                sp_col_value(first_col(cols, f.name@), f.shape)
            }
        } else {
            match f.shape {
                Shape::Record(sub) => match sp_row_fields(sub@, sub@, cols) {
                    Ok(es) => Ok(ValueModel::Object(es)),
                    Err(e) => Err(e),
                },
                Shape::Mapping(v) => match sp_row_rest(all, cols, *v) {
                    Ok(es) => Ok(ValueModel::Object(es)),
                    Err(e) => Err(e),
                },
                _ => Err(ErrorModel::TypeMismatch(MismatchModel::WrongType)),
            }
        };
        match head {
            Err(e) => Err(e),
            Ok(v) => match sp_row_fields(all, rem.subrange(1, rem.len() as int), cols) {
                Ok(es) => Ok(seq![(f.name@, v)] + es),
                Err(e) => Err(e),
            },
        }
    }
}

/// The columns no field of the record claims, each decoded at the
/// flattened mapping's value shape.
pub open spec fn sp_row_rest(all: Seq<Field>, cols: Seq<PgColumn>, v: Shape) -> Result<
    Seq<(Seq<char>, ValueModel)>,
    ErrorModel,
>
    decreases v, cols, 1int,
{
    if cols.len() == 0 {
        Ok(Seq::empty())
    } else {
        let rest = sp_row_rest(all, cols.subrange(1, cols.len() as int), v);
        if claims_name(all, cols[0].name@) {
            rest
        } else {
            match sp_col_value(cols[0], v) {
                Ok(val) => match rest {
                    Ok(es) => Ok(seq![(cols[0].name@, val)] + es),
                    Err(e) => Err(e),
                },
                Err(e) => Err(e),
            }
        }
    }
}

/// Decode one column's value at a shape.
pub(crate) fn e_col_value(col: &PgColumn, shape: &Shape) -> (r: Result<Value, DecodeError>)
    ensures
        match (r, sp_col_value(*col, *shape)) {
            (Result::Ok(v), Result::Ok(m)) => v.model() == m,
            (Result::Err(a), Result::Err(b)) => a.model() == b,
            _ => false,
        },
{
    match &col.value {
        Err(m) => Err(DecodeError::Access(m.clone())),
        Ok(raw) => e_column(raw, shape),
    }
}

/// How many columns carry the name, and the first that does.
pub(crate) fn e_find_col<'a>(cols: &'a Vec<PgColumn>, k: &String) -> (r: (
    usize,
    Option<&'a PgColumn>,
))
    ensures
        r.0 == count_col(cols@, k@),
        match r.1 {
            Option::Some(c) => r.0 >= 1 && *c == first_col(cols@, k@),
            Option::None => r.0 == 0,
        },
{
    let mut idx: usize = 0;
    let mut cnt: usize = 0;
    let mut found: Option<&'a PgColumn> = None;
    proof {
        assert(cols@.subrange(0, cols@.len() as int) =~= cols@);
    }
    while idx < cols.len()
        invariant
            idx <= cols@.len(),
            cnt <= idx,
            count_col(cols@, k@) == cnt + count_col(
                cols@.subrange(idx as int, cols@.len() as int),
                k@,
            ),
            match found {
                Option::Some(c) => cnt >= 1 && *c == first_col(cols@, k@),
                Option::None => cnt == 0 && first_col(cols@, k@) == first_col(
                    cols@.subrange(idx as int, cols@.len() as int),
                    k@,
                ),
            },
        decreases cols@.len() - idx,
    {
        let ghost pre = cols@.subrange(idx as int, cols@.len() as int);
        proof {
            assert(pre[0] == cols@[idx as int]);
            assert(pre.subrange(1, pre.len() as int) =~= cols@.subrange(
                idx + 1,
                cols@.len() as int,
            ));
        }
        if cols[idx].name == *k {
            cnt = cnt + 1;
            if cnt == 1 {
                found = Some(&cols[idx]);
            }
        }
        idx = idx + 1;
    }
    proof {
        assert(cols@.subrange(cols@.len() as int, cols@.len() as int) =~= Seq::<PgColumn>::empty());
    }
    (cnt, found)
}

pub(crate) fn e_first_unclaimed_col(fields: &Vec<Field>, cols: &Vec<PgColumn>) -> (r: Option<
    String,
>)
    ensures
        match (r, first_unclaimed_col(fields@, cols@)) {
            (Option::Some(k), Option::Some(m)) => k@ == m,
            (Option::None, Option::None) => true,
            _ => false,
        },
{
    let mut idx: usize = 0;
    proof {
        assert(cols@.subrange(0, cols@.len() as int) =~= cols@);
    }
    while idx < cols.len()
        invariant
            idx <= cols@.len(),
            first_unclaimed_col(fields@, cols@) == first_unclaimed_col(
                fields@,
                cols@.subrange(idx as int, cols@.len() as int),
            ),
        decreases cols@.len() - idx,
    {
        let ghost pre = cols@.subrange(idx as int, cols@.len() as int);
        proof {
            assert(pre[0] == cols@[idx as int]);
            assert(pre.subrange(1, pre.len() as int) =~= cols@.subrange(
                idx + 1,
                cols@.len() as int,
            ));
        }
        if !crate::json::e_claims(fields, &cols[idx].name) {
            return Some(cols[idx].name.clone());
        }
        idx = idx + 1;
    }
    proof {
        assert(cols@.subrange(cols@.len() as int, cols@.len() as int) =~= Seq::<PgColumn>::empty());
    }
    None
}

/// The row's columns as a key-value source: keys are the column names in
/// declaration order, values decode per column.
pub struct PgRowMapAccess<'a> {
    pub row: &'a PgRow,
    pub index: usize,
    pub num_cols: usize,
}

impl<'a> PgRowMapAccess<'a> {
    pub open spec fn wf(&self) -> bool {
        self.index <= self.num_cols == self.row.columns@.len()
    }

    /// The next column's name, or nothing when the columns are exhausted.
    /// The cursor moves only when the value is taken.
    pub fn next_key_seed(&self) -> (r: Option<String>)
        requires
            self.wf(),
        ensures
            match r {
                Option::Some(k) => self.index < self.num_cols && k@
                    == self.row.columns@[self.index as int].name@,
                Option::None => self.index == self.num_cols,
            },
    {
        if self.index < self.num_cols {
            Some(self.row.columns[self.index].name.clone())
        } else {
            None
        }
    }

    /// The current column's value decoded at a shape; the cursor advances.
    pub fn next_value_seed(&mut self, shape: &Shape) -> (r: Result<Value, DecodeError>)
        requires
            old(self).wf(),
            old(self).index < old(self).num_cols,
        ensures
            final(self).wf(),
            final(self).row == old(self).row,
            final(self).num_cols == old(self).num_cols,
            final(self).index == old(self).index + 1,
            match (r, sp_col_value(old(self).row.columns@[old(self).index as int], *shape)) {
                (Result::Ok(v), Result::Ok(m)) => v.model() == m,
                (Result::Err(a), Result::Err(b)) => a.model() == b,
                _ => false,
            },
    {
        let r = e_col_value(&self.row.columns[self.index], shape);
        self.index = self.index + 1;
        r
    }
}

/// Decode the whole row as a mapping.
pub(crate) fn e_row_map(row: &PgRow, v: &Shape) -> (r: Result<Vec<(String, Value)>, DecodeError>)
    ensures
        match (r, sp_row_map(row.columns@, *v)) {
            (Result::Ok(es), Result::Ok(m)) => value_entries_model(es@) == m,
            (Result::Err(a), Result::Err(b)) => a.model() == b,
            _ => false,
        },
{
    let num_cols = row.columns.len();
    let mut acc = PgRowMapAccess { row, index: 0, num_cols };
    let mut out: Vec<(String, Value)> = Vec::new();
    proof {
        assert(row.columns@.subrange(0, row.columns@.len() as int) =~= row.columns@);
        assert(value_entries_model(out@) =~= Seq::<(Seq<char>, ValueModel)>::empty());
    }
    loop
        invariant
            acc.wf(),
            acc.row == row,
            acc.num_cols == row.columns@.len(),
            match sp_row_map(row.columns@.subrange(acc.index as int, row.columns@.len() as int), *v) {
                Ok(rest) => sp_row_map(row.columns@, *v) == Ok::<_, ErrorModel>(
                    value_entries_model(out@) + rest,
                ),
                Err(e) => sp_row_map(row.columns@, *v) == Err::<Seq<(Seq<char>, ValueModel)>, _>(e),
            },
        ensures
            acc.index == row.columns@.len(),
            match sp_row_map(
                row.columns@.subrange(acc.index as int, row.columns@.len() as int),
                *v,
            ) {
                Ok(rest) => sp_row_map(row.columns@, *v) == Ok::<_, ErrorModel>(
                    value_entries_model(out@) + rest,
                ),
                Err(e) => sp_row_map(row.columns@, *v) == Err::<Seq<(Seq<char>, ValueModel)>, _>(e),
            },
        decreases row.columns@.len() - acc.index,
    {
        let ghost pre = row.columns@.subrange(acc.index as int, row.columns@.len() as int);
        proof {
            assert(pre.len() > 0 ==> pre[0] == row.columns@[acc.index as int]);
            assert(pre.len() > 0 ==> pre.subrange(1, pre.len() as int) =~= row.columns@.subrange(
                acc.index + 1,
                row.columns@.len() as int,
            ));
        }
        let key = match acc.next_key_seed() {
            Some(k) => k,
            None => {
                break ;
            },
        };
        match acc.next_value_seed(v) {
            Err(e) => {
                return Err(e);
            },
            Ok(val) => {
                proof {
                    crate::value::lemma_value_entries_model_push(out@, key, val);
                }
                out.push((key, val));
            },
        }
        proof {
            match sp_row_map(
                row.columns@.subrange(acc.index as int, row.columns@.len() as int),
                *v,
            ) {
                Ok(rest2) => match sp_row_map(row.columns@, *v) {
                    Ok(whole) => {
                        assert(value_entries_model(out@) + rest2 =~= whole);
                    },
                    Err(_) => {},
                },
                Err(_) => {},
            }
        }
    }
    proof {
        assert(row.columns@.subrange(row.columns@.len() as int, row.columns@.len() as int)
            =~= Seq::<PgColumn>::empty());
        assert(value_entries_model(out@) + Seq::<(Seq<char>, ValueModel)>::empty()
            =~= value_entries_model(out@));
    }
    Ok(out)
}

/// Decode a record from the row's columns.
pub(crate) fn e_row_record(fields: &Vec<Field>, cols: &Vec<PgColumn>) -> (r: Result<
    Value,
    DecodeError,
>)
    ensures
        match (r, sp_row_record(fields@, cols@)) {
            (Result::Ok(v), Result::Ok(m)) => v.model() == m,
            (Result::Err(a), Result::Err(b)) => a.model() == b,
            _ => false,
        },
    decreases *fields, *cols, 2int,
{
    if !e_has_flatten(fields) {
        match e_first_unclaimed_col(fields, cols) {
            Some(k) => {
                return Err(DecodeError::TypeMismatch(Mismatch::UnknownField(k)));
            },
            None => {},
        }
    }
    match e_row_fields(fields, cols) {
        Ok(es) => Ok(Value::Object(es)),
        Err(e) => Err(e),
    }
}

fn e_row_fields(fields: &Vec<Field>, cols: &Vec<PgColumn>) -> (r: Result<
    Vec<(String, Value)>,
    DecodeError,
>)
    ensures
        match (r, sp_row_fields(fields@, fields@, cols@)) {
            (Result::Ok(es), Result::Ok(m)) => value_entries_model(es@) == m,
            (Result::Err(a), Result::Err(b)) => a.model() == b,
            _ => false,
        },
    decreases *fields, *cols, 1int,
{
    let mut out: Vec<(String, Value)> = Vec::new();
    let mut idx: usize = 0;
    proof {
        assert(fields@.subrange(0, fields@.len() as int) =~= fields@);
        assert(value_entries_model(out@) =~= Seq::<(Seq<char>, ValueModel)>::empty());
    }
    while idx < fields.len()
        invariant
            idx <= fields@.len(),
            match sp_row_fields(
                fields@,
                fields@.subrange(idx as int, fields@.len() as int),
                cols@,
            ) {
                Ok(rest) => sp_row_fields(fields@, fields@, cols@) == Ok::<_, ErrorModel>(
                    value_entries_model(out@) + rest,
                ),
                Err(e) => sp_row_fields(fields@, fields@, cols@) == Err::<
                    Seq<(Seq<char>, ValueModel)>,
                    _,
                >(e),
            },
        decreases fields@.len() - idx,
    {
        let ghost pre = fields@.subrange(idx as int, fields@.len() as int);
        proof {
            assert(pre[0] == fields@[idx as int]);
            assert(pre.subrange(1, pre.len() as int) =~= fields@.subrange(
                idx + 1,
                fields@.len() as int,
            ));
        }
        let f = &fields[idx];
        let head: Value = if !f.flatten {
            let (cnt, found) = e_find_col(cols, &f.name);
            if cnt == 0 {
                return Err(DecodeError::TypeMismatch(Mismatch::MissingField(f.name.clone())));
            } else if cnt > 1 {
                return Err(DecodeError::TypeMismatch(Mismatch::DuplicateField(f.name.clone())));
            } else {
                let c = match found {
                    Some(c) => c,
                    None => {
                        return Err(DecodeError::TypeMismatch(Mismatch::WrongType));
                    },
                };
                match e_col_value(c, &f.shape) {
                    Ok(v) => v,
                    Err(e) => {
                        return Err(e);
                    },
                }
            }
        } else {
            match &f.shape {
                Shape::Record(sub) => match e_row_fields(sub, cols) {
                    Ok(es) => Value::Object(es),
                    Err(e) => {
                        return Err(e);
                    },
                },
                Shape::Mapping(v) => match e_row_rest(fields, cols, &**v) {
                    Ok(es) => Value::Object(es),
                    Err(e) => {
                        return Err(e);
                    },
                },
                _ => {
                    return Err(DecodeError::TypeMismatch(Mismatch::WrongType));
                },
            }
        };
        let k = f.name.clone();
        proof {
            crate::value::lemma_value_entries_model_push(out@, k, head);
        }
        out.push((k, head));
        proof {
            match sp_row_fields(fields@, fields@.subrange(idx + 1, fields@.len() as int), cols@) {
                Ok(rest2) => match sp_row_fields(fields@, fields@, cols@) {
                    Ok(whole) => {
                        assert(value_entries_model(out@) + rest2 =~= whole);
                    },
                    Err(_) => {},
                },
                Err(_) => {},
            }
        }
        idx = idx + 1;
    }
    proof {
        assert(fields@.subrange(fields@.len() as int, fields@.len() as int)
            =~= Seq::<Field>::empty());
        assert(value_entries_model(out@) + Seq::<(Seq<char>, ValueModel)>::empty()
            =~= value_entries_model(out@));
    }
    Ok(out)
}

fn e_row_rest(all: &Vec<Field>, cols: &Vec<PgColumn>, v: &Shape) -> (r: Result<
    Vec<(String, Value)>,
    DecodeError,
>)
    ensures
        match (r, sp_row_rest(all@, cols@, *v)) {
            (Result::Ok(es), Result::Ok(m)) => value_entries_model(es@) == m,
            (Result::Err(a), Result::Err(b)) => a.model() == b,
            _ => false,
        },
    decreases *v, *cols, 1int,
{
    let mut out: Vec<(String, Value)> = Vec::new();
    let mut idx: usize = 0;
    proof {
        assert(cols@.subrange(0, cols@.len() as int) =~= cols@);
        assert(value_entries_model(out@) =~= Seq::<(Seq<char>, ValueModel)>::empty());
    }
    while idx < cols.len()
        invariant
            idx <= cols@.len(),
            match sp_row_rest(all@, cols@.subrange(idx as int, cols@.len() as int), *v) {
                Ok(rest) => sp_row_rest(all@, cols@, *v) == Ok::<_, ErrorModel>(
                    value_entries_model(out@) + rest,
                ),
                Err(e) => sp_row_rest(all@, cols@, *v) == Err::<Seq<(Seq<char>, ValueModel)>, _>(
                    e,
                ),
            },
        decreases cols@.len() - idx,
    {
        let ghost pre = cols@.subrange(idx as int, cols@.len() as int);
        proof {
            assert(pre[0] == cols@[idx as int]);
            assert(pre.subrange(1, pre.len() as int) =~= cols@.subrange(
                idx + 1,
                cols@.len() as int,
            ));
        }
        if !crate::json::e_claims(all, &cols[idx].name) {
            match e_col_value(&cols[idx], v) {
                Err(e) => {
                    return Err(e);
                },
                Ok(val) => {
                    let k = cols[idx].name.clone();
                    proof {
                        crate::value::lemma_value_entries_model_push(out@, k, val);
                    }
                    out.push((k, val));
                },
            }
        }
        proof {
            match sp_row_rest(all@, cols@.subrange(idx + 1, cols@.len() as int), *v) {
                Ok(rest2) => match sp_row_rest(all@, cols@, *v) {
                    Ok(whole) => {
                        assert(value_entries_model(out@) + rest2 =~= whole);
                    },
                    Err(_) => {},
                },
                Err(_) => {},
            }
        }
        idx = idx + 1;
    }
    proof {
        assert(cols@.subrange(cols@.len() as int, cols@.len() as int) =~= Seq::<PgColumn>::empty());
        assert(value_entries_model(out@) + Seq::<(Seq<char>, ValueModel)>::empty()
            =~= value_entries_model(out@));
    }
    Ok(out)
}

/// A key-value source over a parsed document object.  Taking one expects
/// an object; anything else is refused.
pub struct JsonValueMapAccess {
    /// The object's entries in document order.
    pub entries: Vec<(String, DocValue)>,
    /// How many entries have been yielded.
    pub index: usize,
}

impl JsonValueMapAccess {
    pub open spec fn wf(&self) -> bool {
        self.index <= self.entries@.len()
    }

    /// Take a parsed document; only an object can be walked as a mapping.
    pub fn new(json: DocValue) -> (r: Result<JsonValueMapAccess, DecodeError>)
        ensures
            match r {
                Result::Ok(a) => {
                    &&& a.wf()
                    &&& a.index == 0
                    &&& json matches DocValue::Entries(es) && a.entries@ == es@
                },
                Result::Err(e) => !(json is Entries) && e.model() == ErrorModel::TypeMismatch(
                    MismatchModel::NotAnObject,
                ),
            },
    {
        match json {
            DocValue::Entries(es) => Ok(JsonValueMapAccess { entries: es, index: 0 }),
            _ => Err(DecodeError::TypeMismatch(Mismatch::NotAnObject)),
        }
    }

    /// The next entry's key, or nothing when the object is exhausted.  The
    /// cursor moves only when the value is taken.
    pub fn next_key_seed(&self) -> (r: Option<String>)
        requires
            self.wf(),
        ensures
            match r {
                Option::Some(k) => self.index < self.entries@.len() && k@
                    == self.entries@[self.index as int].0@,
                Option::None => self.index == self.entries@.len(),
            },
    {
        if self.index < self.entries.len() {
            Some(self.entries[self.index].0.clone())
        } else {
            None
        }
    }

    /// The current entry's value decoded at a shape; the cursor advances.
    pub fn next_value_seed(&mut self, shape: &Shape) -> (r: Result<Value, DecodeError>)
        requires
            old(self).wf(),
            old(self).index < old(self).entries@.len(),
        ensures
            final(self).wf(),
            final(self).entries@ == old(self).entries@,
            final(self).index == old(self).index + 1,
            match (r, sp_doc(old(self).entries@[old(self).index as int].1.model(), *shape)) {
                (Result::Ok(v), Result::Ok(m)) => v.model() == m,
                (Result::Err(a), Result::Err(b)) => a.model() == b,
                _ => false,
            },
    {
        let n = self.entries.len();
        assert(self.index < n);
        let r = e_doc(&self.entries[self.index].1, shape);
        self.index = self.index + 1;
        r
    }
}

} // verus!
