use vstd::prelude::*;

pub mod data;
pub mod deserializers;
pub mod error;
pub mod fmt;
pub mod json;
pub mod jsontext;
pub mod laws;
pub mod map_access;
pub mod seq_access;
pub mod shape;
pub mod tag;
pub mod value;

use crate::data::PgRow;
use crate::deserializers::{sp_row, PgRowDeserializer};
use crate::error::DecodeError;
use crate::shape::Shape;
use crate::value::Value;

verus! {

/// Decode a row into a value of the requested shape.
pub fn from_pg_row(row: &PgRow, shape: &Shape) -> (r: Result<Value, DecodeError>)
    ensures
        match (r, sp_row(*row, *shape)) {
            (Result::Ok(v), Result::Ok(m)) => v.model() == m,
            (Result::Err(a), Result::Err(b)) => a.model() == b,
            _ => false,
        },
{
    let deserializer = PgRowDeserializer::new(row);
    deserializer.deserialize(shape)
}

} // verus!
