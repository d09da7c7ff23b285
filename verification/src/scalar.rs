//! The closed scalar variant used for every field value that crosses the
//! storage boundary, and its mapping onto SQL parameter shapes.

use vstd::prelude::*;

verus! {

#[verifier::external_type_specification]
#[verifier::external_body]
pub struct ExSqlValue(rusqlite::types::Value);

/// Relies on the driver value's `Clone`: the copy is the same value.
#[verifier::external_body]
fn clone_sql_value(v: &rusqlite::types::Value) -> (r: rusqlite::types::Value)
    ensures
        r == *v,
{
    v.clone()
}

/// A field value crossing the storage boundary: null, boolean, integer,
/// real, or text. The library's own logic never reads a real number; one is
/// carried through opaquely as the driver value that the boundary built, and
/// the storage layer binds it unchanged.
#[derive(Debug)]
pub enum Scalar {
    Null,
    Boolean(bool),
    Integer(i64),
    Real(rusqlite::types::Value),
    Text(String),
}

/// The shape of one bound SQL parameter. Booleans are already collapsed to
/// the 0/1 integers the store expects.
#[derive(Debug)]
pub enum SqlParam {
    Null,
    Integer(i64),
    Real(rusqlite::types::Value),
    Text(String),
}

impl Clone for Scalar {
    fn clone(&self) -> (res: Self)
        ensures
            res == *self,
    {
        match self {
            Scalar::Null => Scalar::Null,
            Scalar::Boolean(b) => Scalar::Boolean(*b),
            Scalar::Integer(i) => Scalar::Integer(*i),
            Scalar::Real(r) => Scalar::Real(clone_sql_value(r)),
            Scalar::Text(t) => Scalar::Text(t.clone()),
        }
    }
}

/// The scalar-to-parameter mapping: text maps to text, null to null, a
/// boolean to the 0/1 integer, an integer to an integer, a real to the real
/// it carries.
pub open spec fn param_of(s: Scalar) -> SqlParam {
    match s {
        Scalar::Null => SqlParam::Null,
        Scalar::Boolean(b) => SqlParam::Integer(
            if b {
                1
            } else {
                0
            },
        ),
        Scalar::Integer(i) => SqlParam::Integer(i),
        Scalar::Real(r) => SqlParam::Real(r),
        Scalar::Text(t) => SqlParam::Text(t),
    }
}

/// Converts one scalar into the parameter that will be bound for it.
pub fn to_sql_param(s: &Scalar) -> (r: SqlParam)
    ensures
        r == param_of(*s),
{
    match s {
        Scalar::Null => SqlParam::Null,
        Scalar::Boolean(b) => SqlParam::Integer(
            if *b {
                1
            } else {
                0
            },
        ),
        Scalar::Integer(i) => SqlParam::Integer(*i),
        Scalar::Real(r) => SqlParam::Real(clone_sql_value(r)),
        Scalar::Text(t) => SqlParam::Text(t.clone()),
    }
}

} // verus!
