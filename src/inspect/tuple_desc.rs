//! Descriptions of a relation's tuples, as catalogued for decoding column values.
use vstd::prelude::*;

verus! {

/// Output function of an attribute's type.
#[derive(Clone, Copy, Debug, PartialEq, Eq, Structural)]
pub enum TypeOutput {
    Bool,
    Int2,
    Int4,
    Int8,
    Bpchar,
    Text,
    Varchar,
    Float4,
    Float8,
    Date,
    Time,
    Timestamptz,
    Timestamp,
    Timetz,
    Uuid,
    Jsonb,
}

#[derive(Clone, Debug)]
pub struct TupleDescriptor {
    pub relname: String,
    pub type_id: u32,
    pub type_mod: i32,
    pub attributes: Vec<Attribute>,
}

#[derive(Clone, Debug)]
pub struct Attribute {
    pub name: String,
    pub type_output: TypeOutput,
    pub by_val: bool,
    pub is_packable: bool,
    pub has_missing: bool,
    pub is_dropped: bool,
    pub is_primary: bool,
    pub align_by: u8,
}

} // verus!
