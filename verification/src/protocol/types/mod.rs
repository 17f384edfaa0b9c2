use vstd::prelude::*;

pub mod serialize;

verus! {

/// A 32-bit integer, sent as a variable-length number.
#[derive(Debug, Clone, Copy, PartialEq, Eq, Structural)]
pub struct VarInt(pub i32);

/// A 64-bit integer, sent as a variable-length number.
#[derive(Debug, Clone, Copy, PartialEq, Eq, Structural)]
pub struct VarLong(pub i64);

/// A 128-bit UUID.
#[derive(Debug, Clone, Copy, PartialEq, Eq, Structural)]
pub struct UUID(pub u128);

/// A string prefixed by its size.
#[derive(Debug, Clone)]
pub struct MString {
    pub size: VarInt,
    pub value: String,
}

} // verus!
