use vstd::prelude::*;

verus! {

/// A variable-length 32-bit number as read off the wire, with the index of
/// its last byte (one less than the number of bytes it took).
#[derive(Debug, Clone, Copy, PartialEq, Eq, Structural)]
pub struct VarInt {
    pub value: i32,
    pub length: u8,
}

/// A variable-length 64-bit number as read off the wire, with the index of
/// its last byte (one less than the number of bytes it took).
#[derive(Debug, Clone, Copy, PartialEq, Eq, Structural)]
pub struct VarLong {
    pub value: i64,
    pub length: u8,
}

impl VarInt {
    /// The number a decoding finished with: the value of its groups cut to
    /// the low 32 bits, in two's complement, and the index of its last byte.
    pub fn from_groups(sum: u64, last_index: u8) -> (r: VarInt)
        ensures
            r.value == sum as i32,
            r.length == last_index,
    {
        VarInt { value: sum as i32, length: last_index }
    }
}

impl VarLong {
    /// The number a decoding finished with: the value of its groups as a
    /// 64-bit number in two's complement, and the index of its last byte.
    pub fn from_groups(sum: u64, last_index: u8) -> (r: VarLong)
        ensures
            r.value == sum as i64,
            r.length == last_index,
    {
        VarLong { value: sum as i64, length: last_index }
    }
}

} // verus!
