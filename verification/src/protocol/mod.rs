use vstd::prelude::*;

pub mod byte_order;
pub mod decoded;
pub mod package;
pub mod reader;
pub mod round_trip;
pub mod types;
pub mod varnum;

verus! {

/// Why reading or writing a protocol value failed.
#[derive(Debug, Clone, Copy, PartialEq, Eq, Structural)]
pub enum ErrorKind {
    /// The input ended before the value was complete.
    UnexpectedEof,
    /// A variable-length number ran on past five bytes.
    VarIntTooLong,
    /// A length or size field was negative.
    NegativeLength,
    /// The bytes of a string were not valid UTF-8.
    InvalidUtf8,
}

/// An error of the protocol layer, with its cause.
#[derive(Debug, Clone, Copy, PartialEq, Eq, Structural)]
pub struct ProtocolError(pub ErrorKind);

/// Writing the values of the protocol to a destination.
pub trait WriteProtocol {}

impl WriteProtocol for crate::connection::Connection {}

} // verus!
