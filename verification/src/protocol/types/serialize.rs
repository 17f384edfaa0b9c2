use vstd::prelude::*;

use crate::protocol::ProtocolError;
use crate::protocol::ErrorKind;
use crate::protocol::reader::{CONTINUE_BIT, SEGMENT_BITS};
use super::{MString, VarInt, VarLong};

verus! {

/// The bytes of a non-negative number as a variable-length number: seven bits
/// per byte, least significant group first, the top bit set on every byte but
/// the last.
pub open spec fn var_num_bytes(v: nat) -> Seq<u8>
    decreases v,
{
    if v < 128 {
        seq![v as u8]
    } else {
        seq![(v % 128 + 128) as u8] + var_num_bytes(v / 128)
    }
}

/// A value that can be turned into bytes for the wire.
pub trait Serialize {
    /// Whether `serialize` returns on this value at all.
    spec fn can_serialize(&self) -> bool;

    /// The bytes `serialize` produces, or the error it fails with.
    spec fn serialized(&self) -> Result<Seq<u8>, ProtocolError>;

    /// The bytes of the value, or the error that keeps it from the wire.
    fn serialize(&self) -> (r: Result<Vec<u8>, ProtocolError>)
        requires
            self.can_serialize(),
        ensures
            match r {
                Ok(bytes) => self.serialized() == Ok::<Seq<u8>, ProtocolError>(bytes@),
                Err(e) => self.serialized() == Err::<Seq<u8>, ProtocolError>(e),
            },
    ;
}

impl Serialize for VarInt {
    /// A negative value never leaves the loop: its arithmetic shift never reaches zero.
    open spec fn can_serialize(&self) -> bool {
        self.0 >= 0
    }

    open spec fn serialized(&self) -> Result<Seq<u8>, ProtocolError> {
        Ok(var_num_bytes(self.0 as nat))
    }

    fn serialize(&self) -> (r: Result<Vec<u8>, ProtocolError>) {
        let mut value: i32 = self.0;
        let mut buf: Vec<u8> = Vec::new();
        loop
            invariant
                value >= 0,
                buf@ + var_num_bytes(value as nat) == var_num_bytes(self.0 as nat),
            decreases value,
        {
            let byte: u8 = (value & SEGMENT_BITS as i32) as u8;
            assert(byte == value % 128 && ((value & !0x7Fi32) == 0) == (value < 128)
                && (byte | 0x80u8) == value % 128 + 128 && (value >> 7) == value / 128) by (bit_vector)
                requires value >= 0, byte == (value & 0x7F) as u8;
            if (value & !(SEGMENT_BITS as i32)) == 0 {
                buf.push(byte);
                assert(buf@ == var_num_bytes(self.0 as nat));
                return Ok(buf);
            }
            buf.push(byte | CONTINUE_BIT);
            value = value >> 7;
        }
    }
}

impl Serialize for VarLong {
    /// A negative value never leaves the loop: its arithmetic shift never reaches zero.
    open spec fn can_serialize(&self) -> bool {
        self.0 >= 0
    }

    open spec fn serialized(&self) -> Result<Seq<u8>, ProtocolError> {
        Ok(var_num_bytes(self.0 as nat))
    }

    fn serialize(&self) -> (r: Result<Vec<u8>, ProtocolError>) {
        let mut value: i64 = self.0;
        let mut buf: Vec<u8> = Vec::new();
        loop
            invariant
                value >= 0,
                buf@ + var_num_bytes(value as nat) == var_num_bytes(self.0 as nat),
            decreases value,
        {
            let byte: u8 = (value & SEGMENT_BITS as i64) as u8;
            assert(byte == value % 128 && ((value & !0x7Fi64) == 0) == (value < 128)
                && (byte | 0x80u8) == value % 128 + 128 && (value >> 7) == value / 128) by (bit_vector)
                requires value >= 0, byte == (value & 0x7F) as u8;
            if (value & !(SEGMENT_BITS as i64)) == 0 {
                buf.push(byte);
                assert(buf@ == var_num_bytes(self.0 as nat));
                return Ok(buf);
            }
            buf.push(byte | CONTINUE_BIT);
            value = value >> 7;
        }
    }
}

/// The eight bytes of `v` in two's complement, most significant first.
pub open spec fn i64_be_bytes(v: i64) -> Seq<u8> {
    let u = v as u64;
    seq![
        (u >> 56) as u8,
        (u >> 48) as u8,
        (u >> 40) as u8,
        (u >> 32) as u8,
        (u >> 24) as u8,
        (u >> 16) as u8,
        (u >> 8) as u8,
        u as u8,
    ]
}

impl Serialize for i64 {
    open spec fn can_serialize(&self) -> bool {
        true
    }

    open spec fn serialized(&self) -> Result<Seq<u8>, ProtocolError> {
        Ok(i64_be_bytes(*self))
    }

    fn serialize(&self) -> (r: Result<Vec<u8>, ProtocolError>) {
        let u: u64 = *self as u64;
        let mut buf: Vec<u8> = Vec::with_capacity(8);
        buf.push((u >> 56) as u8);
        buf.push((u >> 48) as u8);
        buf.push((u >> 40) as u8);
        buf.push((u >> 32) as u8);
        buf.push((u >> 24) as u8);
        buf.push((u >> 16) as u8);
        buf.push((u >> 8) as u8);
        buf.push(u as u8);
        assert(buf@ == i64_be_bytes(*self));
        Ok(buf)
    }
}

/// The bytes of a string on the wire: its size field, then its UTF-8 bytes.
/// The size field is sent as it stands; nothing checks it against the string.
/// A negative size field is refused.
pub open spec fn string_bytes(s: MString) -> Result<Seq<u8>, ProtocolError> {
    if s.size.0 < 0 {
        Err(ProtocolError(ErrorKind::NegativeLength))
    } else {
        Ok(var_num_bytes(s.size.0 as nat) + vstd::utf8::encode_utf8(s.value@))
    }
}

impl Serialize for MString {
    open spec fn can_serialize(&self) -> bool {
        true
    }

    open spec fn serialized(&self) -> Result<Seq<u8>, ProtocolError> {
        string_bytes(*self)
    }

    fn serialize(&self) -> (r: Result<Vec<u8>, ProtocolError>) {
        if self.size.0 < 0 {
            return Err(ProtocolError(ErrorKind::NegativeLength));
        }
        let size: usize = self.size.0 as usize;
        let mut buf: Vec<u8> = Vec::with_capacity(size + 4);
        let mut size_bytes = match self.size.serialize() {
            Ok(b) => b,
            Err(e) => return Err(e),
        };
        buf.append(&mut size_bytes);
        let mut self_bytes: Vec<u8> = self.value.as_str().as_bytes_vec();
        buf.append(&mut self_bytes);
        Ok(buf)
    }
}

} // verus!
