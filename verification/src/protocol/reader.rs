use vstd::prelude::*;
use vstd::utf8::{decode_utf8, valid_utf8};

use super::{ErrorKind, ProtocolError};
use super::decoded::{VarInt, VarLong};
use super::package::{body_len_outcome, package_body_len, Package};
use super::types::{MString, UUID};
use super::types::VarInt as SizeField;
use super::varnum::{
    final_byte_index, lemma_final_byte_index_skip, lemma_groups_value_push,
    lemma_var_num_consumed_bound, var_num_consumed, var_num_decode,
    DecodeStep, VarNumDecoder,
};

verus! {

/// The low seven bits of a byte of a variable-length number: its group.
pub const SEGMENT_BITS: u8 = 0x7F;

/// The top bit of a byte of a variable-length number: more bytes follow.
pub const CONTINUE_BIT: u8 = 0x80;

/// What reading a variable-length 32-bit number from `s` gives: the groups'
/// value cut to its low 32 bits, in two's complement.
pub open spec fn var_int_outcome(s: Seq<u8>) -> Result<VarInt, ProtocolError> {
    match var_num_decode(s) {
        Ok((sum, last)) => Ok(VarInt { value: sum as i32, length: last as u8 }),
        Err(k) => Err(ProtocolError(k)),
    }
}

/// What reading a variable-length 64-bit number from `s` gives.
pub open spec fn var_long_outcome(s: Seq<u8>) -> Result<VarLong, ProtocolError> {
    match var_num_decode(s) {
        Ok((sum, last)) => Ok(VarLong { value: sum as i64, length: last as u8 }),
        Err(k) => Err(ProtocolError(k)),
    }
}

/// How many bytes of `s` a read of exactly `n` bytes takes: `n`, or all of
/// them where there are fewer.
pub open spec fn exact_consumed(s: Seq<u8>, n: nat) -> nat {
    if s.len() < n {
        s.len()
    } else {
        n
    }
}

/// What reading an unsigned 16-bit number, most significant byte first, gives.
pub open spec fn ushort_outcome(s: Seq<u8>) -> Result<u16, ProtocolError> {
    if s.len() < 2 {
        Err(ProtocolError(ErrorKind::UnexpectedEof))
    } else {
        Ok((s[0] * 256 + s[1]) as u16)
    }
}

/// The number whose bytes, least significant first, are `s`.
pub open spec fn le_value(s: Seq<u8>) -> nat
    decreases s.len(),
{
    if s.len() == 0 {
        0
    } else {
        s[0] as nat + 256 * le_value(s.drop_first())
    }
}

/// `256` to the power `n`.
pub open spec fn pow256(n: nat) -> nat
    decreases n,
{
    if n == 0 {
        1
    } else {
        256 * pow256((n - 1) as nat)
    }
}

/// What reading a UUID, sixteen bytes least significant first, gives.
pub open spec fn uuid_outcome(s: Seq<u8>) -> Result<UUID, ProtocolError> {
    if s.len() < 16 {
        Err(ProtocolError(ErrorKind::UnexpectedEof))
    } else {
        Ok(UUID(le_value(s.take(16)) as u128))
    }
}

/// What reading a string gives: its size field, then that many bytes of
/// UTF-8. On success, the size and the characters.
pub open spec fn string_outcome(s: Seq<u8>) -> Result<(i32, Seq<char>), ProtocolError> {
    match var_int_outcome(s) {
        Err(e) => Err(e),
        Ok(size) => {
            let rest = s.skip(var_num_consumed(s) as int);
            if size.value < 0 {
                Err(ProtocolError(ErrorKind::NegativeLength))
            } else if rest.len() < size.value {
                Err(ProtocolError(ErrorKind::UnexpectedEof))
            } else if !valid_utf8(rest.take(size.value as int)) {
                Err(ProtocolError(ErrorKind::InvalidUtf8))
            } else {
                Ok((size.value, decode_utf8(rest.take(size.value as int))))
            }
        },
    }
}

/// How many bytes of `s` reading a string takes, whether it succeeds or not.
pub open spec fn string_consumed(s: Seq<u8>) -> nat {
    let c = var_num_consumed(s);
    match var_int_outcome(s) {
        Err(_) => c,
        Ok(size) => if size.value < 0 {
            c
        } else {
            c + exact_consumed(s.skip(c as int), size.value as nat)
        },
    }
}

/// Whether the difference of the length field and the id at the start of `s`,
/// where both are there, is a 32-bit number.
pub open spec fn package_header_fits(s: Seq<u8>) -> bool {
    let rest = s.skip(var_num_consumed(s) as int);
    match (var_int_outcome(s), var_int_outcome(rest)) {
        (Ok(length), Ok(id)) => i32::MIN <= length.value - id.value <= i32::MAX,
        _ => true,
    }
}

/// What reading a package gives: its length field, its id, then as many
/// bytes as the length field less the id, and one more. On success, the
/// length, the id and the payload.
pub open spec fn package_outcome(s: Seq<u8>) -> Result<(i32, i32, Seq<u8>), ProtocolError> {
    let s1 = s.skip(var_num_consumed(s) as int);
    let s2 = s1.skip(var_num_consumed(s1) as int);
    match var_int_outcome(s) {
        Err(e) => Err(e),
        Ok(length) => match var_int_outcome(s1) {
            Err(e) => Err(e),
            Ok(id) => match body_len_outcome(length.value, id.value) {
                Err(e) => Err(e),
                Ok(n) => if s2.len() < n {
                    Err(ProtocolError(ErrorKind::UnexpectedEof))
                } else {
                    Ok((length.value, id.value, s2.take(n as int)))
                },
            },
        },
    }
}

/// How many bytes of `s` reading a package takes, whether it succeeds or not.
pub open spec fn package_consumed(s: Seq<u8>) -> nat {
    let c1 = var_num_consumed(s);
    let s1 = s.skip(c1 as int);
    let c2 = var_num_consumed(s1);
    match var_int_outcome(s) {
        Err(_) => c1,
        Ok(length) => match var_int_outcome(s1) {
            Err(_) => c1 + c2,
            Ok(id) => match body_len_outcome(length.value, id.value) {
                Err(_) => c1 + c2,
                Ok(n) => c1 + c2 + exact_consumed(s1.skip(c2 as int), n),
            },
        },
    }
}

/// Reading the values of the protocol, in order, from a source of bytes.
pub trait ReadProtocol {
    /// The bytes not read yet.
    spec fn remaining(&self) -> Seq<u8>;

    fn try_read_package(&mut self) -> (r: Result<Package, ProtocolError>)
        requires
            package_header_fits(old(self).remaining()),
        ensures
            match package_outcome(old(self).remaining()) {
                Ok((length, id, data)) => r matches Ok(p) && p.length == length && p.id == id
                    && p.payload() == data,
                Err(e) => r matches Err(e2) && e2 == e,
            },
            final(self).remaining() == old(self).remaining().skip(
                package_consumed(old(self).remaining()) as int,
            ),
    ;

    fn try_read_var_int(&mut self) -> (r: Result<VarInt, ProtocolError>)
        ensures
            r == var_int_outcome(old(self).remaining()),
            final(self).remaining() == old(self).remaining().skip(
                var_num_consumed(old(self).remaining()) as int,
            ),
    ;

    fn try_read_var_long(&mut self) -> (r: Result<VarLong, ProtocolError>)
        ensures
            r == var_long_outcome(old(self).remaining()),
            final(self).remaining() == old(self).remaining().skip(
                var_num_consumed(old(self).remaining()) as int,
            ),
    ;

    fn try_read_ushort(&mut self) -> (r: Result<u16, ProtocolError>)
        ensures
            r == ushort_outcome(old(self).remaining()),
            final(self).remaining() == old(self).remaining().skip(
                exact_consumed(old(self).remaining(), 2) as int,
            ),
    ;

    fn try_read_string(&mut self) -> (r: Result<MString, ProtocolError>)
        ensures
            match string_outcome(old(self).remaining()) {
                Ok((size, chars)) => r matches Ok(m) && m.size == SizeField(size) && m.value@
                    == chars,
                Err(e) => r matches Err(e2) && e2 == e,
            },
            final(self).remaining() == old(self).remaining().skip(
                string_consumed(old(self).remaining()) as int,
            ),
    ;

    fn try_read_uuid(&mut self) -> (r: Result<UUID, ProtocolError>)
        ensures
            r == uuid_outcome(old(self).remaining()),
            final(self).remaining() == old(self).remaining().skip(
                exact_consumed(old(self).remaining(), 16) as int,
            ),
    ;
}

/// `String::from_utf8` of std: the bytes as a string where they are valid
/// UTF-8, and nothing otherwise. The contract states what std documents: the
/// call succeeds exactly on valid UTF-8, and the string holds the characters
/// the bytes encode.
#[verifier::external_body]
fn string_from_utf8(bytes: Vec<u8>) -> (r: Option<String>)
    ensures
        r is Some <==> valid_utf8(bytes@),
        r matches Some(s) ==> s@ == decode_utf8(bytes@),
{
    String::from_utf8(bytes).ok()
}

/// A reader over bytes held in memory, with the position of the next byte.
#[derive(Debug)]
pub struct ProtocolReader {
    bytes: Vec<u8>,
    pos: usize,
}

impl ProtocolReader {
    #[verifier::type_invariant]
    closed spec fn inv(self) -> bool {
        self.pos <= self.bytes.len()
    }

    /// A reader positioned at the first of `bytes`.
    pub fn new(bytes: Vec<u8>) -> (r: ProtocolReader)
        ensures
            r.remaining() == bytes@,
    {
        let r = ProtocolReader { bytes, pos: 0 };
        assert(r.bytes@.skip(0) =~= r.bytes@);
        r
    }

    /// Takes the next `n` bytes, or all that are left where there are fewer.
    fn take_bytes(&mut self, n: usize) -> (r: Option<Vec<u8>>)
        ensures
            old(self).remaining().len() < n ==> r is None,
            old(self).remaining().len() >= n ==> (r matches Some(v) && v@ == old(
                self,
            ).remaining().take(n as int)),
            final(self).remaining() == old(self).remaining().skip(
                exact_consumed(old(self).remaining(), n as nat) as int,
            ),
    {
        proof {
            use_type_invariant(&*self);
        }
        let ghost rem = self.remaining();
        if self.bytes.len() - self.pos < n {
            self.pos = self.bytes.len();
            assert(self.remaining() =~= rem.skip(rem.len() as int));
            return None;
        }
        let start = self.pos;
        let mut out: Vec<u8> = Vec::with_capacity(n);
        while self.pos < start + n
            invariant
                start <= self.pos <= start + n <= self.bytes.len(),
                self.bytes@ == old(self).bytes@,
                rem == self.bytes@.skip(start as int),
                out@ == rem.take(self.pos - start),
            decreases start + n - self.pos,
        {
            out.push(self.bytes[self.pos]);
            self.pos = self.pos + 1;
            assert(out@ =~= rem.take(self.pos - start));
        }
        assert(self.remaining() =~= rem.skip(n as int));
        Some(out)
    }

    /// Decodes a variable-length number: its groups' value and the index of
    /// its last byte.
    fn read_var_num(&mut self) -> (r: Result<(u64, u8), ProtocolError>)
        ensures
            match var_num_decode(old(self).remaining()) {
                Ok((sum, last)) => r matches Ok((su, l)) && su == sum && l == last,
                Err(k) => r == Err::<(u64, u8), ProtocolError>(ProtocolError(k)),
            },
            final(self).remaining() == old(self).remaining().skip(
                var_num_consumed(old(self).remaining()) as int,
            ),
    {
        proof {
            use_type_invariant(&*self);
        }
        let ghost rem = self.remaining();
        let start = self.pos;
        let mut dec = VarNumDecoder::new();
        assert(rem.take(0) =~= Seq::<u8>::empty());
        loop
            invariant
                start <= self.pos <= self.bytes.len(),
                self.pos - start < 5,
                self.bytes@ == old(self).bytes@,
                rem == self.bytes@.skip(start as int),
                rem == old(self).remaining(),
                dec.represents(rem.take(self.pos - start)),
            decreases self.bytes.len() - self.pos,
        {
            let i: usize = self.pos - start;
            assert forall|j: int| 0 <= j < i implies rem[j] >= 128 by {
                assert(rem.take(i as int)[j] == rem[j]);
            }
            proof {
                lemma_final_byte_index_skip(rem, 5, i as nat);
            }
            if self.pos >= self.bytes.len() {
                assert(rem.skip(i as int) =~= Seq::<u8>::empty());
                assert(rem.len() == i);
                assert(final_byte_index(rem.skip(i as int), (5 - i) as nat) is None);
                assert(final_byte_index(rem, 5) is None);
                assert(var_num_decode(rem) == Err::<(nat, nat), ErrorKind>(ErrorKind::UnexpectedEof));
                assert(self.remaining() =~= rem.skip(rem.len() as int));
                return Err(ProtocolError(ErrorKind::UnexpectedEof));
            }
            let b: u8 = self.bytes[self.pos];
            self.pos = self.pos + 1;
            assert(rem.skip(i as int)[0] == b);
            assert(rem.take(i + 1) =~= rem.take(i as int).push(b));
            proof {
                lemma_groups_value_push(rem.take(i as int), b);
            }
            assert(self.remaining() =~= rem.skip(i + 1));
            match dec.step(b) {
                DecodeStep::Done { sum, last_index } => {
                    return Ok((sum, last_index));
                },
                DecodeStep::TooLong => {
                    assert(i == 4);
                    assert(final_byte_index(rem.skip(i as int).drop_first(), 0) is None);
                    assert(final_byte_index(rem.skip(i as int), 1) is None);
                    assert(final_byte_index(rem, 5) is None);
                    return Err(ProtocolError(ErrorKind::VarIntTooLong));
                },
                DecodeStep::Continue(next) => {
                    dec = next;
                },
            }
        }
    }
}

impl ReadProtocol for ProtocolReader {
    closed spec fn remaining(&self) -> Seq<u8> {
        self.bytes@.skip(self.pos as int)
    }

    fn try_read_package(&mut self) -> (r: Result<Package, ProtocolError>) {
        let ghost s = self.remaining();
        let ghost c1 = var_num_consumed(s);
        let ghost s1 = s.skip(c1 as int);
        let ghost c2 = var_num_consumed(s1);
        proof {
            lemma_var_num_consumed_bound(s);
            lemma_var_num_consumed_bound(s1);
            assert(s1.skip(c2 as int) =~= s.skip((c1 + c2) as int));
        }
        let length = match self.try_read_var_int() {
            Ok(v) => v.value,
            Err(e) => return Err(e),
        };
        let packet_id = match self.try_read_var_int() {
            Ok(v) => v.value,
            Err(e) => return Err(e),
        };
        let bytes_to_read: usize = match package_body_len(length, packet_id) {
            Ok(n) => n,
            Err(e) => return Err(e),
        };
        let ghost s2 = s1.skip(c2 as int);
        let buf = match self.take_bytes(bytes_to_read) {
            Some(b) => b,
            None => {
                assert(s2.skip(s2.len() as int) =~= s.skip(s.len() as int));
                return Err(ProtocolError(ErrorKind::UnexpectedEof));
            },
        };
        assert(s2.skip(bytes_to_read as int) =~= s.skip((c1 + c2 + bytes_to_read) as int));
        Ok(Package::new(packet_id, length, buf))
    }

    fn try_read_var_int(&mut self) -> (r: Result<VarInt, ProtocolError>) {
        match self.read_var_num() {
            Ok((sum, last)) => Ok(VarInt::from_groups(sum, last)),
            Err(e) => Err(e),
        }
    }

    fn try_read_var_long(&mut self) -> (r: Result<VarLong, ProtocolError>) {
        match self.read_var_num() {
            Ok((sum, last)) => Ok(VarLong::from_groups(sum, last)),
            Err(e) => Err(e),
        }
    }

    fn try_read_ushort(&mut self) -> (r: Result<u16, ProtocolError>) {
        match self.take_bytes(2) {
            Some(buf) => Ok((buf[0] as u16) * 256 + buf[1] as u16),
            None => Err(ProtocolError(ErrorKind::UnexpectedEof)),
        }
    }

    fn try_read_string(&mut self) -> (r: Result<MString, ProtocolError>) {
        let ghost s = self.remaining();
        let size = match self.try_read_var_int() {
            Ok(v) => v,
            Err(e) => return Err(e),
        };
        if size.value < 0 {
            return Err(ProtocolError(ErrorKind::NegativeLength));
        }
        let bytes_to_read: usize = size.value as usize;
        let ghost c = var_num_consumed(s);
        proof {
            lemma_var_num_consumed_bound(s);
        }
        let buf = match self.take_bytes(bytes_to_read) {
            Some(b) => b,
            None => {
                assert(s.skip(c as int).skip(s.skip(c as int).len() as int) =~= s.skip(s.len() as int));
                return Err(ProtocolError(ErrorKind::UnexpectedEof));
            },
        };
        assert(s.skip(c as int).skip(bytes_to_read as int) =~= s.skip(c + bytes_to_read));
        match string_from_utf8(buf) {
            Some(value) => Ok(MString { size: SizeField(size.value), value }),
            None => Err(ProtocolError(ErrorKind::InvalidUtf8)),
        }
    }

    fn try_read_uuid(&mut self) -> (r: Result<UUID, ProtocolError>) {
        let buf = match self.take_bytes(16) {
            Some(b) => b,
            None => return Err(ProtocolError(ErrorKind::UnexpectedEof)),
        };
        let mut value: u128 = 0;
        let mut i: usize = 16;
        proof {
            reveal_with_fuel(pow256, 17);
        }
        assert(buf@.subrange(16, 16) =~= Seq::<u8>::empty());
        while i > 0
            invariant
                i <= 16,
                buf@.len() == 16,
                value == le_value(buf@.subrange(i as int, 16)),
                value < pow256((16 - i) as nat),
                pow256(15) == 0x1_0000_0000_0000_0000_0000_0000_0000_00,
            decreases i,
        {
            i = i - 1;
            let ghost tail = buf@.subrange(i + 1, 16);
            assert(buf@.subrange(i as int, 16).drop_first() =~= tail);
            proof {
                lemma_pow256_mono((16 - (i + 1)) as nat, 15);
            }
            value = value * 256 + buf[i] as u128;
        }
        assert(buf@.subrange(0, 16) =~= buf@);
        Ok(UUID(value))
    }
}

/// Powers of `256` grow with the exponent.
proof fn lemma_pow256_mono(a: nat, b: nat)
    requires
        a <= b,
    ensures
        pow256(a) <= pow256(b),
    decreases b,
{
    if a < b {
        lemma_pow256_mono(a, (b - 1) as nat);
    }
}

} // verus!
