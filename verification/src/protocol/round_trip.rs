use vstd::prelude::*;
use vstd::utf8::{encode_utf8, encode_utf8_decode_utf8, encode_utf8_valid_utf8};

use super::ErrorKind;
use super::decoded;
use crate::connection::handshake_outcome;
use super::package::Package;
use super::reader::{
    exact_consumed, package_consumed, package_header_fits, package_outcome, string_consumed,
    string_outcome, ushort_outcome, var_int_outcome, var_long_outcome,
};
use super::types::serialize::Serialize;
use super::types::{MString, VarInt};
use super::types::serialize::{string_bytes, var_num_bytes};
use super::varnum::{
    groups_value, lemma_final_byte_index_in_range, lemma_final_byte_index_skip,
    lemma_groups_value_bound, lemma_groups_value_push, lemma_var_num_bytes_shape,
    lemma_var_num_round_trip, pow128, var_num_consumed, var_num_decode,
};

verus! {

/// A non-negative 32-bit number serializes to one to five bytes.
pub proof fn lemma_var_int_bytes_len(v: i32)
    requires
        v >= 0,
    ensures
        1 <= var_num_bytes(v as nat).len() <= 5,
{
    reveal_with_fuel(pow128, 6);
    lemma_var_num_bytes_shape(v as nat, 5);
}

/// A non-negative 64-bit number serializes to one to nine bytes.
pub proof fn lemma_var_long_bytes_len(v: i64)
    requires
        v >= 0,
    ensures
        1 <= var_num_bytes(v as nat).len() <= 9,
{
    reveal_with_fuel(pow128, 10);
    lemma_var_num_bytes_shape(v as nat, 9);
}

/// Reading back the bytes of a serialized non-negative 32-bit number, whatever
/// follows them, gives the number, the index of its last byte, and takes
/// exactly those bytes.
pub proof fn lemma_var_int_round_trip(v: i32, rest: Seq<u8>)
    requires
        v >= 0,
    ensures
        var_int_outcome(var_num_bytes(v as nat) + rest) == Ok::<decoded::VarInt, super::ProtocolError>(
            decoded::VarInt { value: v, length: (var_num_bytes(v as nat).len() - 1) as u8 },
        ),
        var_num_consumed(var_num_bytes(v as nat) + rest) == var_num_bytes(v as nat).len(),
{
    reveal_with_fuel(pow128, 6);
    lemma_var_int_bytes_len(v);
    lemma_var_num_round_trip(v as nat, rest);
}

/// The wire bytes of any 32-bit number: the seven-bit groups of its 32 bits
/// taken as unsigned, so five bytes for a negative number.
pub open spec fn var_int_wire(v: i32) -> Seq<u8> {
    var_num_bytes((v as u32) as nat)
}

/// Reading back the wire bytes of any 32-bit number, negative ones included,
/// whatever follows them, gives the number and takes exactly those bytes; for
/// a non-negative number they are the bytes its serialization gives.
pub proof fn lemma_var_int_wire_round_trip(v: i32, rest: Seq<u8>)
    ensures
        var_int_outcome(var_int_wire(v) + rest) == Ok::<decoded::VarInt, super::ProtocolError>(
            decoded::VarInt { value: v, length: (var_int_wire(v).len() - 1) as u8 },
        ),
        var_num_consumed(var_int_wire(v) + rest) == var_int_wire(v).len(),
        1 <= var_int_wire(v).len() <= 5,
        v >= 0 ==> VarInt(v).serialized() == Ok::<Seq<u8>, super::ProtocolError>(var_int_wire(v)),
{
    let u = v as u32;
    reveal_with_fuel(pow128, 6);
    lemma_var_num_bytes_shape(u as nat, 5);
    lemma_var_num_round_trip(u as nat, rest);
    assert(u as i32 == v) by (bit_vector)
        requires
            u == v as u32,
    ;
    assert((u as nat) as i32 == v);
}

/// A decoded 32-bit number holds the low 32 bits of the value its groups
/// spell, in two's complement, whatever that value is.
pub proof fn lemma_var_int_low_bits(s: Seq<u8>)
    ensures
        var_num_decode(s) matches Ok((sum, last)) ==> (var_int_outcome(s) matches Ok(n) && n.value
            as u32 == sum % 0x1_0000_0000 && n.length == last),
{
    if let Ok((sum, last)) = var_num_decode(s) {
        lemma_final_byte_index_in_range(s, 5);
        lemma_groups_value_bound(s.take(last + 1 as int));
        reveal_with_fuel(pow128, 6);
        let t = sum as u64;
        assert(t == sum);
        assert((t as i32) as u32 == t % 0x1_0000_0000) by (bit_vector);
        assert(sum as i32 == t as i32);
    }
}

/// Reading back the bytes of a serialized 64-bit number between `0` and
/// `2^35`, whatever follows them, gives the number. Larger numbers take more
/// than the five bytes the reader accepts.
pub proof fn lemma_var_long_round_trip(v: i64, rest: Seq<u8>)
    requires
        0 <= v < 0x8_0000_0000,
    ensures
        var_long_outcome(var_num_bytes(v as nat) + rest) == Ok::<decoded::VarLong, super::ProtocolError>(
            decoded::VarLong { value: v, length: (var_num_bytes(v as nat).len() - 1) as u8 },
        ),
        var_num_consumed(var_num_bytes(v as nat) + rest) == var_num_bytes(v as nat).len(),
{
    reveal_with_fuel(pow128, 6);
    lemma_var_num_bytes_shape(v as nat, 5);
    lemma_var_num_round_trip(v as nat, rest);
}

/// Reading back a serialized string whose size field is the number of its
/// UTF-8 bytes, whatever follows it, gives the same size and characters, and
/// takes exactly its bytes.
pub proof fn lemma_string_round_trip(m: MString, rest: Seq<u8>)
    requires
        m.size.0 == encode_utf8(m.value@).len(),
    ensures
        string_bytes(m) matches Ok(b) && string_outcome(b + rest) == Ok::<
            (i32, Seq<char>),
            super::ProtocolError,
        >((m.size.0, m.value@)) && string_consumed(b + rest) == b.len(),
{
    let size = m.size.0;
    let nb = var_num_bytes(size as nat);
    let u = encode_utf8(m.value@);
    let s = nb + u + rest;
    assert(s =~= nb + (u + rest));
    lemma_var_int_round_trip(size, u + rest);
    assert(s.skip(nb.len() as int) =~= u + rest);
    assert((u + rest).take(size as int) =~= u);
    assert((u + rest).skip(size as int) =~= rest);
    encode_utf8_valid_utf8(m.value@);
    encode_utf8_decode_utf8(m.value@);
}

/// Reading back a serialized package gives its length field, id and payload
/// where the length field is at least the id and the payload is exactly one
/// byte longer than their difference, the size the reader takes; on other
/// packages it does not hold.
pub proof fn lemma_package_round_trip(p: Package, rest: Seq<u8>)
    requires
        p.length >= 0,
        p.id >= 0,
        p.length >= p.id,
        p.length - p.id + 1 == p.payload().len(),
    ensures
        p.serialized() matches Ok(b) && package_header_fits(b + rest) && package_outcome(b + rest)
            == Ok::<(i32, i32, Seq<u8>), super::ProtocolError>((p.length, p.id, p.payload()))
            && package_consumed(b + rest) == b.len(),
{
    let lb = var_num_bytes(p.length as nat);
    let ib = var_num_bytes(p.id as nat);
    let d = p.payload();
    let s = lb + ib + d + rest;
    assert(s =~= lb + (ib + d + rest));
    lemma_var_int_round_trip(p.length, ib + d + rest);
    let s1 = s.skip(lb.len() as int);
    assert(s1 =~= ib + (d + rest));
    lemma_var_int_round_trip(p.id, d + rest);
    let s2 = s1.skip(ib.len() as int);
    assert(s2 =~= d + rest);
    assert(s2.take(d.len() as int) =~= d);
    assert(super::package::body_len_outcome(p.length, p.id) == Ok::<nat, super::ProtocolError>(d.len()));
}

/// Reading a handshake written field by field (protocol version, server
/// address with its size, port high byte first, next state), whatever
/// follows, gives back every field.
pub proof fn lemma_handshake_round_trip(
    version: i32,
    address: MString,
    port: u16,
    next: i32,
    rest: Seq<u8>,
)
    requires
        address.size.0 == encode_utf8(address.value@).len(),
    ensures
        string_bytes(address) matches Ok(a) && handshake_outcome(
            var_int_wire(version) + a + seq![(port / 256) as u8, (port % 256) as u8]
                + var_int_wire(next) + rest,
        ) == Ok::<(i32, (i32, Seq<char>), u16, i32), super::ProtocolError>(
            (version, (address.size.0, address.value@), port, next),
        ),
{
    let vb = var_int_wire(version);
    let a = var_num_bytes(address.size.0 as nat) + encode_utf8(address.value@);
    let pb = seq![(port / 256) as u8, (port % 256) as u8];
    let nb = var_int_wire(next);
    let s = vb + a + pb + nb + rest;
    let r1 = a + pb + nb + rest;
    let r2 = pb + nb + rest;
    let r3 = nb + rest;
    assert(s =~= vb + r1);
    lemma_var_int_wire_round_trip(version, r1);
    let s1 = s.skip(var_num_consumed(s) as int);
    assert(s1 =~= r1);
    lemma_string_round_trip(address, r2);
    assert(r1 =~= a + r2);
    let s2 = s1.skip(string_consumed(s1) as int);
    assert(s2 =~= r2);
    assert(s2[0] == (port / 256) as u8 && s2[1] == (port % 256) as u8);
    assert(ushort_outcome(s2) == Ok::<u16, super::ProtocolError>(port));
    let s3 = s2.skip(exact_consumed(s2, 2) as int);
    assert(s3 =~= r3);
    lemma_var_int_wire_round_trip(next, rest);
}

/// Decoding a variable-length number byte by byte agrees with decoding it at
/// once: after a run `p` of continuation bytes shorter than five, a byte
/// without the continuation bit ends the number with the groups taken so far
/// plus its own, and a fifth continuation byte makes it too long.
pub proof fn lemma_byte_by_byte_decoding(p: Seq<u8>, b: u8, rest: Seq<u8>)
    requires
        p.len() < 5,
        forall|j: int| 0 <= j < p.len() ==> p[j] >= 128,
    ensures
        b < 128 ==> var_num_decode(p.push(b) + rest) == Ok::<(nat, nat), ErrorKind>(
            ((groups_value(p) + b * pow128(p.len())) as nat, p.len()),
        ),
        b >= 128 && p.len() == 4 ==> var_num_decode(p.push(b) + rest) == Err::<(nat, nat), ErrorKind>(
            ErrorKind::VarIntTooLong,
        ),
{
    let s = p.push(b) + rest;
    let i = p.len();
    assert forall|j: int| 0 <= j < i implies s[j] >= 128 by {
        assert(s[j] == p[j]);
    }
    lemma_final_byte_index_skip(s, 5, i);
    assert(s.skip(i as int)[0] == b);
    lemma_groups_value_push(p, b);
    assert(s.take(i + 1 as int) =~= p.push(b));
    if b >= 128 && i == 4 {
        assert(super::varnum::final_byte_index(s.skip(i as int).drop_first(), 0) is None);
    }
}

} // verus!
