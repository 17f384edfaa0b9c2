use vstd::arithmetic::div_mod::{lemma_div_denominator, lemma_fundamental_div_mod_converse};
use vstd::arithmetic::power::pow;
use vstd::prelude::*;

use super::reader::{le_value, pow256, ushort_outcome, uuid_outcome};
use super::types::serialize::{i64_be_bytes, Serialize};

verus! {

/// An unsigned 16-bit number read off two bytes has the first byte as its
/// high byte and the second as its low byte; two bytes always make one.
pub proof fn lemma_ushort_bytes(s: Seq<u8>)
    ensures
        s.len() >= 2 ==> ushort_outcome(s) is Ok,
        ushort_outcome(s) matches Ok(x) ==> x / 256 == s[0] && x % 256 == s[1],
{
    if s.len() >= 2 {
        let x = s[0] * 256 + s[1];
        lemma_fundamental_div_mod_converse(x, 256, s[0] as int, s[1] as int);
    }
}

/// `256` to the power `n`, as this crate writes it, is vstd's power.
proof fn lemma_pow256_is_pow(n: nat)
    ensures
        pow256(n) == pow(256, n),
    decreases n,
{
    reveal(pow);
    if n > 0 {
        lemma_pow256_is_pow((n - 1) as nat);
    }
}

/// A little-endian number of `t.len()` bytes is below `256` to that power.
proof fn lemma_le_value_bound(t: Seq<u8>)
    ensures
        le_value(t) < pow256(t.len()),
    decreases t.len(),
{
    if t.len() > 0 {
        lemma_le_value_bound(t.drop_first());
    }
}

/// Byte `i` of a little-endian number is its `i`-th base-256 digit.
proof fn lemma_le_value_digit(t: Seq<u8>, i: nat)
    requires
        i < t.len(),
    ensures
        (le_value(t) / pow256(i)) % 256 == t[i as int],
    decreases i,
{
    let rest = le_value(t.drop_first());
    lemma_fundamental_div_mod_converse(le_value(t) as int, 256, rest as int, t[0] as int);
    if i == 0 {
        assert(le_value(t) / 1 == le_value(t));
    } else {
        lemma_le_value_digit(t.drop_first(), (i - 1) as nat);
        assert(pow256(i) == 256 * pow256((i - 1) as nat));
        assert(pow256((i - 1) as nat) > 0) by {
            lemma_pow256_positive((i - 1) as nat);
        }
        lemma_div_denominator(le_value(t) as int, 256, pow256((i - 1) as nat) as int);
        assert(t.drop_first()[i - 1] == t[i as int]);
    }
}

/// Powers of `256` are positive.
proof fn lemma_pow256_positive(n: nat)
    ensures
        pow256(n) > 0,
    decreases n,
{
    if n > 0 {
        lemma_pow256_positive((n - 1) as nat);
    }
}

/// A UUID read off sixteen bytes has byte `i` as its `i`-th base-256 digit,
/// least significant first, for every `i`, with all eight bits of each byte;
/// sixteen bytes always make one.
pub proof fn lemma_uuid_bytes(s: Seq<u8>)
    ensures
        s.len() >= 16 ==> uuid_outcome(s) is Ok,
        uuid_outcome(s) matches Ok(u) ==> forall|i: nat|
            i < 16 ==> #[trigger] ((u.0 as int / pow(256, i)) % 256) == s[i as int],
{
    if s.len() >= 16 {
        let t = s.take(16);
        lemma_le_value_bound(t);
        reveal_with_fuel(pow256, 17);
        assert(pow256(16) == 0x1_0000_0000_0000_0000_0000_0000_0000_0000);
        assert(le_value(t) as u128 == le_value(t));
        assert forall|i: nat| i < 16 implies #[trigger] ((le_value(t) as int / pow(256, i)) % 256)
            == s[i as int] by {
            lemma_le_value_digit(t, i);
            lemma_pow256_is_pow(i);
        }
    }
}

/// The number a sequence of bytes spells, most significant first.
pub open spec fn be_value(s: Seq<u8>) -> nat
    decreases s.len(),
{
    if s.len() == 0 {
        0
    } else {
        be_value(s.drop_last()) * 256 + s.last() as nat
    }
}

/// A 64-bit number serializes to exactly eight bytes, whose big-endian value
/// is the number's two's complement bits.
pub proof fn lemma_i64_bytes(v: i64)
    ensures
        v.serialized() matches Ok(b) && b.len() == 8 && be_value(b) == v as u64,
{
    let u = v as u64;
    let b = i64_be_bytes(v);
    reveal_with_fuel(be_value, 9);
    assert(b.drop_last().drop_last().drop_last().drop_last().drop_last().drop_last()
        .drop_last().drop_last() =~= Seq::<u8>::empty());
    let b0 = (u >> 56) as u8;
    let b1 = (u >> 48) as u8;
    let b2 = (u >> 40) as u8;
    let b3 = (u >> 32) as u8;
    let b4 = (u >> 24) as u8;
    let b5 = (u >> 16) as u8;
    let b6 = (u >> 8) as u8;
    let b7 = u as u8;
    assert(u == ((((((((b0 as u64) * 256 + b1 as u64) * 256 + b2 as u64) * 256 + b3 as u64) * 256
        + b4 as u64) * 256 + b5 as u64) * 256 + b6 as u64) * 256 + b7 as u64)) by (bit_vector)
        requires
            b0 == (u >> 56) as u8,
            b1 == (u >> 48) as u8,
            b2 == (u >> 40) as u8,
            b3 == (u >> 32) as u8,
            b4 == (u >> 24) as u8,
            b5 == (u >> 16) as u8,
            b6 == (u >> 8) as u8,
            b7 == u as u8,
    ;
}

} // verus!
