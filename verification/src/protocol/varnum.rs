use vstd::prelude::*;

use super::ErrorKind;
use super::reader::{CONTINUE_BIT, SEGMENT_BITS};
use super::types::serialize::var_num_bytes;

verus! {

/// `128` to the power `n`: the weight of the `n`-th seven-bit group.
pub open spec fn pow128(n: nat) -> nat
    decreases n,
{
    if n == 0 {
        1
    } else {
        128 * pow128((n - 1) as nat)
    }
}

/// The number spelled by the low seven bits of each byte of `s`, least
/// significant group first.
pub open spec fn groups_value(s: Seq<u8>) -> nat
    decreases s.len(),
{
    if s.len() == 0 {
        0
    } else {
        (s[0] % 128) as nat + 128 * groups_value(s.drop_first())
    }
}

/// The index of the first byte of `s` without the continuation bit, looking
/// at the first `limit` bytes only.
pub open spec fn final_byte_index(s: Seq<u8>, limit: nat) -> Option<nat>
    decreases limit,
{
    if limit == 0 || s.len() == 0 {
        None
    } else if s[0] < 128 {
        Some(0)
    } else {
        match final_byte_index(s.drop_first(), (limit - 1) as nat) {
            Some(i) => Some(i + 1),
            None => None,
        }
    }
}

/// Decoding a variable-length number at the start of `s`: it takes at most
/// five bytes, and ends at the first byte without the continuation bit.
/// On success, the number its groups spell (before it is fitted into a
/// machine integer) and the index of its last byte.
pub open spec fn var_num_decode(s: Seq<u8>) -> Result<(nat, nat), ErrorKind> {
    match final_byte_index(s, 5) {
        Some(i) => Ok((groups_value(s.take(i + 1 as int)), i)),
        None => if s.len() >= 5 {
            Err(ErrorKind::VarIntTooLong)
        } else {
            Err(ErrorKind::UnexpectedEof)
        },
    }
}

/// How many bytes of `s` decoding a variable-length number takes, whether it
/// succeeds or not: on running out of input, all of them.
pub open spec fn var_num_consumed(s: Seq<u8>) -> nat {
    match var_num_decode(s) {
        Ok((_, last)) => last + 1,
        Err(ErrorKind::VarIntTooLong) => 5,
        Err(_) => s.len(),
    }
}

/// What one more byte does to a variable-length number being decoded.
#[derive(Debug, Clone, Copy)]
pub enum DecodeStep {
    /// The byte was the last one: the number's groups spell `sum`, and
    /// `last_index` is the byte's index within the number.
    Done { sum: u64, last_index: u8 },
    /// The byte carried the continuation bit: decoding goes on.
    Continue(VarNumDecoder),
    /// Five bytes all carried the continuation bit.
    TooLong,
}

/// The state of decoding a variable-length number one byte at a time: the
/// value of the groups taken so far, and how many bytes that was. Every byte
/// taken so far carried the continuation bit.
#[derive(Debug, Clone, Copy)]
pub struct VarNumDecoder {
    sum: u64,
    weight: u64,
    count: u8,
}

impl View for VarNumDecoder {
    /// The value of the groups taken, and how many bytes were taken.
    type V = (nat, nat);

    closed spec fn view(&self) -> (nat, nat) {
        (self.sum as nat, self.count as nat)
    }
}

impl VarNumDecoder {
    #[verifier::type_invariant]
    closed spec fn inv(self) -> bool {
        &&& self.count < 5
        &&& self.weight == pow128(self.count as nat)
        &&& self.sum < self.weight
    }

    /// Whether this state is where decoding stands after taking the bytes `p`.
    pub open spec fn represents(self, p: Seq<u8>) -> bool {
        &&& self@.1 == p.len()
        &&& forall|j: int| 0 <= j < p.len() ==> p[j] >= 128
        &&& self@.0 == groups_value(p)
    }

    /// The state before any byte.
    pub fn new() -> (d: VarNumDecoder)
        ensures
            d@ == (0nat, 0nat),
    {
        VarNumDecoder { sum: 0, weight: 1, count: 0 }
    }

    /// Takes one more byte.
    pub fn step(self, byte: u8) -> (r: DecodeStep)
        ensures
            self@.1 < 5,
            self@.0 < pow128(self@.1),
            byte < 128 ==> (r matches DecodeStep::Done { sum, last_index } && sum == self@.0
                + byte * pow128(self@.1) && last_index == self@.1),
            byte >= 128 && self@.1 + 1 >= 5 ==> r is TooLong,
            byte >= 128 && self@.1 + 1 < 5 ==> (r matches DecodeStep::Continue(d) && d@ == (
                (self@.0 + (byte - 128) * pow128(self@.1)) as nat,
                self@.1 + 1,
            )),
    {
        proof {
            use_type_invariant(&self);
            reveal_with_fuel(pow128, 5);
        }
        let w: u64 = self.weight;
        let s: u64 = self.sum;
        assert(w <= 268435456);
        let group: u64 = (byte & SEGMENT_BITS) as u64;
        assert(((byte & 0x80u8) == 0) == (byte < 128) && (byte & 0x7Fu8) == byte % 128)
            by (bit_vector);
        assert(group < 128);
        assert(group * w < 128 * w - s) by (nonlinear_arith)
            requires group < 128, s < w;
        if byte & CONTINUE_BIT == 0 {
            return DecodeStep::Done { sum: s + group * w, last_index: self.count };
        }
        if self.count + 1 >= 5 {
            return DecodeStep::TooLong;
        }
        let next = VarNumDecoder { sum: s + group * w, weight: 128 * w, count: self.count + 1 };
        DecodeStep::Continue(next)
    }
}

/// The final byte found lies within the input.
pub proof fn lemma_final_byte_index_in_range(s: Seq<u8>, limit: nat)
    ensures
        final_byte_index(s, limit) matches Some(i) ==> i < s.len() && i < limit,
    decreases limit,
{
    if limit > 0 && s.len() > 0 && s[0] >= 128 {
        lemma_final_byte_index_in_range(s.drop_first(), (limit - 1) as nat);
    }
}

/// Decoding never takes more bytes than there are.
pub proof fn lemma_var_num_consumed_bound(s: Seq<u8>)
    ensures
        var_num_consumed(s) <= s.len(),
        var_num_consumed(s) <= 5,
        var_num_consumed(s) >= 1 || s.len() == 0,
{
    lemma_final_byte_index_in_range(s, 5);
}

/// The groups of `n` bytes spell a number below `128` to the power `n`.
pub proof fn lemma_groups_value_bound(s: Seq<u8>)
    ensures
        groups_value(s) < pow128(s.len()),
    decreases s.len(),
{
    if s.len() > 0 {
        lemma_groups_value_bound(s.drop_first());
    }
}

/// One more byte adds its group at the next weight.
pub proof fn lemma_groups_value_push(p: Seq<u8>, b: u8)
    ensures
        groups_value(p.push(b)) == groups_value(p) + (b % 128) as nat * pow128(p.len()),
    decreases p.len(),
{
    if p.len() == 0 {
        assert(p.push(b).drop_first() =~= Seq::<u8>::empty());
        assert(p.push(b)[0] == b);
        assert(groups_value(p.push(b).drop_first()) == 0);
        assert(groups_value(p.push(b)) == (b % 128) as nat);
    } else {
        assert(p.push(b).drop_first() =~= p.drop_first().push(b));
        assert(p.push(b)[0] == p[0]);
        lemma_groups_value_push(p.drop_first(), b);
        assert(pow128(p.len()) == 128 * pow128(p.drop_first().len()));
        assert(128 * ((b % 128) as nat * pow128(p.drop_first().len())) == (b % 128) as nat * (128
            * pow128(p.drop_first().len()))) by (nonlinear_arith);
        assert(groups_value(p.push(b)) == (p[0] % 128) as nat + 128 * groups_value(p.drop_first().push(b)));
        assert(groups_value(p) == (p[0] % 128) as nat + 128 * groups_value(p.drop_first()));
    }
}

/// Past a run of continuation bytes, the search for the final byte goes on
/// where the run ends.
pub proof fn lemma_final_byte_index_skip(s: Seq<u8>, limit: nat, i: nat)
    requires
        i <= limit,
        i <= s.len(),
        forall|j: int| 0 <= j < i ==> s[j] >= 128,
    ensures
        final_byte_index(s, limit) == match final_byte_index(s.skip(i as int), (limit - i) as nat) {
            Some(k) => Some(k + i),
            None => None::<nat>,
        },
    decreases i,
{
    if i == 0 {
        assert(s.skip(0) =~= s);
        match final_byte_index(s, limit) {
            Some(k) => {},
            None => {},
        }
    } else {
        assert(s.drop_first().skip(i - 1) =~= s.skip(i as int));
        lemma_final_byte_index_skip(s.drop_first(), (limit - 1) as nat, (i - 1) as nat);
    }
}

/// The groups of a number's encoding spell the number.
pub proof fn lemma_groups_value_of_var_num_bytes(v: nat)
    ensures
        groups_value(var_num_bytes(v)) == v,
    decreases v,
{
    let s = var_num_bytes(v);
    if v < 128 {
        assert(s.drop_first() =~= Seq::<u8>::empty());
        assert(groups_value(s.drop_first()) == 0);
    } else {
        assert(s.drop_first() =~= var_num_bytes(v / 128));
        lemma_groups_value_of_var_num_bytes(v / 128);
    }
}

/// A number's encoding is one or more bytes, all but the last carrying the
/// continuation bit; a number below `128` to the power `k` needs at most `k`.
pub proof fn lemma_var_num_bytes_shape(v: nat, k: nat)
    requires
        1 <= k,
        v < pow128(k),
    ensures
        1 <= var_num_bytes(v).len() <= k,
        var_num_bytes(v).last() < 128,
        forall|j: int| 0 <= j < var_num_bytes(v).len() - 1 ==> #[trigger] var_num_bytes(v)[j] >= 128,
    decreases v,
{
    let s = var_num_bytes(v);
    if v >= 128 {
        assert(pow128(k) == 128 * pow128((k - 1) as nat));
        if k == 1 {
            assert(pow128(0) == 1);
        }
        lemma_var_num_bytes_shape(v / 128, (k - 1) as nat);
        let t = var_num_bytes(v / 128);
        assert(s =~= seq![(v % 128 + 128) as u8] + t);
        assert(s.last() == t.last());
        assert forall|j: int| 0 <= j < s.len() - 1 implies #[trigger] s[j] >= 128 by {
            if j > 0 {
                assert(s[j] == t[j - 1]);
            }
        }
    }
}

/// The encoding of a number below `2^35`, whatever follows it, decodes to
/// that number and ends where the encoding ends.
pub proof fn lemma_var_num_round_trip(v: nat, rest: Seq<u8>)
    requires
        v < pow128(5),
    ensures
        var_num_decode(var_num_bytes(v) + rest) == Ok::<(nat, nat), ErrorKind>(
            (v, (var_num_bytes(v).len() - 1) as nat),
        ),
        var_num_consumed(var_num_bytes(v) + rest) == var_num_bytes(v).len(),
{
    let b = var_num_bytes(v);
    let s = b + rest;
    let n = b.len();
    lemma_var_num_bytes_shape(v, 5);
    assert forall|j: int| 0 <= j < n - 1 implies s[j] >= 128 by {
        assert(s[j] == b[j]);
    }
    lemma_final_byte_index_skip(s, 5, (n - 1) as nat);
    assert(s.skip(n - 1)[0] == b.last());
    assert(final_byte_index(s.skip(n - 1), (5 - (n - 1)) as nat) == Some(0nat));
    assert(s.take(n as int) =~= b);
    lemma_groups_value_of_var_num_bytes(v);
}

} // verus!
