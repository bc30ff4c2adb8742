//! Deterministic, injective mapping between domain values (20-byte account
//! identifiers, 128-bit amounts) and the fixed 32-byte key/value space of the
//! commitment store.

use vstd::prelude::*;
use vstd::arithmetic::div_mod::{lemma_basic_div, lemma_div_denominator, lemma_fundamental_div_mod};

verus! {

/// A 32-byte tree key, derived from a 20-byte account identifier.
#[derive(Clone, Copy, Debug)]
pub struct TreeKey(pub [u8; 32]);

/// A 32-byte leaf value, derived from a 128-bit amount.
#[derive(Clone, Copy, Debug)]
pub struct LeafValue(pub [u8; 32]);

/// Error raised when a leaf value cannot have come from `encode_value`.
#[derive(Clone, Copy, Debug, PartialEq, Eq)]
pub enum CodecError {
    InvalidLeafEncoding,
}

/// 256 raised to the power `n`.
pub open spec fn pow256(n: nat) -> int
    decreases n,
{
    if n == 0 {
        1
    } else {
        256 * pow256((n - 1) as nat)
    }
}

/// Byte `i` of the little-endian encoding of `v`.
pub open spec fn le_byte(v: u128, i: int) -> u8 {
    (((v as int) / pow256(i as nat)) % 256) as u8
}

/// The 32-byte tree key of a 20-byte account: the account bytes followed by
/// twelve zero bytes.
pub open spec fn key_bytes(a: Seq<u8>) -> Seq<u8> {
    Seq::new(32, |i: int| if i < 20 { a[i] } else { 0u8 })
}

/// The 32-byte leaf value of an amount: its sixteen little-endian bytes
/// followed by sixteen zero bytes.
pub open spec fn value_bytes(v: u128) -> Seq<u8> {
    Seq::new(32, |i: int| if i < 16 { le_byte(v, i) } else { 0u8 })
}

/// Thirty-two zero bytes.
pub open spec fn zero32() -> Seq<u8> {
    Seq::new(32, |i: int| 0u8)
}

/// The number a little-endian byte sequence stands for.
pub open spec fn le_value(s: Seq<u8>) -> int
    decreases s.len(),
{
    if s.len() == 0 {
        0
    } else {
        s[0] + 256 * le_value(s.drop_first())
    }
}

/// A 32-byte leaf decodes only when its upper sixteen bytes are zero.
pub open spec fn decode_ok(s: Seq<u8>) -> bool {
    forall|i: int| 16 <= i < 32 ==> s[i] == 0u8
}

proof fn lemma_pow256_pos(n: nat)
    ensures
        pow256(n) >= 1,
    decreases n,
{
    if n > 0 {
        lemma_pow256_pos((n - 1) as nat);
    }
}

proof fn lemma_pow256_le(a: nat, b: nat)
    requires
        a <= b,
    ensures
        pow256(a) <= pow256(b),
    decreases b,
{
    if a < b {
        lemma_pow256_le(a, (b - 1) as nat);
        lemma_pow256_pos((b - 1) as nat);
    }
}

proof fn lemma_pow256_16()
    ensures
        pow256(16) == 0x100000000000000000000000000000000,
{
    assert(pow256(0) == 1);
    assert(pow256(1) == 256);
    assert(pow256(2) == 0x10000);
    assert(pow256(3) == 0x1000000);
    assert(pow256(4) == 0x100000000);
    assert(pow256(5) == 0x10000000000);
    assert(pow256(6) == 0x1000000000000);
    assert(pow256(7) == 0x100000000000000);
    assert(pow256(8) == 0x10000000000000000);
    assert(pow256(9) == 0x1000000000000000000);
    assert(pow256(10) == 0x100000000000000000000);
    assert(pow256(11) == 0x10000000000000000000000);
    assert(pow256(12) == 0x1000000000000000000000000);
    assert(pow256(13) == 0x100000000000000000000000000);
    assert(pow256(14) == 0x10000000000000000000000000000);
    assert(pow256(15) == 0x1000000000000000000000000000000);
    assert(pow256(16) == 0x100000000000000000000000000000000);
}

/// Encode a 20-byte account identifier as a 32-byte tree key: the account
/// bytes verbatim, then twelve zero bytes.
pub fn encode_key(account: &[u8; 20]) -> (r: TreeKey)
    ensures
        r.0@ == key_bytes(account@),
{
    let mut buf = [0u8; 32];
    let mut i: usize = 0;
    while i < 20
        invariant
            0 <= i <= 20,
            buf@.len() == 32,
            forall|j: int| 0 <= j < i ==> buf@[j] == account@[j],
            forall|j: int| i <= j < 32 ==> buf@[j] == 0u8,
        decreases 20 - i,
    {
        buf[i] = account[i];
        i += 1;
    }
    proof {
        assert(buf@ =~= key_bytes(account@));
    }
    TreeKey(buf)
}

/// Encode an amount as a 32-byte leaf value: its sixteen little-endian bytes,
/// then sixteen zero bytes.
pub fn encode_value(amount: u128) -> (r: LeafValue)
    ensures
        r.0@ == value_bytes(amount),
{
    let mut buf = [0u8; 32];
    let mut x = amount;
    let mut i: usize = 0;
    while i < 16
        invariant
            0 <= i <= 16,
            buf@.len() == 32,
            x as int == (amount as int) / pow256(i as nat),
            forall|j: int| 0 <= j < i ==> buf@[j] == le_byte(amount, j),
            forall|j: int| i <= j < 32 ==> buf@[j] == 0u8,
        decreases 16 - i,
    {
        proof {
            lemma_pow256_pos(i as nat);
        }
        buf[i] = (x % 256) as u8;
        proof {
            lemma_div_denominator(amount as int, pow256(i as nat), 256);
            assert(pow256((i + 1) as nat) == 256 * pow256(i as nat));
            assert(pow256(i as nat) * 256 == 256 * pow256(i as nat)) by (nonlinear_arith);
        }
        x = x / 256;
        i += 1;
    }
    proof {
        assert(buf@ =~= value_bytes(amount));
    }
    LeafValue(buf)
}

/// Decode a leaf value back to the amount it encodes. Fails exactly when the
/// upper sixteen bytes are not all zero, in which case the leaf did not come
/// from `encode_value`.
pub fn decode_value(v: &LeafValue) -> (r: Result<u128, CodecError>)
    ensures
        decode_ok(v.0@) ==> r == Ok::<u128, CodecError>(le_value(v.0@.subrange(0, 16)) as u128),
        !decode_ok(v.0@) ==> r == Err::<u128, CodecError>(CodecError::InvalidLeafEncoding),
{
    let mut i: usize = 16;
    while i < 32
        invariant
            16 <= i <= 32,
            forall|j: int| 16 <= j < i ==> v.0@[j] == 0u8,
        decreases 32 - i,
    {
        if v.0[i] != 0 {
            return Err(CodecError::InvalidLeafEncoding);
        }
        i += 1;
    }
    let ghost s = v.0@;
    let mut acc: u128 = 0;
    let mut k: usize = 16;
    proof {
        assert(s.subrange(16, 16) =~= Seq::<u8>::empty());
    }
    while k > 0
        invariant
            0 <= k <= 16,
            s == v.0@,
            s.len() == 32,
            acc as int == le_value(s.subrange(k as int, 16)),
            (acc as int) < pow256((16 - k) as nat),
        decreases k,
    {
        k -= 1;
        proof {
            let tail = s.subrange(k + 1, 16);
            let whole = s.subrange(k as int, 16);
            assert(whole.drop_first() =~= tail);
            assert(le_value(whole) == s[k as int] + 256 * le_value(tail));
            lemma_pow256_pos((15 - k) as nat);
            assert(pow256((16 - k) as nat) == 256 * pow256((15 - k) as nat));
            assert((acc as int) * 256 + 255 < pow256((16 - k) as nat)) by (nonlinear_arith)
                requires
                    (acc as int) < pow256((15 - k) as nat),
                    pow256((16 - k) as nat) == 256 * pow256((15 - k) as nat),
            ;
            lemma_pow256_le((16 - k) as nat, 16);
            lemma_pow256_16();
        }
        acc = acc * 256 + (v.0[k] as u128);
    }
    proof {
        assert(s.subrange(0, 16) == v.0@.subrange(0, 16));
    }
    Ok(acc)
}

proof fn lemma_le_value_suffix(v: u128, i: int)
    requires
        0 <= i <= 16,
    ensures
        le_value(value_bytes(v).subrange(i, 16)) == (v as int) / pow256(i as nat),
    decreases 16 - i,
{
    lemma_pow256_16();
    lemma_pow256_pos(i as nat);
    if i == 16 {
        assert(value_bytes(v).subrange(16, 16) =~= Seq::<u8>::empty());
        lemma_pow256_le(16, 16);
        lemma_basic_div(v as int, pow256(16));
    } else {
        let whole = value_bytes(v).subrange(i, 16);
        let tail = value_bytes(v).subrange(i + 1, 16);
        assert(whole.drop_first() =~= tail);
        lemma_le_value_suffix(v, i + 1);
        let w = (v as int) / pow256(i as nat);
        lemma_div_denominator(v as int, pow256(i as nat), 256);
        assert(pow256(i as nat) * 256 == 256 * pow256(i as nat)) by (nonlinear_arith);
        assert(pow256((i + 1) as nat) == 256 * pow256(i as nat));
        assert((v as int) / pow256((i + 1) as nat) == w / 256);
        assert(whole[0] == le_byte(v, i));
        lemma_fundamental_div_mod(w, 256);
        assert(le_value(whole) == (w % 256) + 256 * (w / 256));
    }
}

/// The little-endian encoding round-trips: the first sixteen bytes of
/// `value_bytes(amount)` stand for `amount` itself, and the upper sixteen
/// bytes are zero, so decoding an encoded value always succeeds and returns
/// the original amount.
pub proof fn lemma_value_round_trip(amount: u128)
    ensures
        decode_ok(value_bytes(amount)),
        le_value(value_bytes(amount).subrange(0, 16)) == amount,
{
    lemma_le_value_suffix(amount, 0);
    lemma_pow256_pos(0);
    assert((amount as int) / 1 == amount as int);
}

/// Two distinct 20-byte accounts always get distinct tree keys: the key keeps
/// the account bytes verbatim in its first twenty positions.
pub proof fn lemma_encode_key_injective(a1: Seq<u8>, a2: Seq<u8>)
    requires
        a1.len() == 20,
        a2.len() == 20,
        a1 != a2,
    ensures
        key_bytes(a1) != key_bytes(a2),
{
    if key_bytes(a1) == key_bytes(a2) {
        assert forall|i: int| 0 <= i < 20 implies a1[i] == a2[i] by {
            assert(key_bytes(a1)[i] == a1[i]);
            assert(key_bytes(a2)[i] == a2[i]);
        }
        assert(a1 =~= a2);
    }
}

/// A leaf value encodes zero exactly when all of its bytes are zero.
pub proof fn lemma_value_bytes_zero(v: u128)
    ensures
        (value_bytes(v) == zero32()) <==> v == 0,
{
    if v == 0 {
        assert forall|i: int| 0 <= i < 16 implies le_byte(0u128, i) == 0u8 by {
            lemma_pow256_pos(i as nat);
            lemma_basic_div(0, pow256(i as nat));
        }
        assert(value_bytes(v) =~= zero32());
    }
    if value_bytes(v) == zero32() {
        lemma_le_value_all_zero(value_bytes(v).subrange(0, 16));
        lemma_value_round_trip(v);
    }
}

proof fn lemma_le_value_all_zero(s: Seq<u8>)
    requires
        forall|i: int| 0 <= i < s.len() ==> s[i] == 0u8,
    ensures
        le_value(s) == 0,
    decreases s.len(),
{
    if s.len() > 0 {
        lemma_le_value_all_zero(s.drop_first());
    }
}

/// A tagged encoder over the kinds of domain values that can become tree
/// keys; each variant names the kind it carries.
pub enum SmtKeyEncode {
    Address([u8; 20]),
}

impl SmtKeyEncode {
    /// The account bytes this encoder carries.
    pub open spec fn account_view(self) -> Seq<u8> {
        match self {
            SmtKeyEncode::Address(a) => a@,
        }
    }

    /// Encode the carried account into the 32-byte tree key space.
    pub fn to_h256(&self) -> (r: TreeKey)
        ensures
            r.0@ == key_bytes(self.account_view()),
    {
        match self {
            SmtKeyEncode::Address(a) => encode_key(a),
        }
    }
}

pub enum SmtValueEncode {
    Amount(u128),
}

impl SmtValueEncode {
    /// The amount this encoder carries.
    pub open spec fn amount_view(self) -> u128 {
        match self {
            SmtValueEncode::Amount(v) => v,
        }
    }

    /// Encode the carried amount into the 32-byte leaf value space.
    pub fn to_leaf_value(&self) -> (r: LeafValue)
        ensures
            r.0@ == value_bytes(self.amount_view()),
    {
        match self {
            SmtValueEncode::Amount(v) => encode_value(*v),
        }
    }
}

} // verus!
