//! Base-128 variable-length integers, as protobuf writes them.
use vstd::prelude::*;

verus! {

/// Bytes that encode `v`: seven bits per byte, least significant group first,
/// high bit set on every byte but the last.
pub open spec fn varint_bytes(v: nat) -> Seq<u8>
    decreases v,
{
    if v < 128 {
        seq![v as u8]
    } else {
        seq![(v % 128 + 128) as u8] + varint_bytes(v / 128)
    }
}

/// Number of leading bytes with the high bit set.
pub open spec fn continuation_prefix(b: Seq<u8>) -> nat
    decreases b.len(),
{
    if b.len() > 0 && b[0] >= 128 {
        1 + continuation_prefix(b.drop_first())
    } else {
        0
    }
}

/// Value of the low seven bits of each byte, least significant group first.
pub open spec fn low_bits_value(b: Seq<u8>) -> nat
    decreases b.len(),
{
    if b.len() == 0 {
        0
    } else {
        (b[0] % 128) as nat + 128 * low_bits_value(b.drop_first())
    }
}

/// A varint at the start of `b`: its value and its length in bytes. None when
/// the bytes end before the last byte, when it is longer than ten bytes, or
/// when its value would not fit in 64 bits.
pub open spec fn varint_at(b: Seq<u8>) -> Option<(nat, nat)> {
    let k = continuation_prefix(b);
    if k < b.len() && k < 10 && !(k == 9 && b[9] >= 2) {
        Some((low_bits_value(b.take(k + 1 as int)), k + 1))
    } else {
        None
    }
}

pub open spec fn pow128(n: nat) -> nat
    decreases n,
{
    if n == 0 {
        1
    } else {
        128 * pow128((n - 1) as nat)
    }
}

/// Declared so that a failed varint read can be handed on and mapped.
#[verifier::external_type_specification]
#[verifier::external_body]
pub struct ExDecodeError(prost::DecodeError);

/// Relies on prost::encoding::encode_varint: it appends the bytes of `v`,
/// seven bits at a time, high bit set on all but the last.
#[verifier::external_body]
pub(crate) fn write_varint(v: u64, out: &mut Vec<u8>)
    ensures
        final(out)@ == old(out)@ + varint_bytes(v as nat),
{
    prost::encoding::encode_varint(v, out)
}

/// Relies on prost::encoding::decode_varint over a byte slice: it reads one
/// varint from the front, and the result carries what is left unread.
#[verifier::external_body]
pub(crate) fn read_varint(buf: &[u8]) -> (r: Result<(u64, usize), prost::DecodeError>)
    ensures
        match varint_at(buf@) {
            Some((v, n)) => r matches Ok((x, rest)) && x as nat == v && rest + n == buf@.len(),
            None => r is Err,
        },
{
    let mut rest: &[u8] = buf;
    let v = prost::encoding::decode_varint(&mut rest)?;
    Ok((v, rest.len()))
}

proof fn lemma_pow128_positive(n: nat)
    ensures
        pow128(n) >= 1,
    decreases n,
{
    if n > 0 {
        lemma_pow128_positive((n - 1) as nat);
    }
}

/// Below `2 * 128^m` a varint takes at most `m + 1` bytes, and when it takes
/// exactly that many its last byte is 0 or 1.
proof fn lemma_varint_bytes_shape(v: nat, m: nat)
    requires
        v < 2 * pow128(m),
    ensures
        1 <= varint_bytes(v).len() <= m + 1,
        varint_bytes(v).len() == m + 1 ==> varint_bytes(v).last() < 2,
    decreases v,
{
    if v >= 128 {
        lemma_pow128_positive(m);
        if m == 0 {
            assert(false);
        } else {
            let p = pow128((m - 1) as nat);
            assert(pow128(m) == 128 * p);
            assert(v / 128 < 2 * p) by (nonlinear_arith)
                requires
                    v < 2 * (128 * p),
            ;
            lemma_varint_bytes_shape(v / 128, (m - 1) as nat);
            let t = varint_bytes(v / 128);
            assert(varint_bytes(v) == seq![(v % 128 + 128) as u8] + t);
        }
    }
}

proof fn lemma_prefix_of_varint(v: nat, rest: Seq<u8>)
    requires
        v < 2 * pow128(9),
    ensures
        continuation_prefix(varint_bytes(v) + rest) == varint_bytes(v).len() - 1,
        low_bits_value(varint_bytes(v)) == v,
    decreases v,
{
    lemma_varint_bytes_shape(v, 9);
    let b = varint_bytes(v) + rest;
    if v >= 128 {
        lemma_pow128_positive(9);
        lemma_varint_bytes_shape(v / 128, 9);
        lemma_prefix_of_varint(v / 128, rest);
        let t = varint_bytes(v / 128);
        assert(varint_bytes(v) == seq![(v % 128 + 128) as u8] + t);
        assert(b.drop_first() =~= t + rest);
        assert(varint_bytes(v).drop_first() =~= t);
        let e = varint_bytes(v);
        assert(e[0] == (v % 128 + 128) as u8);
        assert(e[0] % 128 == v % 128);
        assert(v == v % 128 + 128 * (v / 128));
        assert(low_bits_value(e) == (e[0] % 128) as nat + 128 * low_bits_value(t));
    } else {
        let e = varint_bytes(v);
        assert(e.drop_first() =~= Seq::<u8>::empty());
        assert(low_bits_value(e.drop_first()) == 0);
        assert(low_bits_value(e) == (e[0] % 128) as nat + 128 * low_bits_value(e.drop_first()));
    }
}

/// A varint written for a 64-bit value reads back as that value, whatever
/// follows it.
pub proof fn lemma_varint_round_trip(v: u64, rest: Seq<u8>)
    ensures
        varint_at(varint_bytes(v as nat) + rest) == Some((v as nat, varint_bytes(v as nat).len())),
        1 <= varint_bytes(v as nat).len() <= 10,
{
    reveal_with_fuel(pow128, 10);
    assert(pow128(9) == 0x8000_0000_0000_0000nat);
    lemma_varint_bytes_shape(v as nat, 9);
    lemma_prefix_of_varint(v as nat, rest);
    let e = varint_bytes(v as nat);
    let b = e + rest;
    assert(b.take(e.len() as int) =~= e);
}

proof fn lemma_continuation_prefix_extend(u: Seq<u8>, b: Seq<u8>)
    requires
        continuation_prefix(u) < u.len(),
    ensures
        continuation_prefix(u + b) == continuation_prefix(u),
    decreases u.len(),
{
    if u[0] >= 128 {
        assert((u + b).drop_first() =~= u.drop_first() + b);
        lemma_continuation_prefix_extend(u.drop_first(), b);
    }
}

/// Bytes after a complete varint do not change how it reads.
pub proof fn lemma_varint_extend(u: Seq<u8>, b: Seq<u8>)
    requires
        varint_at(u) is Some,
    ensures
        varint_at(u + b) == varint_at(u),
{
    let k = continuation_prefix(u);
    lemma_continuation_prefix_extend(u, b);
    assert((u + b).take(k + 1 as int) =~= u.take(k + 1 as int));
}

} // verus!
