//! Fixed-width integer fields of the two binary formats: little-endian
//! fields of the chunk container, big-endian fields of the TIFF block.

use vstd::arithmetic::div_mod::{lemma_div_denominator, lemma_fundamental_div_mod};
use vstd::prelude::*;

verus! {

/// The four bytes of a 32-bit little-endian length field.
pub open spec fn le32_bytes(n: u32) -> Seq<u8> {
    seq![
        (n % 0x100) as u8,
        ((n / 0x100) % 0x100) as u8,
        ((n / 0x10000) % 0x100) as u8,
        (n / 0x1000000) as u8,
    ]
}

/// The three bytes of a 24-bit little-endian field.
pub open spec fn le24_bytes(n: u32) -> Seq<u8>
    recommends
        n < 0x1000000,
{
    seq![(n % 0x100) as u8, ((n / 0x100) % 0x100) as u8, ((n / 0x10000) % 0x100) as u8]
}

/// The two bytes of a 16-bit big-endian field.
pub open spec fn be16_bytes(n: u16) -> Seq<u8> {
    seq![(n / 0x100) as u8, (n % 0x100) as u8]
}

/// The four bytes of a 32-bit big-endian field.
pub open spec fn be32_bytes(n: u32) -> Seq<u8> {
    seq![
        (n / 0x1000000) as u8,
        ((n / 0x10000) % 0x100) as u8,
        ((n / 0x100) % 0x100) as u8,
        (n % 0x100) as u8,
    ]
}

/// The value stored in a 32-bit little-endian field.
pub open spec fn le32_val(b: Seq<u8>) -> int
    recommends
        b.len() == 4,
{
    b[0] as int + 0x100 * (b[1] as int) + 0x10000 * (b[2] as int) + 0x1000000 * (b[3] as int)
}

/// The value stored in a 24-bit little-endian field.
pub open spec fn le24_val(b: Seq<u8>) -> int
    recommends
        b.len() == 3,
{
    b[0] as int + 0x100 * (b[1] as int) + 0x10000 * (b[2] as int)
}

/// The value stored in a 16-bit big-endian field.
pub open spec fn be16_val(b: Seq<u8>) -> int
    recommends
        b.len() == 2,
{
    0x100 * (b[0] as int) + b[1] as int
}

/// The value stored in a 32-bit big-endian field.
pub open spec fn be32_val(b: Seq<u8>) -> int
    recommends
        b.len() == 4,
{
    0x1000000 * (b[0] as int) + 0x10000 * (b[1] as int) + 0x100 * (b[2] as int) + b[3] as int
}

/// Splits `n` into its base-256 digits: the ground fact behind every
/// round-trip lemma below.
proof fn lemma_byte_split(n: u32)
    ensures
        n == (n % 0x100) + 0x100 * ((n / 0x100) % 0x100) + 0x10000 * ((n / 0x10000) % 0x100)
            + 0x1000000 * (n / 0x1000000),
        n / 0x1000000 < 0x100,
{
    let x = n as int;
    lemma_fundamental_div_mod(x, 0x100);
    lemma_fundamental_div_mod(x / 0x100, 0x100);
    lemma_div_denominator(x, 0x100, 0x100);
    lemma_fundamental_div_mod(x / 0x10000, 0x100);
    lemma_div_denominator(x, 0x10000, 0x100);
}

/// A 32-bit little-endian field decodes to the value it was written from.
pub proof fn lemma_le32_round(n: u32)
    ensures
        le32_val(le32_bytes(n)) == n,
{
    lemma_byte_split(n);
}

/// A 24-bit little-endian field decodes to the value it was written from.
pub proof fn lemma_le24_round(n: u32)
    requires
        n < 0x1000000,
    ensures
        le24_val(le24_bytes(n)) == n,
{
    lemma_byte_split(n);
}

/// A 16-bit big-endian field decodes to the value it was written from.
pub proof fn lemma_be16_round(n: u16)
    ensures
        be16_val(be16_bytes(n)) == n,
{
    lemma_fundamental_div_mod(n as int, 0x100);
}

/// A 32-bit big-endian field decodes to the value it was written from.
pub proof fn lemma_be32_round(n: u32)
    ensures
        be32_val(be32_bytes(n)) == n,
{
    lemma_byte_split(n);
}

/// Appends the 32-bit little-endian encoding of `n`.
pub fn push_le32(v: &mut Vec<u8>, n: u32)
    ensures
        final(v)@ == old(v)@ + le32_bytes(n),
{
    v.push((n % 0x100) as u8);
    v.push((n / 0x100 % 0x100) as u8);
    v.push((n / 0x10000 % 0x100) as u8);
    v.push((n / 0x1000000) as u8);
    proof {
        assert(v@ =~= old(v)@ + le32_bytes(n));
    }
}

/// Appends the 24-bit little-endian encoding of `n`.
pub fn push_le24(v: &mut Vec<u8>, n: u32)
    requires
        n < 0x1000000,
    ensures
        final(v)@ == old(v)@ + le24_bytes(n),
{
    v.push((n % 0x100) as u8);
    v.push((n / 0x100 % 0x100) as u8);
    v.push((n / 0x10000 % 0x100) as u8);
    proof {
        assert(v@ =~= old(v)@ + le24_bytes(n));
    }
}

/// Appends the 16-bit big-endian encoding of `n`.
pub fn push_be16(v: &mut Vec<u8>, n: u16)
    ensures
        final(v)@ == old(v)@ + be16_bytes(n),
{
    v.push((n / 0x100) as u8);
    v.push((n % 0x100) as u8);
    proof {
        assert(v@ =~= old(v)@ + be16_bytes(n));
    }
}

/// Appends the 32-bit big-endian encoding of `n`.
pub fn push_be32(v: &mut Vec<u8>, n: u32)
    ensures
        final(v)@ == old(v)@ + be32_bytes(n),
{
    v.push((n / 0x1000000) as u8);
    v.push((n / 0x10000 % 0x100) as u8);
    v.push((n / 0x100 % 0x100) as u8);
    v.push((n % 0x100) as u8);
    proof {
        assert(v@ =~= old(v)@ + be32_bytes(n));
    }
}

} // verus!
