//! Builds a self-contained TIFF/EXIF block that carries one free-text
//! annotation as a user comment.
//!
//! The block has a fixed shape: a big-endian TIFF header, one top-level
//! directory whose single entry points at an Exif sub-directory, and that
//! sub-directory's single user-comment entry, whose value is the ASCII
//! marker `"UNICODE\0"` followed by the annotation in big-endian UTF-16.
//! Every offset inside the block counts from the block's first byte.

use crate::bytes::{be16_bytes, be16_val, be32_bytes, be32_val, push_be16, push_be32};
use vstd::arithmetic::div_mod::lemma_fundamental_div_mod;
use vstd::prelude::*;

verus! {

/// The big-endian UTF-16 code units of one character: one unit for the
/// basic plane, a surrogate pair above it.
pub open spec fn utf16_units(c: char) -> Seq<u16> {
    let v = c as u32;
    if v < 0x10000 {
        seq![v as u16]
    } else {
        seq![
            (0xD800 + (v - 0x10000) / 0x400) as u16,
            (0xDC00 + (v - 0x10000) % 0x400) as u16,
        ]
    }
}

/// The UTF-16 code units of a whole string, in order.
pub open spec fn utf16_units_seq(s: Seq<char>) -> Seq<u16>
    decreases s.len(),
{
    if s.len() == 0 {
        Seq::empty()
    } else {
        utf16_units(s[0]) + utf16_units_seq(s.drop_first())
    }
}

/// A sequence of 16-bit units laid out as big-endian bytes.
pub open spec fn be16_seq(u: Seq<u16>) -> Seq<u8>
    decreases u.len(),
{
    if u.len() == 0 {
        Seq::empty()
    } else {
        be16_bytes(u[0]) + be16_seq(u.drop_first())
    }
}

/// The annotation encoded as big-endian UTF-16 bytes.
pub open spec fn utf16be_bytes(s: Seq<char>) -> Seq<u8> {
    be16_seq(utf16_units_seq(s))
}

pub proof fn lemma_utf16_units_seq_append(a: Seq<char>, b: Seq<char>)
    ensures
        utf16_units_seq(a + b) == utf16_units_seq(a) + utf16_units_seq(b),
    decreases a.len(),
{
    if a.len() == 0 {
        assert(a + b =~= b);
        assert(utf16_units_seq(a) + utf16_units_seq(b) =~= utf16_units_seq(b));
    } else {
        assert((a + b).drop_first() =~= a.drop_first() + b);
        lemma_utf16_units_seq_append(a.drop_first(), b);
        assert(utf16_units(a[0]) + (utf16_units_seq(a.drop_first()) + utf16_units_seq(b))
            =~= utf16_units_seq(a) + utf16_units_seq(b));
    }
}

pub proof fn lemma_be16_seq_append(a: Seq<u16>, b: Seq<u16>)
    ensures
        be16_seq(a + b) == be16_seq(a) + be16_seq(b),
    decreases a.len(),
{
    if a.len() == 0 {
        assert(a + b =~= b);
        assert(be16_seq(a) + be16_seq(b) =~= be16_seq(b));
    } else {
        assert((a + b).drop_first() =~= a.drop_first() + b);
        lemma_be16_seq_append(a.drop_first(), b);
        assert(be16_bytes(a[0]) + (be16_seq(a.drop_first()) + be16_seq(b))
            =~= be16_seq(a) + be16_seq(b));
    }
}

pub proof fn lemma_be16_seq_len(u: Seq<u16>)
    ensures
        be16_seq(u).len() == 2 * u.len(),
    decreases u.len(),
{
    if u.len() > 0 {
        lemma_be16_seq_len(u.drop_first());
    }
}

pub proof fn lemma_be16_seq_singleton(x: u16)
    ensures
        be16_seq(seq![x]) == be16_bytes(x),
{
    assert(seq![x].drop_first() =~= Seq::<u16>::empty());
    assert(be16_seq(Seq::<u16>::empty()) =~= Seq::<u8>::empty());
    assert(be16_seq(seq![x]) =~= be16_bytes(x));
}

pub proof fn lemma_be16_seq_pair(x: u16, y: u16)
    ensures
        be16_seq(seq![x, y]) == be16_bytes(x) + be16_bytes(y),
{
    assert(seq![x, y].drop_first() =~= seq![y]);
    lemma_be16_seq_singleton(y);
    assert(be16_seq(seq![x, y]) =~= be16_bytes(x) + be16_bytes(y));
}

pub proof fn lemma_utf16_units_seq_singleton(c: char)
    ensures
        utf16_units_seq(seq![c]) == utf16_units(c),
{
    assert(seq![c].drop_first() =~= Seq::<char>::empty());
    assert(utf16_units_seq(Seq::<char>::empty()) =~= Seq::<u16>::empty());
    assert(utf16_units_seq(seq![c]) =~= utf16_units(c));
}

/// Encodes the given text as big-endian UTF-16 and returns it as bytes.
pub fn encode_utf16(v: &str) -> (r: Vec<u8>)
    ensures
        r@ == utf16be_bytes(v@),
        r@.len() == 2 * utf16_units_seq(v@).len(),
{
    let n = v.unicode_len();
    let mut out: Vec<u8> = Vec::new();
    let mut i: usize = 0;
    proof {
        assert(v@.take(0) =~= Seq::<char>::empty());
    }
    while i < n
        invariant
            n == v@.len(),
            i <= n,
            out@ == be16_seq(utf16_units_seq(v@.take(i as int))),
        decreases n - i,
    {
        let c = v.get_char(i);
        let code = c as u32;
        proof {
            vstd::utf8::char_is_scalar(c);
            assert(v@.take(i + 1) =~= v@.take(i as int) + seq![v@[i as int]]);
            lemma_utf16_units_seq_append(v@.take(i as int), seq![v@[i as int]]);
            lemma_utf16_units_seq_singleton(c);
            lemma_be16_seq_append(utf16_units_seq(v@.take(i as int)), utf16_units(c));
        }
        if code < 0x10000 {
            proof {
                lemma_be16_seq_singleton(code as u16);
                assert(utf16_units(c) =~= seq![code as u16]);
            }
            push_be16(&mut out, code as u16);
        } else {
            proof {
                lemma_fundamental_div_mod((code - 0x10000) as int, 0x400);
            }
            let w = code - 0x10000;
            let hi = (0xD800 + w / 0x400) as u16;
            let lo = (0xDC00 + w % 0x400) as u16;
            proof {
                lemma_be16_seq_pair(hi, lo);
                assert(utf16_units(c) =~= seq![hi, lo]);
            }
            push_be16(&mut out, hi);
            push_be16(&mut out, lo);
        }
        i = i + 1;
    }
    proof {
        assert(v@.take(n as int) =~= v@);
        lemma_be16_seq_len(utf16_units_seq(v@));
    }
    out
}

/// The eight-byte character-encoding marker that precedes the comment text.
pub open spec fn unicode_tag() -> Seq<u8> {
    seq![0x55u8, 0x4Eu8, 0x49u8, 0x43u8, 0x4Fu8, 0x44u8, 0x45u8, 0x00u8]
}

/// The fixed first 32 bytes of the block: TIFF header (big-endian marker,
/// magic 42, first directory at offset 8), the top-level directory with
/// its single pointer entry (Exif sub-directory at offset 26, no further
/// top-level directory), and the sub-directory's entry count and the
/// user-comment entry's tag and type.
pub open spec fn tiff_prefix() -> Seq<u8> {
    seq![
        0x4Du8, 0x4Du8, 0x00u8, 0x2Au8,
        0x00u8, 0x00u8, 0x00u8, 0x08u8,
        0x00u8, 0x01u8,
        0x87u8, 0x69u8, 0x00u8, 0x04u8,
        0x00u8, 0x00u8, 0x00u8, 0x01u8,
        0x00u8, 0x00u8, 0x00u8, 0x1Au8,
        0x00u8, 0x00u8, 0x00u8, 0x00u8,
        0x00u8, 0x01u8,
        0x92u8, 0x86u8, 0x00u8, 0x07u8,
    ]
}

/// The comment payload: encoding marker, then the UTF-16 text.
pub open spec fn comment_payload(s: Seq<char>) -> Seq<u8> {
    unicode_tag() + utf16be_bytes(s)
}

/// The complete TIFF/EXIF block for annotation `s`: the fixed prefix, the
/// comment byte count, the offset of the comment payload (44), a zero
/// next-directory field, then the payload itself.
pub open spec fn exif_bytes(s: Seq<char>) -> Seq<u8> {
    tiff_prefix() + be32_bytes(comment_payload(s).len() as u32) + seq![
        0x00u8, 0x00u8, 0x00u8, 0x2Cu8,
        0x00u8, 0x00u8, 0x00u8, 0x00u8,
    ] + comment_payload(s)
}

/// Creates the EXIF block holding the given text as a user comment.
pub fn exif(value: &str) -> (r: Vec<u8>)
    ensures
        r@ == exif_bytes(value@),
{
    let mut payload: Vec<u8> = Vec::new();
    payload.push(0x55);
    payload.push(0x4E);
    payload.push(0x49);
    payload.push(0x43);
    payload.push(0x4F);
    payload.push(0x44);
    payload.push(0x45);
    payload.push(0x00);
    let mut text = encode_utf16(value);
    proof {
        assert(payload@ =~= unicode_tag());
    }
    payload.append(&mut text);
    let count: u32 = #[verifier::truncate] (payload.len() as u32);

    let mut out: Vec<u8> = Vec::new();
    out.push(0x4D);
    out.push(0x4D);
    out.push(0x00);
    out.push(0x2A);
    out.push(0x00);
    out.push(0x00);
    out.push(0x00);
    out.push(0x08);
    out.push(0x00);
    out.push(0x01);
    out.push(0x87);
    out.push(0x69);
    out.push(0x00);
    out.push(0x04);
    out.push(0x00);
    out.push(0x00);
    out.push(0x00);
    out.push(0x01);
    out.push(0x00);
    out.push(0x00);
    out.push(0x00);
    out.push(0x1A);
    out.push(0x00);
    out.push(0x00);
    out.push(0x00);
    out.push(0x00);
    out.push(0x00);
    out.push(0x01);
    out.push(0x92);
    out.push(0x86);
    out.push(0x00);
    out.push(0x07);
    proof {
        assert(out@ =~= tiff_prefix());
    }
    push_be32(&mut out, count);
    out.push(0x00);
    out.push(0x00);
    out.push(0x00);
    out.push(0x2C);
    out.push(0x00);
    out.push(0x00);
    out.push(0x00);
    out.push(0x00);
    out.append(&mut payload);
    proof {
        assert(out@ =~= exif_bytes(value@));
    }
    out
}

// ----------------------------------------------------------------------
// Decoding, for the round-trip law: following the offsets of the built
// block and decoding the comment recovers the annotation exactly.

/// Pairs big-endian bytes back into 16-bit units.
pub open spec fn be16_units_of(b: Seq<u8>) -> Seq<u16>
    recommends
        b.len() % 2 == 0,
    decreases b.len(),
{
    if b.len() < 2 {
        Seq::empty()
    } else {
        seq![be16_val(b.subrange(0, 2)) as u16] + be16_units_of(b.skip(2))
    }
}

/// Decodes a sequence of UTF-16 code units; `None` on a lone or misplaced
/// surrogate.
pub open spec fn utf16_decode_units(u: Seq<u16>) -> Option<Seq<char>>
    decreases u.len(),
{
    if u.len() == 0 {
        Some(Seq::empty())
    } else if u[0] < 0xD800 || u[0] >= 0xE000 {
        match utf16_decode_units(u.drop_first()) {
            Some(rest) => Some(seq![(u[0] as u32) as char] + rest),
            None => None,
        }
    } else if u[0] < 0xDC00 && u.len() >= 2 && 0xDC00 <= u[1] < 0xE000 {
        let cp = (0x10000 + 0x400 * (u[0] as int - 0xD800) + (u[1] as int - 0xDC00)) as u32;
        match utf16_decode_units(u.skip(2)) {
            Some(rest) => Some(seq![cp as char] + rest),
            None => None,
        }
    } else {
        None
    }
}

/// Decodes a big-endian UTF-16 byte stream.
pub open spec fn utf16be_decode(b: Seq<u8>) -> Option<Seq<char>> {
    if b.len() % 2 == 0 {
        utf16_decode_units(be16_units_of(b))
    } else {
        None
    }
}

pub proof fn lemma_be16_units_round(u: Seq<u16>)
    ensures
        be16_units_of(be16_seq(u)) == u,
    decreases u.len(),
{
    if u.len() == 0 {
        assert(be16_units_of(be16_seq(u)) =~= u);
    } else {
        let b = be16_seq(u);
        lemma_be16_seq_len(u);
        lemma_be16_seq_len(u.drop_first());
        assert(b.subrange(0, 2) =~= be16_bytes(u[0]));
        crate::bytes::lemma_be16_round(u[0]);
        assert(b.skip(2) =~= be16_seq(u.drop_first()));
        lemma_be16_units_round(u.drop_first());
        assert(seq![u[0]] + u.drop_first() =~= u);
    }
}

/// Decoding undoes encoding, one string at a time.
pub proof fn lemma_utf16_units_round(s: Seq<char>)
    ensures
        utf16_decode_units(utf16_units_seq(s)) == Some(s),
    decreases s.len(),
{
    if s.len() == 0 {
        assert(utf16_units_seq(s).len() == 0);
    } else {
        let c = s[0];
        let v = c as u32;
        let u = utf16_units_seq(s);
        vstd::utf8::char_is_scalar(c);
        lemma_utf16_units_round(s.drop_first());
        if v < 0x10000 {
            assert(u.drop_first() =~= utf16_units_seq(s.drop_first()));
            assert(u[0] == (v as u16));
            assert((u[0] as u32) == v);
            vstd::utf8::char_u32_cast(c, v);
            assert(seq![(u[0] as u32) as char] + s.drop_first() =~= s);
        } else {
            let w = v - 0x10000;
            lemma_fundamental_div_mod(w, 0x400);
            assert(w / 0x400 < 0x400);
            let hi = (0xD800 + w / 0x400) as u16;
            let lo = (0xDC00 + w % 0x400) as u16;
            assert(u[0] == hi && u[1] == lo);
            assert(0xD800 <= hi < 0xDC00);
            assert(0xDC00 <= lo < 0xE000);
            assert(u.skip(2) =~= utf16_units_seq(s.drop_first()));
            let cp = (0x10000 + 0x400 * (u[0] as int - 0xD800) + (u[1] as int - 0xDC00)) as u32;
            assert(cp == v);
            vstd::utf8::char_u32_cast(c, cp);
            assert(seq![cp as char] + s.drop_first() =~= s);
        }
    }
}

/// Round trip through the built block: the header's offset field lands on
/// the first directory, the pointer entry lands on the Exif directory,
/// the user-comment entry's count and offset delimit the comment payload,
/// and the payload — its marker stripped — decodes back to `s` exactly.
pub proof fn lemma_exif_round_trip(s: Seq<char>)
    requires
        8 + 2 * utf16_units_seq(s).len() <= u32::MAX,
    ensures
        ({
            let b = exif_bytes(s);
            &&& b.len() == 52 + 2 * utf16_units_seq(s).len()
            &&& be32_val(b.subrange(4, 8)) == 8
            &&& be16_val(b.subrange(8, 10)) == 1
            &&& be32_val(b.subrange(18, 22)) == 26
            &&& be16_val(b.subrange(26, 28)) == 1
            &&& be32_val(b.subrange(32, 36)) == b.len() - 44
            &&& be32_val(b.subrange(36, 40)) == 44
            &&& b.subrange(44, 52) == unicode_tag()
            &&& utf16be_decode(b.subrange(52, b.len() as int)) == Some(s)
        }),
{
    let b = exif_bytes(s);
    lemma_be16_seq_len(utf16_units_seq(s));
    let count = comment_payload(s).len() as u32;
    crate::bytes::lemma_be32_round(count);
    assert(b.subrange(4, 8) =~= seq![0x00u8, 0x00u8, 0x00u8, 0x08u8]);
    assert(b.subrange(8, 10) =~= seq![0x00u8, 0x01u8]);
    assert(b.subrange(18, 22) =~= seq![0x00u8, 0x00u8, 0x00u8, 0x1Au8]);
    assert(b.subrange(26, 28) =~= seq![0x00u8, 0x01u8]);
    assert(b.subrange(32, 36) =~= be32_bytes(count));
    assert(b.subrange(36, 40) =~= seq![0x00u8, 0x00u8, 0x00u8, 0x2Cu8]);
    assert(b.subrange(44, 52) =~= unicode_tag());
    assert(b.subrange(52, b.len() as int) =~= utf16be_bytes(s));
    lemma_be16_units_round(utf16_units_seq(s));
    lemma_utf16_units_round(s);
}

} // verus!
