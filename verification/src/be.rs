//! Big-endian byte-level primitives shared by both binary codecs.
//!
//! The byte work itself is done by the `byteorder` crate; every call into it
//! goes through a trusted wrapper whose contract states the exact bytes that
//! the crate's documentation and source promise (most significant byte
//! first).

use vstd::prelude::*;

use byteorder::ByteOrder;

verus! {

/// The two big-endian bytes of `n`, high byte first.
pub open spec fn be2(n: u16) -> Seq<u8> {
    seq![(n >> 8) as u8, n as u8]
}

/// The four big-endian bytes of `n`, high byte first.
pub open spec fn be4(n: u32) -> Seq<u8> {
    seq![(n >> 24) as u8, (n >> 16) as u8, (n >> 8) as u8, n as u8]
}

/// The eight big-endian bytes of `n`, high byte first.
pub open spec fn be8(n: u64) -> Seq<u8> {
    seq![
        (n >> 56) as u8,
        (n >> 48) as u8,
        (n >> 40) as u8,
        (n >> 32) as u8,
        (n >> 24) as u8,
        (n >> 16) as u8,
        (n >> 8) as u8,
        n as u8,
    ]
}

/// The value whose big-endian bytes are `b0`, `b1`.
pub open spec fn u16_of_be(b0: u8, b1: u8) -> u16 {
    (((b0 as u16) << 8) | (b1 as u16)) as u16
}

/// The value whose big-endian bytes are `b0` .. `b3`.
pub open spec fn u32_of_be(b0: u8, b1: u8, b2: u8, b3: u8) -> u32 {
    (((b0 as u32) << 24) | ((b1 as u32) << 16) | ((b2 as u32) << 8) | (b3 as u32)) as u32
}

/// The value whose big-endian bytes are `b0` .. `b7`.
pub open spec fn u64_of_be(
    b0: u8,
    b1: u8,
    b2: u8,
    b3: u8,
    b4: u8,
    b5: u8,
    b6: u8,
    b7: u8,
) -> u64 {
    (((b0 as u64) << 56) | ((b1 as u64) << 48) | ((b2 as u64) << 40) | ((b3 as u64) << 32) | ((
    b4 as u64) << 24) | ((b5 as u64) << 16) | ((b6 as u64) << 8) | (b7 as u64)) as u64
}

/// Reading back the four big-endian bytes of a value yields the value.
pub proof fn lemma_be4_round(n: u32)
    ensures
        u32_of_be(be4(n)[0], be4(n)[1], be4(n)[2], be4(n)[3]) == n,
{
    assert((((((n >> 24) as u8) as u32) << 24) | ((((n >> 16) as u8) as u32) << 16) | ((((n
        >> 8) as u8) as u32) << 8) | ((n as u8) as u32)) == n) by (bit_vector);
}

/// Reading back the eight big-endian bytes of a value yields the value.
pub proof fn lemma_be8_round(n: u64)
    ensures
        u64_of_be(
            be8(n)[0],
            be8(n)[1],
            be8(n)[2],
            be8(n)[3],
            be8(n)[4],
            be8(n)[5],
            be8(n)[6],
            be8(n)[7],
        ) == n,
{
    assert((((((n >> 56) as u8) as u64) << 56) | ((((n >> 48) as u8) as u64) << 48) | ((((n
        >> 40) as u8) as u64) << 40) | ((((n >> 32) as u8) as u64) << 32) | ((((n
        >> 24) as u8) as u64) << 24) | ((((n >> 16) as u8) as u64) << 16) | ((((n
        >> 8) as u8) as u64) << 8) | ((n as u8) as u64)) == n) by (bit_vector);
}

/// Relies on byteorder's `BigEndian::write_u16`, which stores the two bytes
/// of `n` in big-endian order (most significant byte first).
#[verifier::external_body]
pub fn be_push_u16(out: &mut Vec<u8>, n: u16)
    ensures
        final(out)@ == old(out)@ + be2(n),
{
    let mut buf = [0u8; 2];
    byteorder::BigEndian::write_u16(&mut buf, n);
    out.extend_from_slice(&buf);
}

/// Relies on byteorder's `BigEndian::write_u32`, which stores the four bytes
/// of `n` in big-endian order (most significant byte first).
#[verifier::external_body]
pub fn be_push_u32(out: &mut Vec<u8>, n: u32)
    ensures
        final(out)@ == old(out)@ + be4(n),
{
    let mut buf = [0u8; 4];
    byteorder::BigEndian::write_u32(&mut buf, n);
    out.extend_from_slice(&buf);
}

/// Relies on byteorder's `BigEndian::write_u64`, which stores the eight bytes
/// of `n` in big-endian order (most significant byte first).
#[verifier::external_body]
pub fn be_push_u64(out: &mut Vec<u8>, n: u64)
    ensures
        final(out)@ == old(out)@ + be8(n),
{
    let mut buf = [0u8; 8];
    byteorder::BigEndian::write_u64(&mut buf, n);
    out.extend_from_slice(&buf);
}

/// Relies on byteorder's `BigEndian::read_u16`: the big-endian value of the
/// first two bytes of the given slice.
#[verifier::external_body]
pub fn be_get_u16(buf: &Vec<u8>, pos: usize) -> (r: u16)
    requires
        pos + 2 <= buf@.len(),
    ensures
        r == u16_of_be(buf@[pos as int], buf@[pos as int + 1]),
{
    byteorder::BigEndian::read_u16(&buf[pos..pos + 2])
}

/// Relies on byteorder's `BigEndian::read_u32`: the big-endian value of the
/// first four bytes of the given slice.
#[verifier::external_body]
pub fn be_get_u32(buf: &Vec<u8>, pos: usize) -> (r: u32)
    requires
        pos + 4 <= buf@.len(),
    ensures
        r == u32_of_be(
            buf@[pos as int],
            buf@[pos as int + 1],
            buf@[pos as int + 2],
            buf@[pos as int + 3],
        ),
{
    byteorder::BigEndian::read_u32(&buf[pos..pos + 4])
}

/// Relies on byteorder's `BigEndian::read_u64`: the big-endian value of the
/// first eight bytes of the given slice.
#[verifier::external_body]
pub fn be_get_u64(buf: &Vec<u8>, pos: usize) -> (r: u64)
    requires
        pos + 8 <= buf@.len(),
    ensures
        r == u64_of_be(
            buf@[pos as int],
            buf@[pos as int + 1],
            buf@[pos as int + 2],
            buf@[pos as int + 3],
            buf@[pos as int + 4],
            buf@[pos as int + 5],
            buf@[pos as int + 6],
            buf@[pos as int + 7],
        ),
{
    byteorder::BigEndian::read_u64(&buf[pos..pos + 8])
}

/// The unsigned two's-complement image of a signed 16-bit value.
pub open spec fn i16_as_u16(x: i16) -> u16 {
    if x >= 0 {
        x as u16
    } else {
        (x + 0x10000) as u16
    }
}

/// The signed value whose two's-complement image is `u`.
pub open spec fn u16_as_i16(u: u16) -> i16 {
    if u < 0x8000 {
        u as i16
    } else {
        (u - 0x10000) as i16
    }
}

/// The unsigned two's-complement image of a signed 32-bit value.
pub open spec fn i32_as_u32(x: i32) -> u32 {
    if x >= 0 {
        x as u32
    } else {
        (x + 0x1_0000_0000) as u32
    }
}

/// The signed value whose two's-complement image is `u`.
pub open spec fn u32_as_i32(u: u32) -> i32 {
    if u < 0x8000_0000 {
        u as i32
    } else {
        (u - 0x1_0000_0000) as i32
    }
}

/// The unsigned two's-complement image of a signed 64-bit value.
pub open spec fn i64_as_u64(x: i64) -> u64 {
    if x >= 0 {
        x as u64
    } else {
        (x + 0x1_0000_0000_0000_0000) as u64
    }
}

/// The signed value whose two's-complement image is `u`.
pub open spec fn u64_as_i64(u: u64) -> i64 {
    if u < 0x8000_0000_0000_0000 {
        u as i64
    } else {
        (u - 0x1_0000_0000_0000_0000) as i64
    }
}

pub fn i16_to_u16(x: i16) -> (r: u16)
    ensures
        r == i16_as_u16(x),
        u16_as_i16(r) == x,
{
    if x >= 0 {
        x as u16
    } else {
        ((x as i32) + 0x10000) as u16
    }
}

pub fn u16_to_i16(u: u16) -> (r: i16)
    ensures
        r == u16_as_i16(u),
{
    if u < 0x8000 {
        u as i16
    } else {
        ((u as i32) - 0x10000) as i16
    }
}

pub fn i32_to_u32(x: i32) -> (r: u32)
    ensures
        r == i32_as_u32(x),
        u32_as_i32(r) == x,
{
    if x >= 0 {
        x as u32
    } else {
        ((x as i64) + 0x1_0000_0000) as u32
    }
}

pub fn u32_to_i32(u: u32) -> (r: i32)
    ensures
        r == u32_as_i32(u),
{
    if u < 0x8000_0000 {
        u as i32
    } else {
        ((u as i64) - 0x1_0000_0000) as i32
    }
}

pub fn i64_to_u64(x: i64) -> (r: u64)
    ensures
        r == i64_as_u64(x),
        u64_as_i64(r) == x,
{
    if x >= 0 {
        x as u64
    } else {
        ((x as i128) + 0x1_0000_0000_0000_0000) as u64
    }
}

pub fn u64_to_i64(u: u64) -> (r: i64)
    ensures
        r == u64_as_i64(u),
{
    if u < 0x8000_0000_0000_0000 {
        u as i64
    } else {
        ((u as i128) - 0x1_0000_0000_0000_0000) as i64
    }
}

/// The big-endian image of a signed 16-bit value.
pub open spec fn be2i(x: i16) -> Seq<u8> {
    be2(i16_as_u16(x))
}

/// The big-endian image of a signed 32-bit value.
pub open spec fn be4i(x: i32) -> Seq<u8> {
    be4(i32_as_u32(x))
}

/// The big-endian image of a signed 64-bit value.
pub open spec fn be8i(x: i64) -> Seq<u8> {
    be8(i64_as_u64(x))
}

pub fn be_push_i16(out: &mut Vec<u8>, x: i16)
    ensures
        final(out)@ == old(out)@ + be2i(x),
{
    be_push_u16(out, i16_to_u16(x));
}

pub fn be_push_i32(out: &mut Vec<u8>, x: i32)
    ensures
        final(out)@ == old(out)@ + be4i(x),
{
    be_push_u32(out, i32_to_u32(x));
}

pub fn be_push_i64(out: &mut Vec<u8>, x: i64)
    ensures
        final(out)@ == old(out)@ + be8i(x),
{
    be_push_u64(out, i64_to_u64(x));
}

} // verus!
