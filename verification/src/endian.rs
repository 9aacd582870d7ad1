//! Fixed-width integers on the wire.
//!
//! The byte layouts are stated as spec functions; the executable conversions
//! are done by the `byteorder` crate.

use byteorder::{BigEndian, ByteOrder, LittleEndian};
use vstd::prelude::*;

verus! {

/// The `u16` whose big-endian encoding is the first two bytes of `s`.
pub open spec fn spec_u16_be(s: Seq<u8>) -> u16
    recommends
        s.len() >= 2,
{
    (s[0] as int * 256 + s[1] as int) as u16
}

/// The `u32` whose little-endian encoding is the first four bytes of `s`.
pub open spec fn spec_u32_le(s: Seq<u8>) -> u32
    recommends
        s.len() >= 4,
{
    (s[0] as int + s[1] as int * 256 + s[2] as int * 65536 + s[3] as int * 16777216) as u32
}

/// The two bytes of `n`, most significant first.
pub open spec fn spec_u16_be_bytes(n: u16) -> Seq<u8> {
    seq![(n / 256) as u8, (n % 256) as u8]
}

/// The four bytes of `n`, least significant first.
pub open spec fn spec_u32_le_bytes(n: u32) -> Seq<u8> {
    seq![
        (n % 256) as u8,
        ((n / 256) % 256) as u8,
        ((n / 65536) % 256) as u8,
        (n / 16777216) as u8,
    ]
}

/// Decoding the big-endian bytes of a `u16` gives the number back, whatever
/// follows them.
pub proof fn lemma_u16_be_round_trip(n: u16, rest: Seq<u8>)
    ensures
        spec_u16_be(spec_u16_be_bytes(n) + rest) == n,
        spec_u16_be_bytes(n).len() == 2,
{
    let s = spec_u16_be_bytes(n) + rest;
    assert(s[0] == (n / 256) as u8);
    assert(s[1] == (n % 256) as u8);
}

/// Decoding the little-endian bytes of a `u32` gives the number back,
/// whatever follows them.
pub proof fn lemma_u32_le_round_trip(n: u32, rest: Seq<u8>)
    ensures
        spec_u32_le(spec_u32_le_bytes(n) + rest) == n,
        spec_u32_le_bytes(n).len() == 4,
{
    let s = spec_u32_le_bytes(n) + rest;
    assert(s[0] == (n % 256) as u8);
    assert(s[1] == ((n / 256) % 256) as u8);
    assert(s[2] == ((n / 65536) % 256) as u8);
    assert(s[3] == (n / 16777216) as u8);
}

/// Encoding the number read from two bytes gives those two bytes back.
pub proof fn lemma_u16_be_bytes_of_read(s: Seq<u8>)
    requires
        s.len() >= 2,
    ensures
        spec_u16_be_bytes(spec_u16_be(s)) == s.subrange(0, 2),
{
    assert(spec_u16_be_bytes(spec_u16_be(s)) =~= s.subrange(0, 2));
}

/// Calls `<byteorder::BigEndian as ByteOrder>::read_u16`, which builds the
/// number from the first two bytes of `buf`, most significant first, and
/// panics on a shorter slice.
#[verifier::external_body]
pub(crate) fn u16_from_be(buf: &[u8]) -> (n: u16)
    requires
        buf@.len() >= 2,
    ensures
        n == spec_u16_be(buf@),
{
    BigEndian::read_u16(buf)
}

/// Calls `<byteorder::LittleEndian as ByteOrder>::read_u32`, which builds the
/// number from the first four bytes of `buf`, least significant first, and
/// panics on a shorter slice.
#[verifier::external_body]
pub(crate) fn u32_from_le(buf: &[u8]) -> (n: u32)
    requires
        buf@.len() >= 4,
    ensures
        n == spec_u32_le(buf@),
{
    LittleEndian::read_u32(buf)
}

/// Calls `<byteorder::BigEndian as ByteOrder>::write_u16` on a two-byte
/// array, which it fills with the bytes of `n`, most significant first.
#[verifier::external_body]
pub(crate) fn u16_to_be(n: u16) -> (bytes: [u8; 2])
    ensures
        bytes@ == spec_u16_be_bytes(n),
{
    let mut bytes = [0u8; 2];
    BigEndian::write_u16(&mut bytes, n);
    bytes
}

/// Calls `<byteorder::LittleEndian as ByteOrder>::write_u32` on a four-byte
/// array, which it fills with the bytes of `n`, least significant first.
#[verifier::external_body]
pub(crate) fn u32_to_le(n: u32) -> (bytes: [u8; 4])
    ensures
        bytes@ == spec_u32_le_bytes(n),
{
    let mut bytes = [0u8; 4];
    LittleEndian::write_u32(&mut bytes, n);
    bytes
}

/// Appends the big-endian bytes of `n` to `out`.
pub fn put_u16_be(out: &mut Vec<u8>, n: u16)
    ensures
        final(out)@ == old(out)@ + spec_u16_be_bytes(n),
{
    let bytes: [u8; 2] = u16_to_be(n);
    out.push(bytes[0]);
    out.push(bytes[1]);
    assert(out@ =~= old(out)@ + spec_u16_be_bytes(n));
}

/// Appends the little-endian bytes of `n` to `out`.
pub fn put_u32_le(out: &mut Vec<u8>, n: u32)
    ensures
        final(out)@ == old(out)@ + spec_u32_le_bytes(n),
{
    let bytes: [u8; 4] = u32_to_le(n);
    out.push(bytes[0]);
    out.push(bytes[1]);
    out.push(bytes[2]);
    out.push(bytes[3]);
    assert(out@ =~= old(out)@ + spec_u32_le_bytes(n));
}

} // verus!
