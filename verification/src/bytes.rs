//! Big-endian integers on the wire, and bytes as text.
//!
//! Readers take the whole buffer and an offset into it. A reader fails with
//! `Incomplete` exactly when the buffer ends before the last byte it needs.
//! Writers append to a vector.
//!
//! The integers are read by `nom` and written by `byteorder`, and bytes are
//! turned into text by `std`. What is taken on trust of each is said where it
//! is called.

use crate::errors::ParseError;
use byteorder::ByteOrder;
use vstd::prelude::*;
use vstd::slice::slice_subrange;
use vstd::string::StringSliceAdditionalSpecFns;
use vstd::utf8::{decode_utf8, encode_utf8, is_ascii_chars, valid_utf8};

verus! {

/// The 16-bit value whose high byte is `hi` and whose low byte is `lo`.
pub open spec fn u16_of(hi: u8, lo: u8) -> u16 {
    (hi as int * 0x100 + lo as int) as u16
}

/// The 32-bit value of four bytes, most significant first.
pub open spec fn u32_of(b0: u8, b1: u8, b2: u8, b3: u8) -> u32 {
    (b0 as int * 0x100_0000 + b1 as int * 0x1_0000 + b2 as int * 0x100 + b3 as int) as u32
}

/// The signed value of a 32-bit two's complement pattern.
pub open spec fn i32_of_bits(u: u32) -> i32 {
    if u < 0x8000_0000 {
        u as i32
    } else {
        (u as int - 0x1_0000_0000) as i32
    }
}

/// The two's complement pattern of a signed 32-bit value.
pub open spec fn bits_of_i32(v: i32) -> u32 {
    if v >= 0 {
        v as u32
    } else {
        (v as int + 0x1_0000_0000) as u32
    }
}

/// The two bytes of `v`, most significant first.
pub open spec fn u16_bytes(v: u16) -> Seq<u8> {
    seq![(v as int / 0x100) as u8, (v as int % 0x100) as u8]
}

/// The four bytes of `v`, most significant first.
pub open spec fn u32_bytes(v: u32) -> Seq<u8> {
    seq![
        (v as int / 0x100_0000) as u8,
        (v as int / 0x1_0000 % 0x100) as u8,
        (v as int / 0x100 % 0x100) as u8,
        (v as int % 0x100) as u8,
    ]
}

/// The four bytes of the two's complement pattern of `v`.
pub open spec fn i32_bytes(v: i32) -> Seq<u8> {
    u32_bytes(bits_of_i32(v))
}

/// The 16-bit big-endian value at `pos`.
pub open spec fn u16_at(data: Seq<u8>, pos: int) -> u16 {
    u16_of(data[pos], data[pos + 1])
}

/// The 32-bit big-endian value at `pos`.
pub open spec fn u32_at(data: Seq<u8>, pos: int) -> u32 {
    u32_of(data[pos], data[pos + 1], data[pos + 2], data[pos + 3])
}

/// The signed 32-bit big-endian value at `pos`.
pub open spec fn i32_at(data: Seq<u8>, pos: int) -> i32 {
    i32_of_bits(u32_at(data, pos))
}

/// Calls `nom::number::complete::be_u16` on a byte slice and keeps the value.
/// Trusted: nom fails when fewer than two bytes are left, and otherwise folds
/// the first two bytes, most significant first.
#[verifier::external_body]
fn nom_be_u16(input: &[u8]) -> (r: Option<u16>)
    ensures
        input@.len() < 2 ==> r is None,
        input@.len() >= 2 ==> r == Some(u16_of(input@[0], input@[1])),
{
    match nom::number::complete::be_u16::<&[u8], nom::error::Error<&[u8]>>(input) {
        Ok((_, value)) => Some(value),
        Err(_) => None,
    }
}

/// Calls `nom::number::complete::be_u32` on a byte slice and keeps the value.
/// Trusted: nom fails when fewer than four bytes are left, and otherwise folds
/// the first four bytes, most significant first.
#[verifier::external_body]
fn nom_be_u32(input: &[u8]) -> (r: Option<u32>)
    ensures
        input@.len() < 4 ==> r is None,
        input@.len() >= 4 ==> r == Some(u32_of(input@[0], input@[1], input@[2], input@[3])),
{
    match nom::number::complete::be_u32::<&[u8], nom::error::Error<&[u8]>>(input) {
        Ok((_, value)) => Some(value),
        Err(_) => None,
    }
}

/// Calls `nom::number::complete::be_i32` on a byte slice and keeps the value.
/// Trusted: nom reads as `be_u32` does and reinterprets the 32 bits as a
/// two's complement number.
#[verifier::external_body]
fn nom_be_i32(input: &[u8]) -> (r: Option<i32>)
    ensures
        input@.len() < 4 ==> r is None,
        input@.len() >= 4 ==> r == Some(
            i32_of_bits(u32_of(input@[0], input@[1], input@[2], input@[3])),
        ),
{
    match nom::number::complete::be_i32::<&[u8], nom::error::Error<&[u8]>>(input) {
        Ok((_, value)) => Some(value),
        Err(_) => None,
    }
}

/// Calls `byteorder::BigEndian::write_u16` on a two-byte buffer.
/// Trusted: the buffer then holds the two bytes of `n`, most significant first.
#[verifier::external_body]
fn big_endian_u16(n: u16) -> (out: [u8; 2])
    ensures
        out@ == u16_bytes(n),
{
    let mut buf = [0u8; 2];
    byteorder::BigEndian::write_u16(&mut buf, n);
    buf
}

/// Calls `byteorder::BigEndian::write_u32` on a four-byte buffer.
/// Trusted: the buffer then holds the four bytes of `n`, most significant first.
#[verifier::external_body]
fn big_endian_u32(n: u32) -> (out: [u8; 4])
    ensures
        out@ == u32_bytes(n),
{
    let mut buf = [0u8; 4];
    byteorder::BigEndian::write_u32(&mut buf, n);
    buf
}

/// Calls `byteorder::BigEndian::write_i32` on a four-byte buffer.
/// Trusted: the buffer then holds the two's complement pattern of `n`, most
/// significant byte first.
#[verifier::external_body]
fn big_endian_i32(n: i32) -> (out: [u8; 4])
    ensures
        out@ == i32_bytes(n),
{
    let mut buf = [0u8; 4];
    byteorder::BigEndian::write_i32(&mut buf, n);
    buf
}

/// Calls `std::str::from_utf8`. Trusted: std returns a string exactly when the
/// bytes are valid UTF-8, and the string is then made of those bytes.
#[verifier::external_body]
pub(crate) fn str_from_utf8(bytes: &[u8]) -> (r: Option<&str>)
    ensures
        r is Some <==> valid_utf8(bytes@),
        r matches Some(s) ==> s.spec_bytes() == bytes@,
{
    match std::str::from_utf8(bytes) {
        Ok(s) => Some(s),
        Err(_) => None,
    }
}

/// The bytes as characters, each byte the code of one character.
pub open spec fn ascii(bytes: Seq<u8>) -> Seq<char> {
    bytes.map_values(|b: u8| b as char)
}

/// Bytes below 128 are valid UTF-8, and the text that they encode has one
/// character for each byte.
pub proof fn lemma_ascii_utf8(bytes: Seq<u8>)
    requires
        forall|i: int| 0 <= i < bytes.len() ==> #[trigger] bytes[i] < 128,
    ensures
        valid_utf8(bytes),
        encode_utf8(ascii(bytes)) == bytes,
        decode_utf8(bytes) == ascii(bytes),
{
    let chars = ascii(bytes);
    assert(is_ascii_chars(chars));
    vstd::utf8::is_ascii_chars_encode_utf8(chars);
    assert(encode_utf8(chars) =~= bytes);
    vstd::utf8::encode_utf8_valid_utf8(chars);
    vstd::utf8::encode_utf8_decode_utf8(chars);
}

/// The text of a string that is made of the given valid bytes.
pub proof fn lemma_text_of_bytes(text: Seq<char>, bytes: Seq<u8>)
    requires
        encode_utf8(text) == bytes,
    ensures
        valid_utf8(bytes),
        text == decode_utf8(bytes),
{
    vstd::utf8::encode_utf8_valid_utf8(text);
    vstd::utf8::encode_utf8_decode_utf8(text);
}

/// Reads the byte at `pos`.
pub fn be_u8(data: &[u8], pos: usize) -> (r: Result<u8, ParseError>)
    ensures
        pos < data@.len() ==> r == Ok::<u8, ParseError>(data@[pos as int]),
        pos >= data@.len() ==> r == Err::<u8, ParseError>(ParseError::Incomplete),
{
    if pos < data.len() {
        Ok(data[pos])
    } else {
        Err(ParseError::Incomplete)
    }
}

/// Reads the unsigned 16-bit value at `pos`.
pub fn be_u16(data: &[u8], pos: usize) -> (r: Result<u16, ParseError>)
    ensures
        pos + 2 <= data@.len() ==> r == Ok::<u16, ParseError>(u16_at(data@, pos as int)),
        pos + 2 > data@.len() ==> r == Err::<u16, ParseError>(ParseError::Incomplete),
{
    if pos > data.len() {
        return Err(ParseError::Incomplete);
    }
    match nom_be_u16(slice_subrange(data, pos, data.len())) {
        Some(value) => Ok(value),
        None => Err(ParseError::Incomplete),
    }
}

/// Reads the unsigned 32-bit value at `pos`.
pub fn be_u32(data: &[u8], pos: usize) -> (r: Result<u32, ParseError>)
    ensures
        pos + 4 <= data@.len() ==> r == Ok::<u32, ParseError>(u32_at(data@, pos as int)),
        pos + 4 > data@.len() ==> r == Err::<u32, ParseError>(ParseError::Incomplete),
{
    if pos > data.len() {
        return Err(ParseError::Incomplete);
    }
    match nom_be_u32(slice_subrange(data, pos, data.len())) {
        Some(value) => Ok(value),
        None => Err(ParseError::Incomplete),
    }
}

/// Reads the signed 32-bit value at `pos`.
pub fn be_i32(data: &[u8], pos: usize) -> (r: Result<i32, ParseError>)
    ensures
        pos + 4 <= data@.len() ==> r == Ok::<i32, ParseError>(i32_at(data@, pos as int)),
        pos + 4 > data@.len() ==> r == Err::<i32, ParseError>(ParseError::Incomplete),
{
    if pos > data.len() {
        return Err(ParseError::Incomplete);
    }
    match nom_be_i32(slice_subrange(data, pos, data.len())) {
        Some(value) => Ok(value),
        None => Err(ParseError::Incomplete),
    }
}

/// Borrows the `count` bytes that start at `pos`.
pub fn take(data: &[u8], pos: usize, count: u16) -> (r: Result<&[u8], ParseError>)
    ensures
        pos + count <= data@.len() ==> r is Ok && r->Ok_0@ == data@.subrange(
            pos as int,
            pos + count,
        ),
        pos + count > data@.len() ==> r == Err::<&[u8], ParseError>(ParseError::Incomplete),
{
    if pos > data.len() || data.len() - pos < count as usize {
        Err(ParseError::Incomplete)
    } else {
        Ok(slice_subrange(data, pos, pos + count as usize))
    }
}

/// Appends the two bytes of `v`.
pub fn put_u16(out: &mut Vec<u8>, v: u16)
    ensures
        final(out)@ == old(out)@ + u16_bytes(v),
{
    let bytes = big_endian_u16(v);
    out.extend_from_slice(bytes.as_slice());
}

/// Appends the four bytes of `v`.
pub fn put_u32(out: &mut Vec<u8>, v: u32)
    ensures
        final(out)@ == old(out)@ + u32_bytes(v),
{
    let bytes = big_endian_u32(v);
    out.extend_from_slice(bytes.as_slice());
}

/// Appends the four bytes of `v`.
pub fn put_i32(out: &mut Vec<u8>, v: i32)
    ensures
        final(out)@ == old(out)@ + i32_bytes(v),
{
    let bytes = big_endian_i32(v);
    out.extend_from_slice(bytes.as_slice());
}

/// Stores the two bytes of `v` at `at`, in the place of what stood there.
pub(crate) fn patch_u16(out: &mut Vec<u8>, at: usize, v: u16)
    requires
        at + 2 <= old(out)@.len(),
    ensures
        final(out)@ == old(out)@.subrange(0, at as int) + u16_bytes(v) + old(out)@.subrange(
            at + 2,
            old(out)@.len() as int,
        ),
{
    let bytes = big_endian_u16(v);
    assert(at + 2 <= out.len());
    out.set(at, bytes[0]);
    out.set(at + 1, bytes[1]);
    proof {
        assert(out@ =~= old(out)@.subrange(0, at as int) + u16_bytes(v) + old(out)@.subrange(
            at + 2,
            old(out)@.len() as int,
        ));
    }
}

/// Reading back what was written gives the value.
pub proof fn lemma_u16_round_trip(v: u16)
    ensures
        u16_bytes(v).len() == 2,
        u16_of(u16_bytes(v)[0], u16_bytes(v)[1]) == v,
{
}

/// Reading back what was written gives the value.
pub proof fn lemma_u32_round_trip(v: u32)
    ensures
        u32_bytes(v).len() == 4,
        u32_of(u32_bytes(v)[0], u32_bytes(v)[1], u32_bytes(v)[2], u32_bytes(v)[3]) == v,
{
}

/// Reading back what was written gives the value.
pub proof fn lemma_i32_round_trip(v: i32)
    ensures
        i32_bytes(v).len() == 4,
        i32_of_bits(
            u32_of(i32_bytes(v)[0], i32_bytes(v)[1], i32_bytes(v)[2], i32_bytes(v)[3]),
        ) == v,
{
    lemma_u32_round_trip(bits_of_i32(v));
}

} // verus!
