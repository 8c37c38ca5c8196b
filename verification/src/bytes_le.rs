//! Little-endian primitives over byte buffers, delegated to the `byteorder`
//! crate. Every multi-byte scalar on the wire is little-endian; these are the
//! only places where the codec touches raw byte order.
//!
//! Each function's contract is stated over `vstd::bytes`' little-endian
//! specification functions, so callers reason about byte sequences exactly.

use vstd::bytes::{
    spec_u16_from_le_bytes, spec_u32_from_le_bytes, spec_u32_to_le_bytes, spec_u64_from_le_bytes,
    spec_u64_to_le_bytes,
};
use vstd::prelude::*;

verus! {

/// Relies on byteorder's `LittleEndian::read_u64`: the first 8 bytes of the
/// given slice, read as a little-endian unsigned 64-bit integer.
#[verifier::external_body]
pub(crate) fn read_u64_le(bytes: &[u8], pos: usize) -> (r: u64)
    requires
        pos + 8 <= bytes@.len(),
    ensures
        r == spec_u64_from_le_bytes(bytes@.subrange(pos as int, pos as int + 8)),
{
    <byteorder::LittleEndian as byteorder::ByteOrder>::read_u64(&bytes[pos..pos + 8])
}

/// Relies on byteorder's `LittleEndian::read_i64`, which reinterprets the
/// bits of `read_u64` as a signed integer.
#[verifier::external_body]
pub(crate) fn read_i64_le(bytes: &[u8], pos: usize) -> (r: i64)
    requires
        pos + 8 <= bytes@.len(),
    ensures
        r == spec_u64_from_le_bytes(bytes@.subrange(pos as int, pos as int + 8)) as i64,
{
    <byteorder::LittleEndian as byteorder::ByteOrder>::read_i64(&bytes[pos..pos + 8])
}

/// Relies on byteorder's `LittleEndian::read_u32`: the first 4 bytes of the
/// given slice, read as a little-endian unsigned 32-bit integer.
#[verifier::external_body]
pub(crate) fn read_u32_le(bytes: &[u8], pos: usize) -> (r: u32)
    requires
        pos + 4 <= bytes@.len(),
    ensures
        r == spec_u32_from_le_bytes(bytes@.subrange(pos as int, pos as int + 4)),
{
    <byteorder::LittleEndian as byteorder::ByteOrder>::read_u32(&bytes[pos..pos + 4])
}

/// Relies on byteorder's `LittleEndian::read_i32`, which reinterprets the
/// bits of `read_u32` as a signed integer.
#[verifier::external_body]
pub(crate) fn read_i32_le(bytes: &[u8], pos: usize) -> (r: i32)
    requires
        pos + 4 <= bytes@.len(),
    ensures
        r == spec_u32_from_le_bytes(bytes@.subrange(pos as int, pos as int + 4)) as i32,
{
    <byteorder::LittleEndian as byteorder::ByteOrder>::read_i32(&bytes[pos..pos + 4])
}

/// Relies on byteorder's `LittleEndian::read_u16`: the first 2 bytes of the
/// given slice, read as a little-endian unsigned 16-bit integer.
#[verifier::external_body]
pub(crate) fn read_u16_le(bytes: &[u8], pos: usize) -> (r: u16)
    requires
        pos + 2 <= bytes@.len(),
    ensures
        r == spec_u16_from_le_bytes(bytes@.subrange(pos as int, pos as int + 2)),
{
    <byteorder::LittleEndian as byteorder::ByteOrder>::read_u16(&bytes[pos..pos + 2])
}

/// Relies on byteorder's `LittleEndian::read_i16`, which reinterprets the
/// bits of `read_u16` as a signed integer.
#[verifier::external_body]
pub(crate) fn read_i16_le(bytes: &[u8], pos: usize) -> (r: i16)
    requires
        pos + 2 <= bytes@.len(),
    ensures
        r == spec_u16_from_le_bytes(bytes@.subrange(pos as int, pos as int + 2)) as i16,
{
    <byteorder::LittleEndian as byteorder::ByteOrder>::read_i16(&bytes[pos..pos + 2])
}

/// Relies on byteorder's `WriteBytesExt::write_u64::<LittleEndian>`, which
/// appends the 8 little-endian bytes of `v` to the vector. Writing into a
/// `Vec<u8>` always succeeds, so the result it returns is discarded.
#[verifier::external_body]
pub(crate) fn push_u64_le(buffer: &mut Vec<u8>, v: u64)
    ensures
        final(buffer)@ == old(buffer)@ + spec_u64_to_le_bytes(v),
{
    let _ = byteorder::WriteBytesExt::write_u64::<byteorder::LittleEndian>(buffer, v);
}

/// Relies on byteorder's `WriteBytesExt::write_i64::<LittleEndian>`, which
/// appends the 8 little-endian bytes of `v`'s two's-complement form. Writing
/// into a `Vec<u8>` always succeeds, so the result it returns is discarded.
#[verifier::external_body]
pub(crate) fn push_i64_le(buffer: &mut Vec<u8>, v: i64)
    ensures
        final(buffer)@ == old(buffer)@ + spec_u64_to_le_bytes(v as u64),
{
    let _ = byteorder::WriteBytesExt::write_i64::<byteorder::LittleEndian>(buffer, v);
}

/// Relies on byteorder's `WriteBytesExt::write_i32::<LittleEndian>`, which
/// appends the 4 little-endian bytes of `v`'s two's-complement form. Writing
/// into a `Vec<u8>` always succeeds, so the result it returns is discarded.
#[verifier::external_body]
pub(crate) fn push_i32_le(buffer: &mut Vec<u8>, v: i32)
    ensures
        final(buffer)@ == old(buffer)@ + spec_u32_to_le_bytes(v as u32),
{
    let _ = byteorder::WriteBytesExt::write_i32::<byteorder::LittleEndian>(buffer, v);
}

} // verus!
