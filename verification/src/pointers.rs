//! The local/segment pointer scheme.
//!
//! Under this scheme the last bit of a 64-bit word tells the two pointer
//! families apart: a 1 means a Segment Pointer, a 0 a Local Pointer whose
//! remaining 63 bits are type-specific and are interpreted by generated
//! code.
//!
//! A Segment Pointer is laid out, from most- to least-significant bit, as
//!
//! ```text
//! |---Offset---|---Length---|-Segment-|
//!    24 bits      24 bits     16 bits
//! ```
//!
//! * `offset` within the target segment, in 64-bit words.
//! * `length` of the data within the segment, in 64-bit words.
//! * `segment` ID offset; always at least 1, so addressing only ever moves
//!   forward. Data in the current segment is addressed with a Local Pointer
//!   instead. Because the tag bit overlaps the segment field's lowest bit, a
//!   word cannot both be tagged as a Segment Pointer and carry a segment
//!   offset of zero.

use vstd::prelude::*;

verus! {

/// A decoded view of one Segment Pointer word.
#[derive(Clone, Copy, Debug, PartialEq, Eq, Structural)]
pub struct SegmentPointer {
    /// Offset within the segment, in 64-bit words. Only values below
    /// `1 << 24` are representable on the wire.
    pub offset: u32,
    /// Length of data within the segment, in 64-bit words. Only values below
    /// `1 << 24` are representable on the wire.
    pub length: u32,
    /// Segment ID offset; at least 1 in every well-formed Segment Pointer.
    pub segment: u16,
}

/// The Segment Pointer that `word` unpacks into.
pub open spec fn spec_to_segment_pointer(word: u64) -> SegmentPointer {
    SegmentPointer {
        offset: (word >> 40) as u32,
        length: ((word >> 16) as u32) & 0xff_ffff,
        segment: word as u16,
    }
}

/// The word that `ptr` packs into, modulo fields that exceed their width.
pub open spec fn spec_encode_segment_pointer(ptr: SegmentPointer) -> u64 {
    (ptr.segment as u64) | ((ptr.length as u64) << 16) | ((ptr.offset as u64) << 40)
}

/// True when the final bit of the word is 1, which tags a Segment Pointer
/// rather than a Local Pointer.
pub fn is_segment_pointer(word: u64) -> (r: bool)
    ensures
        r == (word & 1 != 0),
{
    word & 1 != 0
}

/// Unpacks a Segment Pointer word into its fields.
pub fn to_segment_pointer(word: u64) -> (ptr: SegmentPointer)
    ensures
        ptr == spec_to_segment_pointer(word),
{
    SegmentPointer {
        // Shift right 40 bits to drop the length and the segment ID offset.
        offset: (word >> 40) as u32,
        // Shift right 16 bits to drop the segment ID offset, then mask to the
        // 24 bits that belong to the length.
        length: ((word >> 16) as u32) & 0xff_ffff,
        // The low 16 bits are the segment ID offset.
        segment: word as u16,
    }
}

/// Packs a Segment Pointer into its 64-bit wire word. No tag bit needs to be
/// set separately: every well-formed Segment Pointer has `segment >= 1`, and
/// the segment field's lowest bit is the tag bit.
pub fn encode_segment_pointer(ptr: SegmentPointer) -> (word: u64)
    ensures
        word == spec_encode_segment_pointer(ptr),
{
    let offset: u64 = ptr.offset as u64;
    let length: u64 = ptr.length as u64;
    let segment: u64 = ptr.segment as u64;
    segment | (length << 16) | (offset << 40)
}

/// Bit-level fact behind the round-trip law for Segment Pointers.
proof fn lemma_segment_pack_unpack(off: u64, len: u64, seg: u64)
    by (bit_vector)
    requires
        off < 0x100_0000,
        len < 0x100_0000,
        seg < 0x1_0000,
    ensures
        ((seg | (len << 16) | (off << 40)) >> 40) as u32 == off,
        (((seg | (len << 16) | (off << 40)) >> 16) as u32) & 0xff_ffff == len,
        (seg | (len << 16) | (off << 40)) as u16 == seg,
{
}

/// Round-trip law: unpacking a packed Segment Pointer gives back the same
/// pointer, for every pointer whose offset and length fit their 24-bit wire
/// widths.
pub proof fn lemma_segment_pointer_round_trip(ptr: SegmentPointer)
    requires
        ptr.offset < 0x100_0000,
        ptr.length < 0x100_0000,
    ensures
        spec_to_segment_pointer(spec_encode_segment_pointer(ptr)) == ptr,
{
    lemma_segment_pack_unpack(ptr.offset as u64, ptr.length as u64, ptr.segment as u64);
}

} // verus!
