//! The pointer codec: encoding and decoding of a single 64-bit pointer word.
//!
//! A pointer word is laid out, from most- to least-significant bit, as
//!
//! ```text
//! |--Index within Segment--|--Segment--|--Data Length--|--Composite?--|
//!          32 bits            16 bits       15 bits          1 bit
//! ```
//!
//! * `word_index` addresses the referent within its segment, in 64-bit words.
//! * `segment_id_offset` is 0 for the current segment, else a forward offset
//!   to a later segment.
//! * `length` is in referent-specific units: words for records, element count
//!   for arrays, bytes for strings.
//! * `is_composite` tags composite pointers, a recognized but unsupported
//!   extension for oversized values; encoding a length that would need one
//!   fails with `UnsupportedComposite`.
//!
//! A word of all zero bits is the canonical empty-collection representation;
//! callers short-circuit on it rather than descending into the decoder.

use vstd::prelude::*;

use crate::error::WireError;

verus! {

/// A decoded view of one 64-bit pointer word.
#[derive(Clone, Copy, Debug, PartialEq, Eq, Structural)]
pub struct Pointer {
    /// Index within the segment, in 64-bit words.
    pub word_index: u32,
    /// Segment ID offset. Zero means the current segment.
    pub segment_id_offset: u16,
    /// Length of the referent, in units that depend on the referent's type.
    /// Only values below `1 << 15` are representable on the wire.
    pub length: u16,
    /// True for a composite pointer.
    pub is_composite: bool,
}

/// The pointer word that `ptr` packs into.
pub open spec fn spec_encode(ptr: Pointer) -> u64 {
    ((ptr.word_index as u64) << 32) | ((ptr.segment_id_offset as u64) << 16)
        | ((ptr.length as u64) << 1) | (if ptr.is_composite {
        1u64
    } else {
        0u64
    })
}

/// The pointer that `word` unpacks into.
pub open spec fn spec_decode(word: u64) -> Pointer {
    Pointer {
        word_index: (word >> 32) as u32,
        segment_id_offset: (word >> 16) as u16,
        length: ((word >> 1) as u16) & 0x7fff,
        is_composite: word & 1 != 0,
    }
}

/// Unpacks a 64-bit pointer word into its fields. Total and pure: every field
/// is masked to its wire width, so no validation is needed.
pub fn decode(word: u64) -> (ptr: Pointer)
    ensures
        ptr == spec_decode(word),
{
    Pointer {
        word_index: (word >> 32) as u32,
        segment_id_offset: (word >> 16) as u16,
        length: ((word >> 1) as u16) & 0x7fff,
        is_composite: word & 1 != 0,
    }
}

/// Packs a pointer into its 64-bit wire word. Fails with
/// `UnsupportedComposite` when `length` does not fit in 15 bits, since such a
/// value would need a composite pointer.
pub fn encode(ptr: Pointer) -> (r: Result<u64, WireError>)
    ensures
        ptr.length < 0x8000 ==> r == Ok::<u64, WireError>(spec_encode(ptr)),
        ptr.length >= 0x8000 ==> r == Err::<u64, WireError>(WireError::UnsupportedComposite),
{
    if ptr.length >= 0x8000 {
        Err(WireError::UnsupportedComposite)
    } else {
        let word_index: u64 = ptr.word_index as u64;
        let segment_id_offset: u64 = ptr.segment_id_offset as u64;
        let length: u64 = ptr.length as u64;
        let packed: u64 = (word_index << 32) | (segment_id_offset << 16) | (length << 1);
        if ptr.is_composite {
            Ok(packed | 1)
        } else {
            proof {
                assert(packed | 0u64 == packed) by (bit_vector);
            }
            Ok(packed)
        }
    }
}

/// Bit-level fact behind the round-trip law: unpacking a packed word recovers
/// every field, as long as each input fits its wire width.
proof fn lemma_pack_unpack(wi: u64, so: u64, len: u64, c: u64)
    by (bit_vector)
    requires
        wi < 0x1_0000_0000,
        so < 0x1_0000,
        len < 0x8000,
        c < 2,
    ensures
        (((wi << 32) | (so << 16) | (len << 1) | c) >> 32) as u32 == wi,
        (((wi << 32) | (so << 16) | (len << 1) | c) >> 16) as u16 == so,
        ((((wi << 32) | (so << 16) | (len << 1) | c) >> 1) as u16) & 0x7fff == len,
        ((wi << 32) | (so << 16) | (len << 1) | c) & 1 == c,
{
}

/// Round-trip law: decoding an encoded pointer gives back the same pointer,
/// for every pointer whose length fits in 15 bits, composite or not.
pub proof fn lemma_pointer_round_trip(ptr: Pointer)
    requires
        ptr.length < 0x8000,
    ensures
        spec_decode(spec_encode(ptr)) == ptr,
{
    let c: u64 = if ptr.is_composite {
        1u64
    } else {
        0u64
    };
    lemma_pack_unpack(
        ptr.word_index as u64,
        ptr.segment_id_offset as u64,
        ptr.length as u64,
        c,
    );
    assert(spec_decode(spec_encode(ptr)).is_composite == ptr.is_composite);
}

} // verus!
