//! Pointer words for whole arrays.
//!
//! Encoding an empty array (count 0) writes the canonical zero pointer word
//! at the reference site and emits no body at all; decoders recognize the
//! zero word and produce an empty sequence without reading any body bytes.

use vstd::prelude::*;

use crate::error::WireError;
use crate::pointer;
use crate::pointer::Pointer;

verus! {

/// The pointer word that references an unsigned 64-bit array of `len`
/// elements starting at `word_index` in the segment `segment_id_offset`
/// ahead of the current one.
pub open spec fn spec_u64_array_word(word_index: u32, segment_id_offset: u16, len: nat) -> u64 {
    pointer::spec_encode(
        Pointer {
            word_index: word_index,
            segment_id_offset: segment_id_offset,
            length: len as u16,
            is_composite: false,
        },
    )
}

/// Produces the pointer word for an unsigned 64-bit array. An empty array
/// encodes to the literal zero word and no body bytes. A length that does
/// not fit in 15 bits would need a composite pointer, so it fails with
/// `UnsupportedComposite` instead of truncating.
pub fn encode_u64_array(word_index: u32, segment_id_offset: u16, arr: &[u64]) -> (r: Result<
    u64,
    WireError,
>)
    ensures
        arr@.len() == 0 ==> r == Ok::<u64, WireError>(0u64),
        0 < arr@.len() < 0x8000 ==> r == Ok::<u64, WireError>(
            spec_u64_array_word(word_index, segment_id_offset, arr@.len()),
        ),
        arr@.len() >= 0x8000 ==> r == Err::<u64, WireError>(WireError::UnsupportedComposite),
{
    let length: usize = arr.len();
    if length == 0 {
        // Empty: bail out early with the canonical zero word.
        Ok(0)
    } else if length >= 0x8000 {
        // Too long for a 15-bit length: a composite pointer would be needed.
        Err(WireError::UnsupportedComposite)
    } else {
        pointer::encode(
            Pointer {
                word_index: word_index,
                segment_id_offset: segment_id_offset,
                length: length as u16,
                is_composite: false,
            },
        )
    }
}

/// Decodes the canonical empty-array pointer word. A word of all zero bits
/// stands for an empty array, so the result is an empty vector and no body
/// bytes are read; any other word refers to a body that must be read with
/// the array codec against its segment's bytes.
pub fn decode_u64_array(word: u64) -> (r: Vec<u64>)
    requires
        word == 0,
    ensures
        r@ == Seq::<u64>::empty(),
{
    Vec::new()
}

} // verus!
