//! The primitive-array codec.
//!
//! In all cases, the first 64-bit word of an array's bytes is the element
//! count, little-endian. Each element is then packed back-to-back at its
//! natural width, little-endian, immediately afterwards.
//!
//! There are two families of arrays: primitive arrays, whose slot size is the
//! element's own width, and pointer arrays, where each element slot is a
//! 64-bit pointer word to the element's data. This module covers the
//! primitive family; pointer words themselves are the business of the
//! pointer codec.
//!
//! When a 32-bit-element array is packed inside another container, the writer
//! pads an odd element count with one zero 32-bit word, so that whatever is
//! written next begins on a 64-bit word boundary.
//!
//! A buffer shorter than the declared element count is a `TruncatedInput`
//! error, never a silent partial read.

use vstd::bytes::{
    spec_u16_from_le_bytes, spec_u32_from_le_bytes, spec_u32_to_le_bytes, spec_u64_from_le_bytes,
    spec_u64_to_le_bytes,
};
use vstd::prelude::*;

use crate::bytes_le::{
    push_i32_le, push_i64_le, push_u64_le, read_i16_le, read_i32_le, read_i64_le, read_u16_le,
    read_u32_le, read_u64_le,
};
use crate::error::WireError;
use crate::pointer::Pointer;

verus! {

/// The result of decoding a signed 64-bit array from the front of `s`.
pub open spec fn spec_read_i64_array(s: Seq<u8>) -> Result<Seq<i64>, WireError> {
    if s.len() < 8 {
        Err(WireError::TruncatedInput)
    } else {
        let n = spec_u64_from_le_bytes(s.subrange(0, 8));
        if n > (s.len() - 8) / 8 {
            Err(WireError::TruncatedInput)
        } else {
            Ok(
                Seq::new(
                    n as nat,
                    |i: int| spec_u64_from_le_bytes(s.subrange(8 + 8 * i, 16 + 8 * i)) as i64,
                ),
            )
        }
    }
}

/// The result of decoding an unsigned 64-bit array from the front of `s`.
pub open spec fn spec_read_u64_array(s: Seq<u8>) -> Result<Seq<u64>, WireError> {
    if s.len() < 8 {
        Err(WireError::TruncatedInput)
    } else {
        let n = spec_u64_from_le_bytes(s.subrange(0, 8));
        if n > (s.len() - 8) / 8 {
            Err(WireError::TruncatedInput)
        } else {
            Ok(Seq::new(n as nat, |i: int| spec_u64_from_le_bytes(s.subrange(8 + 8 * i, 16 + 8 * i))))
        }
    }
}

/// The result of decoding a signed 32-bit array from the front of `s`.
pub open spec fn spec_read_i32_array(s: Seq<u8>) -> Result<Seq<i32>, WireError> {
    if s.len() < 8 {
        Err(WireError::TruncatedInput)
    } else {
        let n = spec_u64_from_le_bytes(s.subrange(0, 8));
        if n > (s.len() - 8) / 4 {
            Err(WireError::TruncatedInput)
        } else {
            Ok(
                Seq::new(
                    n as nat,
                    |i: int| spec_u32_from_le_bytes(s.subrange(8 + 4 * i, 12 + 4 * i)) as i32,
                ),
            )
        }
    }
}

/// The result of decoding an unsigned 32-bit array from the front of `s`.
pub open spec fn spec_read_u32_array(s: Seq<u8>) -> Result<Seq<u32>, WireError> {
    if s.len() < 8 {
        Err(WireError::TruncatedInput)
    } else {
        let n = spec_u64_from_le_bytes(s.subrange(0, 8));
        if n > (s.len() - 8) / 4 {
            Err(WireError::TruncatedInput)
        } else {
            Ok(Seq::new(n as nat, |i: int| spec_u32_from_le_bytes(s.subrange(8 + 4 * i, 12 + 4 * i))))
        }
    }
}

/// The result of decoding a signed 16-bit array from the front of `s`.
pub open spec fn spec_read_i16_array(s: Seq<u8>) -> Result<Seq<i16>, WireError> {
    if s.len() < 8 {
        Err(WireError::TruncatedInput)
    } else {
        let n = spec_u64_from_le_bytes(s.subrange(0, 8));
        if n > (s.len() - 8) / 2 {
            Err(WireError::TruncatedInput)
        } else {
            Ok(
                Seq::new(
                    n as nat,
                    |i: int| spec_u16_from_le_bytes(s.subrange(8 + 2 * i, 10 + 2 * i)) as i16,
                ),
            )
        }
    }
}

/// The result of decoding an unsigned 16-bit array from the front of `s`.
pub open spec fn spec_read_u16_array(s: Seq<u8>) -> Result<Seq<u16>, WireError> {
    if s.len() < 8 {
        Err(WireError::TruncatedInput)
    } else {
        let n = spec_u64_from_le_bytes(s.subrange(0, 8));
        if n > (s.len() - 8) / 2 {
            Err(WireError::TruncatedInput)
        } else {
            Ok(Seq::new(n as nat, |i: int| spec_u16_from_le_bytes(s.subrange(8 + 2 * i, 10 + 2 * i))))
        }
    }
}

/// The packed bytes of a sequence of pointer elements: each element slot is
/// the element's 64-bit pointer word.
pub open spec fn spec_pointer_elems_bytes(s: Seq<Pointer>) -> Seq<u8>
    decreases s.len(),
{
    if s.len() == 0 {
        Seq::empty()
    } else {
        spec_pointer_elems_bytes(s.drop_last()) + spec_u64_to_le_bytes(
            crate::pointer::spec_encode(s.last()),
        )
    }
}

/// True when every pointer in the array fits its wire word.
pub open spec fn spec_pointers_encodable(s: Seq<Pointer>) -> bool {
    forall|i: int| 0 <= i < s.len() ==> (#[trigger] s[i]).length < 0x8000
}

/// The packed bytes of a sequence of signed 64-bit elements, in order.
pub open spec fn spec_i64_elems_bytes(s: Seq<i64>) -> Seq<u8>
    decreases s.len(),
{
    if s.len() == 0 {
        Seq::empty()
    } else {
        spec_i64_elems_bytes(s.drop_last()) + spec_u64_to_le_bytes(s.last() as u64)
    }
}

/// The packed bytes of a sequence of signed 32-bit elements, in order.
pub open spec fn spec_i32_elems_bytes(s: Seq<i32>) -> Seq<u8>
    decreases s.len(),
{
    if s.len() == 0 {
        Seq::empty()
    } else {
        spec_i32_elems_bytes(s.drop_last()) + spec_u32_to_le_bytes(s.last() as u32)
    }
}

/// The full wire form of a signed 64-bit array: count word, then elements.
pub open spec fn spec_i64_array_bytes(s: Seq<i64>) -> Seq<u8> {
    spec_u64_to_le_bytes(s.len() as u64) + spec_i64_elems_bytes(s)
}

/// The full wire form of a signed 32-bit array as packed inside a container:
/// count word, elements, and one zero 32-bit pad word when the count is odd,
/// so the next value begins word-aligned.
pub open spec fn spec_i32_array_padded_bytes(s: Seq<i32>) -> Seq<u8> {
    spec_u64_to_le_bytes(s.len() as u64) + spec_i32_elems_bytes(s) + if s.len() % 2 == 1 {
        spec_u32_to_le_bytes(0)
    } else {
        Seq::empty()
    }
}

/// The wire form of an array of signed 32-bit arrays: outer count word, then
/// each inner array's padded form back-to-back.
pub open spec fn spec_nested_i32_bytes(s: Seq<Seq<i32>>) -> Seq<u8>
    decreases s.len(),
{
    if s.len() == 0 {
        Seq::empty()
    } else {
        spec_nested_i32_bytes(s.drop_last()) + spec_i32_array_padded_bytes(s.last())
    }
}

/// The packed pointer words are 8 bytes per element.
proof fn lemma_pointer_elems_bytes_len(s: Seq<Pointer>)
    ensures
        spec_pointer_elems_bytes(s).len() == 8 * s.len(),
    decreases s.len(),
{
    vstd::bytes::lemma_auto_spec_u64_to_from_le_bytes();
    if s.len() > 0 {
        lemma_pointer_elems_bytes_len(s.drop_last());
    }
}

/// Element `i`'s 8 bytes within the packed pointer words are its own
/// pointer word's little-endian form.
proof fn lemma_pointer_elems_bytes_at(s: Seq<Pointer>, i: int)
    requires
        0 <= i < s.len(),
    ensures
        spec_pointer_elems_bytes(s).subrange(8 * i, 8 * i + 8) == spec_u64_to_le_bytes(
            crate::pointer::spec_encode(s[i]),
        ),
    decreases s.len(),
{
    vstd::bytes::lemma_auto_spec_u64_to_from_le_bytes();
    lemma_pointer_elems_bytes_len(s);
    lemma_pointer_elems_bytes_len(s.drop_last());
    if i == s.len() - 1 {
        assert(spec_pointer_elems_bytes(s).subrange(8 * i, 8 * i + 8) =~= spec_u64_to_le_bytes(
            crate::pointer::spec_encode(s.last()),
        ));
    } else {
        lemma_pointer_elems_bytes_at(s.drop_last(), i);
        assert(spec_pointer_elems_bytes(s).subrange(8 * i, 8 * i + 8) =~= spec_pointer_elems_bytes(
            s.drop_last(),
        ).subrange(8 * i, 8 * i + 8));
    }
}

/// Round-trip law: the two-pass read of a written pointer array recovers
/// the same pointers, for every array whose pointers fit their wire words.
pub proof fn lemma_pointer_array_round_trip(s: Seq<Pointer>)
    requires
        spec_pointers_encodable(s),
        s.len() <= u64::MAX,
    ensures
        ({
            let b = spec_u64_to_le_bytes(s.len() as u64) + spec_pointer_elems_bytes(s);
            &&& spec_read_u64_array(b) is Ok
            &&& spec_read_u64_array(b)->Ok_0.map_values(|w: u64| crate::pointer::spec_decode(w))
                == s
        }),
{
    let b = spec_u64_to_le_bytes(s.len() as u64) + spec_pointer_elems_bytes(s);
    vstd::bytes::lemma_auto_spec_u64_to_from_le_bytes();
    lemma_pointer_elems_bytes_len(s);
    assert(b.subrange(0, 8) =~= spec_u64_to_le_bytes(s.len() as u64));
    assert(spec_u64_from_le_bytes(b.subrange(0, 8)) == s.len() as u64);
    let n = s.len() as u64;
    assert(!(n > (b.len() - 8) / 8));
    let words = spec_read_u64_array(b)->Ok_0;
    assert forall|i: int| 0 <= i < s.len() implies words[i] == crate::pointer::spec_encode(
        s[i],
    ) by {
        lemma_pointer_elems_bytes_at(s, i);
        assert(b.subrange(8 + 8 * i, 16 + 8 * i) =~= spec_pointer_elems_bytes(s).subrange(
            8 * i,
            8 * i + 8,
        ));
        assert(spec_u64_from_le_bytes(spec_u64_to_le_bytes(crate::pointer::spec_encode(s[i])))
            == crate::pointer::spec_encode(s[i]));
    }
    assert forall|i: int| 0 <= i < s.len() implies crate::pointer::spec_decode(
        #[trigger] words[i],
    ) == s[i] by {
        crate::pointer::lemma_pointer_round_trip(s[i]);
    }
    assert(words.map_values(|w: u64| crate::pointer::spec_decode(w)) =~= s);
}

/// The packed element bytes are 8 bytes per element.
proof fn lemma_i64_elems_bytes_len(s: Seq<i64>)
    ensures
        spec_i64_elems_bytes(s).len() == 8 * s.len(),
    decreases s.len(),
{
    vstd::bytes::lemma_auto_spec_u64_to_from_le_bytes();
    if s.len() > 0 {
        lemma_i64_elems_bytes_len(s.drop_last());
    }
}

/// Element `i`'s 8 bytes within the packed element bytes are its own
/// little-endian form.
proof fn lemma_i64_elems_bytes_at(s: Seq<i64>, i: int)
    requires
        0 <= i < s.len(),
    ensures
        spec_i64_elems_bytes(s).subrange(8 * i, 8 * i + 8) == spec_u64_to_le_bytes(s[i] as u64),
    decreases s.len(),
{
    vstd::bytes::lemma_auto_spec_u64_to_from_le_bytes();
    lemma_i64_elems_bytes_len(s);
    lemma_i64_elems_bytes_len(s.drop_last());
    if i == s.len() - 1 {
        assert(spec_i64_elems_bytes(s).subrange(8 * i, 8 * i + 8) =~= spec_u64_to_le_bytes(
            s.last() as u64,
        ));
    } else {
        lemma_i64_elems_bytes_at(s.drop_last(), i);
        assert(spec_i64_elems_bytes(s).subrange(8 * i, 8 * i + 8) =~= spec_i64_elems_bytes(
            s.drop_last(),
        ).subrange(8 * i, 8 * i + 8));
    }
}

/// Round-trip law: reading back the wire form of any signed 64-bit array
/// yields the same sequence, length for length and element for element.
pub proof fn lemma_i64_array_round_trip(s: Seq<i64>)
    requires
        s.len() <= u64::MAX,
    ensures
        spec_read_i64_array(spec_i64_array_bytes(s)) == Ok::<Seq<i64>, WireError>(s),
{
    let b = spec_i64_array_bytes(s);
    vstd::bytes::lemma_auto_spec_u64_to_from_le_bytes();
    lemma_i64_elems_bytes_len(s);
    assert(b.subrange(0, 8) =~= spec_u64_to_le_bytes(s.len() as u64));
    assert(spec_u64_from_le_bytes(b.subrange(0, 8)) == s.len() as u64);
    let n = s.len() as u64;
    assert(!(n > (b.len() - 8) / 8));
    let elems = spec_read_i64_array(b)->Ok_0;
    assert forall|i: int| 0 <= i < s.len() implies elems[i] == s[i] by {
        lemma_i64_elems_bytes_at(s, i);
        assert(b.subrange(8 + 8 * i, 16 + 8 * i) =~= spec_i64_elems_bytes(s).subrange(
            8 * i,
            8 * i + 8,
        ));
        let x = s[i];
        assert(spec_u64_from_le_bytes(spec_u64_to_le_bytes(x as u64)) == x as u64);
        assert((x as u64) as i64 == x) by (bit_vector);
    }
    assert(elems =~= s);
}

/// The packed element bytes are 4 bytes per element.
proof fn lemma_i32_elems_bytes_len(s: Seq<i32>)
    ensures
        spec_i32_elems_bytes(s).len() == 4 * s.len(),
    decreases s.len(),
{
    vstd::bytes::lemma_auto_spec_u32_to_from_le_bytes();
    if s.len() > 0 {
        lemma_i32_elems_bytes_len(s.drop_last());
    }
}

/// Element `i`'s 4 bytes within the packed element bytes are its own
/// little-endian form.
proof fn lemma_i32_elems_bytes_at(s: Seq<i32>, i: int)
    requires
        0 <= i < s.len(),
    ensures
        spec_i32_elems_bytes(s).subrange(4 * i, 4 * i + 4) == spec_u32_to_le_bytes(s[i] as u32),
    decreases s.len(),
{
    vstd::bytes::lemma_auto_spec_u32_to_from_le_bytes();
    lemma_i32_elems_bytes_len(s);
    lemma_i32_elems_bytes_len(s.drop_last());
    if i == s.len() - 1 {
        assert(spec_i32_elems_bytes(s).subrange(4 * i, 4 * i + 4) =~= spec_u32_to_le_bytes(
            s.last() as u32,
        ));
    } else {
        lemma_i32_elems_bytes_at(s.drop_last(), i);
        assert(spec_i32_elems_bytes(s).subrange(4 * i, 4 * i + 4) =~= spec_i32_elems_bytes(
            s.drop_last(),
        ).subrange(4 * i, 4 * i + 4));
    }
}

/// Round-trip law: reading back the padded wire form of any signed 32-bit
/// array yields the same sequence; the alignment pad word never reaches the
/// decoded elements.
pub proof fn lemma_i32_array_round_trip(s: Seq<i32>)
    requires
        s.len() <= u64::MAX,
    ensures
        spec_read_i32_array(spec_i32_array_padded_bytes(s)) == Ok::<Seq<i32>, WireError>(s),
{
    let b = spec_i32_array_padded_bytes(s);
    vstd::bytes::lemma_auto_spec_u64_to_from_le_bytes();
    vstd::bytes::lemma_auto_spec_u32_to_from_le_bytes();
    lemma_i32_elems_bytes_len(s);
    assert(b.subrange(0, 8) =~= spec_u64_to_le_bytes(s.len() as u64));
    assert(spec_u64_from_le_bytes(b.subrange(0, 8)) == s.len() as u64);
    let n = s.len() as u64;
    assert(!(n > (b.len() - 8) / 4));
    let elems = spec_read_i32_array(b)->Ok_0;
    assert forall|i: int| 0 <= i < s.len() implies elems[i] == s[i] by {
        lemma_i32_elems_bytes_at(s, i);
        assert(b.subrange(8 + 4 * i, 12 + 4 * i) =~= spec_i32_elems_bytes(s).subrange(
            4 * i,
            4 * i + 4,
        ));
        let x = s[i];
        assert(spec_u32_from_le_bytes(spec_u32_to_le_bytes(x as u32)) == x as u32);
        assert((x as u32) as i32 == x) by (bit_vector);
    }
    assert(elems =~= s);
}

/// Reads a signed 64-bit array from the front of `bytes`. Fails with
/// `TruncatedInput` when the buffer is shorter than the count word plus the
/// declared elements; bytes past the array are ignored.
pub fn read_i64_array_from(bytes: &[u8]) -> (r: Result<Vec<i64>, WireError>)
    ensures
        match spec_read_i64_array(bytes@) {
            Ok(elems) => r is Ok && r->Ok_0@ == elems,
            Err(e) => r == Err::<Vec<i64>, WireError>(e),
        },
{
    let blen: usize = bytes.len();
    if blen < 8 {
        return Err(WireError::TruncatedInput);
    }
    let n: u64 = read_u64_le(bytes, 0);
    let avail: u64 = ((blen - 8) / 8) as u64;
    if n > avail {
        return Err(WireError::TruncatedInput);
    }
    proof {
        assert(8 * (n as int) <= blen - 8) by (nonlinear_arith)
            requires
                blen >= 8,
                n as int <= (blen - 8) / 8,
        ;
    }
    let count: usize = n as usize;
    let mut out: Vec<i64> = Vec::new();
    let mut i: usize = 0;
    while i < count
        invariant
            count == n,
            8 + 8 * count <= blen,
            blen == bytes@.len(),
            i <= count,
            out@.len() == i,
            forall|j: int|
                0 <= j < i ==> out@[j] == spec_u64_from_le_bytes(
                    bytes@.subrange(8 + 8 * j, 16 + 8 * j),
                ) as i64,
        decreases count - i,
    {
        let v: i64 = read_i64_le(bytes, 8 + 8 * i);
        out.push(v);
        i += 1;
    }
    assert(out@ =~= spec_read_i64_array(bytes@)->Ok_0);
    Ok(out)
}

/// Reads an unsigned 64-bit array from the front of `bytes`.
pub fn read_u64_array_from(bytes: &[u8]) -> (r: Result<Vec<u64>, WireError>)
    ensures
        match spec_read_u64_array(bytes@) {
            Ok(elems) => r is Ok && r->Ok_0@ == elems,
            Err(e) => r == Err::<Vec<u64>, WireError>(e),
        },
{
    let blen: usize = bytes.len();
    if blen < 8 {
        return Err(WireError::TruncatedInput);
    }
    let n: u64 = read_u64_le(bytes, 0);
    let avail: u64 = ((blen - 8) / 8) as u64;
    if n > avail {
        return Err(WireError::TruncatedInput);
    }
    proof {
        assert(8 * (n as int) <= blen - 8) by (nonlinear_arith)
            requires
                blen >= 8,
                n as int <= (blen - 8) / 8,
        ;
    }
    let count: usize = n as usize;
    let mut out: Vec<u64> = Vec::new();
    let mut i: usize = 0;
    while i < count
        invariant
            count == n,
            8 + 8 * count <= blen,
            blen == bytes@.len(),
            i <= count,
            out@.len() == i,
            forall|j: int|
                0 <= j < i ==> out@[j] == spec_u64_from_le_bytes(
                    bytes@.subrange(8 + 8 * j, 16 + 8 * j),
                ),
        decreases count - i,
    {
        let v: u64 = read_u64_le(bytes, 8 + 8 * i);
        out.push(v);
        i += 1;
    }
    assert(out@ =~= spec_read_u64_array(bytes@)->Ok_0);
    Ok(out)
}

/// Reads a signed 32-bit array from the front of `bytes`.
pub fn read_i32_array_from(bytes: &[u8]) -> (r: Result<Vec<i32>, WireError>)
    ensures
        match spec_read_i32_array(bytes@) {
            Ok(elems) => r is Ok && r->Ok_0@ == elems,
            Err(e) => r == Err::<Vec<i32>, WireError>(e),
        },
{
    let blen: usize = bytes.len();
    if blen < 8 {
        return Err(WireError::TruncatedInput);
    }
    let n: u64 = read_u64_le(bytes, 0);
    let avail: u64 = ((blen - 8) / 4) as u64;
    if n > avail {
        return Err(WireError::TruncatedInput);
    }
    proof {
        assert(4 * (n as int) <= blen - 8) by (nonlinear_arith)
            requires
                blen >= 8,
                n as int <= (blen - 8) / 4,
        ;
    }
    let count: usize = n as usize;
    let mut out: Vec<i32> = Vec::new();
    let mut i: usize = 0;
    while i < count
        invariant
            count == n,
            8 + 4 * count <= blen,
            blen == bytes@.len(),
            i <= count,
            out@.len() == i,
            forall|j: int|
                0 <= j < i ==> out@[j] == spec_u32_from_le_bytes(
                    bytes@.subrange(8 + 4 * j, 12 + 4 * j),
                ) as i32,
        decreases count - i,
    {
        let v: i32 = read_i32_le(bytes, 8 + 4 * i);
        out.push(v);
        i += 1;
    }
    assert(out@ =~= spec_read_i32_array(bytes@)->Ok_0);
    Ok(out)
}

/// Reads an unsigned 32-bit array from the front of `bytes`.
pub fn read_u32_array_from(bytes: &[u8]) -> (r: Result<Vec<u32>, WireError>)
    ensures
        match spec_read_u32_array(bytes@) {
            Ok(elems) => r is Ok && r->Ok_0@ == elems,
            Err(e) => r == Err::<Vec<u32>, WireError>(e),
        },
{
    let blen: usize = bytes.len();
    if blen < 8 {
        return Err(WireError::TruncatedInput);
    }
    let n: u64 = read_u64_le(bytes, 0);
    let avail: u64 = ((blen - 8) / 4) as u64;
    if n > avail {
        return Err(WireError::TruncatedInput);
    }
    proof {
        assert(4 * (n as int) <= blen - 8) by (nonlinear_arith)
            requires
                blen >= 8,
                n as int <= (blen - 8) / 4,
        ;
    }
    let count: usize = n as usize;
    let mut out: Vec<u32> = Vec::new();
    let mut i: usize = 0;
    while i < count
        invariant
            count == n,
            8 + 4 * count <= blen,
            blen == bytes@.len(),
            i <= count,
            out@.len() == i,
            forall|j: int|
                0 <= j < i ==> out@[j] == spec_u32_from_le_bytes(
                    bytes@.subrange(8 + 4 * j, 12 + 4 * j),
                ),
        decreases count - i,
    {
        let v: u32 = read_u32_le(bytes, 8 + 4 * i);
        out.push(v);
        i += 1;
    }
    assert(out@ =~= spec_read_u32_array(bytes@)->Ok_0);
    Ok(out)
}

/// Reads a signed 16-bit array from the front of `bytes`.
pub fn read_i16_array_from(bytes: &[u8]) -> (r: Result<Vec<i16>, WireError>)
    ensures
        match spec_read_i16_array(bytes@) {
            Ok(elems) => r is Ok && r->Ok_0@ == elems,
            Err(e) => r == Err::<Vec<i16>, WireError>(e),
        },
{
    let blen: usize = bytes.len();
    if blen < 8 {
        return Err(WireError::TruncatedInput);
    }
    let n: u64 = read_u64_le(bytes, 0);
    let avail: u64 = ((blen - 8) / 2) as u64;
    if n > avail {
        return Err(WireError::TruncatedInput);
    }
    proof {
        assert(2 * (n as int) <= blen - 8) by (nonlinear_arith)
            requires
                blen >= 8,
                n as int <= (blen - 8) / 2,
        ;
    }
    let count: usize = n as usize;
    let mut out: Vec<i16> = Vec::new();
    let mut i: usize = 0;
    while i < count
        invariant
            count == n,
            8 + 2 * count <= blen,
            blen == bytes@.len(),
            i <= count,
            out@.len() == i,
            forall|j: int|
                0 <= j < i ==> out@[j] == spec_u16_from_le_bytes(
                    bytes@.subrange(8 + 2 * j, 10 + 2 * j),
                ) as i16,
        decreases count - i,
    {
        let v: i16 = read_i16_le(bytes, 8 + 2 * i);
        out.push(v);
        i += 1;
    }
    assert(out@ =~= spec_read_i16_array(bytes@)->Ok_0);
    Ok(out)
}

/// Reads an unsigned 16-bit array from the front of `bytes`.
pub fn read_u16_array_from(bytes: &[u8]) -> (r: Result<Vec<u16>, WireError>)
    ensures
        match spec_read_u16_array(bytes@) {
            Ok(elems) => r is Ok && r->Ok_0@ == elems,
            Err(e) => r == Err::<Vec<u16>, WireError>(e),
        },
{
    let blen: usize = bytes.len();
    if blen < 8 {
        return Err(WireError::TruncatedInput);
    }
    let n: u64 = read_u64_le(bytes, 0);
    let avail: u64 = ((blen - 8) / 2) as u64;
    if n > avail {
        return Err(WireError::TruncatedInput);
    }
    proof {
        assert(2 * (n as int) <= blen - 8) by (nonlinear_arith)
            requires
                blen >= 8,
                n as int <= (blen - 8) / 2,
        ;
    }
    let count: usize = n as usize;
    let mut out: Vec<u16> = Vec::new();
    let mut i: usize = 0;
    while i < count
        invariant
            count == n,
            8 + 2 * count <= blen,
            blen == bytes@.len(),
            i <= count,
            out@.len() == i,
            forall|j: int|
                0 <= j < i ==> out@[j] == spec_u16_from_le_bytes(
                    bytes@.subrange(8 + 2 * j, 10 + 2 * j),
                ),
        decreases count - i,
    {
        let v: u16 = read_u16_le(bytes, 8 + 2 * i);
        out.push(v);
        i += 1;
    }
    assert(out@ =~= spec_read_u16_array(bytes@)->Ok_0);
    Ok(out)
}

/// Reads a pointer array from the front of `bytes`: the first of the two
/// passes a pointer array needs. All element slots are decoded into pointer
/// words contiguously; resolving and decoding each referent is the second
/// pass, against the segment the pointer addresses.
pub fn read_pointer_array_from(bytes: &[u8]) -> (r: Result<Vec<Pointer>, WireError>)
    ensures
        match spec_read_u64_array(bytes@) {
            Ok(words) => r is Ok && r->Ok_0@ == words.map_values(
                |w: u64| crate::pointer::spec_decode(w),
            ),
            Err(e) => r == Err::<Vec<Pointer>, WireError>(e),
        },
{
    let words: Vec<u64> = match read_u64_array_from(bytes) {
        Ok(words) => words,
        Err(e) => {
            return Err(e);
        },
    };
    let mut out: Vec<Pointer> = Vec::new();
    let mut i: usize = 0;
    while i < words.len()
        invariant
            i <= words@.len(),
            out@.len() == i,
            forall|j: int|
                0 <= j < i ==> out@[j] == crate::pointer::spec_decode(#[trigger] words@[j]),
        decreases words@.len() - i,
    {
        out.push(crate::pointer::decode(words[i]));
        i += 1;
    }
    proof {
        assert(out@ =~= words@.map_values(|w: u64| crate::pointer::spec_decode(w)));
    }
    Ok(out)
}

/// Appends the wire form of a pointer array to `buffer`: the element count,
/// then each element's 64-bit pointer word. Fails with
/// `UnsupportedComposite`, leaving the buffer untouched, exactly when some
/// pointer's length does not fit its 15 wire bits.
pub fn write_pointer_array_to(buffer: &mut Vec<u8>, ptrs: &[Pointer]) -> (r: Result<
    (),
    WireError,
>)
    ensures
        spec_pointers_encodable(ptrs@) ==> r == Ok::<(), WireError>(()) && final(buffer)@ == old(
            buffer,
        )@ + spec_u64_to_le_bytes(ptrs@.len() as u64) + spec_pointer_elems_bytes(ptrs@),
        !spec_pointers_encodable(ptrs@) ==> r == Err::<(), WireError>(
            WireError::UnsupportedComposite,
        ) && final(buffer)@ == old(buffer)@,
{
    // Pack every pointer word first, so nothing is written on failure.
    let mut words: Vec<u64> = Vec::new();
    let mut i: usize = 0;
    while i < ptrs.len()
        invariant
            i <= ptrs@.len(),
            words@.len() == i,
            forall|j: int| 0 <= j < i ==> (#[trigger] ptrs@[j]).length < 0x8000,
            forall|j: int|
                0 <= j < i ==> #[trigger] words@[j] == crate::pointer::spec_encode(ptrs@[j]),
        decreases ptrs@.len() - i,
    {
        match crate::pointer::encode(ptrs[i]) {
            Ok(w) => {
                words.push(w);
            },
            Err(e) => {
                return Err(e);
            },
        }
        i += 1;
    }
    push_u64_le(buffer, ptrs.len() as u64);
    let mut k: usize = 0;
    let ghost base: Seq<u8> = old(buffer)@;
    while k < words.len()
        invariant
            words@.len() == ptrs@.len(),
            forall|j: int|
                0 <= j < words@.len() ==> #[trigger] words@[j] == crate::pointer::spec_encode(
                    ptrs@[j],
                ),
            k <= words@.len(),
            buffer@ == base + spec_u64_to_le_bytes(ptrs@.len() as u64) + spec_pointer_elems_bytes(
                ptrs@.take(k as int),
            ),
        decreases words@.len() - k,
    {
        push_u64_le(buffer, words[k]);
        proof {
            assert(ptrs@.take(k + 1).drop_last() =~= ptrs@.take(k as int));
            assert(ptrs@.take(k + 1).last() == ptrs@[k as int]);
        }
        k += 1;
    }
    proof {
        assert(ptrs@.take(ptrs@.len() as int) =~= ptrs@);
    }
    Ok(())
}

/// Appends the wire form of a signed 64-bit array to `buffer`: the element
/// count as a 64-bit word, then each element back-to-back, all little-endian.
pub fn write_i64_array_to(buffer: &mut Vec<u8>, arr: &[i64])
    ensures
        final(buffer)@ == old(buffer)@ + spec_i64_array_bytes(arr@),
{
    let ghost base: Seq<u8> = buffer@;
    push_u64_le(buffer, arr.len() as u64);
    let mut i: usize = 0;
    while i < arr.len()
        invariant
            i <= arr@.len(),
            buffer@ == base + spec_u64_to_le_bytes(arr@.len() as u64) + spec_i64_elems_bytes(
                arr@.take(i as int),
            ),
        decreases arr@.len() - i,
    {
        push_i64_le(buffer, arr[i]);
        proof {
            assert(arr@.take(i + 1).drop_last() =~= arr@.take(i as int));
            assert(arr@.take(i + 1).last() == arr@[i as int]);
        }
        i += 1;
    }
    proof {
        assert(arr@.take(arr@.len() as int) =~= arr@);
    }
}

/// Appends the wire form of a signed 32-bit array to `buffer`, padding an odd
/// element count with one zero 32-bit word so the next value written after it
/// begins on a 64-bit word boundary.
pub fn write_i32_array_to(buffer: &mut Vec<u8>, arr: &[i32])
    ensures
        final(buffer)@ == old(buffer)@ + spec_i32_array_padded_bytes(arr@),
{
    let ghost base: Seq<u8> = buffer@;
    push_u64_le(buffer, arr.len() as u64);
    let mut i: usize = 0;
    while i < arr.len()
        invariant
            i <= arr@.len(),
            buffer@ == base + spec_u64_to_le_bytes(arr@.len() as u64) + spec_i32_elems_bytes(
                arr@.take(i as int),
            ),
        decreases arr@.len() - i,
    {
        push_i32_le(buffer, arr[i]);
        proof {
            assert(arr@.take(i + 1).drop_last() =~= arr@.take(i as int));
            assert(arr@.take(i + 1).last() == arr@[i as int]);
        }
        i += 1;
    }
    proof {
        assert(arr@.take(arr@.len() as int) =~= arr@);
    }
    if arr.len() % 2 == 1 {
        push_i32_le(buffer, 0);
    }
}

/// Appends the wire form of an array of signed 32-bit arrays to `buffer`:
/// the outer element count, then each inner array's padded wire form.
pub fn write_nested_i32_array_to(buffer: &mut Vec<u8>, arr: &Vec<Vec<i32>>)
    ensures
        final(buffer)@ == old(buffer)@ + spec_u64_to_le_bytes(arr@.len() as u64) + spec_nested_i32_bytes(
            arr.deep_view(),
        ),
{
    let ghost base: Seq<u8> = buffer@;
    push_u64_le(buffer, arr.len() as u64);
    let mut i: usize = 0;
    while i < arr.len()
        invariant
            i <= arr@.len(),
            arr.deep_view().len() == arr@.len(),
            buffer@ == base + spec_u64_to_le_bytes(arr@.len() as u64) + spec_nested_i32_bytes(
                arr.deep_view().take(i as int),
            ),
        decreases arr@.len() - i,
    {
        write_i32_array_to(buffer, arr[i].as_slice());
        proof {
            assert(arr.deep_view().take(i + 1).drop_last() =~= arr.deep_view().take(i as int));
            assert(arr.deep_view().take(i + 1).last() == arr@[i as int]@);
        }
        i += 1;
    }
    proof {
        assert(arr.deep_view().take(arr@.len() as int) =~= arr.deep_view());
    }
}

} // verus!
