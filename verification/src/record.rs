//! The record codec: a record's field set on the wire is a field-presence
//! table followed by packed field slots.
//!
//! **Presence table.** One or more 64-bit pages. Bit 63 of a page — the most
//! significant bit of the page, the first bit on the wire — is a continuation
//! flag: 1 means another page follows, 0 means this page is the last. The
//! remaining 63 bits are presence flags: field ID `f` lives on page `f / 63`
//! at bit `f % 63`, counted from the least significant end, so a page's low
//! data bits sit in its final wire byte. Pages are serialized most
//! significant byte first. Scanning the continuation chain is the only way
//! to learn the table's length; a chain that implies more pages than the
//! buffer holds is a `MalformedPresenceTable` error.
//!
//! **Field slots.** Immediately after the table, one 64-bit little-endian
//! slot per *present* field, in ascending field-ID order. Absent fields
//! occupy no slot: slot positions compact around present fields, and absence
//! is recorded only in the table — a zero-valued field and an absent field
//! are distinguishable on the wire.
//!
//! An empty field set encodes to a zero-length byte region, matching the
//! array codec's empty-collection convention.

use vstd::arithmetic::div_mod::lemma_div_is_ordered;
use vstd::bytes::{spec_u64_from_le_bytes, spec_u64_to_le_bytes};
use vstd::prelude::*;

use crate::bytes_le::{push_u64_le, read_u64_le};
use crate::error::WireError;
use crate::pointer;
use crate::pointer::Pointer;
use crate::types::FieldId;

verus! {

/// A single field's value, as the codec sees it: scalar kinds carried
/// directly, pointer-referenced kinds carried as the pointer to their data.
/// Floating-point fields are carried by their IEEE 754 bit patterns, which
/// is all the codec ever moves around.
#[derive(Clone, Copy, Debug, PartialEq, Eq, Structural)]
pub enum Value {
    Int(i64),
    UInt64(u64),
    Int32(i32),
    UInt32(u32),
    Int16(i16),
    UInt16(u16),
    Byte(u8),
    Float64Bits(u64),
    Float32Bits(u32),
    Bool(bool),
    String(Pointer),
    Array(Pointer),
    Dict(Pointer),
    SetOf(Pointer),
    Custom(Pointer),
    Record(Pointer),
}

/// The wire-kind tag of a field, as the schema hands it to the decoder so a
/// slot's 64 bits can be reinterpreted correctly.
#[derive(Clone, Copy, Debug, PartialEq, Eq, Structural)]
pub enum WireKind {
    Int,
    UInt64,
    Int32,
    UInt32,
    Int16,
    UInt16,
    Byte,
    Float64,
    Float32,
    Bool,
    String,
    Array,
    Dict,
    SetOf,
    Custom,
    Record,
}

/// The wire-kind tag of a value.
pub open spec fn spec_kind_of(v: Value) -> WireKind {
    match v {
        Value::Int(_) => WireKind::Int,
        Value::UInt64(_) => WireKind::UInt64,
        Value::Int32(_) => WireKind::Int32,
        Value::UInt32(_) => WireKind::UInt32,
        Value::Int16(_) => WireKind::Int16,
        Value::UInt16(_) => WireKind::UInt16,
        Value::Byte(_) => WireKind::Byte,
        Value::Float64Bits(_) => WireKind::Float64,
        Value::Float32Bits(_) => WireKind::Float32,
        Value::Bool(_) => WireKind::Bool,
        Value::String(_) => WireKind::String,
        Value::Array(_) => WireKind::Array,
        Value::Dict(_) => WireKind::Dict,
        Value::SetOf(_) => WireKind::SetOf,
        Value::Custom(_) => WireKind::Custom,
        Value::Record(_) => WireKind::Record,
    }
}

/// The 64-bit wire form of a value: signed scalars sign-extend, unsigned
/// scalars and float bit patterns zero-extend, a true boolean is all ones,
/// and pointer-referenced kinds store their pointer word.
pub open spec fn spec_slot_word(v: Value) -> u64 {
    match v {
        Value::Int(x) => x as u64,
        Value::UInt64(x) => x,
        Value::Int32(x) => x as u64,
        Value::UInt32(x) => x as u64,
        Value::Int16(x) => x as u64,
        Value::UInt16(x) => x as u64,
        Value::Byte(x) => x as u64,
        Value::Float64Bits(x) => x,
        Value::Float32Bits(x) => x as u64,
        Value::Bool(b) => if b {
            0xffff_ffff_ffff_ffffu64
        } else {
            0u64
        },
        Value::String(p) => pointer::spec_encode(p),
        Value::Array(p) => pointer::spec_encode(p),
        Value::Dict(p) => pointer::spec_encode(p),
        Value::SetOf(p) => pointer::spec_encode(p),
        Value::Custom(p) => pointer::spec_encode(p),
        Value::Record(p) => pointer::spec_encode(p),
    }
}

/// True when a value can be packed into a slot: a pointer-referenced value
/// needs its length to fit the pointer word's 15 bits.
pub open spec fn spec_field_encodable(v: Value) -> bool {
    match v {
        Value::String(p) => p.length < 0x8000,
        Value::Array(p) => p.length < 0x8000,
        Value::Dict(p) => p.length < 0x8000,
        Value::SetOf(p) => p.length < 0x8000,
        Value::Custom(p) => p.length < 0x8000,
        Value::Record(p) => p.length < 0x8000,
        _ => true,
    }
}

/// The value a slot word stands for, under a given wire kind.
pub open spec fn spec_decode_field(kind: WireKind, word: u64) -> Value {
    match kind {
        WireKind::Int => Value::Int(word as i64),
        WireKind::UInt64 => Value::UInt64(word),
        WireKind::Int32 => Value::Int32(word as i32),
        WireKind::UInt32 => Value::UInt32(word as u32),
        WireKind::Int16 => Value::Int16(word as i16),
        WireKind::UInt16 => Value::UInt16(word as u16),
        WireKind::Byte => Value::Byte(word as u8),
        WireKind::Float64 => Value::Float64Bits(word),
        WireKind::Float32 => Value::Float32Bits(word as u32),
        WireKind::Bool => Value::Bool(word != 0),
        WireKind::String => Value::String(pointer::spec_decode(word)),
        WireKind::Array => Value::Array(pointer::spec_decode(word)),
        WireKind::Dict => Value::Dict(pointer::spec_decode(word)),
        WireKind::SetOf => Value::SetOf(pointer::spec_decode(word)),
        WireKind::Custom => Value::Custom(pointer::spec_decode(word)),
        WireKind::Record => Value::Record(pointer::spec_decode(word)),
    }
}

/// Packs one field value into its 64-bit slot word. Fails with
/// `UnsupportedComposite` exactly when a pointer-referenced value's length
/// does not fit the pointer word's 15 bits.
pub fn encode_field(field: &Value) -> (r: Result<u64, WireError>)
    ensures
        spec_field_encodable(*field) ==> r == Ok::<u64, WireError>(spec_slot_word(*field)),
        !spec_field_encodable(*field) ==> r == Err::<u64, WireError>(
            WireError::UnsupportedComposite,
        ),
{
    match field {
        Value::Int(x) => Ok(*x as u64),
        Value::UInt64(x) => Ok(*x),
        Value::Int32(x) => Ok(*x as u64),
        Value::UInt32(x) => Ok(*x as u64),
        Value::Int16(x) => Ok(*x as u64),
        Value::UInt16(x) => Ok(*x as u64),
        Value::Byte(x) => Ok(*x as u64),
        Value::Float64Bits(x) => Ok(*x),
        Value::Float32Bits(x) => Ok(*x as u64),
        Value::Bool(b) => Ok(
            if *b {
                0xffff_ffff_ffff_ffffu64
            } else {
                0u64
            },
        ),
        Value::String(p) => pointer::encode(*p),
        Value::Array(p) => pointer::encode(*p),
        Value::Dict(p) => pointer::encode(*p),
        Value::SetOf(p) => pointer::encode(*p),
        Value::Custom(p) => pointer::encode(*p),
        Value::Record(p) => pointer::encode(*p),
    }
}

/// Reinterprets one slot word as a value of the statically known wire kind.
pub fn decode_field(kind: WireKind, word: u64) -> (v: Value)
    ensures
        v == spec_decode_field(kind, word),
{
    match kind {
        WireKind::Int => Value::Int(word as i64),
        WireKind::UInt64 => Value::UInt64(word),
        WireKind::Int32 => Value::Int32(word as i32),
        WireKind::UInt32 => Value::UInt32(word as u32),
        WireKind::Int16 => Value::Int16(word as i16),
        WireKind::UInt16 => Value::UInt16(word as u16),
        WireKind::Byte => Value::Byte(word as u8),
        WireKind::Float64 => Value::Float64Bits(word),
        WireKind::Float32 => Value::Float32Bits(word as u32),
        WireKind::Bool => Value::Bool(word != 0),
        WireKind::String => Value::String(pointer::decode(word)),
        WireKind::Array => Value::Array(pointer::decode(word)),
        WireKind::Dict => Value::Dict(pointer::decode(word)),
        WireKind::SetOf => Value::SetOf(pointer::decode(word)),
        WireKind::Custom => Value::Custom(pointer::decode(word)),
        WireKind::Record => Value::Record(pointer::decode(word)),
    }
}

/// Slot round-trip law: reinterpreting a packed slot word under the value's
/// own wire kind gives back the value, for every value that can be packed.
pub proof fn lemma_field_slot_round_trip(v: Value)
    requires
        spec_field_encodable(v),
    ensures
        spec_decode_field(spec_kind_of(v), spec_slot_word(v)) == v,
{
    match v {
        Value::Int(x) => {
            assert((x as u64) as i64 == x) by (bit_vector);
        },
        Value::Int32(x) => {
            assert((x as u64) as i32 == x) by (bit_vector);
        },
        Value::UInt32(x) => {
            assert((x as u64) as u32 == x) by (bit_vector);
        },
        Value::Int16(x) => {
            assert((x as u64) as i16 == x) by (bit_vector);
        },
        Value::UInt16(x) => {
            assert((x as u64) as u16 == x) by (bit_vector);
        },
        Value::Byte(x) => {
            assert((x as u64) as u8 == x) by (bit_vector);
        },
        Value::Float32Bits(x) => {
            assert((x as u64) as u32 == x) by (bit_vector);
        },
        Value::Bool(b) => {
            assert(0xffff_ffff_ffff_ffffu64 != 0);
        },
        Value::String(p) => {
            pointer::lemma_pointer_round_trip(p);
        },
        Value::Array(p) => {
            pointer::lemma_pointer_round_trip(p);
        },
        Value::Dict(p) => {
            pointer::lemma_pointer_round_trip(p);
        },
        Value::SetOf(p) => {
            pointer::lemma_pointer_round_trip(p);
        },
        Value::Custom(p) => {
            pointer::lemma_pointer_round_trip(p);
        },
        Value::Record(p) => {
            pointer::lemma_pointer_round_trip(p);
        },
        _ => {
        },
    }
}

/// The 8 bytes of `v`, most significant first, as presence-table pages are
/// laid out on the wire.
pub open spec fn spec_u64_to_be_bytes(v: u64) -> Seq<u8> {
    seq![
        ((v >> 56) & 0xff) as u8,
        ((v >> 48) & 0xff) as u8,
        ((v >> 40) & 0xff) as u8,
        ((v >> 32) & 0xff) as u8,
        ((v >> 24) & 0xff) as u8,
        ((v >> 16) & 0xff) as u8,
        ((v >> 8) & 0xff) as u8,
        (v & 0xff) as u8,
    ]
}

/// The 64-bit value whose big-endian bytes are `s`.
pub open spec fn spec_u64_from_be_bytes(s: Seq<u8>) -> u64
    recommends
        s.len() == 8,
{
    ((s[0] as u64) << 56) | ((s[1] as u64) << 48) | ((s[2] as u64) << 40) | ((s[3] as u64) << 32)
        | ((s[4] as u64) << 24) | ((s[5] as u64) << 16) | ((s[6] as u64) << 8) | (s[7] as u64)
}

/// Appends the 8 big-endian bytes of `v` to `buffer`.
fn push_u64_be(buffer: &mut Vec<u8>, v: u64)
    ensures
        final(buffer)@ == old(buffer)@ + spec_u64_to_be_bytes(v),
{
    buffer.push(((v >> 56) & 0xff) as u8);
    buffer.push(((v >> 48) & 0xff) as u8);
    buffer.push(((v >> 40) & 0xff) as u8);
    buffer.push(((v >> 32) & 0xff) as u8);
    buffer.push(((v >> 24) & 0xff) as u8);
    buffer.push(((v >> 16) & 0xff) as u8);
    buffer.push(((v >> 8) & 0xff) as u8);
    buffer.push((v & 0xff) as u8);
    proof {
        assert(buffer@ =~= old(buffer)@ + spec_u64_to_be_bytes(v));
    }
}

/// Reads the 64-bit value whose big-endian bytes start at `pos`.
fn read_u64_be(bytes: &[u8], pos: usize) -> (r: u64)
    requires
        pos + 8 <= bytes@.len(),
    ensures
        r == spec_u64_from_be_bytes(bytes@.subrange(pos as int, pos as int + 8)),
{
    let r: u64 = ((bytes[pos] as u64) << 56) | ((bytes[pos + 1] as u64) << 48) | ((bytes[pos
        + 2] as u64) << 40) | ((bytes[pos + 3] as u64) << 32) | ((bytes[pos + 4] as u64) << 24) | ((
    bytes[pos + 5] as u64) << 16) | ((bytes[pos + 6] as u64) << 8) | (bytes[pos + 7] as u64);
    proof {
        let s = bytes@.subrange(pos as int, pos as int + 8);
        assert(s[0] == bytes@[pos as int]);
        assert(s[1] == bytes@[pos as int + 1]);
        assert(s[2] == bytes@[pos as int + 2]);
        assert(s[3] == bytes@[pos as int + 3]);
        assert(s[4] == bytes@[pos as int + 4]);
        assert(s[5] == bytes@[pos as int + 5]);
        assert(s[6] == bytes@[pos as int + 6]);
        assert(s[7] == bytes@[pos as int + 7]);
    }
    r
}

/// The number of pages the presence table starting at page `from` spans:
/// `None` when the continuation chain runs past the end of the buffer.
pub open spec fn spec_table_pages(s: Seq<u8>, from: nat) -> Option<nat>
    decreases s.len() - 8 * from,
{
    if s.len() < 8 * (from + 1) {
        None
    } else if s[8 * from as int] & 0x80 == 0 {
        Some((from + 1) as nat)
    } else {
        spec_table_pages(s, from + 1)
    }
}

/// A scanned table always fits the buffer it was scanned from, and spans at
/// least one page past where the scan began.
proof fn lemma_table_pages_bounds(s: Seq<u8>, from: nat)
    requires
        spec_table_pages(s, from) is Some,
    ensures
        from + 1 <= spec_table_pages(s, from)->Some_0,
        8 * spec_table_pages(s, from)->Some_0 <= s.len(),
    decreases s.len() - 8 * from,
{
    if s.len() < 8 * (from + 1) {
    } else if s[8 * from as int] & 0x80 == 0 {
    } else {
        lemma_table_pages_bounds(s, from + 1);
    }
}

/// Reads the field presence table from the front of a record's data bytes:
/// scans the continuation bit of consecutive pages until a page with the bit
/// clear, and returns the subslice holding the properly sized table.
///
/// A buffer without even one whole page is a `TruncatedInput` error; a
/// continuation chain that implies more pages than the buffer holds is a
/// `MalformedPresenceTable` error.
pub fn decode_presence_table(bytes: &[u8]) -> (r: Result<&[u8], WireError>)
    ensures
        match spec_table_pages(bytes@, 0) {
            Some(pc) => r is Ok && r->Ok_0@ == bytes@.subrange(0, 8 * pc as int),
            None => r == if bytes@.len() < 8 {
                Err::<&[u8], WireError>(WireError::TruncatedInput)
            } else {
                Err::<&[u8], WireError>(WireError::MalformedPresenceTable)
            },
        },
{
    let blen: usize = bytes.len();
    if blen < 8 {
        return Err(WireError::TruncatedInput);
    }
    let mut p: usize = 0;
    loop
        invariant
            8 * (p + 1) <= blen,
            blen == bytes@.len(),
            spec_table_pages(bytes@, 0) == spec_table_pages(bytes@, p as nat),
        decreases blen - 8 * p,
    {
        if bytes[8 * p] & 0x80 == 0 {
            return Ok(vstd::slice::slice_subrange(bytes, 0, 8 * (p + 1)));
        }
        p += 1;
        if p + 1 > blen / 8 {
            proof {
                assert(8 * (p + 1) > blen) by (nonlinear_arith)
                    requires
                        p + 1 > blen / 8,
                ;
            }
            return Err(WireError::MalformedPresenceTable);
        }
        proof {
            assert(8 * (p + 1) <= blen) by (nonlinear_arith)
                requires
                    p + 1 <= blen / 8,
            ;
        }
    }
}

/// The presence bits that the fields contribute to page `p`: bit `f mod 63`
/// for every field ID `f` with `f / 63 == p`.
pub open spec fn spec_page_bits(fields: Seq<(FieldId, Value)>, p: int) -> u64
    decreases fields.len(),
{
    if fields.len() == 0 {
        0u64
    } else {
        spec_page_bits(fields.drop_last(), p) | (if fields.last().0 as int / 63 == p {
            1u64 << (fields.last().0 % 63)
        } else {
            0u64
        })
    }
}

/// Page `p` of the presence table as written, out of `pc` pages total: its
/// presence bits, plus the continuation flag on every page but the last.
pub open spec fn spec_page_word(fields: Seq<(FieldId, Value)>, p: int, pc: int) -> u64 {
    spec_page_bits(fields, p) | (if p + 1 < pc {
        1u64 << 63
    } else {
        0u64
    })
}

/// The wire bytes of presence-table pages `0 .. k`, out of `pc` total.
pub open spec fn spec_table_bytes_upto(fields: Seq<(FieldId, Value)>, k: int, pc: int) -> Seq<u8>
    decreases k,
{
    if k <= 0 {
        Seq::empty()
    } else {
        spec_table_bytes_upto(fields, k - 1, pc) + spec_u64_to_be_bytes(
            spec_page_word(fields, k - 1, pc),
        )
    }
}

/// The packed slot words of the fields, in order, 8 little-endian bytes each.
pub open spec fn spec_slots_bytes(fields: Seq<(FieldId, Value)>) -> Seq<u8>
    decreases fields.len(),
{
    if fields.len() == 0 {
        Seq::empty()
    } else {
        spec_slots_bytes(fields.drop_last()) + spec_u64_to_le_bytes(
            spec_slot_word(fields.last().1),
        )
    }
}

/// The number of presence-table pages a field set needs: enough to reach the
/// highest field ID, and none at all for an empty field set.
pub open spec fn spec_record_pages(fields: Seq<(FieldId, Value)>) -> int {
    if fields.len() == 0 {
        0
    } else {
        fields.last().0 as int / 63 + 1
    }
}

/// The full wire bytes of a record's field set: the presence table first,
/// then the packed slots. An empty field set is a zero-length region.
pub open spec fn spec_record_bytes(fields: Seq<(FieldId, Value)>) -> Seq<u8> {
    spec_table_bytes_upto(fields, spec_record_pages(fields), spec_record_pages(fields))
        + spec_slots_bytes(fields)
}

/// True when every field value in the set can be packed into its slot.
pub open spec fn spec_record_encodable(fields: Seq<(FieldId, Value)>) -> bool {
    forall|i: int| 0 <= i < fields.len() ==> spec_field_encodable(#[trigger] fields[i].1)
}

/// True when the field IDs are strictly ascending, as the encode algorithm
/// walks them.
pub open spec fn spec_ids_ascending(fields: Seq<(FieldId, Value)>) -> bool {
    forall|i: int, j: int| 0 <= i < j < fields.len() ==> fields[i].0 < fields[j].0
}

/// Encodes a record's field set: computes the minimum page count from the
/// highest field ID, sets one presence bit per field, packs the slot words
/// in ascending field-ID order, and emits the table followed by the slots.
/// An empty field set encodes to zero bytes. Fails with
/// `UnsupportedComposite` exactly when some pointer-referenced field value
/// cannot be packed.
pub fn encode_record(fields: &Vec<(FieldId, Value)>) -> (r: Result<Vec<u8>, WireError>)
    requires
        spec_ids_ascending(fields@),
        fields@.len() > 0 ==> fields@.last().0 as int / 63 + 1 + fields@.len() <= usize::MAX as int
            / 8,
    ensures
        spec_record_encodable(fields@) ==> r is Ok && r->Ok_0@ == spec_record_bytes(fields@),
        !spec_record_encodable(fields@) ==> r == Err::<Vec<u8>, WireError>(
            WireError::UnsupportedComposite,
        ),
{
    let n: usize = fields.len();
    if n == 0 {
        let out: Vec<u8> = Vec::new();
        proof {
            assert(spec_record_bytes(fields@) =~= Seq::<u8>::empty());
        }
        return Ok(out);
    }
    let max_id: u64 = fields[n - 1].0;
    let pc: usize = (max_id / 63) as usize + 1;

    let mut pages: Vec<u64> = vec![0u64; pc];
    let mut slot_words: Vec<u64> = Vec::new();
    let mut i: usize = 0;
    while i < n
        invariant
            n == fields@.len(),
            0 < n,
            spec_ids_ascending(fields@),
            max_id == fields@.last().0,
            pc == max_id as int / 63 + 1,
            pc + n <= usize::MAX as int / 8,
            i <= n,
            pages@.len() == pc,
            slot_words@.len() == i,
            forall|j: int| 0 <= j < i ==> spec_field_encodable(#[trigger] fields@[j].1),
            forall|j: int|
                0 <= j < i ==> #[trigger] slot_words@[j] == spec_slot_word(fields@[j].1),
            forall|p: int|
                0 <= p < pc ==> #[trigger] pages@[p] == spec_page_bits(fields@.take(i as int), p),
        decreases n - i,
    {
        let word: u64 = match encode_field(&fields[i].1) {
            Ok(w) => w,
            Err(e) => {
                return Err(e);
            },
        };
        slot_words.push(word);
        proof {
            if i < n - 1 {
                assert(fields@[i as int].0 < fields@[n - 1].0);
            }
            lemma_div_is_ordered(fields@[i as int].0 as int, max_id as int, 63);
        }
        let page_idx: usize = (fields[i].0 / 63) as usize;
        let bit: u64 = fields[i].0 % 63;
        let ghost pages_before: Seq<u64> = pages@;
        pages[page_idx] = pages[page_idx] | (1u64 << bit);
        proof {
            assert(fields@.take(i + 1).drop_last() =~= fields@.take(i as int));
            assert(fields@.take(i + 1).last() == fields@[i as int]);
            assert forall|p: int| 0 <= p < pc implies #[trigger] pages@[p] == spec_page_bits(
                fields@.take(i + 1),
                p,
            ) by {
                let x = pages_before[p];
                if p == page_idx {
                    assert(pages@[p] == x | (1u64 << bit));
                } else {
                    assert(x | 0u64 == x) by (bit_vector);
                }
            }
        }
        i += 1;
    }
    proof {
        assert(fields@.take(n as int) =~= fields@);
    }

    let mut out: Vec<u8> = Vec::new();
    let mut p: usize = 0;
    while p < pc
        invariant
            n == fields@.len(),
            pc == spec_record_pages(fields@),
            p <= pc,
            pages@.len() == pc,
            forall|q: int| 0 <= q < pc ==> #[trigger] pages@[q] == spec_page_bits(fields@, q),
            out@ == spec_table_bytes_upto(fields@, p as int, pc as int),
        decreases pc - p,
    {
        let bits: u64 = pages[p];
        let word: u64 = if p + 1 < pc {
            bits | (1u64 << 63u64)
        } else {
            proof {
                assert(bits | 0u64 == bits) by (bit_vector);
            }
            bits
        };
        push_u64_be(&mut out, word);
        p += 1;
    }

    let ghost table: Seq<u8> = out@;
    let mut k: usize = 0;
    while k < n
        invariant
            n == fields@.len(),
            k <= n,
            slot_words@.len() == n,
            forall|j: int|
                0 <= j < n ==> #[trigger] slot_words@[j] == spec_slot_word(fields@[j].1),
            out@ == table + spec_slots_bytes(fields@.take(k as int)),
        decreases n - k,
    {
        push_u64_le(&mut out, slot_words[k]);
        proof {
            assert(fields@.take(k + 1).drop_last() =~= fields@.take(k as int));
            assert(fields@.take(k + 1).last() == fields@[k as int]);
        }
        k += 1;
    }
    proof {
        assert(fields@.take(n as int) =~= fields@);
    }
    Ok(out)
}

/// Page `p` of a presence table, read from its wire bytes.
pub open spec fn spec_page_of(t: Seq<u8>, p: int) -> u64 {
    spec_u64_from_be_bytes(t.subrange(8 * p, 8 * p + 8))
}

/// True when the table marks field ID `f` as present.
pub open spec fn spec_present(t: Seq<u8>, f: nat) -> bool
    recommends
        8 * (f / 63 + 1) <= t.len(),
{
    (spec_page_of(t, f as int / 63) >> ((f % 63) as u64)) & 1 == 1
}

/// The ascending field IDs below `upto` that the table marks present.
pub open spec fn spec_present_ids(t: Seq<u8>, upto: nat) -> Seq<FieldId>
    decreases upto,
{
    if upto == 0 {
        Seq::empty()
    } else {
        spec_present_ids(t, (upto - 1) as nat) + (if spec_present(t, (upto - 1) as nat) {
            seq![(upto - 1) as FieldId]
        } else {
            Seq::empty()
        })
    }
}

/// The table bytes of `k` pages are `8 * k` bytes long.
proof fn lemma_table_bytes_len(fields: Seq<(FieldId, Value)>, k: int, pc: int)
    requires
        k >= 0,
    ensures
        spec_table_bytes_upto(fields, k, pc).len() == 8 * k,
    decreases k,
{
    if k > 0 {
        lemma_table_bytes_len(fields, k - 1, pc);
    }
}

/// The packed slots of the fields are 8 bytes per field.
proof fn lemma_slots_bytes_len(fields: Seq<(FieldId, Value)>)
    ensures
        spec_slots_bytes(fields).len() == 8 * fields.len(),
    decreases fields.len(),
{
    vstd::bytes::lemma_auto_spec_u64_to_from_le_bytes();
    if fields.len() > 0 {
        lemma_slots_bytes_len(fields.drop_last());
    }
}

/// Page `p`'s 8 bytes within the table bytes are its own big-endian form.
proof fn lemma_table_bytes_at(fields: Seq<(FieldId, Value)>, k: int, pc: int, p: int)
    requires
        0 <= p < k,
    ensures
        spec_table_bytes_upto(fields, k, pc).subrange(8 * p, 8 * p + 8) == spec_u64_to_be_bytes(
            spec_page_word(fields, p, pc),
        ),
    decreases k,
{
    lemma_table_bytes_len(fields, k, pc);
    lemma_table_bytes_len(fields, k - 1, pc);
    if p == k - 1 {
        assert(spec_table_bytes_upto(fields, k, pc).subrange(8 * p, 8 * p + 8)
            =~= spec_u64_to_be_bytes(spec_page_word(fields, p, pc)));
    } else {
        lemma_table_bytes_at(fields, k - 1, pc, p);
        assert(spec_table_bytes_upto(fields, k, pc).subrange(8 * p, 8 * p + 8)
            =~= spec_table_bytes_upto(fields, k - 1, pc).subrange(8 * p, 8 * p + 8));
    }
}

/// Slot `k`'s 8 bytes within the packed slots are its own little-endian
/// form.
proof fn lemma_slots_bytes_at(fields: Seq<(FieldId, Value)>, k: int)
    requires
        0 <= k < fields.len(),
    ensures
        spec_slots_bytes(fields).subrange(8 * k, 8 * k + 8) == spec_u64_to_le_bytes(
            spec_slot_word(fields[k].1),
        ),
    decreases fields.len(),
{
    vstd::bytes::lemma_auto_spec_u64_to_from_le_bytes();
    lemma_slots_bytes_len(fields);
    lemma_slots_bytes_len(fields.drop_last());
    if k == fields.len() - 1 {
        assert(spec_slots_bytes(fields).subrange(8 * k, 8 * k + 8) =~= spec_u64_to_le_bytes(
            spec_slot_word(fields.last().1),
        ));
    } else {
        lemma_slots_bytes_at(fields.drop_last(), k);
        assert(spec_slots_bytes(fields).subrange(8 * k, 8 * k + 8) =~= spec_slots_bytes(
            fields.drop_last(),
        ).subrange(8 * k, 8 * k + 8));
    }
}

/// Reading back big-endian bytes recovers the page word.
proof fn lemma_be_round_trip(v: u64)
    ensures
        spec_u64_from_be_bytes(spec_u64_to_be_bytes(v)) == v,
{
    assert(
        (((((v >> 56) & 0xff) as u8) as u64) << 56)
        | (((((v >> 48) & 0xff) as u8) as u64) << 48)
        | (((((v >> 40) & 0xff) as u8) as u64) << 40)
        | (((((v >> 32) & 0xff) as u8) as u64) << 32)
        | (((((v >> 24) & 0xff) as u8) as u64) << 24)
        | (((((v >> 16) & 0xff) as u8) as u64) << 16)
        | (((((v >> 8) & 0xff) as u8) as u64) << 8)
        | (((v & 0xff) as u8) as u64)
        == v
    ) by (bit_vector);
}

/// Presence bits only ever sit below bit 63, so a page's data bits never
/// collide with the continuation flag.
proof fn lemma_page_bits_high_clear(fields: Seq<(FieldId, Value)>, p: int)
    ensures
        spec_page_bits(fields, p) < (1u64 << 63),
    decreases fields.len(),
{
    if fields.len() == 0 {
        assert(0u64 < (1u64 << 63)) by (bit_vector);
    } else {
        lemma_page_bits_high_clear(fields.drop_last(), p);
        let x = spec_page_bits(fields.drop_last(), p);
        let s = fields.last().0 % 63;
        assert(x < (1u64 << 63) && s < 63 ==> (x | (1u64 << s)) < (1u64 << 63) && (x | 0u64) < (
        1u64 << 63)) by (bit_vector);
    }
}

/// From any page before the last, the scan steps forward; at the last page
/// it stops with the full page count.
proof fn lemma_scan_from(fields: Seq<(FieldId, Value)>, p: nat)
    requires
        fields.len() > 0,
        p < spec_record_pages(fields),
    ensures
        spec_table_pages(spec_record_bytes(fields), p) == Some(spec_record_pages(fields) as nat),
    decreases spec_record_pages(fields) - p,
{
    let pc = spec_record_pages(fields);
    let b = spec_record_bytes(fields);
    lemma_table_bytes_len(fields, pc, pc);
    lemma_slots_bytes_len(fields);
    assert(b.len() == 8 * pc + 8 * fields.len());
    lemma_table_bytes_at(fields, pc, pc, p as int);
    assert(b.subrange(8 * p as int, 8 * p as int + 8) =~= spec_table_bytes_upto(
        fields,
        pc,
        pc,
    ).subrange(8 * p as int, 8 * p as int + 8));
    let word = spec_page_word(fields, p as int, pc);
    assert(b[8 * p as int] == spec_u64_to_be_bytes(word)[0]);
    lemma_page_bits_high_clear(fields, p as int);
    let bits = spec_page_bits(fields, p as int);
    if p + 1 < pc {
        assert((((bits | (1u64 << 63)) >> 56) & 0xff) as u8 & 0x80 != 0) by (bit_vector);
        lemma_scan_from(fields, p + 1);
    } else {
        assert(bits < (1u64 << 63) ==> (((bits | 0u64) >> 56) & 0xff) as u8 & 0x80 == 0)
            by (bit_vector);
    }
}

/// The decoder's continuation-chain scan over an encoded record finds
/// exactly the page count the encoder laid down.
pub proof fn lemma_record_table_scan(fields: Seq<(FieldId, Value)>)
    requires
        fields.len() > 0,
    ensures
        spec_table_pages(spec_record_bytes(fields), 0) == Some(spec_record_pages(fields) as nat),
{
    lemma_scan_from(fields, 0);
}

/// Slot `k` of an encoded record reads back as the `k`-th field's packed
/// slot word.
pub proof fn lemma_record_slot_bytes(fields: Seq<(FieldId, Value)>, k: int)
    requires
        0 <= k < fields.len(),
    ensures
        spec_u64_from_le_bytes(
            spec_record_bytes(fields).subrange(
                8 * spec_record_pages(fields) + 8 * k,
                8 * spec_record_pages(fields) + 8 * k + 8,
            ),
        ) == spec_slot_word(fields[k].1),
{
    let pc = spec_record_pages(fields);
    let b = spec_record_bytes(fields);
    vstd::bytes::lemma_auto_spec_u64_to_from_le_bytes();
    lemma_table_bytes_len(fields, pc, pc);
    lemma_slots_bytes_len(fields);
    lemma_slots_bytes_at(fields, k);
    assert(b.subrange(8 * pc + 8 * k, 8 * pc + 8 * k + 8) =~= spec_slots_bytes(fields).subrange(
        8 * k,
        8 * k + 8,
    ));
}

/// Reading page `p` back from an encoded record's table bytes recovers the
/// page word the encoder wrote.
proof fn lemma_record_page_of(fields: Seq<(FieldId, Value)>, p: int)
    requires
        fields.len() > 0,
        0 <= p < spec_record_pages(fields),
    ensures
        spec_page_of(
            spec_record_bytes(fields).subrange(0, 8 * spec_record_pages(fields)),
            p,
        ) == spec_page_word(fields, p, spec_record_pages(fields)),
    decreases fields.len(),
{
    let pc = spec_record_pages(fields);
    let b = spec_record_bytes(fields);
    lemma_table_bytes_len(fields, pc, pc);
    lemma_slots_bytes_len(fields);
    lemma_table_bytes_at(fields, pc, pc, p);
    let t = b.subrange(0, 8 * pc);
    assert(t.subrange(8 * p, 8 * p + 8) =~= spec_table_bytes_upto(fields, pc, pc).subrange(
        8 * p,
        8 * p + 8,
    ));
    lemma_be_round_trip(spec_page_word(fields, p, pc));
}

/// A data bit of a page is set exactly when some field contributed it:
/// a field on that page whose ID has that remainder.
proof fn lemma_page_bits_test(fields: Seq<(FieldId, Value)>, p: int, b: u64)
    requires
        b < 63,
    ensures
        ((spec_page_bits(fields, p) >> b) & 1 == 1) <==> exists|i: int|
            0 <= i < fields.len() && (#[trigger] fields[i].0) as int / 63 == p && fields[i].0 % 63
                == b,
    decreases fields.len(),
{
    if fields.len() == 0 {
        assert((0u64 >> b) & 1 != 1) by (bit_vector);
    } else {
        lemma_page_bits_test(fields.drop_last(), p, b);
        let x = spec_page_bits(fields.drop_last(), p);
        let last = fields.last();
        let s = last.0 % 63;
        if last.0 as int / 63 == p {
            assert(((x | (1u64 << s)) >> b) & 1 == 1 <==> ((x >> b) & 1 == 1 || s == b))
                by (bit_vector)
                requires
                    s < 63,
                    b < 63,
            ;
            if (spec_page_bits(fields, p) >> b) & 1 == 1 {
                if (x >> b) & 1 == 1 {
                    let i = choose|i: int|
                        0 <= i < fields.drop_last().len() && (#[trigger] fields.drop_last()[i].0)
                            as int / 63 == p && fields.drop_last()[i].0 % 63 == b;
                    assert(fields[i].0 as int / 63 == p && fields[i].0 % 63 == b);
                } else {
                    assert(fields[fields.len() - 1].0 as int / 63 == p && fields[fields.len()
                        - 1].0 % 63 == b);
                }
            }
            if exists|i: int|
                0 <= i < fields.len() && (#[trigger] fields[i].0) as int / 63 == p && fields[i].0
                    % 63 == b {
                let i = choose|i: int|
                    0 <= i < fields.len() && (#[trigger] fields[i].0) as int / 63 == p
                        && fields[i].0 % 63 == b;
                if i < fields.len() - 1 {
                    assert(fields.drop_last()[i].0 as int / 63 == p && fields.drop_last()[i].0 % 63
                        == b);
                } else {
                    assert(s == b);
                }
            }
        } else {
            assert(((x | 0u64) >> b) & 1 == ((x >> b) & 1)) by (bit_vector);
            if exists|i: int|
                0 <= i < fields.len() && (#[trigger] fields[i].0) as int / 63 == p && fields[i].0
                    % 63 == b {
                let i = choose|i: int|
                    0 <= i < fields.len() && (#[trigger] fields[i].0) as int / 63 == p
                        && fields[i].0 % 63 == b;
                assert(i < fields.len() - 1);
                assert(fields.drop_last()[i].0 as int / 63 == p && fields.drop_last()[i].0 % 63
                    == b);
            }
            if (spec_page_bits(fields, p) >> b) & 1 == 1 {
                let i = choose|i: int|
                    0 <= i < fields.drop_last().len() && (#[trigger] fields.drop_last()[i].0)
                        as int / 63 == p && fields.drop_last()[i].0 % 63 == b;
                assert(fields[i].0 as int / 63 == p && fields[i].0 % 63 == b);
            }
        }
    }
}

/// An encoded record's table marks a field ID present exactly when the
/// field set holds that ID.
proof fn lemma_record_present_iff(fields: Seq<(FieldId, Value)>, f: nat)
    requires
        fields.len() > 0,
        f < 63 * spec_record_pages(fields),
        f <= u64::MAX,
    ensures
        spec_present(
            spec_record_bytes(fields).subrange(0, 8 * spec_record_pages(fields)),
            f,
        ) <==> exists|i: int| 0 <= i < fields.len() && (#[trigger] fields[i].0) == f,
{
    let pc = spec_record_pages(fields);
    let t = spec_record_bytes(fields).subrange(0, 8 * pc);
    let p = f as int / 63;
    let b = (f % 63) as u64;
    assert(0 <= p < pc && b < 63) by (nonlinear_arith)
        requires
            f < 63 * pc,
            p == f as int / 63,
            b == (f % 63) as u64,
            pc > 0,
    ;
    lemma_record_page_of(fields, p);
    lemma_page_bits_test(fields, p, b);
    let bits = spec_page_bits(fields, p);
    let word = spec_page_word(fields, p, pc);
    assert(((bits | (1u64 << 63)) >> b) & 1 == ((bits >> b) & 1) && ((bits | 0u64) >> b) & 1 == ((
    bits >> b) & 1)) by (bit_vector)
        requires
            b < 63,
    ;
    assert(spec_present(t, f) <==> (bits >> b) & 1 == 1);
    assert forall|i: int| 0 <= i < fields.len() implies ((#[trigger] fields[i].0) == f <==> (
    fields[i].0 as int / 63 == p && fields[i].0 % 63 == b)) by {
        vstd::arithmetic::div_mod::lemma_fundamental_div_mod(fields[i].0 as int, 63);
        vstd::arithmetic::div_mod::lemma_fundamental_div_mod(f as int, 63);
    }
}

/// How many fields have an ID below `u`.
spec fn spec_count_below(fields: Seq<(FieldId, Value)>, u: int) -> int
    decreases fields.len(),
{
    if fields.len() == 0 {
        0
    } else {
        spec_count_below(fields.drop_last(), u) + (if fields.last().0 < u {
            1int
        } else {
            0int
        })
    }
}

/// With ascending IDs, the fields below a bound are exactly a prefix: index
/// `j` is counted if and only if its ID is below the bound.
proof fn lemma_count_below_prefix(fields: Seq<(FieldId, Value)>, u: int)
    requires
        spec_ids_ascending(fields),
    ensures
        0 <= spec_count_below(fields, u) <= fields.len(),
        forall|j: int|
            0 <= j < fields.len() ==> (j < spec_count_below(fields, u) <==> (
            #[trigger] fields[j].0) < u),
    decreases fields.len(),
{
    if fields.len() > 0 {
        let shorter = fields.drop_last();
        assert(spec_ids_ascending(shorter));
        lemma_count_below_prefix(shorter, u);
        let c = spec_count_below(shorter, u);
        if fields.last().0 < u {
            // Ascending: every earlier ID is below the last one, so below u.
            assert forall|j: int| 0 <= j < shorter.len() implies (#[trigger] shorter[j].0) < u by {
                assert(fields[j].0 < fields[fields.len() - 1].0);
            }
            if c < shorter.len() {
                assert(shorter[c].0 < u);
            }
            assert(c == shorter.len());
        } else {
            assert(spec_count_below(fields, u) == c);
            if c > 0 {
                assert(shorter[c - 1].0 < u);
            }
        }
    }
}

/// The ascending walk of an encoded record's presence table collects, below
/// any bound, exactly the fields whose IDs are below that bound.
proof fn lemma_present_ids_prefix(fields: Seq<(FieldId, Value)>, u: nat)
    requires
        spec_ids_ascending(fields),
        fields.len() > 0,
        fields.last().0 <= u64::MAX - 63,
        u <= 63 * spec_record_pages(fields),
    ensures
        spec_present_ids(
            spec_record_bytes(fields).subrange(0, 8 * spec_record_pages(fields)),
            u,
        ) =~= fields.map_values(|pr: (FieldId, Value)| pr.0).take(spec_count_below(fields, u as int)),
    decreases u,
{
    let pc = spec_record_pages(fields);
    let t = spec_record_bytes(fields).subrange(0, 8 * pc);
    let ids = fields.map_values(|pr: (FieldId, Value)| pr.0);
    lemma_count_below_prefix(fields, u as int);
    if u == 0 {
        if spec_count_below(fields, 0) > 0 {
            assert(fields[0].0 < 0);
        }
        assert(spec_count_below(fields, 0) == 0);
    } else {
        lemma_present_ids_prefix(fields, (u - 1) as nat);
        lemma_count_below_prefix(fields, u - 1);
        let c0 = spec_count_below(fields, u - 1);
        let c1 = spec_count_below(fields, u as int);
        assert(63 * pc <= 63 * (fields.last().0 as int / 63) + 63);
        assert(63 * (fields.last().0 as int / 63) <= fields.last().0) by (nonlinear_arith);
        lemma_record_present_iff(fields, (u - 1) as nat);
        if exists|i: int| 0 <= i < fields.len() && (#[trigger] fields[i].0) == u - 1 {
            let i = choose|i: int| 0 <= i < fields.len() && (#[trigger] fields[i].0) == u - 1;
            // The witness sits exactly at the boundary index.
            assert(!(i < c0) && i < c1);
            if c1 > c0 + 1 {
                assert(fields[c0].0 < u && !(fields[c0].0 < u - 1));
                assert(fields[c0 + 1].0 < u && !(fields[c0 + 1].0 < u - 1));
                assert(fields[c0].0 == u - 1 && fields[c0 + 1].0 == u - 1);
                assert(false);
            }
            assert(c1 == c0 + 1);
            assert(fields[c0].0 < u && !(fields[c0].0 < u - 1));
            assert(ids[c0] == u - 1);
            assert(ids.take(c1) =~= ids.take(c0).push(ids[c0]));
        } else {
            if c1 > c0 {
                assert(fields[c0].0 < u && !(fields[c0].0 < u - 1));
                assert(fields[c0].0 == u - 1);
                assert(false);
            }
            if c1 < c0 {
                assert(fields[c1].0 < u - 1 && !(fields[c1].0 < u));
                assert(false);
            }
            assert(c1 == c0);
        }
    }
}

/// The ascending field IDs that an encoded record's presence table marks
/// present are exactly the encoded field IDs, in order.
pub proof fn lemma_record_present_ids(fields: Seq<(FieldId, Value)>)
    requires
        spec_ids_ascending(fields),
        fields.len() > 0,
        fields.last().0 <= u64::MAX - 63,
    ensures
        spec_present_ids(
            spec_record_bytes(fields).subrange(0, 8 * spec_record_pages(fields)),
            (63 * spec_record_pages(fields)) as nat,
        ) == fields.map_values(|pr: (FieldId, Value)| pr.0),
{
    let pc = spec_record_pages(fields);
    let u = 63 * pc;
    lemma_present_ids_prefix(fields, u as nat);
    lemma_count_below_prefix(fields, u);
    vstd::arithmetic::div_mod::lemma_fundamental_div_mod(fields.last().0 as int, 63);
    assert forall|j: int| 0 <= j < fields.len() implies (#[trigger] fields[j].0) < u by {
        assert(fields[j].0 <= fields[fields.len() - 1].0);
    }
    let c = spec_count_below(fields, u);
    if c < fields.len() {
        assert(fields[c].0 < u);
    }
    assert(c == fields.len());
    assert(fields.map_values(|pr: (FieldId, Value)| pr.0).take(c) =~= fields.map_values(
        |pr: (FieldId, Value)| pr.0,
    ));
}

/// Record round-trip law: an encoded record's bytes scan back to the page
/// count the encoder used, cover exactly the encoded slots, mark exactly
/// the encoded field IDs present, and hold each field's packed slot word in
/// its slot — which is what the record decoder reads back out.
pub proof fn lemma_record_round_trip(fields: Seq<(FieldId, Value)>)
    requires
        spec_ids_ascending(fields),
        fields.len() > 0,
        fields.last().0 <= u64::MAX - 63,
    ensures
        ({
            let b = spec_record_bytes(fields);
            let pc = spec_record_pages(fields);
            &&& spec_table_pages(b, 0) == Some(pc as nat)
            &&& b.len() == 8 * pc + 8 * fields.len()
            &&& spec_present_ids(b.subrange(0, 8 * pc), (63 * pc) as nat) == fields.map_values(
                |pr: (FieldId, Value)| pr.0,
            )
            &&& forall|k: int|
                0 <= k < fields.len() ==> spec_u64_from_le_bytes(
                    b.subrange(8 * pc + 8 * k, 8 * pc + 8 * k + 8),
                ) == spec_slot_word(#[trigger] fields[k].1)
        }),
{
    let pc = spec_record_pages(fields);
    lemma_record_table_scan(fields);
    lemma_table_bytes_len(fields, pc, pc);
    lemma_slots_bytes_len(fields);
    lemma_record_present_ids(fields);
    assert forall|k: int| 0 <= k < fields.len() implies spec_u64_from_le_bytes(
        spec_record_bytes(fields).subrange(8 * pc + 8 * k, 8 * pc + 8 * k + 8),
    ) == spec_slot_word(#[trigger] fields[k].1) by {
        lemma_record_slot_bytes(fields, k);
    }
}

/// Walks a presence table and returns the present field IDs in ascending
/// order. The table must be whole pages, as `decode_presence_table` returns
/// them; a table of `k` pages covers field IDs below `63 * k`.
pub fn present_field_ids(table: &[u8]) -> (ids: Vec<FieldId>)
    requires
        table@.len() % 8 == 0,
        table@.len() <= usize::MAX as int / 63,
    ensures
        ids@ == spec_present_ids(table@, (63 * (table@.len() / 8)) as nat),
{
    let tlen: usize = table.len();
    let pages: usize = tlen / 8;
    let total: usize = 63 * pages;
    let mut ids: Vec<FieldId> = Vec::new();
    let mut f: usize = 0;
    while f < total
        invariant
            tlen == table@.len(),
            tlen % 8 == 0,
            pages == tlen / 8,
            total == 63 * pages,
            f <= total,
            ids@ == spec_present_ids(table@, f as nat),
        decreases total - f,
    {
        let page_idx: usize = f / 63;
        proof {
            assert(f / 63 < pages && 8 * (f / 63) + 8 <= tlen) by (nonlinear_arith)
                requires
                    f < 63 * pages,
                    tlen % 8 == 0,
                    pages == tlen / 8,
            ;
        }
        let page: u64 = read_u64_be(table, 8 * page_idx);
        let bit: u64 = (f as u64) % 63;
        if (page >> bit) & 1 == 1 {
            ids.push(f as u64);
        }
        proof {
            assert(spec_present_ids(table@, (f + 1) as nat) == spec_present_ids(table@, f as nat) + (if
            spec_present(table@, f as nat) {
                seq![f as FieldId]
            } else {
                Seq::<FieldId>::empty()
            }));
            if !spec_present(table@, f as nat) {
                assert(ids@ =~= spec_present_ids(table@, (f + 1) as nat));
            }
        }
        f += 1;
    }
    ids
}

/// Decodes a record's field set from its data bytes: reads the presence
/// table, walks the present field IDs in ascending order, and pairs each
/// with its consumed slot word. The schema's wire kinds then reinterpret
/// each slot via `decode_field`.
///
/// Fails as `decode_presence_table` does on a bad table, and with
/// `TruncatedInput` when the buffer holds fewer slots than the table marks
/// present.
pub fn decode_record(bytes: &[u8]) -> (r: Result<Vec<(FieldId, u64)>, WireError>)
    requires
        bytes@.len() <= usize::MAX as int / 63,
    ensures
        match spec_table_pages(bytes@, 0) {
            Some(pc) => {
                let t = bytes@.subrange(0, 8 * pc as int);
                let ids = spec_present_ids(t, (63 * pc) as nat);
                if 8 * pc + 8 * ids.len() > bytes@.len() {
                    r == Err::<Vec<(FieldId, u64)>, WireError>(WireError::TruncatedInput)
                } else {
                    r is Ok && r->Ok_0@ == Seq::new(
                        ids.len(),
                        |k: int|
                            (
                                ids[k],
                                spec_u64_from_le_bytes(
                                    bytes@.subrange(
                                        8 * pc + 8 * k,
                                        8 * pc + 8 * k + 8,
                                    ),
                                ),
                            ),
                    )
                }
            },
            None => r == if bytes@.len() < 8 {
                Err::<Vec<(FieldId, u64)>, WireError>(WireError::TruncatedInput)
            } else {
                Err::<Vec<(FieldId, u64)>, WireError>(WireError::MalformedPresenceTable)
            },
        },
{
    let blen: usize = bytes.len();
    let table: &[u8] = match decode_presence_table(bytes) {
        Ok(t) => t,
        Err(e) => {
            return Err(e);
        },
    };
    let tlen: usize = table.len();
    let ghost pc: nat = spec_table_pages(bytes@, 0)->Some_0;
    proof {
        lemma_table_pages_bounds(bytes@, 0);
        assert(tlen == 8 * pc);
        assert(tlen % 8 == 0);
        assert(tlen / 8 == pc);
    }
    let ids: Vec<FieldId> = present_field_ids(table);
    let mut out: Vec<(FieldId, u64)> = Vec::new();
    let mut pos: usize = tlen;
    let mut k: usize = 0;
    while k < ids.len()
        invariant
            blen == bytes@.len(),
            spec_table_pages(bytes@, 0) == Some(pc),
            tlen == 8 * pc,
            table@ == bytes@.subrange(0, 8 * pc as int),
            ids@ == spec_present_ids(bytes@.subrange(0, 8 * pc as int), (63 * pc) as nat),
            k <= ids@.len(),
            pos == tlen + 8 * k,
            pos <= blen,
            out@.len() == k,
            forall|j: int|
                0 <= j < k ==> #[trigger] out@[j] == (
                    ids@[j],
                    spec_u64_from_le_bytes(bytes@.subrange(8 * pc + 8 * j, 8 * pc + 8 * j + 8)),
                ),
        decreases ids@.len() - k,
    {
        if blen - pos < 8 {
            proof {
                assert(bytes@.len() < 8 * pc + 8 * ids@.len());
            }
            return Err(WireError::TruncatedInput);
        }
        let word: u64 = read_u64_le(bytes, pos);
        out.push((ids[k], word));
        pos += 8;
        k += 1;
    }
    proof {
        assert(out@ =~= Seq::new(
            ids@.len(),
            |k: int|
                (
                    ids@[k],
                    spec_u64_from_le_bytes(bytes@.subrange(8 * pc + 8 * k, 8 * pc + 8 * k + 8)),
                ),
        ));
    }
    Ok(out)
}

} // verus!
