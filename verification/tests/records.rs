use wf::error::WireError;
use wf::pointer::Pointer;
use wf::record::{
    decode_field, decode_presence_table, decode_record, encode_field, encode_record,
    present_field_ids, Value, WireKind,
};

#[test]
fn test_encode_record() {
    // A record with a single boolean field @0
    let actual = encode_record(&vec![(0, Value::Bool(true))]).unwrap();
    let expected: Vec<u8> = vec![
        // The presence table - continuation bit 0, only the low data bit set,
        // so only the final byte of the page is nonzero
        0b0000_0000,
        0b0000_0000,
        0b0000_0000,
        0b0000_0000,
        0b0000_0000,
        0b0000_0000,
        0b0000_0000,
        0b0000_0001,
        // The boolean field - all 1s, indicating True
        0b1111_1111,
        0b1111_1111,
        0b1111_1111,
        0b1111_1111,
        0b1111_1111,
        0b1111_1111,
        0b1111_1111,
        0b1111_1111,
    ];

    assert_eq!(expected, actual);
}

#[test]
fn record_with_no_fields_encodes_to_zero_bytes() {
    let actual = encode_record(&vec![]).unwrap();
    assert_eq!(actual, Vec::<u8>::new());
}

#[test]
fn record_encode_decode_round_trip() {
    // Field 100 lives on presence page 1, so the table has two pages and the
    // first page carries the continuation bit.
    let fields = vec![
        (0, Value::Bool(true)),
        (5, Value::Int(-7)),
        (100, Value::UInt64(9)),
    ];
    let bytes = encode_record(&fields).unwrap();
    assert_eq!(bytes.len(), 2 * 8 + 3 * 8);
    // First page: continuation bit (bit 63) plus bits 0 and 5.
    assert_eq!(bytes[0], 0b1000_0000);
    assert_eq!(bytes[7], 0b0010_0001);
    // Second page: bit 100 - 63 = 37.
    assert_eq!(bytes[8 + 3], 0b0010_0000);

    let decoded = decode_record(&bytes).unwrap();
    assert_eq!(decoded.len(), 3);
    assert_eq!(decoded[0], (0, u64::MAX));
    assert_eq!(decoded[1], (5, (-7i64) as u64));
    assert_eq!(decoded[2], (100, 9));

    assert_eq!(decode_field(WireKind::Bool, decoded[0].1), Value::Bool(true));
    assert_eq!(decode_field(WireKind::Int, decoded[1].1), Value::Int(-7));
    assert_eq!(decode_field(WireKind::UInt64, decoded[2].1), Value::UInt64(9));
}

#[test]
fn presence_table_single_page() {
    let bytes: Vec<u8> = vec![0, 0, 0, 0, 0, 0, 0, 1, 0xAA, 0xBB, 0, 0, 0, 0, 0, 0];
    let table = decode_presence_table(&bytes).unwrap();
    assert_eq!(table, &bytes[0..8]);
}

#[test]
fn presence_table_two_pages() {
    let mut bytes: Vec<u8> = vec![0x80, 0, 0, 0, 0, 0, 0, 1];
    bytes.extend_from_slice(&[0, 0, 0, 0, 0, 0, 0, 0b0000_0100]);
    let table = decode_presence_table(&bytes).unwrap();
    assert_eq!(table.len(), 16);
    assert_eq!(present_field_ids(table), vec![0, 65]);
}

#[test]
fn presence_table_truncated() {
    let bytes: Vec<u8> = vec![0, 0, 0];
    assert_eq!(
        decode_presence_table(&bytes).unwrap_err(),
        WireError::TruncatedInput
    );
}

#[test]
fn presence_table_malformed_chain() {
    // Continuation bit set, but no second page follows.
    let bytes: Vec<u8> = vec![0x80, 0, 0, 0, 0, 0, 0, 0];
    assert_eq!(
        decode_presence_table(&bytes).unwrap_err(),
        WireError::MalformedPresenceTable
    );
}

#[test]
fn record_decode_truncated_slots() {
    // Table marks two fields present but only one slot follows.
    let fields = vec![(0, Value::Byte(1)), (1, Value::Byte(2))];
    let bytes = encode_record(&fields).unwrap();
    assert_eq!(
        decode_record(&bytes[0..bytes.len() - 8]).unwrap_err(),
        WireError::TruncatedInput
    );
}

#[test]
fn field_slot_forms() {
    // Signed scalars sign-extend, unsigned zero-extend, bools saturate.
    assert_eq!(encode_field(&Value::Int32(-1)).unwrap(), u64::MAX);
    assert_eq!(encode_field(&Value::UInt32(0xffff_ffff)).unwrap(), 0xffff_ffffu64);
    assert_eq!(encode_field(&Value::Int16(-2)).unwrap(), u64::MAX - 1);
    assert_eq!(encode_field(&Value::Bool(false)).unwrap(), 0);
    assert_eq!(
        decode_field(WireKind::Int32, u64::MAX),
        Value::Int32(-1)
    );
    assert_eq!(decode_field(WireKind::Bool, 0), Value::Bool(false));

    // A pointer-referenced field stores its pointer word.
    let ptr = Pointer {
        word_index: 3,
        segment_id_offset: 5,
        length: 6,
        is_composite: false,
    };
    let word = encode_field(&Value::String(ptr)).unwrap();
    assert_eq!(decode_field(WireKind::String, word), Value::String(ptr));
}

#[test]
fn field_slot_rejects_composite_lengths() {
    let ptr = Pointer {
        word_index: 0,
        segment_id_offset: 0,
        length: 32768,
        is_composite: false,
    };
    assert_eq!(
        encode_field(&Value::Array(ptr)).unwrap_err(),
        WireError::UnsupportedComposite
    );
    assert_eq!(
        encode_record(&vec![(0, Value::Array(ptr))]).unwrap_err(),
        WireError::UnsupportedComposite
    );
}
