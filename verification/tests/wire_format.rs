use wf::array::{decode_u64_array, encode_u64_array};
use wf::arrays::{
    read_i16_array_from, read_i32_array_from, read_pointer_array_from, read_u16_array_from,
    read_u32_array_from, read_u64_array_from, write_i32_array_to, write_i64_array_to,
    write_nested_i32_array_to, write_pointer_array_to,
};
use wf::error::WireError;
use wf::pointer::{decode, encode, Pointer};
use wf::pointers::{encode_segment_pointer, is_segment_pointer, to_segment_pointer, SegmentPointer};
use wf::segments::Message;

#[test]
fn pointer_round_trips() {
    let samples = vec![
        Pointer { word_index: 0, segment_id_offset: 0, length: 0, is_composite: false },
        Pointer { word_index: 1, segment_id_offset: 2, length: 3, is_composite: true },
        Pointer {
            word_index: u32::MAX,
            segment_id_offset: u16::MAX,
            length: 0x7fff,
            is_composite: false,
        },
        Pointer { word_index: 12345, segment_id_offset: 678, length: 910, is_composite: true },
    ];
    for p in samples {
        assert_eq!(decode(encode(p).unwrap()), p);
    }
}

#[test]
fn pointer_rejects_composite_length() {
    // 2^15 needs a composite pointer, which this codec does not support.
    let p = Pointer {
        word_index: 7,
        segment_id_offset: 1,
        length: 32768,
        is_composite: false,
    };
    assert_eq!(encode(p).unwrap_err(), WireError::UnsupportedComposite);
}

#[test]
fn empty_array_is_the_zero_word() {
    let arr: Vec<u64> = vec![];
    assert_eq!(encode_u64_array(9, 4, &arr).unwrap(), 0);
    assert_eq!(decode_u64_array(0), Vec::<u64>::new());
}

#[test]
fn u64_array_pointer_word() {
    let arr: Vec<u64> = vec![10, 20, 30];
    let word = encode_u64_array(2, 1, &arr).unwrap();
    let ptr = decode(word);
    assert_eq!(
        ptr,
        Pointer { word_index: 2, segment_id_offset: 1, length: 3, is_composite: false }
    );
}

#[test]
fn u64_array_rejects_composite_length() {
    let arr: Vec<u64> = vec![0; 32768];
    assert_eq!(
        encode_u64_array(0, 0, &arr).unwrap_err(),
        WireError::UnsupportedComposite
    );
}

#[test]
fn i64_array_wire_bytes() {
    let mut buffer: Vec<u8> = vec![];
    write_i64_array_to(&mut buffer, &[-1, 2]);
    let expected: Vec<u8> = vec![
        2, 0, 0, 0, 0, 0, 0, 0, // count
        0xff, 0xff, 0xff, 0xff, 0xff, 0xff, 0xff, 0xff, // -1
        2, 0, 0, 0, 0, 0, 0, 0, // 2
    ];
    assert_eq!(buffer, expected);
}

#[test]
fn i32_array_pads_odd_counts() {
    let mut buffer: Vec<u8> = vec![];
    write_i32_array_to(&mut buffer, &[-1, 7, 9]);
    let expected: Vec<u8> = vec![
        3, 0, 0, 0, 0, 0, 0, 0, // count
        0xff, 0xff, 0xff, 0xff, // -1
        7, 0, 0, 0, // 7
        9, 0, 0, 0, // 9
        0, 0, 0, 0, // pad word
    ];
    assert_eq!(buffer, expected);

    let mut even: Vec<u8> = vec![];
    write_i32_array_to(&mut even, &[5, 6]);
    assert_eq!(even.len(), 8 + 2 * 4);
}

#[test]
fn nested_i32_array_wire_bytes() {
    let mut buffer: Vec<u8> = vec![];
    write_nested_i32_array_to(&mut buffer, &vec![vec![1], vec![2, 3]]);
    let expected: Vec<u8> = vec![
        2, 0, 0, 0, 0, 0, 0, 0, // outer count
        1, 0, 0, 0, 0, 0, 0, 0, // inner count 1
        1, 0, 0, 0, // 1
        0, 0, 0, 0, // pad word
        2, 0, 0, 0, 0, 0, 0, 0, // inner count 2
        2, 0, 0, 0, // 2
        3, 0, 0, 0, // 3
    ];
    assert_eq!(buffer, expected);
}

#[test]
fn primitive_array_round_trips_per_width() {
    let mut b64: Vec<u8> = vec![1, 0, 0, 0, 0, 0, 0, 0, 0xfe, 0xff, 0xff, 0xff, 0xff, 0xff, 0xff, 0xff];
    assert_eq!(read_u64_array_from(&b64).unwrap(), vec![u64::MAX - 1]);
    b64[8] = 0xff;
    assert_eq!(read_u64_array_from(&b64).unwrap(), vec![u64::MAX]);

    let b32: Vec<u8> = vec![2, 0, 0, 0, 0, 0, 0, 0, 0xff, 0xff, 0xff, 0xff, 5, 0, 0, 0];
    assert_eq!(read_i32_array_from(&b32).unwrap(), vec![-1, 5]);
    assert_eq!(read_u32_array_from(&b32).unwrap(), vec![u32::MAX, 5]);

    let b16: Vec<u8> = vec![3, 0, 0, 0, 0, 0, 0, 0, 0xff, 0xff, 7, 0, 1, 0x80];
    assert_eq!(read_i16_array_from(&b16).unwrap(), vec![-1, 7, i16::MIN + 1]);
    assert_eq!(read_u16_array_from(&b16).unwrap(), vec![u16::MAX, 7, 0x8001]);
}

#[test]
fn truncated_arrays_are_rejected() {
    // Shorter than the count word itself.
    assert_eq!(
        read_u64_array_from(&[1, 2, 3]).unwrap_err(),
        WireError::TruncatedInput
    );
    // Count word declares more elements than the buffer holds.
    let bytes: Vec<u8> = vec![2, 0, 0, 0, 0, 0, 0, 0, 1, 1, 1, 1, 1, 1, 1, 1];
    assert_eq!(read_u64_array_from(&bytes).unwrap_err(), WireError::TruncatedInput);
    assert_eq!(read_i16_array_from(&[9, 0, 0, 0, 0, 0, 0, 0]).unwrap_err(), WireError::TruncatedInput);
}

#[test]
fn pointer_array_round_trips() {
    let ptrs = vec![
        Pointer { word_index: 1, segment_id_offset: 0, length: 4, is_composite: false },
        Pointer { word_index: 9, segment_id_offset: 2, length: 12, is_composite: true },
    ];
    let mut buffer: Vec<u8> = vec![];
    write_pointer_array_to(&mut buffer, &ptrs).unwrap();
    assert_eq!(buffer.len(), 8 + 2 * 8);
    assert_eq!(read_pointer_array_from(&buffer).unwrap(), ptrs);
}

#[test]
fn pointer_array_rejects_composite_lengths() {
    let ptrs = vec![Pointer {
        word_index: 1,
        segment_id_offset: 0,
        length: 32768,
        is_composite: false,
    }];
    let mut buffer: Vec<u8> = vec![];
    assert_eq!(
        write_pointer_array_to(&mut buffer, &ptrs).unwrap_err(),
        WireError::UnsupportedComposite
    );
    // Nothing was written.
    assert_eq!(buffer, Vec::<u8>::new());
}

#[test]
fn segment_pointer_layout() {
    let sp = SegmentPointer { offset: 3, length: 6, segment: 5 };
    let word = encode_segment_pointer(sp);
    assert!(is_segment_pointer(word));
    assert_eq!(to_segment_pointer(word), sp);
    // The tag bit is the low bit of the segment field.
    assert!(!is_segment_pointer(encode_segment_pointer(SegmentPointer {
        offset: 3,
        length: 6,
        segment: 4,
    })));
}

#[test]
fn segment_resolution() {
    let message = Message {
        segments: vec![vec![], vec![], vec![], vec![], vec![], vec![]],
    };
    let near = Pointer { word_index: 11, segment_id_offset: 0, length: 1, is_composite: false };
    let far = Pointer { word_index: 4, segment_id_offset: 3, length: 1, is_composite: false };
    assert_eq!(message.resolve(2, &near).unwrap(), (2, 11));
    assert_eq!(message.resolve(2, &far).unwrap(), (5, 4));

    let short = Message { segments: vec![vec![], vec![], vec![]] };
    assert_eq!(short.resolve(2, &far).unwrap_err(), WireError::SegmentOutOfRange);
}

#[test]
fn message_allocation_is_atomic() {
    let mut message = Message::new_with_root(&vec![7, 8]);
    assert_eq!(message.segments.len(), 1);
    // Segment 0's header word is the root record's length in words.
    assert_eq!(message.segments[0], vec![2, 7, 8]);

    // Fits under the cap: appended to the current segment.
    let (seg, off) = message.append_value(5, &vec![9, 10]);
    assert_eq!((seg, off), (0, 3));
    assert_eq!(message.segments[0], vec![2, 7, 8, 9, 10]);

    // Would exceed the cap: placed whole in a fresh segment.
    let (seg, off) = message.append_value(5, &vec![11]);
    assert_eq!((seg, off), (1, 0));
    assert_eq!(message.segments.len(), 2);
    assert_eq!(message.segments[1], vec![11]);
}
