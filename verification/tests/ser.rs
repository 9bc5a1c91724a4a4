use jce::Error;
use jce::Serializer;

fn number(v: i64) -> Vec<u8> {
    let mut ser = Serializer::new(Vec::new());
    ser.write_number(v);
    ser.into_inner()
}

#[test]
fn ser_test_struct() {
    let mut ser = Serializer::new(Vec::new());
    ser.serialize_struct();
    ser.serialize_field("1").unwrap();
    ser.serialize_u64(1234);
    ser.serialize_field("2").unwrap();
    ser.serialize_str("Test");
    ser.serialize_field("3").unwrap();
    ser.serialize_struct();
    ser.serialize_field("1").unwrap();
    ser.serialize_u32(0xDEADBEEF);
    ser.serialize_field("234").unwrap();
    ser.serialize_bytes(&[0x1, 0x2, 0x3, 0x4]);
    ser.end();
    ser.serialize_field("4").unwrap();
    let list: Vec<u16> = vec![0xFFF, 0xFFE];
    ser.serialize_seq(Some(list.len()));
    for (index, item) in list.iter().enumerate() {
        ser.serialize_element(index);
        ser.serialize_u16(*item);
    }
    ser.serialize_field("5").unwrap();
    let map: Vec<(String, i32)> =
        vec![("1".to_string(), 0), ("2".to_string(), 1), ("3".to_string(), 2)];
    ser.serialize_map(Some(map.len()));
    for (key, value) in map.iter() {
        ser.entry_key();
        ser.serialize_str(key);
        ser.entry_value();
        ser.serialize_i32(*value);
    }
    ser.end();
    let serialized = ser.into_inner();
    println!("{:?}", serialized);
    let expected: Vec<u8> = vec![
        0x11, 0x04, 0xD2, // 1: 1234
        0x26, 0x04, 0x54, 0x65, 0x73, 0x74, // 2: "Test"
        0x3A, // 3: record
        0x13, 0x00, 0x00, 0x00, 0x00, 0xDE, 0xAD, 0xBE, 0xEF, // 1: 0xDEADBEEF
        0xFD, 0xEA, 0x00, 0x00, 0x04, 0x01, 0x02, 0x03, 0x04, // 234: bytes
        0x0B, // end of record
        0x49, 0x00, 0x02, 0x01, 0x0F, 0xFF, 0x11, 0x0F, 0xFE, // 4: list
        0x58, 0x00, 0x03, // 5: map of 3
        0x06, 0x01, 0x31, 0x1C, // "1" => 0
        0x06, 0x01, 0x32, 0x10, 0x01, // "2" => 1
        0x06, 0x01, 0x33, 0x10, 0x02, // "3" => 2
    ];
    assert_eq!(serialized, expected);
}

#[test]
fn test_literal() {
    let mut ser = Serializer::new(Vec::new());
    ser.serialize_map(Some(1));
    ser.entry_key();
    ser.serialize_str("v1");
    ser.entry_value();
    let values: Vec<i32> = vec![12, 34];
    ser.serialize_seq(Some(values.len()));
    for (index, item) in values.iter().enumerate() {
        ser.serialize_element(index);
        ser.serialize_i32(*item);
    }
    let serialized = ser.into_inner();
    println!("{:?}", serialized);
    assert_eq!(
        serialized,
        vec![0x08, 0x00, 0x01, 0x06, 0x02, 0x76, 0x31, 0x19, 0x00, 0x02, 0x00, 0x0C, 0x10, 0x22]
    );

    let data: Vec<i32> = vec![1, 2, 3, 4, 5];
    let mut ser = Serializer::new(Vec::new());
    ser.serialize_seq(Some(data.len()));
    for (index, item) in data.iter().enumerate() {
        ser.serialize_element(index);
        ser.serialize_i32(*item);
    }
    let serialized = ser.into_inner();
    println!("{:?}", serialized);
    assert_eq!(
        serialized,
        vec![0x09, 0x00, 0x05, 0x00, 0x01, 0x10, 0x02, 0x20, 0x03, 0x30, 0x04, 0x40, 0x05]
    );
}

#[test]
fn new_serializer_keeps_the_buffer() {
    let ser = Serializer::new(vec![0xAA, 0xBB]);
    assert_eq!(ser.depth(), 0);
    assert_eq!(ser.into_inner(), vec![0xAA, 0xBB]);
}

#[test]
fn writes_append_to_the_buffer() {
    let mut ser = Serializer::new(vec![0xAA]);
    ser.write_number(5);
    assert_eq!(ser.into_inner(), vec![0xAA, 0x00, 0x05]);
}

#[test]
fn header_with_small_tag_is_one_byte() {
    let mut ser = Serializer::new(Vec::new());
    ser.write_head(3, 9);
    assert_eq!(ser.into_inner(), vec![0x39]);
}

#[test]
fn header_with_tag_14_is_one_byte() {
    let mut ser = Serializer::new(Vec::new());
    ser.serialize_field("14").unwrap();
    ser.serialize_i32(1);
    assert_eq!(ser.into_inner(), vec![0xE0, 0x01]);
}

#[test]
fn header_with_tag_15_is_escaped() {
    let mut ser = Serializer::new(Vec::new());
    ser.write_head(15, 2);
    assert_eq!(ser.into_inner(), vec![0xF2, 0x0F]);
}

#[test]
fn header_with_tag_200_is_escaped() {
    let mut ser = Serializer::new(Vec::new());
    ser.serialize_field("200").unwrap();
    ser.serialize_i32(1);
    assert_eq!(ser.into_inner(), vec![0xF0, 200, 0x01]);
}

#[test]
fn header_with_tag_255_is_escaped() {
    let mut ser = Serializer::new(Vec::new());
    ser.write_head(255, 13);
    assert_eq!(ser.into_inner(), vec![0xFD, 0xFF]);
}

#[test]
fn zero_is_a_bare_header() {
    assert_eq!(number(0), vec![0x0C]);
}

#[test]
fn numbers_take_the_narrowest_width() {
    assert_eq!(number(1), vec![0x00, 0x01]);
    assert_eq!(number(127), vec![0x00, 0x7F]);
    assert_eq!(number(128), vec![0x01, 0x00, 0x80]);
    assert_eq!(number(32767), vec![0x01, 0x7F, 0xFF]);
    assert_eq!(number(32768), vec![0x02, 0x00, 0x00, 0x80, 0x00]);
    assert_eq!(number(2147483647), vec![0x02, 0x7F, 0xFF, 0xFF, 0xFF]);
    assert_eq!(
        number(2147483648),
        vec![0x03, 0x00, 0x00, 0x00, 0x00, 0x80, 0x00, 0x00, 0x00]
    );
    assert_eq!(
        number(i64::MAX),
        vec![0x03, 0x7F, 0xFF, 0xFF, 0xFF, 0xFF, 0xFF, 0xFF, 0xFF]
    );
}

#[test]
fn negative_numbers_are_twos_complement() {
    assert_eq!(number(-1), vec![0x00, 0xFF]);
    assert_eq!(number(-128), vec![0x00, 0x80]);
    assert_eq!(number(-129), vec![0x01, 0xFF, 0x7F]);
    assert_eq!(number(-32768), vec![0x01, 0x80, 0x00]);
    assert_eq!(number(-32769), vec![0x02, 0xFF, 0xFF, 0x7F, 0xFF]);
    assert_eq!(number(-2147483648), vec![0x02, 0x80, 0x00, 0x00, 0x00]);
    assert_eq!(
        number(-2147483649),
        vec![0x03, 0xFF, 0xFF, 0xFF, 0xFF, 0x7F, 0xFF, 0xFF, 0xFF]
    );
    assert_eq!(
        number(i64::MIN),
        vec![0x03, 0x80, 0x00, 0x00, 0x00, 0x00, 0x00, 0x00, 0x00]
    );
}

#[test]
fn number_consumes_the_pending_tag() {
    let mut ser = Serializer::new(Vec::new());
    ser.serialize_field("7").unwrap();
    ser.write_number(1);
    ser.write_number(1);
    assert_eq!(ser.into_inner(), vec![0x70, 0x01, 0x00, 0x01]);
}

#[test]
fn bools_are_numbers() {
    let mut ser = Serializer::new(Vec::new());
    ser.serialize_bool(true);
    ser.serialize_bool(false);
    assert_eq!(ser.into_inner(), vec![0x00, 0x01, 0x0C]);
}

#[test]
fn integers_of_every_width_are_numbers() {
    let mut ser = Serializer::new(Vec::new());
    ser.serialize_i8(-1);
    ser.serialize_i16(-300);
    ser.serialize_i32(70000);
    ser.serialize_i64(-5_000_000_000);
    ser.serialize_u8(255);
    ser.serialize_u16(65535);
    ser.serialize_u32(4_000_000_000);
    ser.serialize_u64(5);
    ser.serialize_char('A');
    assert_eq!(
        ser.into_inner(),
        vec![
            0x00, 0xFF, // -1
            0x01, 0xFE, 0xD4, // -300
            0x02, 0x00, 0x01, 0x11, 0x70, // 70000
            0x03, 0xFF, 0xFF, 0xFF, 0xFE, 0xD5, 0xFA, 0x0E, 0x00, // -5e9
            0x01, 0x00, 0xFF, // 255
            0x02, 0x00, 0x00, 0xFF, 0xFF, // 65535
            0x03, 0x00, 0x00, 0x00, 0x00, 0xEE, 0x6B, 0x28, 0x00, // 4e9
            0x00, 0x05, // 5
            0x00, 0x41, // 'A'
        ]
    );
}

#[test]
fn large_u64_wraps_to_negative() {
    let mut ser = Serializer::new(Vec::new());
    ser.serialize_u64(u64::MAX);
    ser.serialize_u64(1 << 63);
    assert_eq!(
        ser.into_inner(),
        vec![0x00, 0xFF, 0x03, 0x80, 0x00, 0x00, 0x00, 0x00, 0x00, 0x00, 0x00]
    );
}

#[test]
fn floats_keep_their_full_width() {
    let mut ser = Serializer::new(Vec::new());
    ser.serialize_f32(1.5f32.to_bits());
    ser.serialize_field("3").unwrap();
    ser.serialize_f64((-2.0f64).to_bits());
    assert_eq!(
        ser.into_inner(),
        vec![0x04, 0x3F, 0xC0, 0x00, 0x00, 0x35, 0xC0, 0x00, 0x00, 0x00, 0x00, 0x00, 0x00, 0x00]
    );
}

#[test]
fn float_zero_is_not_shortened() {
    let mut ser = Serializer::new(Vec::new());
    ser.serialize_f32(0.0f32.to_bits());
    ser.serialize_f64(0.0f64.to_bits());
    assert_eq!(
        ser.into_inner(),
        vec![0x04, 0, 0, 0, 0, 0x05, 0, 0, 0, 0, 0, 0, 0, 0]
    );
}

#[test]
fn short_string_has_one_length_byte() {
    let mut ser = Serializer::new(Vec::new());
    ser.serialize_field("1").unwrap();
    ser.serialize_str("hé");
    assert_eq!(ser.into_inner(), vec![0x16, 0x03, 0x68, 0xC3, 0xA9]);
}

#[test]
fn empty_string_has_length_zero() {
    let mut ser = Serializer::new(Vec::new());
    ser.serialize_str("");
    assert_eq!(ser.into_inner(), vec![0x06, 0x00]);
}

#[test]
fn string_of_255_bytes_is_short() {
    let text = "a".repeat(255);
    let mut ser = Serializer::new(Vec::new());
    ser.serialize_str(&text);
    let out = ser.into_inner();
    assert_eq!(out.len(), 2 + 255);
    assert_eq!(&out[..2], &[0x06, 0xFF]);
    assert!(out[2..].iter().all(|b| *b == b'a'));
}

#[test]
fn string_of_256_bytes_is_long() {
    let text = "b".repeat(256);
    let mut ser = Serializer::new(Vec::new());
    ser.serialize_str(&text);
    let out = ser.into_inner();
    assert_eq!(out.len(), 5 + 256);
    assert_eq!(&out[..5], &[0x07, 0x00, 0x00, 0x01, 0x00]);
    assert!(out[5..].iter().all(|b| *b == b'b'));
}

#[test]
fn raw_byte_block_shape() {
    let mut ser = Serializer::new(Vec::new());
    ser.serialize_field("2").unwrap();
    ser.serialize_bytes(&[0xDE, 0xAD, 0xBE, 0xEF]);
    assert_eq!(
        ser.into_inner(),
        vec![0x2D, 0x00, 0x00, 0x04, 0xDE, 0xAD, 0xBE, 0xEF]
    );
}

#[test]
fn empty_raw_byte_block() {
    let mut ser = Serializer::new(Vec::new());
    ser.serialize_bytes(&[]);
    assert_eq!(ser.into_inner(), vec![0x0D, 0x00, 0x0C]);
}

#[test]
fn long_raw_byte_block_has_a_wider_length() {
    let payload = vec![7u8; 300];
    let mut ser = Serializer::new(Vec::new());
    ser.serialize_bytes(&payload);
    let out = ser.into_inner();
    assert_eq!(&out[..5], &[0x0D, 0x00, 0x01, 0x01, 0x2C]);
    assert_eq!(&out[5..], &payload[..]);
}

#[test]
fn sequence_without_length_counts_zero() {
    let mut ser = Serializer::new(Vec::new());
    ser.serialize_seq(None);
    assert_eq!(ser.into_inner(), vec![0x09, 0x0C]);
}

#[test]
fn element_tags_are_indices() {
    let mut ser = Serializer::new(Vec::new());
    ser.serialize_seq(Some(17));
    for index in 0..17usize {
        ser.serialize_element(index);
        ser.serialize_bool(true);
    }
    let out = ser.into_inner();
    assert_eq!(&out[..3], &[0x09, 0x00, 0x11]);
    assert_eq!(&out[3..5], &[0x00, 0x01]);
    assert_eq!(&out[3 + 2 * 14..3 + 2 * 15], &[0xE0, 0x01]);
    assert_eq!(&out[3 + 2 * 15..3 + 2 * 15 + 3], &[0xF0, 0x0F, 0x01]);
    assert_eq!(&out[3 + 2 * 15 + 3..], &[0xF0, 0x10, 0x01]);
}

#[test]
fn element_tag_wraps_after_255() {
    let mut ser = Serializer::new(Vec::new());
    ser.serialize_element(256);
    ser.serialize_bool(true);
    ser.serialize_element(511);
    ser.serialize_bool(true);
    assert_eq!(ser.into_inner(), vec![0x00, 0x01, 0xF0, 0xFF, 0x01]);
}

#[test]
fn map_entries_use_tags_zero_and_one() {
    let mut ser = Serializer::new(Vec::new());
    ser.serialize_field("9").unwrap();
    ser.serialize_map(Some(2));
    for (key, value) in [(10i32, 20i32), (30, 40)] {
        ser.entry_key();
        ser.serialize_i32(key);
        ser.entry_value();
        ser.serialize_i32(value);
    }
    assert_eq!(
        ser.into_inner(),
        vec![0x98, 0x00, 0x02, 0x00, 0x0A, 0x10, 0x14, 0x00, 0x1E, 0x10, 0x28]
    );
}

#[test]
fn outermost_record_has_no_header_and_no_sentinel() {
    let mut ser = Serializer::new(Vec::new());
    ser.serialize_struct();
    assert_eq!(ser.depth(), 1);
    ser.serialize_field("1").unwrap();
    ser.serialize_i32(5);
    ser.end();
    assert_eq!(ser.depth(), 0);
    assert_eq!(ser.into_inner(), vec![0x10, 0x05]);
}

#[test]
fn nested_record_is_followed_by_the_sentinel() {
    let mut ser = Serializer::new(Vec::new());
    ser.serialize_struct();
    ser.serialize_field("1").unwrap();
    ser.serialize_struct();
    assert_eq!(ser.depth(), 2);
    ser.serialize_field("2").unwrap();
    ser.serialize_i32(5);
    ser.end();
    ser.serialize_field("3").unwrap();
    ser.serialize_i32(6);
    ser.end();
    assert_eq!(ser.into_inner(), vec![0x1A, 0x20, 0x05, 0x0B, 0x30, 0x06]);
}

#[test]
fn empty_nested_record() {
    let mut ser = Serializer::new(Vec::new());
    ser.serialize_struct();
    ser.serialize_field("4").unwrap();
    ser.serialize_struct();
    ser.end();
    ser.end();
    assert_eq!(ser.into_inner(), vec![0x4A, 0x0B]);
}

#[test]
fn absent_optional_writes_nothing() {
    let mut ser = Serializer::new(Vec::new());
    ser.serialize_struct();
    ser.serialize_field("1").unwrap();
    ser.serialize_none();
    ser.serialize_field("2").unwrap();
    ser.serialize_i32(9);
    ser.end();
    assert_eq!(ser.into_inner(), vec![0x20, 0x09]);
}

#[test]
fn field_key_must_be_a_tag() {
    let mut ser = Serializer::new(Vec::new());
    assert_eq!(ser.serialize_field("data"), Err(Error::InvalidFieldTag));
    assert_eq!(ser.serialize_field(""), Err(Error::InvalidFieldTag));
    assert_eq!(ser.serialize_field("256"), Err(Error::InvalidFieldTag));
    assert_eq!(ser.serialize_field("-1"), Err(Error::InvalidFieldTag));
    assert_eq!(ser.serialize_field("1 "), Err(Error::InvalidFieldTag));
    assert_eq!(ser.serialize_field("+"), Err(Error::InvalidFieldTag));
    assert_eq!(ser.serialize_field("255"), Ok(()));
    ser.serialize_bool(true);
    assert_eq!(ser.into_inner(), vec![0xF0, 0xFF, 0x01]);
}

#[test]
fn refused_field_key_keeps_the_pending_tag() {
    let mut ser = Serializer::new(Vec::new());
    ser.serialize_field("3").unwrap();
    assert_eq!(ser.serialize_field("x"), Err(Error::InvalidFieldTag));
    ser.serialize_bool(true);
    assert_eq!(ser.into_inner(), vec![0x30, 0x01]);
}

#[test]
fn record_rules_go_by_pending_tag_and_depth() {
    // An element of a sequence that is the outermost value has a tag
    // pending, so its record gets the opening header; it is the first
    // record entered, so it gets no closing one.
    let mut ser = Serializer::new(Vec::new());
    ser.serialize_seq(Some(1));
    ser.serialize_element(0);
    ser.serialize_struct();
    ser.serialize_field("1").unwrap();
    ser.serialize_i32(5);
    ser.end();
    assert_eq!(ser.into_inner(), vec![0x09, 0x00, 0x01, 0x0A, 0x10, 0x05]);
}

#[test]
fn record_header_consumes_the_pending_tag() {
    let mut ser = Serializer::new(Vec::new());
    ser.serialize_struct();
    ser.serialize_field("6").unwrap();
    ser.serialize_struct();
    ser.serialize_bool(true);
    ser.end();
    ser.end();
    assert_eq!(ser.into_inner(), vec![0x6A, 0x00, 0x01, 0x0B]);
}

#[test]
fn error_messages() {
    assert_eq!(Error::UnexpectedEnd.message(), "unexpected end of input");
    assert_eq!(Error::MissingType.message(), "missing type");
    assert_eq!(Error::TypeMismatch.message(), "type mismatch");
    assert_eq!(
        Error::InvalidBlockMarker.message(),
        "byte block must be followed by type 0"
    );
    assert_eq!(Error::InvalidUtf8.message(), "invalid UTF-8");
    assert_eq!(Error::UnknownTypeCode.message(), "unknown type code");
    assert_eq!(Error::InvalidFieldTag.message(), "field name is not a valid tag");
}
