use jce::typed::{FloatBits, SeqAccessor, StructAccessor};
use jce::Deserializer;
use jce::Error;
use jce::Serializer;
use jce::Value;
use std::collections::BTreeMap;

fn record(fields: Vec<(u8, Value)>) -> BTreeMap<u8, Value> {
    let mut map = BTreeMap::new();
    for (tag, value) in fields {
        map.insert(tag, value);
    }
    map
}

/// A decoder over `bytes` that has read their first header and holds its
/// type code as the current one.
fn typed(bytes: &[u8]) -> Deserializer {
    let mut de = Deserializer::new(bytes.to_vec());
    let mut one = SeqAccessor::new(1);
    assert!(one.next_element(&mut de).unwrap().is_some());
    de
}

#[test]
fn de_test_struct() {
    // A record with an optional number under tag 1 and, under tag 2, a record
    // of a pair (string, number) under tag 1 and a map of strings under tag 3.
    let mut ser = Serializer::new(Vec::new());
    ser.serialize_struct();
    ser.serialize_field("1").unwrap();
    ser.serialize_u32(123);
    ser.serialize_field("2").unwrap();
    ser.serialize_struct();
    ser.serialize_field("1").unwrap();
    ser.serialize_seq(Some(2));
    ser.serialize_element(0);
    ser.serialize_str("hahaha");
    ser.serialize_element(1);
    ser.serialize_u32(0);
    ser.serialize_field("3").unwrap();
    ser.serialize_map(Some(1));
    ser.entry_key();
    ser.serialize_str("123");
    ser.entry_value();
    ser.serialize_str("asd");
    ser.end();
    ser.end();
    let serialized = ser.into_inner();
    println!("{:?}", serialized);
    assert_eq!(
        serialized,
        vec![
            0x10, 0x7B, // 1: 123
            0x2A, // 2: record
            0x19, 0x00, 0x02, // 1: sequence of 2
            0x06, 0x06, 0x68, 0x61, 0x68, 0x61, 0x68, 0x61, // "hahaha"
            0x1C, // 0
            0x38, 0x00, 0x01, // 3: map of 1
            0x06, 0x03, 0x31, 0x32, 0x33, // "123"
            0x16, 0x03, 0x61, 0x73, 0x64, // "asd"
            0x0B, // end of record
        ]
    );

    // The typed reading, field by field.
    let mut de = Deserializer::new(serialized.clone());
    let mut outer = de.deserialize_struct().unwrap();
    assert_eq!(outer.next_key(&mut de), Ok(Some(1)));
    assert_eq!(de.get_number(), Ok(123));
    assert_eq!(outer.next_key(&mut de), Ok(Some(2)));
    let mut inner = de.deserialize_struct().unwrap();
    assert_eq!(inner.next_key(&mut de), Ok(Some(1)));
    let mut pair = de.deserialize_seq().unwrap();
    assert_eq!(pair.next_element(&mut de), Ok(Some(6)));
    assert_eq!(de.deserialize_str(), Ok("hahaha".to_string()));
    assert_eq!(pair.next_element(&mut de), Ok(Some(12)));
    assert_eq!(de.get_number(), Ok(0));
    assert_eq!(pair.next_element(&mut de), Ok(None));
    assert_eq!(inner.next_key(&mut de), Ok(Some(3)));
    let mut map = de.deserialize_map().unwrap();
    assert_eq!(map.next_key(&mut de), Ok(Some(6)));
    assert_eq!(de.deserialize_str(), Ok("123".to_string()));
    assert_eq!(map.next_value(&mut de), Ok(6));
    assert_eq!(de.deserialize_str(), Ok("asd".to_string()));
    assert_eq!(map.next_key(&mut de), Ok(None));
    assert_eq!(inner.next_key(&mut de), Ok(None));
    assert_eq!(outer.next_key(&mut de), Ok(None));

    // The reading into a tree.
    let mut de = Deserializer::new(serialized);
    let tree = de.deserialize_all();
    println!("{:?}", tree);
    let expected = record(vec![
        (1, Value::Byte(123)),
        (
            2,
            Value::Struct(record(vec![
                (
                    1,
                    Value::List(vec![Value::String("hahaha".to_string()), Value::Zero]),
                ),
                (
                    3,
                    Value::Mapping(vec![(
                        Value::String("123".to_string()),
                        Value::String("asd".to_string()),
                    )]),
                ),
            ])),
        ),
    ]);
    assert_eq!(tree, Ok(expected));
}

#[test]
fn header_of_one_byte() {
    let mut de = Deserializer::new(vec![0x39, 0xE0]);
    assert_eq!(de.next_header(), Ok((3, 9)));
    assert_eq!(de.next_header(), Ok((14, 0)));
    assert_eq!(de.next_header(), Err(Error::UnexpectedEnd));
}

#[test]
fn header_with_escaped_tag() {
    let mut de = Deserializer::new(vec![0xF0, 200, 0xFD, 0x05]);
    assert_eq!(de.next_header(), Ok((200, 0)));
    assert_eq!(de.next_header(), Ok((5, 13)));
}

#[test]
fn header_cut_short_is_an_unexpected_end() {
    let mut de = Deserializer::new(vec![0xF1]);
    assert_eq!(de.next_header(), Err(Error::UnexpectedEnd));
    let mut de = Deserializer::new(Vec::new());
    assert_eq!(de.next_header(), Err(Error::UnexpectedEnd));
}

#[test]
fn pushed_back_header_is_served_first() {
    let mut de = Deserializer::new(vec![0x10, 0x2C]);
    let (tag, typ) = de.next_header().unwrap();
    assert_eq!((tag, typ), (1, 0));
    de.peek_header(tag, typ);
    assert_eq!(de.next_header(), Ok((1, 0)));
    assert_eq!(de.read_u8(), Ok(0x2C));
}

#[test]
fn pushed_back_header_is_served_once_and_reads_nothing() {
    let mut de = Deserializer::new(vec![0x2C]);
    de.peek_header(200, 9);
    assert_eq!(de.read_u8(), Ok(0x2C));
    assert_eq!(de.next_header(), Ok((200, 9)));
    assert_eq!(de.next_header(), Err(Error::UnexpectedEnd));
}

#[test]
fn second_push_back_replaces_the_first() {
    let mut de = Deserializer::new(Vec::new());
    de.peek_header(1, 2);
    de.peek_header(3, 4);
    assert_eq!(de.next_header(), Ok((3, 4)));
    assert_eq!(de.next_header(), Err(Error::UnexpectedEnd));
}

#[test]
fn fixed_width_reads_are_big_endian() {
    let mut de = Deserializer::new(vec![
        0x01, 0x02, 0x03, 0x04, 0x05, 0x06, 0x07, 0x08, 0x09, 0x0A, 0x0B, 0x0C, 0x0D, 0x0E, 0x0F,
    ]);
    assert_eq!(de.read_u8(), Ok(0x01));
    assert_eq!(de.read_u16(), Ok(0x0203));
    assert_eq!(de.read_u32(), Ok(0x04050607));
    assert_eq!(de.read_u64(), Ok(0x08090A0B0C0D0E0F));
    assert_eq!(de.read_u8(), Err(Error::UnexpectedEnd));
}

#[test]
fn fixed_width_read_that_fails_reads_nothing() {
    let mut de = Deserializer::new(vec![0xAA, 0xBB, 0xCC]);
    assert_eq!(de.read_u32(), Err(Error::UnexpectedEnd));
    assert_eq!(de.read_u64(), Err(Error::UnexpectedEnd));
    assert_eq!(de.read_u16(), Ok(0xAABB));
    assert_eq!(de.read_u16(), Err(Error::UnexpectedEnd));
    assert_eq!(de.read_u8(), Ok(0xCC));
}

#[test]
fn ignore_bytes_passes_over_exactly_that_many() {
    let mut de = Deserializer::new(vec![1, 2, 3, 4, 5]);
    assert_eq!(de.ignore_bytes(0), Ok(()));
    assert_eq!(de.ignore_bytes(3), Ok(()));
    assert_eq!(de.ignore_bytes(3), Err(Error::UnexpectedEnd));
    assert_eq!(de.read_u8(), Ok(4));
    assert_eq!(de.ignore_bytes(u64::MAX), Err(Error::UnexpectedEnd));
    assert_eq!(de.ignore_bytes(1), Ok(()));
    assert_eq!(de.ignore_bytes(1), Err(Error::UnexpectedEnd));
}

#[test]
fn raw_number_reads_header_and_payload() {
    let mut de = Deserializer::new(vec![0x0C, 0x50, 0x7F, 0x01, 0x01, 0x00]);
    assert_eq!(de.get_raw_number(), Ok(0));
    assert_eq!(de.get_raw_number(), Ok(127));
    assert_eq!(de.get_raw_number(), Ok(256));
    assert_eq!(de.get_raw_number(), Err(Error::UnexpectedEnd));
}

#[test]
fn numbers_are_widened_with_their_sign() {
    let mut de = Deserializer::new(vec![
        0x00, 0xFF, // -1 in one byte
        0x00, 0x80, // -128
        0x01, 0x80, 0x00, // -32768
        0x01, 0x7F, 0xFF, // 32767
        0x02, 0xFF, 0xFF, 0x7F, 0xFF, // -32769
        0x02, 0x80, 0x00, 0x00, 0x00, // i32::MIN
        0x03, 0xFF, 0xFF, 0xFF, 0xFF, 0x7F, 0xFF, 0xFF, 0xFF, // i32::MIN - 1
        0x03, 0x80, 0x00, 0x00, 0x00, 0x00, 0x00, 0x00, 0x00, // i64::MIN
        0x03, 0x7F, 0xFF, 0xFF, 0xFF, 0xFF, 0xFF, 0xFF, 0xFF, // i64::MAX
    ]);
    assert_eq!(de.get_raw_number(), Ok(-1));
    assert_eq!(de.get_raw_number(), Ok(-128));
    assert_eq!(de.get_raw_number(), Ok(-32768));
    assert_eq!(de.get_raw_number(), Ok(32767));
    assert_eq!(de.get_raw_number(), Ok(-32769));
    assert_eq!(de.get_raw_number(), Ok(-2147483648));
    assert_eq!(de.get_raw_number(), Ok(-2147483649));
    assert_eq!(de.get_raw_number(), Ok(i64::MIN));
    assert_eq!(de.get_raw_number(), Ok(i64::MAX));
}

#[test]
fn wider_than_needed_numbers_are_accepted() {
    let mut de = Deserializer::new(vec![
        0x03, 0, 0, 0, 0, 0, 0, 0, 5, 0x02, 0, 0, 0, 0, 0x01, 0xFF, 0xFF,
    ]);
    assert_eq!(de.get_raw_number(), Ok(5));
    assert_eq!(de.get_raw_number(), Ok(0));
    assert_eq!(de.get_raw_number(), Ok(-1));
}

#[test]
fn raw_number_rejects_other_types() {
    for typ in [4u8, 5, 6, 7, 8, 9, 10, 11, 13, 14, 15] {
        let mut de = Deserializer::new(vec![typ, 0, 0, 0, 0, 0, 0, 0, 0]);
        assert_eq!(de.get_raw_number(), Err(Error::TypeMismatch), "type {}", typ);
    }
}

#[test]
fn number_without_current_type_is_missing_type() {
    let mut de = Deserializer::new(vec![0x05]);
    assert_eq!(de.get_number(), Err(Error::MissingType));
    assert_eq!(de.read_u8(), Ok(0x05));
}

#[test]
fn number_uses_the_current_type_once() {
    let mut de = typed(&[0x11, 0x01, 0x00]);
    assert_eq!(de.get_number(), Ok(256));
    assert_eq!(de.get_number(), Err(Error::MissingType));
}

#[test]
fn number_of_type_zero_marker_reads_nothing() {
    let mut de = typed(&[0x1C, 0x55]);
    assert_eq!(de.get_number(), Ok(0));
    assert_eq!(de.read_u8(), Ok(0x55));
}

#[test]
fn number_rejects_other_current_types() {
    for typ in [4u8, 5, 6, 7, 8, 9, 10, 13, 14, 15] {
        let mut de = typed(&[0x10 | typ, 0, 0, 0, 0, 0, 0, 0, 0]);
        assert_eq!(de.get_number(), Err(Error::TypeMismatch), "type {}", typ);
    }
}

#[test]
fn bool_is_a_number_that_is_not_zero() {
    assert_eq!(typed(&[0x10, 0x01]).deserialize_bool(), Ok(true));
    assert_eq!(typed(&[0x10, 0x00]).deserialize_bool(), Ok(false));
    assert_eq!(typed(&[0x1C]).deserialize_bool(), Ok(false));
    assert_eq!(typed(&[0x10, 0xFF]).deserialize_bool(), Ok(true));
    assert_eq!(typed(&[0x11, 0x01, 0x00]).deserialize_bool(), Ok(true));
    assert_eq!(typed(&[0x16, 0x00]).deserialize_bool(), Err(Error::TypeMismatch));
    assert_eq!(typed(&[0x11, 0x01]).deserialize_bool(), Err(Error::UnexpectedEnd));
}

#[test]
fn bool_looks_at_the_low_32_bits() {
    let mut de = typed(&[0x13, 0, 0, 0, 1, 0, 0, 0, 0]);
    assert_eq!(de.deserialize_bool(), Ok(false));
    let mut de = typed(&[0x13, 0, 0, 0, 1, 0, 0, 0, 2]);
    assert_eq!(de.deserialize_bool(), Ok(true));
    let mut de = typed(&[0x13, 0xFF, 0xFF, 0xFF, 0xFF, 0, 0, 0, 0]);
    assert_eq!(de.deserialize_bool(), Ok(false));
}

#[test]
fn bool_without_current_type_is_missing_type() {
    let mut de = Deserializer::new(vec![0x01]);
    assert_eq!(de.deserialize_bool(), Err(Error::MissingType));
}

#[test]
fn floats_come_as_their_bits() {
    let mut de = typed(&[0x14, 0x3F, 0xC0, 0x00, 0x00]);
    let bits = de.deserialize_float().unwrap();
    assert_eq!(bits, FloatBits::Single(0x3FC00000));
    match bits {
        FloatBits::Single(b) => assert_eq!(f32::from_bits(b), 1.5),
        FloatBits::Double(_) => panic!("four bytes were written"),
    }
    let mut de = typed(&[0x15, 0x40, 0x0A, 0, 0, 0, 0, 0, 0]);
    let bits = de.deserialize_float().unwrap();
    match bits {
        FloatBits::Double(b) => assert_eq!(f64::from_bits(b), 3.25),
        FloatBits::Single(_) => panic!("eight bytes were written"),
    }
}

#[test]
fn float_errors() {
    assert_eq!(
        Deserializer::new(vec![0, 0, 0, 0]).deserialize_float(),
        Err(Error::MissingType)
    );
    assert_eq!(typed(&[0x10, 0x01]).deserialize_float(), Err(Error::TypeMismatch));
    assert_eq!(typed(&[0x1C]).deserialize_float(), Err(Error::TypeMismatch));
    assert_eq!(typed(&[0x14, 0, 0, 0]).deserialize_float(), Err(Error::UnexpectedEnd));
    assert_eq!(
        typed(&[0x15, 0, 0, 0, 0, 0, 0, 0]).deserialize_float(),
        Err(Error::UnexpectedEnd)
    );
}

#[test]
fn strings_of_both_length_forms() {
    let mut de = typed(&[0x16, 0x03, 0x68, 0xC3, 0xA9, 0x99]);
    assert_eq!(de.deserialize_str(), Ok("hé".to_string()));
    assert_eq!(de.read_u8(), Ok(0x99));
    let mut de = typed(&[0x17, 0x00, 0x00, 0x00, 0x02, 0x6F, 0x6B]);
    assert_eq!(de.deserialize_str(), Ok("ok".to_string()));
    let mut de = typed(&[0x16, 0x00]);
    assert_eq!(de.deserialize_str(), Ok(String::new()));
}

#[test]
fn string_errors() {
    assert_eq!(
        Deserializer::new(vec![0x01, 0x61]).deserialize_str(),
        Err(Error::MissingType)
    );
    assert_eq!(typed(&[0x10, 0x61]).deserialize_str(), Err(Error::TypeMismatch));
    assert_eq!(typed(&[0x12, 0, 0, 0, 0]).deserialize_str(), Err(Error::TypeMismatch));
    assert_eq!(typed(&[0x16]).deserialize_str(), Err(Error::UnexpectedEnd));
    assert_eq!(typed(&[0x16, 0x02, 0x61]).deserialize_str(), Err(Error::UnexpectedEnd));
    assert_eq!(typed(&[0x17, 0, 0, 0]).deserialize_str(), Err(Error::UnexpectedEnd));
    assert_eq!(
        typed(&[0x17, 0xFF, 0xFF, 0xFF, 0xFF, 0x61]).deserialize_str(),
        Err(Error::UnexpectedEnd)
    );
}

#[test]
fn string_that_is_not_utf8_is_refused() {
    assert_eq!(typed(&[0x16, 0x01, 0xFF]).deserialize_str(), Err(Error::InvalidUtf8));
    assert_eq!(typed(&[0x16, 0x01, 0xC3]).deserialize_str(), Err(Error::InvalidUtf8));
    assert_eq!(
        typed(&[0x16, 0x03, 0xED, 0xA0, 0x80]).deserialize_str(),
        Err(Error::InvalidUtf8)
    );
    assert_eq!(
        typed(&[0x16, 0x02, 0xC0, 0x80]).deserialize_str(),
        Err(Error::InvalidUtf8)
    );
}

#[test]
fn raw_byte_block_is_read_back() {
    let mut de = typed(&[0x2D, 0x00, 0x00, 0x04, 0xDE, 0xAD, 0xBE, 0xEF, 0x77]);
    assert_eq!(de.deserialize_bytes(), Ok(vec![0xDE, 0xAD, 0xBE, 0xEF]));
    assert_eq!(de.read_u8(), Ok(0x77));
    let mut de = typed(&[0x1D, 0x00, 0x0C]);
    assert_eq!(de.deserialize_bytes(), Ok(Vec::new()));
}

#[test]
fn raw_byte_block_marker_tag_is_not_looked_at() {
    let mut de = typed(&[0x1D, 0x50, 0x00, 0x01, 0xAB]);
    assert_eq!(de.deserialize_bytes(), Ok(vec![0xAB]));
}

#[test]
fn raw_byte_block_needs_the_marker() {
    for marker in [1u8, 2, 3, 4, 5, 6, 7, 8, 9, 10, 11, 12, 13, 14, 15] {
        let mut de = typed(&[0x1D, marker, 0x00, 0x01, 0xAB]);
        assert_eq!(de.deserialize_bytes(), Err(Error::InvalidBlockMarker), "{}", marker);
    }
}

#[test]
fn raw_byte_block_errors() {
    assert_eq!(
        Deserializer::new(vec![0x00, 0x0C]).deserialize_bytes(),
        Err(Error::MissingType)
    );
    assert_eq!(typed(&[0x19, 0x00, 0x0C]).deserialize_bytes(), Err(Error::TypeMismatch));
    assert_eq!(typed(&[0x1D]).deserialize_bytes(), Err(Error::UnexpectedEnd));
    assert_eq!(typed(&[0x1D, 0x00]).deserialize_bytes(), Err(Error::UnexpectedEnd));
    assert_eq!(
        typed(&[0x1D, 0x00, 0x00, 0x02, 0xAB]).deserialize_bytes(),
        Err(Error::UnexpectedEnd)
    );
    assert_eq!(
        typed(&[0x1D, 0x00, 0x06, 0x00]).deserialize_bytes(),
        Err(Error::TypeMismatch)
    );
}

#[test]
fn negative_length_cannot_be_served() {
    assert_eq!(
        typed(&[0x1D, 0x00, 0x00, 0xFF, 0xAB]).deserialize_bytes(),
        Err(Error::UnexpectedEnd)
    );
    assert!(typed(&[0x19, 0x00, 0xFF, 0x0C]).deserialize_seq().is_err());
    assert!(typed(&[0x18, 0x00, 0xFF, 0x0C]).deserialize_map().is_err());
    let mut de = Deserializer::new(vec![0x00, 0xFF, 0x0C]);
    assert_eq!(de.deserialize_any_value(9), Err(Error::UnexpectedEnd));
    let mut de = Deserializer::new(vec![0x00, 0xFF, 0x0C]);
    assert_eq!(de.skip_type(9), Err(Error::UnexpectedEnd));
    let mut de = Deserializer::new(vec![0x00, 0xFF, 0x0C]);
    assert_eq!(de.skip_type(8), Err(Error::UnexpectedEnd));
    let mut de = Deserializer::new(vec![0x00, 0x00, 0xFF, 0x0C]);
    assert_eq!(de.skip_type(13), Err(Error::UnexpectedEnd));
}

#[test]
fn sequence_countdown() {
    let mut de = typed(&[0x19, 0x00, 0x02, 0x00, 0x05, 0x1C, 0x44]);
    let mut seq = de.deserialize_seq().unwrap();
    assert_eq!(seq.next_element(&mut de), Ok(Some(0)));
    assert_eq!(de.get_number(), Ok(5));
    assert_eq!(seq.next_element(&mut de), Ok(Some(12)));
    assert_eq!(de.get_number(), Ok(0));
    assert_eq!(seq.next_element(&mut de), Ok(None));
    assert_eq!(seq.next_element(&mut de), Ok(None));
    assert_eq!(de.read_u8(), Ok(0x44));
}

#[test]
fn sequence_errors() {
    assert_eq!(
        Deserializer::new(vec![0x0C]).deserialize_seq().err(),
        Some(Error::MissingType)
    );
    assert_eq!(typed(&[0x18, 0x0C]).deserialize_seq().err(), Some(Error::TypeMismatch));
    assert_eq!(typed(&[0x19]).deserialize_seq().err(), Some(Error::UnexpectedEnd));
    assert_eq!(typed(&[0x19, 0x06, 0x00]).deserialize_seq().err(), Some(Error::TypeMismatch));
    let mut de = typed(&[0x19, 0x00, 0x01]);
    let mut seq = de.deserialize_seq().unwrap();
    assert_eq!(seq.next_element(&mut de), Err(Error::UnexpectedEnd));
}

#[test]
fn map_countdown() {
    let mut de = typed(&[0x18, 0x00, 0x02, 0x00, 0x0A, 0x10, 0x14, 0x00, 0x1E, 0x1C, 0x44]);
    let mut map = de.deserialize_map().unwrap();
    assert_eq!(map.next_key(&mut de), Ok(Some(0)));
    assert_eq!(de.get_number(), Ok(10));
    assert_eq!(map.next_value(&mut de), Ok(0));
    assert_eq!(de.get_number(), Ok(20));
    assert_eq!(map.next_key(&mut de), Ok(Some(0)));
    assert_eq!(de.get_number(), Ok(30));
    assert_eq!(map.next_value(&mut de), Ok(12));
    assert_eq!(de.get_number(), Ok(0));
    assert_eq!(map.next_key(&mut de), Ok(None));
    assert_eq!(de.read_u8(), Ok(0x44));
}

#[test]
fn map_errors() {
    assert_eq!(
        Deserializer::new(vec![0x0C]).deserialize_map().err(),
        Some(Error::MissingType)
    );
    assert_eq!(typed(&[0x19, 0x0C]).deserialize_map().err(), Some(Error::TypeMismatch));
    assert_eq!(typed(&[0x18]).deserialize_map().err(), Some(Error::UnexpectedEnd));
    let mut de = typed(&[0x18, 0x00, 0x01, 0x0C]);
    let mut map = de.deserialize_map().unwrap();
    assert_eq!(map.next_key(&mut de), Ok(Some(12)));
    assert_eq!(map.next_value(&mut de), Err(Error::UnexpectedEnd));
}

#[test]
fn outermost_record_ends_with_the_input() {
    let mut de = Deserializer::new(vec![0x10, 0x05]);
    let mut fields = de.deserialize_struct().unwrap();
    assert_eq!(fields.next_key(&mut de), Ok(Some(1)));
    assert_eq!(de.get_number(), Ok(5));
    assert_eq!(fields.next_key(&mut de), Ok(None));
}

#[test]
fn outermost_record_ends_with_a_header_cut_short() {
    let mut de = Deserializer::new(vec![0xF0]);
    let mut fields = de.deserialize_struct().unwrap();
    assert_eq!(fields.next_key(&mut de), Ok(None));
}

#[test]
fn nested_record_needs_its_sentinel() {
    let mut de = typed(&[0x1A, 0x20, 0x05]);
    let mut inner = de.deserialize_struct().unwrap();
    assert_eq!(inner.next_key(&mut de), Ok(Some(2)));
    assert_eq!(de.get_number(), Ok(5));
    assert_eq!(inner.next_key(&mut de), Err(Error::UnexpectedEnd));
}

#[test]
fn nested_record_ends_at_its_sentinel() {
    let mut de = typed(&[0x1A, 0x20, 0x05, 0x0B, 0x30, 0x06]);
    let mut inner = de.deserialize_struct().unwrap();
    assert_eq!(inner.next_key(&mut de), Ok(Some(2)));
    assert_eq!(de.get_number(), Ok(5));
    assert_eq!(inner.next_key(&mut de), Ok(None));
    let mut outer = StructAccessor::new(true);
    assert_eq!(outer.next_key(&mut de), Ok(Some(3)));
    assert_eq!(de.get_number(), Ok(6));
    assert_eq!(outer.next_key(&mut de), Ok(None));
}

#[test]
fn record_under_another_type_is_refused() {
    assert_eq!(
        typed(&[0x19, 0x0C]).deserialize_struct().err(),
        Some(Error::TypeMismatch)
    );
    assert_eq!(typed(&[0x1B]).deserialize_struct().err(), Some(Error::TypeMismatch));
}

fn read_tags_one_and_three(bytes: Vec<u8>) -> Result<(Option<i64>, Option<i64>), Error> {
    let mut de = Deserializer::new(bytes);
    let mut fields = de.deserialize_struct()?;
    let mut first = None;
    let mut third = None;
    while let Some(tag) = fields.next_key(&mut de)? {
        match tag {
            1 => first = Some(de.get_number()?),
            3 => third = Some(de.get_number()?),
            _ => de.deserialize_ignored_any()?,
        }
    }
    Ok((first, third))
}

#[test]
fn unknown_nested_record_is_skipped() {
    let bytes = vec![
        0x10, 0x07, // 1: 7
        0x2A, 0x10, 0x01, 0x5A, 0x16, 0x01, 0x78, 0x0B, 0x0B, // 2: record in record
        0x31, 0x01, 0x00, // 3: 256
    ];
    assert_eq!(read_tags_one_and_three(bytes), Ok((Some(7), Some(256))));
}

#[test]
fn unknown_sequence_is_skipped() {
    let bytes = vec![
        0x10, 0x07, // 1: 7
        0x29, 0x00, 0x03, 0x00, 0x01, 0x16, 0x02, 0x68, 0x69, 0x29, 0x0C, // 2: sequence
        0x31, 0x01, 0x00, // 3: 256
    ];
    assert_eq!(read_tags_one_and_three(bytes), Ok((Some(7), Some(256))));
}

#[test]
fn unknown_raw_byte_block_is_skipped() {
    let bytes = vec![
        0x10, 0x07, // 1: 7
        0x2D, 0x00, 0x00, 0x03, 0x31, 0x01, 0x00, // 2: three bytes that look like field 3
        0x31, 0x01, 0x00, // 3: 256
    ];
    assert_eq!(read_tags_one_and_three(bytes), Ok((Some(7), Some(256))));
}

#[test]
fn unknown_map_and_scalars_are_skipped() {
    let bytes = vec![
        0x10, 0x07, // 1: 7
        0x28, 0x00, 0x01, 0x06, 0x01, 0x6B, 0x15, 1, 2, 3, 4, 5, 6, 7, 8, // 2: map
        0x44, 9, 9, 9, 9, // 4: float
        0x5C, // 5: zero
        0x31, 0x01, 0x00, // 3: 256
        0x67, 0, 0, 0, 1, 0x7A, // 6: long string
    ];
    assert_eq!(read_tags_one_and_three(bytes), Ok((Some(7), Some(256))));
}

#[test]
fn ignoring_without_current_type_is_missing_type() {
    let mut de = Deserializer::new(vec![0x00]);
    assert_eq!(de.deserialize_ignored_any(), Err(Error::MissingType));
    assert_eq!(de.read_u8(), Ok(0x00));
}

#[test]
fn every_type_code_has_a_skip_rule() {
    let samples: Vec<(u8, Vec<u8>)> = vec![
        (0, vec![0x01]),
        (1, vec![0x01, 0x02]),
        (2, vec![0x01, 0x02, 0x03, 0x04]),
        (3, vec![1, 2, 3, 4, 5, 6, 7, 8]),
        (4, vec![1, 2, 3, 4]),
        (5, vec![1, 2, 3, 4, 5, 6, 7, 8]),
        (6, vec![0x02, 0x61, 0x62]),
        (7, vec![0, 0, 0, 2, 0x61, 0x62]),
        (8, vec![0x00, 0x01, 0x00, 0x01, 0x10, 0x02]),
        (9, vec![0x00, 0x02, 0x00, 0x01, 0x1C]),
        (10, vec![0x10, 0x01, 0x0B]),
        (11, vec![]),
        (12, vec![]),
        (13, vec![0x00, 0x00, 0x02, 0xAA, 0xBB]),
    ];
    assert_eq!(samples.len(), 14);
    for (typ, payload) in samples {
        let mut bytes = payload.clone();
        bytes.push(0x5A);
        let mut de = Deserializer::new(bytes);
        assert_eq!(de.skip_type(typ), Ok(()), "type {}", typ);
        assert_eq!(de.read_u8(), Ok(0x5A), "type {}", typ);
        assert_eq!(de.read_u8(), Err(Error::UnexpectedEnd), "type {}", typ);
    }
}

#[test]
fn skip_rejects_unknown_type_codes() {
    for typ in [14u8, 15, 16, 255] {
        let mut de = Deserializer::new(vec![0, 0, 0, 0]);
        assert_eq!(de.skip_type(typ), Err(Error::UnknownTypeCode));
    }
}

#[test]
fn skip_needs_the_whole_value() {
    let cut: Vec<(u8, Vec<u8>)> = vec![
        (0, vec![]),
        (1, vec![0x01]),
        (2, vec![1, 2, 3]),
        (3, vec![1, 2, 3, 4, 5, 6, 7]),
        (4, vec![1]),
        (5, vec![1, 2, 3, 4]),
        (6, vec![0x02, 0x61]),
        (7, vec![0, 0, 0, 2, 0x61]),
        (8, vec![0x00, 0x01, 0x00, 0x01]),
        (9, vec![0x00, 0x02, 0x00, 0x01]),
        (10, vec![0x10, 0x01]),
        (13, vec![0x00, 0x00, 0x02, 0xAA]),
    ];
    for (typ, bytes) in cut {
        let mut de = Deserializer::new(bytes);
        assert_eq!(de.skip_type(typ), Err(Error::UnexpectedEnd), "type {}", typ);
    }
}

#[test]
fn skip_does_not_ask_for_utf8_or_the_block_marker() {
    let mut de = Deserializer::new(vec![0x01, 0xFF, 0x5A]);
    assert_eq!(de.skip_type(6), Ok(()));
    assert_eq!(de.read_u8(), Ok(0x5A));
    let mut de = Deserializer::new(vec![0x05, 0x00, 0x01, 0xAA, 0x5A]);
    assert_eq!(de.skip_type(13), Ok(()));
    assert_eq!(de.read_u8(), Ok(0x5A));
}

#[test]
fn skip_meets_unknown_type_inside() {
    let mut de = Deserializer::new(vec![0x00, 0x01, 0x0E]);
    assert_eq!(de.skip_type(9), Err(Error::UnknownTypeCode));
    let mut de = Deserializer::new(vec![0x1F, 0x0B]);
    assert_eq!(de.skip_type(10), Err(Error::UnknownTypeCode));
}
