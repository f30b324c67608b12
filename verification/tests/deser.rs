use wirecodec::deser::Buffer;
use wirecodec::deser::Error;
use wirecodec::deser::LenWidth;
use wirecodec::deser::Serializer;
use wirecodec::deser::Slice;
use wirecodec::deser::{read_le, read_u16_le, read_u32_le, read_u8};

fn serializer(capacity: usize, width: LenWidth) -> Serializer<Slice> {
    Serializer::new(Slice::new(vec![0u8; capacity]), width)
}

#[test]
fn copies_with_space_left() {
    let src = [1u8, 2, 3, 4];
    let dst = vec![0u8; 20];
    let mut out = Slice::new(dst);
    let copied = out.copy_from_slice(&src);
    assert!(copied == Ok(()));
}

#[test]
fn finalize_without_writes_is_empty() {
    let sink = Slice::new(vec![0u8; 16]);
    let out = sink.finalize().unwrap();
    assert_eq!(out, Vec::<u8>::new());
}

#[test]
fn finalize_empty_buffer_is_empty() {
    let sink = Slice::new(Vec::new());
    let out = sink.finalize().unwrap();
    assert_eq!(out, Vec::<u8>::new());
}

#[test]
fn push_advances_and_stops_at_capacity() {
    let mut sink = Slice::new(vec![0u8; 2]);
    assert_eq!(sink.push(0xAA), Ok(()));
    assert_eq!(sink.push(0xBB), Ok(()));
    assert_eq!(sink.push(0xCC), Err(Error::NoSpaceLeft));
    assert_eq!(sink.finalize().unwrap(), vec![0xAA, 0xBB]);
}

#[test]
fn slice_write_is_atomic() {
    let mut sink = Slice::new(vec![0u8; 2]);
    assert_eq!(sink.copy_from_slice(&[1, 2, 3, 4]), Err(Error::NoSpaceLeft));
    // Nothing of the slice may be behind after the failure.
    assert_eq!(sink.finalize().unwrap(), Vec::<u8>::new());
}

#[test]
fn u16_is_little_endian() {
    let mut ser = serializer(8, LenWidth::Four);
    assert_eq!(ser.serialize_u16(0x1234), Ok(()));
    assert_eq!(ser.output.finalize().unwrap(), vec![0x34, 0x12]);
}

#[test]
fn variant_ordinal_is_four_bytes() {
    let mut ser = serializer(8, LenWidth::Four);
    assert_eq!(ser.serialize_unit_variant("E", 3, "V"), Ok(()));
    assert_eq!(ser.output.finalize().unwrap(), vec![0x03, 0x00, 0x00, 0x00]);
}

#[test]
fn exact_capacity_succeeds_and_one_less_fails() {
    let mut ser = serializer(4, LenWidth::Four);
    assert_eq!(ser.serialize_u32(0xDEAD_BEEF), Ok(()));
    assert_eq!(ser.output.finalize().unwrap(), vec![0xEF, 0xBE, 0xAD, 0xDE]);

    let mut ser = serializer(3, LenWidth::Four);
    assert_eq!(ser.serialize_u32(0xDEAD_BEEF), Err(Error::NoSpaceLeft));
    assert_eq!(ser.output.finalize().unwrap(), Vec::<u8>::new());
}

#[test]
fn unsigned_widths() {
    let mut ser = serializer(16, LenWidth::Four);
    assert_eq!(ser.serialize_u8(0x7F), Ok(()));
    assert_eq!(ser.serialize_u64(0x0102_0304_0506_0708), Ok(()));
    assert_eq!(
        ser.output.finalize().unwrap(),
        vec![0x7F, 0x08, 0x07, 0x06, 0x05, 0x04, 0x03, 0x02, 0x01]
    );
}

#[test]
fn signed_values_are_twos_complement() {
    let mut ser = serializer(16, LenWidth::Four);
    assert_eq!(ser.serialize_i8(-1), Ok(()));
    assert_eq!(ser.serialize_i16(-2), Ok(()));
    assert_eq!(ser.serialize_i32(-3), Ok(()));
    assert_eq!(
        ser.output.finalize().unwrap(),
        vec![0xFF, 0xFE, 0xFF, 0xFD, 0xFF, 0xFF, 0xFF]
    );
}

#[test]
fn signed_64_bit_round_value() {
    let mut ser = serializer(8, LenWidth::Four);
    assert_eq!(ser.serialize_i64(-2), Ok(()));
    assert_eq!(
        ser.output.finalize().unwrap(),
        vec![0xFE, 0xFF, 0xFF, 0xFF, 0xFF, 0xFF, 0xFF, 0xFF]
    );
}

#[test]
fn bool_is_one_byte() {
    let mut ser = serializer(4, LenWidth::Four);
    assert_eq!(ser.serialize_bool(true), Ok(()));
    assert_eq!(ser.serialize_bool(false), Ok(()));
    assert_eq!(ser.output.finalize().unwrap(), vec![1, 0]);
}

#[test]
fn str_carries_policy_width_prefix() {
    let mut ser = serializer(8, LenWidth::Two);
    assert_eq!(ser.serialize_str("abc"), Ok(()));
    assert_eq!(ser.output.finalize().unwrap(), vec![3, 0, b'a', b'b', b'c']);
}

#[test]
fn str_over_prefix_maximum_is_rejected() {
    let text = "x".repeat(256);
    let mut ser = serializer(1024, LenWidth::One);
    assert_eq!(ser.serialize_str(&text), Err(Error::LenTooLarge));
    assert_eq!(ser.output.finalize().unwrap(), Vec::<u8>::new());
}

#[test]
fn length_prefix_enforces_width_maximum() {
    let mut ser = serializer(1024, LenWidth::One);
    assert_eq!(ser.push_usize_len(255), Ok(()));
    assert_eq!(ser.push_usize_len(256), Err(Error::LenTooLarge));
    let mut ser = serializer(1024, LenWidth::Two);
    assert_eq!(ser.push_usize_len(65535), Ok(()));
    assert_eq!(ser.push_usize_len(65536), Err(Error::LenTooLarge));
}

#[test]
fn char_is_utf8_text() {
    let mut ser = serializer(8, LenWidth::One);
    assert_eq!(ser.serialize_char('\u{e9}'), Ok(()));
    assert_eq!(ser.output.finalize().unwrap(), vec![2, 0xC3, 0xA9]);

    let mut ser = serializer(8, LenWidth::One);
    assert_eq!(ser.serialize_char('A'), Ok(()));
    assert_eq!(ser.output.finalize().unwrap(), vec![1, b'A']);

    let mut ser = serializer(8, LenWidth::One);
    assert_eq!(ser.serialize_char('\u{20ac}'), Ok(()));
    assert_eq!(ser.output.finalize().unwrap(), vec![3, 0xE2, 0x82, 0xAC]);
}

#[test]
fn bytes_always_carry_32_bit_length() {
    let mut ser = serializer(8, LenWidth::One);
    assert_eq!(ser.serialize_bytes(&[0xAA, 0xBB]), Ok(()));
    assert_eq!(
        ser.output.finalize().unwrap(),
        vec![2, 0, 0, 0, 0xAA, 0xBB]
    );
}

#[test]
fn optionals_are_flag_then_value() {
    let mut ser = serializer(8, LenWidth::Four);
    assert_eq!(ser.serialize_none(), Ok(()));
    assert_eq!(ser.serialize_some(), Ok(()));
    assert_eq!(ser.serialize_u8(7), Ok(()));
    assert_eq!(ser.output.finalize().unwrap(), vec![0, 1, 7]);
}

#[test]
fn sequence_of_three_bytes() {
    let mut ser = serializer(16, LenWidth::Four);
    assert_eq!(ser.serialize_seq(Some(3)), Ok(()));
    for v in [1u8, 2, 3] {
        assert_eq!(ser.serialize_u8(v), Ok(()));
    }
    assert_eq!(ser.end(), Ok(()));
    assert_eq!(
        ser.output.finalize().unwrap(),
        vec![0x03, 0x00, 0x00, 0x00, 1, 2, 3]
    );
}

#[test]
fn unknown_length_sequence_is_refused() {
    let mut ser = serializer(16, LenWidth::Four);
    assert_eq!(ser.serialize_seq(None), Err(Error::NoSpaceLeft));
    assert_eq!(ser.serialize_map(None), Err(Error::NoSpaceLeft));
    assert_eq!(ser.output.finalize().unwrap(), Vec::<u8>::new());
}

#[test]
fn map_counts_entries() {
    let mut ser = serializer(16, LenWidth::One);
    assert_eq!(ser.serialize_map(Some(1)), Ok(()));
    assert_eq!(ser.serialize_u8(9), Ok(()));
    assert_eq!(ser.serialize_u16(0x0102), Ok(()));
    assert_eq!(ser.end(), Ok(()));
    assert_eq!(ser.output.finalize().unwrap(), vec![1, 9, 0x02, 0x01]);
}

#[test]
fn units_and_compound_markers_write_nothing() {
    let mut ser = serializer(4, LenWidth::Four);
    assert_eq!(ser.serialize_unit(), Ok(()));
    assert_eq!(ser.serialize_unit_struct("Marker"), Ok(()));
    assert_eq!(ser.serialize_newtype_struct("Wrapper"), Ok(()));
    assert_eq!(ser.serialize_tuple(2), Ok(()));
    assert_eq!(ser.serialize_tuple_struct("Pair", 2), Ok(()));
    assert_eq!(ser.serialize_struct("Record", 3), Ok(()));
    assert_eq!(ser.output.finalize().unwrap(), Vec::<u8>::new());
}

#[test]
fn variant_markers_write_their_ordinal() {
    let mut ser = serializer(16, LenWidth::Four);
    assert_eq!(ser.serialize_newtype_variant("E", 1, "A"), Ok(()));
    assert_eq!(ser.serialize_tuple_variant("E", 2, "B", 2), Ok(()));
    assert_eq!(ser.serialize_struct_variant("E", 3, "C", 1), Ok(()));
    assert_eq!(
        ser.output.finalize().unwrap(),
        vec![1, 0, 0, 0, 2, 0, 0, 0, 3, 0, 0, 0]
    );
}

#[test]
fn stringification_is_unsupported() {
    let mut ser = serializer(16, LenWidth::Four);
    assert_eq!(ser.collect_str(), Err(Error::NoDisplay));
    assert!(!ser.is_human_readable());
}

#[test]
fn error_descriptions() {
    assert_eq!(Error::Custom.description(), "Custom error");
    assert_eq!(Error::NoSpaceLeft.description(), "Buffer is full");
    assert_eq!(Error::NoDisplay.description(), "No collect_str available");
    assert_eq!(Error::LenTooLarge.description(), "Length too large");
}

#[test]
fn readers_invert_writers() {
    assert_eq!(read_u8(&[0xAB], 0), Some((0xAB, 1)));
    assert_eq!(read_u16_le(&[0x34, 0x12], 0), Some((0x1234, 2)));
    assert_eq!(
        read_u32_le(&[0xEF, 0xBE, 0xAD, 0xDE], 0),
        Some((0xDEAD_BEEF, 4))
    );
    assert_eq!(
        read_le(&[0x08, 0x07, 0x06, 0x05, 0x04, 0x03, 0x02, 0x01], 0, 8),
        Some((0x0102_0304_0506_0708, 8))
    );
    assert_eq!(read_u16_le(&[0x34], 0), None);
    assert_eq!(read_u32_le(&[1, 2, 3, 4], 1), None);
}
