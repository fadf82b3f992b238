use patchwork::wire::{
    put_bool, put_bytes, put_i16, put_i32, put_i64, put_i8, put_int_run, put_long_array,
    put_string, put_u128, put_u16, put_u32, put_u64, put_u8, put_varint, put_varint_array,
    read_bool, read_bytes, read_i16, read_i32, read_i64, read_i8, read_int_run, read_long_array,
    read_string, read_u128, read_u16, read_u32, read_u64, read_u8, read_varint,
    read_varint_array, DecodeError,
};

fn varint(v: i32) -> Vec<u8> {
    let mut out: Vec<u8> = Vec::new();
    put_varint(&mut out, v);
    out
}

#[test]
fn varint_zero_is_one_zero_byte() {
    assert_eq!(varint(0), vec![0x00]);
    assert_eq!(read_varint(&[0x00], 0), Ok((0, 1)));
}

#[test]
fn varint_127_is_the_last_of_one_byte() {
    assert_eq!(varint(127), vec![0x7f]);
    assert_eq!(read_varint(&[0x7f], 0), Ok((127, 1)));
}

#[test]
fn varint_128_is_the_first_of_two_bytes() {
    assert_eq!(varint(128), vec![0x80, 0x01]);
    assert_eq!(read_varint(&[0x80, 0x01], 0), Ok((128, 2)));
}

#[test]
fn varint_2097151_is_the_last_of_three_bytes() {
    assert_eq!(varint(2_097_151), vec![0xff, 0xff, 0x7f]);
    assert_eq!(read_varint(&[0xff, 0xff, 0x7f], 0), Ok((2_097_151, 3)));
    assert_eq!(varint(2_097_152), vec![0x80, 0x80, 0x80, 0x01]);
}

#[test]
fn varint_of_the_largest_value_takes_five_bytes() {
    assert_eq!(varint(i32::MAX), vec![0xff, 0xff, 0xff, 0xff, 0x07]);
    assert_eq!(read_varint(&[0xff, 0xff, 0xff, 0xff, 0x07], 0), Ok((i32::MAX, 5)));
}

#[test]
fn varint_of_a_negative_value_takes_five_bytes() {
    assert_eq!(varint(-1), vec![0xff, 0xff, 0xff, 0xff, 0x0f]);
    assert_eq!(read_varint(&[0xff, 0xff, 0xff, 0xff, 0x0f], 0), Ok((-1, 5)));
    assert_eq!(varint(i32::MIN), vec![0x80, 0x80, 0x80, 0x80, 0x08]);
    assert_eq!(read_varint(&[0x80, 0x80, 0x80, 0x80, 0x08], 0), Ok((i32::MIN, 5)));
}

#[test]
fn varint_round_trips_on_sample_values() {
    let samples: [i32; 12] =
        [0, 1, 2, 127, 128, 255, 300, 16_383, 16_384, 2_097_151, -2, -12_345_678];
    for v in samples {
        let bytes = varint(v);
        assert_eq!(read_varint(&bytes, 0), Ok((v, bytes.len())));
    }
}

#[test]
fn varint_is_read_from_the_given_position() {
    assert_eq!(read_varint(&[0xaa, 0xac, 0x02, 0x55], 1), Ok((300, 3)));
}

#[test]
fn varint_with_a_sixth_byte_is_malformed() {
    assert_eq!(
        read_varint(&[0x80, 0x80, 0x80, 0x80, 0x80, 0x01], 0),
        Err(DecodeError::MalformedVarInt)
    );
}

#[test]
fn varint_that_ends_early_is_truncated() {
    assert_eq!(read_varint(&[0x80], 0), Err(DecodeError::Truncated));
    assert_eq!(read_varint(&[], 0), Err(DecodeError::Truncated));
    assert_eq!(read_varint(&[0x01], 1), Err(DecodeError::Truncated));
}

#[test]
fn integers_are_written_big_endian() {
    let mut out: Vec<u8> = Vec::new();
    put_u8(&mut out, 0xab);
    put_i8(&mut out, -2);
    put_u16(&mut out, 0x1234);
    put_i16(&mut out, -2);
    put_u32(&mut out, 0xdead_beef);
    put_i32(&mut out, -2);
    put_u64(&mut out, 0x0102_0304_0506_0708);
    put_i64(&mut out, -2);
    assert_eq!(
        out,
        vec![
            0xab, 0xfe, 0x12, 0x34, 0xff, 0xfe, 0xde, 0xad, 0xbe, 0xef, 0xff, 0xff, 0xff, 0xfe,
            0x01, 0x02, 0x03, 0x04, 0x05, 0x06, 0x07, 0x08, 0xff, 0xff, 0xff, 0xff, 0xff, 0xff,
            0xff, 0xfe,
        ]
    );
    assert_eq!(read_u8(&out, 0), Ok((0xab, 1)));
    assert_eq!(read_i8(&out, 1), Ok((-2, 2)));
    assert_eq!(read_u16(&out, 2), Ok((0x1234, 4)));
    assert_eq!(read_i16(&out, 4), Ok((-2, 6)));
    assert_eq!(read_u32(&out, 6), Ok((0xdead_beef, 10)));
    assert_eq!(read_i32(&out, 10), Ok((-2, 14)));
    assert_eq!(read_u64(&out, 14), Ok((0x0102_0304_0506_0708, 22)));
    assert_eq!(read_i64(&out, 22), Ok((-2, 30)));
}

#[test]
fn integers_round_trip_at_the_ends_of_their_ranges() {
    for v in [i16::MIN, -1, 0, 1, i16::MAX] {
        let mut out: Vec<u8> = Vec::new();
        put_i16(&mut out, v);
        assert_eq!(read_i16(&out, 0), Ok((v, 2)));
    }
    for v in [i32::MIN, -1, 0, 1, i32::MAX] {
        let mut out: Vec<u8> = Vec::new();
        put_i32(&mut out, v);
        assert_eq!(read_i32(&out, 0), Ok((v, 4)));
    }
    for v in [i64::MIN, -1, 0, 1, i64::MAX] {
        let mut out: Vec<u8> = Vec::new();
        put_i64(&mut out, v);
        assert_eq!(read_i64(&out, 0), Ok((v, 8)));
    }
    for v in [i8::MIN, -1, 0, 1, i8::MAX] {
        let mut out: Vec<u8> = Vec::new();
        put_i8(&mut out, v);
        assert_eq!(read_i8(&out, 0), Ok((v, 1)));
    }
}

#[test]
fn identifier_is_sixteen_bytes_big_endian() {
    let id: u128 = 0x0011_2233_4455_6677_8899_aabb_ccdd_eeff;
    let mut out: Vec<u8> = Vec::new();
    put_u128(&mut out, id);
    assert_eq!(
        out,
        vec![
            0x00, 0x11, 0x22, 0x33, 0x44, 0x55, 0x66, 0x77, 0x88, 0x99, 0xaa, 0xbb, 0xcc, 0xdd,
            0xee, 0xff,
        ]
    );
    assert_eq!(read_u128(&out, 0), Ok((id, 16)));
}

#[test]
fn integer_that_ends_early_is_truncated() {
    assert_eq!(read_u16(&[0x01], 0), Err(DecodeError::Truncated));
    assert_eq!(read_i32(&[0x01, 0x02, 0x03], 0), Err(DecodeError::Truncated));
    assert_eq!(read_i64(&[0x00; 8], 1), Err(DecodeError::Truncated));
    assert_eq!(read_u128(&[0x00; 15], 0), Err(DecodeError::Truncated));
    assert_eq!(read_u8(&[], 0), Err(DecodeError::Truncated));
}

#[test]
fn boolean_is_one_byte() {
    let mut out: Vec<u8> = Vec::new();
    put_bool(&mut out, true);
    put_bool(&mut out, false);
    assert_eq!(out, vec![0x01, 0x00]);
    assert_eq!(read_bool(&out, 0), Ok((true, 1)));
    assert_eq!(read_bool(&out, 1), Ok((false, 2)));
    assert_eq!(read_bool(&out, 2), Err(DecodeError::Truncated));
}

#[test]
fn raw_bytes_are_copied() {
    let mut out: Vec<u8> = vec![9];
    put_bytes(&mut out, &[1, 2, 3]);
    assert_eq!(out, vec![9, 1, 2, 3]);
    assert_eq!(read_bytes(&out, 1, 2), Ok((vec![1, 2], 3)));
    assert_eq!(read_bytes(&out, 1, 3), Ok((vec![1, 2, 3], 4)));
    assert_eq!(read_bytes(&out, 1, 4), Err(DecodeError::Truncated));
}

#[test]
fn string_is_length_then_utf8() {
    let mut out: Vec<u8> = Vec::new();
    assert!(put_string(&mut out, &String::from("héllo")));
    assert_eq!(out, vec![0x06, b'h', 0xc3, 0xa9, b'l', b'l', b'o']);
    assert_eq!(read_string(&out, 0), Ok((String::from("héllo"), 7)));
}

#[test]
fn empty_string_is_one_zero_byte() {
    let mut out: Vec<u8> = Vec::new();
    assert!(put_string(&mut out, &String::new()));
    assert_eq!(out, vec![0x00]);
    assert_eq!(read_string(&out, 0), Ok((String::new(), 1)));
}

#[test]
fn long_string_has_a_two_byte_length() {
    let text: String = "ab".repeat(100);
    let mut out: Vec<u8> = Vec::new();
    assert!(put_string(&mut out, &text));
    assert_eq!(out.len(), 202);
    assert_eq!(&out[..2], &[0xc8, 0x01]);
    assert_eq!(read_string(&out, 0), Ok((text, 202)));
}

#[test]
fn string_that_is_not_utf8_is_refused() {
    assert_eq!(read_string(&[0x02, 0xff, 0xfe], 0), Err(DecodeError::InvalidUtf8));
    assert_eq!(read_string(&[0x01, 0xc3], 0), Err(DecodeError::InvalidUtf8));
}

#[test]
fn string_with_a_negative_length_is_refused() {
    assert_eq!(
        read_string(&[0xff, 0xff, 0xff, 0xff, 0x0f, b'a'], 0),
        Err(DecodeError::InvalidLength)
    );
}

#[test]
fn string_that_ends_early_is_truncated() {
    assert_eq!(read_string(&[0x03, b'a', b'b'], 0), Err(DecodeError::Truncated));
    assert_eq!(read_string(&[], 0), Err(DecodeError::Truncated));
}

#[test]
fn varint_array_is_count_then_items() {
    let items: Vec<i32> = vec![1, 300, -1];
    let mut out: Vec<u8> = Vec::new();
    assert!(put_varint_array(&mut out, &items));
    assert_eq!(out, vec![0x03, 0x01, 0xac, 0x02, 0xff, 0xff, 0xff, 0xff, 0x0f]);
    assert_eq!(read_varint_array(&out, 0), Ok((items, 9)));
}

#[test]
fn empty_varint_array_is_one_zero_byte() {
    let mut out: Vec<u8> = Vec::new();
    assert!(put_varint_array(&mut out, &Vec::new()));
    assert_eq!(out, vec![0x00]);
    assert_eq!(read_varint_array(&out, 0), Ok((Vec::new(), 1)));
}

#[test]
fn varint_array_with_a_missing_item_is_truncated() {
    assert_eq!(read_varint_array(&[0x02, 0x01], 0), Err(DecodeError::Truncated));
}

#[test]
fn varint_array_with_a_negative_count_is_refused() {
    assert_eq!(
        read_varint_array(&[0xff, 0xff, 0xff, 0xff, 0x0f], 0),
        Err(DecodeError::InvalidLength)
    );
}

#[test]
fn long_array_is_count_then_items() {
    let items: Vec<i64> = vec![1, -1];
    let mut out: Vec<u8> = Vec::new();
    assert!(put_long_array(&mut out, &items));
    assert_eq!(
        out,
        vec![
            0x02, 0, 0, 0, 0, 0, 0, 0, 1, 0xff, 0xff, 0xff, 0xff, 0xff, 0xff, 0xff, 0xff,
        ]
    );
    assert_eq!(read_long_array(&out, 0), Ok((items, 17)));
    assert_eq!(read_long_array(&out[..16], 0), Err(DecodeError::Truncated));
}

#[test]
fn int_run_has_no_count() {
    let items: Vec<i32> = vec![127, -1, 0x0102_0304];
    let mut out: Vec<u8> = Vec::new();
    put_int_run(&mut out, &items);
    assert_eq!(out, vec![0, 0, 0, 127, 0xff, 0xff, 0xff, 0xff, 1, 2, 3, 4]);
    assert_eq!(read_int_run(&out, 0, 3), Ok((items, 12)));
    assert_eq!(read_int_run(&out, 0, 2), Ok((vec![127, -1], 8)));
    assert_eq!(read_int_run(&out, 0, 4), Err(DecodeError::Truncated));
}
