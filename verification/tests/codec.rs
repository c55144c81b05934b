use tsfile_writer::bit_packing::{pack_bits, pack_values};
use tsfile_writer::encoding::time_encoder::{IntTs2DiffEncoder, LongTs2DiffEncoder, TimeEncoder};
use tsfile_writer::encoding::ts2diff::{
    calculate_bit_widths_for_delta_block_buffer, encode_block_32, encode_block_64,
    get_value_width, x_to_bytes,
};
use tsfile_writer::utils::{
    read_var_u32, size_var_i32, size_var_u32, write_i32_be, write_i64_be, write_u32_be,
    write_u64_be, write_var_i32, write_var_u32, zigzag_encode,
};

#[test]
fn encoding_test_long_to_bytes() {
    let mut result = vec![];
    let width = 4;
    TimeEncoder::long_to_bytes(1, &mut result, width * 0, width as u32);
    TimeEncoder::long_to_bytes(1, &mut result, width * 1, width as u32);
    TimeEncoder::long_to_bytes(1, &mut result, width * 2, width as u32);

    assert_eq!(result, [0b00010001, 0b00010000])
}

#[test]
fn encoding_test_long_to_bytes_2() {
    let mut result = vec![];
    let width = 7;
    TimeEncoder::long_to_bytes(0b0000001, &mut result, width * 0, width as u32);
    TimeEncoder::long_to_bytes(0b0000001, &mut result, width * 1, width as u32);
    TimeEncoder::long_to_bytes(0b0000001, &mut result, width * 2, width as u32);

    assert_eq!(result, [0b00000010, 0b00000100, 0b00001000])
}

#[test]
fn encoding_test_long_to_bytes_3() {
    let mut result = vec![];
    let width = 7;
    TimeEncoder::long_to_bytes(0, &mut result, width * 0, width as u32);
    TimeEncoder::long_to_bytes(81, &mut result, width * 1, width as u32);

    assert_eq!(result, [1, 68])
}

#[test]
fn time_encoder_test_long_to_bytes() {
    let mut result = vec![];
    let width = 4;
    LongTs2DiffEncoder::to_bytes(1, &mut result, width * 0, width as u32);
    LongTs2DiffEncoder::to_bytes(1, &mut result, width * 1, width as u32);
    LongTs2DiffEncoder::to_bytes(1, &mut result, width * 2, width as u32);

    assert_eq!(result, [0b00010001, 0b00010000])
}

#[test]
fn time_encoder_test_long_to_bytes_2() {
    let mut result = vec![];
    let width = 7;
    LongTs2DiffEncoder::to_bytes(0b0000001, &mut result, width * 0, width as u32);
    LongTs2DiffEncoder::to_bytes(0b0000001, &mut result, width * 1, width as u32);
    LongTs2DiffEncoder::to_bytes(0b0000001, &mut result, width * 2, width as u32);

    assert_eq!(result, [0b00000010, 0b00000100, 0b00001000])
}

#[test]
fn time_encoder_test_long_to_bytes_3() {
    let mut result = vec![];
    let width = 7;
    LongTs2DiffEncoder::to_bytes(0, &mut result, width * 0, width as u32);
    LongTs2DiffEncoder::to_bytes(81, &mut result, width * 1, width as u32);

    assert_eq!(result, [1, 68])
}

#[test]
fn test_int_to_bytes() {
    let mut result = vec![];
    let width = 4;
    IntTs2DiffEncoder::to_bytes(1, &mut result, width * 0, width as u32);
    IntTs2DiffEncoder::to_bytes(1, &mut result, width * 1, width as u32);
    IntTs2DiffEncoder::to_bytes(1, &mut result, width * 2, width as u32);

    assert_eq!(result, [0b00010001, 0b00010000])
}

#[test]
fn ts2diff_test_long_to_bytes() {
    let mut result = vec![];
    let width = 4;
    x_to_bytes(1, &mut result, width * 0, width as u32);
    x_to_bytes(1, &mut result, width * 1, width as u32);
    x_to_bytes(1, &mut result, width * 2, width as u32);

    assert_eq!(result, [0b00010001, 0b00010000])
}

#[test]
fn ts2diff_test_long_to_bytes_2() {
    let mut result = vec![];
    let width = 7;
    x_to_bytes(0b0000001, &mut result, width * 0, width as u32);
    x_to_bytes(0b0000001, &mut result, width * 1, width as u32);
    x_to_bytes(0b0000001, &mut result, width * 2, width as u32);

    assert_eq!(result, [0b00000010, 0b00000100, 0b00001000])
}

#[test]
fn ts2diff_test_long_to_bytes_3() {
    let mut result = vec![];
    let width = 7;
    x_to_bytes(0, &mut result, width * 0, width as u32);
    x_to_bytes(81, &mut result, width * 1, width as u32);

    assert_eq!(result, [1, 68])
}

#[test]
fn read_var_int() {
    for number in [
        1, 12, 123, 1234, 12345, 123456, 1234567, 12345678, 123456789,
    ] {
        let mut result: Vec<u8> = vec![];

        // Write it
        write_var_u32(number, &mut result);
        // Read it back
        let result: u32 = read_var_u32(result.as_slice()).unwrap().0;

        assert_eq!(number, result);
    }
}

#[test]
fn write_var_int() {
    let number: u32 = 123456789;
    let mut result: Vec<u8> = vec![];
    let position = write_var_u32(number, &mut result);

    assert_eq!(position, 4);
    assert_eq!(
        result.as_slice(),
        [0b10010101, 0b10011010, 0b11101111, 0b00111010]
    );
}

#[test]
fn write_var_int_2() {
    let number: u32 = 128;
    let mut result: Vec<u8> = vec![];
    let position = write_var_u32(number, &mut result);

    assert_eq!(position, 2);
    assert_eq!(result.as_slice(), [128, 1]);
}

#[test]
fn write_var_int_3() {
    let number: u32 = 13;
    let mut result: Vec<u8> = vec![];
    let position = write_var_u32(number, &mut result);

    assert_eq!(position, 1);
    assert_eq!(result.as_slice(), [13]);
}

#[test]
fn pre_write_var_int() {
    let mut number: u32 = 123456789;
    let bytes: [u8; 4] = number.to_be_bytes();
    assert_eq!(bytes, [0b00000111, 0b01011011, 0b11001101, 0b00010101]);

    let mut buffer: Vec<u8> = vec![];

    // Now compress them
    let mut position: u8 = 1;

    while (number & 0xFFFFFF80) != 0 {
        buffer.push(((number & 0x7F) | 0x80) as u8);
        number = number >> 7;
        position = position + 1;
    }

    buffer.push((number & 0x7F) as u8);

    assert_eq!(position, 4);
    assert_eq!(buffer, [0b10010101, 0b10011010, 0b11101111, 0b00111010]);

    let mut written: Vec<u8> = vec![];
    write_var_u32(123456789, &mut written);
    assert_eq!(written, buffer);
}

#[test]
fn var_u32_of_zero_is_one_zero_byte() {
    let mut result: Vec<u8> = vec![];
    assert_eq!(write_var_u32(0, &mut result), 1);
    assert_eq!(result, [0x00]);
}

#[test]
fn var_u32_round_trips_at_the_edges() {
    for number in [
        0u32,
        127,
        128,
        255,
        0x3FFF,
        0x4000,
        0x1F_FFFF,
        0x20_0000,
        0x0FFF_FFFF,
        0x1000_0000,
        u32::MAX,
    ] {
        let mut bytes: Vec<u8> = vec![];
        let written = write_var_u32(number, &mut bytes);
        assert_eq!(written as usize, bytes.len());
        assert_eq!(size_var_u32(number), written);
        bytes.push(0xFF);
        assert_eq!(read_var_u32(&bytes), Some((number, written as usize)));
    }
}

#[test]
fn read_var_u32_rejects_what_is_no_value() {
    assert_eq!(read_var_u32(&[]), None);
    assert_eq!(read_var_u32(&[0x80]), None);
    assert_eq!(read_var_u32(&[0xFF, 0xFF, 0xFF, 0xFF, 0x10]), None);
    assert_eq!(read_var_u32(&[0x80, 0x80, 0x80, 0x80, 0x80, 0x01]), None);
    assert_eq!(
        read_var_u32(&[0xFF, 0xFF, 0xFF, 0xFF, 0x0F]),
        Some((u32::MAX, 5))
    );
}

#[test]
fn var_i32_is_zig_zag() {
    assert_eq!(zigzag_encode(0), 0);
    assert_eq!(zigzag_encode(-1), 1);
    assert_eq!(zigzag_encode(1), 2);
    assert_eq!(zigzag_encode(-2), 3);
    assert_eq!(zigzag_encode(i32::MAX), u32::MAX - 1);
    assert_eq!(zigzag_encode(i32::MIN), u32::MAX);
    let mut bytes: Vec<u8> = vec![];
    assert_eq!(write_var_i32(13, &mut bytes), 1);
    assert_eq!(bytes, [0x1A]);
    let mut bytes: Vec<u8> = vec![];
    assert_eq!(write_var_i32(-64, &mut bytes), 1);
    assert_eq!(bytes, [0x7F]);
    let mut bytes: Vec<u8> = vec![];
    assert_eq!(write_var_i32(64, &mut bytes), 2);
    assert_eq!(bytes, [0x80, 0x01]);
    assert_eq!(size_var_i32(64), 2);
    assert_eq!(size_var_i32(63), 1);
    assert_eq!(size_var_i32(i32::MIN), 5);
}

#[test]
fn big_endian_writers_match_std() {
    let mut bytes: Vec<u8> = vec![];
    write_u32_be(0x0102_0304, &mut bytes);
    write_u64_be(0x0102_0304_0506_0708, &mut bytes);
    write_i32_be(-2, &mut bytes);
    write_i64_be(i64::MIN, &mut bytes);
    let mut expected: Vec<u8> = vec![];
    expected.extend_from_slice(&0x0102_0304u32.to_be_bytes());
    expected.extend_from_slice(&0x0102_0304_0506_0708u64.to_be_bytes());
    expected.extend_from_slice(&(-2i32).to_be_bytes());
    expected.extend_from_slice(&i64::MIN.to_be_bytes());
    assert_eq!(bytes, expected);
}

fn unpack(bytes: &[u8], pos: usize, width: usize) -> u64 {
    let mut value: u64 = 0;
    for k in 0..width {
        let j = pos + k;
        let bit = (bytes[j / 8] >> (7 - j % 8)) & 1;
        value = (value << 1) | bit as u64;
    }
    value
}

#[test]
fn packed_values_read_back_at_their_offsets() {
    for width in [1u32, 3, 7, 8, 13, 31, 32, 33, 63, 64] {
        let mask = if width == 64 { u64::MAX } else { (1u64 << width) - 1 };
        let values: Vec<u64> = (0..37u64)
            .map(|i| i.wrapping_mul(0x9E37_79B9_7F4A_7C15) & mask)
            .collect();
        let bytes = pack_values(&values, width);
        assert_eq!(bytes.len(), (values.len() * width as usize + 7) / 8);
        for (i, value) in values.iter().enumerate() {
            assert_eq!(unpack(&bytes, i * width as usize, width as usize), *value);
        }
    }
    assert_eq!(pack_values(&vec![0, 0, 0], 0), Vec::<u8>::new());
}

#[test]
fn packing_replaces_what_follows_and_keeps_what_precedes() {
    let mut stream: Vec<u8> = vec![0xFF, 0xFF, 0xFF];
    pack_bits(0b101, &mut stream, 4, 3);
    assert_eq!(stream, [0b1111_1010]);
    let mut stream: Vec<u8> = vec![0xAB];
    pack_bits(0, &mut stream, 8, 0);
    assert_eq!(stream, [0xAB]);
    let mut stream: Vec<u8> = vec![];
    pack_bits(u64::MAX, &mut stream, 0, 64);
    assert_eq!(stream, [0xFF; 8]);
}

#[test]
fn bit_width_is_the_place_of_the_highest_bit() {
    assert_eq!(get_value_width(0), 0);
    assert_eq!(get_value_width(1), 1);
    assert_eq!(get_value_width(81), 7);
    assert_eq!(get_value_width(255), 8);
    assert_eq!(get_value_width(256), 9);
    assert_eq!(get_value_width(u64::MAX), 64);
    assert_eq!(calculate_bit_widths_for_delta_block_buffer(&vec![]), 0);
    assert_eq!(
        calculate_bit_widths_for_delta_block_buffer(&vec![0, 81, 3]),
        7
    );
}

#[test]
fn block_has_header_and_packed_deltas() {
    let mut buffer: Vec<u8> = vec![];
    encode_block_64(1, 9, &vec![9, 90], &mut buffer);
    assert_eq!(
        buffer,
        [
            0, 0, 0, 2, 0, 0, 0, 7, 0, 0, 0, 0, 0, 0, 0, 9, 0, 0, 0, 0, 0, 0, 0, 1, 0x01, 0x44
        ]
    );
    let mut buffer: Vec<u8> = vec![];
    encode_block_32(-5, 2, &vec![2, 3, 5], &mut buffer);
    assert_eq!(
        buffer,
        [0, 0, 0, 3, 0, 0, 0, 2, 0, 0, 0, 2, 0xFF, 0xFF, 0xFF, 0xFB, 0b0001_1100]
    );
}

#[test]
fn block_of_wide_deltas_wraps_like_the_machine() {
    let mut buffer: Vec<u8> = vec![];
    encode_block_64(0, i64::MIN, &vec![i64::MAX, i64::MIN], &mut buffer);
    let mut expected: Vec<u8> = vec![0, 0, 0, 2, 0, 0, 0, 64];
    expected.extend_from_slice(&i64::MIN.to_be_bytes());
    expected.extend_from_slice(&0i64.to_be_bytes());
    expected.extend_from_slice(&u64::MAX.to_be_bytes());
    expected.extend_from_slice(&0u64.to_be_bytes());
    assert_eq!(buffer, expected);
}
