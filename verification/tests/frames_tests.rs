use mfl_inv::frames::{
    byte_order_named, decode_block, decode_reading, encode_sample_le, parse_byte_order, ByteOrder,
    FrameLayout, RawSample,
};

fn le_bytes(values: &[i32]) -> Vec<u8> {
    values.iter().flat_map(|v| v.to_le_bytes()).collect()
}

fn be_bytes(values: &[i32]) -> Vec<u8> {
    values.iter().flat_map(|v| v.to_be_bytes()).collect()
}

fn raw(axial: i32, radial: i32, circumferential: i32) -> RawSample {
    RawSample { axial, radial, circumferential }
}

#[test]
fn decodes_little_endian_four_byte_frames() {
    let data = le_bytes(&[1, 2, 3, -1, 100_000, -100_000]);
    let layout = FrameLayout { bytes_per_sample: 4, num_sensors: 2, byte_order: ByteOrder::LittleEndian };
    let out = decode_block(&data, layout, 1);
    assert_eq!(out, vec![vec![raw(1, 2, 3)], vec![raw(-1, 100_000, -100_000)]]);
}

#[test]
fn decodes_big_endian_four_byte_frames() {
    let data = be_bytes(&[i32::MIN, i32::MAX, 0x0102_0304]);
    let layout = FrameLayout { bytes_per_sample: 4, num_sensors: 1, byte_order: ByteOrder::BigEndian };
    let out = decode_block(&data, layout, 1);
    assert_eq!(out, vec![vec![raw(i32::MIN, i32::MAX, 0x0102_0304)]]);
}

#[test]
fn decodes_two_byte_readings_as_signed_sixteen_bit() {
    let le: Vec<u8> = [-2i16, 300, i16::MIN].iter().flat_map(|v| v.to_le_bytes()).collect();
    let layout = FrameLayout { bytes_per_sample: 2, num_sensors: 1, byte_order: ByteOrder::LittleEndian };
    assert_eq!(decode_block(&le, layout, 1), vec![vec![raw(-2, 300, -32768)]]);

    let be: Vec<u8> = [i16::MAX, -300, 7].iter().flat_map(|v| v.to_be_bytes()).collect();
    let layout = FrameLayout { bytes_per_sample: 2, num_sensors: 1, byte_order: ByteOrder::BigEndian };
    assert_eq!(decode_block(&be, layout, 1), vec![vec![raw(32767, -300, 7)]]);
}

#[test]
fn same_bytes_differ_by_byte_order() {
    let data = vec![0x01, 0x00, 0x00, 0x00];
    assert_eq!(decode_reading(&data, ByteOrder::LittleEndian, 4, 0), 1);
    assert_eq!(decode_reading(&data, ByteOrder::BigEndian, 4, 0), 0x0100_0000);
    assert_eq!(decode_reading(&data, ByteOrder::LittleEndian, 2, 2), 0);
    assert_eq!(decode_reading(&data, ByteOrder::BigEndian, 2, 0), 0x0100);
}

#[test]
fn frames_are_split_into_one_row_per_sensor() {
    // Two frames of two sensors each.
    let data = le_bytes(&[10, 11, 12, 20, 21, 22, 30, 31, 32, 40, 41, 42]);
    let layout = FrameLayout { bytes_per_sample: 4, num_sensors: 2, byte_order: ByteOrder::LittleEndian };
    let out = decode_block(&data, layout, 2);
    assert_eq!(out.len(), 2);
    assert_eq!(out[0], vec![raw(10, 11, 12), raw(30, 31, 32)]);
    assert_eq!(out[1], vec![raw(20, 21, 22), raw(40, 41, 42)]);
}

#[test]
fn trailing_bytes_after_the_frames_are_ignored() {
    let mut data = le_bytes(&[5, 6, 7]);
    data.extend_from_slice(&[0xFF, 0xFF]);
    let layout = FrameLayout { bytes_per_sample: 4, num_sensors: 1, byte_order: ByteOrder::LittleEndian };
    assert_eq!(decode_block(&data, layout, 1), vec![vec![raw(5, 6, 7)]]);
}

#[test]
fn zero_samples_give_empty_rows() {
    let layout = FrameLayout { bytes_per_sample: 4, num_sensors: 3, byte_order: ByteOrder::BigEndian };
    let out = decode_block(&[], layout, 0);
    assert_eq!(out, vec![Vec::<RawSample>::new(); 3]);
}

#[test]
fn wide_readings_use_their_first_four_bytes() {
    // Eight-byte slots: each reading is the first four bytes of its slot.
    let mut data = Vec::new();
    for v in [7i32, -8, 9] {
        data.extend_from_slice(&v.to_le_bytes());
        data.extend_from_slice(&[0xAA; 4]);
    }
    let layout = FrameLayout { bytes_per_sample: 8, num_sensors: 1, byte_order: ByteOrder::LittleEndian };
    assert_eq!(decode_block(&data, layout, 1), vec![vec![raw(7, -8, 9)]]);
}

#[test]
fn encodes_samples_as_little_endian_words() {
    let bytes = encode_sample_le(raw(1, -1, 0x0102_0304));
    assert_eq!(bytes, vec![1, 0, 0, 0, 0xFF, 0xFF, 0xFF, 0xFF, 4, 3, 2, 1]);
    let bytes = encode_sample_le(raw(-1_000_000, 0, i32::MIN));
    let mut expected = Vec::new();
    expected.extend_from_slice(&(-1_000_000i32).to_le_bytes());
    expected.extend_from_slice(&0i32.to_le_bytes());
    expected.extend_from_slice(&i32::MIN.to_le_bytes());
    assert_eq!(bytes, expected);
}

#[test]
fn encoded_samples_read_back_unchanged() {
    let samples = [
        raw(12, -34, 56),
        raw(i32::MAX, i32::MIN, 0),
        raw(-1_000_000, 999_999, -1),
        raw(0, 0, 0),
        raw(400, -400, 4),
        raw(1, 2, 3),
    ];
    // Three frames of two sensors, written frame by frame and sensor by sensor.
    let mut file = Vec::new();
    for s in &samples {
        file.extend(encode_sample_le(*s));
    }
    let layout = FrameLayout { bytes_per_sample: 4, num_sensors: 2, byte_order: ByteOrder::LittleEndian };
    let out = decode_block(&file, layout, 3);
    for frame in 0..3 {
        for sensor in 0..2 {
            assert_eq!(out[sensor][frame], samples[frame * 2 + sensor]);
        }
    }
}

#[test]
fn byte_order_names_are_recognised() {
    assert_eq!(byte_order_named("little"), Some(ByteOrder::LittleEndian));
    assert_eq!(byte_order_named("le"), Some(ByteOrder::LittleEndian));
    assert_eq!(byte_order_named("big"), Some(ByteOrder::BigEndian));
    assert_eq!(byte_order_named("be"), Some(ByteOrder::BigEndian));
    assert_eq!(byte_order_named("LE"), None);
    assert_eq!(byte_order_named("middle"), None);
    assert_eq!(byte_order_named(""), None);
    assert_eq!(byte_order_named("littl"), None);
}

#[test]
fn byte_order_arguments_ignore_letter_case() {
    assert_eq!(parse_byte_order("little"), Some(ByteOrder::LittleEndian));
    assert_eq!(parse_byte_order("LITTLE"), Some(ByteOrder::LittleEndian));
    assert_eq!(parse_byte_order("Le"), Some(ByteOrder::LittleEndian));
    assert_eq!(parse_byte_order("BIG"), Some(ByteOrder::BigEndian));
    assert_eq!(parse_byte_order("bE"), Some(ByteOrder::BigEndian));
    assert_eq!(parse_byte_order("network"), None);
    assert_eq!(parse_byte_order(" big"), None);
}

#[test]
fn three_byte_slots_read_overlapping_four_byte_windows() {
    let data: Vec<u8> = (1u8..=10).collect();
    let layout = FrameLayout { bytes_per_sample: 3, num_sensors: 1, byte_order: ByteOrder::LittleEndian };
    let window = |i: usize| i32::from_le_bytes([data[i], data[i + 1], data[i + 2], data[i + 3]]);
    assert_eq!(decode_block(&data, layout, 1), vec![vec![raw(window(0), window(3), window(6))]]);
}

#[test]
fn blocks_without_sensors_are_empty() {
    let layout = FrameLayout { bytes_per_sample: 1, num_sensors: 0, byte_order: ByteOrder::BigEndian };
    assert_eq!(decode_block(&[], layout, 5), Vec::<Vec<RawSample>>::new());
}

fn swap_words(data: &[u8], width: usize) -> Vec<u8> {
    let mut out = data.to_vec();
    for word in out.chunks_exact_mut(width) {
        word.reverse();
    }
    out
}

#[test]
fn big_endian_data_decodes_as_its_byte_swapped_little_endian_copy() {
    let data: Vec<u8> = (0u8..60).map(|i| i.wrapping_mul(37).wrapping_add(11)).collect();
    for width in [2usize, 4] {
        let sensors = 2;
        let frames = data.len() / (sensors * 3 * width);
        let be = FrameLayout { bytes_per_sample: width, num_sensors: sensors, byte_order: ByteOrder::BigEndian };
        let le = FrameLayout { bytes_per_sample: width, num_sensors: sensors, byte_order: ByteOrder::LittleEndian };
        assert_eq!(decode_block(&data, be, frames), decode_block(&swap_words(&data, width), le, frames));
    }
}
