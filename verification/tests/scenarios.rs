use binary_buffer::buffer::{BufferError, BufferReader, BufferWriter, MemoryStream, SeekOrigin};

fn writer() -> BufferWriter<MemoryStream> {
    BufferWriter::new(MemoryStream::new(Vec::new()))
}

fn reader(bytes: Vec<u8>) -> BufferReader<MemoryStream> {
    BufferReader::new(MemoryStream::new(bytes))
}

#[test]
fn it_works() {
    let mut buffer = BufferWriter::new(MemoryStream::new(Vec::new()));
    buffer.write_u32(9001).unwrap();
    buffer.write_u32(9002).unwrap();
    buffer.write_string("Hello World!".to_string()).unwrap();
    buffer.seek(0, SeekOrigin::Begin).unwrap();
    buffer.write_u32(9003).unwrap();
    let data = buffer.to_vec().unwrap();
    let mut reader = BufferReader::new(MemoryStream::new(data));
    assert_eq!(9003, reader.read_u32().unwrap());
    assert_eq!(9002, reader.read_u32().unwrap());
    assert_eq!("Hello World!", reader.read_string().unwrap());
}

#[test]
fn scenario_bytes_are_as_laid_out() {
    let mut buffer = writer();
    buffer.write_u32(9001).unwrap();
    buffer.write_u32(9002).unwrap();
    buffer.write_string("Hello World!".to_string()).unwrap();
    buffer.seek(0, SeekOrigin::Begin).unwrap();
    buffer.write_u32(9003).unwrap();
    assert_eq!(buffer.position().unwrap(), 4);
    let data = buffer.to_vec().unwrap();
    let mut expected = vec![0x2b, 0x23, 0, 0, 0x2a, 0x23, 0, 0, 12];
    expected.extend_from_slice(b"Hello World!");
    assert_eq!(data, expected);
}

#[test]
fn varint_300_is_two_bytes() {
    let mut buffer = writer();
    buffer.write_7bit_int(300).unwrap();
    assert_eq!(buffer.to_vec().unwrap(), vec![0xAC, 0x02]);
    let mut input = reader(vec![0xAC, 0x02]);
    assert_eq!(input.read_7bit_int().unwrap(), 300);
    assert_eq!(input.position().unwrap(), 2);
}

#[test]
fn u8_round_trip() {
    for value in [0u8, 1, 0x7f, 0x80, 0xff] {
        let mut buffer = writer();
        assert_eq!(buffer.write_u8(value).unwrap(), 1);
        let mut input = reader(buffer.to_vec().unwrap());
        assert_eq!(input.read_u8().unwrap(), value);
    }
}

#[test]
fn u16_round_trip() {
    for value in [0u16, 1, 0xff, 0x100, 0x1234, 0xff00, u16::MAX] {
        let mut buffer = writer();
        assert_eq!(buffer.write_u16(value).unwrap(), 2);
        let mut input = reader(buffer.to_vec().unwrap());
        assert_eq!(input.read_u16().unwrap(), value);
    }
}

#[test]
fn u16_second_byte_is_the_high_byte() {
    let mut input = reader(vec![0x34, 0x12]);
    assert_eq!(input.read_u16().unwrap(), 0x1234);
    let mut input = reader(vec![0x00, 0x01]);
    assert_eq!(input.read_u16().unwrap(), 256);
}

#[test]
fn u32_round_trip() {
    for value in [0u32, 1, 9001, 0x0102_0304, 0x8000_0000, u32::MAX] {
        let mut buffer = writer();
        assert_eq!(buffer.write_u32(value).unwrap(), 4);
        let mut input = reader(buffer.to_vec().unwrap());
        assert_eq!(input.read_u32().unwrap(), value);
    }
}

#[test]
fn u64_round_trip() {
    for value in [0u64, 1, 0x0102_0304_0506_0708, 0xffff_ffff, 0x1_0000_0000, u64::MAX] {
        let mut buffer = writer();
        assert_eq!(buffer.write_u64(value).unwrap(), 8);
        let mut input = reader(buffer.to_vec().unwrap());
        assert_eq!(input.read_u64().unwrap(), value);
    }
}

#[test]
fn i32_round_trip() {
    for value in [0i32, 1, -1, -2, 9001, -9001, i32::MAX, i32::MIN] {
        let mut buffer = writer();
        assert_eq!(buffer.write_i32(value).unwrap(), 4);
        let mut input = reader(buffer.to_vec().unwrap());
        assert_eq!(input.read_i32().unwrap(), value);
    }
}

#[test]
fn round_trip_at_an_offset_inside_a_stream() {
    let mut buffer = BufferWriter::new(MemoryStream::new(vec![9; 10]));
    buffer.seek(3, SeekOrigin::Begin).unwrap();
    buffer.write_u32(0xdead_beef).unwrap();
    let data = buffer.to_vec().unwrap();
    assert_eq!(data, vec![9, 9, 9, 0xef, 0xbe, 0xad, 0xde, 9, 9, 9]);
    let mut input = reader(data);
    input.seek(3, SeekOrigin::Begin).unwrap();
    assert_eq!(input.read_u32().unwrap(), 0xdead_beef);
}

#[test]
fn string_round_trip() {
    for text in ["", "a", "Hello World!", "grüße", "日本語のテキスト", "🦀 crab", "\u{0}\u{7f}\u{80}\u{7ff}\u{800}\u{ffff}\u{10000}"] {
        let mut buffer = writer();
        let written = buffer.write_string(text.to_string()).unwrap();
        assert_eq!(written, text.len() as u64);
        let mut input = reader(buffer.to_vec().unwrap());
        assert_eq!(input.read_string().unwrap(), text);
        assert_eq!(input.position().unwrap(), input.len().unwrap());
    }
}

#[test]
fn empty_string_is_one_zero_byte() {
    let mut buffer = writer();
    assert_eq!(buffer.write_string(String::new()).unwrap(), 0);
    assert_eq!(buffer.to_vec().unwrap(), vec![0]);
    let mut input = reader(vec![0, 0x41]);
    assert_eq!(input.read_string().unwrap(), "");
    assert_eq!(input.position().unwrap(), 1);
}

#[test]
fn long_string_has_a_two_byte_length() {
    let text = "x".repeat(300);
    let mut buffer = writer();
    assert_eq!(buffer.write_string(text.clone()).unwrap(), 300);
    let data = buffer.to_vec().unwrap();
    assert_eq!(data.len(), 302);
    assert_eq!(&data[..2], &[0xAC, 0x02]);
    let mut input = reader(data);
    assert_eq!(input.read_string().unwrap(), text);
}

#[test]
fn string_payload_is_utf8_verbatim() {
    let mut buffer = writer();
    buffer.write_string("é".to_string()).unwrap();
    assert_eq!(buffer.to_vec().unwrap(), vec![2, 0xc3, 0xa9]);
}

#[test]
fn varint_round_trip() {
    let values = [
        0i32, 1, 127, 128, 300, 16383, 16384, 2097151, 2097152, 268435455, 268435456, i32::MAX,
        -1, -128, i32::MIN,
    ];
    for value in values {
        let mut buffer = writer();
        buffer.write_7bit_int(value).unwrap();
        let data = buffer.to_vec().unwrap();
        let mut input = reader(data.clone());
        assert_eq!(input.read_7bit_int().unwrap(), value);
        assert_eq!(input.position().unwrap(), data.len() as u64);
    }
}

#[test]
fn varint_uses_the_fewest_bytes() {
    let cases: [(i32, usize); 12] = [
        (0, 1),
        (127, 1),
        (128, 2),
        (16383, 2),
        (16384, 3),
        (2097151, 3),
        (2097152, 4),
        (268435455, 4),
        (268435456, 5),
        (i32::MAX, 5),
        (-1, 5),
        (i32::MIN, 5),
    ];
    for (value, width) in cases {
        let mut buffer = writer();
        buffer.write_7bit_int(value).unwrap();
        assert_eq!(buffer.to_vec().unwrap().len(), width);
    }
}

#[test]
fn varint_layout_is_exact() {
    let mut buffer = writer();
    buffer.write_7bit_int(0).unwrap();
    buffer.write_7bit_int(127).unwrap();
    buffer.write_7bit_int(128).unwrap();
    buffer.write_7bit_int(-1).unwrap();
    assert_eq!(
        buffer.to_vec().unwrap(),
        vec![0x00, 0x7f, 0x80, 0x01, 0xff, 0xff, 0xff, 0xff, 0x0f]
    );
}

#[test]
fn varint_follows_to_the_next_value() {
    let mut input = reader(vec![0xAC, 0x02, 0x05]);
    assert_eq!(input.read_7bit_int().unwrap(), 300);
    assert_eq!(input.read_7bit_int().unwrap(), 5);
}

#[test]
fn varint_with_a_sixth_byte_is_refused() {
    let mut input = reader(vec![0x80, 0x80, 0x80, 0x80, 0x80, 0x00]);
    assert!(matches!(input.read_7bit_int(), Err(BufferError::IOFailure)));
    assert_eq!(input.position().unwrap(), 5);
    let mut input = reader(vec![0xff; 16]);
    assert!(matches!(input.read_7bit_int(), Err(BufferError::IOFailure)));
    assert_eq!(input.position().unwrap(), 5);
}

#[test]
fn varint_cut_short_is_end_of_stream() {
    let mut input = reader(vec![0x80, 0x80]);
    assert!(matches!(input.read_7bit_int(), Err(BufferError::EndOfStream)));
    assert_eq!(input.position().unwrap(), 2);
    let mut input = reader(Vec::new());
    assert!(matches!(input.read_7bit_int(), Err(BufferError::EndOfStream)));
    assert_eq!(input.position().unwrap(), 0);
}

#[test]
fn varint_fifth_byte_keeps_its_low_bits_only() {
    let mut input = reader(vec![0xff, 0xff, 0xff, 0xff, 0x7f]);
    assert_eq!(input.read_7bit_int().unwrap(), -1);
    let mut input = reader(vec![0x80, 0x80, 0x80, 0x80, 0x10]);
    assert_eq!(input.read_7bit_int().unwrap(), 0);
    let mut input = reader(vec![0x80, 0x80, 0x80, 0x80, 0x08]);
    assert_eq!(input.read_7bit_int().unwrap(), i32::MIN);
}

#[test]
fn string_with_a_negative_length_is_refused() {
    let mut input = reader(vec![0xff, 0xff, 0xff, 0xff, 0x0f, 0x41]);
    assert!(matches!(input.read_string(), Err(BufferError::IOFailure)));
    assert_eq!(input.position().unwrap(), 5);
}

#[test]
fn string_that_is_no_utf8_is_refused() {
    let mut input = reader(vec![0x02, 0xff, 0xfe]);
    assert!(matches!(input.read_string(), Err(BufferError::IOFailure)));
    assert_eq!(input.position().unwrap(), 3);
    let mut input = reader(vec![0x02, 0xc3, 0x28]);
    assert!(matches!(input.read_string(), Err(BufferError::IOFailure)));
}

#[test]
fn string_cut_short_is_end_of_stream() {
    let mut input = reader(vec![0x05, 0x61, 0x62]);
    assert!(matches!(input.read_string(), Err(BufferError::EndOfStream)));
    assert_eq!(input.position().unwrap(), 1);
    let mut input = reader(Vec::new());
    assert!(matches!(input.read_string(), Err(BufferError::EndOfStream)));
}

#[test]
fn string_with_an_overlong_length_is_refused() {
    let mut input = reader(vec![0x80, 0x80, 0x80, 0x80, 0x80, 0x01]);
    assert!(matches!(input.read_string(), Err(BufferError::IOFailure)));
}
