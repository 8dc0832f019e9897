use binary_buffer::buffer::{
    BufferError, BufferReader, BufferWriter, FaultyStream, Medium, SeekOrigin,
};

fn reader(data: Vec<u8>, sound: u64) -> BufferReader<FaultyStream> {
    BufferReader::new(FaultyStream::new(data, sound))
}

fn writer(data: Vec<u8>, sound: u64) -> BufferWriter<FaultyStream> {
    BufferWriter::new(FaultyStream::new(data, sound))
}

#[test]
fn failed_read_keeps_its_cause() {
    let mut input = reader(vec![1, 2, 3, 4], 4);
    match input.read_u32() {
        Err(BufferError::ReadFailure { error }) => {
            assert_eq!(error.kind(), std::io::ErrorKind::InvalidInput)
        }
        _ => panic!("a read failure was expected"),
    }
    assert_eq!(input.position().unwrap(), 0);
    assert_eq!(input.read_u32().unwrap(), 0x0403_0201);
}

#[test]
fn failed_read_of_each_kind_is_a_read_failure() {
    assert!(matches!(reader(vec![1, 2, 3, 4], 4).read_u8(), Err(BufferError::ReadFailure { .. })));
    assert!(matches!(reader(vec![1, 2, 3, 4], 4).read_u16(), Err(BufferError::ReadFailure { .. })));
    assert!(matches!(reader(vec![1, 2, 3, 4], 4).read_i32(), Err(BufferError::ReadFailure { .. })));
    assert!(matches!(reader(vec![0; 8], 4).read_u64(), Err(BufferError::ReadFailure { .. })));
    assert!(matches!(
        reader(vec![1, 2, 3, 4], 4).read_bytes(3),
        Err(BufferError::ReadFailure { .. })
    ));
    assert!(matches!(
        reader(vec![1, 2, 3, 4], 4).read_7bit_int(),
        Err(BufferError::ReadFailure { .. })
    ));
    assert!(matches!(
        reader(vec![1, 0x41, 3, 4], 4).read_string(),
        Err(BufferError::ReadFailure { .. })
    ));
    assert!(matches!(
        reader(vec![1, 0x41, 3, 4], 9).read_string(),
        Err(BufferError::ReadFailure { .. })
    ));
}

#[test]
fn short_read_is_end_of_stream_before_the_medium_is_asked() {
    let mut input = reader(vec![1, 2, 3], 4);
    assert!(matches!(input.read_u32(), Err(BufferError::EndOfStream)));
    assert!(matches!(input.position(), Err(BufferError::IndexOutOfRange { index: 0 })));
    assert_eq!(input.position().unwrap(), 0);
}

#[test]
fn failed_read_at_an_offset_puts_the_cursor_back() {
    let mut input = reader(vec![1, 2, 3, 4], 6);
    input.seek(1, SeekOrigin::Begin).unwrap();
    assert!(matches!(input.read_bytes_at(2, 2), Err(BufferError::ReadFailure { .. })));
    assert_eq!(input.position().unwrap(), 1);
    assert_eq!(input.read_bytes_at(2, 2).unwrap(), vec![3, 4]);
    assert_eq!(input.position().unwrap(), 1);
}

#[test]
fn failed_write_is_an_io_failure() {
    assert!(matches!(writer(Vec::new(), 0).write_u8(1), Err(BufferError::IOFailure)));
    assert!(matches!(writer(Vec::new(), 0).write_u16(1), Err(BufferError::IOFailure)));
    assert!(matches!(writer(Vec::new(), 0).write_u32(1), Err(BufferError::IOFailure)));
    assert!(matches!(writer(Vec::new(), 0).write_u64(1), Err(BufferError::IOFailure)));
    assert!(matches!(writer(Vec::new(), 0).write_i32(1), Err(BufferError::IOFailure)));
    assert!(matches!(writer(Vec::new(), 0).write_7bit_int(1), Err(BufferError::IOFailure)));
    assert!(matches!(
        writer(Vec::new(), 0).write_string("a".to_string()),
        Err(BufferError::IOFailure)
    ));
    assert!(matches!(writer(Vec::new(), 0).write_bytes(&vec![1]), Err(BufferError::IOFailure)));
}

#[test]
fn failed_write_changes_nothing_and_may_be_tried_again() {
    let mut output = writer(vec![9, 9], 0);
    assert!(matches!(output.write_u16(0x0201), Err(BufferError::IOFailure)));
    assert_eq!(output.position().unwrap(), 0);
    assert_eq!(output.write_u16(0x0201).unwrap(), 2);
    assert_eq!(output.to_vec().unwrap(), vec![1, 2]);
}

#[test]
fn write_that_fails_midway_leaves_what_was_written() {
    let mut output = writer(Vec::new(), 1);
    assert!(matches!(output.write_7bit_int(300), Err(BufferError::IOFailure)));
    assert_eq!(output.to_vec().unwrap(), vec![0xAC]);
    let mut output = writer(Vec::new(), 1);
    assert!(matches!(output.write_string("abc".to_string()), Err(BufferError::IOFailure)));
    assert_eq!(output.to_vec().unwrap(), vec![3]);
}

#[test]
fn failed_seek_is_an_index_out_of_range() {
    assert!(matches!(
        reader(vec![1, 2, 3, 4], 0).position(),
        Err(BufferError::IndexOutOfRange { index: 0 })
    ));
    assert!(matches!(
        reader(vec![1, 2, 3, 4], 0).len(),
        Err(BufferError::IndexOutOfRange { index: 0 })
    ));
    assert!(matches!(
        reader(vec![1, 2, 3, 4], 0).seek(2, SeekOrigin::Begin),
        Err(BufferError::IndexOutOfRange { index: 2 })
    ));
    assert!(matches!(
        reader(vec![1, 2, 3, 4], 0).read_u8(),
        Err(BufferError::IndexOutOfRange { index: 0 })
    ));
    assert!(matches!(
        writer(vec![1, 2, 3, 4], 0).position(),
        Err(BufferError::IndexOutOfRange { index: 0 })
    ));
    assert!(matches!(
        writer(vec![1, 2, 3, 4], 0).len(),
        Err(BufferError::IndexOutOfRange { index: 0 })
    ));
    assert!(matches!(
        writer(vec![1, 2, 3, 4], 0).seek(-1, SeekOrigin::End),
        Err(BufferError::IndexOutOfRange { index: -1 })
    ));
    assert!(matches!(
        writer(vec![1, 2, 3, 4], 0).to_vec(),
        Err(BufferError::IndexOutOfRange { index: 0 })
    ));
}

#[test]
fn failed_seek_back_names_the_offset_it_asked_for() {
    let mut input = reader(vec![1, 2, 3, 4], 4);
    input.seek(2, SeekOrigin::Begin).unwrap();
    assert!(matches!(input.read_u8(), Err(BufferError::IndexOutOfRange { index: 2 })));
    let mut input = reader(vec![1, 2, 3, 4], 3);
    input.seek(2, SeekOrigin::Begin).unwrap();
    assert!(matches!(input.len(), Err(BufferError::IndexOutOfRange { index: 2 })));
}

#[test]
fn failed_read_in_to_vec_is_a_read_failure() {
    let mut output = writer(vec![1, 2, 3], 2);
    assert!(matches!(output.to_vec(), Err(BufferError::ReadFailure { .. })));
    assert_eq!(output.to_vec().unwrap(), vec![1, 2, 3]);
}

#[test]
fn faulty_stream_works_before_and_after_its_fault() {
    let mut output = writer(Vec::new(), 2);
    assert_eq!(output.write_u8(1).unwrap(), 1);
    assert_eq!(output.write_u8(2).unwrap(), 1);
    assert!(matches!(output.write_u8(3), Err(BufferError::IOFailure)));
    assert_eq!(output.write_u8(3).unwrap(), 1);
    assert_eq!(output.write_u8(4).unwrap(), 1);
    assert_eq!(output.writer.into_inner(), vec![1, 2, 3, 4]);
}

#[test]
fn faulty_stream_fails_the_operation_after_the_sound_ones() {
    let mut medium = FaultyStream::new(vec![5, 6], 1);
    assert_eq!(medium.seek(0, SeekOrigin::End).unwrap(), 2);
    assert!(medium.seek(0, SeekOrigin::Begin).is_err());
    assert_eq!(medium.seek(0, SeekOrigin::Current).unwrap(), 2);
    assert_eq!(medium.seek(-2, SeekOrigin::Current).unwrap(), 0);
    assert_eq!(medium.read_exact(2).unwrap(), vec![5, 6]);
    assert!(medium.read_exact(1).is_err());
    assert!(medium.seek(3, SeekOrigin::Begin).is_err());
    assert_eq!(medium.write(&[7]).unwrap(), 1);
    assert_eq!(medium.into_inner(), vec![5, 6, 7]);
}

#[test]
fn faulty_stream_counts_refused_operations_too() {
    let mut medium = FaultyStream::new(vec![5, 6], 2);
    assert!(medium.seek(-1, SeekOrigin::Begin).is_err());
    assert!(medium.read_exact(3).is_err());
    assert!(medium.write(&[7]).is_err());
    assert_eq!(medium.write(&[7]).unwrap(), 1);
    assert_eq!(medium.into_inner(), vec![7, 6]);
}
