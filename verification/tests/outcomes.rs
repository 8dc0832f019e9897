use binary_buffer::buffer::outcome::{read_outcome, seek_outcome, write_outcome};
use binary_buffer::buffer::BufferError;
use std::io::{Error, ErrorKind};

#[test]
fn seek_answer_becomes_the_offset_or_the_request() {
    assert!(matches!(seek_outcome(Ok(7), -3), Ok(7)));
    assert!(matches!(
        seek_outcome(Err(Error::from(ErrorKind::NotFound)), -3),
        Err(BufferError::IndexOutOfRange { index: -3 })
    ));
}

#[test]
fn read_answer_becomes_the_bytes_or_keeps_the_fault() {
    assert_eq!(read_outcome(Ok(vec![1, 2])).unwrap(), vec![1, 2]);
    match read_outcome(Err(Error::from(ErrorKind::UnexpectedEof))) {
        Err(BufferError::ReadFailure { error }) => {
            assert_eq!(error.kind(), ErrorKind::UnexpectedEof)
        }
        _ => panic!("a read failure was expected"),
    }
}

#[test]
fn write_answer_becomes_the_count_or_an_io_failure() {
    assert!(matches!(write_outcome(Ok(4)), Ok(4)));
    assert!(matches!(
        write_outcome(Err(Error::from(ErrorKind::WriteZero))),
        Err(BufferError::IOFailure)
    ));
}

#[test]
fn errors_print_their_variant() {
    assert_eq!(format!("{:?}", BufferError::EndOfStream), "EndOfStream");
    assert_eq!(format!("{:?}", BufferError::IOFailure), "IOFailure");
    assert_eq!(
        format!("{:?}", BufferError::IndexOutOfRange { index: -4 }),
        "IndexOutOfRange { index: -4 }"
    );
}
