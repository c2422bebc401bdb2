use binarystream::{BinaryStream, CodecError};

#[test]
fn new_starts_at_zero_by_default() {
    let stream = BinaryStream::new(vec![1, 2, 3], None);
    assert_eq!(stream.get_offset_napi(), Ok(0));
    assert_eq!(stream.as_slice(), &[1, 2, 3]);
}

#[test]
fn new_takes_an_initial_offset() {
    let stream = BinaryStream::new(vec![1, 2, 3], Some(2));
    assert_eq!(stream.get_offset_napi(), Ok(2));
}

#[test]
fn read_returns_bytes_and_advances() {
    let mut stream = BinaryStream::new(vec![10, 20, 30, 40], None);
    assert_eq!(stream.read(3).map(|b| b.to_vec()), Ok(vec![10, 20, 30]));
    assert_eq!(stream.get_offset_napi(), Ok(3));
    assert_eq!(stream.read(1).map(|b| b.to_vec()), Ok(vec![40]));
    assert_eq!(stream.get_offset_napi(), Ok(4));
}

#[test]
fn read_past_the_end_fails_and_keeps_the_offset() {
    let mut stream = BinaryStream::new(vec![10, 20, 30, 40], Some(2));
    assert_eq!(stream.read(3).map(|b| b.to_vec()), Err(CodecError::OutOfBounds));
    assert_eq!(stream.get_offset_napi(), Ok(2));
}

#[test]
fn write_overwrites_and_advances() {
    let mut stream = BinaryStream::new(vec![0; 5], Some(1));
    assert_eq!(stream.write(&[7, 8, 9]), Ok(()));
    assert_eq!(stream.get_offset_napi(), Ok(4));
    assert_eq!(stream.into_inner(), vec![0, 7, 8, 9, 0]);
}

#[test]
fn write_past_the_end_fails_and_changes_nothing() {
    let mut stream = BinaryStream::new(vec![1, 2, 3], Some(1));
    assert_eq!(stream.write(&[7, 8, 9]), Err(CodecError::OutOfBounds));
    assert_eq!(stream.get_offset_napi(), Ok(1));
    assert_eq!(stream.into_inner(), vec![1, 2, 3]);
}

#[test]
fn bounds_at_the_edge() {
    let length = 8u32;
    for n in 0..=8u32 {
        let mut stream = BinaryStream::new(vec![0; 8], Some(length - n));
        assert!(stream.read(n as usize).is_ok());
        assert_eq!(stream.get_offset_napi(), Ok(length));

        let mut stream = BinaryStream::new(vec![0; 8], Some(length - n));
        assert_eq!(stream.write(&vec![1; n as usize]), Ok(()));
        assert_eq!(stream.get_offset_napi(), Ok(length));

        let mut stream = BinaryStream::new(vec![0; 8], Some(length - n + 1));
        assert_eq!(stream.read(n as usize).map(|b| b.to_vec()), Err(CodecError::OutOfBounds));
        assert_eq!(stream.get_offset_napi(), Ok(length - n + 1));

        let mut stream = BinaryStream::new(vec![0; 8], Some(length - n + 1));
        assert_eq!(stream.write(&vec![1; n as usize]), Err(CodecError::OutOfBounds));
        assert_eq!(stream.get_offset_napi(), Ok(length - n + 1));
        assert_eq!(stream.into_inner(), vec![0; 8]);
    }
}

#[test]
fn huge_lengths_do_not_wrap() {
    let mut stream = BinaryStream::new(vec![0; 4], Some(3));
    assert_eq!(stream.read(usize::MAX).map(|b| b.to_vec()), Err(CodecError::OutOfBounds));
    assert_eq!(stream.read(usize::MAX - 2).map(|b| b.to_vec()), Err(CodecError::OutOfBounds));
    assert_eq!(stream.get_offset_napi(), Ok(3));
}

#[test]
fn offset_past_the_end_is_kept_and_every_transfer_fails() {
    let mut stream = BinaryStream::new(vec![0; 2], Some(5));
    assert_eq!(stream.get_offset_napi(), Ok(5));
    assert!(stream.feof());
    assert_eq!(stream.read(0).map(|b| b.to_vec()), Err(CodecError::OutOfBounds));
    assert_eq!(stream.write(&[]), Err(CodecError::OutOfBounds));
}

#[test]
fn set_offset_accepts_the_end_and_refuses_beyond() {
    let mut stream = BinaryStream::new(vec![0; 4], None);
    assert_eq!(stream.set_offset_napi(4), Ok(()));
    assert_eq!(stream.get_offset_napi(), Ok(4));
    assert_eq!(stream.set_offset_napi(5), Err(CodecError::OutOfBounds));
    assert_eq!(stream.get_offset_napi(), Ok(4));
    assert_eq!(stream.set_offset_napi(1), Ok(()));
    assert_eq!(stream.get_offset_napi(), Ok(1));
}

#[test]
fn feof_is_true_only_at_or_past_the_end() {
    let mut stream = BinaryStream::new(vec![0; 2], None);
    assert!(!stream.feof());
    stream.read(1).unwrap();
    assert!(!stream.feof());
    stream.read(1).unwrap();
    assert!(stream.feof());
    let empty = BinaryStream::new(Vec::new(), None);
    assert!(empty.feof());
}

#[test]
fn reset_goes_back_to_the_start() {
    let mut stream = BinaryStream::new(vec![5, 6, 7], Some(3));
    stream.reset();
    assert_eq!(stream.get_offset_napi(), Ok(0));
    assert_eq!(stream.read(1).map(|b| b.to_vec()), Ok(vec![5]));
}
