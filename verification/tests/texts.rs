use binarystream::text::read_text;
use binarystream::types::misc::uuid::parse;
use binarystream::{BinaryStream, CodecError, Endianness, String16, String32, Uuid, VarString};

fn offset(stream: &BinaryStream) -> u32 {
    stream.get_offset_napi().unwrap()
}

#[test]
fn string16_of_300_bytes_round_trip() {
    let text = "ab".repeat(150);
    assert_eq!(text.len(), 300);
    let mut stream = BinaryStream::new(vec![0; 400], Some(10));
    assert_eq!(String16::write(&mut stream, text.clone(), None), Ok(()));
    assert_eq!(offset(&stream), 10 + 2 + 300);
    assert_eq!(&stream.as_slice()[10..12], &[0x01, 0x2C]);
    stream.set_offset_napi(10).unwrap();
    assert_eq!(String16::read(&mut stream, None), Ok(text));
    assert_eq!(offset(&stream), 10 + 2 + 300);
}

#[test]
fn string16_layout() {
    let mut stream = BinaryStream::new(vec![0; 10], None);
    assert_eq!(String16::write(&mut stream, "hi".to_string(), Some(Endianness::Big)), Ok(()));
    assert_eq!(String16::write(&mut stream, "yo!".to_string(), Some(Endianness::Little)), Ok(()));
    assert_eq!(stream.as_slice(), &[0, 2, b'h', b'i', 3, 0, b'y', b'o', b'!', 0]);
    stream.reset();
    assert_eq!(String16::read(&mut stream, Some(Endianness::Big)), Ok("hi".to_string()));
    assert_eq!(String16::read(&mut stream, Some(Endianness::Little)), Ok("yo!".to_string()));
    assert_eq!(offset(&stream), 9);
}

#[test]
fn string16_counts_bytes_not_characters() {
    let text = "héllo wörld ✓".to_string();
    let mut stream = BinaryStream::new(vec![0; 64], None);
    assert_eq!(String16::write(&mut stream, text.clone(), None), Ok(()));
    assert_eq!(offset(&stream) as usize, 2 + text.len());
    assert_eq!(&stream.as_slice()[..2], &[0, text.len() as u8]);
    assert_eq!(&stream.as_slice()[2..2 + text.len()], text.as_bytes());
    stream.reset();
    assert_eq!(String16::read(&mut stream, None), Ok(text));
}

#[test]
fn string16_empty() {
    let mut stream = BinaryStream::new(vec![9; 2], None);
    assert_eq!(String16::write(&mut stream, String::new(), None), Ok(()));
    assert_eq!(stream.as_slice(), &[0, 0]);
    stream.reset();
    assert_eq!(String16::read(&mut stream, None), Ok(String::new()));
    assert_eq!(offset(&stream), 2);
}

#[test]
fn string16_reads_invalid_utf8_with_replacement_characters() {
    let mut stream = BinaryStream::new(vec![0, 4, b'a', 0xFF, 0xC3, b'b'], None);
    assert_eq!(String16::read(&mut stream, None), Ok("a\u{FFFD}\u{FFFD}b".to_string()));
    assert_eq!(offset(&stream), 6);
}

#[test]
fn string16_read_fails_when_the_prefix_does_not_fit() {
    let mut stream = BinaryStream::new(vec![0, 1, b'a'], Some(2));
    assert_eq!(String16::read(&mut stream, None), Err(CodecError::OutOfBounds));
    assert_eq!(offset(&stream), 2);
}

#[test]
fn string16_read_fails_and_stays_when_the_payload_does_not_fit() {
    let mut stream = BinaryStream::new(vec![0, 3, b'a', b'b'], None);
    assert_eq!(String16::read(&mut stream, None), Err(CodecError::OutOfBounds));
    assert_eq!(offset(&stream), 0);
    let mut stream = BinaryStream::new(vec![9, 0, 3, b'a', b'b'], Some(1));
    assert_eq!(String16::read(&mut stream, None), Err(CodecError::OutOfBounds));
    assert_eq!(offset(&stream), 1);
}

#[test]
fn string16_write_fails_when_the_prefix_does_not_fit() {
    let mut stream = BinaryStream::new(vec![7; 3], Some(2));
    assert_eq!(String16::write(&mut stream, "a".to_string(), None), Err(CodecError::OutOfBounds));
    assert_eq!(offset(&stream), 2);
    assert_eq!(stream.as_slice(), &[7, 7, 7]);
}

#[test]
fn string16_write_writes_nothing_when_the_payload_does_not_fit() {
    let mut stream = BinaryStream::new(vec![7; 4], None);
    assert_eq!(String16::write(&mut stream, "abc".to_string(), None), Err(CodecError::OutOfBounds));
    assert_eq!(offset(&stream), 0);
    assert_eq!(stream.as_slice(), &[7, 7, 7, 7]);
    assert_eq!(String16::write(&mut stream, "ab".to_string(), None), Ok(()));
    assert_eq!(offset(&stream), 4);
    assert_eq!(stream.as_slice(), &[0, 2, b'a', b'b']);
}

#[test]
fn string16_prefix_wraps_at_65536_bytes() {
    let text = "x".repeat(65536 + 5);
    let mut stream = BinaryStream::new(vec![0; 65536 + 7], None);
    assert_eq!(String16::write(&mut stream, text, None), Ok(()));
    assert_eq!(offset(&stream), 65536 + 7);
    assert_eq!(&stream.as_slice()[..3], &[0, 5, b'x']);
    stream.reset();
    assert_eq!(String16::read(&mut stream, None), Ok("xxxxx".to_string()));
    assert_eq!(offset(&stream), 7);
}

#[test]
fn string16_longest_exact_length() {
    let text = "y".repeat(65535);
    let mut stream = BinaryStream::new(vec![0; 65537], None);
    assert_eq!(String16::write(&mut stream, text.clone(), Some(Endianness::Little)), Ok(()));
    assert_eq!(&stream.as_slice()[..2], &[0xFF, 0xFF]);
    stream.reset();
    assert_eq!(String16::read(&mut stream, Some(Endianness::Little)), Ok(text));
    assert_eq!(offset(&stream), 65537);
}

#[test]
fn string32_round_trip_and_layout() {
    let mut stream = BinaryStream::new(vec![0; 16], None);
    assert_eq!(String32::write(&mut stream, "hey".to_string(), None), Ok(()));
    assert_eq!(String32::write(&mut stream, "éa".to_string(), Some(Endianness::Little)), Ok(()));
    assert_eq!(
        stream.as_slice(),
        &[0, 0, 0, 3, b'h', b'e', b'y', 3, 0, 0, 0, 0xC3, 0xA9, b'a', 0, 0]
    );
    stream.reset();
    assert_eq!(String32::read(&mut stream, None), Ok("hey".to_string()));
    assert_eq!(offset(&stream), 7);
    assert_eq!(String32::read(&mut stream, Some(Endianness::Little)), Ok("éa".to_string()));
    assert_eq!(offset(&stream), 14);
}

#[test]
fn string32_of_70000_bytes_round_trip() {
    let text = "z".repeat(70000);
    let mut stream = BinaryStream::new(vec![0; 70004], None);
    assert_eq!(String32::write(&mut stream, text.clone(), None), Ok(()));
    assert_eq!(&stream.as_slice()[..4], &[0x00, 0x01, 0x11, 0x70]);
    stream.reset();
    assert_eq!(String32::read(&mut stream, None), Ok(text));
    assert_eq!(offset(&stream), 70004);
}

#[test]
fn string32_failures() {
    let mut stream = BinaryStream::new(vec![0, 0, 0], None);
    assert_eq!(String32::read(&mut stream, None), Err(CodecError::OutOfBounds));
    assert_eq!(offset(&stream), 0);
    let mut stream = BinaryStream::new(vec![0xFF, 0xFF, 0xFF, 0xFF, b'a'], None);
    assert_eq!(String32::read(&mut stream, None), Err(CodecError::OutOfBounds));
    assert_eq!(offset(&stream), 0);
    let mut stream = BinaryStream::new(vec![7; 3], None);
    assert_eq!(String32::write(&mut stream, "a".to_string(), None), Err(CodecError::OutOfBounds));
    assert_eq!(stream.as_slice(), &[7, 7, 7]);
    let mut stream = BinaryStream::new(vec![7; 5], None);
    assert_eq!(String32::write(&mut stream, "ab".to_string(), None), Err(CodecError::OutOfBounds));
    assert_eq!(offset(&stream), 0);
    assert_eq!(stream.as_slice(), &[7; 5]);
}

#[test]
fn string32_reads_invalid_utf8_with_replacement_characters() {
    let mut stream = BinaryStream::new(vec![0, 0, 0, 2, 0x80, b'k'], None);
    assert_eq!(String32::read(&mut stream, None), Ok("\u{FFFD}k".to_string()));
}

#[test]
fn varstring_round_trip_and_layout() {
    let mut stream = BinaryStream::new(vec![0; 8], None);
    assert_eq!(VarString::write(&mut stream, "hello".to_string()), Ok(()));
    assert_eq!(stream.as_slice(), &[5, b'h', b'e', b'l', b'l', b'o', 0, 0]);
    assert_eq!(offset(&stream), 6);
    stream.reset();
    assert_eq!(VarString::read(&mut stream), Ok("hello".to_string()));
    assert_eq!(offset(&stream), 6);
}

#[test]
fn varstring_with_a_two_byte_prefix() {
    let text = "q".repeat(200);
    let mut stream = BinaryStream::new(vec![0; 202], None);
    assert_eq!(VarString::write(&mut stream, text.clone()), Ok(()));
    assert_eq!(&stream.as_slice()[..3], &[0xC8, 0x01, b'q']);
    assert_eq!(offset(&stream), 202);
    stream.reset();
    assert_eq!(VarString::read(&mut stream), Ok(text));
    assert_eq!(offset(&stream), 202);
}

#[test]
fn varstring_read_failures() {
    let mut stream = BinaryStream::new(vec![0x80, 0x80], None);
    assert_eq!(VarString::read(&mut stream), Err(CodecError::OutOfBounds));
    assert_eq!(offset(&stream), 0);
    let mut stream = BinaryStream::new(vec![0x80; 7], None);
    assert_eq!(VarString::read(&mut stream), Err(CodecError::VarIntTooLarge));
    assert_eq!(offset(&stream), 6);
    let mut stream = BinaryStream::new(vec![3, b'a', b'b'], None);
    assert_eq!(VarString::read(&mut stream), Err(CodecError::OutOfBounds));
    assert_eq!(offset(&stream), 0);
    let mut stream = BinaryStream::new(vec![9, 0xC8, 0x01, b'a'], Some(1));
    assert_eq!(VarString::read(&mut stream), Err(CodecError::OutOfBounds));
    assert_eq!(offset(&stream), 1);
}

#[test]
fn varstring_write_failures() {
    let mut stream = BinaryStream::new(vec![7; 1], None);
    assert_eq!(VarString::write(&mut stream, "q".repeat(200)), Err(CodecError::OutOfBounds));
    assert_eq!(offset(&stream), 0);
    assert_eq!(stream.as_slice(), &[7]);
    let mut stream = BinaryStream::new(vec![7; 3], None);
    assert_eq!(VarString::write(&mut stream, "abc".to_string()), Err(CodecError::OutOfBounds));
    assert_eq!(offset(&stream), 0);
    assert_eq!(stream.as_slice(), &[7, 7, 7]);
    let mut stream = BinaryStream::new(vec![7; 201], None);
    assert_eq!(VarString::write(&mut stream, "q".repeat(200)), Err(CodecError::OutOfBounds));
    assert_eq!(offset(&stream), 0);
    assert_eq!(stream.as_slice(), &[7; 201]);
}

#[test]
fn varstring_reads_invalid_utf8_with_replacement_characters() {
    let mut stream = BinaryStream::new(vec![3, 0xE2, 0x82, b'!'], None);
    assert_eq!(VarString::read(&mut stream), Ok("\u{FFFD}!".to_string()));
}

#[test]
fn read_text_takes_exactly_the_bytes_asked_for() {
    let mut stream = BinaryStream::new(b"abcdef".to_vec(), Some(1));
    assert_eq!(read_text(&mut stream, 3), Ok("bcd".to_string()));
    assert_eq!(offset(&stream), 4);
    assert_eq!(read_text(&mut stream, 0), Ok(String::new()));
    assert_eq!(read_text(&mut stream, 3), Err(CodecError::OutOfBounds));
    assert_eq!(offset(&stream), 4);
}

#[test]
fn uuid_round_trip() {
    let text = "01234567-89ab-cdef-0123-456789abcdef";
    let mut stream = BinaryStream::new(vec![0; 16], None);
    assert_eq!(Uuid::write(&mut stream, text.to_string()), Ok(()));
    assert_eq!(offset(&stream), 16);
    stream.reset();
    assert_eq!(Uuid::read(&mut stream), Ok(text.to_string()));
    assert_eq!(offset(&stream), 16);
}

#[test]
fn uuid_wire_layout_reverses_each_half() {
    let mut stream = BinaryStream::new(vec![0; 16], None);
    Uuid::write(&mut stream, "00112233-4455-6677-8899-aabbccddeeff".to_string()).unwrap();
    assert_eq!(
        stream.as_slice(),
        &[
            0x77, 0x66, 0x55, 0x44, 0x33, 0x22, 0x11, 0x00, 0xFF, 0xEE, 0xDD, 0xCC, 0xBB, 0xAA, 0x99,
            0x88
        ]
    );
}

#[test]
fn uuid_read_renders_lower_case_with_hyphens() {
    let wire = vec![
        0xEF, 0xCD, 0xAB, 0x89, 0x67, 0x45, 0x23, 0x01, 0x0F, 0x1E, 0x2D, 0x3C, 0x4B, 0x5A, 0x69,
        0x78,
    ];
    let mut stream = BinaryStream::new(wire, None);
    assert_eq!(Uuid::read(&mut stream), Ok("01234567-89ab-cdef-7869-5a4b3c2d1e0f".to_string()));
}

#[test]
fn uuid_write_accepts_upper_case_and_any_hyphens() {
    let canonical = "01234567-89ab-cdef-0123-456789abcdef";
    for text in [
        "01234567-89AB-CDEF-0123-456789ABCDEF",
        "0123456789abcdef0123456789abcdef",
        "0123456789ABCDEF0123456789abcdef",
        "-01-23-45-67-89abcdef0123456789abcdef--",
    ] {
        let mut stream = BinaryStream::new(vec![0; 16], None);
        assert_eq!(Uuid::write(&mut stream, text.to_string()), Ok(()));
        stream.reset();
        assert_eq!(Uuid::read(&mut stream), Ok(canonical.to_string()));
    }
}

#[test]
fn uuid_write_refuses_malformed_text() {
    for text in [
        "",
        "-",
        "01234567-89ab-cdef-0123-456789abcde",
        "01234567-89ab-cdef-0123-456789abcdef0",
        "01234567-89ab-cdef-0123-456789abcdeg",
        "01234567_89ab_cdef_0123_456789abcdef",
        "+1234567-89ab-cdef-0123-456789abcdef",
        " 01234567-89ab-cdef-0123-456789abcdef",
        "01234567-89ab-cdef-0123-456789abcdé",
        "０1234567-89ab-cdef-0123-456789abcdef",
    ] {
        let mut stream = BinaryStream::new(vec![7; 16], None);
        assert_eq!(Uuid::write(&mut stream, text.to_string()), Err(CodecError::InvalidFormat));
        assert_eq!(offset(&stream), 0);
        assert_eq!(stream.as_slice(), &[7; 16]);
    }
}

#[test]
fn uuid_malformed_text_is_refused_before_bounds_are_looked_at() {
    let mut stream = BinaryStream::new(Vec::new(), None);
    assert_eq!(Uuid::write(&mut stream, "xyz".to_string()), Err(CodecError::InvalidFormat));
}

#[test]
fn uuid_read_failures() {
    let mut stream = BinaryStream::new(vec![0; 7], None);
    assert_eq!(Uuid::read(&mut stream), Err(CodecError::OutOfBounds));
    assert_eq!(offset(&stream), 0);
    let mut stream = BinaryStream::new(vec![0; 15], None);
    assert_eq!(Uuid::read(&mut stream), Err(CodecError::OutOfBounds));
    assert_eq!(offset(&stream), 0);
    let mut stream = BinaryStream::new(vec![0; 10], None);
    assert_eq!(Uuid::read(&mut stream), Err(CodecError::OutOfBounds));
    assert_eq!(offset(&stream), 0);
    let mut stream = BinaryStream::new(vec![0; 18], Some(3));
    assert_eq!(Uuid::read(&mut stream), Err(CodecError::OutOfBounds));
    assert_eq!(offset(&stream), 3);
}

#[test]
fn uuid_write_failures() {
    let text = "00112233-4455-6677-8899-aabbccddeeff";
    let mut stream = BinaryStream::new(vec![1; 7], None);
    assert_eq!(Uuid::write(&mut stream, text.to_string()), Err(CodecError::OutOfBounds));
    assert_eq!(offset(&stream), 0);
    assert_eq!(stream.as_slice(), &[1; 7]);
    let mut stream = BinaryStream::new(vec![1; 15], None);
    assert_eq!(Uuid::write(&mut stream, text.to_string()), Err(CodecError::OutOfBounds));
    assert_eq!(offset(&stream), 0);
    assert_eq!(stream.as_slice(), &[1; 15]);
}

#[test]
fn uuid_at_the_last_place_that_fits() {
    let text = "ffffffff-ffff-ffff-ffff-fffffffffffe";
    let mut stream = BinaryStream::new(vec![0; 20], Some(4));
    assert_eq!(Uuid::write(&mut stream, text.to_string()), Ok(()));
    assert_eq!(offset(&stream), 20);
    stream.set_offset_napi(4).unwrap();
    assert_eq!(Uuid::read(&mut stream), Ok(text.to_string()));
    assert_eq!(offset(&stream), 20);
}

#[test]
fn parse_spells_the_bytes_of_the_digits() {
    assert_eq!(
        parse("00112233-4455-6677-8899-AABBCCDDEEFF"),
        Some(vec![
            0x00, 0x11, 0x22, 0x33, 0x44, 0x55, 0x66, 0x77, 0x88, 0x99, 0xAA, 0xBB, 0xCC, 0xDD, 0xEE,
            0xFF
        ])
    );
    assert_eq!(parse("0011"), None);
    assert_eq!(parse(&"0".repeat(33)), None);
    assert_eq!(parse(&"0".repeat(32)), Some(vec![0; 16]));
    assert_eq!(parse(&"-".repeat(100)), None);
}
