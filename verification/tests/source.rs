use parser::source::{
    line_of_decoded, read_i64_from_bytes, read_u32_from_bytes, read_u64_from_bytes, read_u8_from_bytes,
    write_i64_to_bytes, write_u32_to_bytes, write_u64_to_bytes,
};
use parser::{ByteSource, ParseError};

#[test]
fn lines_are_read_with_their_line_feed() {
    let mut source = ByteSource::new("first\nsecond\n\nlast".as_bytes().to_vec());
    assert_eq!(source.remaining(), 18);
    assert_eq!(source.read_line(), Ok("first\n".to_string()));
    assert_eq!(source.remaining(), 12);
    assert_eq!(source.read_line(), Ok("second\n".to_string()));
    assert_eq!(source.read_line(), Ok("\n".to_string()));
    assert_eq!(source.read_line(), Ok("last".to_string()));
    assert_eq!(source.remaining(), 0);
    assert_eq!(source.read_line(), Ok("".to_string()));
    assert_eq!(source.read_line(), Ok("".to_string()));
}

#[test]
fn a_line_that_is_no_utf8_is_an_error_of_the_stream() {
    let mut source = ByteSource::new(vec![b'o', b'k', b'\n', 0xff, 0xfe, b'\n', b'x']);
    assert_eq!(source.read_line(), Ok("ok\n".to_string()));
    assert_eq!(
        source.read_line(),
        Err(ParseError::IOError("stream did not contain valid UTF-8".to_string()))
    );
    assert_eq!(source.remaining(), 1);
    assert_eq!(source.read_line(), Ok("x".to_string()));
}

#[test]
fn lines_keep_characters_of_several_bytes() {
    let mut source = ByteSource::new("é\u{1f600}\nü".as_bytes().to_vec());
    assert_eq!(source.read_line(), Ok("é\u{1f600}\n".to_string()));
    assert_eq!(source.read_line(), Ok("ü".to_string()));
}

#[test]
fn take_gives_bytes_or_leaves_them() {
    let mut source = ByteSource::new(vec![1, 2, 3, 4, 5]);
    assert_eq!(source.take(2), Some(vec![1, 2]));
    assert_eq!(source.remaining(), 3);
    assert_eq!(source.take(4), None);
    assert_eq!(source.remaining(), 3);
    assert_eq!(source.take(0), Some(vec![]));
    assert_eq!(source.take(3), Some(vec![3, 4, 5]));
    assert_eq!(source.take(1), None);
    assert_eq!(source.take(0), Some(vec![]));
}

#[test]
fn numbers_are_read_with_the_heaviest_byte_first() {
    let mut data = Vec::new();
    data.push(0xab);
    data.extend_from_slice(&0x01020304u32.to_be_bytes());
    data.extend_from_slice(&0x0102030405060708u64.to_be_bytes());
    data.extend_from_slice(&(-2i64).to_be_bytes());
    data.extend_from_slice(&i64::MIN.to_be_bytes());
    data.extend_from_slice(&i64::MAX.to_be_bytes());
    data.extend_from_slice(&u64::MAX.to_be_bytes());
    let mut source = ByteSource::new(data);
    assert_eq!(read_u8_from_bytes(&mut source), Ok(0xab));
    assert_eq!(read_u32_from_bytes(&mut source), Ok(0x01020304));
    assert_eq!(read_u64_from_bytes(&mut source), Ok(0x0102030405060708));
    assert_eq!(read_i64_from_bytes(&mut source), Ok(-2));
    assert_eq!(read_i64_from_bytes(&mut source), Ok(i64::MIN));
    assert_eq!(read_i64_from_bytes(&mut source), Ok(i64::MAX));
    assert_eq!(read_u64_from_bytes(&mut source), Ok(u64::MAX));
    assert_eq!(source.remaining(), 0);
}

#[test]
fn numbers_cut_short_are_an_unexpected_end() {
    let mut source = ByteSource::new(vec![1, 2, 3]);
    assert_eq!(read_u32_from_bytes(&mut source), Err(ParseError::UnexpectedEOF));
    assert_eq!(read_u64_from_bytes(&mut source), Err(ParseError::UnexpectedEOF));
    assert_eq!(read_i64_from_bytes(&mut source), Err(ParseError::UnexpectedEOF));
    assert_eq!(source.remaining(), 3);
    assert_eq!(read_u8_from_bytes(&mut source), Ok(1));
    let mut empty = ByteSource::new(Vec::new());
    assert_eq!(read_u8_from_bytes(&mut empty), Err(ParseError::UnexpectedEOF));
}

#[test]
fn numbers_are_written_with_the_heaviest_byte_first() {
    let mut w: Vec<u8> = vec![0xff];
    write_u32_to_bytes(&mut w, 0x01020304);
    assert_eq!(w, vec![0xff, 1, 2, 3, 4]);
    let mut w: Vec<u8> = Vec::new();
    write_u64_to_bytes(&mut w, 1633036860000);
    assert_eq!(w, 1633036860000u64.to_be_bytes().to_vec());
    let mut w: Vec<u8> = Vec::new();
    write_u64_to_bytes(&mut w, u64::MAX);
    assert_eq!(w, vec![0xff; 8]);
    for value in [0i64, 1, -1, 100, -100, i64::MAX, i64::MIN, -9223372036854775807] {
        let mut w: Vec<u8> = Vec::new();
        write_i64_to_bytes(&mut w, value);
        assert_eq!(w, value.to_be_bytes().to_vec());
    }
    for value in [0u32, 46, 255, 256, 65535, 65536, u32::MAX] {
        let mut w: Vec<u8> = Vec::new();
        write_u32_to_bytes(&mut w, value);
        assert_eq!(w, value.to_be_bytes().to_vec());
    }
}

#[test]
fn a_decoded_line_is_kept_and_a_failed_decoding_is_an_error_of_the_stream() {
    assert_eq!(line_of_decoded(Ok("line\n".to_string())), Ok("line\n".to_string()));
    assert_eq!(line_of_decoded(Ok("".to_string())), Ok("".to_string()));
    assert_eq!(
        line_of_decoded(Err("invalid utf-8 sequence of 1 bytes from index 0".to_string())),
        Err(ParseError::IOError("stream did not contain valid UTF-8".to_string()))
    );
}
