use bytes::BytesMut;
use piranha_server::stream::byte_stream::ByteStream;

/// A stream that reads back the bytes written to `written`.
fn reader_of(written: &mut ByteStream) -> ByteStream {
    let bytes = written.replace_buffer(BytesMut::new());
    let mut reader = ByteStream::new();
    reader.replace_buffer(bytes);
    reader
}

fn bytes_of(stream: &ByteStream) -> Vec<u8> {
    stream.get_buffer()[..].to_vec()
}

#[test]
fn new_stream_is_empty() {
    let stream = ByteStream::new();
    assert_eq!(stream.get_length(), 0);
    assert!(bytes_of(&stream).is_empty());
}

#[test]
fn write_int_is_big_endian() {
    let mut s = ByteStream::new();
    s.write_int(0x0102_0304);
    s.write_int(-1);
    assert_eq!(bytes_of(&s), vec![1, 2, 3, 4, 0xFF, 0xFF, 0xFF, 0xFF]);
}

#[test]
fn int_roundtrip() {
    let mut s = ByteStream::new();
    for v in [0, 1, -1, i32::MAX, i32::MIN, 123_456_789] {
        s.write_int(v);
    }
    let mut r = reader_of(&mut s);
    for v in [0, 1, -1, i32::MAX, i32::MIN, 123_456_789] {
        assert_eq!(r.read_int(), v);
    }
    // Past the end: 0.
    assert_eq!(r.read_int(), 0);
}

#[test]
fn read_int_on_short_data_gives_zero() {
    let mut r = ByteStream::new();
    r.replace_buffer(BytesMut::from(&[1u8, 2, 3][..]));
    assert_eq!(r.read_int(), 0);
    // The offset stayed: a short still reads.
    assert_eq!(r.read_short(), 0x0102);
}

#[test]
fn short_roundtrip_and_bytes() {
    let mut s = ByteStream::new();
    s.write_short(0x0A0B);
    s.write_short(-2);
    assert_eq!(bytes_of(&s), vec![0x0A, 0x0B, 0xFF, 0xFE]);
    let mut r = reader_of(&mut s);
    assert_eq!(r.read_short(), 0x0A0B);
    assert_eq!(r.read_short(), -2);
    assert_eq!(r.read_short(), 0);
}

#[test]
fn vint_bytes_of_small_values() {
    let mut s = ByteStream::new();
    s.write_vint(0);
    s.write_vint(63);
    s.write_vint(64);
    s.write_vint(100);
    assert_eq!(bytes_of(&s), vec![0x00, 0x3F, 0x80, 0x01, 0xA4, 0x01]);
}

#[test]
fn vint_bytes_of_extreme_values() {
    let mut s = ByteStream::new();
    s.write_vint(i32::MIN);
    assert_eq!(bytes_of(&s), vec![0xC0, 0x80, 0x80, 0x80, 0x70]);
    let mut t = ByteStream::new();
    t.write_vint(i32::MAX);
    assert_eq!(bytes_of(&t), vec![0xBF, 0xFF, 0xFF, 0xFF, 0x0F]);
}

#[test]
fn vint_roundtrip_for_non_negative_values() {
    let values = [0, 1, 63, 64, 100, 8191, 8192, 1_000_000, i32::MAX];
    let mut s = ByteStream::new();
    for v in values {
        s.write_vint(v);
    }
    let mut r = reader_of(&mut s);
    for v in values {
        assert_eq!(r.read_vint(), v);
    }
    assert_eq!(r.read_vint(), 0);
}

#[test]
fn negative_vints_do_not_roundtrip() {
    let mut s = ByteStream::new();
    s.write_vint(-1);
    s.write_vint(-64);
    assert_eq!(bytes_of(&s), vec![0x7F, 0x40]);
    let mut r = reader_of(&mut s);
    assert_eq!(r.read_vint(), -64);
    assert_eq!(r.read_vint(), -1);
}

#[test]
fn read_vint_runs_out_of_data() {
    let mut r = ByteStream::new();
    r.replace_buffer(BytesMut::from(&[0x80u8, 0x80][..]));
    assert_eq!(r.read_vint(), 0);
    // Both bytes were consumed: nothing left.
    assert_eq!(r.read_vint(), 0);
}

#[test]
fn string_bytes_and_roundtrip() {
    let mut s = ByteStream::new();
    s.write_string(Some("hello"));
    assert_eq!(bytes_of(&s), vec![0, 0, 0, 5, b'h', b'e', b'l', b'l', b'o']);
    s.write_string(Some("привет"));
    s.write_string(Some(""));
    s.write_string(None);
    let mut r = reader_of(&mut s);
    assert_eq!(r.read_string(), "hello");
    assert_eq!(r.read_string(), "привет");
    assert_eq!(r.read_string(), "");
    assert_eq!(r.read_string(), "");
}

#[test]
fn absent_string_is_minus_one() {
    let mut s = ByteStream::new();
    s.write_string(None);
    assert_eq!(bytes_of(&s), vec![0xFF, 0xFF, 0xFF, 0xFF]);
}

#[test]
fn overlong_string_is_written_as_absent() {
    let long = "a".repeat(90_001);
    let mut s = ByteStream::new();
    s.write_string(Some(&long));
    assert_eq!(bytes_of(&s), vec![0xFF, 0xFF, 0xFF, 0xFF]);
}

#[test]
fn string_of_exactly_90000_bytes_reads_back_empty() {
    let long = "b".repeat(90_000);
    let mut s = ByteStream::new();
    s.write_string(Some(&long));
    assert_eq!(s.get_length(), 90_004);
    let mut r = reader_of(&mut s);
    assert_eq!(r.read_string(), "");
}

#[test]
fn invalid_utf8_reads_as_empty_string() {
    let mut r = ByteStream::new();
    r.replace_buffer(BytesMut::from(&[0u8, 0, 0, 2, 0xC3, 0x28, 0, 0, 0, 1][..]));
    assert_eq!(r.read_string(), "");
    // The bytes were skipped all the same.
    assert_eq!(r.read_int(), 1);
}

#[test]
fn string_longer_than_data_reads_empty() {
    let mut r = ByteStream::new();
    r.replace_buffer(BytesMut::from(&[0u8, 0, 0, 9, b'a', b'b'][..]));
    assert_eq!(r.read_string(), "");
    assert_eq!(r.read_short(), 0x6162);
}

#[test]
fn booleans_pack_into_one_byte() {
    let mut s = ByteStream::new();
    s.write_boolean(true);
    s.write_boolean(false);
    s.write_boolean(true);
    assert_eq!(bytes_of(&s), vec![0b101]);
    for _ in 0..5 {
        s.write_boolean(true);
    }
    assert_eq!(bytes_of(&s), vec![0b1111_1101]);
    // The ninth boolean opens a new byte.
    s.write_boolean(true);
    assert_eq!(bytes_of(&s), vec![0b1111_1101, 0b1]);
}

#[test]
fn a_write_closes_the_boolean_byte() {
    let mut s = ByteStream::new();
    s.write_boolean(true);
    s.write_byte(7);
    s.write_boolean(true);
    assert_eq!(bytes_of(&s), vec![1, 7, 1]);
}

#[test]
fn read_boolean_reads_a_vint() {
    let mut r = ByteStream::new();
    r.replace_buffer(BytesMut::from(&[0u8, 2, 0x7F][..]));
    assert!(!r.read_boolean());
    assert!(r.read_boolean());
    assert!(!r.read_boolean());
}

#[test]
fn long_long_is_high_then_low_word() {
    let mut s = ByteStream::new();
    s.write_long_long(0x0102_0304_0506_0708);
    s.write_long_long(-2);
    assert_eq!(
        bytes_of(&s),
        vec![1, 2, 3, 4, 5, 6, 7, 8, 0xFF, 0xFF, 0xFF, 0xFF, 0xFF, 0xFF, 0xFF, 0xFE]
    );
}

#[test]
fn long_roundtrip() {
    let mut s = ByteStream::new();
    s.write_long(7, -9);
    assert_eq!(bytes_of(&s), vec![0, 0, 0, 7, 0xFF, 0xFF, 0xFF, 0xF7]);
    let mut r = reader_of(&mut s);
    assert_eq!(r.read_long(), [7, -9]);
}

#[test]
fn logic_long_roundtrip() {
    let mut s = ByteStream::new();
    s.write_logic_long(3, 100);
    assert_eq!(bytes_of(&s), vec![0x03, 0xA4, 0x01]);
    let mut r = reader_of(&mut s);
    assert_eq!(r.read_logic_long(), [3, 100]);
}

#[test]
fn data_reference_roundtrip() {
    let mut s = ByteStream::new();
    s.write_data_reference(16, 5);
    s.write_data_reference(0, 5);
    s.write_data_reference(-3, 5);
    assert_eq!(bytes_of(&s), vec![16, 5, 0, 0]);
    let mut r = reader_of(&mut s);
    assert_eq!(r.read_data_reference(), [16, 5]);
    assert_eq!(r.read_data_reference(), [0, 0]);
    assert_eq!(r.read_data_reference(), [0, 0]);
}

#[test]
fn write_bytes_prefixes_the_length() {
    let mut s = ByteStream::new();
    s.write_bytes(&[9, 8, 7]);
    s.write_bytes(&[]);
    assert_eq!(bytes_of(&s), vec![0, 0, 0, 3, 9, 8, 7, 0xFF, 0xFF, 0xFF, 0xFF]);
}

#[test]
fn write_byte_appends() {
    let mut s = ByteStream::new();
    s.write_byte(0xAB);
    s.write_byte(0);
    assert_eq!(bytes_of(&s), vec![0xAB, 0]);
}

#[test]
fn skip_moves_whole_bytes_and_bits() {
    let mut r = ByteStream::new();
    r.replace_buffer(BytesMut::from(&[1u8, 2, 3, 4, 5, 6][..]));
    r.skip(16);
    assert_eq!(r.read_short(), 0x0304);
    // A skip of 3 bits opens no byte: the next boolean sets bit 3 of the
    // byte before the offset.
    r.skip(3);
    r.write_boolean(true);
    assert_eq!(bytes_of(&r), vec![1, 2, 3, 4 | 8, 5, 6]);
}

#[test]
fn writing_past_the_end_grows_with_zeros() {
    let mut s = ByteStream::new();
    s.skip(16);
    s.write_byte(9);
    assert_eq!(bytes_of(&s), vec![0, 0, 9]);
}

#[test]
fn ensure_capacity_grows_with_zeros() {
    let mut s = ByteStream::new();
    s.write_byte(1);
    s.ensure_capacity(3);
    assert_eq!(bytes_of(&s), vec![1, 0, 0, 0]);
    s.ensure_capacity(2);
    assert_eq!(s.get_length(), 4);
}

#[test]
fn overwriting_keeps_later_bytes() {
    let mut s = ByteStream::new();
    s.replace_buffer(BytesMut::from(&[1u8, 2, 3, 4, 5, 6][..]));
    s.write_short(-1);
    assert_eq!(bytes_of(&s), vec![0xFF, 0xFF, 3, 4, 5, 6]);
}

#[test]
fn reset_empties_the_stream() {
    let mut s = ByteStream::new();
    s.write_int(5);
    s.reset();
    assert_eq!(s.get_length(), 0);
    s.write_byte(1);
    assert_eq!(bytes_of(&s), vec![1]);
}

#[test]
fn replace_buffer_returns_the_old_bytes_and_rewinds() {
    let mut s = ByteStream::new();
    s.write_int(42);
    let old = s.replace_buffer(BytesMut::from(&[0u8, 0, 0, 7][..]));
    assert_eq!(&old[..], &[0, 0, 0, 42]);
    assert_eq!(s.read_int(), 7);
}

#[test]
fn booleans_pack_from_the_end_of_the_data() {
    let mut s = ByteStream::new();
    s.write_byte(0xAA);
    let bits = [true, true, false, false, true, false, true, true, false, true];
    for b in bits {
        s.write_boolean(b);
    }
    assert_eq!(bytes_of(&s), vec![0xAA, 0b1101_0011, 0b10]);
}

#[test]
fn writes_from_a_new_stream_append_their_encodings() {
    let mut s = ByteStream::new();
    s.write_int(1);
    s.write_short(2);
    s.write_vint(64);
    s.write_string(Some("a"));
    s.write_data_reference(0, 9);
    assert_eq!(bytes_of(&s), vec![0, 0, 0, 1, 0, 2, 0x80, 0x01, 0, 0, 0, 1, b'a', 0]);
    assert_eq!(s.get_length(), 14);
}
