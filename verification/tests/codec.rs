use fluvio_wire::codec::{
    decode_bytes, decode_i16, decode_i32, decode_i64, decode_i8, decode_nullable_string,
    decode_string, encode_bytes, encode_i16, encode_i32, encode_i64, encode_i8,
    encode_nullable_string, encode_string,
};
use fluvio_wire::error::ProtocolError;

#[test]
fn integers_are_big_endian() {
    let mut out = Vec::new();
    encode_i8(&mut out, 0x12);
    encode_i16(&mut out, 0x1234);
    encode_i32(&mut out, 0x0102_0304);
    encode_i64(&mut out, 0x0102_0304_0506_0708);
    assert_eq!(
        out,
        vec![0x12, 0x12, 0x34, 1, 2, 3, 4, 1, 2, 3, 4, 5, 6, 7, 8]
    );
}

#[test]
fn negative_integers_are_twos_complement() {
    let mut out = Vec::new();
    encode_i8(&mut out, -1);
    encode_i16(&mut out, -2);
    encode_i32(&mut out, -3);
    encode_i64(&mut out, -4);
    assert_eq!(
        out,
        vec![
            0xff, 0xff, 0xfe, 0xff, 0xff, 0xff, 0xfd, 0xff, 0xff, 0xff, 0xff, 0xff, 0xff, 0xff,
            0xfc
        ]
    );
}

#[test]
fn integers_agree_with_the_standard_library() {
    for v in [i16::MIN, -257, -1, 0, 1, 255, 256, 9999, i16::MAX] {
        let mut out = Vec::new();
        encode_i16(&mut out, v);
        assert_eq!(out, v.to_be_bytes().to_vec());
        assert_eq!(decode_i16(&out, 0), Ok((v, 2)));
    }
    for v in [i32::MIN, -65537, -1, 0, 1, 65536, 0x7fff_fff7, i32::MAX] {
        let mut out = Vec::new();
        encode_i32(&mut out, v);
        assert_eq!(out, v.to_be_bytes().to_vec());
        assert_eq!(decode_i32(&out, 0), Ok((v, 4)));
    }
    for v in [i64::MIN, -4294967297, -1, 0, 1, 4294967296, i64::MAX] {
        let mut out = Vec::new();
        encode_i64(&mut out, v);
        assert_eq!(out, v.to_be_bytes().to_vec());
        assert_eq!(decode_i64(&out, 0), Ok((v, 8)));
    }
    for v in [i8::MIN, -1, 0, 1, i8::MAX] {
        let mut out = Vec::new();
        encode_i8(&mut out, v);
        assert_eq!(out, v.to_be_bytes().to_vec());
        assert_eq!(decode_i8(&out, 0), Ok((v, 1)));
    }
}

#[test]
fn encoders_append_to_what_is_there() {
    let mut out = vec![9, 9];
    encode_i16(&mut out, 1);
    assert_eq!(out, vec![9, 9, 0, 1]);
    assert_eq!(decode_i16(&out, 2), Ok((1, 4)));
}

#[test]
fn integers_underflow_on_short_input() {
    assert_eq!(decode_i8(&[], 0), Err(ProtocolError::BufferUnderflow));
    assert_eq!(decode_i16(&[1], 0), Err(ProtocolError::BufferUnderflow));
    assert_eq!(decode_i32(&[1, 2, 3], 0), Err(ProtocolError::BufferUnderflow));
    assert_eq!(decode_i64(&[1, 2, 3, 4, 5, 6, 7], 0), Err(ProtocolError::BufferUnderflow));
    assert_eq!(decode_i16(&[1, 2], 1), Err(ProtocolError::BufferUnderflow));
    assert_eq!(decode_i16(&[1, 2], 7), Err(ProtocolError::BufferUnderflow));
    assert_eq!(decode_i32(&[1, 2, 3, 4], usize::MAX), Err(ProtocolError::BufferUnderflow));
}

#[test]
fn string_is_length_then_utf8() {
    let mut out = Vec::new();
    assert_eq!(encode_string(&mut out, "PLAIN"), Ok(()));
    assert_eq!(out, vec![0, 5, b'P', b'L', b'A', b'I', b'N']);
    assert_eq!(decode_string(&out, 0), Ok(("PLAIN".to_string(), 7)));
}

#[test]
fn empty_string_is_a_zero_length() {
    let mut out = Vec::new();
    assert_eq!(encode_string(&mut out, ""), Ok(()));
    assert_eq!(out, vec![0, 0]);
    assert_eq!(decode_string(&out, 0), Ok((String::new(), 2)));
    assert_eq!(decode_nullable_string(&out, 0), Ok((Some(String::new()), 2)));
}

#[test]
fn string_length_counts_bytes_not_characters() {
    let mut out = Vec::new();
    assert_eq!(encode_string(&mut out, "héllo ✓"), Ok(()));
    assert_eq!(out[..2], [0, 10]);
    assert_eq!(out[2..], *"héllo ✓".as_bytes());
    assert_eq!(decode_string(&out, 0), Ok(("héllo ✓".to_string(), 12)));
}

#[test]
fn string_that_is_too_long_is_refused() {
    let longest = "a".repeat(0x7fff);
    let mut out = Vec::new();
    assert_eq!(encode_string(&mut out, &longest), Ok(()));
    assert_eq!(out.len(), 2 + 0x7fff);
    assert_eq!(out[..2], [0x7f, 0xff]);
    assert_eq!(decode_string(&out, 0), Ok((longest, 2 + 0x7fff)));

    let too_long = "a".repeat(0x8000);
    let mut out = vec![7];
    assert_eq!(encode_string(&mut out, &too_long), Err(ProtocolError::InvalidLength));
    assert_eq!(out, vec![7]);
    assert_eq!(
        encode_nullable_string(&mut out, Some(&too_long)),
        Err(ProtocolError::InvalidLength)
    );
    assert_eq!(out, vec![7]);
}

#[test]
fn null_string_is_a_negative_length() {
    let mut out = Vec::new();
    assert_eq!(encode_nullable_string(&mut out, None), Ok(()));
    assert_eq!(out, vec![0xff, 0xff]);
    assert_eq!(decode_nullable_string(&out, 0), Ok((None, 2)));
    assert_eq!(decode_nullable_string(&[0x80, 0x00], 0), Ok((None, 2)));
}

#[test]
fn nullable_string_that_is_there() {
    let mut out = Vec::new();
    assert_eq!(encode_nullable_string(&mut out, Some("ab")), Ok(()));
    assert_eq!(out, vec![0, 2, b'a', b'b']);
    assert_eq!(decode_nullable_string(&out, 0), Ok((Some("ab".to_string()), 4)));
}

#[test]
fn negative_length_of_a_plain_string_is_invalid() {
    assert_eq!(decode_string(&[0xff, 0xff], 0), Err(ProtocolError::InvalidLength));
    assert_eq!(decode_string(&[0x80, 0x00, 1, 2], 0), Err(ProtocolError::InvalidLength));
}

#[test]
fn string_underflows_when_bytes_are_missing() {
    assert_eq!(decode_string(&[0], 0), Err(ProtocolError::BufferUnderflow));
    assert_eq!(decode_string(&[0, 3, b'a', b'b'], 0), Err(ProtocolError::BufferUnderflow));
    assert_eq!(
        decode_nullable_string(&[0, 3, b'a', b'b'], 0),
        Err(ProtocolError::BufferUnderflow)
    );
}

#[test]
fn string_that_is_not_utf8_is_refused() {
    assert_eq!(decode_string(&[0, 2, 0xc3, 0x28], 0), Err(ProtocolError::InvalidUtf8));
    assert_eq!(decode_string(&[0, 1, 0xff], 0), Err(ProtocolError::InvalidUtf8));
    assert_eq!(decode_nullable_string(&[0, 1, 0x80], 0), Err(ProtocolError::InvalidUtf8));
    // a surrogate, and an overlong form of '/'
    assert_eq!(decode_string(&[0, 3, 0xed, 0xa0, 0x80], 0), Err(ProtocolError::InvalidUtf8));
    assert_eq!(decode_string(&[0, 2, 0xc0, 0xaf], 0), Err(ProtocolError::InvalidUtf8));
}

#[test]
fn bytes_are_length_then_octets() {
    let mut out = Vec::new();
    assert_eq!(encode_bytes(&mut out, &[1, 2, 3]), Ok(()));
    assert_eq!(out, vec![0, 0, 0, 3, 1, 2, 3]);
    assert_eq!(decode_bytes(&out, 0), Ok((vec![1, 2, 3], 7)));
    let mut empty = Vec::new();
    assert_eq!(encode_bytes(&mut empty, &[]), Ok(()));
    assert_eq!(empty, vec![0, 0, 0, 0]);
    assert_eq!(decode_bytes(&empty, 0), Ok((vec![], 4)));
}

#[test]
fn bytes_fail_on_bad_lengths() {
    assert_eq!(decode_bytes(&[0xff, 0xff, 0xff, 0xff], 0), Err(ProtocolError::InvalidLength));
    assert_eq!(decode_bytes(&[0, 0, 0, 2, 1], 0), Err(ProtocolError::BufferUnderflow));
    assert_eq!(decode_bytes(&[0, 0, 0], 0), Err(ProtocolError::BufferUnderflow));
    assert_eq!(
        decode_bytes(&[0x7f, 0xff, 0xff, 0xff, 1], 0),
        Err(ProtocolError::BufferUnderflow)
    );
}
