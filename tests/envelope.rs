use yeet::envelope::{read_u16_le, read_u32_le, write_bytes, write_u16_le, write_u32_le, ByteReader};
use yeet::model::DecodeError;
use yeet::pixels::{decode_hex, decode_payload, encode_hex, encode_payload};
use yeet::model::PixelEncoding;

#[test]
fn writers_are_little_endian() {
    let mut out = vec![9u8];
    write_u32_le(&mut out, 0x0403_0201);
    write_u16_le(&mut out, 0x0605);
    write_bytes(&mut out, &[7, 8]);
    assert_eq!(out, vec![9, 1, 2, 3, 4, 5, 6, 7, 8]);
    assert_eq!(read_u32_le(&out, 1), Ok(0x0403_0201));
    assert_eq!(read_u16_le(&out, 5), Ok(0x0605));
    assert_eq!(read_u32_le(&out, 6), Err(DecodeError::UnexpectedEof));
    assert_eq!(read_u16_le(&out, 8), Err(DecodeError::UnexpectedEof));
}

#[test]
fn cursor_advances_only_on_success() {
    let bytes = [1u8, 0, 0, 0, 2, 0, 0, 0, 0xAA, 0xBB];
    let mut r = ByteReader::at(&bytes, 0);
    assert_eq!(r.read_u32_le(), Ok(1));
    assert_eq!(r.read_u32_le(), Ok(2));
    assert_eq!(r.pos, 8);
    assert_eq!(r.read_u32_le(), Err(DecodeError::UnexpectedEof));
    assert_eq!(r.pos, 8);
    assert_eq!(r.read_exact(3), Err(DecodeError::UnexpectedEof));
    assert_eq!(r.read_exact(2), Ok(vec![0xAA, 0xBB]));
    assert_eq!(r.pos, 10);
    assert_eq!(r.read_exact(0), Ok(vec![]));
}

#[test]
fn hex_text() {
    assert_eq!(encode_hex(&[0xFF, 0x00, 0x0A, 0xB7]), b"FF000AB7".to_vec());
    assert_eq!(decode_hex(b"FF000AB7"), Some(vec![0xFF, 0x00, 0x0A, 0xB7]));
    assert_eq!(decode_hex(b"ff0aB7"), Some(vec![0xFF, 0x0A, 0xB7]));
    assert_eq!(decode_hex(b"F"), None);
    assert_eq!(decode_hex(b"GG"), None);
    assert_eq!(decode_hex(b""), Some(vec![]));
}

#[test]
fn payloads() {
    assert_eq!(encode_payload(&[1, 2, 3], PixelEncoding::Binary), vec![1, 2, 3]);
    assert_eq!(encode_payload(&[1, 2, 3], PixelEncoding::Hex), b"010203".to_vec());
    assert_eq!(decode_payload(b"010203", PixelEncoding::Hex, 3), Ok(vec![1, 2, 3]));
    assert_eq!(decode_payload(b"0102", PixelEncoding::Hex, 3), Err(DecodeError::CorruptPayload));
    assert_eq!(decode_payload(&[1, 2], PixelEncoding::Binary, 3), Err(DecodeError::CorruptPayload));
}
