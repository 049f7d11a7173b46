use yeet::compression::CompressionAlgorithm;
use yeet::decode::{decode, detect_generation};
use yeet::encode::encode;
use yeet::format::{Container, Frame};
use yeet::image::{encode_image, to_rgba, EncodeOptions, PixelGrid};
use yeet::model::{DecodeError, EncodeError, Generation, PixelEncoding};

fn grid_2x2() -> PixelGrid {
    PixelGrid {
        width: 2,
        height: 2,
        has_alpha: false,
        pixels: vec![255, 0, 0, 0, 255, 0, 0, 0, 255, 255, 255, 0],
    }
}

fn options(generation: Generation, encoding: PixelEncoding, compression: CompressionAlgorithm) -> EncodeOptions {
    EncodeOptions { generation, encoding, compression, metadata: Vec::new(), color_profile: None }
}

fn animated(compression: CompressionAlgorithm, encoding: PixelEncoding) -> Container {
    Container {
        generation: Generation::V3,
        encoding,
        compression,
        width: 1,
        height: 1,
        has_alpha: true,
        loop_count: 0,
        metadata: b"{\"software\":\"test\"}".to_vec(),
        color_profile: None,
        frames: vec![
            Frame { delay_ms: 0, pixels: vec![1, 2, 3, 4] },
            Frame { delay_ms: 50, pixels: vec![5, 6, 7, 8] },
            Frame { delay_ms: 200, pixels: vec![9, 10, 11, 12] },
        ],
    }
}

fn assert_same(a: &Container, b: &Container) {
    assert_eq!(a.generation, b.generation);
    assert_eq!(a.encoding, b.encoding);
    assert_eq!(a.compression, b.compression);
    assert_eq!(a.width, b.width);
    assert_eq!(a.height, b.height);
    assert_eq!(a.has_alpha, b.has_alpha);
    assert_eq!(a.loop_count, b.loop_count);
    assert_eq!(a.metadata, b.metadata);
    assert_eq!(a.color_profile, b.color_profile);
    assert_eq!(a.frames.len(), b.frames.len());
    for (x, y) in a.frames.iter().zip(b.frames.iter()) {
        assert_eq!(x.delay_ms, y.delay_ms);
        assert_eq!(x.pixels, y.pixels);
    }
}

#[test]
fn v2_hex_uncompressed_layout() {
    let bytes = encode_image(grid_2x2(), options(Generation::V2, PixelEncoding::Hex, CompressionAlgorithm::Uncompressed)).unwrap();
    let mut expected: Vec<u8> = b"YEET".to_vec();
    expected.push(2);
    expected.push(0b0000_0000);
    expected.extend_from_slice(&2u32.to_le_bytes());
    expected.extend_from_slice(&2u32.to_le_bytes());
    expected.extend_from_slice(&0u16.to_le_bytes());
    expected.extend_from_slice(&24u32.to_le_bytes());
    expected.extend_from_slice(b"FF000000FF000000FFFFFF00");
    assert_eq!(bytes, expected);
}

#[test]
fn v2_binary_zlib_round_trip() {
    let bytes = encode_image(grid_2x2(), options(Generation::V2, PixelEncoding::Binary, CompressionAlgorithm::Zlib)).unwrap();
    assert_eq!(bytes[5], 0b0000_0101);
    let stored_len = u32::from_le_bytes([bytes[16], bytes[17], bytes[18], bytes[19]]) as usize;
    let stored = &bytes[20..20 + stored_len];
    assert_ne!(stored, &grid_2x2().pixels[..]);
    let inflated = yeet::compression::decompress(stored, CompressionAlgorithm::Zlib).unwrap();
    assert_eq!(inflated.len(), 12);
    assert_eq!(inflated, grid_2x2().pixels);
    let decoded = decode(&bytes).unwrap();
    let grid = decoded.frame_grid(0);
    assert_eq!(grid.width, 2);
    assert_eq!(grid.height, 2);
    assert!(!grid.has_alpha);
    assert_eq!(grid.pixels, grid_2x2().pixels);
}

#[test]
fn round_trip_every_legal_combination() {
    let cases = vec![
        (Generation::V1, PixelEncoding::Hex, CompressionAlgorithm::Uncompressed, false),
        (Generation::V2, PixelEncoding::Hex, CompressionAlgorithm::Uncompressed, false),
        (Generation::V2, PixelEncoding::Hex, CompressionAlgorithm::Zlib, true),
        (Generation::V2, PixelEncoding::Binary, CompressionAlgorithm::Uncompressed, true),
        (Generation::V2, PixelEncoding::Binary, CompressionAlgorithm::Zlib, false),
        (Generation::V3, PixelEncoding::Hex, CompressionAlgorithm::Uncompressed, true),
        (Generation::V3, PixelEncoding::Hex, CompressionAlgorithm::Brotli, false),
        (Generation::V3, PixelEncoding::Binary, CompressionAlgorithm::Zlib, true),
        (Generation::V3, PixelEncoding::Binary, CompressionAlgorithm::Brotli, true),
        (Generation::V3, PixelEncoding::Binary, CompressionAlgorithm::Zstd, false),
        (Generation::V3, PixelEncoding::Hex, CompressionAlgorithm::Zstd, true),
    ];
    for (generation, encoding, compression, has_alpha) in cases {
        let bpp = if has_alpha { 4 } else { 3 };
        let pixels: Vec<u8> = (0..(3 * 2 * bpp)).map(|i| (i * 37 % 256) as u8).collect();
        let grid = PixelGrid { width: 3, height: 2, has_alpha, pixels: pixels.clone() };
        let bytes = encode_image(grid, options(generation, encoding, compression)).unwrap();
        let decoded = decode(&bytes).unwrap();
        assert_eq!(decoded.generation, generation);
        assert_eq!(decoded.encoding, encoding);
        assert_eq!(decoded.compression, compression);
        assert_eq!(decoded.frames.len(), 1);
        assert_eq!(decoded.frames[0].pixels, pixels);
    }
}

#[test]
fn v3_animation_round_trip() {
    for compression in [CompressionAlgorithm::Uncompressed, CompressionAlgorithm::Zlib, CompressionAlgorithm::Brotli, CompressionAlgorithm::Zstd] {
        let c = animated(compression, PixelEncoding::Binary);
        let bytes = encode(&c).unwrap();
        assert_eq!(bytes[5] & 0b0001_0000, 0b0001_0000);
        let d = decode(&bytes).unwrap();
        assert_same(&c, &d);
        let delays: Vec<u32> = d.frames.iter().map(|f| f.delay_ms).collect();
        assert_eq!(delays, vec![0, 50, 200]);
    }
}

#[test]
fn v3_profile_round_trip() {
    let mut c = animated(CompressionAlgorithm::Zlib, PixelEncoding::Hex);
    c.color_profile = Some(vec![7, 7, 7]);
    let bytes = encode(&c).unwrap();
    assert_eq!(bytes[5] & 0b0010_0000, 0b0010_0000);
    let d = decode(&bytes).unwrap();
    assert_same(&c, &d);
}

#[test]
fn v1_layout_and_newlines() {
    let bytes = encode_image(grid_2x2(), options(Generation::V1, PixelEncoding::Hex, CompressionAlgorithm::Uncompressed)).unwrap();
    let mut expected: Vec<u8> = Vec::new();
    expected.extend_from_slice(&2u32.to_le_bytes());
    expected.extend_from_slice(&2u32.to_le_bytes());
    expected.extend_from_slice(b"FF000000FF000000FFFFFF00");
    assert_eq!(bytes, expected);
    let mut with_newlines: Vec<u8> = Vec::new();
    with_newlines.extend_from_slice(&2u32.to_le_bytes());
    with_newlines.extend_from_slice(&2u32.to_le_bytes());
    with_newlines.extend_from_slice(b"FF000000ff00\n0000FFFFFF00\n");
    let d = decode(&with_newlines).unwrap();
    assert_eq!(d.generation, Generation::V1);
    assert_eq!(d.frames[0].pixels, grid_2x2().pixels);
    assert_eq!(d.loop_count, 1);
}

#[test]
fn v1_under_magic_envelope() {
    let mut bytes: Vec<u8> = b"YEET".to_vec();
    bytes.push(1);
    bytes.extend_from_slice(&1u32.to_le_bytes());
    bytes.extend_from_slice(&1u32.to_le_bytes());
    bytes.extend_from_slice(b"0A0B0C");
    let d = decode(&bytes).unwrap();
    assert_eq!(d.generation, Generation::V1);
    assert_eq!(d.frames[0].pixels, vec![10, 11, 12]);
}

#[test]
fn buffers_without_magic_are_first_generation() {
    let mut bytes: Vec<u8> = Vec::new();
    bytes.extend_from_slice(&1u32.to_le_bytes());
    bytes.extend_from_slice(&1u32.to_le_bytes());
    bytes.extend_from_slice(b"123456");
    assert_eq!(decode(&bytes).unwrap().generation, Generation::V1);
    assert_eq!(decode(b"YEE").unwrap_err(), DecodeError::UnexpectedEof);
    assert_eq!(decode(b"XEET\x02\x00").unwrap_err(), DecodeError::UnexpectedEof);
    assert_eq!(decode(b"").unwrap_err(), DecodeError::UnexpectedEof);
}

#[test]
fn unsupported_version() {
    assert_eq!(decode(b"YEET\x04rest-of-file").unwrap_err(), DecodeError::UnsupportedVersion);
    assert_eq!(decode(b"YEET\x00").unwrap_err(), DecodeError::UnsupportedVersion);
}

#[test]
fn reserved_flags_are_refused() {
    let mut bytes = encode_image(grid_2x2(), options(Generation::V2, PixelEncoding::Hex, CompressionAlgorithm::Uncompressed)).unwrap();
    bytes[5] = 0b0000_1000;
    assert_eq!(decode(&bytes).unwrap_err(), DecodeError::UnsupportedFeature);
    let mut v3 = encode(&animated(CompressionAlgorithm::Uncompressed, PixelEncoding::Binary)).unwrap();
    v3[5] |= 0b0100_0000;
    assert_eq!(decode(&v3).unwrap_err(), DecodeError::UnsupportedFeature);
}

#[test]
fn profile_flag_without_profile() {
    let mut bytes = encode(&animated(CompressionAlgorithm::Uncompressed, PixelEncoding::Binary)).unwrap();
    bytes[5] |= 0b0010_0000;
    assert_eq!(decode(&bytes).unwrap_err(), DecodeError::UnsupportedFeature);
}

#[test]
fn profile_without_flag() {
    let mut c = animated(CompressionAlgorithm::Uncompressed, PixelEncoding::Binary);
    c.color_profile = Some(vec![1, 2]);
    let mut bytes = encode(&c).unwrap();
    bytes[5] &= !0b0010_0000;
    assert_eq!(decode(&bytes).unwrap_err(), DecodeError::UnsupportedFeature);
}

#[test]
fn non_hex_text_is_corrupt() {
    let mut bytes = encode_image(grid_2x2(), options(Generation::V2, PixelEncoding::Hex, CompressionAlgorithm::Uncompressed)).unwrap();
    let last = bytes.len() - 1;
    bytes[last] = b'G';
    assert_eq!(decode(&bytes).unwrap_err(), DecodeError::CorruptPayload);
}

#[test]
fn wrong_payload_size_is_corrupt() {
    let mut bytes: Vec<u8> = b"YEET".to_vec();
    bytes.push(2);
    bytes.push(0b100);
    bytes.extend_from_slice(&1u32.to_le_bytes());
    bytes.extend_from_slice(&1u32.to_le_bytes());
    bytes.extend_from_slice(&0u16.to_le_bytes());
    bytes.extend_from_slice(&2u32.to_le_bytes());
    bytes.extend_from_slice(&[1, 2]);
    assert_eq!(decode(&bytes).unwrap_err(), DecodeError::CorruptPayload);
}

#[test]
fn zero_dimensions_are_corrupt() {
    let mut bytes: Vec<u8> = Vec::new();
    bytes.extend_from_slice(&0u32.to_le_bytes());
    bytes.extend_from_slice(&1u32.to_le_bytes());
    assert_eq!(decode(&bytes).unwrap_err(), DecodeError::CorruptPayload);
}

#[test]
fn corrupt_compressed_stream() {
    let mut bytes = encode_image(grid_2x2(), options(Generation::V2, PixelEncoding::Binary, CompressionAlgorithm::Zlib)).unwrap();
    for b in bytes.iter_mut().skip(20) {
        *b = 0xAB;
    }
    assert_eq!(decode(&bytes).unwrap_err(), DecodeError::CorruptPayload);
}

#[test]
fn truncation_never_succeeds() {
    let mut buffers = vec![
        encode_image(grid_2x2(), options(Generation::V1, PixelEncoding::Hex, CompressionAlgorithm::Uncompressed)).unwrap(),
        encode_image(grid_2x2(), options(Generation::V2, PixelEncoding::Binary, CompressionAlgorithm::Zlib)).unwrap(),
    ];
    let mut c = animated(CompressionAlgorithm::Zstd, PixelEncoding::Hex);
    c.color_profile = Some(vec![9; 5]);
    buffers.push(encode(&c).unwrap());
    for full in buffers {
        for k in 0..full.len() {
            let e = decode(&full[..k]).unwrap_err();
            assert!(e == DecodeError::UnexpectedEof || e == DecodeError::CorruptPayload, "offset {}: {:?}", k, e);
        }
    }
}

#[test]
fn encoder_refusals() {
    let zero = PixelGrid { width: 0, height: 1, has_alpha: false, pixels: vec![] };
    assert_eq!(encode_image(zero, options(Generation::V2, PixelEncoding::Hex, CompressionAlgorithm::Uncompressed)).unwrap_err(), EncodeError::InvalidDimensions);
    let short = PixelGrid { width: 2, height: 2, has_alpha: false, pixels: vec![1, 2, 3] };
    assert_eq!(encode_image(short, options(Generation::V2, PixelEncoding::Hex, CompressionAlgorithm::Uncompressed)).unwrap_err(), EncodeError::PixelCountMismatch);
    assert_eq!(encode_image(grid_2x2(), options(Generation::V2, PixelEncoding::Hex, CompressionAlgorithm::Brotli)).unwrap_err(), EncodeError::UnsupportedForGeneration);
    assert_eq!(encode_image(grid_2x2(), options(Generation::V1, PixelEncoding::Binary, CompressionAlgorithm::Uncompressed)).unwrap_err(), EncodeError::UnsupportedForGeneration);
    let mut with_profile = options(Generation::V2, PixelEncoding::Hex, CompressionAlgorithm::Uncompressed);
    with_profile.color_profile = Some(vec![1]);
    assert_eq!(encode_image(grid_2x2(), with_profile).unwrap_err(), EncodeError::UnsupportedForGeneration);
    let mut empty_profile = options(Generation::V3, PixelEncoding::Hex, CompressionAlgorithm::Uncompressed);
    empty_profile.color_profile = Some(vec![]);
    assert_eq!(encode_image(grid_2x2(), empty_profile).unwrap_err(), EncodeError::UnsupportedForGeneration);
    let mut long_metadata = options(Generation::V2, PixelEncoding::Hex, CompressionAlgorithm::Uncompressed);
    long_metadata.metadata = vec![b' '; 65536];
    assert_eq!(encode_image(grid_2x2(), long_metadata).unwrap_err(), EncodeError::FieldTooLong);
    let huge = PixelGrid { width: 65536, height: 65536, has_alpha: false, pixels: vec![] };
    assert_eq!(encode_image(huge, options(Generation::V3, PixelEncoding::Binary, CompressionAlgorithm::Uncompressed)).unwrap_err(), EncodeError::InvalidDimensions);
}

#[test]
fn rgba_expansion() {
    assert_eq!(to_rgba(&[1, 2, 3, 4, 5, 6], false), vec![1, 2, 3, 255, 4, 5, 6, 255]);
    assert_eq!(to_rgba(&[1, 2, 3, 4], true), vec![1, 2, 3, 4]);
}

#[test]
fn third_generation_reader() {
    let c = animated(CompressionAlgorithm::Brotli, PixelEncoding::Binary);
    let bytes = encode(&c).unwrap();
    assert_same(&c, &yeet::decode::decode_v3_only(&bytes).unwrap());
    assert_eq!(yeet::decode::decode_v3_only(b"NOPE\x03").unwrap_err(), DecodeError::InvalidMagic);
    assert_eq!(yeet::decode::decode_v3_only(b"").unwrap_err(), DecodeError::UnexpectedEof);
    assert_eq!(yeet::decode::decode_v3_only(&bytes[..3]).unwrap_err(), DecodeError::UnexpectedEof);
    for k in 0..bytes.len() {
        let e = yeet::decode::decode_v3_only(&bytes[..k]).unwrap_err();
        assert!(e == DecodeError::UnexpectedEof || e == DecodeError::CorruptPayload, "offset {}: {:?}", k, e);
    }
    let v2 = encode_image(grid_2x2(), options(Generation::V2, PixelEncoding::Hex, CompressionAlgorithm::Uncompressed)).unwrap();
    assert_eq!(yeet::decode::decode_v3_only(&v2).unwrap_err(), DecodeError::UnsupportedVersion);
}

#[test]
fn alpha_is_dropped_for_first_generation() {
    let rgba = PixelGrid { width: 2, height: 1, has_alpha: true, pixels: vec![1, 2, 3, 4, 5, 6, 7, 8] };
    let rgb = rgba.without_alpha();
    assert!(!rgb.has_alpha);
    assert_eq!(rgb.pixels, vec![1, 2, 3, 5, 6, 7]);
    let bytes = encode_image(rgb, options(Generation::V1, PixelEncoding::Hex, CompressionAlgorithm::Uncompressed)).unwrap();
    assert_eq!(&bytes[8..], b"010203050607");
}

#[test]
fn dispatcher_picks_generation() {
    assert_eq!(detect_generation(b"\x01\x00\x00\x00"), Ok(Generation::V1));
    assert_eq!(detect_generation(b"YE"), Ok(Generation::V1));
    assert_eq!(detect_generation(b"YEET"), Err(DecodeError::UnexpectedEof));
    assert_eq!(detect_generation(b"YEET\x01"), Ok(Generation::V1));
    assert_eq!(detect_generation(b"YEET\x02"), Ok(Generation::V2));
    assert_eq!(detect_generation(b"YEET\x03"), Ok(Generation::V3));
    assert_eq!(detect_generation(b"YEET\x07"), Err(DecodeError::UnsupportedVersion));
}
