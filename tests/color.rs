use yeet::color::{apply_color_profile, embeddable_icc_profile, CHUNK_PIXELS};
use yeet::compression::CompressionAlgorithm;
use yeet::decode::decode;
use yeet::encode::encode;
use yeet::format::{Container, Frame};
use yeet::model::{DecodeError, Generation, PixelEncoding};

fn linear_rgb_profile() -> Vec<u8> {
    let white = lcms2::CIExyY { x: 0.3127, y: 0.3290, Y: 1.0 };
    let primaries = lcms2::CIExyYTRIPLE {
        Red: lcms2::CIExyY { x: 0.64, y: 0.33, Y: 1.0 },
        Green: lcms2::CIExyY { x: 0.30, y: 0.60, Y: 1.0 },
        Blue: lcms2::CIExyY { x: 0.15, y: 0.06, Y: 1.0 },
    };
    let curve = lcms2::ToneCurve::new(1.0);
    let profile = lcms2::Profile::new_rgb(&white, &primaries, &[&curve, &curve, &curve]).unwrap();
    profile.icc().unwrap()
}

fn png_bytes(icc: Option<Vec<u8>>) -> Vec<u8> {
    let mut out = Vec::new();
    {
        let mut info = png::Info::with_size(1, 1);
        info.color_type = png::ColorType::Rgb;
        info.bit_depth = png::BitDepth::Eight;
        info.icc_profile = icc.map(std::borrow::Cow::Owned);
        let encoder = png::Encoder::with_info(&mut out, info).unwrap();
        let mut writer = encoder.write_header().unwrap();
        writer.write_image_data(&[1, 2, 3]).unwrap();
    }
    out
}

#[test]
fn unusable_profile_is_reported_and_pixels_kept() {
    let mut data = vec![10, 20, 30, 40, 50, 60];
    assert_eq!(apply_color_profile(&mut data, &[1, 2, 3, 4], 2, 1, false), Err(DecodeError::ProfileError));
    assert_eq!(data, vec![10, 20, 30, 40, 50, 60]);
}

#[test]
fn size_mismatch_is_reported() {
    let profile = linear_rgb_profile();
    let mut data = vec![10, 20, 30, 40, 50];
    assert_eq!(apply_color_profile(&mut data, &profile, 2, 1, false), Err(DecodeError::ProfileError));
    assert_eq!(data, vec![10, 20, 30, 40, 50]);
}

#[test]
fn transform_changes_colours_and_keeps_alpha() {
    let profile = linear_rgb_profile();
    let mut data = vec![128, 128, 128, 77, 0, 0, 0, 200];
    assert_eq!(apply_color_profile(&mut data, &profile, 2, 1, true), Ok(()));
    assert_eq!(data[3], 77);
    assert_eq!(data[7], 200);
    assert_ne!(&data[0..3], &[128, 128, 128]);
    assert!(data[0] > 128);
    assert_eq!(&data[4..7], &[0, 0, 0]);
}

#[test]
fn chunking_does_not_show_in_the_result() {
    let profile = linear_rgb_profile();
    let pixels = CHUNK_PIXELS + 300;
    let data: Vec<u8> = (0..pixels * 3).map(|i| (i * 13 % 256) as u8).collect();
    let mut whole = data.clone();
    assert_eq!(apply_color_profile(&mut whole, &profile, pixels as u32, 1, false), Ok(()));
    let mut pieced = Vec::new();
    for px in data.chunks(3) {
        let mut one = px.to_vec();
        assert_eq!(apply_color_profile(&mut one, &profile, 1, 1, false), Ok(()));
        pieced.extend_from_slice(&one);
    }
    assert_eq!(whole, pieced);
}

#[test]
fn display_applies_embedded_profile() {
    let c = Container {
        generation: Generation::V3,
        encoding: PixelEncoding::Binary,
        compression: CompressionAlgorithm::Zlib,
        width: 1,
        height: 1,
        has_alpha: false,
        loop_count: 0,
        metadata: Vec::new(),
        color_profile: Some(linear_rgb_profile()),
        frames: vec![Frame { delay_ms: 0, pixels: vec![128, 128, 128] }],
    };
    let d = decode(&encode(&c).unwrap()).unwrap();
    assert_eq!(d.frames[0].pixels, vec![128, 128, 128]);
    let shown = d.display_frame(0).unwrap();
    assert!(shown.color_corrected);
    assert_eq!(shown.rgba.len(), 4);
    assert_eq!(shown.rgba[3], 255);
    assert!(shown.rgba[0] > 128);
    assert!(d.display_frame(1).is_none());
}

#[test]
fn broken_profile_is_skipped_for_display() {
    let c = Container {
        generation: Generation::V3,
        encoding: PixelEncoding::Hex,
        compression: CompressionAlgorithm::Uncompressed,
        width: 1,
        height: 1,
        has_alpha: true,
        loop_count: 0,
        metadata: Vec::new(),
        color_profile: Some(vec![0xFF; 16]),
        frames: vec![Frame { delay_ms: 0, pixels: vec![1, 2, 3, 4] }],
    };
    let d = decode(&encode(&c).unwrap()).unwrap();
    let shown = d.display_frame(0).unwrap();
    assert!(!shown.color_corrected);
    assert_eq!(shown.rgba, vec![1, 2, 3, 4]);
}

#[test]
fn empty_profile_counts_as_none() {
    let c = Container {
        generation: Generation::V3,
        encoding: PixelEncoding::Binary,
        compression: CompressionAlgorithm::Uncompressed,
        width: 1,
        height: 1,
        has_alpha: false,
        loop_count: 0,
        metadata: Vec::new(),
        color_profile: Some(Vec::new()),
        frames: vec![Frame { delay_ms: 0, pixels: vec![9, 8, 7] }],
    };
    let shown = c.display_frame(0).unwrap();
    assert!(!shown.color_corrected);
    assert_eq!(shown.rgba, vec![9, 8, 7, 255]);
}

#[test]
fn profile_from_png() {
    let profile = linear_rgb_profile();
    assert_eq!(embeddable_icc_profile(&png_bytes(Some(profile.clone()))), Some(profile));
    assert_eq!(embeddable_icc_profile(&png_bytes(None)), None);
    assert_eq!(embeddable_icc_profile(b"not a png"), None);
}
