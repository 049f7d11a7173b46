//! The container model and the byte layout of each generation, stated as
//! spec functions: `encoding_of` gives the bytes of a container and
//! `parse` what a reader makes of any buffer.

use vstd::prelude::*;
use crate::model::{Generation, PixelEncoding, DecodeError, EncodeError, dims_ok, channel_len};
use crate::compression::{CompressionAlgorithm, compressed, decompressed, algorithm_code, algorithm_of};
use crate::pixels::{payload_of, channels_of, hex_encode};
use crate::envelope::{le16_bytes, le32_bytes, le16_at, le32_at};

verus! {

/// A frame as a value: its display delay and its channel bytes.
pub struct FrameModel {
    pub delay_ms: u32,
    pub pixels: Seq<u8>,
}

/// A container as a value.
pub struct ContainerModel {
    pub generation: Generation,
    pub encoding: PixelEncoding,
    pub compression: CompressionAlgorithm,
    pub width: u32,
    pub height: u32,
    pub has_alpha: bool,
    pub loop_count: u32,
    pub metadata: Seq<u8>,
    pub color_profile: Option<Seq<u8>>,
    pub frames: Seq<FrameModel>,
}

/// One frame: a delay in milliseconds (0 asks for the default delay) and the
/// frame's channel bytes, R, G, B and, with alpha, A for each pixel in
/// row-major order.
#[derive(Clone, Debug)]
pub struct Frame {
    pub delay_ms: u32,
    pub pixels: Vec<u8>,
}

/// A decoded container, or one to be encoded.
#[derive(Clone, Debug)]
pub struct Container {
    pub generation: Generation,
    pub encoding: PixelEncoding,
    pub compression: CompressionAlgorithm,
    pub width: u32,
    pub height: u32,
    pub has_alpha: bool,
    /// 0 loops forever; generations without animation hold 1.
    pub loop_count: u32,
    /// The metadata record as UTF-8 JSON; empty in the first generation.
    pub metadata: Vec<u8>,
    /// An embedded ICC profile.
    pub color_profile: Option<Vec<u8>>,
    pub frames: Vec<Frame>,
}

impl View for Frame {
    type V = FrameModel;

    open spec fn view(&self) -> FrameModel {
        FrameModel { delay_ms: self.delay_ms, pixels: self.pixels@ }
    }
}

pub open spec fn profile_view(p: Option<Vec<u8>>) -> Option<Seq<u8>> {
    match p {
        Some(v) => Some(v@),
        None => None,
    }
}

impl View for Container {
    type V = ContainerModel;

    open spec fn view(&self) -> ContainerModel {
        ContainerModel {
            generation: self.generation,
            encoding: self.encoding,
            compression: self.compression,
            width: self.width,
            height: self.height,
            has_alpha: self.has_alpha,
            loop_count: self.loop_count,
            metadata: self.metadata@,
            color_profile: profile_view(self.color_profile),
            frames: self.frames@.map_values(|f: Frame| f@),
        }
    }
}

/// "YEET".
pub open spec fn magic() -> Seq<u8> {
    seq![89u8, 69u8, 69u8, 84u8]
}

pub open spec fn has_magic(b: Seq<u8>) -> bool {
    b.len() >= 4 && b[0] == 89 && b[1] == 69 && b[2] == 69 && b[3] == 84
}

/// The text of a first-generation payload with its newlines taken out.
pub open spec fn strip_newlines(s: Seq<u8>) -> Seq<u8> {
    s.filter(|c: u8| c != 10u8)
}

// ---------------------------------------------------------------------------
// Encoding
// ---------------------------------------------------------------------------

/// The channel count a frame of `c` must hold.
pub open spec fn frame_len(c: ContainerModel) -> nat {
    channel_len(c.width, c.height, c.has_alpha)
}

/// The stored payload of frame `i`: encoded, then compressed.
pub open spec fn frame_payload(c: ContainerModel, i: int) -> Seq<u8> {
    compressed(c.compression, payload_of(c.frames[i].pixels, c.encoding))
}

/// The first reason, if any, for which `c` cannot be encoded.
pub open spec fn encode_refusal(c: ContainerModel) -> Option<EncodeError> {
    if !dims_ok(c.width, c.height, c.has_alpha, c.encoding) {
        Some(EncodeError::InvalidDimensions)
    } else if c.frames.len() == 0 || exists|i: int| 0 <= i < c.frames.len() && #[trigger] c.frames[i].pixels.len() != frame_len(c) {
        Some(EncodeError::PixelCountMismatch)
    } else {
        match c.generation {
            Generation::V1 => if c.encoding == PixelEncoding::Hex && c.compression == CompressionAlgorithm::Uncompressed
                && !c.has_alpha && c.metadata.len() == 0 && c.color_profile is None && c.loop_count == 1
                && c.frames.len() == 1 && c.frames[0].delay_ms == 0 {
                None
            } else {
                Some(EncodeError::UnsupportedForGeneration)
            },
            Generation::V2 => if (c.compression == CompressionAlgorithm::Uncompressed || c.compression == CompressionAlgorithm::Zlib)
                && c.color_profile is None && c.loop_count == 1 && c.frames.len() == 1 && c.frames[0].delay_ms == 0 {
                if c.metadata.len() <= u16::MAX { None } else { Some(EncodeError::FieldTooLong) }
            } else {
                Some(EncodeError::UnsupportedForGeneration)
            },
            Generation::V3 => if c.color_profile == Some(Seq::<u8>::empty()) {
                Some(EncodeError::UnsupportedForGeneration)
            } else if c.metadata.len() <= u32::MAX && c.frames.len() <= u32::MAX && (match c.color_profile {
                Some(p) => p.len() <= u32::MAX,
                None => true,
            }) {
                None
            } else {
                Some(EncodeError::FieldTooLong)
            },
        }
    }
}

/// Every stored payload fits its 32-bit length field.
pub open spec fn payloads_fit(c: ContainerModel) -> bool {
    forall|i: int| 0 <= i < c.frames.len() ==> (#[trigger] frame_payload(c, i)).len() <= u32::MAX
}

pub open spec fn flags_v2(c: ContainerModel) -> u8 {
    ((if c.compression == CompressionAlgorithm::Zlib { 1int } else { 0 })
        + (if c.has_alpha { 2int } else { 0 })
        + (if c.encoding == PixelEncoding::Binary { 4int } else { 0 })) as u8
}

pub open spec fn flags_v3(c: ContainerModel) -> u8 {
    (algorithm_code(c.compression) as int
        + (if c.has_alpha { 4int } else { 0 })
        + (if c.encoding == PixelEncoding::Binary { 8int } else { 0 })
        + (if c.frames.len() > 1 { 16int } else { 0 })
        + (if c.color_profile is Some { 32int } else { 0 })) as u8
}

/// The frame records of a third-generation container: delay, payload length
/// and payload, for each frame in order.
pub open spec fn frames_bytes(frames: Seq<FrameModel>, encoding: PixelEncoding, alg: CompressionAlgorithm) -> Seq<u8>
    decreases frames.len(),
{
    if frames.len() == 0 {
        Seq::empty()
    } else {
        let p = compressed(alg, payload_of(frames[0].pixels, encoding));
        le32_bytes(frames[0].delay_ms) + le32_bytes(p.len() as u32) + p + frames_bytes(frames.drop_first(), encoding, alg)
    }
}

/// The record of one frame.
pub open spec fn frame_record(f: FrameModel, encoding: PixelEncoding, alg: CompressionAlgorithm) -> Seq<u8> {
    let p = compressed(alg, payload_of(f.pixels, encoding));
    le32_bytes(f.delay_ms) + le32_bytes(p.len() as u32) + p
}

/// Appending a frame appends its record.
pub proof fn lemma_frames_bytes_push(frames: Seq<FrameModel>, f: FrameModel, encoding: PixelEncoding, alg: CompressionAlgorithm)
    ensures
        frames_bytes(frames.push(f), encoding, alg) == frames_bytes(frames, encoding, alg) + frame_record(f, encoding, alg),
    decreases frames.len(),
{
    if frames.len() == 0 {
        assert(frames.push(f).drop_first() =~= Seq::<FrameModel>::empty());
        assert(frames.push(f)[0] == f);
        assert(frames_bytes(frames.push(f).drop_first(), encoding, alg) == Seq::<u8>::empty());
        assert(frame_record(f, encoding, alg) + Seq::<u8>::empty() =~= frame_record(f, encoding, alg));
        assert(frames_bytes(frames.push(f), encoding, alg) =~= frame_record(f, encoding, alg));
        assert(frames_bytes(frames, encoding, alg) == Seq::<u8>::empty());
        assert(Seq::<u8>::empty() + frame_record(f, encoding, alg) =~= frame_record(f, encoding, alg));
    } else {
        assert(frames.push(f).drop_first() =~= frames.drop_first().push(f));
        lemma_frames_bytes_push(frames.drop_first(), f, encoding, alg);
        let g = frames[0];
        let p = compressed(alg, payload_of(g.pixels, encoding));
        let head = le32_bytes(g.delay_ms) + le32_bytes(p.len() as u32) + p;
        assert(frames.push(f)[0] == g);
        assert(frames_bytes(frames.push(f), encoding, alg) == head + frames_bytes(frames.drop_first().push(f), encoding, alg));
        assert(head + (frames_bytes(frames.drop_first(), encoding, alg) + frame_record(f, encoding, alg))
            =~= (head + frames_bytes(frames.drop_first(), encoding, alg)) + frame_record(f, encoding, alg));
    }
}

pub open spec fn profile_bytes(p: Option<Seq<u8>>) -> Seq<u8> {
    match p {
        Some(b) => b,
        None => Seq::empty(),
    }
}

/// The bytes of a container that can be encoded.
pub open spec fn encoding_of(c: ContainerModel) -> Seq<u8> {
    match c.generation {
        Generation::V1 => le32_bytes(c.width) + le32_bytes(c.height) + hex_encode(c.frames[0].pixels),
        Generation::V2 => magic() + seq![2u8, flags_v2(c)] + le32_bytes(c.width) + le32_bytes(c.height)
            + le16_bytes(c.metadata.len() as u16) + c.metadata + le32_bytes(frame_payload(c, 0).len() as u32)
            + frame_payload(c, 0),
        Generation::V3 => magic() + seq![3u8, flags_v3(c)] + le32_bytes(c.width) + le32_bytes(c.height)
            + le32_bytes(c.frames.len() as u32) + le32_bytes(c.loop_count) + le32_bytes(c.metadata.len() as u32)
            + c.metadata + le32_bytes(profile_bytes(c.color_profile).len() as u32) + profile_bytes(c.color_profile)
            + frames_bytes(c.frames, c.encoding, c.compression),
    }
}

// ---------------------------------------------------------------------------
// Decoding
// ---------------------------------------------------------------------------

/// The `n` channel bytes of a stored frame payload.
pub open spec fn frame_channels(stored: Seq<u8>, encoding: PixelEncoding, alg: CompressionAlgorithm, n: nat) -> Result<Seq<u8>, DecodeError> {
    match decompressed(alg, stored) {
        None => Err(DecodeError::CorruptPayload),
        Some(d) => channels_of(d, encoding, n),
    }
}

/// A first-generation body (width, height, hex text) starting at `start`.
/// The dimensions are read little-endian, the byte order of the machines
/// that wrote this generation; newlines in the text are ignored.
pub open spec fn parse_v1(b: Seq<u8>, start: int) -> Result<ContainerModel, DecodeError> {
    if b.len() < start + 8 {
        Err(DecodeError::UnexpectedEof)
    } else {
        let w = le32_at(b, start);
        let h = le32_at(b, start + 4);
        if !dims_ok(w, h, false, PixelEncoding::Hex) {
            Err(DecodeError::CorruptPayload)
        } else {
            match channels_of(strip_newlines(b.subrange(start + 8, b.len() as int)), PixelEncoding::Hex, channel_len(w, h, false)) {
                Err(e) => Err(e),
                Ok(px) => Ok(ContainerModel {
                    generation: Generation::V1,
                    encoding: PixelEncoding::Hex,
                    compression: CompressionAlgorithm::Uncompressed,
                    width: w,
                    height: h,
                    has_alpha: false,
                    loop_count: 1,
                    metadata: Seq::empty(),
                    color_profile: None,
                    frames: seq![FrameModel { delay_ms: 0, pixels: px }],
                }),
            }
        }
    }
}

/// A second-generation container; `b` starts with the magic and version.
pub open spec fn parse_v2(b: Seq<u8>) -> Result<ContainerModel, DecodeError> {
    if b.len() < 16 {
        Err(DecodeError::UnexpectedEof)
    } else {
        let flags = b[5];
        if flags >= 8 {
            Err(DecodeError::UnsupportedFeature)
        } else {
            let alg = if flags % 2 == 1 { CompressionAlgorithm::Zlib } else { CompressionAlgorithm::Uncompressed };
            let alpha = (flags / 2) % 2 == 1;
            let enc = if (flags / 4) % 2 == 1 { PixelEncoding::Binary } else { PixelEncoding::Hex };
            let w = le32_at(b, 6);
            let h = le32_at(b, 10);
            let mlen = le16_at(b, 14) as int;
            if !dims_ok(w, h, alpha, enc) {
                Err(DecodeError::CorruptPayload)
            } else if b.len() < 20 + mlen {
                Err(DecodeError::UnexpectedEof)
            } else {
                let dlen = le32_at(b, 16 + mlen) as int;
                if b.len() < 20 + mlen + dlen {
                    Err(DecodeError::UnexpectedEof)
                } else {
                    match frame_channels(b.subrange(20 + mlen, 20 + mlen + dlen), enc, alg, channel_len(w, h, alpha)) {
                        Err(e) => Err(e),
                        Ok(px) => Ok(ContainerModel {
                            generation: Generation::V2,
                            encoding: enc,
                            compression: alg,
                            width: w,
                            height: h,
                            has_alpha: alpha,
                            loop_count: 1,
                            metadata: b.subrange(16, 16 + mlen),
                            color_profile: None,
                            frames: seq![FrameModel { delay_ms: 0, pixels: px }],
                        }),
                    }
                }
            }
        }
    }
}

/// `count` frame records starting at `pos`.
pub open spec fn parse_frames(
    b: Seq<u8>,
    pos: int,
    count: nat,
    encoding: PixelEncoding,
    alg: CompressionAlgorithm,
    n: nat,
) -> Result<Seq<FrameModel>, DecodeError>
    decreases count,
{
    if count == 0 {
        Ok(Seq::empty())
    } else if b.len() < pos + 8 {
        Err(DecodeError::UnexpectedEof)
    } else {
        let delay = le32_at(b, pos);
        let dlen = le32_at(b, pos + 4) as int;
        if b.len() < pos + 8 + dlen {
            Err(DecodeError::UnexpectedEof)
        } else {
            match frame_channels(b.subrange(pos + 8, pos + 8 + dlen), encoding, alg, n) {
                Err(e) => Err(e),
                Ok(px) => match parse_frames(b, pos + 8 + dlen, (count - 1) as nat, encoding, alg, n) {
                    Err(e) => Err(e),
                    Ok(rest) => Ok(seq![FrameModel { delay_ms: delay, pixels: px }] + rest),
                },
            }
        }
    }
}

/// A third-generation container; `b` starts with the magic and version.
pub open spec fn parse_v3(b: Seq<u8>) -> Result<ContainerModel, DecodeError> {
    if b.len() < 26 {
        Err(DecodeError::UnexpectedEof)
    } else {
        let flags = b[5];
        if flags >= 64 {
            Err(DecodeError::UnsupportedFeature)
        } else {
            let alg = algorithm_of(flags);
            let alpha = (flags / 4) % 2 == 1;
            let enc = if (flags / 8) % 2 == 1 { PixelEncoding::Binary } else { PixelEncoding::Hex };
            let icc = (flags / 32) % 2 == 1;
            let w = le32_at(b, 6);
            let h = le32_at(b, 10);
            let count = le32_at(b, 14);
            let loops = le32_at(b, 18);
            let mlen = le32_at(b, 22) as int;
            if !dims_ok(w, h, alpha, enc) || count == 0 {
                Err(DecodeError::CorruptPayload)
            } else if b.len() < 30 + mlen {
                Err(DecodeError::UnexpectedEof)
            } else {
                let ilen = le32_at(b, 26 + mlen) as int;
                if icc != (ilen > 0) {
                    Err(DecodeError::UnsupportedFeature)
                } else if b.len() < 30 + mlen + ilen {
                    Err(DecodeError::UnexpectedEof)
                } else {
                    match parse_frames(b, 30 + mlen + ilen, count as nat, enc, alg, channel_len(w, h, alpha)) {
                        Err(e) => Err(e),
                        Ok(frames) => Ok(ContainerModel {
                            generation: Generation::V3,
                            encoding: enc,
                            compression: alg,
                            width: w,
                            height: h,
                            has_alpha: alpha,
                            loop_count: loops,
                            metadata: b.subrange(26, 26 + mlen),
                            color_profile: if icc { Some(b.subrange(30 + mlen, 30 + mlen + ilen)) } else { None },
                            frames,
                        }),
                    }
                }
            }
        }
    }
}

/// The generation a reader picks for a buffer: the first without the magic
/// bytes, otherwise the one its version byte names.
pub open spec fn generation_of(b: Seq<u8>) -> Result<Generation, DecodeError> {
    if !has_magic(b) {
        Ok(Generation::V1)
    } else if b.len() < 5 {
        Err(DecodeError::UnexpectedEof)
    } else if b[4] == 1 {
        Ok(Generation::V1)
    } else if b[4] == 2 {
        Ok(Generation::V2)
    } else if b[4] == 3 {
        Ok(Generation::V3)
    } else {
        Err(DecodeError::UnsupportedVersion)
    }
}

/// What a reader makes of any buffer: without the magic bytes it is a
/// first-generation file; with them, the version byte picks the generation.
pub open spec fn parse(b: Seq<u8>) -> Result<ContainerModel, DecodeError> {
    if !has_magic(b) {
        parse_v1(b, 0)
    } else if b.len() < 5 {
        Err(DecodeError::UnexpectedEof)
    } else if b[4] == 1 {
        parse_v1(b, 5)
    } else if b[4] == 2 {
        parse_v2(b)
    } else if b[4] == 3 {
        parse_v3(b)
    } else {
        Err(DecodeError::UnsupportedVersion)
    }
}

} // verus!
