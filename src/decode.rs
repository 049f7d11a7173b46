//! The reader: dispatches on the magic and version bytes and parses exactly
//! one generation, as `parse` states.

use vstd::prelude::*;
use crate::model::{Generation, PixelEncoding, DecodeError, checked_channel_len};
use crate::compression::{CompressionAlgorithm, decompress};
use crate::pixels::decode_payload;
use crate::envelope::{read_u16_le, read_u32_le, read_exact, copy_range, ByteReader};
use crate::format::{
    Container, ContainerModel, Frame, FrameModel, parse, parse_v1, parse_v2, parse_v3, parse_frames,
    frame_channels, strip_newlines, has_magic, generation_of,
};

verus! {

/// A decode outcome as a value.
pub open spec fn decoded_view(r: Result<Container, DecodeError>) -> Result<ContainerModel, DecodeError> {
    match r {
        Ok(c) => Ok(c@),
        Err(e) => Err(e),
    }
}

pub open spec fn frames_view(frames: Seq<Frame>) -> Seq<FrameModel> {
    frames.map_values(|f: Frame| f@)
}

/// `acc` followed by the frames of `r`, or the error of `r`.
pub open spec fn prepend_frames(acc: Seq<FrameModel>, r: Result<Seq<FrameModel>, DecodeError>) -> Result<Seq<FrameModel>, DecodeError> {
    match r {
        Ok(t) => Ok(acc + t),
        Err(e) => Err(e),
    }
}

/// The bytes of `s` from `from` on, without newlines.
fn strip_newlines_from(s: &[u8], from: usize) -> (r: Vec<u8>)
    requires
        from <= s@.len(),
    ensures
        r@ == strip_newlines(s@.subrange(from as int, s@.len() as int)),
{
    let mut out: Vec<u8> = Vec::new();
    let mut i: usize = from;
    proof {
        reveal(Seq::filter);
        assert(s@.subrange(from as int, from as int) =~= Seq::<u8>::empty());
    }
    while i < s.len()
        invariant
            from <= i <= s@.len(),
            out@ == strip_newlines(s@.subrange(from as int, i as int)),
        decreases s@.len() - i,
    {
        proof {
            reveal(Seq::filter);
            let sub = s@.subrange(from as int, i as int + 1);
            assert(sub.drop_last() =~= s@.subrange(from as int, i as int));
            assert(sub.last() == s@[i as int]);
        }
        if s[i] != 10u8 {
            out.push(s[i]);
        }
        i = i + 1;
    }
    out
}

/// The `n` channel bytes of a stored frame payload.
fn decode_frame(stored: &[u8], encoding: PixelEncoding, alg: CompressionAlgorithm, n: usize) -> (r: Result<Vec<u8>, DecodeError>)
    ensures
        match r {
            Ok(v) => frame_channels(stored@, encoding, alg, n as nat) == Ok::<Seq<u8>, DecodeError>(v@),
            Err(e) => frame_channels(stored@, encoding, alg, n as nat) == Err::<Seq<u8>, DecodeError>(e),
        },
{
    match decompress(stored, alg) {
        Ok(d) => decode_payload(&d, encoding, n),
        Err(e) => Err(e),
    }
}

fn single_frame(pixels: Vec<u8>) -> (r: Vec<Frame>)
    ensures
        frames_view(r@) == seq![FrameModel { delay_ms: 0, pixels: pixels@ }],
{
    let mut frames: Vec<Frame> = Vec::new();
    frames.push(Frame { delay_ms: 0, pixels });
    assert(frames_view(frames@) =~= seq![FrameModel { delay_ms: 0, pixels: pixels@ }]);
    frames
}

/// Reads a first-generation body starting at `start`.
fn decode_v1(b: &[u8], start: usize) -> (r: Result<Container, DecodeError>)
    requires
        start <= b@.len(),
    ensures
        decoded_view(r) == parse_v1(b@, start as int),
{
    let blen = b.len();
    assert(b@.len() == blen);
    let w = match read_u32_le(b, start) {
        Ok(v) => v,
        Err(e) => return Err(e),
    };
    let h = match read_u32_le(b, start + 4) {
        Ok(v) => v,
        Err(e) => return Err(e),
    };
    let n = match checked_channel_len(w, h, false, PixelEncoding::Hex) {
        Some(n) => n,
        None => return Err(DecodeError::CorruptPayload),
    };
    let text = strip_newlines_from(b, start + 8);
    let px = match decode_payload(&text, PixelEncoding::Hex, n) {
        Ok(px) => px,
        Err(e) => return Err(e),
    };
    let frames = single_frame(px);
    let c = Container {
        generation: Generation::V1,
        encoding: PixelEncoding::Hex,
        compression: CompressionAlgorithm::Uncompressed,
        width: w,
        height: h,
        has_alpha: false,
        loop_count: 1,
        metadata: Vec::new(),
        color_profile: None,
        frames,
    };
    assert(c@.metadata =~= Seq::<u8>::empty());
    Ok(c)
}

/// Reads a second-generation container; `b` starts with the magic and version.
fn decode_v2(b: &[u8]) -> (r: Result<Container, DecodeError>)
    requires
        has_magic(b@),
        b@.len() >= 5,
    ensures
        decoded_view(r) == parse_v2(b@),
{
    if b.len() < 16 {
        return Err(DecodeError::UnexpectedEof);
    }
    let flags = b[5];
    if flags >= 8 {
        return Err(DecodeError::UnsupportedFeature);
    }
    let alg = if flags % 2 == 1 { CompressionAlgorithm::Zlib } else { CompressionAlgorithm::Uncompressed };
    let has_alpha = (flags / 2) % 2 == 1;
    let encoding = if (flags / 4) % 2 == 1 { PixelEncoding::Binary } else { PixelEncoding::Hex };
    let w = match read_u32_le(b, 6) {
        Ok(v) => v,
        Err(e) => return Err(e),
    };
    let h = match read_u32_le(b, 10) {
        Ok(v) => v,
        Err(e) => return Err(e),
    };
    let mlen = match read_u16_le(b, 14) {
        Ok(v) => v as usize,
        Err(e) => return Err(e),
    };
    let n = match checked_channel_len(w, h, has_alpha, encoding) {
        Some(n) => n,
        None => return Err(DecodeError::CorruptPayload),
    };
    if b.len() < 20 + mlen {
        return Err(DecodeError::UnexpectedEof);
    }
    let dlen = match read_u32_le(b, 16 + mlen) {
        Ok(v) => v as usize,
        Err(e) => return Err(e),
    };
    let stored = match read_exact(b, 20 + mlen, dlen) {
        Ok(v) => v,
        Err(e) => return Err(e),
    };
    let px = match decode_frame(&stored, encoding, alg, n) {
        Ok(px) => px,
        Err(e) => return Err(e),
    };
    let metadata = copy_range(b, 16, 16 + mlen);
    let frames = single_frame(px);
    Ok(Container {
        generation: Generation::V2,
        encoding,
        compression: alg,
        width: w,
        height: h,
        has_alpha,
        loop_count: 1,
        metadata,
        color_profile: None,
        frames,
    })
}

/// Reads `count` frame records starting at `start`.
#[verifier::rlimit(50)]
fn decode_frames(
    b: &[u8],
    start: usize,
    count: u32,
    encoding: PixelEncoding,
    alg: CompressionAlgorithm,
    n: usize,
) -> (r: Result<Vec<Frame>, DecodeError>)
    requires
        start <= b@.len(),
    ensures
        match r {
            Ok(fs) => parse_frames(b@, start as int, count as nat, encoding, alg, n as nat)
                == Ok::<Seq<FrameModel>, DecodeError>(frames_view(fs@)),
            Err(e) => parse_frames(b@, start as int, count as nat, encoding, alg, n as nat)
                == Err::<Seq<FrameModel>, DecodeError>(e),
        },
{
    let mut frames: Vec<Frame> = Vec::new();
    let mut reader = ByteReader::at(b, start);
    let mut i: u32 = 0;
    while i < count
        invariant
            i <= count,
            reader.bytes@ == b@,
            start <= reader.pos <= b@.len(),
            parse_frames(b@, start as int, count as nat, encoding, alg, n as nat)
                == prepend_frames(frames_view(frames@), parse_frames(b@, reader.pos as int, (count - i) as nat, encoding, alg, n as nat)),
        decreases count - i,
    {
        let ghost k = (count - i) as nat;
        let ghost acc = frames_view(frames@);
        let ghost pos = reader.pos as int;
        let delay = match reader.read_u32_le() {
            Ok(v) => v,
            Err(e) => return Err(e),
        };
        let dlen = match reader.read_u32_le() {
            Ok(v) => v as usize,
            Err(e) => return Err(e),
        };
        let stored = match reader.read_exact(dlen) {
            Ok(v) => v,
            Err(e) => return Err(e),
        };
        let px = match decode_frame(&stored, encoding, alg, n) {
            Ok(px) => px,
            Err(e) => return Err(e),
        };
        let ghost f = FrameModel { delay_ms: delay, pixels: px@ };
        frames.push(Frame { delay_ms: delay, pixels: px });
        proof {
            assert(frames_view(frames@) =~= acc.push(f));
            match parse_frames(b@, reader.pos as int, (k - 1) as nat, encoding, alg, n as nat) {
                Ok(t) => {
                    assert(acc + (seq![f] + t) =~= acc.push(f) + t);
                },
                Err(_) => {},
            }
        }
        i = i + 1;
    }
    assert(frames_view(frames@) + Seq::<FrameModel>::empty() =~= frames_view(frames@));
    Ok(frames)
}

/// Reads a third-generation container; `b` starts with the magic and version.
#[verifier::rlimit(50)]
fn decode_v3(b: &[u8]) -> (r: Result<Container, DecodeError>)
    requires
        has_magic(b@),
        b@.len() >= 5,
    ensures
        decoded_view(r) == parse_v3(b@),
{
    if b.len() < 26 {
        return Err(DecodeError::UnexpectedEof);
    }
    let flags = b[5];
    if flags >= 64 {
        return Err(DecodeError::UnsupportedFeature);
    }
    let alg = CompressionAlgorithm::from_bits(flags);
    let has_alpha = (flags / 4) % 2 == 1;
    let encoding = if (flags / 8) % 2 == 1 { PixelEncoding::Binary } else { PixelEncoding::Hex };
    let icc = (flags / 32) % 2 == 1;
    let w = match read_u32_le(b, 6) {
        Ok(v) => v,
        Err(e) => return Err(e),
    };
    let h = match read_u32_le(b, 10) {
        Ok(v) => v,
        Err(e) => return Err(e),
    };
    let count = match read_u32_le(b, 14) {
        Ok(v) => v,
        Err(e) => return Err(e),
    };
    let loops = match read_u32_le(b, 18) {
        Ok(v) => v,
        Err(e) => return Err(e),
    };
    let mlen = match read_u32_le(b, 22) {
        Ok(v) => v as usize,
        Err(e) => return Err(e),
    };
    let n = match checked_channel_len(w, h, has_alpha, encoding) {
        Some(n) => n,
        None => return Err(DecodeError::CorruptPayload),
    };
    if count == 0 {
        return Err(DecodeError::CorruptPayload);
    }
    let metadata = match read_exact(b, 26, mlen) {
        Ok(v) => v,
        Err(e) => return Err(e),
    };
    let ilen = match read_u32_le(b, 26 + mlen) {
        Ok(v) => v as usize,
        Err(e) => return Err(e),
    };
    if icc != (ilen > 0) {
        return Err(DecodeError::UnsupportedFeature);
    }
    let profile = match read_exact(b, 30 + mlen, ilen) {
        Ok(v) => v,
        Err(e) => return Err(e),
    };
    let frames = match decode_frames(b, 30 + mlen + ilen, count, encoding, alg, n) {
        Ok(fs) => fs,
        Err(e) => return Err(e),
    };
    let color_profile = if icc { Some(profile) } else { None };
    Ok(Container {
        generation: Generation::V3,
        encoding,
        compression: alg,
        width: w,
        height: h,
        has_alpha,
        loop_count: loops,
        metadata,
        color_profile,
        frames,
    })
}

/// Decodes a container of any generation. A buffer that does not begin with
/// the magic bytes is read as a first-generation file; otherwise the version
/// byte selects exactly one reader. Structural errors abort the decode.
pub fn decode(b: &[u8]) -> (r: Result<Container, DecodeError>)
    ensures
        decoded_view(r) == parse(b@),
{
    if b.len() < 4 || !(b[0] == 89u8 && b[1] == 69u8 && b[2] == 69u8 && b[3] == 84u8) {
        return decode_v1(b, 0);
    }
    if b.len() < 5 {
        return Err(DecodeError::UnexpectedEof);
    }
    let version = b[4];
    if version == 1 {
        decode_v1(b, 5)
    } else if version == 2 {
        decode_v2(b)
    } else if version == 3 {
        decode_v3(b)
    } else {
        Err(DecodeError::UnsupportedVersion)
    }
}

/// Reads a buffer that must be a third-generation container: one too short
/// to hold the magic bytes is `UnexpectedEof`, one whose first four bytes
/// are not the magic is `InvalidMagic`, one with another version
/// `UnsupportedVersion`; no other generation is tried.
pub fn decode_v3_only(b: &[u8]) -> (r: Result<Container, DecodeError>)
    ensures
        b@.len() < 4 ==> r == Err::<Container, DecodeError>(DecodeError::UnexpectedEof),
        b@.len() >= 4 && !has_magic(b@) ==> r == Err::<Container, DecodeError>(DecodeError::InvalidMagic),
        has_magic(b@) && b@.len() < 5 ==> r == Err::<Container, DecodeError>(DecodeError::UnexpectedEof),
        has_magic(b@) && b@.len() >= 5 && b@[4] != 3 ==> r == Err::<Container, DecodeError>(DecodeError::UnsupportedVersion),
        has_magic(b@) && b@.len() >= 5 && b@[4] == 3 ==> decoded_view(r) == parse_v3(b@),
{
    if b.len() < 4 {
        return Err(DecodeError::UnexpectedEof);
    }
    if !(b[0] == 89u8 && b[1] == 69u8 && b[2] == 69u8 && b[3] == 84u8) {
        return Err(DecodeError::InvalidMagic);
    }
    if b.len() < 5 {
        return Err(DecodeError::UnexpectedEof);
    }
    if b[4] != 3 {
        return Err(DecodeError::UnsupportedVersion);
    }
    decode_v3(b)
}

/// The format dispatcher: which generation's reader a buffer goes to.
pub fn detect_generation(b: &[u8]) -> (r: Result<Generation, DecodeError>)
    ensures
        r == generation_of(b@),
{
    if b.len() < 4 || !(b[0] == 89u8 && b[1] == 69u8 && b[2] == 69u8 && b[3] == 84u8) {
        return Ok(Generation::V1);
    }
    if b.len() < 5 {
        return Err(DecodeError::UnexpectedEof);
    }
    let version = b[4];
    if version == 1 {
        Ok(Generation::V1)
    } else if version == 2 {
        Ok(Generation::V2)
    } else if version == 3 {
        Ok(Generation::V3)
    } else {
        Err(DecodeError::UnsupportedVersion)
    }
}

} // verus!
