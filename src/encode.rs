//! The writer: checks that a container is legal for its generation, then
//! lays it out exactly as `encoding_of` states.

use vstd::prelude::*;
use crate::model::{Generation, PixelEncoding, EncodeError, DecodeError, checked_channel_len, dims_ok};
use crate::compression::{CompressionAlgorithm, compress, decompressed};
use crate::pixels::{encode_payload, payload_of};
use crate::envelope::{write_u16_le, write_u32_le, write_bytes};
use crate::format::{
    Container, ContainerModel, FrameModel, encode_refusal, payloads_fit, frame_payload, encoding_of, parse, frame_len,
    flags_v2, flags_v3, frames_bytes, lemma_frames_bytes_push, profile_bytes, magic,
};
use crate::laws::{payloads_round_trip, lemma_round_trip};

verus! {

/// What `encode` promises when it fails.
pub open spec fn encode_failure(c: ContainerModel, e: EncodeError) -> bool {
    encode_refusal(c) == Some(e) || (encode_refusal(c) is None && !payloads_fit(c) && e == EncodeError::FieldTooLong)
}

/// Checks the container against its generation's rules; returns the channel
/// count of a frame.
fn check_container(c: &Container) -> (r: Result<usize, EncodeError>)
    ensures
        match r {
            Ok(n) => encode_refusal(c@) is None && n == frame_len(c@),
            Err(e) => encode_refusal(c@) == Some(e),
        },
{
    let n = match checked_channel_len(c.width, c.height, c.has_alpha, c.encoding) {
        Some(n) => n,
        None => return Err(EncodeError::InvalidDimensions),
    };
    let count = c.frames.len();
    if count == 0 {
        return Err(EncodeError::PixelCountMismatch);
    }
    let mut i: usize = 0;
    while i < count
        invariant
            count == c.frames@.len(),
            i <= count,
            n == frame_len(c@),
            dims_ok(c.width, c.height, c.has_alpha, c.encoding),
            forall|j: int| 0 <= j < i ==> (#[trigger] c@.frames[j]).pixels.len() == n,
        decreases count - i,
    {
        assert(c@.frames[i as int] == c.frames@[i as int]@);
        if c.frames[i].pixels.len() != n {
            assert(c@.frames[i as int].pixels.len() != frame_len(c@));
            assert(exists|j: int| 0 <= j < c@.frames.len() && #[trigger] c@.frames[j].pixels.len() != frame_len(c@));
            assert(dims_ok(c.width, c.height, c.has_alpha, c.encoding));
            return Err(EncodeError::PixelCountMismatch);
        }
        i = i + 1;
    }
    assert(!(exists|j: int| 0 <= j < c@.frames.len() && #[trigger] c@.frames[j].pixels.len() != frame_len(c@)));
    let metadata_len = c.metadata.len();
    match c.generation {
        Generation::V1 => {
            let ok = c.encoding == PixelEncoding::Hex && c.compression == CompressionAlgorithm::Uncompressed
                && !c.has_alpha && metadata_len == 0 && c.color_profile.is_none() && c.loop_count == 1 && count == 1
                && c.frames[0].delay_ms == 0;
            if !ok {
                return Err(EncodeError::UnsupportedForGeneration);
            }
        },
        Generation::V2 => {
            let ok = (c.compression == CompressionAlgorithm::Uncompressed || c.compression == CompressionAlgorithm::Zlib)
                && c.color_profile.is_none() && c.loop_count == 1 && count == 1 && c.frames[0].delay_ms == 0;
            if !ok {
                return Err(EncodeError::UnsupportedForGeneration);
            }
            if metadata_len > 65535 {
                return Err(EncodeError::FieldTooLong);
            }
        },
        Generation::V3 => {
            let profile_len: u64 = match &c.color_profile {
                Some(p) => {
                    if p.len() == 0 {
                        assert(p@ =~= Seq::<u8>::empty());
                        return Err(EncodeError::UnsupportedForGeneration);
                    }
                    p.len() as u64
                },
                None => 0,
            };
            if metadata_len as u64 > 4294967295u64 || count as u64 > 4294967295u64 || profile_len > 4294967295u64 {
                return Err(EncodeError::FieldTooLong);
            }
        },
    }
    Ok(n)
}

/// The stored payload of each frame: encoded, then compressed.
fn stored_payloads(c: &Container, n: usize) -> (r: Result<Vec<Vec<u8>>, EncodeError>)
    requires
        encode_refusal(c@) is None,
        n == frame_len(c@),
    ensures
        match r {
            Ok(ps) => ps@.len() == c@.frames.len() && payloads_fit(c@) && payloads_round_trip(c@)
                && forall|j: int| 0 <= j < ps@.len() ==> (#[trigger] ps@[j])@ == frame_payload(c@, j),
            Err(e) => !payloads_fit(c@) && e == EncodeError::FieldTooLong,
        },
{
    let mut stored: Vec<Vec<u8>> = Vec::new();
    let count = c.frames.len();
    let mut i: usize = 0;
    assert(dims_ok(c.width, c.height, c.has_alpha, c.encoding));
    while i < count
        invariant
            count == c.frames@.len(),
            count == c@.frames.len(),
            i <= count,
            n == frame_len(c@),
            dims_ok(c.width, c.height, c.has_alpha, c.encoding),
            encode_refusal(c@) is None,
            stored@.len() == i,
            forall|j: int| 0 <= j < i ==> (#[trigger] stored@[j])@ == frame_payload(c@, j),
            forall|j: int| 0 <= j < i ==> (#[trigger] frame_payload(c@, j)).len() <= u32::MAX,
            forall|j: int| 0 <= j < i ==> decompressed(c.compression, #[trigger] frame_payload(c@, j))
                == Some(payload_of(c@.frames[j].pixels, c.encoding)),
        decreases count - i,
    {
        assert(c@.frames[i as int].pixels.len() == frame_len(c@)) by {
            if c@.frames[i as int].pixels.len() != frame_len(c@) {
                assert(encode_refusal(c@) is Some);
            }
        }
        assert(c@.frames[i as int].pixels == c.frames@[i as int].pixels@);
        let payload = encode_payload(c.frames[i].pixels.as_slice(), c.encoding);
        let p = compress(payload.as_slice(), c.compression);
        if p.len() as u64 > 4294967295u64 {
            assert(frame_payload(c@, i as int).len() > u32::MAX);
            return Err(EncodeError::FieldTooLong);
        }
        stored.push(p);
        i = i + 1;
    }
    Ok(stored)
}

/// The stored payloads as `stored_payloads` returns them.
pub open spec fn stored_ok(c: ContainerModel, stored: Seq<Vec<u8>>) -> bool {
    &&& stored.len() == c.frames.len()
    &&& forall|j: int| 0 <= j < stored.len() ==> (#[trigger] stored[j])@ == frame_payload(c, j)
}

fn write_v1(c: &Container, stored: &Vec<Vec<u8>>) -> (r: Vec<u8>)
    requires
        c.generation == Generation::V1,
        encode_refusal(c@) is None,
        stored_ok(c@, stored@),
    ensures
        r@ == encoding_of(c@),
{
    let mut out: Vec<u8> = Vec::new();
    write_u32_le(&mut out, c.width);
    write_u32_le(&mut out, c.height);
    write_bytes(&mut out, stored[0].as_slice());
    assert(stored@[0]@ == frame_payload(c@, 0));
    assert(out@ =~= encoding_of(c@));
    out
}

fn write_v2(c: &Container, stored: &Vec<Vec<u8>>) -> (r: Vec<u8>)
    requires
        c.generation == Generation::V2,
        encode_refusal(c@) is None,
        stored_ok(c@, stored@),
    ensures
        r@ == encoding_of(c@),
{
    let ghost cm = c@;
    let flags: u8 = (if c.compression == CompressionAlgorithm::Zlib { 1u8 } else { 0u8 })
        + (if c.has_alpha { 2u8 } else { 0u8 })
        + (if c.encoding == PixelEncoding::Binary { 4u8 } else { 0u8 });
    assert(flags == flags_v2(cm));
    let mut out: Vec<u8> = Vec::new();
    out.push(89u8);
    out.push(69u8);
    out.push(69u8);
    out.push(84u8);
    out.push(2u8);
    out.push(flags);
    assert(out@ =~= magic() + seq![2u8, flags_v2(cm)]);
    write_u32_le(&mut out, c.width);
    write_u32_le(&mut out, c.height);
    write_u16_le(&mut out, c.metadata.len() as u16);
    write_bytes(&mut out, c.metadata.as_slice());
    write_u32_le(&mut out, stored[0].len() as u32);
    write_bytes(&mut out, stored[0].as_slice());
    assert(stored@[0]@ == frame_payload(cm, 0));
    assert(out@ =~= encoding_of(cm));
    out
}

fn write_frames(out: &mut Vec<u8>, c: &Container, stored: &Vec<Vec<u8>>)
    requires
        stored_ok(c@, stored@),
    ensures
        final(out)@ == old(out)@ + frames_bytes(c@.frames, c.encoding, c.compression),
{
    let ghost cm = c@;
    let ghost header = old(out)@;
    let count = c.frames.len();
    let mut i: usize = 0;
    assert(cm.frames.subrange(0, 0) =~= Seq::<FrameModel>::empty());
    assert(header + Seq::<u8>::empty() =~= header);
    while i < count
        invariant
            count == c.frames@.len(),
            count == cm.frames.len(),
            cm == c@,
            i <= count,
            stored_ok(cm, stored@),
            out@ == header + frames_bytes(cm.frames.subrange(0, i as int), cm.encoding, cm.compression),
        decreases count - i,
    {
        write_u32_le(out, c.frames[i].delay_ms);
        write_u32_le(out, stored[i].len() as u32);
        write_bytes(out, stored[i].as_slice());
        proof {
            let f = cm.frames[i as int];
            assert(f == c.frames@[i as int]@);
            assert(cm.frames.subrange(0, i as int + 1) =~= cm.frames.subrange(0, i as int).push(f));
            lemma_frames_bytes_push(cm.frames.subrange(0, i as int), f, cm.encoding, cm.compression);
            assert(stored@[i as int]@ == frame_payload(cm, i as int));
            assert(out@ =~= header + frames_bytes(cm.frames.subrange(0, i as int + 1), cm.encoding, cm.compression));
        }
        i = i + 1;
    }
    assert(cm.frames.subrange(0, count as int) =~= cm.frames);
}

fn write_v3(c: &Container, stored: &Vec<Vec<u8>>) -> (r: Vec<u8>)
    requires
        c.generation == Generation::V3,
        encode_refusal(c@) is None,
        stored_ok(c@, stored@),
    ensures
        r@ == encoding_of(c@),
{
    let ghost cm = c@;
    let flags: u8 = c.compression.code()
        + (if c.has_alpha { 4u8 } else { 0u8 })
        + (if c.encoding == PixelEncoding::Binary { 8u8 } else { 0u8 })
        + (if c.frames.len() > 1 { 16u8 } else { 0u8 })
        + (if c.color_profile.is_some() { 32u8 } else { 0u8 });
    assert(flags == flags_v3(cm));
    let mut out: Vec<u8> = Vec::new();
    out.push(89u8);
    out.push(69u8);
    out.push(69u8);
    out.push(84u8);
    out.push(3u8);
    out.push(flags);
    assert(out@ =~= magic() + seq![3u8, flags_v3(cm)]);
    write_u32_le(&mut out, c.width);
    write_u32_le(&mut out, c.height);
    write_u32_le(&mut out, c.frames.len() as u32);
    write_u32_le(&mut out, c.loop_count);
    write_u32_le(&mut out, c.metadata.len() as u32);
    write_bytes(&mut out, c.metadata.as_slice());
    match &c.color_profile {
        Some(p) => {
            write_u32_le(&mut out, p.len() as u32);
            write_bytes(&mut out, p.as_slice());
        },
        None => {
            write_u32_le(&mut out, 0u32);
            assert(out@ =~= out@ + profile_bytes(cm.color_profile));
        },
    }
    write_frames(&mut out, c, stored);
    assert(out@ =~= encoding_of(cm));
    out
}

/// Encodes a container. It succeeds exactly when the container is legal for
/// its generation and every stored payload fits its length field; then the
/// bytes are `encoding_of(c@)`, and reading them back gives the container.
pub fn encode(c: &Container) -> (r: Result<Vec<u8>, EncodeError>)
    ensures
        match r {
            Ok(b) => encode_refusal(c@) is None && payloads_fit(c@) && b@ == encoding_of(c@)
                && parse(b@) == Ok::<ContainerModel, DecodeError>(c@),
            Err(e) => encode_failure(c@, e),
        },
{
    let n = match check_container(c) {
        Ok(n) => n,
        Err(e) => return Err(e),
    };
    let stored = match stored_payloads(c, n) {
        Ok(ps) => ps,
        Err(e) => return Err(e),
    };
    let out = match c.generation {
        Generation::V1 => write_v1(c, &stored),
        Generation::V2 => write_v2(c, &stored),
        Generation::V3 => write_v3(c, &stored),
    };
    proof {
        lemma_round_trip(c@);
    }
    Ok(out)
}

} // verus!
