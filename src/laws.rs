//! Properties that relate the encoder and the reader.

use vstd::prelude::*;
use crate::model::{Generation, PixelEncoding, DecodeError, dims_ok, channel_len, encoding_factor};
use crate::compression::{CompressionAlgorithm, compressed, decompressed, algorithm_of};
use crate::pixels::{payload_of, hex_encode, lemma_hex_round_trip, lemma_payload_round_trip, lemma_hex_digit};
use crate::envelope::{le16_bytes, le32_bytes, le32_of, le16_at, le32_at, lemma_le16_in, lemma_le32_in};
use crate::format::{ContainerModel, FrameModel, frame_payload, parse_v1, generation_of, encode_refusal, payloads_fit, encoding_of, parse, has_magic, magic, strip_newlines, flags_v2, flags_v3, frames_bytes, parse_frames, frame_channels, profile_bytes, frame_len};

verus! {

/// Every stored payload decompresses to the payload it was made from.
pub open spec fn payloads_round_trip(c: ContainerModel) -> bool {
    forall|i: int| 0 <= i < c.frames.len() ==> decompressed(c.compression, #[trigger] frame_payload(c, i)) == Some(payload_of(c.frames[i].pixels, c.encoding))
}

/// Taking newlines out of text that holds none leaves it as it is.
pub proof fn lemma_strip_no_newlines(s: Seq<u8>)
    requires
        forall|i: int| 0 <= i < s.len() ==> #[trigger] s[i] != 10u8,
    ensures
        strip_newlines(s) == s,
    decreases s.len(),
{
    reveal(Seq::filter);
    if s.len() > 0 {
        lemma_strip_no_newlines(s.drop_last());
        assert(s.drop_last().push(s.last()) =~= s);
    }
}

proof fn lemma_hex_has_no_newline(s: Seq<u8>)
    ensures
        forall|i: int| 0 <= i < hex_encode(s).len() ==> #[trigger] hex_encode(s)[i] != 10u8,
{
    assert forall|i: int| 0 <= i < hex_encode(s).len() implies #[trigger] hex_encode(s)[i] != 10u8 by {
        lemma_hex_digit(s[i / 2] / 16);
        lemma_hex_digit(s[i / 2] % 16);
    }
}

proof fn lemma_magic_value()
    ensures
        le32_of(89u8, 69u8, 69u8, 84u8) == 1413825881u32,
{
    assert(((89u8 as u32) | ((69u8 as u32) << 8u32) | ((69u8 as u32) << 16u32) | ((84u8 as u32) << 24u32)) == 1413825881u32) by (bit_vector);
}

/// A first-generation buffer never begins with the magic bytes: its width
/// would be too large for the payload to fit.
proof fn lemma_v1_has_no_magic(b: Seq<u8>, w: u32, h: u32)
    requires
        b.len() >= 4,
        le32_at(b, 0) == w,
        dims_ok(w, h, false, PixelEncoding::Hex),
    ensures
        !has_magic(b),
{
    if has_magic(b) {
        lemma_magic_value();
        assert(w == 1413825881u32);
        assert(channel_len(w, h, false) * encoding_factor(PixelEncoding::Hex) >= w as nat * 6) by (nonlinear_arith)
            requires
                h >= 1,
                channel_len(w, h, false) == w as nat * h as nat * 3,
                encoding_factor(PixelEncoding::Hex) == 2,
        ;
    }
}

proof fn lemma_round_trip_v1(c: ContainerModel)
    requires
        encode_refusal(c) is None,
        c.generation == Generation::V1,
    ensures
        parse(encoding_of(c)) == Ok::<ContainerModel, DecodeError>(c),
{
    let px = c.frames[0].pixels;
    let t = hex_encode(px);
    let b = encoding_of(c);
    assert(b == le32_bytes(c.width) + le32_bytes(c.height) + t);
    assert(b.subrange(0, 4) =~= le32_bytes(c.width));
    assert(b.subrange(4, 8) =~= le32_bytes(c.height));
    assert(b.subrange(8, b.len() as int) =~= t);
    lemma_le32_in(b, 0, c.width);
    lemma_le32_in(b, 4, c.height);
    lemma_v1_has_no_magic(b, c.width, c.height);
    lemma_hex_has_no_newline(px);
    lemma_strip_no_newlines(t);
    lemma_payload_round_trip(px, PixelEncoding::Hex);
    assert(px.len() == channel_len(c.width, c.height, false));
    assert(c.metadata =~= Seq::<u8>::empty());
    assert(c.frames =~= seq![FrameModel { delay_ms: 0, pixels: px }]);
}

#[verifier::rlimit(50)]
#[verifier::spinoff_prover]
proof fn lemma_round_trip_v2(c: ContainerModel)
    requires
        encode_refusal(c) is None,
        payloads_fit(c),
        payloads_round_trip(c),
        c.generation == Generation::V2,
    ensures
        parse(encoding_of(c)) == Ok::<ContainerModel, DecodeError>(c),
{
    let px = c.frames[0].pixels;
    let p = frame_payload(c, 0);
    let m = c.metadata;
    let mlen = m.len() as int;
    let b = encoding_of(c);
    let flags = flags_v2(c);
    assert(b =~= magic() + seq![2u8, flags] + le32_bytes(c.width) + le32_bytes(c.height)
        + le16_bytes(m.len() as u16) + m + le32_bytes(p.len() as u32) + p);
    assert(b.len() == 20 + mlen + p.len());
    assert(has_magic(b));
    assert(b[4] == 2u8 && b[5] == flags);
    assert(b.subrange(6, 10) =~= le32_bytes(c.width));
    assert(b.subrange(10, 14) =~= le32_bytes(c.height));
    assert(b.subrange(14, 16) =~= le16_bytes(m.len() as u16));
    assert(b.subrange(16, 16 + mlen) =~= m);
    assert(b.subrange(16 + mlen, 20 + mlen) =~= le32_bytes(p.len() as u32));
    assert(b.subrange(20 + mlen, 20 + mlen + p.len()) =~= p);
    lemma_le32_in(b, 6, c.width);
    lemma_le32_in(b, 10, c.height);
    lemma_le16_in(b, 14, m.len() as u16);
    lemma_le32_in(b, 16 + mlen, p.len() as u32);
    assert(decompressed(c.compression, p) == Some(payload_of(px, c.encoding)));
    lemma_payload_round_trip(px, c.encoding);
    assert(px.len() == channel_len(c.width, c.height, c.has_alpha));
    assert(c.frames =~= seq![FrameModel { delay_ms: 0, pixels: px }]);
    assert(flags < 8);
    assert((flags % 2 == 1) == (c.compression == CompressionAlgorithm::Zlib));
    assert(((flags / 2) % 2 == 1) == c.has_alpha);
    assert(((flags / 4) % 2 == 1) == (c.encoding == PixelEncoding::Binary));
}

/// A frame that the encoder can store and the reader can give back.
#[verifier::opaque]
pub open spec fn frame_ok(f: FrameModel, encoding: PixelEncoding, alg: CompressionAlgorithm, n: nat) -> bool {
    &&& f.pixels.len() == n
    &&& compressed(alg, payload_of(f.pixels, encoding)).len() <= u32::MAX
    &&& decompressed(alg, compressed(alg, payload_of(f.pixels, encoding))) == Some(payload_of(f.pixels, encoding))
}

proof fn lemma_frame_record(pre: Seq<u8>, f: FrameModel, tail: Seq<u8>, encoding: PixelEncoding, alg: CompressionAlgorithm, n: nat)
    requires
        frame_ok(f, encoding, alg, n),
    ensures
        ({
            let p = compressed(alg, payload_of(f.pixels, encoding));
            let b = pre + (le32_bytes(f.delay_ms) + le32_bytes(p.len() as u32) + p + tail);
            let pos = pre.len() as int;
            &&& b.len() >= pos + 8 + p.len()
            &&& le32_at(b, pos) == f.delay_ms
            &&& le32_at(b, pos + 4) == p.len()
            &&& frame_channels(b.subrange(pos + 8, pos + 8 + p.len()), encoding, alg, n) == Ok::<Seq<u8>, DecodeError>(f.pixels)
            &&& b == (pre + le32_bytes(f.delay_ms) + le32_bytes(p.len() as u32) + p) + tail
        }),
{
    reveal(frame_ok);
    let p = compressed(alg, payload_of(f.pixels, encoding));
    let b = pre + (le32_bytes(f.delay_ms) + le32_bytes(p.len() as u32) + p + tail);
    let pos = pre.len() as int;
    assert(b.subrange(pos, pos + 4) =~= le32_bytes(f.delay_ms));
    assert(b.subrange(pos + 4, pos + 8) =~= le32_bytes(p.len() as u32));
    assert(b.subrange(pos + 8, pos + 8 + p.len()) =~= p);
    lemma_le32_in(b, pos, f.delay_ms);
    lemma_le32_in(b, pos + 4, p.len() as u32);
    lemma_payload_round_trip(f.pixels, encoding);
    assert(b =~= (pre + le32_bytes(f.delay_ms) + le32_bytes(p.len() as u32) + p) + tail);
}

/// Frame records read back as the frames they were written from.
#[verifier::rlimit(100)]
#[verifier::spinoff_prover]
proof fn lemma_frames_round_trip(
    pre: Seq<u8>,
    frames: Seq<FrameModel>,
    encoding: PixelEncoding,
    alg: CompressionAlgorithm,
    n: nat,
)
    requires
        forall|i: int| 0 <= i < frames.len() ==> frame_ok(#[trigger] frames[i], encoding, alg, n),
    ensures
        parse_frames(pre + frames_bytes(frames, encoding, alg), pre.len() as int, frames.len(), encoding, alg, n)
            == Ok::<Seq<FrameModel>, DecodeError>(frames),
    decreases frames.len(),
{
    if frames.len() == 0 {
        assert(frames =~= Seq::<FrameModel>::empty());
    } else {
        let f = frames[0];
        let p = compressed(alg, payload_of(f.pixels, encoding));
        let rest = frames.drop_first();
        let tail = frames_bytes(rest, encoding, alg);
        let pre2 = pre + le32_bytes(f.delay_ms) + le32_bytes(p.len() as u32) + p;
        assert(frames_bytes(frames, encoding, alg) == le32_bytes(f.delay_ms) + le32_bytes(p.len() as u32) + p + tail);
        assert(frame_ok(frames[0], encoding, alg, n));
        lemma_frame_record(pre, f, tail, encoding, alg, n);
        assert(frames.len() - 1 == rest.len());
        assert forall|i: int| 0 <= i < rest.len() implies frame_ok(#[trigger] rest[i], encoding, alg, n) by {
            assert(rest[i] == frames[i + 1]);
        }
        lemma_frames_round_trip(pre2, rest, encoding, alg, n);
        assert(frames =~= seq![FrameModel { delay_ms: f.delay_ms, pixels: f.pixels }] + rest);
    }
}

proof fn lemma_split5(a: Seq<u8>, x: Seq<u8>, y: Seq<u8>, z: Seq<u8>, t: Seq<u8>)
    ensures
        ({
            let b = a + x + y + z + t;
            let at1 = a.len() as int;
            let at2 = at1 + x.len();
            let at3 = at2 + y.len();
            let at4 = at3 + z.len();
            &&& b.len() == at4 + t.len()
            &&& b.subrange(0, at1) == a
            &&& b.subrange(at1, at2) == x
            &&& b.subrange(at2, at3) == y
            &&& b.subrange(at3, at4) == z
            &&& b == (a + x + y + z) + t
        }),
{
    let b = a + x + y + z + t;
    let at1 = a.len() as int;
    let at2 = at1 + x.len();
    let at3 = at2 + y.len();
    let at4 = at3 + z.len();
    assert(b.subrange(0, at1) =~= a);
    assert(b.subrange(at1, at2) =~= x);
    assert(b.subrange(at2, at3) =~= y);
    assert(b.subrange(at3, at4) =~= z);
}

/// A field inside a prefix reads the same in the whole buffer.
proof fn lemma_le32_prefix(b: Seq<u8>, h: Seq<u8>, p: int)
    requires
        h.len() <= b.len(),
        b.subrange(0, h.len() as int) == h,
        0 <= p,
        p + 4 <= h.len(),
    ensures
        le32_at(b, p) == le32_at(h, p),
{
    assert(b[p] == h[p]);
    assert(b[p + 1] == h[p + 1]);
    assert(b[p + 2] == h[p + 2]);
    assert(b[p + 3] == h[p + 3]);
}

proof fn lemma_header_v3(flags: u8, w: u32, h: u32, count: u32, loops: u32, mlen: u32)
    ensures
        ({
            let hd = magic() + seq![3u8, flags] + le32_bytes(w) + le32_bytes(h) + le32_bytes(count) + le32_bytes(loops)
                + le32_bytes(mlen);
            &&& hd.len() == 26
            &&& has_magic(hd)
            &&& hd[4] == 3u8
            &&& hd[5] == flags
            &&& le32_at(hd, 6) == w
            &&& le32_at(hd, 10) == h
            &&& le32_at(hd, 14) == count
            &&& le32_at(hd, 18) == loops
            &&& le32_at(hd, 22) == mlen
        }),
{
    let hd = magic() + seq![3u8, flags] + le32_bytes(w) + le32_bytes(h) + le32_bytes(count) + le32_bytes(loops)
        + le32_bytes(mlen);
    assert(hd.subrange(6, 10) =~= le32_bytes(w));
    assert(hd.subrange(10, 14) =~= le32_bytes(h));
    assert(hd.subrange(14, 18) =~= le32_bytes(count));
    assert(hd.subrange(18, 22) =~= le32_bytes(loops));
    assert(hd.subrange(22, 26) =~= le32_bytes(mlen));
    lemma_le32_in(hd, 6, w);
    lemma_le32_in(hd, 10, h);
    lemma_le32_in(hd, 14, count);
    lemma_le32_in(hd, 18, loops);
    lemma_le32_in(hd, 22, mlen);
}

proof fn lemma_flags_v3(c: ContainerModel)
    ensures
        ({
            let flags = flags_v3(c);
            &&& flags < 64
            &&& algorithm_of(flags) == c.compression
            &&& ((flags / 4) % 2 == 1) == c.has_alpha
            &&& ((flags / 8) % 2 == 1) == (c.encoding == PixelEncoding::Binary)
            &&& ((flags / 32) % 2 == 1) == (c.color_profile is Some)
        }),
{
}

#[verifier::rlimit(50)]
#[verifier::spinoff_prover]
proof fn lemma_round_trip_v3(c: ContainerModel)
    requires
        encode_refusal(c) is None,
        payloads_fit(c),
        payloads_round_trip(c),
        c.generation == Generation::V3,
    ensures
        parse(encoding_of(c)) == Ok::<ContainerModel, DecodeError>(c),
{
    let m = c.metadata;
    let mlen = m.len() as int;
    let icc = profile_bytes(c.color_profile);
    let ilen = icc.len() as int;
    let fb = frames_bytes(c.frames, c.encoding, c.compression);
    let b = encoding_of(c);
    let flags = flags_v3(c);
    let hd = magic() + seq![3u8, flags] + le32_bytes(c.width) + le32_bytes(c.height)
        + le32_bytes(c.frames.len() as u32) + le32_bytes(c.loop_count) + le32_bytes(m.len() as u32);
    let li = le32_bytes(icc.len() as u32);
    assert(b == hd + m + li + icc + fb);
    lemma_split5(hd, m, li, icc, fb);
    lemma_header_v3(flags, c.width, c.height, c.frames.len() as u32, c.loop_count, m.len() as u32);
    lemma_le32_prefix(b, hd, 6);
    lemma_le32_prefix(b, hd, 10);
    lemma_le32_prefix(b, hd, 14);
    lemma_le32_prefix(b, hd, 18);
    lemma_le32_prefix(b, hd, 22);
    assert(b[0] == hd[0] && b[1] == hd[1] && b[2] == hd[2] && b[3] == hd[3] && b[4] == hd[4] && b[5] == hd[5]);
    lemma_le32_in(b, 26 + mlen, icc.len() as u32);
    let n = channel_len(c.width, c.height, c.has_alpha);
    assert forall|i: int| 0 <= i < c.frames.len() implies frame_ok(#[trigger] c.frames[i], c.encoding, c.compression, n) by {
        reveal(frame_ok);
        if c.frames[i].pixels.len() != frame_len(c) {
            assert(encode_refusal(c) is Some);
        }
        assert(frame_payload(c, i).len() <= u32::MAX);
        assert(decompressed(c.compression, frame_payload(c, i)) == Some(payload_of(c.frames[i].pixels, c.encoding)));
    }
    lemma_frames_round_trip(hd + m + li + icc, c.frames, c.encoding, c.compression, n);
    lemma_flags_v3(c);
    if c.color_profile is Some {
        if ilen == 0 {
            assert(icc =~= Seq::<u8>::empty());
        }
    }
}

/// Whatever the encoder writes, the reader gives back: for a container that
/// the encoder accepts, whose stored payloads fit their length fields and
/// decompress to what was compressed, parsing its encoding yields it again.
pub proof fn lemma_round_trip(c: ContainerModel)
    requires
        encode_refusal(c) is None,
        payloads_fit(c),
        payloads_round_trip(c),
    ensures
        parse(encoding_of(c)) == Ok::<ContainerModel, DecodeError>(c),
{
    match c.generation {
        Generation::V1 => lemma_round_trip_v1(c),
        Generation::V2 => lemma_round_trip_v2(c),
        Generation::V3 => lemma_round_trip_v3(c),
    }
}

/// A buffer that does not begin with the magic bytes is read as a
/// first-generation file, whatever else it holds.
pub proof fn lemma_dispatch_without_magic(b: Seq<u8>)
    requires
        !has_magic(b),
    ensures
        generation_of(b) == Ok::<Generation, DecodeError>(Generation::V1),
        parse(b) == parse_v1(b, 0),
{
}

/// The reader never mixes generations: a container it accepts is of the
/// generation the dispatcher picks, and a buffer the dispatcher refuses is
/// refused with the same error.
pub proof fn lemma_dispatch_selects_generation(b: Seq<u8>)
    ensures
        parse(b) matches Ok(c) ==> generation_of(b) == Ok::<Generation, DecodeError>(c.generation),
        generation_of(b) matches Err(e) ==> parse(b) == Err::<ContainerModel, DecodeError>(e),
{
}

/// A third-generation buffer whose profile flag is set while its profile
/// section is empty is refused, as an unsupported feature once the fields
/// before it are valid; it never yields a container.
pub proof fn lemma_flagged_empty_profile(b: Seq<u8>)
    requires
        has_magic(b),
        b.len() >= 26,
        b[4] == 3,
        (b[5] / 32) % 2 == 1,
        b.len() >= 30 + le32_at(b, 22),
        le32_at(b, 26 + le32_at(b, 22)) == 0,
    ensures
        parse(b) is Err,
        b[5] < 64 && dims_ok(le32_at(b, 6), le32_at(b, 10), (b[5] / 4) % 2 == 1,
            if (b[5] / 8) % 2 == 1 { PixelEncoding::Binary } else { PixelEncoding::Hex })
            && le32_at(b, 14) != 0 ==> parse(b) == Err::<ContainerModel, DecodeError>(DecodeError::UnsupportedFeature),
{
}

proof fn lemma_prefix_le32(b: Seq<u8>, k: int, p: int)
    requires
        0 <= p,
        p + 4 <= k <= b.len(),
    ensures
        le32_at(b.subrange(0, k), p) == le32_at(b, p),
{
    let t = b.subrange(0, k);
    assert(t[p] == b[p] && t[p + 1] == b[p + 1] && t[p + 2] == b[p + 2] && t[p + 3] == b[p + 3]);
}

proof fn lemma_prefix_le16(b: Seq<u8>, k: int, p: int)
    requires
        0 <= p,
        p + 2 <= k <= b.len(),
    ensures
        le16_at(b.subrange(0, k), p) == le16_at(b, p),
{
    let t = b.subrange(0, k);
    assert(t[p] == b[p] && t[p + 1] == b[p + 1]);
}

/// A stored payload either decodes or is corrupt; nothing else is reported.
proof fn lemma_frame_channels_errors(stored: Seq<u8>, encoding: PixelEncoding, alg: CompressionAlgorithm, n: nat)
    ensures
        frame_channels(stored, encoding, alg, n) is Ok
            || frame_channels(stored, encoding, alg, n) == Err::<Seq<u8>, DecodeError>(DecodeError::CorruptPayload),
{
}

pub open spec fn eof_or_corrupt<T>(r: Result<T, DecodeError>) -> bool {
    r == Err::<T, DecodeError>(DecodeError::UnexpectedEof) || r == Err::<T, DecodeError>(DecodeError::CorruptPayload)
}

proof fn lemma_record_fields(pre: Seq<u8>, f: FrameModel, tail: Seq<u8>, encoding: PixelEncoding, alg: CompressionAlgorithm)
    requires
        compressed(alg, payload_of(f.pixels, encoding)).len() <= u32::MAX,
    ensures
        ({
            let p = compressed(alg, payload_of(f.pixels, encoding));
            let b = pre + (le32_bytes(f.delay_ms) + le32_bytes(p.len() as u32) + p + tail);
            let pos = pre.len() as int;
            &&& b.len() == pos + 8 + p.len() + tail.len()
            &&& le32_at(b, pos + 4) == p.len()
            &&& b.subrange(pos + 8, pos + 8 + p.len()) == p
            &&& b == (pre + le32_bytes(f.delay_ms) + le32_bytes(p.len() as u32) + p) + tail
        }),
{
    let p = compressed(alg, payload_of(f.pixels, encoding));
    let b = pre + (le32_bytes(f.delay_ms) + le32_bytes(p.len() as u32) + p + tail);
    let pos = pre.len() as int;
    assert(b.subrange(pos + 4, pos + 8) =~= le32_bytes(p.len() as u32));
    assert(b.subrange(pos + 8, pos + 8 + p.len()) =~= p);
    lemma_le32_in(b, pos + 4, p.len() as u32);
    assert(b =~= (pre + le32_bytes(f.delay_ms) + le32_bytes(p.len() as u32) + p) + tail);
}

/// Frame records cut short before their end never read as frames.
#[verifier::rlimit(50)]
#[verifier::spinoff_prover]
proof fn lemma_frames_truncated(
    pre: Seq<u8>,
    frames: Seq<FrameModel>,
    encoding: PixelEncoding,
    alg: CompressionAlgorithm,
    n: nat,
    k: int,
)
    requires
        forall|i: int| 0 <= i < frames.len() ==> compressed(alg, payload_of((#[trigger] frames[i]).pixels, encoding)).len() <= u32::MAX,
        pre.len() <= k < (pre + frames_bytes(frames, encoding, alg)).len(),
    ensures
        eof_or_corrupt(parse_frames((pre + frames_bytes(frames, encoding, alg)).subrange(0, k), pre.len() as int, frames.len(), encoding, alg, n)),
    decreases frames.len(),
{
    let b = pre + frames_bytes(frames, encoding, alg);
    let t = b.subrange(0, k);
    let pos = pre.len() as int;
    if frames.len() == 0 {
        assert(b.len() == pre.len());
    } else {
        let f = frames[0];
        let p = compressed(alg, payload_of(f.pixels, encoding));
        let rest = frames.drop_first();
        let tail = frames_bytes(rest, encoding, alg);
        let pre2 = pre + le32_bytes(f.delay_ms) + le32_bytes(p.len() as u32) + p;
        assert(frames_bytes(frames, encoding, alg) == le32_bytes(f.delay_ms) + le32_bytes(p.len() as u32) + p + tail);
        assert(compressed(alg, payload_of(frames[0].pixels, encoding)).len() <= u32::MAX);
        lemma_record_fields(pre, f, tail, encoding, alg);
        if k < pos + 8 {
        } else {
            lemma_prefix_le32(b, k, pos + 4);
            if k < pos + 8 + p.len() {
            } else {
                assert(t.subrange(pos + 8, pos + 8 + p.len()) =~= b.subrange(pos + 8, pos + 8 + p.len()));
                lemma_frame_channels_errors(p, encoding, alg, n);
                if frame_channels(p, encoding, alg, n) is Ok {
                    assert forall|i: int| 0 <= i < rest.len() implies compressed(alg, payload_of((#[trigger] rest[i]).pixels, encoding)).len() <= u32::MAX by {
                        assert(rest[i] == frames[i + 1]);
                    }
                    assert(b == pre2 + tail);
                    assert(pre2.len() == pos + 8 + p.len());
                    lemma_frames_truncated(pre2, rest, encoding, alg, n, k);
                }
            }
        }
    }
}

proof fn lemma_truncated_v1(c: ContainerModel, k: int)
    requires
        encode_refusal(c) is None,
        c.generation == Generation::V1,
        0 <= k < encoding_of(c).len(),
    ensures
        eof_or_corrupt(parse(encoding_of(c).subrange(0, k))),
{
    let px = c.frames[0].pixels;
    let tx = hex_encode(px);
    let b = encoding_of(c);
    let t = b.subrange(0, k);
    assert(b.subrange(0, 4) =~= le32_bytes(c.width));
    assert(b.subrange(4, 8) =~= le32_bytes(c.height));
    lemma_le32_in(b, 0, c.width);
    lemma_le32_in(b, 4, c.height);
    lemma_v1_has_no_magic(b, c.width, c.height);
    lemma_hex_round_trip(px);
    if k >= 4 {
        assert(t[0] == b[0] && t[1] == b[1] && t[2] == b[2] && t[3] == b[3]);
    }
    if k >= 8 {
        lemma_prefix_le32(b, k, 0);
        lemma_prefix_le32(b, k, 4);
        let rest = t.subrange(8, k);
        assert(rest =~= tx.subrange(0, k - 8));
        lemma_hex_has_no_newline(px);
        assert forall|i: int| 0 <= i < rest.len() implies #[trigger] rest[i] != 10u8 by {
            assert(rest[i] == tx[i]);
        }
        lemma_strip_no_newlines(rest);
        assert(px.len() == channel_len(c.width, c.height, false));
    }
}

proof fn lemma_header_v2(flags: u8, w: u32, h: u32, mlen: u16)
    ensures
        ({
            let hd = magic() + seq![2u8, flags] + le32_bytes(w) + le32_bytes(h) + le16_bytes(mlen);
            &&& hd.len() == 16
            &&& has_magic(hd)
            &&& hd[4] == 2u8
            &&& hd[5] == flags
            &&& le32_at(hd, 6) == w
            &&& le32_at(hd, 10) == h
            &&& le16_at(hd, 14) == mlen
        }),
{
    let hd = magic() + seq![2u8, flags] + le32_bytes(w) + le32_bytes(h) + le16_bytes(mlen);
    assert(hd.subrange(6, 10) =~= le32_bytes(w));
    assert(hd.subrange(10, 14) =~= le32_bytes(h));
    assert(hd.subrange(14, 16) =~= le16_bytes(mlen));
    lemma_le32_in(hd, 6, w);
    lemma_le32_in(hd, 10, h);
    lemma_le16_in(hd, 14, mlen);
}

#[verifier::rlimit(50)]
#[verifier::spinoff_prover]
proof fn lemma_truncated_v2(c: ContainerModel, k: int)
    requires
        encode_refusal(c) is None,
        payloads_fit(c),
        c.generation == Generation::V2,
        0 <= k < encoding_of(c).len(),
    ensures
        eof_or_corrupt(parse(encoding_of(c).subrange(0, k))),
{
    let m = c.metadata;
    let mlen = m.len() as int;
    let p = frame_payload(c, 0);
    let b = encoding_of(c);
    let t = b.subrange(0, k);
    let flags = flags_v2(c);
    let hd = magic() + seq![2u8, flags] + le32_bytes(c.width) + le32_bytes(c.height) + le16_bytes(m.len() as u16);
    let lp = le32_bytes(p.len() as u32);
    assert(b == hd + m + lp + p);
    lemma_split5(hd, m, lp, p, Seq::<u8>::empty());
    assert(hd + m + lp + p + Seq::<u8>::empty() =~= hd + m + lp + p);
    lemma_header_v2(flags, c.width, c.height, m.len() as u16);
    assert(b[0] == hd[0] && b[1] == hd[1] && b[2] == hd[2] && b[3] == hd[3] && b[4] == hd[4] && b[5] == hd[5]);
    if k >= 4 {
        assert(t[0] == b[0] && t[1] == b[1] && t[2] == b[2] && t[3] == b[3]);
    }
    if k >= 5 {
        assert(t[4] == b[4]);
    }
    if k >= 16 {
        assert(t[5] == b[5]);
        lemma_le32_prefix(b, hd, 6);
        lemma_le32_prefix(b, hd, 10);
        assert(le16_at(b, 14) == le16_at(hd, 14)) by {
            assert(b[14] == hd[14] && b[15] == hd[15]);
        }
        lemma_prefix_le32(b, k, 6);
        lemma_prefix_le32(b, k, 10);
        lemma_prefix_le16(b, k, 14);
        assert(flags < 8);
        assert(((flags / 2) % 2 == 1) == c.has_alpha);
        assert(((flags / 4) % 2 == 1) == (c.encoding == PixelEncoding::Binary));
        if k >= 20 + mlen {
            lemma_le32_in(b, 16 + mlen, p.len() as u32);
            lemma_prefix_le32(b, k, 16 + mlen);
        }
    }
}

#[verifier::rlimit(50)]
#[verifier::spinoff_prover]
proof fn lemma_truncated_v3(c: ContainerModel, k: int)
    requires
        encode_refusal(c) is None,
        payloads_fit(c),
        c.generation == Generation::V3,
        0 <= k < encoding_of(c).len(),
    ensures
        eof_or_corrupt(parse(encoding_of(c).subrange(0, k))),
{
    let m = c.metadata;
    let mlen = m.len() as int;
    let icc = profile_bytes(c.color_profile);
    let ilen = icc.len() as int;
    let fb = frames_bytes(c.frames, c.encoding, c.compression);
    let b = encoding_of(c);
    let t = b.subrange(0, k);
    let flags = flags_v3(c);
    let hd = magic() + seq![3u8, flags] + le32_bytes(c.width) + le32_bytes(c.height)
        + le32_bytes(c.frames.len() as u32) + le32_bytes(c.loop_count) + le32_bytes(m.len() as u32);
    let li = le32_bytes(icc.len() as u32);
    assert(b == hd + m + li + icc + fb);
    lemma_split5(hd, m, li, icc, fb);
    lemma_header_v3(flags, c.width, c.height, c.frames.len() as u32, c.loop_count, m.len() as u32);
    assert(b[0] == hd[0] && b[1] == hd[1] && b[2] == hd[2] && b[3] == hd[3] && b[4] == hd[4] && b[5] == hd[5]);
    if k >= 4 {
        assert(t[0] == b[0] && t[1] == b[1] && t[2] == b[2] && t[3] == b[3]);
    }
    if k >= 5 {
        assert(t[4] == b[4]);
    }
    if k >= 26 {
        assert(t[5] == b[5]);
        lemma_le32_prefix(b, hd, 6);
        lemma_le32_prefix(b, hd, 10);
        lemma_le32_prefix(b, hd, 14);
        lemma_le32_prefix(b, hd, 18);
        lemma_le32_prefix(b, hd, 22);
        lemma_prefix_le32(b, k, 6);
        lemma_prefix_le32(b, k, 10);
        lemma_prefix_le32(b, k, 14);
        lemma_prefix_le32(b, k, 18);
        lemma_prefix_le32(b, k, 22);
        lemma_flags_v3(c);
        if k >= 30 + mlen {
            lemma_le32_in(b, 26 + mlen, icc.len() as u32);
            lemma_prefix_le32(b, k, 26 + mlen);
            if c.color_profile is Some && ilen == 0 {
                assert(icc =~= Seq::<u8>::empty());
            }
            if k >= 30 + mlen + ilen {
                let pre = hd + m + li + icc;
                assert forall|i: int| 0 <= i < c.frames.len() implies compressed(c.compression, payload_of((#[trigger] c.frames[i]).pixels, c.encoding)).len() <= u32::MAX by {
                    assert(frame_payload(c, i).len() <= u32::MAX);
                }
                assert(t == (pre + fb).subrange(0, k));
                lemma_frames_truncated(pre, c.frames, c.encoding, c.compression, channel_len(c.width, c.height, c.has_alpha), k);
            }
        }
    }
}

/// Cutting an encoded buffer short anywhere before its end never yields a
/// container: the reader reports `UnexpectedEof` or `CorruptPayload`.
pub proof fn lemma_truncation(c: ContainerModel, k: int)
    requires
        encode_refusal(c) is None,
        payloads_fit(c),
        0 <= k < encoding_of(c).len(),
    ensures
        eof_or_corrupt(parse(encoding_of(c).subrange(0, k))),
{
    match c.generation {
        Generation::V1 => lemma_truncated_v1(c, k),
        Generation::V2 => lemma_truncated_v2(c, k),
        Generation::V3 => lemma_truncated_v3(c, k),
    }
}

} // verus!
