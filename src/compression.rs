//! The compression strategies: none, zlib, brotli and zstd. Each real
//! algorithm is a pure function pair provided by its crate.

use vstd::prelude::*;
use crate::model::DecodeError;
use crate::envelope::copy_all;

verus! {

#[verifier::external_type_specification]
#[verifier::external_body]
pub struct ExIoError(std::io::Error);

/// The compression algorithm recorded in a container's flags.
#[derive(Clone, Copy, Debug, PartialEq, Eq, Structural)]
pub enum CompressionAlgorithm {
    Uncompressed,
    Zlib,
    Brotli,
    Zstd,
}

/// The zlib stream that flate2 writes for `s` at its best level.
pub uninterp spec fn zlib_deflated(s: Seq<u8>) -> Seq<u8>;

/// What flate2 inflates from the zlib stream `s`; `None` where it fails.
pub uninterp spec fn zlib_inflated(s: Seq<u8>) -> Option<Seq<u8>>;

/// The brotli stream that the brotli crate writes for `s` with default parameters.
pub uninterp spec fn brotli_compressed(s: Seq<u8>) -> Seq<u8>;

/// What the brotli crate decompresses from `s`; `None` where it fails.
pub uninterp spec fn brotli_decompressed(s: Seq<u8>) -> Option<Seq<u8>>;

/// The zstd frame that the zstd crate writes for `s` at level 19.
pub uninterp spec fn zstd_compressed(s: Seq<u8>) -> Seq<u8>;

/// What the zstd crate decodes from `s`; `None` where it fails.
pub uninterp spec fn zstd_decompressed(s: Seq<u8>) -> Option<Seq<u8>>;

/// The compressed form of `s`.
pub open spec fn compressed(alg: CompressionAlgorithm, s: Seq<u8>) -> Seq<u8> {
    match alg {
        CompressionAlgorithm::Uncompressed => s,
        CompressionAlgorithm::Zlib => zlib_deflated(s),
        CompressionAlgorithm::Brotli => brotli_compressed(s),
        CompressionAlgorithm::Zstd => zstd_compressed(s),
    }
}

/// The bytes that `s` decompresses to, if it is a valid stream.
pub open spec fn decompressed(alg: CompressionAlgorithm, s: Seq<u8>) -> Option<Seq<u8>> {
    match alg {
        CompressionAlgorithm::Uncompressed => Some(s),
        CompressionAlgorithm::Zlib => zlib_inflated(s),
        CompressionAlgorithm::Brotli => brotli_decompressed(s),
        CompressionAlgorithm::Zstd => zstd_decompressed(s),
    }
}

/// The two-bit code of an algorithm.
pub open spec fn algorithm_code(alg: CompressionAlgorithm) -> u8 {
    match alg {
        CompressionAlgorithm::Uncompressed => 0,
        CompressionAlgorithm::Zlib => 1,
        CompressionAlgorithm::Brotli => 2,
        CompressionAlgorithm::Zstd => 3,
    }
}

/// The algorithm named by the two low bits of `bits` (`bits % 4`).
pub open spec fn algorithm_of(bits: u8) -> CompressionAlgorithm {
    let c = bits % 4;
    if c == 0 {
        CompressionAlgorithm::Uncompressed
    } else if c == 1 {
        CompressionAlgorithm::Zlib
    } else if c == 2 {
        CompressionAlgorithm::Brotli
    } else {
        CompressionAlgorithm::Zstd
    }
}

impl CompressionAlgorithm {
    /// The algorithm named by the two low bits of `bits` (`bits % 4`); every code names one.
    pub fn from_bits(bits: u8) -> (r: CompressionAlgorithm)
        ensures
            r == algorithm_of(bits),
    {
        let c = bits % 4;
        if c == 0 {
            CompressionAlgorithm::Uncompressed
        } else if c == 1 {
            CompressionAlgorithm::Zlib
        } else if c == 2 {
            CompressionAlgorithm::Brotli
        } else {
            CompressionAlgorithm::Zstd
        }
    }

    /// The two-bit code of this algorithm.
    pub fn code(self) -> (r: u8)
        ensures
            r == algorithm_code(self),
            r < 4,
            algorithm_of(r) == self,
    {
        match self {
            CompressionAlgorithm::Uncompressed => 0,
            CompressionAlgorithm::Zlib => 1,
            CompressionAlgorithm::Brotli => 2,
            CompressionAlgorithm::Zstd => 3,
        }
    }
}

/// Relies on flate2's `ZlibEncoder` at `Compression::best()`: the stream is a
/// function of the input, writing into a `Vec` cannot fail, and `ZlibDecoder`
/// inflates it back to the input.
#[verifier::external_body]
fn zlib_deflate(data: &[u8]) -> (r: Vec<u8>)
    ensures
        r@ == zlib_deflated(data@),
        zlib_inflated(r@) == Some(data@),
{
    let mut encoder = flate2::write::ZlibEncoder::new(Vec::new(), flate2::Compression::best());
    std::io::Write::write_all(&mut encoder, data).unwrap();
    encoder.finish().unwrap()
}

/// Relies on flate2's `ZlibDecoder`: `read_to_end` inflates one zlib stream,
/// fails with an I/O error on corrupt data, and gives what it inflated so
/// far for a stream that is cut short.
#[verifier::external_body]
fn zlib_inflate(data: &[u8]) -> (r: Result<Vec<u8>, std::io::Error>)
    ensures
        match r {
            Ok(v) => zlib_inflated(data@) == Some(v@),
            Err(_) => zlib_inflated(data@) is None,
        },
{
    let mut decoder = flate2::read::ZlibDecoder::new(data);
    let mut out = Vec::new();
    std::io::Read::read_to_end(&mut decoder, &mut out).map(|_| out)
}

/// Relies on `brotli::BrotliCompress` with default `BrotliEncoderParams`:
/// reading a slice and writing a `Vec` cannot fail, the stream is a function
/// of the input, and `BrotliDecompress` gives the input back.
#[verifier::external_body]
fn brotli_compress(data: &[u8]) -> (r: Vec<u8>)
    ensures
        r@ == brotli_compressed(data@),
        brotli_decompressed(r@) == Some(data@),
{
    let mut reader = data;
    let mut out = Vec::new();
    brotli::BrotliCompress(&mut reader, &mut out, &brotli::enc::BrotliEncoderParams::default()).unwrap();
    out
}

/// Relies on `brotli::BrotliDecompress`: it fails with an I/O error on input
/// that is not a brotli stream.
#[verifier::external_body]
fn brotli_decompress(data: &[u8]) -> (r: Result<Vec<u8>, std::io::Error>)
    ensures
        match r {
            Ok(v) => brotli_decompressed(data@) == Some(v@),
            Err(_) => brotli_decompressed(data@) is None,
        },
{
    let mut reader = data;
    let mut out = Vec::new();
    brotli::BrotliDecompress(&mut reader, &mut out).map(|_| out)
}

/// Relies on `zstd::encode_all` at level 19: reading a slice cannot fail, the
/// frame is a function of the input, and `zstd::decode_all` gives it back.
#[verifier::external_body]
fn zstd_compress(data: &[u8]) -> (r: Vec<u8>)
    ensures
        r@ == zstd_compressed(data@),
        zstd_decompressed(r@) == Some(data@),
{
    zstd::encode_all(data, 19).unwrap()
}

/// Relies on `zstd::decode_all`: it fails with an I/O error on input that is
/// not in the zstd frame format.
#[verifier::external_body]
fn zstd_decompress(data: &[u8]) -> (r: Result<Vec<u8>, std::io::Error>)
    ensures
        match r {
            Ok(v) => zstd_decompressed(data@) == Some(v@),
            Err(_) => zstd_decompressed(data@) is None,
        },
{
    zstd::decode_all(data)
}

/// Compresses `data` with `alg`. What comes out decompresses to `data` with
/// the same algorithm.
pub fn compress(data: &[u8], alg: CompressionAlgorithm) -> (r: Vec<u8>)
    ensures
        r@ == compressed(alg, data@),
        decompressed(alg, r@) == Some(data@),
{
    match alg {
        CompressionAlgorithm::Uncompressed => copy_all(data),
        CompressionAlgorithm::Zlib => zlib_deflate(data),
        CompressionAlgorithm::Brotli => brotli_compress(data),
        CompressionAlgorithm::Zstd => zstd_compress(data),
    }
}

/// Decompresses `data` with exactly `alg`; a stream that is not valid for
/// `alg` is `CorruptPayload`, and no other algorithm is tried.
pub fn decompress(data: &[u8], alg: CompressionAlgorithm) -> (r: Result<Vec<u8>, DecodeError>)
    ensures
        match r {
            Ok(v) => decompressed(alg, data@) == Some(v@),
            Err(e) => decompressed(alg, data@) is None && e == DecodeError::CorruptPayload,
        },
{
    let out = match alg {
        CompressionAlgorithm::Uncompressed => Ok(copy_all(data)),
        CompressionAlgorithm::Zlib => zlib_inflate(data),
        CompressionAlgorithm::Brotli => brotli_decompress(data),
        CompressionAlgorithm::Zstd => zstd_decompress(data),
    };
    match out {
        Ok(v) => Ok(v),
        Err(_) => Err(DecodeError::CorruptPayload),
    }
}

} // verus!
