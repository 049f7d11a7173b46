//! The data model shared by the codec: generations, encodings, errors.

use vstd::prelude::*;

verus! {

/// The three generations of the container format.
#[derive(Clone, Copy, Debug, PartialEq, Eq, Structural)]
pub enum Generation {
    V1,
    V2,
    V3,
}

/// How pixel channels are laid out in a payload.
#[derive(Clone, Copy, Debug, PartialEq, Eq, Structural)]
pub enum PixelEncoding {
    /// Two uppercase hex characters per channel.
    Hex,
    /// One byte per channel.
    Binary,
}

/// Why a buffer could not be decoded.
#[derive(Clone, Copy, Debug, PartialEq, Eq, Structural)]
pub enum DecodeError {
    /// The buffer ends before a field it must hold.
    UnexpectedEof,
    /// A generation reader was handed a buffer without the magic bytes.
    InvalidMagic,
    /// The version byte is outside {1, 2, 3}.
    UnsupportedVersion,
    /// A payload does not decompress, has the wrong size, or holds non-hex text.
    CorruptPayload,
    /// A reserved or unimplemented flag is set, or flags disagree with the data.
    UnsupportedFeature,
    /// An embedded colour profile could not be used.
    ProfileError,
}

/// Why a container could not be encoded. Nothing is written in that case.
#[derive(Clone, Copy, Debug, PartialEq, Eq, Structural)]
pub enum EncodeError {
    /// Width or height is zero, or the payload size does not fit 32 bits.
    InvalidDimensions,
    /// A frame's pixel buffer does not hold width * height pixels.
    PixelCountMismatch,
    /// The requested compression, encoding, alpha, metadata, profile or
    /// animation is not available in the target generation.
    UnsupportedForGeneration,
    /// A field is too long for its length prefix.
    FieldTooLong,
}

/// Bytes per pixel: three without alpha, four with.
pub open spec fn bytes_per_pixel(has_alpha: bool) -> nat {
    if has_alpha { 4 } else { 3 }
}

/// How many payload bytes a channel byte takes in an encoding.
pub open spec fn encoding_factor(encoding: PixelEncoding) -> nat {
    match encoding {
        PixelEncoding::Hex => 2,
        PixelEncoding::Binary => 1,
    }
}

/// Number of channel bytes in a `width` x `height` grid.
pub open spec fn channel_len(width: u32, height: u32, has_alpha: bool) -> nat {
    width as nat * height as nat * bytes_per_pixel(has_alpha)
}

/// Dimensions the format can hold: non-empty, and the uncompressed payload
/// length fits a 32-bit length field.
pub open spec fn dims_ok(width: u32, height: u32, has_alpha: bool, encoding: PixelEncoding) -> bool {
    &&& width > 0
    &&& height > 0
    &&& channel_len(width, height, has_alpha) * encoding_factor(encoding) <= u32::MAX
}

/// Checks `dims_ok` and returns the channel byte count.
pub fn checked_channel_len(width: u32, height: u32, has_alpha: bool, encoding: PixelEncoding) -> (r: Option<usize>)
    ensures
        match r {
            Some(n) => dims_ok(width, height, has_alpha, encoding) && n as nat == channel_len(width, height, has_alpha),
            None => !dims_ok(width, height, has_alpha, encoding),
        },
{
    if width == 0 || height == 0 {
        return None;
    }
    let bpp: u64 = if has_alpha { 4 } else { 3 };
    let factor: u64 = match encoding {
        PixelEncoding::Hex => 2,
        PixelEncoding::Binary => 1,
    };
    assert(width as nat * height as nat <= u64::MAX) by (nonlinear_arith)
        requires
            width <= u32::MAX,
            height <= u32::MAX,
    ;
    let pixels: u64 = width as u64 * height as u64;
    let unit: u64 = bpp * factor;
    let limit: u64 = 4294967295u64 / unit;
    assert(channel_len(width, height, has_alpha) * encoding_factor(encoding) == pixels * unit) by (nonlinear_arith)
        requires
            pixels == width as nat * height as nat,
            bpp == bytes_per_pixel(has_alpha),
            factor == encoding_factor(encoding),
            unit == bpp * factor,
            channel_len(width, height, has_alpha) == width as nat * height as nat * bytes_per_pixel(has_alpha),
    ;
    if pixels > limit {
        assert(pixels * unit > 4294967295) by (nonlinear_arith)
            requires
                pixels > limit,
                limit as int == 4294967295int / (unit as int),
                unit > 0,
        ;
        return None;
    }
    assert(pixels * unit <= 4294967295) by (nonlinear_arith)
        requires
            pixels <= limit,
            limit as int == 4294967295int / (unit as int),
            unit > 0,
    ;
    assert(pixels * bpp <= pixels * unit) by (nonlinear_arith)
        requires
            factor >= 1,
            unit == bpp * factor,
    ;
    Some((pixels * bpp) as usize)
}

} // verus!
