//! Colour management: maps decoded pixels from an embedded ICC profile to
//! sRGB with a perceptual transform. Alpha is never transformed. A profile
//! that cannot be used is reported, and the pixels are left as they were.

use vstd::prelude::*;
use crate::model::{DecodeError, bytes_per_pixel, channel_len};

verus! {

#[verifier::external_type_specification]
#[verifier::external_body]
#[verifier::reject_recursive_types(C)]
pub struct ExProfile<C>(lcms2::Profile<C>);

#[verifier::external_type_specification]
#[verifier::external_body]
#[verifier::reject_recursive_types(I)]
#[verifier::reject_recursive_types(O)]
#[verifier::reject_recursive_types(C)]
#[verifier::reject_recursive_types(F)]
pub struct ExTransform<I, O, C, F>(lcms2::Transform<I, O, C, F>);

#[verifier::external_type_specification]
#[verifier::external_body]
pub struct ExLcmsError(lcms2::Error);

#[verifier::external_type_specification]
#[verifier::external_body]
pub struct ExGlobalContext(lcms2::GlobalContext);

#[verifier::external_type_specification]
#[verifier::external_body]
pub struct ExAllowCache(lcms2::AllowCache);

/// Pixels handed to the colour transform at a time.
pub const CHUNK_PIXELS: usize = 1024;

/// The sRGB colour, as three bytes, that lcms2's perceptual transform from
/// the ICC profile `profile` gives for the three RGB bytes `rgb`.
pub uninterp spec fn icc_rgb(profile: Seq<u8>, rgb: Seq<u8>) -> Seq<u8>;

/// Byte `i` of the colour-corrected form of `px`: the colour channels of its
/// pixel come from `icc_rgb`, an alpha byte is kept.
pub open spec fn corrected_byte(profile: Seq<u8>, has_alpha: bool, px: Seq<u8>, i: int) -> u8 {
    let bpp = bytes_per_pixel(has_alpha) as int;
    let q = i / bpp;
    if i % bpp == 3 {
        px[i]
    } else {
        icc_rgb(profile, px.subrange(q * bpp, q * bpp + 3))[i % bpp]
    }
}

/// The colour-corrected form of the channel bytes `px`.
pub open spec fn corrected_pixels(profile: Seq<u8>, has_alpha: bool, px: Seq<u8>) -> Seq<u8> {
    Seq::new(px.len(), |i: int| corrected_byte(profile, has_alpha, px, i))
}

/// The ICC profile that the png crate finds in the PNG file `png`: the
/// decompressed `iCCP` chunk, or `None` where there is none or the chunks
/// before the image data cannot be read.
pub uninterp spec fn png_icc_of(png: Seq<u8>) -> Option<Seq<u8>>;

/// Relies on png's `Decoder::read_info`, which reads the chunks before the
/// image data and keeps a decompressed `iCCP` profile in `Info::icc_profile`.
#[verifier::external_body]
fn read_png_icc(png: &[u8]) -> (r: Option<Vec<u8>>)
    ensures
        match r {
            Some(v) => png_icc_of(png@) == Some(v@),
            None => png_icc_of(png@) is None,
        },
{
    match png::Decoder::new(png).read_info() {
        Ok(reader) => reader.info().icc_profile.as_ref().map(|p| p.to_vec()),
        Err(_) => None,
    }
}

/// The ICC profile of a PNG file, as a third-generation container can embed
/// it: present and non-empty.
pub fn embeddable_icc_profile(png: &[u8]) -> (r: Option<Vec<u8>>)
    ensures
        match r {
            Some(v) => png_icc_of(png@) == Some(v@) && v@.len() > 0,
            None => png_icc_of(png@) is None || png_icc_of(png@) == Some(Seq::<u8>::empty()),
        },
{
    match read_png_icc(png) {
        Some(v) => {
            if v.len() == 0 {
                assert(v@ =~= Seq::<u8>::empty());
                None
            } else {
                Some(v)
            }
        },
        None => None,
    }
}

/// Whether lcms2 can build a perceptual transform from the ICC profile
/// `profile` to sRGB for 8-bit RGB (with `has_alpha`, RGBA) pixels.
pub uninterp spec fn icc_usable(profile: Seq<u8>, has_alpha: bool) -> bool;

/// A perceptual transform from an embedded profile to sRGB, for one layout,
/// with the profile bytes and the layout it was built from. Only
/// `perceptual_transform` makes one.
struct ColorTransform {
    transform: lcms2::Transform<u8, u8>,
    has_alpha: bool,
    profile: Vec<u8>,
}

/// Relies on lcms2's `Profile::new_icc` (parses the embedded profile, with an
/// error on data it cannot use), `Profile::new_srgb` and `Transform::new`
/// with `Intent::Perceptual` and the same 8-bit RGB (or RGBA) layout on both
/// sides. The transform is kept with the bytes and layout it was built from.
#[verifier::external_body]
fn perceptual_transform(profile: &[u8], has_alpha: bool) -> (r: Result<ColorTransform, lcms2::Error>)
    ensures
        match r {
            Ok(t) => t.profile@ == profile@ && t.has_alpha == has_alpha && icc_usable(profile@, has_alpha),
            Err(_) => !icc_usable(profile@, has_alpha),
        },
{
    let source = lcms2::Profile::new_icc(profile)?;
    let format = if has_alpha { lcms2::PixelFormat::RGBA_8 } else { lcms2::PixelFormat::RGB_8 };
    let target = lcms2::Profile::new_srgb();
    let transform = lcms2::Transform::new(&source, format, &target, format, lcms2::Intent::Perceptual)?;
    Ok(ColorTransform { transform, has_alpha, profile: profile.to_vec() })
}

/// Relies on `lcms2::Transform::transform_in_place` over `data[from..to]`: each
/// pixel's colour is mapped on its own by the transform, the extra alpha
/// channel is not written, and nothing outside the range changes. It panics
/// unless the range is whole pixels, and handles at most `u32::MAX` of them.
#[verifier::external_body]
fn transform_range(t: &ColorTransform, data: &mut Vec<u8>, from: usize, to: usize)
    requires
        from <= to <= old(data)@.len(),
        from as int % (bytes_per_pixel(t.has_alpha) as int) == 0,
        (to - from) % (bytes_per_pixel(t.has_alpha) as int) == 0,
        (to - from) / (bytes_per_pixel(t.has_alpha) as int) <= u32::MAX,
    ensures
        final(data)@.len() == old(data)@.len(),
        forall|i: int| 0 <= i < final(data)@.len() && !(from <= i < to) ==> #[trigger] final(data)@[i] == old(data)@[i],
        forall|i: int| from <= i < to ==> #[trigger] final(data)@[i] == (if i % (bytes_per_pixel(t.has_alpha) as int) == 3 {
            old(data)@[i]
        } else {
            icc_rgb(
                t.profile@,
                old(data)@.subrange(
                    (i / (bytes_per_pixel(t.has_alpha) as int)) * (bytes_per_pixel(t.has_alpha) as int),
                    (i / (bytes_per_pixel(t.has_alpha) as int)) * (bytes_per_pixel(t.has_alpha) as int) + 3,
                ),
            )[i % (bytes_per_pixel(t.has_alpha) as int)]
        }),
{
    t.transform.transform_in_place(&mut data[from..to]);
}

impl ColorTransform {
    fn new(profile: &[u8], has_alpha: bool) -> (r: Result<ColorTransform, DecodeError>)
        ensures
            match r {
                Ok(t) => t.profile@ == profile@ && t.has_alpha == has_alpha && icc_usable(profile@, has_alpha),
                Err(e) => e == DecodeError::ProfileError && !icc_usable(profile@, has_alpha),
            },
    {
        match perceptual_transform(profile, has_alpha) {
            Ok(t) => Ok(t),
            Err(_) => Err(DecodeError::ProfileError),
        }
    }
}

/// Maps `data`, the channel bytes of a `width` x `height` grid, from the ICC
/// profile `profile` to sRGB, `CHUNK_PIXELS` pixels at a time. On success
/// every pixel is corrected and alpha is kept; the chunk size does not show
/// in the result. It succeeds exactly when `data` holds the grid's pixels
/// and lcms2 can use the profile; otherwise it gives `ProfileError` and
/// leaves `data` as it was.
pub fn apply_color_profile(data: &mut Vec<u8>, profile: &[u8], width: u32, height: u32, has_alpha: bool) -> (r: Result<(), DecodeError>)
    ensures
        match r {
            Ok(()) => final(data)@ == corrected_pixels(profile@, has_alpha, old(data)@),
            Err(e) => e == DecodeError::ProfileError && final(data)@ == old(data)@,
        },
        r is Ok <==> (old(data)@.len() == channel_len(width, height, has_alpha) && icc_usable(profile@, has_alpha)),
{
    let bpp: usize = if has_alpha { 4 } else { 3 };
    assert(width as nat * height as nat <= u64::MAX) by (nonlinear_arith)
        requires
            width <= u32::MAX,
            height <= u32::MAX,
    ;
    let expected: u64 = width as u64 * height as u64;
    let len = data.len();
    let pixels = len / bpp;
    if len % bpp != 0 || expected != pixels as u64 {
        proof {
            if old(data)@.len() == channel_len(width, height, has_alpha) {
                assert(len as nat == expected * bpp);
                assert(len / bpp == expected && len % bpp == 0) by (nonlinear_arith)
                    requires
                        len == expected * bpp,
                        bpp > 0,
                ;
            }
        }
        return Err(DecodeError::ProfileError);
    }
    let ct = match ColorTransform::new(profile, has_alpha) {
        Ok(t) => t,
        Err(e) => return Err(e),
    };
    let ghost input = data@;
    assert(pixels * bpp == len) by (nonlinear_arith)
        requires pixels == len / bpp, len % bpp == 0, bpp > 0;
    let mut start: usize = 0;
    while start < pixels
        invariant
            bpp == bytes_per_pixel(has_alpha),
            ct.has_alpha == has_alpha,
            ct.profile@ == profile@,
            pixels * bpp == len,
            len == input.len(),
            data@.len() == len,
            start <= pixels,
            forall|i: int| 0 <= i < start * bpp ==> #[trigger] data@[i] == corrected_byte(profile@, has_alpha, input, i),
            forall|i: int| start * bpp <= i < len ==> #[trigger] data@[i] == input[i],
        decreases pixels - start,
    {
        let end: usize = if pixels - start > CHUNK_PIXELS { start + CHUNK_PIXELS } else { pixels };
        assert(start * bpp <= end * bpp <= len) by (nonlinear_arith)
            requires start <= end <= pixels, pixels * bpp == len;
        assert((end * bpp - start * bpp) == (end - start) * bpp) by (nonlinear_arith);
        assert((start * bpp) % (bpp as int) == 0) by (nonlinear_arith) requires bpp > 0;
        assert(((end - start) * bpp) % (bpp as int) == 0) by (nonlinear_arith) requires bpp > 0;
        assert(((end - start) * bpp) / (bpp as int) == end - start) by (nonlinear_arith) requires bpp > 0;
        let ghost before = data@;
        transform_range(&ct, data, start * bpp, end * bpp);
        proof {
            assert forall|i: int| start * bpp <= i < end * bpp implies #[trigger] data@[i] == corrected_byte(profile@, has_alpha, input, i) by {
                let q = i / (bpp as int);
                assert(start <= q < end && q * bpp <= i && i < q * bpp + bpp && q * bpp + bpp <= len) by (nonlinear_arith)
                    requires start * bpp <= i < end * bpp, q == i / (bpp as int), bpp > 0, end <= pixels, pixels * bpp == len;
                assert(before.subrange(q * bpp, q * bpp + 3) =~= input.subrange(q * bpp, q * bpp + 3));
            }
        }
        start = end;
    }
    assert(data@ =~= corrected_pixels(profile@, has_alpha, input));
    Ok(())
}

} // verus!
