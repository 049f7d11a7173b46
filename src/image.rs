//! The narrow interface used by collaborators: encode a pixel grid with
//! options, take a frame of a decoded container back out as a grid, and
//! expand channels to RGBA for display.

use vstd::prelude::*;
use crate::model::{Generation, PixelEncoding, EncodeError, DecodeError, bytes_per_pixel, channel_len};
use crate::compression::CompressionAlgorithm;
use crate::format::{Container, ContainerModel, Frame, FrameModel, parse, encode_refusal, payloads_fit, profile_view, encoding_of};
use crate::encode::{encode, encode_failure};
use crate::envelope::copy_all;
use crate::color::{apply_color_profile, corrected_pixels, icc_usable};

verus! {

/// A row-major grid of 8-bit RGB or RGBA pixels, as channel bytes.
#[derive(Clone, Debug)]
pub struct PixelGrid {
    pub width: u32,
    pub height: u32,
    pub has_alpha: bool,
    pub pixels: Vec<u8>,
}

/// Everything a caller chooses when encoding a single image.
#[derive(Clone, Debug)]
pub struct EncodeOptions {
    pub generation: Generation,
    pub encoding: PixelEncoding,
    pub compression: CompressionAlgorithm,
    /// The metadata record as UTF-8 JSON (second and third generations).
    pub metadata: Vec<u8>,
    /// An ICC profile to embed (third generation).
    pub color_profile: Option<Vec<u8>>,
}

/// The loop count a single image is stored with.
pub open spec fn still_loop_count(generation: Generation) -> u32 {
    if generation == Generation::V3 { 0 } else { 1 }
}

/// The single-frame container that `encode_image` writes.
pub open spec fn still_container(grid: PixelGrid, options: EncodeOptions) -> ContainerModel {
    ContainerModel {
        generation: options.generation,
        encoding: options.encoding,
        compression: options.compression,
        width: grid.width,
        height: grid.height,
        has_alpha: grid.has_alpha,
        loop_count: still_loop_count(options.generation),
        metadata: options.metadata@,
        color_profile: profile_view(options.color_profile),
        frames: seq![FrameModel { delay_ms: 0, pixels: grid.pixels@ }],
    }
}

/// Encodes one image. It fails exactly as `encode` does on the container
/// that holds it; otherwise it writes exactly that container's encoding,
/// which decodes to it, and whose only frame is the grid's pixels.
pub fn encode_image(grid: PixelGrid, options: EncodeOptions) -> (r: Result<Vec<u8>, EncodeError>)
    ensures
        match r {
            Ok(b) => encode_refusal(still_container(grid, options)) is None
                && payloads_fit(still_container(grid, options))
                && b@ == encoding_of(still_container(grid, options))
                && parse(b@) == Ok::<ContainerModel, DecodeError>(still_container(grid, options)),
            Err(e) => encode_failure(still_container(grid, options), e),
        },
{
    let ghost model = still_container(grid, options);
    let loop_count: u32 = match options.generation {
        Generation::V3 => 0,
        _ => 1,
    };
    let mut frames: Vec<Frame> = Vec::new();
    frames.push(Frame { delay_ms: 0, pixels: grid.pixels });
    let c = Container {
        generation: options.generation,
        encoding: options.encoding,
        compression: options.compression,
        width: grid.width,
        height: grid.height,
        has_alpha: grid.has_alpha,
        loop_count,
        metadata: options.metadata,
        color_profile: options.color_profile,
        frames,
    };
    assert(c@.frames =~= model.frames);
    assert(c@ == model);
    encode(&c)
}

impl Container {
    /// Frame `index` as a pixel grid.
    pub fn frame_grid(&self, index: usize) -> (r: PixelGrid)
        requires
            index < self.frames@.len(),
        ensures
            r.width == self.width,
            r.height == self.height,
            r.has_alpha == self.has_alpha,
            r.pixels@ == self.frames@[index as int].pixels@,
    {
        PixelGrid {
            width: self.width,
            height: self.height,
            has_alpha: self.has_alpha,
            pixels: copy_all(self.frames[index].pixels.as_slice()),
        }
    }
}

/// RGBA channel bytes with the alpha byte of every pixel left out.
pub open spec fn rgb_of(rgba: Seq<u8>) -> Seq<u8> {
    Seq::new((rgba.len() / 4) * 3, |i: int| rgba[(i / 3) * 4 + i % 3])
}

impl PixelGrid {
    /// The grid without its alpha channel, as the first generation stores
    /// it; a grid without alpha is returned as it is.
    pub fn without_alpha(self) -> (r: PixelGrid)
        requires
            self.has_alpha ==> self.pixels@.len() % 4 == 0,
        ensures
            r.width == self.width,
            r.height == self.height,
            !r.has_alpha,
            r.pixels@ == if self.has_alpha { rgb_of(self.pixels@) } else { self.pixels@ },
    {
        if !self.has_alpha {
            return self;
        }
        let len = self.pixels.len();
        let count = len / 4;
        let mut out: Vec<u8> = Vec::new();
        let mut p: usize = 0;
        while p < count
            invariant
                len == self.pixels@.len(),
                count == self.pixels@.len() / 4,
                self.pixels@.len() % 4 == 0,
                p <= count,
                out@.len() == 3 * p,
                forall|i: int| 0 <= i < 3 * p ==> #[trigger] out@[i] == rgb_of(self.pixels@)[i],
            decreases count - p,
        {
            let base = 4 * p;
            out.push(self.pixels[base]);
            out.push(self.pixels[base + 1]);
            out.push(self.pixels[base + 2]);
            proof {
                assert forall|i: int| 0 <= i < 3 * (p + 1) implies #[trigger] out@[i] == rgb_of(self.pixels@)[i] by {
                    if i >= 3 * p {
                        assert(i / 3 == p as int);
                        assert(i % 3 == i - 3 * p);
                    }
                }
            }
            p = p + 1;
        }
        assert(out@ =~= rgb_of(self.pixels@));
        PixelGrid { width: self.width, height: self.height, has_alpha: false, pixels: out }
    }
}

/// Channel bytes expanded to four per pixel; without alpha, A is 255.
pub open spec fn rgba_of(channels: Seq<u8>, has_alpha: bool) -> Seq<u8> {
    let bpp = bytes_per_pixel(has_alpha) as int;
    Seq::new(
        (channels.len() / (bpp as nat)) * 4,
        |i: int| if i % 4 == 3 && !has_alpha { 255u8 } else { channels[(i / 4) * bpp + i % 4] },
    )
}

/// Expands channel bytes to RGBA, as a display wants them.
pub fn to_rgba(channels: &[u8], has_alpha: bool) -> (r: Vec<u8>)
    requires
        channels@.len() % bytes_per_pixel(has_alpha) == 0,
        channels@.len() / bytes_per_pixel(has_alpha) * 4 <= usize::MAX,
    ensures
        r@ == rgba_of(channels@, has_alpha),
{
    let bpp: usize = if has_alpha { 4 } else { 3 };
    let count = channels.len() / bpp;
    let mut out: Vec<u8> = Vec::new();
    let mut p: usize = 0;
    while p < count
        invariant
            bpp == bytes_per_pixel(has_alpha),
            count == channels@.len() / (bpp as nat),
            channels@.len() % (bpp as nat) == 0,
            count * 4 <= usize::MAX,
            p <= count,
            out@.len() == 4 * p,
            forall|i: int| 0 <= i < 4 * p ==> #[trigger] out@[i] == rgba_of(channels@, has_alpha)[i],
        decreases count - p,
    {
        assert(p * bpp + bpp <= count * bpp) by (nonlinear_arith)
            requires p < count;
        assert(count * bpp <= channels@.len()) by (nonlinear_arith)
            requires count == channels@.len() / (bpp as nat), bpp > 0;
        let base = p * bpp;
        out.push(channels[base]);
        out.push(channels[base + 1]);
        out.push(channels[base + 2]);
        if has_alpha {
            out.push(channels[base + 3]);
        } else {
            out.push(255u8);
        }
        proof {
            assert forall|i: int| 0 <= i < 4 * (p + 1) implies #[trigger] out@[i] == rgba_of(channels@, has_alpha)[i] by {
                if i >= 4 * p {
                    assert(i / 4 == p as int);
                    assert(i % 4 == i - 4 * p);
                }
            }
        }
        p = p + 1;
    }
    assert(out@ =~= rgba_of(channels@, has_alpha));
    out
}

/// A frame ready for display: RGBA bytes, and whether the embedded colour
/// profile was applied.
pub struct DisplayFrame {
    pub rgba: Vec<u8>,
    pub color_corrected: bool,
}

impl Container {
    /// Whether `display_frame` applies the embedded profile to frame
    /// `index`: the profile is there and not empty, lcms2 can use it, and the
    /// frame holds the grid's pixels.
    pub open spec fn corrects_colors(&self, index: int) -> bool {
        &&& self.color_profile is Some
        &&& self.color_profile->Some_0@.len() > 0
        &&& icc_usable(self.color_profile->Some_0@, self.has_alpha)
        &&& self.frames@[index].pixels@.len() == channel_len(self.width, self.height, self.has_alpha)
    }

    /// Frame `index` as RGBA for display. With an embedded profile the colours
    /// are first mapped to sRGB; an empty profile counts as none, and a
    /// profile that cannot be used is skipped, so the frame is shown as
    /// stored. `None` if there is no such frame or its pixels are not a whole
    /// number of pixels (or too many to expand).
    pub fn display_frame(&self, index: usize) -> (r: Option<DisplayFrame>)
        ensures
            match r {
                Some(d) => index < self.frames@.len() && d.color_corrected == self.corrects_colors(index as int)
                    && if d.color_corrected {
                    d.rgba@ == rgba_of(
                        corrected_pixels(self.color_profile->Some_0@, self.has_alpha, self.frames@[index as int].pixels@),
                        self.has_alpha,
                    )
                } else {
                    d.rgba@ == rgba_of(self.frames@[index as int].pixels@, self.has_alpha)
                },
                None => index >= self.frames@.len()
                    || self.frames@[index as int].pixels@.len() % bytes_per_pixel(self.has_alpha) != 0
                    || self.frames@[index as int].pixels@.len() / bytes_per_pixel(self.has_alpha) * 4 > usize::MAX,
            },
    {
        if index >= self.frames.len() {
            return None;
        }
        let bpp: usize = if self.has_alpha { 4 } else { 3 };
        let len = self.frames[index].pixels.len();
        if len % bpp != 0 || len / bpp > usize::MAX / 4 {
            return None;
        }
        let mut px = copy_all(self.frames[index].pixels.as_slice());
        let corrected = match &self.color_profile {
            Some(profile) => {
                if profile.len() == 0 {
                    false
                } else {
                    match apply_color_profile(&mut px, profile.as_slice(), self.width, self.height, self.has_alpha) {
                        Ok(()) => true,
                        Err(_) => false,
                    }
                }
            },
            None => false,
        };
        Some(DisplayFrame { rgba: to_rgba(px.as_slice(), self.has_alpha), color_corrected: corrected })
    }
}

} // verus!
