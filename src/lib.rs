//! A versioned binary container format for raster images.
//!
//! Three generations of the format coexist: a bare hex-text body; a magic
//! header with flags, metadata and optional zlib compression; and a header
//! with animation frames, an embedded ICC profile and a choice of zlib,
//! brotli or zstd. `decode::decode` reads any of them and `encode::encode`
//! writes them; `format` states both byte for byte, and `laws` proves that
//! they agree.
//!
//! - `envelope`: little-endian fields and bounds-checked reads
//! - `model`: generations, encodings, errors and size rules
//! - `pixels`: channel bytes to and from binary or hex-text payloads
//! - `compression`: the four compression strategies
//! - `format`: the container model and the layout of each generation
//! - `laws`: round trip, dispatch, flag consistency and truncation safety
//! - `decode`, `encode`: the reader and the writer
//! - `metadata`: the metadata records
//! - `animation`: the frame sequencer
//! - `image`: single-image encoding and frames for display
//! - `color`: ICC profile extraction and the transform to sRGB

pub mod envelope;
pub mod model;
pub mod pixels;
pub mod compression;
pub mod format;
pub mod laws;
pub mod decode;
pub mod encode;
pub mod metadata;
pub mod animation;
pub mod image;
pub mod color;
