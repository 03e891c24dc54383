//! An open high-resolution audio delivery pipeline built on open formats.
//!
//! - [`wav`]: linear PCM WAV (16/24/32 bit; EXTENSIBLE for 3+ channels or 32 bits) reading and writing,
//!   and DoP frames carried as 24-bit WAV.
//! - [`codec`]: choice of output format (WAV by default, FLAC selectable), recognition of
//!   the container by its magic bytes, and DoP storage.
//! - [`text`]: decimal numbers in messages.
//! - [`dop`]: DSD-over-PCM marker and frame packing.
//! - [`dsd_modulate`]: the bit layout of a 1-bit DSD stream in bytes.
//! - [`flac`]: FLAC encoding and decoding through `flacenc` and `claxon`.
//! - [`opus`]: the integer side of Ogg Opus encoding (input checks, packet layout).

pub mod dop;
pub mod dsd_modulate;
pub mod codec;
pub mod wav;
pub mod flac;
pub mod opus;
pub mod text;
