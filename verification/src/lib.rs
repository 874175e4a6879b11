//! Waveform thumbnails: a long run of audio samples drawn as a small raster
//! image, one min/max envelope per pixel column.

pub mod color;
pub mod error;
pub mod range;
pub mod raster;
pub mod render;
pub mod wave;
