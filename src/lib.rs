//! Conversion of interleaved RGB pixel buffers (any stride of at least three
//! bytes, red, green and blue first) to 8-bit, full-swing YUV 4:2:0, in planar
//! (YUV420p) or semi-planar (NV12) layout.
//!
//! Luma is computed for every pixel; chroma is point-sampled at the pixels of
//! even row and even column, one sample per 2x2 block.

pub mod color;
pub mod convert;
pub mod laws;

pub use color::clamp;
pub use convert::{
    convert_rgb_to_yuv420,
    convert_rgb_to_yuv420p,
    convert_rgb_to_yuv420sp_nv12,
    ChromaLayout,
};
