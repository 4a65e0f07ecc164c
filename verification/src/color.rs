use vstd::prelude::*;

verus! {

/// Color type of the image.
///
/// WBMP does not support color images. This enum indicates the layout of the
/// samples handed to the encoder.
#[derive(Debug, Clone, Copy, PartialEq, Eq, Structural)]
pub enum ColorType {
    /// Image with red, green, blue and alpha byte per pixel.
    Rgba8,
    /// Image with a single byte luminance per pixel.
    Luma8,
}

impl ColorType {
    /// Number of sample bytes that make up one pixel.
    pub open spec fn bytes_per_pixel(self) -> nat {
        match self {
            ColorType::Rgba8 => 4,
            ColorType::Luma8 => 1,
        }
    }
}

} // verus!
