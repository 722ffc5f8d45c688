//! Pixel layouts of raw image data.

use vstd::prelude::*;

verus! {

/// The channel layout of a raw pixel buffer.
#[derive(Debug, Clone, Copy, PartialEq, Eq, Structural)]
pub enum ImageFormat {
    /// One byte per pixel: a gray level.
    Grayscale,
    /// Three bytes per pixel: red, green, blue.
    Rgb,
    /// Four bytes per pixel: red, green, blue, alpha.
    Rgba,
}

impl ImageFormat {
    /// The number of bytes that one pixel occupies in this layout.
    pub open spec fn channel_count(self) -> nat {
        match self {
            ImageFormat::Grayscale => 1,
            ImageFormat::Rgb => 3,
            ImageFormat::Rgba => 4,
        }
    }

    /// Returns the number of bytes per pixel: 1, 3 or 4.
    pub fn channels(self) -> (n: u32)
        ensures
            n == self.channel_count(),
    {
        match self {
            ImageFormat::Grayscale => 1,
            ImageFormat::Rgb => 3,
            ImageFormat::Rgba => 4,
        }
    }
}

} // verus!
