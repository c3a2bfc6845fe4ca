//! A decoded raster image: plain 8-bit pixels in row-major order.
//!
//! Decoding image files is a collaborator's job; the simulation only ever
//! reads pixels by coordinate, so an image is a width, a height and a flat
//! pixel array.

use vstd::prelude::*;
use crate::colour::Rgba;

verus! {

/// A decoded image. Pixel `(x, y)` sits at index `y * width + x`, with `y`
/// counted downward from the top row, as image files store it.
pub struct ImageBuf {
    width: usize,
    height: usize,
    pixels: Vec<Rgba>,
}

impl ImageBuf {
    /// The image's width in pixels.
    pub closed spec fn spec_width(self) -> int {
        self.width as int
    }

    /// The image's height in pixels.
    pub closed spec fn spec_height(self) -> int {
        self.height as int
    }

    /// The pixels in row-major order.
    pub closed spec fn view(self) -> Seq<Rgba> {
        self.pixels@
    }

    /// A usable image: both dimensions positive and one pixel per site.
    pub open spec fn wf(self) -> bool {
        &&& 0 < self.spec_width()
        &&& 0 < self.spec_height()
        &&& self.view().len() == self.spec_width() * self.spec_height()
    }

    /// The pixel at `(x, y)`.
    pub open spec fn spec_pixel(self, x: int, y: int) -> Rgba {
        self.view()[y * self.spec_width() + x]
    }

    /// Assemble an image from row-major pixels. Returns `None` when a
    /// dimension is zero or the pixel count does not match.
    pub fn from_pixels(width: usize, height: usize, pixels: Vec<Rgba>) -> (r: Option<ImageBuf>)
        requires
            width * height <= usize::MAX,
        ensures
            match r {
                Some(img) => {
                    &&& img.wf()
                    &&& img.spec_width() == width
                    &&& img.spec_height() == height
                    &&& img.view() == pixels@
                },
                None => width == 0 || height == 0 || pixels@.len() != width * height,
            },
    {
        if width == 0 || height == 0 {
            return None;
        }
        if pixels.len() != width * height {
            return None;
        }
        Some(ImageBuf { width, height, pixels })
    }

    /// The image's width in pixels.
    pub fn width(&self) -> (w: usize)
        ensures
            w == self.spec_width(),
    {
        self.width
    }

    /// The image's height in pixels.
    pub fn height(&self) -> (h: usize)
        ensures
            h == self.spec_height(),
    {
        self.height
    }

    /// Read the pixel at `(x, y)`.
    pub fn pixel(&self, x: usize, y: usize) -> (p: Rgba)
        requires
            self.wf(),
            x < self.spec_width(),
            y < self.spec_height(),
        ensures
            p == self.spec_pixel(x as int, y as int),
    {
        let n: usize = self.pixels.len();
        proof {
            assert((y as int) * (self.width as int) + x < (self.width as int) * (
            self.height as int)) by (nonlinear_arith)
                requires
                    0 <= x < (self.width as int),
                    0 <= (y as int) < (self.height as int),
            ;
            assert((y as int) * (self.width as int) + x < n);
        }
        self.pixels[y * self.width + x]
    }
}

} // verus!
