//! The in-memory image model: a row-major grid of RGBA samples.

use vstd::prelude::*;

verus! {

/// One RGBA sample. An alpha of zero means fully transparent; any other
/// alpha counts as opaque.
#[derive(Clone, Copy, PartialEq, Eq, Structural, Debug)]
pub struct Pixel {
    pub r: u8,
    pub g: u8,
    pub b: u8,
    pub a: u8,
}

impl Pixel {
    /// A pixel takes part in rendering and trimming exactly when its alpha
    /// is non-zero.
    pub open spec fn opaque(self) -> bool {
        self.a != 0
    }
}

/// A width x height grid of pixels, stored row-major: the pixel at
/// column `x`, row `y` sits at index `y * width + x`.
pub struct Image {
    pub width: usize,
    pub height: usize,
    pub pixels: Vec<Pixel>,
}

impl Image {
    /// Well-formed: the storage holds exactly one pixel per grid cell.
    pub open spec fn wf(self) -> bool {
        self.pixels@.len() == self.width * self.height
    }

    /// The pixel at column `x`, row `y`.
    pub open spec fn pix(self, x: int, y: int) -> Pixel {
        self.pixels@[y * self.width + x]
    }

    pub open spec fn in_bounds(self, x: int, y: int) -> bool {
        0 <= x < self.width && 0 <= y < self.height
    }

    /// There is an opaque pixel at (x, y).
    pub open spec fn opaque_at(self, x: int, y: int) -> bool {
        self.in_bounds(x, y) && self.pix(x, y).opaque()
    }

    /// Some pixel of the image is opaque.
    pub open spec fn has_opaque(self) -> bool {
        exists|x: int, y: int| self.opaque_at(x, y)
    }

    /// Row `y` holds at least one opaque pixel.
    pub open spec fn row_has_opaque(self, y: int) -> bool {
        exists|x: int| self.opaque_at(x, y)
    }

    /// Column `x` holds at least one opaque pixel.
    pub open spec fn col_has_opaque(self, x: int) -> bool {
        exists|y: int| self.opaque_at(x, y)
    }

    /// Builds an image from its dimensions and row-major pixel data;
    /// rejects data whose length does not match the grid.
    pub fn new(width: usize, height: usize, pixels: Vec<Pixel>) -> (r: Option<Image>)
        ensures
            match r {
                Some(img) => {
                    &&& img.width == width
                    &&& img.height == height
                    &&& img.pixels == pixels
                    &&& img.wf()
                },
                None => pixels@.len() != width * height,
            },
    {
        let len = pixels.len();
        match width.checked_mul(height) {
            Some(n) if n == len => Some(Image { width, height, pixels }),
            _ => None,
        }
    }

    /// Reads the pixel at column `x`, row `y`.
    pub fn get_pixel(&self, x: usize, y: usize) -> (p: Pixel)
        requires
            self.wf(),
            x < self.width,
            y < self.height,
        ensures
            p == self.pix(x as int, y as int),
    {
        let n = self.pixels.len();
        proof {
            lemma_row_major_index(self.width as int, self.height as int, x as int, y as int);
            assert(y * self.width + x < n);
        }
        self.pixels[y * self.width + x]
    }
}

/// The row-major index of an in-bounds cell lies below width * height.
pub proof fn lemma_row_major_index(width: int, height: int, x: int, y: int)
    requires
        0 <= x < width,
        0 <= y < height,
    ensures
        0 <= y * width + x < width * height,
{
    assert(0 <= y * width + x < width * height) by (nonlinear_arith)
        requires
            0 <= x < width,
            0 <= y < height,
    ;
}

} // verus!
