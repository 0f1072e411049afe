//! The in-memory pixel buffer that rendering fills.

use crate::color::Color;
use vstd::prelude::*;

verus! {

/// A two-dimensional buffer of RGB pixels, stored row-major in a flat
/// vector: the pixel at `(x, y)` sits at index `y * width + x`. This is the
/// renderer's output; turning it into an encoded image file is the business
/// of an outside collaborator.
pub struct PixelBuffer {
    pub width: usize,
    pub height: usize,
    pub pixels: Vec<Color>,
}

impl PixelBuffer {
    pub open spec fn spec_width(self) -> int {
        self.width as int
    }

    pub open spec fn spec_height(self) -> int {
        self.height as int
    }

    /// Whether `(x, y)` addresses a pixel of this buffer.
    pub open spec fn in_bounds(self, x: int, y: int) -> bool {
        0 <= x < self.spec_width() && 0 <= y < self.spec_height()
    }

    /// The pixel at `(x, y)`.
    pub open spec fn pixel_at(self, x: int, y: int) -> Color {
        self.pixels@[y * self.spec_width() + x]
    }

    /// Well-formedness: positive extents small enough for flat indexing and
    /// a pixel for every coordinate pair.
    pub open spec fn wf(self) -> bool {
        &&& self.width >= 1
        &&& self.height >= 1
        &&& self.spec_width() * self.spec_height() <= usize::MAX
        &&& self.pixels@.len() == self.spec_width() * self.spec_height()
    }

    /// Builds a buffer of the given extents with every pixel set to `fill`.
    pub fn new(width: usize, height: usize, fill: Color) -> (b: PixelBuffer)
        requires
            width >= 1,
            height >= 1,
            width * height <= usize::MAX,
        ensures
            b.wf(),
            b.spec_width() == width,
            b.spec_height() == height,
            forall|x: int, y: int| b.in_bounds(x, y) ==> #[trigger] b.pixel_at(x, y) == fill,
    {
        let count = width * height;
        let mut pixels: Vec<Color> = Vec::new();
        let mut i: usize = 0;
        while i < count
            invariant
                i <= count,
                pixels@.len() == i,
                forall|j: int| 0 <= j < i ==> #[trigger] pixels@[j] == fill,
            decreases count - i,
        {
            pixels.push(fill);
            i = i + 1;
        }
        let b = PixelBuffer { width, height, pixels };
        proof {
            assert forall|x: int, y: int| b.in_bounds(x, y) implies #[trigger] b.pixel_at(x, y)
                == fill by {
                crate::grid::lemma_row_major_bounds(width as int, height as int, x, y);
            }
        }
        b
    }

    /// The number of pixel columns.
    pub fn width(&self) -> (w: usize)
        ensures
            w == self.spec_width(),
    {
        self.width
    }

    /// The number of pixel rows.
    pub fn height(&self) -> (h: usize)
        ensures
            h == self.spec_height(),
    {
        self.height
    }

    /// The pixel at `(x, y)`.
    pub fn get(&self, x: usize, y: usize) -> (c: Color)
        requires
            self.wf(),
            self.in_bounds(x as int, y as int),
        ensures
            c == self.pixel_at(x as int, y as int),
    {
        proof {
            crate::grid::lemma_row_major_bounds(
                self.spec_width(),
                self.spec_height(),
                x as int,
                y as int,
            );
        }
        self.pixels[y * self.width + x]
    }

    /// Sets the pixel at `(x, y)` to `c`, leaving every other pixel and the
    /// extents unchanged.
    pub fn set(&mut self, x: usize, y: usize, c: Color)
        requires
            old(self).wf(),
            old(self).in_bounds(x as int, y as int),
        ensures
            final(self).wf(),
            final(self).spec_width() == old(self).spec_width(),
            final(self).spec_height() == old(self).spec_height(),
            final(self).pixel_at(x as int, y as int) == c,
            forall|a: int, b: int|
                old(self).in_bounds(a, b) && !(a == x && b == y) ==> (
                #[trigger] final(self).pixel_at(a, b)) == old(self).pixel_at(a, b),
    {
        proof {
            crate::grid::lemma_row_major_bounds(
                self.spec_width(),
                self.spec_height(),
                x as int,
                y as int,
            );
        }
        let idx = y * self.width + x;
        self.pixels[idx] = c;
        proof {
            let w = self.spec_width();
            let h = self.spec_height();
            assert forall|a: int, b: int|
                old(self).in_bounds(a, b) && !(a == x && b == y) implies (#[trigger] self.pixel_at(
                a,
                b,
            )) == old(self).pixel_at(a, b) by {
                crate::grid::lemma_row_major_bounds(w, h, a, b);
                crate::grid::lemma_row_major_injective(w, a, b, x as int, y as int);
            }
        }
    }

    /// The flat row-major sequence of pixels: the pixel at `(x, y)` sits at
    /// index `y * width + x`.
    pub fn pixels(&self) -> (r: &Vec<Color>)
        ensures
            r@ == self.pixels@,
    {
        &self.pixels
    }
}

} // verus!
