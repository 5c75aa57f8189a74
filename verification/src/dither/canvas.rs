//! An image in memory: a colour for every pixel, and a noise value for
//! every pixel where the picture is dithered with noise.

use vstd::prelude::*;
use crate::barycentric::vector::Point3;
use crate::dither::diffuse::{ImageReader, ImageSize, ImageWriter};

verus! {

/// The place of the pixel `(x, y)` in a row-major buffer.
pub open spec fn pixel_index(width: int, x: int, y: int) -> int {
    x + y * width
}

/// Inside the image, every pixel has a place of its own in the buffer.
pub proof fn lemma_pixel_index(width: int, height: int, x: int, y: int, i: int, j: int)
    requires
        0 <= x < width,
        0 <= y < height,
        0 <= i < width,
        0 <= j < height,
    ensures
        0 <= pixel_index(width, x, y) < width * height,
        pixel_index(width, x, y) == pixel_index(width, i, j) ==> x == i && y == j,
{
    assert(0 <= y * width && y * width + width <= height * width && height * width == width
        * height) by (nonlinear_arith)
        requires
            0 <= y < height,
            0 < width,
    ;
    if y < j {
        assert(y * width + width <= j * width) by (nonlinear_arith)
            requires
                y < j,
                0 < width,
        ;
    } else if j < y {
        assert(j * width + width <= y * width) by (nonlinear_arith)
            requires
                j < y,
                0 < width,
        ;
    }
}

/// A picture of `width` by `height` pixels, row by row.
pub struct Canvas {
    width: usize,
    height: usize,
    pixels: Vec<Point3>,
    noise: Vec<Option<u64>>,
}

impl Canvas {
    #[verifier::type_invariant]
    spec fn well_formed(&self) -> bool {
        &&& self.pixels.len() == self.width * self.height
        &&& self.noise.len() == self.width * self.height
    }

    /// The colours, row by row.
    pub closed spec fn colors(&self) -> Seq<Point3> {
        self.pixels@
    }

    /// The noise values, row by row.
    pub closed spec fn noise_values(&self) -> Seq<Option<u64>> {
        self.noise@
    }

    /// The width and the height.
    pub closed spec fn size(&self) -> (usize, usize) {
        (self.width, self.height)
    }

    /// The canvas with the given pixels and noise values, if there is one
    /// of each for every pixel.
    pub fn new(width: usize, height: usize, pixels: Vec<Point3>, noise: Vec<Option<u64>>) -> (r:
        Option<Canvas>)
        ensures
            r is Some <==> pixels.len() == width * height && noise.len() == width * height,
            r matches Some(c) ==> {
                &&& c.size() == (width, height)
                &&& c.colors() == pixels@
                &&& c.noise_values() == noise@
                &&& c.spec_width() == width
                &&& c.spec_height() == height
                &&& forall|x: usize, y: usize|
                    x < width && y < height ==> #[trigger] c.spec_pixel(x, y) == (
                        pixels[pixel_index(width as int, x as int, y as int)],
                        noise[pixel_index(width as int, x as int, y as int)],
                    )
            },
    {
        match width.checked_mul(height) {
            Some(count) => {
                if pixels.len() == count && noise.len() == count {
                    Some(Canvas { width, height, pixels, noise })
                } else {
                    None
                }
            },
            None => None,
        }
    }

    /// Whether every colour of the canvas is within range.
    pub fn colors_within_range(&self) -> (r: bool)
        ensures
            r == forall|x: usize, y: usize|
                x < self.spec_width() && y < self.spec_height() ==> (#[trigger] self.spec_pixel(
                    x,
                    y,
                )).0.wf(),
    {
        proof {
            use_type_invariant(self);
        }
        let mut k: usize = 0;
        while k < self.pixels.len()
            invariant
                k <= self.pixels.len(),
                self.pixels.len() == self.width * self.height,
                self.noise.len() == self.width * self.height,
                forall|i: int| 0 <= i < k ==> (#[trigger] self.pixels[i]).wf(),
            decreases self.pixels.len() - k,
        {
            if !(self.pixels[k].x <= crate::barycentric::vector::CHANNEL_MAX && self.pixels[k].y
                <= crate::barycentric::vector::CHANNEL_MAX && self.pixels[k].z
                <= crate::barycentric::vector::CHANNEL_MAX) {
                proof {
                    // the pixel at the place k is one of the image
                    let w = self.width as int;
                    let h = self.height as int;
                    assert(w > 0 && h > 0) by (nonlinear_arith)
                        requires
                            0 <= k < w * h,
                            0 <= w,
                            0 <= h,
                    ;
                    let x = k as int % w;
                    let y = k as int / w;
                    assert(k == x + y * w && 0 <= x < w && 0 <= y < h) by (nonlinear_arith)
                        requires
                            0 <= k < w * h,
                            w > 0,
                            x == k as int % w,
                            y == k as int / w,
                    ;
                    assert(!self.spec_pixel(x as usize, y as usize).0.wf());
                }
                return false;
            }
            k += 1;
        }
        proof {
            assert forall|x: usize, y: usize|
                x < self.spec_width() && y < self.spec_height() implies (#[trigger] self.spec_pixel(
                x,
                y,
            )).0.wf() by {
                lemma_pixel_index(
                    self.width as int,
                    self.height as int,
                    x as int,
                    y as int,
                    x as int,
                    y as int,
                );
            }
        }
        true
    }

    /// The colours of the pixels, row by row.
    pub fn into_pixels(self) -> (r: Vec<Point3>)
        ensures
            r@ == self.colors(),
            r.len() == self.spec_width() * self.spec_height(),
            forall|x: usize, y: usize|
                x < self.spec_width() && y < self.spec_height() ==> r[pixel_index(
                    self.spec_width() as int,
                    x as int,
                    y as int,
                )] == #[trigger] self.spec_output(x, y),
    {
        proof {
            use_type_invariant(&self);
        }
        self.pixels
    }
}

impl ImageSize for Canvas {
    closed spec fn spec_width(&self) -> usize {
        self.width
    }

    closed spec fn spec_height(&self) -> usize {
        self.height
    }

    closed spec fn unchanged_except(&self, later: &Self, x: usize, y: usize) -> bool {
        &&& self.well_formed()
        &&& later.well_formed()
        &&& later.width == self.width
        &&& later.height == self.height
        &&& later.noise@ == self.noise@
        &&& later.pixels.len() == self.pixels.len()
        &&& forall|k: int|
            0 <= k < self.pixels.len() && k != pixel_index(self.width as int, x as int, y as int)
                ==> #[trigger] later.pixels[k] == self.pixels[k]
    }

    fn width(&self) -> (w: usize) {
        self.width
    }

    fn height(&self) -> (h: usize) {
        self.height
    }
}

impl ImageReader<(Point3, Option<u64>)> for Canvas {
    closed spec fn spec_pixel(&self, x: usize, y: usize) -> (Point3, Option<u64>) {
        (
            self.pixels[pixel_index(self.width as int, x as int, y as int)],
            self.noise[pixel_index(self.width as int, x as int, y as int)],
        )
    }

    proof fn lemma_read_unchanged(&self, later: &Self, x: usize, y: usize, i: usize, j: usize) {
        lemma_pixel_index(
            self.width as int,
            self.height as int,
            i as int,
            j as int,
            x as int,
            y as int,
        );
    }

    fn get_pixel(&self, x: usize, y: usize) -> (p: (Point3, Option<u64>)) {
        proof {
            use_type_invariant(self);
            lemma_pixel_index(
                self.width as int,
                self.height as int,
                x as int,
                y as int,
                x as int,
                y as int,
            );
            assert(0 <= y * self.width) by (nonlinear_arith)
                requires
                    0 <= y,
                    0 <= self.width,
            ;
        }
        let k: usize = x + y * self.width;
        (self.pixels[k], self.noise[k])
    }
}

impl ImageWriter<Point3> for Canvas {
    closed spec fn spec_output(&self, x: usize, y: usize) -> Point3 {
        self.pixels[pixel_index(self.width as int, x as int, y as int)]
    }

    proof fn lemma_output_unchanged(&self, later: &Self, x: usize, y: usize, i: usize, j: usize) {
        lemma_pixel_index(
            self.width as int,
            self.height as int,
            i as int,
            j as int,
            x as int,
            y as int,
        );
    }

    fn put_pixel(&mut self, x: usize, y: usize, pixel: Point3) {
        proof {
            use_type_invariant(&*self);
            lemma_pixel_index(
                self.width as int,
                self.height as int,
                x as int,
                y as int,
                x as int,
                y as int,
            );
            assert(0 <= y * self.width) by (nonlinear_arith)
                requires
                    0 <= y,
                    0 <= self.width,
            ;
        }
        let k: usize = x + y * self.width;
        // The buffer cannot be borrowed out of the canvas while the canvas
        // has to stay well formed, so the canvas is taken apart and put
        // together again.
        let mut taken = Canvas { width: 0, height: 0, pixels: Vec::new(), noise: Vec::new() };
        core::mem::swap(self, &mut taken);
        let Canvas { width, height, mut pixels, noise } = taken;
        pixels.set(k, pixel);
        *self = Canvas { width, height, pixels, noise };
    }
}

} // verus!
