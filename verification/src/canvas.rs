//! An RGBA image held as plain values: a width, a height and the pixels in
//! row-major order, each `[r, g, b, a]`.
//!
//! A canvas is well-formed (`wf`) when it holds exactly `width * height`
//! pixels; every constructor gives a well-formed canvas and every method
//! keeps it so.
//!
//! Screenshots are decoded into a `Canvas` and the click marker is drawn on
//! one; encoding to PNG and writing files is left to the caller.

use vstd::prelude::*;

verus! {

/// An RGBA image.
pub struct Canvas {
    width: u32,
    height: u32,
    pixels: Vec<[u8; 4]>,
}

/// The pixel at column `x` and row `y` of row-major pixels of a `w`-wide image.
pub open spec fn pixel_at(pixels: Seq<[u8; 4]>, w: int, x: int, y: int) -> [u8; 4] {
    pixels[y * w + x]
}

/// Row-major positions of distinct pixels are distinct and in range.
pub proof fn lemma_pixel_index(w: int, h: int, x: int, y: int, x2: int, y2: int)
    requires
        0 <= x < w,
        0 <= y < h,
        0 <= x2 < w,
        0 <= y2 < h,
    ensures
        0 <= y * w + x < w * h,
        (y * w + x == y2 * w + x2) <==> (x == x2 && y == y2),
{
    assert(0 <= y * w + x < w * h) by (nonlinear_arith)
        requires
            0 <= x < w,
            0 <= y < h,
    ;
    assert((y * w + x == y2 * w + x2) ==> (x == x2 && y == y2)) by (nonlinear_arith)
        requires
            0 <= x < w,
            0 <= x2 < w,
            0 <= y,
            0 <= y2,
    ;
}

impl Canvas {
    /// Well-formed: exactly `width * height` pixels.
    pub closed spec fn wf(self) -> bool {
        self.pixels@.len() == self.width as int * self.height as int
    }

    /// The width in pixels.
    pub closed spec fn width_of(self) -> int {
        self.width as int
    }

    /// The height in pixels.
    pub closed spec fn height_of(self) -> int {
        self.height as int
    }

    /// The pixels in row-major order.
    pub closed spec fn pixels_of(self) -> Seq<[u8; 4]> {
        self.pixels@
    }

    /// A canvas from its pixels in row-major order: `None` unless there are
    /// exactly `width * height` of them.
    pub fn from_pixels(width: u32, height: u32, pixels: Vec<[u8; 4]>) -> (res: Option<Canvas>)
        ensures
            res is Some <==> pixels@.len() == width as int * height as int,
            res matches Some(c) ==> c.wf() && c.width_of() == width && c.height_of() == height
                && c.pixels_of() == pixels@,
    {
        let ok: bool = match (width as usize).checked_mul(height as usize) {
            Some(n) => pixels.len() == n,
            None => false,
        };
        proof {
            assert(pixels@.len() == pixels.len());
            if pixels@.len() == width as int * height as int {
                assert(width as int * height as int <= usize::MAX);
            }
        }
        if ok {
            Some(Canvas { width, height, pixels })
        } else {
            None
        }
    }

    /// The width in pixels.
    pub fn width(&self) -> (w: u32)
        requires
            self.wf(),
        ensures
            w == self.width_of(),
            self.pixels_of().len() == self.width_of() * self.height_of(),
    {
        self.width
    }

    /// The height in pixels.
    pub fn height(&self) -> (h: u32)
        requires
            self.wf(),
        ensures
            h == self.height_of(),
            self.pixels_of().len() == self.width_of() * self.height_of(),
    {
        self.height
    }

    /// The pixel at column `x` and row `y`.
    pub fn get_pixel(&self, x: u32, y: u32) -> (p: [u8; 4])
        requires
            self.wf(),
            x < self.width_of(),
            y < self.height_of(),
        ensures
            p == pixel_at(self.pixels_of(), self.width_of(), x as int, y as int),
    {
        proof {
            lemma_pixel_index(self.width as int, self.height as int, x as int, y as int, 0, 0);
            assert(self.pixels@.len() == self.pixels.len());
            assert((y as int) * (self.width as int) <= (y as int) * (self.width as int) + x);
        }
        self.pixels[(y as usize) * (self.width as usize) + (x as usize)]
    }

    /// Sets the pixel at column `x` and row `y`; every other pixel stays.
    pub fn put_pixel(&mut self, x: u32, y: u32, p: [u8; 4])
        requires
            old(self).wf(),
            x < old(self).width_of(),
            y < old(self).height_of(),
        ensures
            final(self).wf(),
            final(self).width_of() == old(self).width_of(),
            final(self).height_of() == old(self).height_of(),
            final(self).pixels_of().len() == old(self).pixels_of().len(),
            forall|xx: int, yy: int|
                0 <= xx < old(self).width_of() && 0 <= yy < old(self).height_of() ==> #[trigger] pixel_at(
                    final(self).pixels_of(),
                    old(self).width_of(),
                    xx,
                    yy,
                ) == if xx == x && yy == y {
                    p
                } else {
                    pixel_at(old(self).pixels_of(), old(self).width_of(), xx, yy)
                },
    {
        let ghost w = self.width as int;
        let ghost h = self.height as int;
        proof {
            lemma_pixel_index(w, h, x as int, y as int, 0, 0);
            assert(self.pixels@.len() == self.pixels.len());
        }
        let i: usize = (y as usize) * (self.width as usize) + (x as usize);
        self.pixels.set(i, p);
        proof {
            assert forall|xx: int, yy: int| 0 <= xx < w && 0 <= yy < h implies #[trigger] pixel_at(
                self.pixels@,
                w,
                xx,
                yy,
            ) == if xx == x && yy == y {
                p
            } else {
                pixel_at(old(self).pixels@, w, xx, yy)
            } by {
                lemma_pixel_index(w, h, xx, yy, x as int, y as int);
            }
        }
    }

    /// The pixels in row-major order.
    pub fn into_pixels(self) -> (res: Vec<[u8; 4]>)
        requires
            self.wf(),
        ensures
            res@ == self.pixels_of(),
            res@.len() == self.width_of() * self.height_of(),
    {
        self.pixels
    }
}

} // verus!
