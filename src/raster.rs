//! Decoded pixel data, held as plain RGB bytes.
use vstd::prelude::*;

verus! {

/// The largest width or height of a raster that the search takes.
pub const MAX_SIDE: u32 = 16777216;

/// One RGB color.
#[derive(Clone, Copy, PartialEq, Eq, Structural, Debug)]
pub struct Rgb {
    pub r: u8,
    pub g: u8,
    pub b: u8,
}

/// A decoded image: `width * height` pixels, three bytes each, row by row.
///
/// `source_id` names the source photograph; it stays the same for every
/// resolution of that photograph, so a tier can find its counterpart in the
/// previous one.
#[derive(Clone, Debug)]
pub struct Raster {
    pub source_id: u64,
    pub path: String,
    pub width: u32,
    pub height: u32,
    pub data: Vec<u8>,
}

impl Raster {
    /// The data holds exactly three bytes per pixel, and the sides are in
    /// the range that the search takes.
    pub open spec fn wf(&self) -> bool {
        &&& self.data@.len() == self.width * self.height * 3
        &&& 0 < self.width <= MAX_SIDE
        &&& 0 < self.height <= MAX_SIDE
    }

    /// The color at column `x`, row `y`.
    pub open spec fn pixel_spec(&self, x: int, y: int) -> Rgb {
        let i = (y * self.width + x) * 3;
        Rgb { r: self.data@[i], g: self.data@[i + 1], b: self.data@[i + 2] }
    }

    /// Checks `wf`.
    pub fn is_wf(&self) -> (r: bool)
        ensures
            r == self.wf(),
    {
        if self.width == 0 || self.width > MAX_SIDE || self.height == 0 || self.height > MAX_SIDE {
            return false;
        }
        assert(self.width * self.height <= 281474976710656) by (nonlinear_arith)
            requires
                self.width <= 16777216,
                self.height <= 16777216,
        ;
        let area: u64 = (self.width as u64) * (self.height as u64);
        (self.data.len() as u64) / 3 == area && (self.data.len() as u64) % 3 == 0
    }

    /// The color at column `x`, row `y`.
    pub fn pixel(&self, x: u32, y: u32) -> (r: Rgb)
        requires
            self.wf(),
            x < self.width,
            y < self.height,
        ensures
            r == self.pixel_spec(x as int, y as int),
    {
        let len: usize = self.data.len();
        proof {
            lemma_pixel_index(x as int, y as int, self.width as int, self.height as int);
            assert((y * self.width + x) * 3 + 2 < len);
        }
        let i: usize = ((y as usize) * (self.width as usize) + (x as usize)) * 3;
        Rgb { r: self.data[i], g: self.data[i + 1], b: self.data[i + 2] }
    }
}

proof fn lemma_pixel_index(x: int, y: int, w: int, h: int)
    requires
        0 <= x < w,
        0 <= y < h,
    ensures
        0 <= y * w + x,
        (y * w + x) * 3 + 2 < w * h * 3,
        y * w <= w * h,
{
    assert(y * w + x < w * h) by (nonlinear_arith)
        requires
            0 <= x < w,
            0 <= y < h,
    {
        assert(y * w + x < y * w + w);
        assert((y + 1) * w <= h * w);
    }
    assert(0 <= y * w) by (nonlinear_arith)
        requires
            0 <= y,
            0 <= x < w,
    ;
    assert(y * w <= w * h) by (nonlinear_arith)
        requires
            0 <= y < h,
            0 < w,
    ;
}

} // verus!
