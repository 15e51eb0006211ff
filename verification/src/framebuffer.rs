//! The frame-buffer capability: geometry plus bounds-checked and unchecked
//! pixel access over a flat, row-major pixel store.
//!
//! The `Bitmap` trait is the interface the rasterizer draws through, so a
//! second backend (say, an off-screen buffer for double-buffering) can reuse
//! the rasterizer unchanged. `VramBufferInfo` is the one backend provided
//! here: an owned canvas built from the geometry the graphics protocol
//! reports.

use vstd::arithmetic::mul::{lemma_mul_inequality, lemma_mul_is_distributive_sub_other_way};
use vstd::prelude::*;

verus! {

/// The mathematical geometry of a drawable surface: visible width, height,
/// and the stride between row starts, all in pixel slots.
pub struct Geometry {
    /// Visible pixels per row.
    pub width: int,
    /// Number of rows.
    pub height: int,
    /// Pixel slots between the starts of consecutive rows; may exceed the
    /// visible width.
    pub pixels_per_line: int,
}

impl Geometry {
    /// Whether `x` is a drawable column: inside both the visible width and
    /// the scan line, so that addressing stays inside the backing store
    /// even when the stride and the width disagree.
    pub open spec fn in_x_range(self, x: int) -> bool {
        0 <= x < vstd::math::min(self.width, self.pixels_per_line)
    }

    /// Whether `y` is a drawable row.
    pub open spec fn in_y_range(self, y: int) -> bool {
        0 <= y < self.height
    }

    /// Whether `(x, y)` is a drawable pixel.
    pub open spec fn in_range(self, x: int, y: int) -> bool {
        self.in_x_range(x) && self.in_y_range(y)
    }

    /// The flat index of pixel `(x, y)` in the row-major store.
    pub open spec fn pixel_index(self, x: int, y: int) -> int {
        y * self.pixels_per_line + x
    }

    /// Non-negative dimensions that fit the signed word the getters return.
    pub open spec fn wf(self) -> bool {
        &&& 0 <= self.width <= i64::MAX
        &&& 0 <= self.height <= i64::MAX
        &&& 0 <= self.pixels_per_line <= i64::MAX
    }
}

/// A drawable surface: a row-major grid of 32-bit pixels, `height` rows of
/// `pixels_per_line` slots each, of which the first `width` are visible.
pub trait Bitmap: Sized {
    /// The surface's geometry.
    spec fn geom(&self) -> Geometry;

    /// The backing pixel store, row-major.
    spec fn pixels(&self) -> Seq<u32>;

    /// The surface's internal invariant.
    spec fn wf(&self) -> bool;

    /// A well-formed surface has well-formed geometry and a store of
    /// exactly `height * pixels_per_line` pixels.
    proof fn wf_properties(&self)
        requires
            self.wf(),
        ensures
            self.geom().wf(),
            self.pixels().len() == self.geom().height * self.geom().pixels_per_line,
    ;

    /// Bytes per pixel slot; this layer is fixed to 32-bit pixels.
    fn bytes_per_pixel(&self) -> (r: i64)
        ensures
            r == 4,
    ;

    /// Visible pixels per row.
    fn width(&self) -> (r: i64)
        requires
            self.wf(),
        ensures
            r == self.geom().width,
    ;

    /// Number of rows.
    fn height(&self) -> (r: i64)
        requires
            self.wf(),
        ensures
            r == self.geom().height,
    ;

    /// The stride, in pixel slots.
    fn pixels_per_line(&self) -> (r: i64)
        requires
            self.wf(),
        ensures
            r == self.geom().pixels_per_line,
    ;

    /// Write one pixel without a range check; the caller has already
    /// proved `(x, y)` drawable, typically once for a whole region.
    fn unchecked_write_pixel(&mut self, x: i64, y: i64, color: u32)
        requires
            old(self).wf(),
            old(self).geom().in_range(x as int, y as int),
        ensures
            final(self).wf(),
            final(self).geom() == old(self).geom(),
            final(self).pixels() == old(self).pixels().update(
                old(self).geom().pixel_index(x as int, y as int),
                color,
            ),
    ;

    /// Read one pixel without a range check.
    fn unchecked_read_pixel(&self, x: i64, y: i64) -> (c: u32)
        requires
            self.wf(),
            self.geom().in_range(x as int, y as int),
        ensures
            c == self.pixels()[self.geom().pixel_index(x as int, y as int)],
    ;

    /// Whether `x` is a drawable column.
    fn is_in_x_range(&self, x: i64) -> (r: bool)
        requires
            self.wf(),
        ensures
            r == self.geom().in_x_range(x as int),
    {
        let w: i64 = self.width();
        let p: i64 = self.pixels_per_line();
        0 <= x && x < (if w < p { w } else { p })
    }

    /// Whether `y` is a drawable row.
    fn is_in_y_range(&self, y: i64) -> (r: bool)
        requires
            self.wf(),
        ensures
            r == self.geom().in_y_range(y as int),
    {
        0 <= y && y < self.height()
    }

    /// Bounds-checked read: the pixel at `(x, y)`, or `None` outside the
    /// drawable range.
    fn pixel_at(&self, x: i64, y: i64) -> (r: Option<u32>)
        requires
            self.wf(),
        ensures
            r == if self.geom().in_range(x as int, y as int) {
                Some(self.pixels()[self.geom().pixel_index(x as int, y as int)])
            } else {
                None::<u32>
            },
    {
        if self.is_in_x_range(x) && self.is_in_y_range(y) {
            Some(self.unchecked_read_pixel(x, y))
        } else {
            None
        }
    }
}

/// A drawable pixel's flat index lies inside the store.
pub proof fn lemma_pixel_index_in_bounds(height: int, ppl: int, x: int, y: int)
    requires
        0 <= x < ppl,
        0 <= y < height,
    ensures
        0 <= y * ppl + x < height * ppl,
{
    lemma_mul_inequality(y, height - 1, ppl);
    lemma_mul_is_distributive_sub_other_way(ppl, height, 1);
    assert(y * ppl >= 0) by (nonlinear_arith)
        requires
            y >= 0,
            ppl > 0,
    ;
}

/// Distinct drawable pixels have distinct flat indices.
pub proof fn lemma_pixel_index_injective(ppl: int, x1: int, y1: int, x2: int, y2: int)
    requires
        0 <= x1 < ppl,
        0 <= x2 < ppl,
        0 <= y1,
        0 <= y2,
        !(x1 == x2 && y1 == y2),
    ensures
        y1 * ppl + x1 != y2 * ppl + x2,
{
    assert(y1 * ppl + x1 != y2 * ppl + x2) by (nonlinear_arith)
        requires
            0 <= x1 < ppl,
            0 <= x2 < ppl,
            0 <= y1,
            0 <= y2,
            !(x1 == x2 && y1 == y2),
    ;
}

/// The frame buffer the graphics protocol reports: visible geometry, the
/// scan-line stride, and the pixel store itself.
pub struct VramBufferInfo {
    /// Visible pixels per row.
    pub width: i64,
    /// Number of rows.
    pub height: i64,
    /// Pixel slots between the starts of consecutive rows.
    pub pixels_per_line: i64,
    /// The pixel store, row-major, `height * pixels_per_line` slots.
    pub buffer: Vec<u32>,
}

impl Bitmap for VramBufferInfo {
    open spec fn geom(&self) -> Geometry {
        Geometry {
            width: self.width as int,
            height: self.height as int,
            pixels_per_line: self.pixels_per_line as int,
        }
    }

    open spec fn pixels(&self) -> Seq<u32> {
        self.buffer@
    }

    open spec fn wf(&self) -> bool {
        &&& 0 <= self.width
        &&& 0 <= self.height
        &&& 0 <= self.pixels_per_line
        &&& self.buffer@.len() == self.height * self.pixels_per_line
    }

    proof fn wf_properties(&self) {
    }

    fn bytes_per_pixel(&self) -> (r: i64) {
        4
    }

    fn width(&self) -> (r: i64) {
        self.width
    }

    fn height(&self) -> (r: i64) {
        self.height
    }

    fn pixels_per_line(&self) -> (r: i64) {
        self.pixels_per_line
    }

    fn unchecked_write_pixel(&mut self, x: i64, y: i64, color: u32) {
        let n: usize = self.buffer.len();
        proof {
            let h = self.height as int;
            let p = self.pixels_per_line as int;
            lemma_pixel_index_in_bounds(h, p, x as int, y as int);
            assert(h * 1 <= h * p && p * 1 <= p * h && p * h == h * p) by (nonlinear_arith)
                requires
                    1 <= h,
                    1 <= p,
            ;
        }
        let idx: usize = (y as usize) * (self.pixels_per_line as usize) + (x as usize);
        self.buffer[idx] = color;
    }

    fn unchecked_read_pixel(&self, x: i64, y: i64) -> (c: u32) {
        let n: usize = self.buffer.len();
        proof {
            let h = self.height as int;
            let p = self.pixels_per_line as int;
            lemma_pixel_index_in_bounds(h, p, x as int, y as int);
            assert(h * 1 <= h * p && p * 1 <= p * h && p * h == h * p) by (nonlinear_arith)
                requires
                    1 <= h,
                    1 <= p,
            ;
        }
        let idx: usize = (y as usize) * (self.pixels_per_line as usize) + (x as usize);
        self.buffer[idx]
    }
}

/// Pack a pixel color word: bits 0 to 23 hold RGB with red in the
/// highest of the three color bytes; the top byte is left clear and the
/// hardware ignores it.
pub fn rgb(red: u8, green: u8, blue: u8) -> (c: u32)
    ensures
        c == 0x1_0000 * red + 0x100 * green + blue,
{
    0x1_0000 * (red as u32) + 0x100 * (green as u32) + (blue as u32)
}

/// Build the frame-buffer capability from the geometry the graphics
/// protocol's mode reports, with every pixel cleared.
///
/// The product bound is a machine limit: the store holds one 32-bit word
/// per pixel slot and its length must fit an address.
pub fn init_vram(
    horizontal_resolution: u32,
    vertical_resolution: u32,
    pixels_per_scan_line: u32,
) -> (r: VramBufferInfo)
    requires
        vertical_resolution * pixels_per_scan_line <= usize::MAX,
    ensures
        r.wf(),
        r.geom() == (Geometry {
            width: horizontal_resolution as int,
            height: vertical_resolution as int,
            pixels_per_line: pixels_per_scan_line as int,
        }),
        r.pixels() == Seq::new((vertical_resolution * pixels_per_scan_line) as nat, |i: int| 0u32),
{
    let total: usize = (vertical_resolution as usize) * (pixels_per_scan_line as usize);
    let mut buffer: Vec<u32> = Vec::new();
    while buffer.len() < total
        invariant
            buffer@.len() <= total,
            buffer@ == Seq::new(buffer@.len(), |i: int| 0u32),
        decreases total - buffer@.len(),
    {
        buffer.push(0u32);
        proof {
            assert(buffer@ =~= Seq::new(buffer@.len(), |i: int| 0u32));
        }
    }
    proof {
        assert(buffer@ =~= Seq::new(
            (vertical_resolution * pixels_per_scan_line) as nat,
            |i: int| 0u32,
        ));
    }
    VramBufferInfo {
        width: horizontal_resolution as i64,
        height: vertical_resolution as i64,
        pixels_per_line: pixels_per_scan_line as i64,
        buffer,
    }
}

} // verus!
