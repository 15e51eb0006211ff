//! The rasterizer: rectangle fill, single-point set, and line draw, all on
//! any `Bitmap` surface.
//!
//! Every operation validates its outer bounds once and then writes through
//! the unchecked accessor; an operation whose bounds fail returns
//! `Error::OutOfRange` and leaves the surface untouched.

use crate::error::Error;
use crate::framebuffer::{lemma_pixel_index_in_bounds, lemma_pixel_index_injective, Bitmap};
use vstd::prelude::*;

verus! {

/// Whether `(x, y)` lies in the rectangle of width `w` and height `h`
/// whose top-left corner is `(px, py)`.
pub open spec fn in_rect(px: int, py: int, w: int, h: int, x: int, y: int) -> bool {
    px <= x < px + w && py <= y < py + h
}

/// Set one pixel without a range check; the caller has already proved
/// `(x, y)` drawable.
pub fn unchecked_draw_point<T: Bitmap>(buf: &mut T, x: i64, y: i64, color: u32)
    requires
        old(buf).wf(),
        old(buf).geom().in_range(x as int, y as int),
    ensures
        final(buf).wf(),
        final(buf).geom() == old(buf).geom(),
        final(buf).pixels().len() == old(buf).pixels().len(),
        final(buf).pixels() == old(buf).pixels().update(
            old(buf).geom().pixel_index(x as int, y as int),
            color,
        ),
{
    proof {
        buf.wf_properties();
        lemma_pixel_index_in_bounds(
            buf.geom().height,
            buf.geom().pixels_per_line,
            x as int,
            y as int,
        );
    }
    buf.unchecked_write_pixel(x, y, color);
}

/// Set the pixel at `(x, y)` to `color`, or fail with `OutOfRange` (and
/// write nothing) when `(x, y)` is outside the drawable range.
pub fn draw_point<T: Bitmap>(buf: &mut T, x: i64, y: i64, color: u32) -> (r: Result<(), Error>)
    requires
        old(buf).wf(),
    ensures
        final(buf).wf(),
        final(buf).geom() == old(buf).geom(),
        final(buf).pixels().len() == old(buf).pixels().len(),
        r is Ok <==> old(buf).geom().in_range(x as int, y as int),
        r is Ok ==> final(buf).pixels() == old(buf).pixels().update(
            old(buf).geom().pixel_index(x as int, y as int),
            color,
        ),
        r is Err ==> final(buf).pixels() == old(buf).pixels() && r == Err::<(), Error>(
            Error::OutOfRange,
        ),
{
    if buf.is_in_x_range(x) && buf.is_in_y_range(y) {
        proof {
            buf.wf_properties();
            lemma_pixel_index_in_bounds(
                buf.geom().height,
                buf.geom().pixels_per_line,
                x as int,
                y as int,
            );
        }
        buf.unchecked_write_pixel(x, y, color);
        Ok(())
    } else {
        Err(Error::OutOfRange)
    }
}

/// Writing a color then reading the same coordinate back returns that
/// color unchanged: the store a point write leaves behind holds exactly
/// the written color at the written pixel's index, which is what the
/// bounds-checked read returns there.
pub proof fn lemma_write_then_read<T: Bitmap>(buf: T, x: int, y: int, color: u32)
    requires
        buf.wf(),
        buf.geom().in_range(x, y),
    ensures
        buf.pixels().update(buf.geom().pixel_index(x, y), color)[buf.geom().pixel_index(x, y)]
            == color,
{
    buf.wf_properties();
    lemma_pixel_index_in_bounds(buf.geom().height, buf.geom().pixels_per_line, x, y);
}

/// Fill the rectangle of width `w` and height `h` whose top-left corner is
/// `(px, py)`.
///
/// All-or-nothing: both the top-left corner and the bottom-right corner
/// `(px + w - 1, py + h - 1)` are validated first, and if either lies
/// outside the canvas the fill fails with `OutOfRange` having written
/// nothing.
pub fn fill_rect<T: Bitmap>(
    buf: &mut T,
    px: i64,
    py: i64,
    w: i64,
    h: i64,
    color: u32,
) -> (r: Result<(), Error>)
    requires
        old(buf).wf(),
    ensures
        final(buf).wf(),
        final(buf).geom() == old(buf).geom(),
        final(buf).pixels().len() == old(buf).pixels().len(),
        r is Ok <==> {
            &&& old(buf).geom().in_x_range(px as int)
            &&& old(buf).geom().in_y_range(py as int)
            &&& old(buf).geom().in_x_range(px + w - 1)
            &&& old(buf).geom().in_y_range(py + h - 1)
        },
        r is Ok ==> forall|x: int, y: int|
            0 <= x < old(buf).geom().pixels_per_line && 0 <= y < old(buf).geom().height
                ==> final(buf).pixels()[#[trigger] old(buf).geom().pixel_index(x, y)] == (
            if in_rect(px as int, py as int, w as int, h as int, x, y) {
                color
            } else {
                old(buf).pixels()[old(buf).geom().pixel_index(x, y)]
            }),
        r is Err ==> final(buf).pixels() == old(buf).pixels() && r == Err::<(), Error>(
            Error::OutOfRange,
        ),
{
    let right: i128 = px as i128 + w as i128 - 1;
    let bottom: i128 = py as i128 + h as i128 - 1;
    let wd: i64 = buf.width();
    let ht: i64 = buf.height();
    let ppl: i64 = buf.pixels_per_line();
    let x_lim: i128 = (if wd < ppl {
        wd
    } else {
        ppl
    }) as i128;
    if !(0 <= px && (px as i128) < x_lim && 0 <= right && right < x_lim) {
        return Err(Error::OutOfRange);
    }
    if !(0 <= py && py < ht && 0 <= bottom && bottom < (ht as i128)) {
        return Err(Error::OutOfRange);
    }
    let ghost g = buf.geom();
    let ghost orig = buf.pixels();
    proof {
        buf.wf_properties();
    }
    if w <= 0 || h <= 0 {
        return Ok(());
    }
    let x_end: i64 = px + w;
    let y_end: i64 = py + h;
    let mut y: i64 = py;
    while y < y_end
        invariant
            buf.wf(),
            buf.geom() == g,
            g.in_x_range(px as int),
            g.in_x_range(px + w - 1),
            g.in_y_range(py as int),
            g.in_y_range(py + h - 1),
            1 <= w,
            1 <= h,
            x_end == px + w,
            y_end == py + h,
            py <= y <= y_end,
            orig.len() == g.height * g.pixels_per_line,
            buf.pixels().len() == orig.len(),
            forall|x2: int, y2: int|
                0 <= x2 < g.pixels_per_line && 0 <= y2 < g.height
                    ==> buf.pixels()[#[trigger] g.pixel_index(x2, y2)] == (
                if px <= x2 < px + w && py <= y2 < y {
                    color
                } else {
                    orig[g.pixel_index(x2, y2)]
                }),
        decreases y_end - y,
    {
        let mut x: i64 = px;
        while x < x_end
            invariant
                buf.wf(),
                buf.geom() == g,
                g.in_x_range(px as int),
                g.in_x_range(px + w - 1),
                g.in_y_range(py as int),
                g.in_y_range(py + h - 1),
                1 <= w,
                1 <= h,
                x_end == px + w,
                y_end == py + h,
                py <= y < y_end,
                px <= x <= x_end,
                orig.len() == g.height * g.pixels_per_line,
                buf.pixels().len() == orig.len(),
                forall|x2: int, y2: int|
                    0 <= x2 < g.pixels_per_line && 0 <= y2 < g.height
                        ==> buf.pixels()[#[trigger] g.pixel_index(x2, y2)] == (
                    if (px <= x2 < px + w && py <= y2 < y) || (y2 == y && px <= x2 < x) {
                        color
                    } else {
                        orig[g.pixel_index(x2, y2)]
                    }),
            decreases x_end - x,
        {
            let ghost prev = buf.pixels();
            buf.unchecked_write_pixel(x, y, color);
            proof {
                lemma_pixel_index_in_bounds(g.height, g.pixels_per_line, x as int, y as int);
                assert forall|x2: int, y2: int|
                    0 <= x2 < g.pixels_per_line && 0 <= y2 < g.height && !(x2 == x as int && y2
                        == y as int) implies buf.pixels()[#[trigger] g.pixel_index(x2, y2)]
                    == prev[g.pixel_index(x2, y2)] by {
                    lemma_pixel_index_injective(g.pixels_per_line, x2, y2, x as int, y as int);
                    lemma_pixel_index_in_bounds(g.height, g.pixels_per_line, x2, y2);
                }
            }
            x = x + 1;
        }
        y = y + 1;
    }
    Ok(())
}

/// The sign of `a`: `-1`, `0` or `1`.
pub open spec fn sign(a: int) -> int {
    if a > 0 {
        1
    } else if a < 0 {
        -1
    } else {
        0
    }
}

/// The absolute value of `a`.
pub open spec fn abs_val(a: int) -> int {
    if a < 0 {
        -a
    } else {
        a
    }
}

/// The number of major-axis steps of the segment from `(x0, y0)` to
/// `(x1, y1)`: the larger of the two coordinate distances. The segment
/// sets one pixel per step, `major_len + 1` in all (counting step 0).
pub open spec fn major_len(x0: int, y0: int, x1: int, y1: int) -> int {
    vstd::math::max(abs_val(x1 - x0), abs_val(y1 - y0))
}

/// Exact-rounding slope interpolation: the minor-axis offset after `ia` of
/// `da` major-axis steps, when the minor axis is `db` long; the nearest
/// integer to `db * ia / da`, with halves rounded up, and `0` for the
/// degenerate single-point line.
pub open spec fn minor_offset(da: int, db: int, ia: int) -> int {
    if da == 0 {
        0
    } else {
        (2 * db * ia + da) / (2 * da)
    }
}

/// The pixel that the line from `(x0, y0)` to `(x1, y1)` sets at major
/// step `ia`: the major coordinate advances by `ia` toward the far
/// endpoint, the minor coordinate by the interpolated offset. Ties
/// between the two axes favor `x` as the major axis.
pub open spec fn line_point(x0: int, y0: int, x1: int, y1: int, ia: int) -> (int, int) {
    let dx = abs_val(x1 - x0);
    let dy = abs_val(y1 - y0);
    let sx = sign(x1 - x0);
    let sy = sign(y1 - y0);
    if dy > dx {
        (x0 + minor_offset(dy, dx, ia) * sx, y0 + ia * sy)
    } else {
        (x0 + ia * sx, y0 + minor_offset(dx, dy, ia) * sy)
    }
}

/// Whether `p` is set within the first `n` major steps of the line.
pub open spec fn line_prefix_contains(
    x0: int,
    y0: int,
    x1: int,
    y1: int,
    n: int,
    p: (int, int),
) -> bool {
    exists|k: int| 0 <= k < n && #[trigger] line_point(x0, y0, x1, y1, k) == p
}

/// The set of pixels the line from `(x0, y0)` to `(x1, y1)` sets: one per
/// major step, steps `0` through `major_len`.
pub open spec fn line_points(x0: int, y0: int, x1: int, y1: int) -> Set<(int, int)> {
    Set::new(
        |p: (int, int)|
            line_prefix_contains(x0, y0, x1, y1, major_len(x0, y0, x1, y1) + 1, p),
    )
}

/// The interpolated minor offset never leaves `[0, db]`, so every point of
/// the line lies in the bounding box of its endpoints.
pub proof fn lemma_minor_offset_bounds(da: int, db: int, ia: int)
    requires
        0 <= db,
        0 <= ia <= da,
    ensures
        0 <= minor_offset(da, db, ia) <= db,
{
    if da > 0 {
        let num = 2 * db * ia + da;
        let den = 2 * da;
        assert(0 <= 2 * db * ia) by (nonlinear_arith)
            requires
                0 <= db,
                0 <= ia,
        ;
        vstd::arithmetic::div_mod::lemma_div_pos_is_pos(num, den);
        assert(2 * db * ia + da <= den * db + da) by (nonlinear_arith)
            requires
                0 <= db,
                0 <= ia <= da,
                den == 2 * da,
        ;
        vstd::arithmetic::div_mod::lemma_div_is_ordered(num, den * db + da, den);
        vstd::arithmetic::div_mod::lemma_div_multiples_vanish_fancy(db, da, den);
    }
}

/// The exact-rounding slope interpolation the line draw uses: the
/// minor-axis offset after `ia` of `da` major steps. Identical results
/// regardless of traversal direction come from this being a pure rounding,
/// not an accumulator.
pub fn interpolate_minor(da: u64, db: u64, ia: u64) -> (r: u64)
    requires
        db <= da,
        ia <= da,
        da <= i64::MAX,
    ensures
        r == minor_offset(da as int, db as int, ia as int),
        r <= db,
{
    proof {
        lemma_minor_offset_bounds(da as int, db as int, ia as int);
    }
    if da == 0 {
        0
    } else {
        proof {
            assert(2 * (db as int) * (ia as int) <= 2 * (i64::MAX as int) * (i64::MAX as int))
                by (nonlinear_arith)
                requires
                    0 <= db <= i64::MAX,
                    0 <= ia <= i64::MAX,
            ;
        }
        let num: u128 = 2 * (db as u128) * (ia as u128) + (da as u128);
        let den: u128 = 2 * (da as u128);
        (num / den) as u64
    }
}

/// Draw the line from `(x0, y0)` to `(x1, y1)`.
///
/// Only the two endpoints are validated: every interpolated point lies in
/// their bounding box, which the canvas contains once both endpoints are
/// in range. If either endpoint is out of range the draw fails with
/// `OutOfRange` having written nothing; otherwise exactly the pixels of
/// `line_points` receive `color`.
pub fn draw_line<T: Bitmap>(
    buf: &mut T,
    x0: i64,
    y0: i64,
    x1: i64,
    y1: i64,
    color: u32,
) -> (r: Result<(), Error>)
    requires
        old(buf).wf(),
    ensures
        final(buf).wf(),
        final(buf).geom() == old(buf).geom(),
        final(buf).pixels().len() == old(buf).pixels().len(),
        r is Ok <==> old(buf).geom().in_range(x0 as int, y0 as int) && old(buf).geom().in_range(
            x1 as int,
            y1 as int,
        ),
        r is Ok ==> forall|x: int, y: int|
            0 <= x < old(buf).geom().pixels_per_line && 0 <= y < old(buf).geom().height
                ==> final(buf).pixels()[#[trigger] old(buf).geom().pixel_index(x, y)] == (
            if line_points(x0 as int, y0 as int, x1 as int, y1 as int).contains((x, y)) {
                color
            } else {
                old(buf).pixels()[old(buf).geom().pixel_index(x, y)]
            }),
        r is Err ==> final(buf).pixels() == old(buf).pixels() && r == Err::<(), Error>(
            Error::OutOfRange,
        ),
{
    if !(buf.is_in_x_range(x0) && buf.is_in_y_range(y0) && buf.is_in_x_range(x1)
        && buf.is_in_y_range(y1)) {
        return Err(Error::OutOfRange);
    }
    let ghost g = buf.geom();
    let ghost orig = buf.pixels();
    proof {
        buf.wf_properties();
    }
    let dx: i64 = if x1 >= x0 {
        x1 - x0
    } else {
        x0 - x1
    };
    let dy: i64 = if y1 >= y0 {
        y1 - y0
    } else {
        y0 - y1
    };
    let x_major: bool = dy <= dx;
    let da: i64 = if x_major {
        dx
    } else {
        dy
    };
    let db: i64 = if x_major {
        dy
    } else {
        dx
    };
    let mut ia: i64 = 0;
    while ia <= da
        invariant
            buf.wf(),
            buf.geom() == g,
            g.wf(),
            g.in_range(x0 as int, y0 as int),
            g.in_range(x1 as int, y1 as int),
            dx == abs_val(x1 as int - x0 as int),
            dy == abs_val(y1 as int - y0 as int),
            x_major == (dy <= dx),
            da == major_len(x0 as int, y0 as int, x1 as int, y1 as int),
            db == vstd::math::min(dx as int, dy as int),
            0 <= ia <= da + 1,
            orig.len() == g.height * g.pixels_per_line,
            buf.pixels().len() == orig.len(),
            forall|x2: int, y2: int|
                0 <= x2 < g.pixels_per_line && 0 <= y2 < g.height
                    ==> buf.pixels()[#[trigger] g.pixel_index(x2, y2)] == (
                if line_prefix_contains(x0 as int, y0 as int, x1 as int, y1 as int, ia as int, (
                    x2,
                    y2,
                )) {
                    color
                } else {
                    orig[g.pixel_index(x2, y2)]
                }),
        decreases da - ia + 1,
    {
        let ibu: u64 = interpolate_minor(da as u64, db as u64, ia as u64);
        let ib: i64 = ibu as i64;
        let px: i64;
        let py: i64;
        if x_major {
            px = if x1 >= x0 {
                x0 + ia
            } else {
                x0 - ia
            };
            py = if y1 >= y0 {
                y0 + ib
            } else {
                y0 - ib
            };
        } else {
            px = if x1 >= x0 {
                x0 + ib
            } else {
                x0 - ib
            };
            py = if y1 >= y0 {
                y0 + ia
            } else {
                y0 - ia
            };
        }
        proof {
            let gx0 = x0 as int;
            let gy0 = y0 as int;
            let gx1 = x1 as int;
            let gy1 = y1 as int;
            let sx = sign(gx1 - gx0);
            let sy = sign(gy1 - gy0);
            let m = minor_offset(da as int, db as int, ia as int);
            assert(ib == m);
            if x_major {
                assert(px as int == gx0 + ia * sx) by {
                    if x1 > x0 {
                        assert(ia * sx == ia) by (nonlinear_arith)
                            requires
                                sx == 1,
                        ;
                    } else if x1 < x0 {
                        assert(ia * sx == -ia) by (nonlinear_arith)
                            requires
                                sx == -1,
                        ;
                    } else {
                        assert(da == 0 && ia == 0);
                        assert(ia * sx == 0) by (nonlinear_arith)
                            requires
                                ia == 0,
                        ;
                    }
                }
                assert(py as int == gy0 + m * sy) by {
                    if y1 > y0 {
                        assert(m * sy == m) by (nonlinear_arith)
                            requires
                                sy == 1,
                        ;
                    } else if y1 < y0 {
                        assert(m * sy == -m) by (nonlinear_arith)
                            requires
                                sy == -1,
                        ;
                    } else {
                        assert(db == 0 && m == 0);
                        assert(m * sy == 0) by (nonlinear_arith)
                            requires
                                m == 0,
                        ;
                    }
                }
            } else {
                assert(px as int == gx0 + m * sx) by {
                    if x1 > x0 {
                        assert(m * sx == m) by (nonlinear_arith)
                            requires
                                sx == 1,
                        ;
                    } else if x1 < x0 {
                        assert(m * sx == -m) by (nonlinear_arith)
                            requires
                                sx == -1,
                        ;
                    } else {
                        assert(db == 0 && m == 0);
                        assert(m * sx == 0) by (nonlinear_arith)
                            requires
                                m == 0,
                        ;
                    }
                }
                assert(py as int == gy0 + ia * sy) by {
                    if y1 > y0 {
                        assert(ia * sy == ia) by (nonlinear_arith)
                            requires
                                sy == 1,
                        ;
                    } else if y1 < y0 {
                        assert(ia * sy == -ia) by (nonlinear_arith)
                            requires
                                sy == -1,
                        ;
                    } else {
                        assert(da == 0 && ia == 0);
                        assert(ia * sy == 0) by (nonlinear_arith)
                            requires
                                ia == 0,
                        ;
                    }
                }
            }
            assert((px as int, py as int) == line_point(gx0, gy0, gx1, gy1, ia as int));
            assert(g.in_range(px as int, py as int));
        }
        let ghost prev = buf.pixels();
        buf.unchecked_write_pixel(px, py, color);
        proof {
            lemma_pixel_index_in_bounds(g.height, g.pixels_per_line, px as int, py as int);
            assert forall|x2: int, y2: int|
                0 <= x2 < g.pixels_per_line && 0 <= y2 < g.height implies buf.pixels()[#[trigger] g.pixel_index(
                x2,
                y2,
            )] == (if line_prefix_contains(
                x0 as int,
                y0 as int,
                x1 as int,
                y1 as int,
                ia + 1,
                (x2, y2),
            ) {
                color
            } else {
                orig[g.pixel_index(x2, y2)]
            }) by {
                lemma_pixel_index_in_bounds(g.height, g.pixels_per_line, x2, y2);
                if x2 == px as int && y2 == py as int {
                    assert(line_point(x0 as int, y0 as int, x1 as int, y1 as int, ia as int) == (
                        x2,
                        y2,
                    ));
                    assert(line_prefix_contains(
                        x0 as int,
                        y0 as int,
                        x1 as int,
                        y1 as int,
                        ia + 1,
                        (x2, y2),
                    ));
                } else {
                    lemma_pixel_index_injective(g.pixels_per_line, x2, y2, px as int, py as int);
                    if line_prefix_contains(
                        x0 as int,
                        y0 as int,
                        x1 as int,
                        y1 as int,
                        ia + 1,
                        (x2, y2),
                    ) {
                        let k = choose|k: int|
                            0 <= k < ia + 1 && #[trigger] line_point(
                                x0 as int,
                                y0 as int,
                                x1 as int,
                                y1 as int,
                                k,
                            ) == (x2, y2);
                        assert(k < ia);
                        assert(line_prefix_contains(
                            x0 as int,
                            y0 as int,
                            x1 as int,
                            y1 as int,
                            ia as int,
                            (x2, y2),
                        ));
                    }
                }
            }
        }
        ia = ia + 1;
    }
    proof {
        assert forall|x2: int, y2: int|
            0 <= x2 < g.pixels_per_line && 0 <= y2 < g.height implies buf.pixels()[#[trigger] g.pixel_index(
            x2,
            y2,
        )] == (if line_points(x0 as int, y0 as int, x1 as int, y1 as int).contains((x2, y2)) {
            color
        } else {
            orig[g.pixel_index(x2, y2)]
        }) by {
            assert(line_points(x0 as int, y0 as int, x1 as int, y1 as int).contains((x2, y2))
                == line_prefix_contains(
                x0 as int,
                y0 as int,
                x1 as int,
                y1 as int,
                da + 1,
                (x2, y2),
            ));
        }
    }
    Ok(())
}

/// A line from a point to itself sets exactly that one pixel.
pub proof fn lemma_line_single_point(x: int, y: int)
    ensures
        line_points(x, y, x, y) == set![(x, y)],
{
    assert(line_point(x, y, x, y, 0) == (x, y));
    assert(line_points(x, y, x, y).contains((x, y)));
    assert forall|p: (int, int)| line_points(x, y, x, y).contains(p) implies p == (x, y) by {
        let k = choose|k: int| 0 <= k < 1 && #[trigger] line_point(x, y, x, y, k) == p;
        assert(k == 0);
    }
    assert(line_points(x, y, x, y) =~= set![(x, y)]);
}

/// Every point of a line lies in the bounding box of its endpoints.
/// This is why `draw_line` validates the endpoints only: once both are
/// on the canvas, the whole box, and so the whole line, is too.
pub proof fn lemma_line_point_in_box(x0: int, y0: int, x1: int, y1: int, k: int)
    requires
        0 <= k <= major_len(x0, y0, x1, y1),
    ensures
        vstd::math::min(x0, x1) <= line_point(x0, y0, x1, y1, k).0 <= vstd::math::max(x0, x1),
        vstd::math::min(y0, y1) <= line_point(x0, y0, x1, y1, k).1 <= vstd::math::max(y0, y1),
{
    let dx = abs_val(x1 - x0);
    let dy = abs_val(y1 - y0);
    let sx = sign(x1 - x0);
    let sy = sign(y1 - y0);
    if dy > dx {
        let m = minor_offset(dy, dx, k);
        lemma_minor_offset_bounds(dy, dx, k);
        if x1 > x0 {
            assert(0 <= m * sx <= dx) by (nonlinear_arith)
                requires
                    sx == 1,
                    0 <= m <= dx,
            ;
        } else if x1 < x0 {
            assert(-dx <= m * sx <= 0) by (nonlinear_arith)
                requires
                    sx == -1,
                    0 <= m <= dx,
            ;
        } else {
            assert(m == 0 && m * sx == 0) by (nonlinear_arith)
                requires
                    sx == 0,
                    0 <= m <= dx,
                    dx == 0,
            ;
        }
        if y1 > y0 {
            assert(0 <= k * sy <= dy) by (nonlinear_arith)
                requires
                    sy == 1,
                    0 <= k <= dy,
            ;
        } else {
            assert(-dy <= k * sy <= 0) by (nonlinear_arith)
                requires
                    sy == -1,
                    0 <= k <= dy,
            ;
        }
    } else {
        let m = minor_offset(dx, dy, k);
        lemma_minor_offset_bounds(dx, dy, k);
        if x1 > x0 {
            assert(0 <= k * sx <= dx) by (nonlinear_arith)
                requires
                    sx == 1,
                    0 <= k <= dx,
            ;
        } else if x1 < x0 {
            assert(-dx <= k * sx <= 0) by (nonlinear_arith)
                requires
                    sx == -1,
                    0 <= k <= dx,
            ;
        } else {
            assert(k == 0 && k * sx == 0) by (nonlinear_arith)
                requires
                    sx == 0,
                    0 <= k,
                    k <= dx,
                    dx == 0,
            ;
        }
        if y1 > y0 {
            assert(0 <= m * sy <= dy) by (nonlinear_arith)
                requires
                    sy == 1,
                    0 <= m <= dy,
            ;
        } else if y1 < y0 {
            assert(-dy <= m * sy <= 0) by (nonlinear_arith)
                requires
                    sy == -1,
                    0 <= m <= dy,
            ;
        } else {
            assert(m == 0 && m * sy == 0) by (nonlinear_arith)
                requires
                    sy == 0,
                    0 <= m <= dy,
                    dy == 0,
            ;
        }
    }
}

/// A horizontal line sets exactly one pixel per column: those on its own
/// row between its endpoints, inclusive.
pub proof fn lemma_line_horizontal(x0: int, y: int, x1: int)
    ensures
        line_points(x0, y, x1, y) == Set::new(
            |p: (int, int)|
                p.1 == y && vstd::math::min(x0, x1) <= p.0 <= vstd::math::max(x0, x1),
        ),
{
    let da = abs_val(x1 - x0);
    let sx = sign(x1 - x0);
    let row = Set::new(
        |p: (int, int)|
            p.1 == y && vstd::math::min(x0, x1) <= p.0 <= vstd::math::max(x0, x1),
    );
    assert forall|p: (int, int)| line_points(x0, y, x1, y).contains(p) implies row.contains(
        p,
    ) by {
        let k = choose|k: int| 0 <= k < da + 1 && #[trigger] line_point(x0, y, x1, y, k) == p;
        if x1 > x0 {
            assert(k * sx == k) by (nonlinear_arith)
                requires
                    sx == 1,
            ;
        } else if x1 < x0 {
            assert(k * sx == -k) by (nonlinear_arith)
                requires
                    sx == -1,
            ;
        } else {
            assert(k == 0);
            assert(k * sx == 0) by (nonlinear_arith)
                requires
                    k == 0,
            ;
        }
    }
    assert forall|p: (int, int)| row.contains(p) implies line_points(x0, y, x1, y).contains(
        p,
    ) by {
        let k = abs_val(p.0 - x0);
        assert(0 <= k <= da);
        if x1 > x0 {
            assert(k * sx == k) by (nonlinear_arith)
                requires
                    sx == 1,
            ;
        } else if x1 < x0 {
            assert(k * sx == -k) by (nonlinear_arith)
                requires
                    sx == -1,
            ;
        } else {
            assert(k == 0);
            assert(k * sx == 0) by (nonlinear_arith)
                requires
                    k == 0,
            ;
        }
        assert(line_point(x0, y, x1, y, k) == p);
        assert(line_prefix_contains(x0, y, x1, y, da + 1, p));
    }
    assert(line_points(x0, y, x1, y) =~= row);
}

/// The smaller of the two coordinate distances of the segment from
/// `(x0, y0)` to `(x1, y1)`: the length of its minor axis.
pub open spec fn minor_len(x0: int, y0: int, x1: int, y1: int) -> int {
    vstd::math::min(abs_val(x1 - x0), abs_val(y1 - y0))
}

/// Whether some major step of a line with major length `da` and minor
/// length `db` falls exactly half-way between two minor rows. The
/// interpolation rounds halves up in whichever direction it runs, so such
/// a step is the one place a line and its reverse can disagree.
pub open spec fn has_halfway_step(da: int, db: int) -> bool {
    exists|k: int| 0 <= k <= da && #[trigger] ((2 * db * k + da) % (2 * da)) == 0
}

/// Away from half-way steps the interpolated offsets of a step and of its
/// mirror step sum to the whole minor length: rounding down at `u` is
/// rounding up at `da - u`.
proof fn lemma_minor_offset_reversal(da: int, db: int, u: int)
    requires
        0 < da,
        0 <= db,
        0 <= u <= da,
        (2 * db * u + da) % (2 * da) != 0,
    ensures
        minor_offset(da, db, u) + minor_offset(da, db, da - u) == db,
{
    let n = 2 * da;
    let a = 2 * db * u + da;
    let b = 2 * db * (da - u) + da;
    assert(a + b == n * (db + 1)) by (nonlinear_arith)
        requires
            n == 2 * da,
            a == 2 * db * u + da,
            b == 2 * db * (da - u) + da,
    ;
    let q = a / n;
    let r = a % n;
    vstd::arithmetic::div_mod::lemma_fundamental_div_mod(a, n);
    vstd::arithmetic::div_mod::lemma_mod_bound(a, n);
    assert(0 < r < n);
    assert(b == (db - q) * n + (n - r)) by (nonlinear_arith)
        requires
            a + b == n * (db + 1),
            a == n * q + r,
    ;
    vstd::arithmetic::div_mod::lemma_fundamental_div_mod_converse(b, n, db - q, n - r);
    assert(b / n == db - q);
}

/// Each point of the reversed line is the mirror point of the forward
/// line, step for step, provided the mirrored step is not a half-way
/// step.
proof fn lemma_line_point_reversal(x0: int, y0: int, x1: int, y1: int, t: int)
    requires
        0 < major_len(x0, y0, x1, y1),
        0 <= t <= major_len(x0, y0, x1, y1),
        (2 * minor_len(x0, y0, x1, y1) * t + major_len(x0, y0, x1, y1)) % (2 * major_len(
            x0,
            y0,
            x1,
            y1,
        )) != 0,
    ensures
        line_point(x1, y1, x0, y0, t) == line_point(
            x0,
            y0,
            x1,
            y1,
            major_len(x0, y0, x1, y1) - t,
        ),
{
    let da = major_len(x0, y0, x1, y1);
    let db = minor_len(x0, y0, x1, y1);
    let dx = abs_val(x1 - x0);
    let dy = abs_val(y1 - y0);
    let sx = sign(x1 - x0);
    let sy = sign(y1 - y0);
    let rsx = sign(x0 - x1);
    let rsy = sign(y0 - y1);
    let mt = minor_offset(da, db, t);
    let mu = minor_offset(da, db, da - t);
    let u = da - t;
    lemma_minor_offset_reversal(da, db, t);
    lemma_minor_offset_bounds(da, db, t);
    lemma_minor_offset_bounds(da, db, da - t);
    assert(mt + mu == db);
    assert(rsx == -sx && rsy == -sy);
    if dy > dx {
        // the major axis is y; the minor offsets move along x
        assert(da == dy && db == dx);
        assert(line_point(x1, y1, x0, y0, t) == (x1 + mt * rsx, y1 + t * rsy));
        assert(line_point(x0, y0, x1, y1, u) == (x0 + mu * sx, y0 + u * sy));
        if x1 > x0 {
            assert(db * sx == db) by (nonlinear_arith)
                requires
                    sx == 1,
            ;
        } else if x1 < x0 {
            assert(db * sx == -db) by (nonlinear_arith)
                requires
                    sx == -1,
            ;
        } else {
            assert(db * sx == 0) by (nonlinear_arith)
                requires
                    sx == 0,
            ;
        }
        assert(x1 == x0 + db * sx);
        if y1 > y0 {
            assert(da * sy == da) by (nonlinear_arith)
                requires
                    sy == 1,
            ;
        } else {
            assert(da * sy == -da) by (nonlinear_arith)
                requires
                    sy == -1,
            ;
        }
        assert(y1 == y0 + da * sy);
        assert(x1 + mt * rsx == x0 + mu * sx) by (nonlinear_arith)
            requires
                rsx == -sx,
                mt + mu == db,
                x1 == x0 + db * sx,
        ;
        assert(y1 + t * rsy == y0 + u * sy) by (nonlinear_arith)
            requires
                rsy == -sy,
                u == da - t,
                y1 == y0 + da * sy,
        ;
    } else {
        // the major axis is x; the minor offsets move along y
        assert(da == dx && db == dy);
        assert(line_point(x1, y1, x0, y0, t) == (x1 + t * rsx, y1 + mt * rsy));
        assert(line_point(x0, y0, x1, y1, u) == (x0 + u * sx, y0 + mu * sy));
        if x1 > x0 {
            assert(da * sx == da) by (nonlinear_arith)
                requires
                    sx == 1,
            ;
        } else {
            assert(da * sx == -da) by (nonlinear_arith)
                requires
                    sx == -1,
            ;
        }
        assert(x1 == x0 + da * sx);
        if y1 > y0 {
            assert(db * sy == db) by (nonlinear_arith)
                requires
                    sy == 1,
            ;
        } else if y1 < y0 {
            assert(db * sy == -db) by (nonlinear_arith)
                requires
                    sy == -1,
            ;
        } else {
            assert(db * sy == 0) by (nonlinear_arith)
                requires
                    sy == 0,
            ;
        }
        assert(y1 == y0 + db * sy);
        assert(x1 + t * rsx == x0 + u * sx) by (nonlinear_arith)
            requires
                rsx == -sx,
                u == da - t,
                x1 == x0 + da * sx,
        ;
        assert(y1 + mt * rsy == y0 + mu * sy) by (nonlinear_arith)
            requires
                rsy == -sy,
                mt + mu == db,
                y1 == y0 + db * sy,
        ;
    }
    assert(line_point(x1, y1, x0, y0, t) == line_point(x0, y0, x1, y1, da - t));
}

/// Reversal symmetry: a line and its reverse set the same pixels,
/// provided no step of the interpolation falls exactly half-way between
/// two minor rows. At a half-way step both directions round up, toward
/// different sides of the segment, and the two draws differ there.
pub proof fn lemma_line_reversal(x0: int, y0: int, x1: int, y1: int)
    requires
        major_len(x0, y0, x1, y1) == 0 || !has_halfway_step(
            major_len(x0, y0, x1, y1),
            minor_len(x0, y0, x1, y1),
        ),
    ensures
        line_points(x0, y0, x1, y1) == line_points(x1, y1, x0, y0),
{
    let da = major_len(x0, y0, x1, y1);
    let db = minor_len(x0, y0, x1, y1);
    assert(major_len(x1, y1, x0, y0) == da);
    assert(minor_len(x1, y1, x0, y0) == db);
    if da == 0 {
        assert(x1 == x0 && y1 == y0);
    } else {
        assert forall|p: (int, int)| line_points(x0, y0, x1, y1).contains(p)
            implies line_points(x1, y1, x0, y0).contains(p) by {
            let k = choose|k: int|
                0 <= k < da + 1 && #[trigger] line_point(x0, y0, x1, y1, k) == p;
            assert((2 * db * (da - k) + da) % (2 * da) != 0);
            lemma_line_point_reversal(x0, y0, x1, y1, da - k);
            assert(line_point(x1, y1, x0, y0, da - k) == p);
            assert(line_prefix_contains(x1 as int, y1 as int, x0 as int, y0 as int, da + 1, p));
        }
        assert forall|p: (int, int)| line_points(x1, y1, x0, y0).contains(p)
            implies line_points(x0, y0, x1, y1).contains(p) by {
            let k = choose|k: int|
                0 <= k < da + 1 && #[trigger] line_point(x1, y1, x0, y0, k) == p;
            assert((2 * db * k + da) % (2 * da) != 0);
            lemma_line_point_reversal(x0, y0, x1, y1, k);
            assert(line_point(x0, y0, x1, y1, da - k) == p);
            assert(line_prefix_contains(x0 as int, y0 as int, x1 as int, y1 as int, da + 1, p));
        }
        assert(line_points(x0, y0, x1, y1) =~= line_points(x1, y1, x0, y0));
    }
}

} // verus!
