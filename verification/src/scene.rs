//! The start-up scene: what the entry point paints once the frame buffer
//! capability exists — a cleared background, three nested colored squares,
//! and a diagonal of single points.

use crate::framebuffer::{Bitmap, VramBufferInfo};
use crate::rasterizer::{draw_point, fill_rect, in_rect};
use vstd::prelude::*;

verus! {

/// The color the start-up scene leaves at the visible pixel `(x, y)`:
/// the diagonal over the squares over the cleared background.
pub open spec fn scene_color(x: int, y: int) -> u32 {
    if x == y && 0 <= x < 256 {
        0x01_01_01u32
    } else if in_rect(128, 128, 128, 128, x, y) {
        0xff_00_00u32
    } else if in_rect(64, 64, 64, 64, x, y) {
        0x00_ff_00u32
    } else if in_rect(32, 32, 32, 32, x, y) {
        0x00_00_ffu32
    } else {
        0x00_00_00u32
    }
}

/// Paint the start-up scene: clear the whole visible canvas, draw the
/// three squares, then the diagonal. Every visible pixel ends up holding
/// `scene_color`; the hidden scan-line margin is left untouched.
///
/// The canvas must be at least 256 pixels on each side (the scene's
/// extent) and no wider than its stride, so that every drawing call
/// below succeeds.
pub fn efi_main(vram: &mut VramBufferInfo)
    requires
        old(vram).wf(),
        old(vram).width <= old(vram).pixels_per_line,
        256 <= old(vram).width,
        256 <= old(vram).height,
    ensures
        final(vram).wf(),
        final(vram).geom() == old(vram).geom(),
        forall|x: int, y: int|
            0 <= x < old(vram).width && 0 <= y < old(vram).height
                ==> final(vram).pixels()[#[trigger] old(vram).geom().pixel_index(x, y)]
                == scene_color(x, y),
        forall|x: int, y: int|
            old(vram).width <= x < old(vram).pixels_per_line && 0 <= y < old(vram).height
                ==> final(vram).pixels()[#[trigger] old(vram).geom().pixel_index(x, y)]
                == old(vram).pixels()[old(vram).geom().pixel_index(x, y)],
{
    let ghost g = vram.geom();
    let ghost orig = vram.pixels();
    let vw: i64 = vram.width;
    let vh: i64 = vram.height;
    let _ = fill_rect(vram, 0, 0, vw, vh, 0x00_00_00);
    let _ = fill_rect(vram, 32, 32, 32, 32, 0x00_00_ff);
    let _ = fill_rect(vram, 64, 64, 64, 64, 0x00_ff_00);
    let _ = fill_rect(vram, 128, 128, 128, 128, 0xff_00_00);
    let ghost filled = vram.pixels();
    proof {
        assert(forall|x: int, y: int|
            0 <= x < g.pixels_per_line && 0 <= y < g.height
                ==> filled[#[trigger] g.pixel_index(x, y)] == (if 0 <= x < vw && 0 <= y < vh {
                if in_rect(128, 128, 128, 128, x, y) {
                    0xff_00_00u32
                } else if in_rect(64, 64, 64, 64, x, y) {
                    0x00_ff_00u32
                } else if in_rect(32, 32, 32, 32, x, y) {
                    0x00_00_ffu32
                } else {
                    0x00_00_00u32
                }
            } else {
                orig[g.pixel_index(x, y)]
            }));
    }
    proof {
        vram.wf_properties();
    }
    let mut i: i64 = 0;
    while i < 256
        invariant
            vram.wf(),
            vram.geom() == g,
            g.width == vw,
            g.height == vh,
            vw <= g.pixels_per_line,
            256 <= vw,
            256 <= vh,
            0 <= i <= 256,
            vram.pixels().len() == g.height * g.pixels_per_line,
            forall|x: int, y: int|
                0 <= x < g.pixels_per_line && 0 <= y < g.height
                    ==> vram.pixels()[#[trigger] g.pixel_index(x, y)] == (if x == y && 0 <= x < i {
                    0x01_01_01u32
                } else {
                    filled[g.pixel_index(x, y)]
                }),
        decreases 256 - i,
    {
        let ghost prev = vram.pixels();
        let _ = draw_point(vram, i, i, 0x01_01_01);
        proof {
            crate::framebuffer::lemma_pixel_index_in_bounds(
                g.height,
                g.pixels_per_line,
                i as int,
                i as int,
            );
            assert forall|x2: int, y2: int|
                0 <= x2 < g.pixels_per_line && 0 <= y2 < g.height && !(x2 == i as int && y2
                    == i as int) implies vram.pixels()[#[trigger] g.pixel_index(x2, y2)]
                == prev[g.pixel_index(x2, y2)] by {
                crate::framebuffer::lemma_pixel_index_in_bounds(
                    g.height,
                    g.pixels_per_line,
                    x2,
                    y2,
                );
                crate::framebuffer::lemma_pixel_index_injective(
                    g.pixels_per_line,
                    x2,
                    y2,
                    i as int,
                    i as int,
                );
            }
        }
        i = i + 1;
    }
}

} // verus!
