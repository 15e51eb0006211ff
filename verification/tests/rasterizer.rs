use bootgfx::error::Error;
use bootgfx::framebuffer::{init_vram, Bitmap, VramBufferInfo};
use bootgfx::rasterizer::{draw_line, draw_point, fill_rect, interpolate_minor, unchecked_draw_point};

fn canvas(w: u32, h: u32, stride: u32) -> VramBufferInfo {
    init_vram(w, h, stride)
}

fn count_set(vram: &VramBufferInfo, color: u32) -> usize {
    let mut n = 0;
    for y in 0..vram.height {
        for x in 0..vram.pixels_per_line {
            if vram.pixel_at(x, y) == Some(color) {
                n += 1;
            }
        }
    }
    n
}

#[test]
fn write_then_read_returns_the_color() {
    let mut vram = canvas(4, 4, 5);
    for y in 0..4 {
        for x in 0..4 {
            let color = 0x0012_3456 + (y * 4 + x) as u32;
            assert_eq!(draw_point(&mut vram, x, y, color), Ok(()));
            assert_eq!(vram.pixel_at(x, y), Some(color));
        }
    }
}

#[test]
fn unchecked_write_reaches_the_same_pixel() {
    let mut vram = canvas(4, 4, 4);
    unchecked_draw_point(&mut vram, 3, 2, 0xff);
    assert_eq!(vram.pixel_at(3, 2), Some(0xff));
    assert_eq!(count_set(&vram, 0xff), 1);
}

#[test]
fn draw_point_out_of_range_is_an_error() {
    let mut vram = canvas(4, 4, 4);
    assert_eq!(draw_point(&mut vram, 4, 0, 0xff), Err(Error::OutOfRange));
    assert_eq!(draw_point(&mut vram, 0, 4, 0xff), Err(Error::OutOfRange));
    assert_eq!(draw_point(&mut vram, -1, 0, 0xff), Err(Error::OutOfRange));
    assert_eq!(count_set(&vram, 0xff), 0);
}

#[test]
fn checked_x_range_stops_at_the_stride() {
    // width 6 but stride 4: only the first four columns are addressable
    let vram = canvas(6, 2, 4);
    assert!(vram.is_in_x_range(3));
    assert!(!vram.is_in_x_range(4));
    assert_eq!(vram.pixel_at(4, 0), None);
    assert_eq!(vram.bytes_per_pixel(), 4);
    assert_eq!(vram.width(), 6);
    assert_eq!(vram.height(), 2);
    assert_eq!(vram.pixels_per_line(), 4);
}

#[test]
fn fill_rect_paints_exactly_the_rectangle() {
    let mut vram = canvas(8, 8, 10);
    assert_eq!(fill_rect(&mut vram, 2, 3, 4, 2, 0xabcd), Ok(()));
    for y in 0..8 {
        for x in 0..8 {
            let expected = if (2..6).contains(&x) && (3..5).contains(&y) {
                0xabcd
            } else {
                0
            };
            assert_eq!(vram.pixel_at(x, y), Some(expected));
        }
    }
}

#[test]
fn fill_rect_is_all_or_nothing() {
    let mut vram = canvas(8, 8, 8);
    assert_eq!(fill_rect(&mut vram, 1, 1, 3, 3, 0x11), Ok(()));
    // bottom-right corner out of range: nothing of the buffer changes
    let before = vram.buffer.clone();
    assert_eq!(fill_rect(&mut vram, 4, 4, 8, 8, 0x22), Err(Error::OutOfRange));
    assert_eq!(vram.buffer, before);
    assert_eq!(fill_rect(&mut vram, -1, 0, 4, 4, 0x33), Err(Error::OutOfRange));
    assert_eq!(vram.buffer, before);
}

#[test]
fn degenerate_line_sets_exactly_one_pixel() {
    let mut vram = canvas(8, 8, 8);
    assert_eq!(draw_line(&mut vram, 5, 6, 5, 6, 0x77), Ok(()));
    assert_eq!(vram.pixel_at(5, 6), Some(0x77));
    assert_eq!(count_set(&vram, 0x77), 1);
}

#[test]
fn horizontal_line_sets_one_pixel_per_column() {
    let mut vram = canvas(8, 4, 8);
    assert_eq!(draw_line(&mut vram, 0, 0, 7, 0, 0x99), Ok(()));
    for x in 0..8 {
        assert_eq!(vram.pixel_at(x, 0), Some(0x99));
    }
    assert_eq!(count_set(&vram, 0x99), 8);
}

#[test]
fn line_reversal_sets_the_same_pixels() {
    let mut forward = canvas(8, 8, 8);
    let mut reverse = canvas(8, 8, 8);
    assert_eq!(draw_line(&mut forward, 0, 0, 5, 3, 0x5a), Ok(()));
    assert_eq!(draw_line(&mut reverse, 5, 3, 0, 0, 0x5a), Ok(()));
    assert_eq!(forward.buffer, reverse.buffer);
}

#[test]
fn steep_line_sets_one_pixel_per_row() {
    let mut vram = canvas(8, 8, 8);
    assert_eq!(draw_line(&mut vram, 1, 0, 3, 7, 0x42), Ok(()));
    assert_eq!(count_set(&vram, 0x42), 8);
    for y in 0..8 {
        let mut on_row = 0;
        for x in 0..8 {
            if vram.pixel_at(x, y) == Some(0x42) {
                on_row += 1;
            }
        }
        assert_eq!(on_row, 1);
    }
}

#[test]
fn line_with_an_endpoint_off_canvas_is_an_error() {
    let mut vram = canvas(8, 8, 8);
    let before = vram.buffer.clone();
    assert_eq!(draw_line(&mut vram, 0, 0, 8, 0, 0x13), Err(Error::OutOfRange));
    assert_eq!(vram.buffer, before);
}

#[test]
fn slope_interpolation_regression_fixture() {
    // floor((2*3*5 + 10) / 20) == 2
    assert_eq!(interpolate_minor(10, 3, 5), 2);
    assert_eq!(interpolate_minor(10, 3, 0), 0);
    assert_eq!(interpolate_minor(10, 3, 10), 3);
    assert_eq!(interpolate_minor(0, 0, 0), 0);
}

#[test]
fn color_words_pack_red_highest() {
    assert_eq!(bootgfx::framebuffer::rgb(0xff, 0, 0), 0x00ff_0000);
    assert_eq!(bootgfx::framebuffer::rgb(0, 0xff, 0), 0x0000_ff00);
    assert_eq!(bootgfx::framebuffer::rgb(0, 0, 0xff), 0x0000_00ff);
    assert_eq!(bootgfx::framebuffer::rgb(0x12, 0x34, 0x56), 0x0012_3456);
}
