use bootgfx::font::{draw_glyph, draw_string, lookup};
use bootgfx::framebuffer::{init_vram, Bitmap, VramBufferInfo};
use bootgfx::scene::efi_main;

fn blank(w: u32, h: u32, stride: u32) -> VramBufferInfo {
    init_vram(w, h, stride)
}

#[test]
fn lookup_finds_an_embedded_glyph() {
    let glyph = lookup(b'A').expect("the table holds a glyph for A");
    // the second row of the A is "...**..."
    assert!(glyph.cell(1, 3));
    assert!(glyph.cell(1, 4));
    assert!(!glyph.cell(1, 0));
    // the blank first row
    for c in 0..8 {
        assert!(!glyph.cell(0, c));
    }
}

#[test]
fn lookup_absent_codepoint_yields_no_glyph() {
    assert!(lookup(b'z').is_none());
    assert!(lookup(0x00).is_none());
    assert!(lookup(0xff).is_none());
}

#[test]
fn draw_glyph_of_absent_codepoint_changes_nothing() {
    let mut vram = blank(32, 32, 32);
    let before = vram.buffer.clone();
    draw_glyph(&mut vram, 4, 4, 0xff_ff_ff, b'z');
    assert_eq!(vram.buffer, before);
}

#[test]
fn draw_glyph_blits_ink_cells_transparently() {
    let mut vram = blank(32, 32, 34);
    let background = 0x12_34_56;
    for y in 0..32 {
        for x in 0..32 {
            bootgfx::rasterizer::draw_point(&mut vram, x, y, background).unwrap();
        }
    }
    draw_glyph(&mut vram, 2, 3, 0xff_00_00, b'A');
    let glyph = lookup(b'A').unwrap();
    for r in 0..16i64 {
        for c in 0..8i64 {
            let expected = if glyph.cell(r as usize, c as usize) {
                0xff_00_00
            } else {
                background
            };
            assert_eq!(vram.pixel_at(2 + c, 3 + r), Some(expected));
        }
    }
}

#[test]
fn draw_glyph_clips_at_the_canvas_edge() {
    let mut vram = blank(8, 8, 8);
    let before = vram.buffer.clone();
    // entirely off canvas: nothing changes
    draw_glyph(&mut vram, -20, 0, 0xff, b'A');
    assert_eq!(vram.buffer, before);
    // partially off canvas: no panic, and only on-canvas cells painted
    draw_glyph(&mut vram, 4, -2, 0xff, b'A');
    let glyph = lookup(b'A').unwrap();
    for y in 0..8i64 {
        for x in 0..8i64 {
            let r = y + 2;
            let c = x - 4;
            let inked = (0..8).contains(&c) && glyph.cell(r as usize, c as usize);
            let expected = if inked { 0xff } else { 0 };
            assert_eq!(vram.pixel_at(x, y), Some(expected));
        }
    }
}

#[test]
fn draw_string_advances_eight_pixels_per_character() {
    let mut vram = blank(40, 20, 40);
    draw_string(&mut vram, 1, 2, 0xee, "AB");
    let a = lookup(b'A').unwrap();
    let b = lookup(b'B').unwrap();
    for r in 0..16i64 {
        for c in 0..8i64 {
            let ea = if a.cell(r as usize, c as usize) { 0xee } else { 0 };
            let eb = if b.cell(r as usize, c as usize) { 0xee } else { 0 };
            assert_eq!(vram.pixel_at(1 + c, 2 + r), Some(ea));
            assert_eq!(vram.pixel_at(9 + c, 2 + r), Some(eb));
        }
    }
}

#[test]
fn draw_string_skips_characters_without_glyphs() {
    let mut vram = blank(40, 20, 40);
    draw_string(&mut vram, 0, 0, 0xee, "zAz");
    let a = lookup(b'A').unwrap();
    // the 'z' slots stay blank, the 'A' slot is drawn at its own offset
    for r in 0..16i64 {
        for c in 0..8i64 {
            let ea = if a.cell(r as usize, c as usize) { 0xee } else { 0 };
            assert_eq!(vram.pixel_at(c, r), Some(0));
            assert_eq!(vram.pixel_at(8 + c, r), Some(ea));
            assert_eq!(vram.pixel_at(16 + c, r), Some(0));
        }
    }
}

#[test]
fn startup_scene_paints_the_expected_colors() {
    let mut vram = blank(256, 256, 260);
    // a sentinel in the hidden scan-line margin must survive the scene
    vram.buffer[0 * 260 + 258] = 0xdead;
    efi_main(&mut vram);
    // the diagonal wins over everything beneath it
    assert_eq!(vram.pixel_at(0, 0), Some(0x01_01_01));
    assert_eq!(vram.pixel_at(40, 40), Some(0x01_01_01));
    assert_eq!(vram.pixel_at(255, 255), Some(0x01_01_01));
    // background, and the three squares
    assert_eq!(vram.pixel_at(1, 0), Some(0x00_00_00));
    assert_eq!(vram.pixel_at(10, 200), Some(0x00_00_00));
    assert_eq!(vram.pixel_at(40, 50), Some(0x00_00_ff));
    assert_eq!(vram.pixel_at(100, 70), Some(0x00_ff_00));
    assert_eq!(vram.pixel_at(200, 150), Some(0xff_00_00));
    // square edges: 32..64, 64..128, 128..256
    assert_eq!(vram.pixel_at(31, 40), Some(0x00_00_00));
    assert_eq!(vram.pixel_at(63, 40), Some(0x00_00_ff));
    assert_eq!(vram.pixel_at(64, 70), Some(0x00_ff_00));
    assert_eq!(vram.pixel_at(127, 200), Some(0x00_00_00));
    assert_eq!(vram.pixel_at(128, 200), Some(0xff_00_00));
    assert_eq!(vram.buffer[0 * 260 + 258], 0xdead);
}
