//! The font renderer: glyph lookup from an embedded plain-text table and
//! transparent glyph and string blitting.
//!
//! Each table entry begins with a header line `0x` followed by two hex
//! digits (the codepoint), followed immediately by 16 rows of exactly 8
//! characters, `*` denoting ink and any other character blank. Absence
//! from the table is a normal outcome, not an error.

use crate::framebuffer::{Bitmap, Geometry};
use crate::rasterizer::draw_point;
use vstd::prelude::*;
use vstd::string::*;

verus! {

/// One glyph: an 8-wide, 16-tall grid of ink/blank cells, row-major.
pub struct Glyph {
    /// The 128 cells, row-major: cell `(row, column)` is at
    /// `row * 8 + column`; `true` is ink.
    pub ink: Vec<bool>,
}

impl Glyph {
    /// A glyph holds exactly its 16 rows of 8 cells.
    pub open spec fn wf(&self) -> bool {
        self.ink@.len() == 128
    }

    /// Whether the cell at `row` and `column` is ink.
    pub fn cell(&self, row: usize, column: usize) -> (r: bool)
        requires
            self.wf(),
            row < 16,
            column < 8,
        ensures
            r == self.ink@[row * 8 + column],
    {
        self.ink[row * 8 + column]
    }
}

/// The character that encodes hex digit `v` in an entry header.
pub open spec fn hex_digit_char(v: int) -> char {
    if v == 0 { '0' }
    else if v == 1 { '1' }
    else if v == 2 { '2' }
    else if v == 3 { '3' }
    else if v == 4 { '4' }
    else if v == 5 { '5' }
    else if v == 6 { '6' }
    else if v == 7 { '7' }
    else if v == 8 { '8' }
    else if v == 9 { '9' }
    else if v == 10 { 'a' }
    else if v == 11 { 'b' }
    else if v == 12 { 'c' }
    else if v == 13 { 'd' }
    else if v == 14 { 'e' }
    else { 'f' }
}

/// Whether row `r` of the entry starting at `p` is exactly 8 characters:
/// position 8 of the row holds the terminating newline.
pub open spec fn row_terminated(t: Seq<char>, p: int, r: int) -> bool {
    t[p + 5 + 9 * r + 8] == '\n'
}

/// Whether a whole well-formed entry for `code` starts at position `p` of
/// the table: a header line `0x` plus two hex digits at the start of a
/// line, then 16 rows of exactly 8 characters. An entry is
/// `5 + 16 * 9 == 149` characters long, newlines included.
pub open spec fn header_at(t: Seq<char>, p: int, code: u8) -> bool {
    &&& 0 <= p
    &&& p + 149 <= t.len()
    &&& (p == 0 || t[p - 1] == '\n')
    &&& t[p] == '0'
    &&& t[p + 1] == 'x'
    &&& t[p + 2] == hex_digit_char(code as int / 16)
    &&& t[p + 3] == hex_digit_char(code as int % 16)
    &&& t[p + 4] == '\n'
    &&& forall|r: int| 0 <= r < 16 ==> #[trigger] row_terminated(t, p, r)
}

/// The ink grid of the entry starting at `p`, row-major.
pub open spec fn glyph_seq(t: Seq<char>, p: int) -> Seq<bool> {
    Seq::new(128, |k: int| t[p + 5 + 9 * (k / 8) + k % 8] == '*')
}

/// The position of the first entry for `code` at or after `p`, scanning
/// the table one position at a time.
pub open spec fn find_glyph_pos(t: Seq<char>, code: u8, p: int) -> Option<int>
    decreases t.len() - p,
{
    if p < 0 || p >= t.len() {
        None
    } else if header_at(t, p, code) {
        Some(p)
    } else {
        find_glyph_pos(t, code, p + 1)
    }
}

/// What `lookup` yields for `code`: the grid of the first entry for it,
/// or nothing when the table has none.
pub open spec fn lookup_spec(t: Seq<char>, code: u8) -> Option<Seq<bool>> {
    match find_glyph_pos(t, code, 0) {
        Some(p) => Some(glyph_seq(t, p)),
        None => None,
    }
}

/// The embedded font table, as a sequence of characters.
pub open spec fn font_table_spec() -> Seq<char> {
    "0x41\n........\n...**...\n...**...\n..*..*..\n..*..*..\n.*....*.\n.*....*.\n.******.\n.*....*.\n.*....*.\n.*....*.\n.*....*.\n........\n........\n........\n........\n0x42\n........\n.*****..\n.*....*.\n.*....*.\n.*....*.\n.*****..\n.*....*.\n.*....*.\n.*....*.\n.*....*.\n.*....*.\n.*****..\n........\n........\n........\n........\n0x48\n........\n.*....*.\n.*....*.\n.*....*.\n.*....*.\n.******.\n.*....*.\n.*....*.\n.*....*.\n.*....*.\n.*....*.\n.*....*.\n........\n........\n........\n........\n0x49\n........\n..****..\n...**...\n...**...\n...**...\n...**...\n...**...\n...**...\n...**...\n...**...\n...**...\n..****..\n........\n........\n........\n........\n"@
}

/// The embedded font table. The body repeats the literal of
/// `font_table_spec` verbatim; the contract holds the two together, so
/// they cannot drift apart.
pub fn font_table() -> (r: &'static str)
    ensures
        r@ == font_table_spec(),
{
    "0x41\n........\n...**...\n...**...\n..*..*..\n..*..*..\n.*....*.\n.*....*.\n.******.\n.*....*.\n.*....*.\n.*....*.\n.*....*.\n........\n........\n........\n........\n0x42\n........\n.*****..\n.*....*.\n.*....*.\n.*....*.\n.*****..\n.*....*.\n.*....*.\n.*....*.\n.*....*.\n.*....*.\n.*****..\n........\n........\n........\n........\n0x48\n........\n.*....*.\n.*....*.\n.*....*.\n.*....*.\n.******.\n.*....*.\n.*....*.\n.*....*.\n.*....*.\n.*....*.\n.*....*.\n........\n........\n........\n........\n0x49\n........\n..****..\n...**...\n...**...\n...**...\n...**...\n...**...\n...**...\n...**...\n...**...\n...**...\n..****..\n........\n........\n........\n........\n"
}

/// The character that encodes hex digit `v`.
fn hex_digit(v: u8) -> (c: char)
    requires
        v < 16,
    ensures
        c == hex_digit_char(v as int),
{
    if v == 0 { '0' }
    else if v == 1 { '1' }
    else if v == 2 { '2' }
    else if v == 3 { '3' }
    else if v == 4 { '4' }
    else if v == 5 { '5' }
    else if v == 6 { '6' }
    else if v == 7 { '7' }
    else if v == 8 { '8' }
    else if v == 9 { '9' }
    else if v == 10 { 'a' }
    else if v == 11 { 'b' }
    else if v == 12 { 'c' }
    else if v == 13 { 'd' }
    else if v == 14 { 'e' }
    else { 'f' }
}

/// Whether a whole well-formed entry for `code` starts at position `p`.
fn is_header_at(s: &str, n: usize, p: usize, code: u8) -> (r: bool)
    requires
        n == s@.len(),
        p < n,
    ensures
        r == header_at(s@, p as int, code),
{
    if n - p < 149 {
        return false;
    }
    if p > 0 && s.get_char(p - 1) != '\n' {
        return false;
    }
    if s.get_char(p) != '0' || s.get_char(p + 1) != 'x' {
        return false;
    }
    if s.get_char(p + 2) != hex_digit(code / 16) || s.get_char(p + 3) != hex_digit(code % 16) {
        return false;
    }
    if s.get_char(p + 4) != '\n' {
        return false;
    }
    let mut row: usize = 0;
    while row < 16
        invariant
            n == s@.len(),
            p + 149 <= n,
            row <= 16,
            forall|r2: int| 0 <= r2 < row ==> #[trigger] row_terminated(s@, p as int, r2),
        decreases 16 - row,
    {
        if s.get_char(p + 5 + 9 * row + 8) != '\n' {
            proof {
                assert(!row_terminated(s@, p as int, row as int));
            }
            return false;
        }
        proof {
            assert(row_terminated(s@, p as int, row as int));
        }
        row = row + 1;
    }
    true
}

/// Read the ink grid of the entry starting at `p`.
fn parse_glyph(s: &str, n: usize, p: usize) -> (gl: Glyph)
    requires
        n == s@.len(),
        p + 149 <= n,
    ensures
        gl.wf(),
        gl.ink@ == glyph_seq(s@, p as int),
{
    let mut ink: Vec<bool> = Vec::new();
    let mut k: usize = 0;
    while k < 128
        invariant
            n == s@.len(),
            p + 149 <= n,
            k <= 128,
            ink@.len() == k,
            forall|j: int| 0 <= j < k ==> ink@[j] == glyph_seq(s@, p as int)[j],
        decreases 128 - k,
    {
        let c: char = s.get_char(p + 5 + 9 * (k / 8) + (k % 8));
        ink.push(c == '*');
        k = k + 1;
    }
    proof {
        assert(ink@ =~= glyph_seq(s@, p as int));
    }
    Glyph { ink }
}

/// Look the codepoint up in the embedded table: the first entry for it,
/// or `None` when the table has none — a normal outcome, not an error.
pub fn lookup(codepoint: u8) -> (r: Option<Glyph>)
    ensures
        r is Some <==> lookup_spec(font_table_spec(), codepoint) is Some,
        r matches Some(gl) ==> gl.wf() && Some(gl.ink@) == lookup_spec(
            font_table_spec(),
            codepoint,
        ),
{
    let s = font_table();
    let n: usize = s.unicode_len();
    let mut p: usize = 0;
    while p < n
        invariant
            n == s@.len(),
            s@ == font_table_spec(),
            p <= n,
            find_glyph_pos(s@, codepoint, 0) == find_glyph_pos(s@, codepoint, p as int),
        decreases n - p,
    {
        if is_header_at(s, n, p, codepoint) {
            let gl = parse_glyph(s, n, p);
            return Some(gl);
        }
        proof {
            assert(find_glyph_pos(s@, codepoint, p as int) == find_glyph_pos(
                s@,
                codepoint,
                p as int + 1,
            ));
        }
        p = p + 1;
    }
    None
}

/// Whether the glyph blit for `code` at top-left `(x, y)` sets the pixel
/// `(qx, qy)`: the table has the glyph, the pixel lies in its 8-by-16
/// box on an ink cell, and it is drawable — cells off the canvas are
/// clipped, and blank cells never touch the background.
pub open spec fn glyph_cell_set(code: u8, x: int, y: int, qx: int, qy: int, g: Geometry) -> bool {
    match lookup_spec(font_table_spec(), code) {
        Some(gl) => {
            &&& x <= qx < x + 8
            &&& y <= qy < y + 16
            &&& gl[(qy - y) * 8 + (qx - x)]
            &&& g.in_range(qx, qy)
        },
        None => false,
    }
}

/// Like `glyph_cell_set`, but only for cells before row `r`, column `c`
/// in row-major order: the part of the blit already performed.
pub open spec fn glyph_cell_set_before(
    code: u8,
    x: int,
    y: int,
    qx: int,
    qy: int,
    g: Geometry,
    r: int,
    c: int,
) -> bool {
    glyph_cell_set(code, x, y, qx, qy, g) && (qy - y < r || (qy - y == r && qx - x < c))
}

/// Transparent blit of the glyph for `codepoint` with its top-left cell
/// at `(x, y)`: every drawable ink cell receives `color` through the
/// rasterizer's checked point write, blank and off-canvas cells are left
/// untouched. A codepoint absent from the table draws nothing.
pub fn draw_glyph<T: Bitmap>(buf: &mut T, x: i64, y: i64, color: u32, codepoint: u8)
    requires
        old(buf).wf(),
    ensures
        final(buf).wf(),
        final(buf).geom() == old(buf).geom(),
        final(buf).pixels().len() == old(buf).pixels().len(),
        forall|qx: int, qy: int|
            0 <= qx < old(buf).geom().pixels_per_line && 0 <= qy < old(buf).geom().height
                ==> final(buf).pixels()[#[trigger] old(buf).geom().pixel_index(qx, qy)] == (
            if glyph_cell_set(codepoint, x as int, y as int, qx, qy, old(buf).geom()) {
                color
            } else {
                old(buf).pixels()[old(buf).geom().pixel_index(qx, qy)]
            }),
{
    let ghost g = buf.geom();
    let ghost orig = buf.pixels();
    proof {
        buf.wf_properties();
    }
    let looked = lookup(codepoint);
    match looked {
        None => {},
        Some(gl) => {
            let mut r: usize = 0;
            while r < 16
                invariant
                    buf.wf(),
                    buf.geom() == g,
                    g.wf(),
                    r <= 16,
                    gl.wf(),
                    Some(gl.ink@) == lookup_spec(font_table_spec(), codepoint),
                    orig.len() == g.height * g.pixels_per_line,
                    buf.pixels().len() == orig.len(),
                    forall|qx: int, qy: int|
                        0 <= qx < g.pixels_per_line && 0 <= qy < g.height
                            ==> buf.pixels()[#[trigger] g.pixel_index(qx, qy)] == (
                        if glyph_cell_set_before(
                            codepoint,
                            x as int,
                            y as int,
                            qx,
                            qy,
                            g,
                            r as int,
                            0,
                        ) {
                            color
                        } else {
                            orig[g.pixel_index(qx, qy)]
                        }),
                decreases 16 - r,
            {
                let mut c: usize = 0;
                while c < 8
                    invariant
                        buf.wf(),
                        buf.geom() == g,
                        g.wf(),
                        r < 16,
                        c <= 8,
                        gl.wf(),
                        Some(gl.ink@) == lookup_spec(font_table_spec(), codepoint),
                        orig.len() == g.height * g.pixels_per_line,
                        buf.pixels().len() == orig.len(),
                        forall|qx: int, qy: int|
                            0 <= qx < g.pixels_per_line && 0 <= qy < g.height
                                ==> buf.pixels()[#[trigger] g.pixel_index(qx, qy)] == (
                            if glyph_cell_set_before(
                                codepoint,
                                x as int,
                                y as int,
                                qx,
                                qy,
                                g,
                                r as int,
                                c as int,
                            ) {
                                color
                            } else {
                                orig[g.pixel_index(qx, qy)]
                            }),
                    decreases 8 - c,
                {
                    let ghost prev = buf.pixels();
                    if gl.cell(r, c) {
                        let qx128: i128 = x as i128 + c as i128;
                        let qy128: i128 = y as i128 + r as i128;
                        if qx128 <= i64::MAX as i128 && qy128 <= i64::MAX as i128 {
                            let px: i64 = qx128 as i64;
                            let py: i64 = qy128 as i64;
                            let _ = draw_point(buf, px, py, color);
                            proof {
                                if g.in_range(px as int, py as int) {
                                    crate::framebuffer::lemma_pixel_index_in_bounds(
                                        g.height,
                                        g.pixels_per_line,
                                        px as int,
                                        py as int,
                                    );
                                    assert forall|qx: int, qy: int|
                                        0 <= qx < g.pixels_per_line && 0 <= qy < g.height && !(qx
                                            == px as int && qy == py as int) implies buf.pixels()[#[trigger] g.pixel_index(
                                        qx,
                                        qy,
                                    )] == prev[g.pixel_index(qx, qy)] by {
                                        crate::framebuffer::lemma_pixel_index_in_bounds(
                                            g.height,
                                            g.pixels_per_line,
                                            qx,
                                            qy,
                                        );
                                        crate::framebuffer::lemma_pixel_index_injective(
                                            g.pixels_per_line,
                                            qx,
                                            qy,
                                            px as int,
                                            py as int,
                                        );
                                    }
                                }
                            }
                        }
                    }
                    c = c + 1;
                }
                r = r + 1;
            }
        },
    }
}

/// Whether drawing the first `n` characters of `t` starting at `(x, y)`
/// sets the pixel `(qx, qy)`: some single-byte character among them has
/// an ink cell there, at its own 8-pixel slot.
pub open spec fn string_cell_set(
    t: Seq<char>,
    x: int,
    y: int,
    qx: int,
    qy: int,
    g: Geometry,
    n: int,
) -> bool {
    exists|j: int|
        0 <= j < n && (t[j] as u32) < 256 && #[trigger] glyph_cell_set(
            t[j] as u8,
            x + 8 * j,
            y,
            qx,
            qy,
            g,
        )
}

/// Render the text left to right with a fixed 8-pixel advance per
/// character (monospace), blitting each single-byte codepoint's glyph
/// transparently. Newlines are not interpreted and nothing wraps:
/// multi-line layout belongs to the caller.
pub fn draw_string<T: Bitmap>(buf: &mut T, x: i64, y: i64, color: u32, text: &str)
    requires
        old(buf).wf(),
    ensures
        final(buf).wf(),
        final(buf).geom() == old(buf).geom(),
        final(buf).pixels().len() == old(buf).pixels().len(),
        forall|qx: int, qy: int|
            0 <= qx < old(buf).geom().pixels_per_line && 0 <= qy < old(buf).geom().height
                ==> final(buf).pixels()[#[trigger] old(buf).geom().pixel_index(qx, qy)] == (
            if string_cell_set(
                text@,
                x as int,
                y as int,
                qx,
                qy,
                old(buf).geom(),
                text@.len() as int,
            ) {
                color
            } else {
                old(buf).pixels()[old(buf).geom().pixel_index(qx, qy)]
            }),
{
    let ghost g = buf.geom();
    let ghost orig = buf.pixels();
    proof {
        buf.wf_properties();
    }
    let n: usize = text.unicode_len();
    let mut j: usize = 0;
    while j < n
        invariant
            buf.wf(),
            buf.geom() == g,
            g.wf(),
            n == text@.len(),
            j <= n,
            orig.len() == g.height * g.pixels_per_line,
            buf.pixels().len() == orig.len(),
            forall|qx: int, qy: int|
                0 <= qx < g.pixels_per_line && 0 <= qy < g.height
                    ==> buf.pixels()[#[trigger] g.pixel_index(qx, qy)] == (
                if string_cell_set(text@, x as int, y as int, qx, qy, g, j as int) {
                    color
                } else {
                    orig[g.pixel_index(qx, qy)]
                }),
        decreases n - j,
    {
        let ghost prev = buf.pixels();
        let ch: char = text.get_char(j);
        let code32: u32 = ch as u32;
        let gx128: i128 = x as i128 + 8 * (j as i128);
        if code32 < 256 && gx128 <= i64::MAX as i128 {
            let code: u8 = code32 as u8;
            let gx: i64 = gx128 as i64;
            draw_glyph(buf, gx, y, color, code);
            proof {
                assert forall|qx: int, qy: int|
                    0 <= qx < g.pixels_per_line && 0 <= qy < g.height implies buf.pixels()[#[trigger] g.pixel_index(
                    qx,
                    qy,
                )] == (if string_cell_set(text@, x as int, y as int, qx, qy, g, j as int + 1) {
                    color
                } else {
                    orig[g.pixel_index(qx, qy)]
                }) by {
                    if glyph_cell_set(code, gx as int, y as int, qx, qy, g) {
                        assert((text@[j as int] as u32) < 256 && glyph_cell_set(
                            text@[j as int] as u8,
                            x as int + 8 * (j as int),
                            y as int,
                            qx,
                            qy,
                            g,
                        ));
                        assert(string_cell_set(text@, x as int, y as int, qx, qy, g, j as int + 1));
                    } else {
                        if string_cell_set(text@, x as int, y as int, qx, qy, g, j as int + 1) {
                            let j2 = choose|j2: int|
                                0 <= j2 < j as int + 1 && (text@[j2] as u32) < 256
                                    && #[trigger] glyph_cell_set(
                                    text@[j2] as u8,
                                    x as int + 8 * j2,
                                    y as int,
                                    qx,
                                    qy,
                                    g,
                                );
                            assert(j2 < j as int);
                            assert(string_cell_set(text@, x as int, y as int, qx, qy, g, j as int));
                        }
                    }
                }
            }
        } else {
            proof {
                assert forall|qx: int, qy: int|
                    0 <= qx < g.pixels_per_line && 0 <= qy < g.height implies buf.pixels()[#[trigger] g.pixel_index(
                    qx,
                    qy,
                )] == (if string_cell_set(text@, x as int, y as int, qx, qy, g, j as int + 1) {
                    color
                } else {
                    orig[g.pixel_index(qx, qy)]
                }) by {
                    if string_cell_set(text@, x as int, y as int, qx, qy, g, j as int + 1) {
                        let j2 = choose|j2: int|
                            0 <= j2 < j as int + 1 && (text@[j2] as u32) < 256
                                && #[trigger] glyph_cell_set(
                                text@[j2] as u8,
                                x as int + 8 * j2,
                                y as int,
                                qx,
                                qy,
                                g,
                            );
                        if j2 == j as int {
                            assert((text@[j as int] as u32) < 256);
                            assert(qx < vstd::math::min(g.width, g.pixels_per_line));
                            assert(false);
                        }
                        assert(string_cell_set(text@, x as int, y as int, qx, qy, g, j as int));
                    }
                }
            }
        }
        j = j + 1;
    }
}

} // verus!
