use vstd::prelude::*;
use crate::color::Color;
use crate::framebuffer::{Framebuffer, painted, lemma_painted_compose, lemma_painted_same_shape, rect};

verus! {

/// The 5x7 bitmap font: five column bytes per character, bit `row` of a column
/// byte lighting row `row` (rows 0 to 6; a character without a glyph gets a
/// filled box).
pub open spec fn glyph_columns(ch: char) -> Seq<u8> {
    match ch {
        'A' => seq![0x7C, 0x12, 0x11, 0x12, 0x7C],
        'B' => seq![0x7F, 0x49, 0x49, 0x49, 0x36],
        'C' => seq![0x3E, 0x41, 0x41, 0x41, 0x22],
        'D' => seq![0x7F, 0x41, 0x41, 0x41, 0x3E],
        'E' => seq![0x7F, 0x49, 0x49, 0x49, 0x41],
        'F' => seq![0x7F, 0x09, 0x09, 0x09, 0x01],
        'G' => seq![0x3E, 0x41, 0x49, 0x49, 0x7A],
        'H' => seq![0x7F, 0x08, 0x08, 0x08, 0x7F],
        'I' => seq![0x00, 0x41, 0x7F, 0x41, 0x00],
        'J' => seq![0x20, 0x40, 0x41, 0x3F, 0x01],
        'K' => seq![0x7F, 0x08, 0x14, 0x22, 0x41],
        'L' => seq![0x7F, 0x40, 0x40, 0x40, 0x40],
        'M' => seq![0x7F, 0x02, 0x0C, 0x02, 0x7F],
        'N' => seq![0x7F, 0x04, 0x08, 0x10, 0x7F],
        'O' => seq![0x3E, 0x41, 0x41, 0x41, 0x3E],
        'P' => seq![0x7F, 0x09, 0x09, 0x09, 0x06],
        'Q' => seq![0x3E, 0x41, 0x51, 0x21, 0x5E],
        'R' => seq![0x7F, 0x09, 0x19, 0x29, 0x46],
        'S' => seq![0x46, 0x49, 0x49, 0x49, 0x31],
        'T' => seq![0x01, 0x01, 0x7F, 0x01, 0x01],
        'U' => seq![0x3F, 0x40, 0x40, 0x40, 0x3F],
        'V' => seq![0x1F, 0x20, 0x40, 0x20, 0x1F],
        'W' => seq![0x3F, 0x40, 0x38, 0x40, 0x3F],
        'X' => seq![0x63, 0x14, 0x08, 0x14, 0x63],
        'Y' => seq![0x07, 0x08, 0x70, 0x08, 0x07],
        'Z' => seq![0x61, 0x51, 0x49, 0x45, 0x43],
        'a' => seq![0x20, 0x54, 0x54, 0x54, 0x78],
        'b' => seq![0x7F, 0x48, 0x44, 0x44, 0x38],
        'c' => seq![0x38, 0x44, 0x44, 0x44, 0x20],
        'd' => seq![0x38, 0x44, 0x44, 0x48, 0x7F],
        'e' => seq![0x38, 0x54, 0x54, 0x54, 0x18],
        'f' => seq![0x08, 0x7E, 0x09, 0x01, 0x02],
        'g' => seq![0x18, 0xA4, 0xA4, 0xA4, 0x7C],
        'h' => seq![0x7F, 0x08, 0x04, 0x04, 0x78],
        'i' => seq![0x00, 0x44, 0x7D, 0x40, 0x00],
        'j' => seq![0x40, 0x80, 0x84, 0x7D, 0x00],
        'k' => seq![0x7F, 0x10, 0x28, 0x44, 0x00],
        'l' => seq![0x00, 0x41, 0x7F, 0x40, 0x00],
        'm' => seq![0x7C, 0x04, 0x18, 0x04, 0x78],
        'n' => seq![0x7C, 0x08, 0x04, 0x04, 0x78],
        'o' => seq![0x38, 0x44, 0x44, 0x44, 0x38],
        'p' => seq![0xFC, 0x24, 0x24, 0x24, 0x18],
        'q' => seq![0x18, 0x24, 0x24, 0x18, 0xFC],
        'r' => seq![0x7C, 0x08, 0x04, 0x04, 0x08],
        's' => seq![0x48, 0x54, 0x54, 0x54, 0x20],
        't' => seq![0x04, 0x3F, 0x44, 0x40, 0x20],
        'u' => seq![0x3C, 0x40, 0x40, 0x20, 0x7C],
        'v' => seq![0x1C, 0x20, 0x40, 0x20, 0x1C],
        'w' => seq![0x3C, 0x40, 0x30, 0x40, 0x3C],
        'x' => seq![0x44, 0x28, 0x10, 0x28, 0x44],
        'y' => seq![0x1C, 0xA0, 0xA0, 0xA0, 0x7C],
        'z' => seq![0x44, 0x64, 0x54, 0x4C, 0x44],
        ' ' => seq![0x00, 0x00, 0x00, 0x00, 0x00],
        ':' => seq![0x00, 0x36, 0x36, 0x00, 0x00],
        _ => seq![0x7C, 0x7C, 0x7C, 0x7C, 0x7C],
    }
}

/// The column bytes of `ch` in the bitmap font.
pub fn glyph_pattern(ch: char) -> (p: [u8; 5])
    ensures
        p@ == glyph_columns(ch),
{
    match ch {
        'A' => [0x7C, 0x12, 0x11, 0x12, 0x7C],
        'B' => [0x7F, 0x49, 0x49, 0x49, 0x36],
        'C' => [0x3E, 0x41, 0x41, 0x41, 0x22],
        'D' => [0x7F, 0x41, 0x41, 0x41, 0x3E],
        'E' => [0x7F, 0x49, 0x49, 0x49, 0x41],
        'F' => [0x7F, 0x09, 0x09, 0x09, 0x01],
        'G' => [0x3E, 0x41, 0x49, 0x49, 0x7A],
        'H' => [0x7F, 0x08, 0x08, 0x08, 0x7F],
        'I' => [0x00, 0x41, 0x7F, 0x41, 0x00],
        'J' => [0x20, 0x40, 0x41, 0x3F, 0x01],
        'K' => [0x7F, 0x08, 0x14, 0x22, 0x41],
        'L' => [0x7F, 0x40, 0x40, 0x40, 0x40],
        'M' => [0x7F, 0x02, 0x0C, 0x02, 0x7F],
        'N' => [0x7F, 0x04, 0x08, 0x10, 0x7F],
        'O' => [0x3E, 0x41, 0x41, 0x41, 0x3E],
        'P' => [0x7F, 0x09, 0x09, 0x09, 0x06],
        'Q' => [0x3E, 0x41, 0x51, 0x21, 0x5E],
        'R' => [0x7F, 0x09, 0x19, 0x29, 0x46],
        'S' => [0x46, 0x49, 0x49, 0x49, 0x31],
        'T' => [0x01, 0x01, 0x7F, 0x01, 0x01],
        'U' => [0x3F, 0x40, 0x40, 0x40, 0x3F],
        'V' => [0x1F, 0x20, 0x40, 0x20, 0x1F],
        'W' => [0x3F, 0x40, 0x38, 0x40, 0x3F],
        'X' => [0x63, 0x14, 0x08, 0x14, 0x63],
        'Y' => [0x07, 0x08, 0x70, 0x08, 0x07],
        'Z' => [0x61, 0x51, 0x49, 0x45, 0x43],
        'a' => [0x20, 0x54, 0x54, 0x54, 0x78],
        'b' => [0x7F, 0x48, 0x44, 0x44, 0x38],
        'c' => [0x38, 0x44, 0x44, 0x44, 0x20],
        'd' => [0x38, 0x44, 0x44, 0x48, 0x7F],
        'e' => [0x38, 0x54, 0x54, 0x54, 0x18],
        'f' => [0x08, 0x7E, 0x09, 0x01, 0x02],
        'g' => [0x18, 0xA4, 0xA4, 0xA4, 0x7C],
        'h' => [0x7F, 0x08, 0x04, 0x04, 0x78],
        'i' => [0x00, 0x44, 0x7D, 0x40, 0x00],
        'j' => [0x40, 0x80, 0x84, 0x7D, 0x00],
        'k' => [0x7F, 0x10, 0x28, 0x44, 0x00],
        'l' => [0x00, 0x41, 0x7F, 0x40, 0x00],
        'm' => [0x7C, 0x04, 0x18, 0x04, 0x78],
        'n' => [0x7C, 0x08, 0x04, 0x04, 0x78],
        'o' => [0x38, 0x44, 0x44, 0x44, 0x38],
        'p' => [0xFC, 0x24, 0x24, 0x24, 0x18],
        'q' => [0x18, 0x24, 0x24, 0x18, 0xFC],
        'r' => [0x7C, 0x08, 0x04, 0x04, 0x08],
        's' => [0x48, 0x54, 0x54, 0x54, 0x20],
        't' => [0x04, 0x3F, 0x44, 0x40, 0x20],
        'u' => [0x3C, 0x40, 0x40, 0x20, 0x7C],
        'v' => [0x1C, 0x20, 0x40, 0x20, 0x1C],
        'w' => [0x3C, 0x40, 0x30, 0x40, 0x3C],
        'x' => [0x44, 0x28, 0x10, 0x28, 0x44],
        'y' => [0x1C, 0xA0, 0xA0, 0xA0, 0x7C],
        'z' => [0x44, 0x64, 0x54, 0x4C, 0x44],
        ' ' => [0x00, 0x00, 0x00, 0x00, 0x00],
        ':' => [0x00, 0x36, 0x36, 0x00, 0x00],
        _ => [0x7C, 0x7C, 0x7C, 0x7C, 0x7C],
    }
}

/// Bit `row` of the column byte `p` is set.
pub open spec fn glyph_bit(p: u8, row: u32) -> bool {
    (p >> row) & 1u8 == 1u8
}

/// The font bit in column `col` and row `row` of `ch` is lit.
pub open spec fn glyph_lit(ch: char, col: int, row: int) -> bool {
    &&& 0 <= col < 5
    &&& 0 <= row < 7
    &&& glyph_bit(glyph_columns(ch)[col], row as u32)
}

/// The pixels of `ch` drawn at `(x, y)`: each lit font bit becomes a
/// `scale x scale` square.
pub open spec fn glyph_shape(ch: char, x: int, y: int, scale: int) -> spec_fn(int, int) -> bool {
    |px: int, py: int|
        exists|col: int, row: int|
            #[trigger] glyph_lit(ch, col, row) && rect(x + col * scale, y + row * scale, scale, scale)(px, py)
}

/// The squares of the lit bits that come before column `col`, row `row` in drawing order.
spec fn glyph_done(ch: char, x: int, y: int, scale: int, col: int, row: int) -> spec_fn(int, int) -> bool {
    |px: int, py: int|
        exists|c: int, r: int|
            #[trigger] glyph_lit(ch, c, r) && (c < col || (c == col && r < row)) && rect(
                x + c * scale,
                y + r * scale,
                scale,
                scale,
            )(px, py)
}

proof fn lemma_mul_le(a: int, b: int, n: int)
    by (nonlinear_arith)
    requires
        0 <= a <= n,
        0 <= b,
    ensures
        a * b <= n * b,
        0 <= a * b,
{
}

/// Draws `ch` with its top-left corner at `(x, y)`, each font bit a
/// `scale x scale` square, in the current colour.
pub fn draw_char_simple(framebuffer: &mut Framebuffer, ch: char, x: i32, y: i32, scale: usize)
    requires
        old(framebuffer).wf(),
        7 * scale <= i32::MAX,
        x + 5 * scale <= i32::MAX + 1,
        y + 7 * scale <= i32::MAX + 1,
    ensures
        painted(*old(framebuffer), *final(framebuffer), glyph_shape(ch, x as int, y as int, scale as int), old(framebuffer).current()),
        final(framebuffer).current() == old(framebuffer).current(),
{
    let ghost c = framebuffer.current();
    let ghost start = *framebuffer;
    let ghost (gx, gy, gs) = (x as int, y as int, scale as int);
    let patterns = glyph_pattern(ch);
    let s: i32 = scale as i32;
    let mut col: usize = 0;
    while col < 5
        invariant
            framebuffer.wf(),
            framebuffer.current() == c,
            start == *old(framebuffer),
            c == start.current(),
            patterns@ == glyph_columns(ch),
            gx == x && gy == y && gs == scale && s == scale,
            7 * scale <= i32::MAX,
            x + 5 * scale <= i32::MAX + 1,
            y + 7 * scale <= i32::MAX + 1,
            0 <= col <= 5,
            painted(start, *framebuffer, glyph_done(ch, gx, gy, gs, col as int, 0), c),
        decreases 5 - col,
    {
        let pattern = patterns[col];
        let mut row: u32 = 0;
        while row < 7
            invariant
                framebuffer.wf(),
                framebuffer.current() == c,
                start == *old(framebuffer),
                c == start.current(),
                patterns@ == glyph_columns(ch),
                pattern == glyph_columns(ch)[col as int],
                gx == x && gy == y && gs == scale && s == scale,
                7 * scale <= i32::MAX,
                x + 5 * scale <= i32::MAX + 1,
                y + 7 * scale <= i32::MAX + 1,
                0 <= col < 5,
                0 <= row <= 7,
                painted(start, *framebuffer, glyph_done(ch, gx, gy, gs, col as int, row as int), c),
            decreases 7 - row,
        {
            let ghost before = glyph_done(ch, gx, gy, gs, col as int, row as int);
            let ghost after = glyph_done(ch, gx, gy, gs, col as int, row as int + 1);
            let ghost square = rect(gx + col * gs, gy + row * gs, gs, gs);
            if (pattern >> row) & 1 == 1 {
                proof {
                    lemma_mul_le(col as int, scale as int, 4);
                    lemma_mul_le(row as int, scale as int, 6);
                }
                let px: i32 = x + (col * scale) as i32;
                let py: i32 = y + ((row as usize) * scale) as i32;
                let ghost prev = *framebuffer;
                framebuffer.fill_rect(px, py, s, s);
                proof {
                    lemma_painted_compose(start, prev, *framebuffer, before, square, c);
                    assert(glyph_lit(ch, col as int, row as int));
                    assert forall|qx: int, qy: int| #[trigger] after(qx, qy) == (before(qx, qy) || square(qx, qy)) by {
                        if after(qx, qy) {
                            let (c2, r2) = choose|c2: int, r2: int|
                                #[trigger] glyph_lit(ch, c2, r2) && (c2 < col || (c2 == col && r2 < row + 1)) && rect(
                                    gx + c2 * gs,
                                    gy + r2 * gs,
                                    gs,
                                    gs,
                                )(qx, qy);
                            if !(c2 == col && r2 == row) {
                                assert(glyph_lit(ch, c2, r2) && (c2 < col || (c2 == col && r2 < row)));
                            }
                        }
                        if before(qx, qy) {
                            let (c2, r2) = choose|c2: int, r2: int|
                                #[trigger] glyph_lit(ch, c2, r2) && (c2 < col || (c2 == col && r2 < row)) && rect(
                                    gx + c2 * gs,
                                    gy + r2 * gs,
                                    gs,
                                    gs,
                                )(qx, qy);
                            assert(glyph_lit(ch, c2, r2) && (c2 < col || (c2 == col && r2 < row + 1)));
                        }
                    }
                    lemma_painted_same_shape(start, *framebuffer, |qx: int, qy: int| before(qx, qy) || square(qx, qy), after, c);
                }
            } else {
                proof {
                    assert(!glyph_lit(ch, col as int, row as int));
                    assert forall|qx: int, qy: int| #[trigger] after(qx, qy) == before(qx, qy) by {
                        if after(qx, qy) {
                            let (c2, r2) = choose|c2: int, r2: int|
                                #[trigger] glyph_lit(ch, c2, r2) && (c2 < col || (c2 == col && r2 < row + 1)) && rect(
                                    gx + c2 * gs,
                                    gy + r2 * gs,
                                    gs,
                                    gs,
                                )(qx, qy);
                            assert(glyph_lit(ch, c2, r2) && (c2 < col || (c2 == col && r2 < row)));
                        }
                        if before(qx, qy) {
                            let (c2, r2) = choose|c2: int, r2: int|
                                #[trigger] glyph_lit(ch, c2, r2) && (c2 < col || (c2 == col && r2 < row)) && rect(
                                    gx + c2 * gs,
                                    gy + r2 * gs,
                                    gs,
                                    gs,
                                )(qx, qy);
                            assert(glyph_lit(ch, c2, r2) && (c2 < col || (c2 == col && r2 < row + 1)));
                        }
                    }
                    lemma_painted_same_shape(start, *framebuffer, before, after, c);
                }
            }
            row = row + 1;
        }
        proof {
            let ghost a = glyph_done(ch, gx, gy, gs, col as int, 7);
            let ghost b = glyph_done(ch, gx, gy, gs, col as int + 1, 0);
            assert forall|qx: int, qy: int| #[trigger] b(qx, qy) == a(qx, qy) by {
                if b(qx, qy) {
                    let (c2, r2) = choose|c2: int, r2: int|
                        #[trigger] glyph_lit(ch, c2, r2) && (c2 < col + 1 || (c2 == col + 1 && r2 < 0)) && rect(
                            gx + c2 * gs,
                            gy + r2 * gs,
                            gs,
                            gs,
                        )(qx, qy);
                    assert(glyph_lit(ch, c2, r2) && (c2 < col || (c2 == col && r2 < 7)));
                }
                if a(qx, qy) {
                    let (c2, r2) = choose|c2: int, r2: int|
                        #[trigger] glyph_lit(ch, c2, r2) && (c2 < col || (c2 == col && r2 < 7)) && rect(
                            gx + c2 * gs,
                            gy + r2 * gs,
                            gs,
                            gs,
                        )(qx, qy);
                    assert(glyph_lit(ch, c2, r2) && (c2 < col + 1 || (c2 == col + 1 && r2 < 0)));
                }
            }
            lemma_painted_same_shape(start, *framebuffer, a, b, c);
        }
        col = col + 1;
    }
    proof {
        let ghost a = glyph_done(ch, gx, gy, gs, 5, 0);
        let ghost b = glyph_shape(ch, gx, gy, gs);
        assert forall|qx: int, qy: int| #[trigger] b(qx, qy) == a(qx, qy) by {
            if b(qx, qy) {
                let (c2, r2) = choose|c2: int, r2: int|
                    #[trigger] glyph_lit(ch, c2, r2) && rect(gx + c2 * gs, gy + r2 * gs, gs, gs)(qx, qy);
                assert(glyph_lit(ch, c2, r2) && (c2 < 5 || (c2 == 5 && r2 < 0)));
            }
        }
        lemma_painted_same_shape(start, *framebuffer, a, b, c);
    }
}

/// Rust's `/ 2` on a signed integer: the quotient rounded toward zero.
pub open spec fn half_toward_zero(v: int) -> int {
    if v >= 0 {
        v / 2
    } else {
        -((-v) / 2)
    }
}

/// The left edge of a text of `len` characters, each `6 * scale` wide,
/// centred on a screen `width` wide.
pub open spec fn centered_x(width: int, len: int, scale: int) -> int {
    half_toward_zero(width - len * (6 * scale))
}

/// Character `i` of `text`, drawn from left edge `x`, covers `(px, py)`.
pub open spec fn text_char_covers(text: Seq<char>, i: int, x: int, y: int, scale: int, px: int, py: int) -> bool {
    glyph_shape(text[i], x + i * (6 * scale), y, scale)(px, py)
}

/// The pixels of `text` drawn with its left edge at `x` and top at `y`:
/// character `i` is drawn `6 * scale * i` to the right of `x`.
pub open spec fn text_shape(text: Seq<char>, x: int, y: int, scale: int) -> spec_fn(int, int) -> bool {
    |px: int, py: int| exists|i: int| 0 <= i < text.len() && #[trigger] text_char_covers(text, i, x, y, scale, px, py)
}

spec fn text_prefix_shape(text: Seq<char>, x: int, y: int, scale: int, n: int) -> spec_fn(int, int) -> bool {
    |px: int, py: int| exists|i: int| 0 <= i < n && #[trigger] text_char_covers(text, i, x, y, scale, px, py)
}

proof fn lemma_mul_lt(a: int, b: int, n: int)
    by (nonlinear_arith)
    requires
        0 <= a < n,
        0 <= b,
    ensures
        a * b + b <= n * b,
        0 <= a * b,
{
}

/// Draws `text` in `color`, centred horizontally on the screen, with its top at
/// `y`; each character is `6 * scale` pixels wide.
pub fn draw_text_centered(framebuffer: &mut Framebuffer, text: &str, y: i32, color: Color, scale: usize)
    requires
        old(framebuffer).wf(),
        old(framebuffer).w() <= i32::MAX,
        7 * scale <= i32::MAX,
        text@.len() * (6 * scale) <= i32::MAX,
        y + 7 * scale <= i32::MAX + 1,
    ensures
        painted(
            *old(framebuffer),
            *final(framebuffer),
            text_shape(text@, centered_x(old(framebuffer).w(), text@.len() as int, scale as int), y as int, scale as int),
            color,
        ),
        final(framebuffer).current() == color,
{
    let ghost start = *framebuffer;
    let ghost (gy, gs) = (y as int, scale as int);
    let char_width: usize = 6 * scale;
    let n: usize = text.unicode_len();
    proof {
        if scale > 0 {
            assert(n <= i32::MAX) by (nonlinear_arith)
                requires
                    n * (6 * scale) <= i32::MAX,
                    scale > 0,
            ;
        }
    }
    let text_width: usize = n * char_width;
    let w: i32 = framebuffer.width() as i32;
    let d: i32 = w - text_width as i32;
    let x_start: i32 = if d >= 0 { d / 2 } else { -((-d) / 2) };
    let ghost gx = x_start as int;
    assert(gx == centered_x(start.w(), n as int, gs));
    framebuffer.set_current_color(color);
    let ghost after_color = *framebuffer;
    proof {
        lemma_painted_same_shape(start, after_color, |px: int, py: int| false, text_prefix_shape(text@, gx, gy, gs, 0), color);
    }
    let mut i: usize = 0;
    while i < n
        invariant
            framebuffer.wf(),
            framebuffer.current() == color,
            start == *old(framebuffer),
            framebuffer.w() == start.w(),
            n == text@.len(),
            gy == y && gs == scale && gx == x_start,
            char_width == 6 * scale,
            text_width == n * char_width,
            7 * scale <= i32::MAX,
            text_width <= i32::MAX,
            y + 7 * scale <= i32::MAX + 1,
            start.w() <= i32::MAX,
            x_start == centered_x(start.w(), n as int, gs),
            0 <= i <= n,
            painted(start, *framebuffer, text_prefix_shape(text@, gx, gy, gs, i as int), color),
        decreases n - i,
    {
        let ch = text.get_char(i);
        proof {
            lemma_mul_lt(i as int, char_width as int, n as int);
        }
        let x_offset: i32 = x_start + (i * char_width) as i32;
        let ghost prev = *framebuffer;
        draw_char_simple(framebuffer, ch, x_offset, y, scale);
        proof {
            let ghost before = text_prefix_shape(text@, gx, gy, gs, i as int);
            let ghost glyph = glyph_shape(ch, x_offset as int, gy, gs);
            let ghost after = text_prefix_shape(text@, gx, gy, gs, i as int + 1);
            lemma_painted_compose(start, prev, *framebuffer, before, glyph, color);
            assert forall|qx: int, qy: int| #[trigger] after(qx, qy) == (before(qx, qy) || glyph(qx, qy)) by {
                if after(qx, qy) {
                    let k = choose|k: int| 0 <= k < i + 1 && #[trigger] text_char_covers(text@, k, gx, gy, gs, qx, qy);
                    if k < i {
                        assert(0 <= k < i && text_char_covers(text@, k, gx, gy, gs, qx, qy));
                    }
                }
                if before(qx, qy) {
                    let k = choose|k: int| 0 <= k < i && #[trigger] text_char_covers(text@, k, gx, gy, gs, qx, qy);
                    assert(0 <= k < i + 1 && text_char_covers(text@, k, gx, gy, gs, qx, qy));
                }
                if glyph(qx, qy) {
                    assert(text_char_covers(text@, i as int, gx, gy, gs, qx, qy));
                }
            }
            lemma_painted_same_shape(start, *framebuffer, |qx: int, qy: int| before(qx, qy) || glyph(qx, qy), after, color);
        }
        i = i + 1;
    }
}

/// Draws `text` centred horizontally with its top at `y`, four times the font size.
pub fn draw_text_large(framebuffer: &mut Framebuffer, text: &str, y: i32, color: Color)
    requires
        old(framebuffer).wf(),
        old(framebuffer).w() <= i32::MAX,
        text@.len() * 24 <= i32::MAX,
        y + 28 <= i32::MAX + 1,
    ensures
        painted(
            *old(framebuffer),
            *final(framebuffer),
            text_shape(text@, centered_x(old(framebuffer).w(), text@.len() as int, 4), y as int, 4),
            color,
        ),
        final(framebuffer).current() == color,
{
    draw_text_centered(framebuffer, text, y, color, 4);
}

} // verus!
