use laberinto::color::Color;
use laberinto::framebuffer::Framebuffer;
use laberinto::text::{draw_char_simple, draw_text_centered, draw_text_large, glyph_pattern};

fn lit(fb: &Framebuffer, c: Color) -> Vec<(u32, u32)> {
    let mut out = Vec::new();
    for x in 0..fb.width() {
        for y in 0..fb.height() {
            if fb.get_pixel(x, y) == c {
                out.push((x, y));
            }
        }
    }
    out
}

#[test]
fn glyph_table_and_fallback_box() {
    assert_eq!(glyph_pattern('A'), [0x7C, 0x12, 0x11, 0x12, 0x7C]);
    assert_eq!(glyph_pattern('z'), [0x44, 0x64, 0x54, 0x4C, 0x44]);
    assert_eq!(glyph_pattern(':'), [0x00, 0x36, 0x36, 0x00, 0x00]);
    assert_eq!(glyph_pattern('7'), [0x7C, 0x7C, 0x7C, 0x7C, 0x7C]);
}

#[test]
fn char_is_drawn_from_its_column_bits() {
    let mut fb = Framebuffer::new(6, 8, Color::black());
    draw_char_simple(&mut fb, 'I', 0, 0, 1);
    assert_eq!(
        lit(&fb, Color::white()),
        vec![(1, 0), (1, 6), (2, 0), (2, 1), (2, 2), (2, 3), (2, 4), (2, 5), (2, 6), (3, 0), (3, 6)]
    );
}

#[test]
fn char_scale_makes_squares_and_bit_seven_is_ignored() {
    let mut fb = Framebuffer::new(12, 16, Color::black());
    draw_char_simple(&mut fb, 'I', 0, 0, 2);
    let got = lit(&fb, Color::white());
    assert_eq!(got.len(), 11 * 4);
    assert!(got.contains(&(2, 0)) && got.contains(&(3, 1)) && got.contains(&(2, 12)) && got.contains(&(3, 13)));
    let mut fb = Framebuffer::new(6, 9, Color::black());
    draw_char_simple(&mut fb, 'p', 0, 0, 1);
    assert!(!lit(&fb, Color::white()).contains(&(0, 7)));
}

#[test]
fn centred_text_uses_truncating_division() {
    let mut fb = Framebuffer::new(11, 8, Color::black());
    let gold = Color::new(255, 215, 0, 255);
    draw_text_centered(&mut fb, "ABC", 0, gold, 1);
    assert_eq!(fb.current_color(), gold);
    assert_eq!(
        lit(&fb, gold),
        vec![
            (0, 1), (0, 4), (1, 2), (1, 3), (1, 4), (1, 5), (1, 6), (3, 0), (3, 1), (3, 2), (3, 3), (3, 4), (3, 5),
            (3, 6), (4, 0), (4, 3), (4, 6), (5, 0), (5, 3), (5, 6), (6, 0), (6, 3), (6, 6), (7, 1), (7, 2), (7, 4),
            (7, 5), (9, 1), (9, 2), (9, 3), (9, 4), (9, 5), (10, 0), (10, 6)
        ]
    );
}

#[test]
fn centring_counts_characters_not_bytes() {
    // "\u{a1}" is one character of two bytes: it is centred as one glyph.
    let mut fb = Framebuffer::new(100, 8, Color::black());
    draw_text_centered(&mut fb, "\u{a1}", 0, Color::white(), 1);
    let got = lit(&fb, Color::white());
    assert_eq!(got.len(), 25);
    assert_eq!(got[0], (47, 2));
    assert_eq!(got[24], (51, 6));

    // Mixed text: "\u{a1}Mapa" is five characters, 30 pixels, from x = 35.
    let mut wide = Framebuffer::new(100, 8, Color::black());
    draw_text_centered(&mut wide, "\u{a1}Mapa", 0, Color::white(), 1);
    let got = lit(&wide, Color::white());
    assert!(got.iter().all(|&(x, _)| (35..65).contains(&x)));
    assert!(got.iter().any(|&(x, _)| x < 41));
    assert!(got.iter().any(|&(x, _)| x >= 59));
}

#[test]
fn large_text_is_four_times_the_font() {
    let mut fb = Framebuffer::new(48, 40, Color::black());
    draw_text_large(&mut fb, "I", 2, Color::white());
    let got = lit(&fb, Color::white());
    assert_eq!(got.len(), 11 * 16);
    assert!(got.contains(&(16, 2)));
    assert!(!got.contains(&(15, 2)));
}

#[test]
fn empty_text_draws_nothing_but_sets_colour() {
    let mut fb = Framebuffer::new(10, 10, Color::black());
    let c = Color::new(1, 2, 3, 4);
    draw_text_centered(&mut fb, "", 3, c, 2);
    assert!(lit(&fb, c).is_empty());
    assert_eq!(fb.current_color(), c);
}
