use laberinto::color::Color;
use laberinto::framebuffer::Framebuffer;
use laberinto::render_minimap::draw_line_minimap;

fn lit(fb: &Framebuffer, c: Color) -> Vec<(u32, u32)> {
    let mut out = Vec::new();
    for y in 0..fb.height() {
        for x in 0..fb.width() {
            if fb.get_pixel(x, y) == c {
                out.push((x, y));
            }
        }
    }
    out
}

#[test]
fn new_framebuffer_is_background_and_draws_white() {
    let bg = Color::new(50, 50, 100, 255);
    let fb = Framebuffer::new(4, 3, bg);
    assert_eq!(fb.width(), 4);
    assert_eq!(fb.height(), 3);
    assert_eq!(fb.color_buffer().len(), 12);
    assert_eq!(fb.current_color(), Color::white());
    assert!(fb.color_buffer().iter().all(|c| *c == bg));
}

#[test]
fn set_pixel_paints_only_on_screen() {
    let mut fb = Framebuffer::new(4, 3, Color::black());
    let red = Color::red();
    fb.set_current_color(red);
    fb.set_pixel(1, 2);
    fb.set_pixel(-1, 0);
    fb.set_pixel(4, 0);
    fb.set_pixel(0, 3);
    assert_eq!(lit(&fb, red), vec![(1, 2)]);
    assert_eq!(fb.color_buffer()[2 * 4 + 1], red);
}

#[test]
fn clear_uses_new_background_but_setting_it_keeps_pixels() {
    let mut fb = Framebuffer::new(3, 3, Color::black());
    fb.set_pixel(0, 0);
    let blue = Color::new(50, 50, 100, 255);
    fb.set_background_color(blue);
    assert_eq!(fb.get_pixel(0, 0), Color::white());
    assert_eq!(fb.get_pixel(1, 1), Color::black());
    fb.clear();
    assert!(fb.color_buffer().iter().all(|c| *c == blue));
    assert_eq!(fb.current_color(), Color::white());
}

#[test]
fn fill_rect_is_clipped_to_the_screen() {
    let mut fb = Framebuffer::new(5, 4, Color::black());
    fb.fill_rect(-1, 2, 3, 5);
    let mut expected = Vec::new();
    for y in 2..4 {
        for x in 0..2 {
            expected.push((x, y));
        }
    }
    assert_eq!(lit(&fb, Color::white()), expected);
    let mut fb2 = Framebuffer::new(5, 4, Color::black());
    fb2.fill_rect(1, 1, 0, 3);
    fb2.fill_rect(1, 1, 3, -2);
    assert!(lit(&fb2, Color::white()).is_empty());
}

#[test]
fn line_follows_bresenham_walk() {
    let mut fb = Framebuffer::new(8, 8, Color::black());
    draw_line_minimap(&mut fb, 0, 0, 5, 2);
    let mut got = lit(&fb, Color::white());
    got.sort_by_key(|p| (p.0, p.1));
    assert_eq!(got, vec![(0, 0), (1, 0), (2, 1), (3, 1), (4, 2), (5, 2)]);
}

#[test]
fn line_reaches_both_ends_in_every_direction() {
    let mut fb = Framebuffer::new(8, 8, Color::black());
    draw_line_minimap(&mut fb, 3, 3, 0, 0);
    let mut got = lit(&fb, Color::white());
    got.sort();
    assert_eq!(got, vec![(0, 0), (1, 1), (2, 2), (3, 3)]);

    let mut fb = Framebuffer::new(8, 8, Color::black());
    draw_line_minimap(&mut fb, 2, 5, 2, 1);
    let mut got = lit(&fb, Color::white());
    got.sort();
    assert_eq!(got, vec![(2, 1), (2, 2), (2, 3), (2, 4), (2, 5)]);
}

#[test]
fn line_off_screen_part_is_skipped() {
    let mut fb = Framebuffer::new(8, 8, Color::black());
    draw_line_minimap(&mut fb, 0, 0, -3, 7);
    let got = lit(&fb, Color::white());
    assert_eq!(got, vec![(0, 0), (0, 1)]);
}

#[test]
fn single_point_line() {
    let mut fb = Framebuffer::new(3, 3, Color::black());
    draw_line_minimap(&mut fb, 1, 1, 1, 1);
    assert_eq!(lit(&fb, Color::white()), vec![(1, 1)]);
}

#[test]
fn far_apart_endpoints_do_not_overflow() {
    let mut fb = Framebuffer::new(3, 3, Color::black());
    draw_line_minimap(&mut fb, 1, 1, 1, 1_000_000);
    assert_eq!(lit(&fb, Color::white()), vec![(1, 1), (1, 2)]);
}
