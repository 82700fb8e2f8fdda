use vstd::prelude::*;
use crate::color::Color;
use crate::framebuffer::{Framebuffer, Layer, painted, layered, rect, lemma_layered_empty, lemma_layered_push, lemma_painted_compose, lemma_painted_same_shape};
use crate::menu::{Menu, MapOption};
use crate::text::{draw_text_centered, draw_text_large, text_shape, centered_x};

verus! {

/// Gold, the colour of the selected option.
pub open spec fn gold() -> Color {
    Color { r: 255, g: 215, b: 0, a: 255 }
}

/// The colour of the options that are not selected.
pub open spec fn option_grey() -> Color {
    Color { r: 150, g: 150, b: 150, a: 255 }
}

/// The layers of one option, its name's top `y + 20`: a `>` marker above the
/// selected option, then the name, gold when selected, grey otherwise.
pub open spec fn one_option_layers(name: Seq<char>, selected: bool, w: int, y: int) -> Seq<Layer> {
    if selected {
        seq![
            (text_shape(seq!['>'], centered_x(w, 1, 3), y - 10, 3), gold()),
            (text_shape(name, centered_x(w, name.len() as int, 2), y + 20, 2), gold()),
        ]
    } else {
        seq![(text_shape(name, centered_x(w, name.len() as int, 2), y + 20, 2), option_grey())]
    }
}

/// The layers of the first `k` options, option `i` placed `80 * i` below the
/// middle of the screen.
pub open spec fn option_layers(names: Seq<Seq<char>>, selected: int, w: int, h: int, k: int) -> Seq<Layer>
    decreases k,
{
    if k <= 0 {
        Seq::empty()
    } else {
        option_layers(names, selected, w, h, k - 1) + one_option_layers(
            names[k - 1],
            k - 1 == selected,
            w,
            h / 2 + 80 * (k - 1),
        )
    }
}

/// The option layers of the first `k` options, laid out option by option:
/// option `i` (its name's top at `h / 2 + 80 * i + 20`) starts at layer
/// `i`, one further when the selected option comes before it. The selected
/// option, and only it, gets a gold `>` marker above it and its name in gold;
/// every other option is its name alone in grey. So there are `k` layers, one
/// more when the selected option is among the first `k`.
pub proof fn lemma_only_selected_option_is_gold(names: Seq<Seq<char>>, selected: int, w: int, h: int, k: int)
    requires
        0 <= k <= names.len(),
    ensures
        option_layers(names, selected, w, h, k).len() == k + (if 0 <= selected < k { 1int } else { 0int }),
        forall|i: int|
            #![trigger names[i]]
            0 <= i < k ==> {
                let layers = option_layers(names, selected, w, h, k);
                let y = h / 2 + 80 * i;
                let p = i + (if 0 <= selected < i { 1int } else { 0int });
                let name = text_shape(names[i], centered_x(w, names[i].len() as int, 2), y + 20, 2);
                if i == selected {
                    &&& layers[p] == (text_shape(seq!['>'], centered_x(w, 1, 3), y - 10, 3), Color { r: 255, g: 215, b: 0, a: 255 })
                    &&& layers[p + 1] == (name, Color { r: 255, g: 215, b: 0, a: 255 })
                } else {
                    layers[p] == (name, Color { r: 150, g: 150, b: 150, a: 255 })
                }
            },
    decreases k,
{
    if k > 0 {
        lemma_only_selected_option_is_gold(names, selected, w, h, k - 1);
        let prev = option_layers(names, selected, w, h, k - 1);
        let last = one_option_layers(names[k - 1], k - 1 == selected, w, h / 2 + 80 * (k - 1));
        let layers = option_layers(names, selected, w, h, k);
        assert(layers == prev + last);
        assert forall|i: int|
            #![trigger names[i]]
            0 <= i < k implies {
                let y = h / 2 + 80 * i;
                let p = i + (if 0 <= selected < i { 1int } else { 0int });
                let name = text_shape(names[i], centered_x(w, names[i].len() as int, 2), y + 20, 2);
                if i == selected {
                    &&& layers[p] == (text_shape(seq!['>'], centered_x(w, 1, 3), y - 10, 3), Color { r: 255, g: 215, b: 0, a: 255 })
                    &&& layers[p + 1] == (name, Color { r: 255, g: 215, b: 0, a: 255 })
                } else {
                    layers[p] == (name, Color { r: 150, g: 150, b: 150, a: 255 })
                }
            } by {
            let p = i + (if 0 <= selected < i { 1int } else { 0int });
            if i < k - 1 {
                assert(names[i] == names[i]);
                assert(p < prev.len());
                if i == selected {
                    assert(p + 1 < prev.len());
                    assert(layers[p + 1] == prev[p + 1]);
                }
                assert(layers[p] == prev[p]);
            } else {
                assert(p == prev.len());
                assert(layers[p] == last[0]);
                if i == selected {
                    assert(layers[p + 1] == last[1]);
                }
            }
        }
    }
}

/// The names shown for the options.
pub open spec fn option_names(options: Seq<MapOption>) -> Seq<Seq<char>> {
    options.map_values(|o: MapOption| o.display_name@)
}

/// The layers of the menu screen: the background, the title, the subtitle, the
/// options and the key help at the bottom.
pub open spec fn menu_layers(names: Seq<Seq<char>>, selected: int, w: int, h: int, background: Color) -> Seq<Layer> {
    seq![
        ((|x: int, y: int| true), background),
        (rect(0, 0, w, h), Color { r: 20, g: 20, b: 40, a: 255 }),
        (text_shape("La Torpeza del Aprendiz"@, centered_x(w, 23, 4), h / 6, 4), Color { r: 255, g: 255, b: 255, a: 255 }),
        (text_shape("Selecciona un Mapa"@, centered_x(w, 18, 2), h / 3, 2), Color { r: 200, g: 200, b: 200, a: 255 }),
    ] + option_layers(names, selected, w, h, names.len() as int) + seq![
        (
            text_shape("Flechas: Navegar  |  ENTER: Seleccionar"@, centered_x(w, 39, 1), h - 100, 1),
            Color { r: 100, g: 100, b: 100, a: 255 },
        ),
    ]
}

/// Draws the map-selection menu.
pub fn render_menu(framebuffer: &mut Framebuffer, menu: &Menu)
    requires
        old(framebuffer).wf(),
        old(framebuffer).w() <= i32::MAX,
        100 <= old(framebuffer).h() <= i32::MAX,
        old(framebuffer).h() / 2 + 80 * menu.options@.len() + 40 <= i32::MAX,
        forall|i: int| 0 <= i < menu.options@.len() ==> #[trigger] menu.options@[i].display_name@.len() * 12 <= i32::MAX,
    ensures
        layered(
            *old(framebuffer),
            *final(framebuffer),
            menu_layers(
                option_names(menu.options@),
                menu.selected_option as int,
                old(framebuffer).w(),
                old(framebuffer).h(),
                old(framebuffer).background(),
            ),
        ),
        final(framebuffer).current() == (Color { r: 100, g: 100, b: 100, a: 255 }),
{
    let ghost start = *framebuffer;
    let ghost gw = start.w();
    let ghost gh = start.h();
    let ghost names = option_names(menu.options@);
    framebuffer.clear();
    proof {
        lemma_layered_empty(start);
        lemma_layered_push(start, start, *framebuffer, Seq::empty(), |x: int, y: int| true, start.background());
    }
    let ghost l0 = Seq::<Layer>::empty().push(((|x: int, y: int| true), start.background()));
    let ghost s0 = *framebuffer;
    let back = Color::new(20, 20, 40, 255);
    framebuffer.set_current_color(back);
    let ghost s1 = *framebuffer;
    let w = framebuffer.width() as i32;
    let h = framebuffer.height() as i32;
    framebuffer.fill_rect(0, 0, w, h);
    proof {
        lemma_painted_compose(s0, s1, *framebuffer, |x: int, y: int| false, rect(0, 0, w as int, h as int), back);
        lemma_painted_same_shape(
            s0,
            *framebuffer,
            |x: int, y: int| false || rect(0, 0, w as int, h as int)(x, y),
            rect(0, 0, w as int, h as int),
            back,
        );
        lemma_layered_push(start, s0, *framebuffer, l0, rect(0, 0, w as int, h as int), back);
    }
    let ghost l1 = l0.push((rect(0, 0, w as int, h as int), back));
    let ghost s2 = *framebuffer;
    let title = "La Torpeza del Aprendiz";
    proof {
        reveal_strlit("La Torpeza del Aprendiz");
    }
    let white = Color::new(255, 255, 255, 255);
    let ty: i32 = (framebuffer.height() / 6) as i32;
    draw_text_large(framebuffer, title, ty, white);
    proof {
        lemma_layered_push(start, s2, *framebuffer, l1, text_shape(title@, centered_x(gw, 23, 4), ty as int, 4), white);
    }
    let ghost l2 = l1.push((text_shape(title@, centered_x(gw, 23, 4), ty as int, 4), white));
    let ghost s3 = *framebuffer;
    let subtitle = "Selecciona un Mapa";
    proof {
        reveal_strlit("Selecciona un Mapa");
    }
    let light = Color::new(200, 200, 200, 255);
    let sy: i32 = (framebuffer.height() / 3) as i32;
    draw_text_centered(framebuffer, subtitle, sy, light, 2);
    proof {
        lemma_layered_push(start, s3, *framebuffer, l2, text_shape(subtitle@, centered_x(gw, 18, 2), sy as int, 2), light);
    }
    let ghost head = l2.push((text_shape(subtitle@, centered_x(gw, 18, 2), sy as int, 2), light));
    let start_y: i32 = (framebuffer.height() / 2) as i32;
    let spacing: i32 = 80;
    let n = menu.options.len();
    let mut idx: usize = 0;
    while idx < n
        invariant
            framebuffer.wf(),
            start == *old(framebuffer),
            gw == start.w() && gh == start.h(),
            framebuffer.w() == gw && framebuffer.h() == gh,
            gw <= i32::MAX,
            100 <= gh <= i32::MAX,
            start_y == gh / 2,
            spacing == 80,
            n == menu.options@.len(),
            names == option_names(menu.options@),
            gh / 2 + 80 * n + 40 <= i32::MAX,
            forall|i: int| 0 <= i < menu.options@.len() ==> #[trigger] menu.options@[i].display_name@.len() * 12 <= i32::MAX,
            0 <= idx <= n,
            layered(start, *framebuffer, head + option_layers(names, menu.selected_option as int, gw, gh, idx as int)),
        decreases n - idx,
    {
        let y: i32 = start_y + (idx as i32) * spacing;
        let ghost before = head + option_layers(names, menu.selected_option as int, gw, gh, idx as int);
        let option = &menu.options[idx];
        let name: &str = option.display_name.as_str();
        assert(names[idx as int] == name@);
        assert(name@.len() * 12 <= i32::MAX);
        if idx == menu.selected_option {
            let c = Color::new(255, 215, 0, 255);
            let marker = ">";
            proof {
                reveal_strlit(">");
                assert(marker@ =~= seq!['>']);
            }
            let ghost t0 = *framebuffer;
            draw_text_centered(framebuffer, marker, y - 10, c, 3);
            proof {
                lemma_layered_push(start, t0, *framebuffer, before, text_shape(seq!['>'], centered_x(gw, 1, 3), y - 10, 3), c);
            }
            let ghost t1 = *framebuffer;
            draw_text_centered(framebuffer, name, y + 20, c, 2);
            proof {
                lemma_layered_push(
                    start,
                    t1,
                    *framebuffer,
                    before.push((text_shape(seq!['>'], centered_x(gw, 1, 3), y - 10, 3), c)),
                    text_shape(name@, centered_x(gw, name@.len() as int, 2), y + 20, 2),
                    c,
                );
                assert(before.push((text_shape(seq!['>'], centered_x(gw, 1, 3), y - 10, 3), c)).push(
                    (text_shape(name@, centered_x(gw, name@.len() as int, 2), y + 20, 2), c),
                ) =~= head + option_layers(names, menu.selected_option as int, gw, gh, idx as int + 1));
            }
        } else {
            let c = Color::new(150, 150, 150, 255);
            let ghost t1 = *framebuffer;
            draw_text_centered(framebuffer, name, y + 20, c, 2);
            proof {
                lemma_layered_push(
                    start,
                    t1,
                    *framebuffer,
                    before,
                    text_shape(name@, centered_x(gw, name@.len() as int, 2), y + 20, 2),
                    c,
                );
                assert(before.push((text_shape(name@, centered_x(gw, name@.len() as int, 2), y + 20, 2), c))
                    =~= head + option_layers(names, menu.selected_option as int, gw, gh, idx as int + 1));
            }
        }
        idx = idx + 1;
    }
    let ghost body = head + option_layers(names, menu.selected_option as int, gw, gh, n as int);
    let ghost s4 = *framebuffer;
    let instructions = "Flechas: Navegar  |  ENTER: Seleccionar";
    proof {
        reveal_strlit("Flechas: Navegar  |  ENTER: Seleccionar");
    }
    let dim = Color::new(100, 100, 100, 255);
    let iy: i32 = (framebuffer.height() - 100) as i32;
    draw_text_centered(framebuffer, instructions, iy, dim, 1);
    proof {
        lemma_layered_push(start, s4, *framebuffer, body, text_shape(instructions@, centered_x(gw, 39, 1), iy as int, 1), dim);
        assert(names.len() == n);
        assert(body.push((text_shape(instructions@, centered_x(gw, 39, 1), iy as int, 1), dim)) =~= menu_layers(
            names,
            menu.selected_option as int,
            gw,
            gh,
            start.background(),
        ));
    }
}

} // verus!
