use vstd::prelude::*;
use crate::color::Color;
use crate::framebuffer::{
    Framebuffer,
    Layer,
    painted,
    layered,
    rect,
    shade,
    lemma_layered_empty,
    lemma_layered_push,
    lemma_shade_concat,
    lemma_shade_push,
    lemma_shade_uncovered,
    lemma_layered_push_colored,
    lemma_painted_compose,
    lemma_painted_same_shape,
};
use crate::inventory::Inventory;
use crate::text::{draw_text_centered, text_shape, centered_x, text_char_covers, glyph_lit};
use crate::textures::TextureManager;

verus! {

/// The decimal digits of `n`, most significant first, without sign or padding.
pub open spec fn decimal(n: nat) -> Seq<char>
    decreases n,
{
    if n < 10 {
        seq![digit_char(n)]
    } else {
        decimal(n / 10).push(digit_char(n % 10))
    }
}

/// The character of the decimal digit `d`.
pub open spec fn digit_char(d: nat) -> char {
    (d + 48) as char
}

/// Ten to the power `k`.
pub open spec fn pow10(k: nat) -> nat
    decreases k,
{
    if k == 0 {
        1
    } else {
        10 * pow10((k - 1) as nat)
    }
}

/// The one-character text of decimal digit `d`.
fn digit_text(d: usize) -> (t: &'static str)
    requires
        d < 10,
    ensures
        t@ == seq![digit_char(d as nat)],
{
    match d {
        0 => {
            proof { reveal_strlit("0"); }
            "0"
        },
        1 => {
            proof { reveal_strlit("1"); }
            "1"
        },
        2 => {
            proof { reveal_strlit("2"); }
            "2"
        },
        3 => {
            proof { reveal_strlit("3"); }
            "3"
        },
        4 => {
            proof { reveal_strlit("4"); }
            "4"
        },
        5 => {
            proof { reveal_strlit("5"); }
            "5"
        },
        6 => {
            proof { reveal_strlit("6"); }
            "6"
        },
        7 => {
            proof { reveal_strlit("7"); }
            "7"
        },
        8 => {
            proof { reveal_strlit("8"); }
            "8"
        },
        _ => {
            proof { reveal_strlit("9"); }
            "9"
        },
    }
}

/// The decimal digits of `n`, most significant first.
pub fn decimal_string(n: usize) -> (s: String)
    ensures
        s@ == decimal(n as nat),
    decreases n,
{
    if n < 10 {
        String::from_str(digit_text(n))
    } else {
        let mut s = decimal_string(n / 10);
        s.append(digit_text(n % 10));
        s
    }
}

/// The label of the inventory counter: the count in decimal, then `/3`.
pub fn count_label(count: usize) -> (s: String)
    ensures
        s@ == decimal(count as nat) + seq!['/', '3'],
{
    let mut s = decimal_string(count);
    let tail = "/3";
    proof {
        reveal_strlit("/3");
    }
    s.append(tail);
    s
}

proof fn lemma_decimal_len(n: nat, k: nat)
    requires
        k >= 1,
        n < pow10(k),
    ensures
        decimal(n).len() <= k,
    decreases n,
{
    if n >= 10 {
        assert(k >= 2) by {
            if k == 1 {
                assert(pow10(1) == 10 * pow10(0));
            }
        }
        assert(pow10(k) == 10 * pow10((k - 1) as nat));
        lemma_decimal_len(n / 10, (k - 1) as nat);
    }
}

/// The counter label is at most 22 characters long.
proof fn lemma_count_label(count: usize)
    ensures
        (decimal(count as nat) + seq!['/', '3']).len() <= 22,
{
    reveal_with_fuel(pow10, 21);
    assert(pow10(20) == 100000000000000000000nat);
    lemma_decimal_len(count as nat, 20);
}

/// The texel chosen for each pixel of a 50 x 50 inventory icon: texel column
/// `cols[x]` for icon column `x`, texel row `rows[y]` for icon row `y`.
pub struct IconSampling {
    pub cols: Vec<u32>,
    pub rows: Vec<u32>,
}

/// A colour is drawn only when its alpha is at least 10.
pub open spec fn is_opaque(c: Color) -> bool {
    c.a >= 10
}

/// The opaque texels of icon column `x` (rows `0 .. n`), each a one-pixel layer.
pub open spec fn icon_column_layers(
    tm: TextureManager,
    key: char,
    xs: int,
    ys: int,
    tx: u32,
    rows: Seq<u32>,
    x: int,
    n: int,
) -> Seq<Layer>
    decreases n,
{
    if n <= 0 {
        Seq::empty()
    } else {
        let prev = icon_column_layers(tm, key, xs, ys, tx, rows, x, n - 1);
        let c = tm.texel(key, tx, rows[n - 1]);
        if is_opaque(c) {
            prev.push(((|px: int, py: int| px == xs + x && py == ys + n - 1), c))
        } else {
            prev
        }
    }
}

/// The opaque texels of the first `m` icon columns, column by column.
pub open spec fn icon_layers(tm: TextureManager, key: char, xs: int, ys: int, cols: Seq<u32>, rows: Seq<u32>, m: int) -> Seq<
    Layer,
>
    decreases m,
{
    if m <= 0 {
        Seq::empty()
    } else {
        icon_layers(tm, key, xs, ys, cols, rows, m - 1) + icon_column_layers(
            tm,
            key,
            xs,
            ys,
            cols[m - 1],
            rows,
            m - 1,
            rows.len() as int,
        )
    }
}

pub(crate) proof fn lemma_pack_alpha(r: u8, g: u8, b: u8, a: u8)
    ensures
        (((a as u32) << 24u32) | ((r as u32) << 16u32) | ((g as u32) << 8u32) | (b as u32)) / 0x100_0000 == a,
{
    assert((((a as u32) << 24u32) | ((r as u32) << 16u32) | ((g as u32) << 8u32) | (b as u32)) / 0x100_0000u32 == a as u32)
        by (bit_vector);
}

/// Draws the 50 x 50 icon of texture `key` with its top-left corner at
/// `(x_start, y_start)`, pixel by pixel, column by column, skipping the
/// transparent texels.
fn draw_inventory_icon(
    framebuffer: &mut Framebuffer,
    texture_manager: &TextureManager,
    key: char,
    x_start: i32,
    y_start: i32,
    sampling: &IconSampling,
)
    requires
        old(framebuffer).wf(),
        texture_manager.wf(),
        texture_manager.image_for(key) matches Some(img) ==> img.width > 0 && img.height > 0,
        sampling.cols@.len() == 50,
        sampling.rows@.len() == 50,
        x_start + 50 <= i32::MAX + 1,
        y_start + 50 <= i32::MAX + 1,
    ensures
        layered(
            *old(framebuffer),
            *final(framebuffer),
            icon_layers(*texture_manager, key, x_start as int, y_start as int, sampling.cols@, sampling.rows@, 50),
        ),
{
    let ghost start = *framebuffer;
    let ghost tm = *texture_manager;
    proof {
        lemma_layered_empty(start);
    }
    let mut x: i32 = 0;
    while x < 50
        invariant
            framebuffer.wf(),
            start == *old(framebuffer),
            tm == *texture_manager,
            texture_manager.wf(),
            texture_manager.image_for(key) matches Some(img) ==> img.width > 0 && img.height > 0,
            sampling.cols@.len() == 50,
            sampling.rows@.len() == 50,
            x_start + 50 <= i32::MAX + 1,
            y_start + 50 <= i32::MAX + 1,
            0 <= x <= 50,
            layered(start, *framebuffer, icon_layers(tm, key, x_start as int, y_start as int, sampling.cols@, sampling.rows@, x as int)),
        decreases 50 - x,
    {
        let tx = sampling.cols[x as usize];
        let ghost done = icon_layers(tm, key, x_start as int, y_start as int, sampling.cols@, sampling.rows@, x as int);
        let mut y: i32 = 0;
        while y < 50
            invariant
                framebuffer.wf(),
                start == *old(framebuffer),
                tm == *texture_manager,
                texture_manager.wf(),
                texture_manager.image_for(key) matches Some(img) ==> img.width > 0 && img.height > 0,
                sampling.cols@.len() == 50,
                sampling.rows@.len() == 50,
                x_start + 50 <= i32::MAX + 1,
                y_start + 50 <= i32::MAX + 1,
                0 <= x < 50,
                0 <= y <= 50,
                tx == sampling.cols@[x as int],
                done == icon_layers(tm, key, x_start as int, y_start as int, sampling.cols@, sampling.rows@, x as int),
                layered(
                    start,
                    *framebuffer,
                    done + icon_column_layers(tm, key, x_start as int, y_start as int, tx, sampling.rows@, x as int, y as int),
                ),
            decreases 50 - y,
        {
            let ty = sampling.rows[y as usize];
            let color = texture_manager.get_pixel_color(key, tx, ty);
            let pixel_u32: u32 = ((color.a as u32) << 24) | ((color.r as u32) << 16) | ((color.g as u32) << 8) | (color.b as u32);
            proof {
                lemma_pack_alpha(color.r, color.g, color.b, color.a);
            }
            let ghost before = done + icon_column_layers(tm, key, x_start as int, y_start as int, tx, sampling.rows@, x as int, y as int);
            if !texture_manager.is_pixel_transparent(key as u32, pixel_u32) {
                let ghost b = *framebuffer;
                framebuffer.set_current_color(color);
                let ghost b2 = *framebuffer;
                framebuffer.set_pixel(x_start + x, y_start + y);
                proof {
                    let ghost pt = |px: int, py: int| px == x_start + x && py == y_start + y;
                    lemma_layered_push_colored(start, b, b2, *framebuffer, before, pt, color);
                    assert(before.push((pt, color)) =~= done + icon_column_layers(
                        tm,
                        key,
                        x_start as int,
                        y_start as int,
                        tx,
                        sampling.rows@,
                        x as int,
                        y as int + 1,
                    ));
                }
            } else {
                proof {
                    assert(before =~= done + icon_column_layers(
                        tm,
                        key,
                        x_start as int,
                        y_start as int,
                        tx,
                        sampling.rows@,
                        x as int,
                        y as int + 1,
                    ));
                }
            }
            y = y + 1;
        }
        x = x + 1;
    }
}

/// The white one-pixel frame of the inventory panel.
pub open spec fn inventory_border() -> spec_fn(int, int) -> bool {
    |px: int, py: int| (20 <= px < 240 && (py == 20 || py == 109)) || (20 <= py < 110 && (px == 20 || px == 239))
}

/// The layers of the first `k` slots: each slot a dark square, 60 pixels
/// apart, with the icon of the item held in that slot on top.
pub open spec fn slot_layers(tm: TextureManager, items: Seq<char>, samplings: Seq<IconSampling>, k: int) -> Seq<Layer>
    decreases k,
{
    if k <= 0 {
        Seq::empty()
    } else {
        let s = k - 1;
        let with_slot = slot_layers(tm, items, samplings, k - 1).push(
            (rect(40 + 60 * s, 40, 50, 50), Color { r: 50, g: 50, b: 50, a: 255 }),
        );
        if s < items.len() {
            with_slot + icon_layers(tm, items[s], 40 + 60 * s, 40, samplings[s].cols@, samplings[s].rows@, 50)
        } else {
            with_slot
        }
    }
}

/// The layers of the inventory panel: a translucent black panel, its white
/// frame, three slots with the first three items, and the counter
/// `count/3` centred below.
pub open spec fn inventory_layers(tm: TextureManager, items: Seq<char>, samplings: Seq<IconSampling>, w: int) -> Seq<Layer> {
    seq![
        (rect(20, 20, 220, 90), Color { r: 0, g: 0, b: 0, a: 180 }),
        (inventory_border(), Color { r: 255, g: 255, b: 255, a: 255 }),
    ] + slot_layers(tm, items, samplings, 3) + seq![
        (
            text_shape(
                decimal(items.len()) + seq!['/', '3'],
                centered_x(w, (decimal(items.len()) + seq!['/', '3']).len() as int, 2),
                120,
                2,
            ),
            Color { r: 255, g: 255, b: 255, a: 255 },
        ),
    ]
}

/// There is a 50 x 50 sampling for each of the first three items, and the
/// image of each of them, if any, is not empty.
pub open spec fn samplings_ok(tm: TextureManager, items: Seq<char>, samplings: Seq<IconSampling>) -> bool {
    forall|s: int|
        0 <= s < 3 && s < items.len() ==> s < samplings.len() && #[trigger] samplings[s].cols@.len() == 50
            && samplings[s].rows@.len() == 50 && (tm.image_for(items[s]) matches Some(img) ==> img.width > 0
            && img.height > 0)
}

/// The colour one icon column gives screen point `(px, py)` over `base`.
proof fn lemma_icon_column_shade(
    tm: TextureManager,
    key: char,
    xs: int,
    ys: int,
    tx: u32,
    rows: Seq<u32>,
    x: int,
    n: int,
    px: int,
    py: int,
    base: Color,
)
    requires
        0 <= n <= rows.len(),
    ensures
        shade(icon_column_layers(tm, key, xs, ys, tx, rows, x, n), px, py, base) == (if px == xs + x && 0 <= py - ys < n
            && tm.texel(key, tx, rows[py - ys]).a >= 10 {
            tm.texel(key, tx, rows[py - ys])
        } else {
            base
        }),
    decreases n,
{
    if n > 0 {
        let prev = icon_column_layers(tm, key, xs, ys, tx, rows, x, n - 1);
        lemma_icon_column_shade(tm, key, xs, ys, tx, rows, x, n - 1, px, py, base);
        let c = tm.texel(key, tx, rows[n - 1]);
        if is_opaque(c) {
            lemma_shade_push(prev, ((|qx: int, qy: int| qx == xs + x && qy == ys + n - 1), c), px, py, base);
        }
    }
}

/// The colour the first `m` icon columns give screen point `(px, py)` over `base`.
proof fn lemma_icon_shade(
    tm: TextureManager,
    key: char,
    xs: int,
    ys: int,
    cols: Seq<u32>,
    rows: Seq<u32>,
    m: int,
    px: int,
    py: int,
    base: Color,
)
    requires
        0 <= m <= cols.len(),
    ensures
        shade(icon_layers(tm, key, xs, ys, cols, rows, m), px, py, base) == (if 0 <= px - xs < m && 0 <= py - ys
            < rows.len() && tm.texel(key, cols[px - xs], rows[py - ys]).a >= 10 {
            tm.texel(key, cols[px - xs], rows[py - ys])
        } else {
            base
        }),
    decreases m,
{
    if m > 0 {
        let prev = icon_layers(tm, key, xs, ys, cols, rows, m - 1);
        let col = icon_column_layers(tm, key, xs, ys, cols[m - 1], rows, m - 1, rows.len() as int);
        lemma_icon_shade(tm, key, xs, ys, cols, rows, m - 1, px, py, base);
        lemma_shade_concat(prev, col, px, py, base);
        lemma_icon_column_shade(tm, key, xs, ys, cols[m - 1], rows, m - 1, rows.len() as int, px, py, shade(prev, px, py, base));
    }
}

/// What slot `s` shows at icon pixel `(x, y)`: the sampled texel of item `s`
/// when the slot holds an item and the texel is opaque, the dark slot colour
/// otherwise.
pub open spec fn slot_pixel(tm: TextureManager, items: Seq<char>, samplings: Seq<IconSampling>, s: int, x: int, y: int) -> Color {
    if s < items.len() && tm.texel(items[s], samplings[s].cols@[x], samplings[s].rows@[y]).a >= 10 {
        tm.texel(items[s], samplings[s].cols@[x], samplings[s].rows@[y])
    } else {
        Color { r: 50, g: 50, b: 50, a: 255 }
    }
}

proof fn lemma_slots_shade(
    tm: TextureManager,
    items: Seq<char>,
    samplings: Seq<IconSampling>,
    k: int,
    s: int,
    x: int,
    y: int,
    base: Color,
)
    requires
        0 <= k <= 3,
        0 <= s < 3,
        0 <= x < 50,
        0 <= y < 50,
        samplings_ok(tm, items, samplings),
    ensures
        shade(slot_layers(tm, items, samplings, k), 40 + 60 * s + x, 40 + y, base) == (if s < k {
            slot_pixel(tm, items, samplings, s, x, y)
        } else {
            base
        }),
    decreases k,
{
    let px = 40 + 60 * s + x;
    let py = 40 + y;
    if k > 0 {
        let t = k - 1;
        let prev = slot_layers(tm, items, samplings, t);
        let dark = Color { r: 50, g: 50, b: 50, a: 255 };
        let with_slot = prev.push((rect(40 + 60 * t, 40, 50, 50), dark));
        lemma_slots_shade(tm, items, samplings, t, s, x, y, base);
        lemma_shade_push(prev, (rect(40 + 60 * t, 40, 50, 50), dark), px, py, base);
        if t < items.len() {
            assert(samplings[t].cols@.len() == 50);
            let icon = icon_layers(tm, items[t], 40 + 60 * t, 40, samplings[t].cols@, samplings[t].rows@, 50);
            assert(slot_layers(tm, items, samplings, k) == with_slot + icon);
            lemma_shade_concat(with_slot, icon, px, py, base);
            lemma_icon_shade(
                tm,
                items[t],
                40 + 60 * t,
                40,
                samplings[t].cols@,
                samplings[t].rows@,
                50,
                px,
                py,
                shade(with_slot, px, py, base),
            );
            if t == s {
                assert(px - (40 + 60 * t) == x && py - 40 == y);
            }
        }
    }
}

proof fn lemma_text_below(label: Seq<char>, x0: int, px: int, py: int)
    requires
        py < 120,
    ensures
        !text_shape(label, x0, 120, 2)(px, py),
{
    if text_shape(label, x0, 120, 2)(px, py) {
        let i = choose|i: int| 0 <= i < label.len() && #[trigger] text_char_covers(label, i, x0, 120, 2, px, py);
        let (c, r) = choose|c: int, r: int|
            #[trigger] glyph_lit(label[i], c, r) && rect(x0 + i * (6 * 2) + c * 2, 120 + r * 2, 2, 2)(px, py);
    }
}

/// What the inventory panel shows in its three slots: slot `s` holds the icon
/// of the `s`-th collected item when there is one, so every collected item
/// among the first three is shown, in its own slot. Its 50 x 50 pixels, from
/// `(40 + 60 * s, 40)`, show the opaque sampled texels of that item's texture
/// and the dark slot colour elsewhere; a slot with no item is dark throughout.
pub proof fn lemma_inventory_slots_show_items(
    before: Framebuffer,
    after: Framebuffer,
    tm: TextureManager,
    items: Seq<char>,
    samplings: Seq<IconSampling>,
    s: int,
    x: int,
    y: int,
)
    requires
        layered(before, after, inventory_layers(tm, items, samplings, before.w())),
        samplings_ok(tm, items, samplings),
        0 <= s < 3,
        0 <= x < 50,
        0 <= y < 50,
        after.in_bounds(40 + 60 * s + x, 40 + y),
    ensures
        after.pixel(40 + 60 * s + x, 40 + y) == (if s < items.len() && tm.texel(
            items[s],
            samplings[s].cols@[x],
            samplings[s].rows@[y],
        ).a >= 10 {
            tm.texel(items[s], samplings[s].cols@[x], samplings[s].rows@[y])
        } else {
            Color { r: 50, g: 50, b: 50, a: 255 }
        }),
{
    let px = 40 + 60 * s + x;
    let py = 40 + y;
    let base = before.pixel(px, py);
    let head = seq![
        (rect(20, 20, 220, 90), Color { r: 0, g: 0, b: 0, a: 180 }),
        (inventory_border(), Color { r: 255, g: 255, b: 255, a: 255 }),
    ];
    let slots = slot_layers(tm, items, samplings, 3);
    let label = decimal(items.len()) + seq!['/', '3'];
    let text = seq![
        (text_shape(label, centered_x(before.w(), label.len() as int, 2), 120, 2), Color { r: 255, g: 255, b: 255, a: 255 }),
    ];
    assert(inventory_layers(tm, items, samplings, before.w()) == head + slots + text);
    lemma_shade_concat(head + slots, text, px, py, base);
    lemma_shade_concat(head, slots, px, py, base);
    lemma_slots_shade(tm, items, samplings, 3, s, x, y, shade(head, px, py, base));
    lemma_text_below(label, centered_x(before.w(), label.len() as int, 2), px, py);
    lemma_shade_uncovered(text, px, py, shade(head + slots, px, py, base));
}

/// Draws the inventory panel in the top-left corner. The icon of slot `s` is
/// sampled as `samplings[s]` says.
pub fn render_inventory(
    framebuffer: &mut Framebuffer,
    inventory: &Inventory,
    texture_manager: &TextureManager,
    samplings: &Vec<IconSampling>,
)
    requires
        old(framebuffer).wf(),
        old(framebuffer).w() <= i32::MAX,
        texture_manager.wf(),
        samplings_ok(*texture_manager, inventory.collected_items@, samplings@),
    ensures
        layered(
            *old(framebuffer),
            *final(framebuffer),
            inventory_layers(*texture_manager, inventory.collected_items@, samplings@, old(framebuffer).w()),
        ),
        forall|s: int, x: int, y: int|
            0 <= s < 3 && 0 <= x < 50 && 0 <= y < 50 && final(framebuffer).in_bounds(40 + 60 * s + x, 40 + y)
                ==> #[trigger] final(framebuffer).pixel(40 + 60 * s + x, 40 + y) == slot_pixel(
                *texture_manager,
                inventory.collected_items@,
                samplings@,
                s,
                x,
                y,
            ),
        final(framebuffer).current() == Color::white(),
{
    let ghost start = *framebuffer;
    let ghost tm = *texture_manager;
    let ghost items = inventory.collected_items@;
    let padding: i32 = 20;
    let icon_size: i32 = 50;
    let spacing: i32 = 10;
    proof {
        lemma_layered_empty(start);
    }
    let panel = Color::new(0, 0, 0, 180);
    let bg_width: i32 = (icon_size + spacing) * 3 + padding * 2;
    let bg_height: i32 = icon_size + padding * 2;
    framebuffer.set_current_color(panel);
    let ghost b1 = *framebuffer;
    framebuffer.fill_rect(padding, padding, bg_width, bg_height);
    proof {
        lemma_layered_push_colored(start, start, b1, *framebuffer, Seq::empty(), rect(20, 20, 220, 90), panel);
    }
    let ghost l1 = Seq::<Layer>::empty().push((rect(20, 20, 220, 90), panel));
    let ghost s1 = *framebuffer;
    let white = Color::new(255, 255, 255, 255);
    framebuffer.set_current_color(white);
    let ghost s2 = *framebuffer;
    framebuffer.fill_rect(padding, padding, bg_width, 1);
    let ghost s3 = *framebuffer;
    framebuffer.fill_rect(padding, padding + bg_height - 1, bg_width, 1);
    let ghost s4 = *framebuffer;
    framebuffer.fill_rect(padding, padding, 1, bg_height);
    let ghost s5 = *framebuffer;
    framebuffer.fill_rect(padding + bg_width - 1, padding, 1, bg_height);
    proof {
        let r0 = rect(20, 20, 220, 1);
        let r1 = rect(20, 109, 220, 1);
        let r2 = rect(20, 20, 1, 90);
        let r3 = rect(239, 20, 1, 90);
        lemma_painted_compose(s2, s3, s4, r0, r1, white);
        let u1 = |px: int, py: int| r0(px, py) || r1(px, py);
        lemma_painted_compose(s2, s4, s5, u1, r2, white);
        let u2 = |px: int, py: int| u1(px, py) || r2(px, py);
        lemma_painted_compose(s2, s5, *framebuffer, u2, r3, white);
        let u3 = |px: int, py: int| u2(px, py) || r3(px, py);
        lemma_painted_same_shape(s2, *framebuffer, u3, inventory_border(), white);
        lemma_layered_push_colored(start, s1, s2, *framebuffer, l1, inventory_border(), white);
    }
    let ghost head = l1.push((inventory_border(), white));
    let count = inventory.collected_items.len();
    let mut slot: i32 = 0;
    while slot < 3
        invariant
            framebuffer.wf(),
            start == *old(framebuffer),
            framebuffer.w() == start.w(),
            tm == *texture_manager,
            items == inventory.collected_items@,
            count == items.len(),
            texture_manager.wf(),
            padding == 20 && icon_size == 50 && spacing == 10,
            samplings_ok(tm, items, samplings@),
            0 <= slot <= 3,
            layered(start, *framebuffer, head + slot_layers(tm, items, samplings@, slot as int)),
        decreases 3 - slot,
    {
        let ghost before = head + slot_layers(tm, items, samplings@, slot as int);
        let x_start: i32 = 40 + slot * 60;
        let y_start: i32 = padding * 2;
        let dark = Color::new(50, 50, 50, 255);
        let ghost b = *framebuffer;
        framebuffer.set_current_color(dark);
        let ghost b2 = *framebuffer;
        framebuffer.fill_rect(x_start, y_start, icon_size, icon_size);
        proof {
            lemma_layered_push_colored(start, b, b2, *framebuffer, before, rect(x_start as int, y_start as int, 50, 50), dark);
        }
        let ghost with_slot = before.push((rect(x_start as int, y_start as int, 50, 50), dark));
        if (slot as usize) < count {
            let texture_key = inventory.collected_items[slot as usize];
            assert(samplings@[slot as int].cols@.len() == 50);
            let ghost b3 = *framebuffer;
            draw_inventory_icon(framebuffer, texture_manager, texture_key, x_start, y_start, &samplings[slot as usize]);
            proof {
                let ghost icon = icon_layers(
                    tm,
                    texture_key,
                    x_start as int,
                    y_start as int,
                    samplings@[slot as int].cols@,
                    samplings@[slot as int].rows@,
                    50,
                );
                crate::framebuffer::lemma_layered_concat(start, b3, *framebuffer, with_slot, icon);
                assert(with_slot + icon =~= head + slot_layers(tm, items, samplings@, slot as int + 1));
            }
        } else {
            proof {
                assert(with_slot =~= head + slot_layers(tm, items, samplings@, slot as int + 1));
            }
        }
        slot = slot + 1;
    }
    let ghost body = head + slot_layers(tm, items, samplings@, 3);
    let count_text = count_label(inventory.count());
    let ghost label = decimal(items.len()) + seq!['/', '3'];
    let text: &str = count_text.as_str();
    proof {
        lemma_count_label(count);
        assert(text@ == label);
    }
    let ghost s6 = *framebuffer;
    draw_text_centered(framebuffer, text, padding + bg_height + 10, white, 2);
    proof {
        lemma_layered_push(start, s6, *framebuffer, body, text_shape(label, centered_x(start.w(), label.len() as int, 2), 120, 2), white);
        assert(body.push((text_shape(label, centered_x(start.w(), label.len() as int, 2), 120, 2), white)) =~= inventory_layers(
            tm,
            items,
            samplings@,
            start.w(),
        ));
    }
    proof {
        assert forall|s: int, x: int, y: int|
            0 <= s < 3 && 0 <= x < 50 && 0 <= y < 50 && framebuffer.in_bounds(40 + 60 * s + x, 40 + y) implies #[trigger] framebuffer.pixel(
                40 + 60 * s + x,
                40 + y,
            ) == slot_pixel(tm, items, samplings@, s, x, y) by {
            lemma_inventory_slots_show_items(start, *framebuffer, tm, items, samplings@, s, x, y);
        }
    }
}

} // verus!
