use vstd::prelude::*;
use crate::color::Color;
use crate::framebuffer::{
    Framebuffer,
    Layer,
    layered,
    shade,
    lemma_layered_empty,
    lemma_layered_push_colored,
    lemma_shade_concat,
    lemma_shade_push,
};
use crate::render_inventory::{is_opaque, lemma_pack_alpha};
use crate::textures::TextureManager;

verus! {

/// Where an item appears on the screen and how its texture is laid over it:
/// screen column `x_start + i` shows texel column `cols[i]`, screen row
/// `y_start + j` shows texel row `rows[j]`, and an opaque texel of alpha `a`
/// is drawn with alpha `fade[a]` (the item fades out once picked up).
pub struct ItemSprite {
    pub x_start: i32,
    pub y_start: i32,
    pub cols: Vec<u32>,
    pub rows: Vec<u32>,
    pub fade: Vec<u8>,
}

/// The sprite fits in `i32` screen coordinates and fades every alpha value.
pub open spec fn sprite_ok(sprite: ItemSprite) -> bool {
    &&& sprite.fade@.len() == 256
    &&& sprite.x_start + sprite.cols@.len() <= i32::MAX + 1
    &&& sprite.y_start + sprite.rows@.len() <= i32::MAX + 1
}

/// `c` with its alpha replaced as `fade` says.
pub open spec fn faded(c: Color, fade: Seq<u8>) -> Color {
    Color { r: c.r, g: c.g, b: c.b, a: fade[c.a as int] }
}

/// The opaque texels of sprite column `x` (rows `0 .. n`), each a one-pixel
/// layer in its faded colour.
pub open spec fn sprite_column_layers(
    tm: TextureManager,
    key: char,
    xs: int,
    ys: int,
    tx: u32,
    rows: Seq<u32>,
    fade: Seq<u8>,
    x: int,
    n: int,
) -> Seq<Layer>
    decreases n,
{
    if n <= 0 {
        Seq::empty()
    } else {
        let prev = sprite_column_layers(tm, key, xs, ys, tx, rows, fade, x, n - 1);
        let c = tm.texel(key, tx, rows[n - 1]);
        if is_opaque(c) {
            prev.push(((|px: int, py: int| px == xs + x && py == ys + n - 1), faded(c, fade)))
        } else {
            prev
        }
    }
}

/// The opaque texels of the first `m` sprite columns, column by column.
pub open spec fn sprite_layers(tm: TextureManager, key: char, sprite: ItemSprite, m: int) -> Seq<Layer>
    decreases m,
{
    if m <= 0 {
        Seq::empty()
    } else {
        sprite_layers(tm, key, sprite, m - 1) + sprite_column_layers(
            tm,
            key,
            sprite.x_start as int,
            sprite.y_start as int,
            sprite.cols@[m - 1],
            sprite.rows@,
            sprite.fade@,
            m - 1,
            sprite.rows@.len() as int,
        )
    }
}

/// The colour the drawn sprite gives screen point `(px, py)` over `base`:
/// the faded texel of sprite column `px - xs` and row `py - ys` when that
/// column is among the first `m`, the row is in the sprite and the texel is
/// opaque; `base` otherwise.
proof fn lemma_sprite_shade(tm: TextureManager, key: char, sprite: ItemSprite, m: int, px: int, py: int, base: Color)
    requires
        0 <= m <= sprite.cols@.len(),
    ensures
        shade(sprite_layers(tm, key, sprite, m), px, py, base) == (if 0 <= px - sprite.x_start < m && 0 <= py
            - sprite.y_start < sprite.rows@.len() && tm.texel(
            key,
            sprite.cols@[px - sprite.x_start],
            sprite.rows@[py - sprite.y_start],
        ).a >= 10 {
            faded(tm.texel(key, sprite.cols@[px - sprite.x_start], sprite.rows@[py - sprite.y_start]), sprite.fade@)
        } else {
            base
        }),
    decreases m,
{
    if m > 0 {
        let xs = sprite.x_start as int;
        let ys = sprite.y_start as int;
        let prev = sprite_layers(tm, key, sprite, m - 1);
        let col = sprite_column_layers(
            tm,
            key,
            xs,
            ys,
            sprite.cols@[m - 1],
            sprite.rows@,
            sprite.fade@,
            m - 1,
            sprite.rows@.len() as int,
        );
        lemma_sprite_shade(tm, key, sprite, m - 1, px, py, base);
        lemma_shade_concat(prev, col, px, py, base);
        lemma_sprite_column_shade(
            tm,
            key,
            xs,
            ys,
            sprite.cols@[m - 1],
            sprite.rows@,
            sprite.fade@,
            m - 1,
            sprite.rows@.len() as int,
            px,
            py,
            shade(prev, px, py, base),
        );
    }
}

/// The colour one sprite column gives screen point `(px, py)` over `base`.
proof fn lemma_sprite_column_shade(
    tm: TextureManager,
    key: char,
    xs: int,
    ys: int,
    tx: u32,
    rows: Seq<u32>,
    fade: Seq<u8>,
    x: int,
    n: int,
    px: int,
    py: int,
    base: Color,
)
    requires
        0 <= n <= rows.len(),
    ensures
        shade(sprite_column_layers(tm, key, xs, ys, tx, rows, fade, x, n), px, py, base) == (if px == xs + x && 0 <= py
            - ys < n && tm.texel(key, tx, rows[py - ys]).a >= 10 {
            faded(tm.texel(key, tx, rows[py - ys]), fade)
        } else {
            base
        }),
    decreases n,
{
    if n > 0 {
        let prev = sprite_column_layers(tm, key, xs, ys, tx, rows, fade, x, n - 1);
        lemma_sprite_column_shade(tm, key, xs, ys, tx, rows, fade, x, n - 1, px, py, base);
        let c = tm.texel(key, tx, rows[n - 1]);
        if is_opaque(c) {
            lemma_shade_push(prev, ((|qx: int, qy: int| qx == xs + x && qy == ys + n - 1), faded(c, fade)), px, py, base);
        }
    }
}

/// What a drawn item shows: screen pixel `(x_start + i, y_start + j)` takes
/// the colour of texel `(cols[i], rows[j])` of the item's texture, with its
/// alpha `a` replaced by `fade[a]`, when that texel's alpha is at least 10,
/// and keeps its colour otherwise. Screen rows follow texel rows in order, and
/// every pixel of the sprite is drawn.
pub proof fn lemma_draw_item_pixels(
    before: Framebuffer,
    after: Framebuffer,
    tm: TextureManager,
    key: char,
    sprite: ItemSprite,
    i: int,
    j: int,
)
    requires
        layered(before, after, sprite_layers(tm, key, sprite, sprite.cols@.len() as int)),
        0 <= i < sprite.cols@.len(),
        0 <= j < sprite.rows@.len(),
        after.in_bounds(sprite.x_start + i, sprite.y_start + j),
    ensures
        ({
            let t = tm.texel(key, sprite.cols@[i], sprite.rows@[j]);
            after.pixel(sprite.x_start + i, sprite.y_start + j) == if t.a >= 10 {
                Color { r: t.r, g: t.g, b: t.b, a: sprite.fade@[t.a as int] }
            } else {
                before.pixel(sprite.x_start + i, sprite.y_start + j)
            }
        }),
{
    let px = sprite.x_start + i;
    let py = sprite.y_start + j;
    lemma_sprite_shade(tm, key, sprite, sprite.cols@.len() as int, px, py, before.pixel(px, py));
    assert(px - sprite.x_start == i && py - sprite.y_start == j);
}

/// Draws the item whose texture is `key` as `sprite` says, pixel by pixel,
/// column by column, skipping the transparent texels (alpha below 10).
pub fn draw_item(framebuffer: &mut Framebuffer, texture_manager: &TextureManager, key: char, sprite: &ItemSprite)
    requires
        old(framebuffer).wf(),
        texture_manager.wf(),
        texture_manager.image_for(key) matches Some(img) ==> img.width > 0 && img.height > 0,
        sprite_ok(*sprite),
    ensures
        layered(
            *old(framebuffer),
            *final(framebuffer),
            sprite_layers(*texture_manager, key, *sprite, sprite.cols@.len() as int),
        ),
        forall|i: int, j: int|
            0 <= i < sprite.cols@.len() && 0 <= j < sprite.rows@.len() && final(framebuffer).in_bounds(
                sprite.x_start + i,
                sprite.y_start + j,
            ) ==> {
                let t = texture_manager.texel(key, sprite.cols@[i], sprite.rows@[j]);
                #[trigger] final(framebuffer).pixel(sprite.x_start + i, sprite.y_start + j) == if t.a >= 10 {
                    Color { r: t.r, g: t.g, b: t.b, a: sprite.fade@[t.a as int] }
                } else {
                    old(framebuffer).pixel(sprite.x_start + i, sprite.y_start + j)
                }
            },
{
    let ghost start = *framebuffer;
    let ghost tm = *texture_manager;
    let ghost sp = *sprite;
    let ghost xs = sprite.x_start as int;
    let ghost ys = sprite.y_start as int;
    proof {
        lemma_layered_empty(start);
    }
    let ncols = sprite.cols.len();
    let nrows = sprite.rows.len();
    let mut i: usize = 0;
    while i < ncols
        invariant
            framebuffer.wf(),
            start == *old(framebuffer),
            tm == *texture_manager,
            sp == *sprite,
            texture_manager.wf(),
            texture_manager.image_for(key) matches Some(img) ==> img.width > 0 && img.height > 0,
            sprite_ok(*sprite),
            ncols == sprite.cols@.len(),
            nrows == sprite.rows@.len(),
            xs == sprite.x_start,
            ys == sprite.y_start,
            0 <= i <= ncols,
            layered(start, *framebuffer, sprite_layers(tm, key, sp, i as int)),
        decreases ncols - i,
    {
        let tx = sprite.cols[i];
        let ghost done = sprite_layers(tm, key, sp, i as int);
        let x: i32 = (sprite.x_start as i64 + i as i64) as i32;
        let mut j: usize = 0;
        while j < nrows
            invariant
                framebuffer.wf(),
                start == *old(framebuffer),
                tm == *texture_manager,
                sp == *sprite,
                texture_manager.wf(),
                texture_manager.image_for(key) matches Some(img) ==> img.width > 0 && img.height > 0,
                sprite_ok(*sprite),
                ncols == sprite.cols@.len(),
                nrows == sprite.rows@.len(),
                xs == sprite.x_start,
                ys == sprite.y_start,
                0 <= i < ncols,
                0 <= j <= nrows,
                tx == sprite.cols@[i as int],
                x == xs + i,
                done == sprite_layers(tm, key, sp, i as int),
                layered(start, *framebuffer, done + sprite_column_layers(tm, key, xs, ys, tx, sprite.rows@, sprite.fade@, i as int, j as int)),
            decreases nrows - j,
        {
            let ty = sprite.rows[j];
            let color = texture_manager.get_pixel_color(key, tx, ty);
            let pixel_u32: u32 = ((color.a as u32) << 24) | ((color.r as u32) << 16) | ((color.g as u32) << 8) | (color.b as u32);
            proof {
                lemma_pack_alpha(color.r, color.g, color.b, color.a);
            }
            let ghost before = done + sprite_column_layers(tm, key, xs, ys, tx, sprite.rows@, sprite.fade@, i as int, j as int);
            let ghost after = done + sprite_column_layers(tm, key, xs, ys, tx, sprite.rows@, sprite.fade@, i as int, j as int + 1);
            if !texture_manager.is_pixel_transparent(key as u32, pixel_u32) {
                let shown = Color::new(color.r, color.g, color.b, sprite.fade[color.a as usize]);
                let y: i32 = (sprite.y_start as i64 + j as i64) as i32;
                let ghost b = *framebuffer;
                framebuffer.set_current_color(shown);
                let ghost b2 = *framebuffer;
                framebuffer.set_pixel(x, y);
                proof {
                    let ghost pt = |px: int, py: int| px == xs + i && py == ys + j;
                    lemma_layered_push_colored(start, b, b2, *framebuffer, before, pt, shown);
                    assert(before.push((pt, shown)) =~= after);
                }
            } else {
                proof {
                    assert(before =~= after);
                }
            }
            j = j + 1;
        }
        i = i + 1;
    }
    proof {
        assert forall|i: int, j: int|
            0 <= i < sprite.cols@.len() && 0 <= j < sprite.rows@.len() && framebuffer.in_bounds(
                sprite.x_start + i,
                sprite.y_start + j,
            ) implies {
                let t = texture_manager.texel(key, sprite.cols@[i], sprite.rows@[j]);
                #[trigger] framebuffer.pixel(sprite.x_start + i, sprite.y_start + j) == if t.a >= 10 {
                    Color { r: t.r, g: t.g, b: t.b, a: sprite.fade@[t.a as int] }
                } else {
                    start.pixel(sprite.x_start + i, sprite.y_start + j)
                }
            } by {
            lemma_draw_item_pixels(start, *framebuffer, tm, key, sp, i, j);
        }
    }
}

} // verus!
