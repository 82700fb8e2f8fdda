use vstd::prelude::*;
use crate::color::Color;
use crate::framebuffer::{Framebuffer, Layer, layered, lemma_layered_empty, lemma_layered_push_colored, lemma_layered_concat};
use crate::textures::TextureManager;

verus! {

/// One screen column of the first-person view, as its perspective projection
/// laid it out: the ceiling colour of each row from the top, then the wall,
/// whose `k`-th row shows texel row `rows[k]` of texel column `tx`, fogged
/// channel by channel through `fog_r`, `fog_g` and `fog_b`, then the floor
/// colour of each row down to the bottom of the screen.
pub struct WorldColumn {
    pub ceiling: Vec<Color>,
    pub tx: u32,
    pub rows: Vec<u32>,
    pub fog_r: Vec<u8>,
    pub fog_g: Vec<u8>,
    pub fog_b: Vec<u8>,
    pub floor: Vec<Color>,
}

/// Each fog table maps every channel value, and the column's rows are `i32`
/// pixel rows.
pub open spec fn column_ok(col: WorldColumn) -> bool {
    &&& col.fog_r@.len() == 256
    &&& col.fog_g@.len() == 256
    &&& col.fog_b@.len() == 256
    &&& col.ceiling@.len() + col.rows@.len() + col.floor@.len() <= i32::MAX
}

/// `c` seen through the column's fog.
pub open spec fn fogged(c: Color, col: WorldColumn) -> Color {
    Color { r: col.fog_r@[c.r as int], g: col.fog_g@[c.g as int], b: col.fog_b@[c.b as int], a: c.a }
}

/// `v`, but at most `limit`.
pub open spec fn at_most(v: u32, limit: u32) -> u32 {
    if v < limit {
        v
    } else {
        limit
    }
}

/// The wall texel `(tx, ty)` of texture `key`, the coordinates first clamped
/// to the texture's recorded size.
pub open spec fn wall_texel(tm: TextureManager, key: char, tx: u32, ty: u32) -> Color {
    let (w, h) = tm.get_dimensions_spec(key);
    tm.texel(key, at_most(tx, (w - 1) as u32), at_most(ty, (h - 1) as u32))
}

/// The single pixel `(x, y)`.
pub open spec fn pixel_at(x: int, y: int) -> spec_fn(int, int) -> bool {
    |px: int, py: int| px == x && py == y
}

/// The first `n` of the one-pixel layers of column `x` from row `y0` down,
/// row `y0 + k` in `colors[k]`.
pub open spec fn strip_layers(x: int, y0: int, colors: Seq<Color>, n: int) -> Seq<Layer>
    decreases n,
{
    if n <= 0 {
        Seq::empty()
    } else {
        strip_layers(x, y0, colors, n - 1).push((pixel_at(x, y0 + n - 1), colors[n - 1]))
    }
}

/// The colours of the wall rows of a column.
pub open spec fn wall_colors(tm: TextureManager, key: char, col: WorldColumn) -> Seq<Color> {
    Seq::new(col.rows@.len(), |k: int| fogged(wall_texel(tm, key, col.tx, col.rows@[k]), col))
}

/// The column `x` as drawn: ceiling, wall and floor, top to bottom.
pub open spec fn column_layers(tm: TextureManager, key: char, x: int, col: WorldColumn) -> Seq<Layer> {
    let top = col.ceiling@.len() as int;
    let bottom = top + col.rows@.len();
    strip_layers(x, 0, col.ceiling@, top) + strip_layers(x, top, wall_colors(tm, key, col), col.rows@.len() as int)
        + strip_layers(x, bottom, col.floor@, col.floor@.len() as int)
}

/// Paints `colors` down column `x` from row `y0`, one pixel each.
fn draw_strip(framebuffer: &mut Framebuffer, x: i32, y0: i32, colors: &Vec<Color>)
    requires
        old(framebuffer).wf(),
        0 <= y0,
        y0 + colors@.len() <= i32::MAX + 1,
    ensures
        layered(*old(framebuffer), *final(framebuffer), strip_layers(x as int, y0 as int, colors@, colors@.len() as int)),
{
    let ghost start = *framebuffer;
    proof {
        lemma_layered_empty(start);
    }
    let n = colors.len();
    let mut k: usize = 0;
    while k < n
        invariant
            framebuffer.wf(),
            start == *old(framebuffer),
            n == colors@.len(),
            0 <= y0,
            y0 + n <= i32::MAX + 1,
            0 <= k <= n,
            layered(start, *framebuffer, strip_layers(x as int, y0 as int, colors@, k as int)),
        decreases n - k,
    {
        let c = colors[k];
        let y: i32 = y0 + k as i32;
        let ghost b = *framebuffer;
        framebuffer.set_current_color(c);
        let ghost b2 = *framebuffer;
        framebuffer.set_pixel(x, y);
        proof {
            let pt = |px: int, py: int| px == x && py == y;
            lemma_layered_push_colored(start, b, b2, *framebuffer, strip_layers(x as int, y0 as int, colors@, k as int), pt, c);
            assert(pt =~= pixel_at(x as int, y as int));
            assert(strip_layers(x as int, y0 as int, colors@, k as int).push((pt, c)) =~= strip_layers(
                x as int,
                y0 as int,
                colors@,
                k as int + 1,
            ));
        }
        k = k + 1;
    }
}

/// The wall colours of a column: each wall row's texel, clamped to the
/// texture's recorded size and then to its image, seen through the fog.
fn wall_strip_colors(texture_manager: &TextureManager, key: char, col: &WorldColumn) -> (colors: Vec<Color>)
    requires
        texture_manager.wf(),
        texture_manager.image_for(key) matches Some(img) ==> img.width > 0 && img.height > 0,
        texture_manager.get_dimensions_spec(key).0 >= 1,
        texture_manager.get_dimensions_spec(key).1 >= 1,
        column_ok(*col),
    ensures
        colors@ == wall_colors(*texture_manager, key, *col),
{
    let (texture_width, texture_height) = texture_manager.get_dimensions(key);
    let tx = if col.tx < texture_width - 1 { col.tx } else { texture_width - 1 };
    let n = col.rows.len();
    let mut colors: Vec<Color> = Vec::new();
    let mut k: usize = 0;
    while k < n
        invariant
            texture_manager.wf(),
            texture_manager.image_for(key) matches Some(img) ==> img.width > 0 && img.height > 0,
            column_ok(*col),
            (texture_width, texture_height) == texture_manager.get_dimensions_spec(key),
            texture_height >= 1,
            tx == at_most(col.tx, (texture_width - 1) as u32),
            n == col.rows@.len(),
            0 <= k <= n,
            colors@.len() == k,
            forall|m: int| 0 <= m < k ==> #[trigger] colors@[m] == wall_colors(*texture_manager, key, *col)[m],
        decreases n - k,
    {
        let row = col.rows[k];
        let ty = if row < texture_height - 1 { row } else { texture_height - 1 };
        let c = texture_manager.get_pixel_color(key, tx, ty);
        let shown = Color::new(col.fog_r[c.r as usize], col.fog_g[c.g as usize], col.fog_b[c.b as usize], c.a);
        colors.push(shown);
        k = k + 1;
    }
    assert(colors@ =~= wall_colors(*texture_manager, key, *col));
    colors
}

/// Draws screen column `x` of the first-person view: the ceiling rows from
/// the top, the wall of texture `key` below them, and the floor rows below
/// the wall.
pub fn draw_world_column(framebuffer: &mut Framebuffer, texture_manager: &TextureManager, x: i32, key: char, col: &WorldColumn)
    requires
        old(framebuffer).wf(),
        texture_manager.wf(),
        texture_manager.image_for(key) matches Some(img) ==> img.width > 0 && img.height > 0,
        texture_manager.get_dimensions_spec(key).0 >= 1,
        texture_manager.get_dimensions_spec(key).1 >= 1,
        column_ok(*col),
    ensures
        layered(*old(framebuffer), *final(framebuffer), column_layers(*texture_manager, key, x as int, *col)),
{
    let ghost start = *framebuffer;
    let top: i32 = col.ceiling.len() as i32;
    let bottom: i32 = top + col.rows.len() as i32;
    draw_strip(framebuffer, x, 0, &col.ceiling);
    let ghost s1 = *framebuffer;
    let wall = wall_strip_colors(texture_manager, key, col);
    draw_strip(framebuffer, x, top, &wall);
    let ghost s2 = *framebuffer;
    proof {
        lemma_layered_concat(
            start,
            s1,
            s2,
            strip_layers(x as int, 0, col.ceiling@, top as int),
            strip_layers(x as int, top as int, wall@, wall@.len() as int),
        );
    }
    draw_strip(framebuffer, x, bottom, &col.floor);
    proof {
        lemma_layered_concat(
            start,
            s2,
            *framebuffer,
            strip_layers(x as int, 0, col.ceiling@, top as int) + strip_layers(x as int, top as int, wall@, wall@.len() as int),
            strip_layers(x as int, bottom as int, col.floor@, col.floor@.len() as int),
        );
    }
}

} // verus!
