use vstd::prelude::*;
use crate::color::Color;
use crate::framebuffer::{
    Framebuffer,
    Layer,
    painted,
    layered,
    rect,
    lemma_painted_compose,
    lemma_painted_same_shape,
    lemma_layered_empty,
    lemma_layered_push,
    lemma_layered_push_colored,
    lemma_layered_concat,
};
use crate::item::ItemState;
use crate::maze::{Maze, grid};

verus! {

/// Absolute value.
pub open spec fn abs(v: int) -> int {
    if v < 0 {
        -v
    } else {
        v
    }
}

/// The unit step that leads from `a` toward `b` (`-1` when they are equal).
pub open spec fn step_dir(a: int, b: int) -> int {
    if a < b {
        1
    } else {
        -1
    }
}

/// One step of the error-driven line walk toward `(x1, y1)`, from the point
/// `(p.0, p.1)` with error term `p.2`.
pub open spec fn line_next(x0: int, y0: int, x1: int, y1: int, p: (int, int, int)) -> (int, int, int) {
    let dx = abs(x1 - x0);
    let dy = abs(y1 - y0);
    let e2 = 2 * p.2;
    let x = if e2 > -dy { p.0 + step_dir(x0, x1) } else { p.0 };
    let err1 = if e2 > -dy { p.2 - dy } else { p.2 };
    let y = if e2 < dx { p.1 + step_dir(y0, y1) } else { p.1 };
    let err2 = if e2 < dx { err1 + dx } else { err1 };
    (x, y, err2)
}

/// The points that the walk visits from state `p`, up to and including
/// `(x1, y1)`, within `fuel` steps.
pub open spec fn line_from(x0: int, y0: int, x1: int, y1: int, p: (int, int, int), fuel: nat) -> Seq<(int, int)>
    decreases fuel,
{
    if fuel == 0 {
        Seq::empty()
    } else if p.0 == x1 && p.1 == y1 {
        seq![(p.0, p.1)]
    } else {
        seq![(p.0, p.1)] + line_from(x0, y0, x1, y1, line_next(x0, y0, x1, y1, p), (fuel - 1) as nat)
    }
}

/// The pixels of the line from `(x0, y0)` to `(x1, y1)` in the order the
/// error-driven (Bresenham) walk visits them.
pub open spec fn line_points(x0: int, y0: int, x1: int, y1: int) -> Seq<(int, int)> {
    line_from(
        x0,
        y0,
        x1,
        y1,
        (x0, y0, abs(x1 - x0) - abs(y1 - y0)),
        (abs(x1 - x0) + abs(y1 - y0) + 1) as nat,
    )
}

/// Steps taken along x from the start, along y from the start.
spec fn line_progress(x0: int, y0: int, x1: int, y1: int, p: (int, int, int)) -> (int, int) {
    (if x0 < x1 { p.0 - x0 } else { x0 - p.0 }, if y0 < y1 { p.1 - y0 } else { y0 - p.1 })
}

/// The invariant of the walk: progress within the box, and the error term
/// recording the signed distance of the current point from the ideal line.
spec fn line_inv(x0: int, y0: int, x1: int, y1: int, p: (int, int, int)) -> bool {
    let dx = abs(x1 - x0);
    let dy = abs(y1 - y0);
    let i = line_progress(x0, y0, x1, y1, p).0;
    let j = line_progress(x0, y0, x1, y1, p).1;
    &&& 0 <= i <= dx
    &&& 0 <= j <= dy
    &&& p.2 == dx - dy + (j * dx - i * dy)
    &&& -(dx + dy) <= j * dx - i * dy <= dx + dy
}

/// Steps left before the walk reaches its end.
spec fn line_measure(x0: int, y0: int, x1: int, y1: int, p: (int, int, int)) -> int {
    abs(x1 - x0) - line_progress(x0, y0, x1, y1, p).0 + abs(y1 - y0) - line_progress(x0, y0, x1, y1, p).1
}

proof fn lemma_mul_succ(a: int, b: int)
    by (nonlinear_arith)
    ensures
        (a + 1) * b == a * b + b,
{
}

proof fn lemma_end_of_x(j: int, dx: int, dy: int)
    by (nonlinear_arith)
    requires
        0 <= j < dy,
        0 <= dx,
    ensures
        j * dx - dx * dy <= -dx,
{
}

proof fn lemma_end_of_y(i: int, dx: int, dy: int)
    by (nonlinear_arith)
    requires
        0 <= i < dx,
        0 <= dy,
    ensures
        dy * dx - i * dy >= dy,
{
}

/// A step from a state that is not the end keeps the invariant and gets closer to the end.
proof fn lemma_line_step(x0: int, y0: int, x1: int, y1: int, p: (int, int, int))
    requires
        line_inv(x0, y0, x1, y1, p),
        !(p.0 == x1 && p.1 == y1),
    ensures
        line_inv(x0, y0, x1, y1, line_next(x0, y0, x1, y1, p)),
        line_measure(x0, y0, x1, y1, line_next(x0, y0, x1, y1, p)) < line_measure(x0, y0, x1, y1, p),
{
    let dx = abs(x1 - x0);
    let dy = abs(y1 - y0);
    let i = line_progress(x0, y0, x1, y1, p).0;
    let j = line_progress(x0, y0, x1, y1, p).1;
    let f = j * dx - i * dy;
    lemma_mul_succ(i, dy);
    lemma_mul_succ(j, dx);
    if i == dx && j < dy {
        lemma_end_of_x(j, dx, dy);
        assert(i * dy == dx * dy) by (nonlinear_arith) requires i == dx;
    }
    if j == dy && i < dx {
        lemma_end_of_y(i, dx, dy);
        assert(j * dx == dy * dx) by (nonlinear_arith) requires j == dy;
    }
}

/// `(p, q)` are distinct pixels that touch, by a side or a corner.
pub open spec fn king_step(p: (int, int), q: (int, int)) -> bool {
    &&& abs(q.0 - p.0) <= 1
    &&& abs(q.1 - p.1) <= 1
    &&& p != q
}

/// `q` lies in the bounding box of `(x0, y0)` and `(x1, y1)`.
pub open spec fn in_box(x0: int, y0: int, x1: int, y1: int, q: (int, int)) -> bool {
    &&& (x0 <= q.0 <= x1 || x1 <= q.0 <= x0)
    &&& (y0 <= q.1 <= y1 || y1 <= q.1 <= y0)
}

proof fn lemma_line_from(x0: int, y0: int, x1: int, y1: int, p: (int, int, int), fuel: nat)
    requires
        line_inv(x0, y0, x1, y1, p),
        fuel >= line_measure(x0, y0, x1, y1, p) + 1,
    ensures
        line_from(x0, y0, x1, y1, p, fuel).len() >= 1,
        line_from(x0, y0, x1, y1, p, fuel)[0] == (p.0, p.1),
        line_from(x0, y0, x1, y1, p, fuel).last() == (x1, y1),
        forall|k: int|
            0 <= k < line_from(x0, y0, x1, y1, p, fuel).len() - 1 ==> king_step(
                #[trigger] line_from(x0, y0, x1, y1, p, fuel)[k],
                line_from(x0, y0, x1, y1, p, fuel)[k + 1],
            ),
        forall|k: int|
            0 <= k < line_from(x0, y0, x1, y1, p, fuel).len() ==> in_box(
                x0,
                y0,
                x1,
                y1,
                #[trigger] line_from(x0, y0, x1, y1, p, fuel)[k],
            ),
    decreases fuel,
{
    let s = line_from(x0, y0, x1, y1, p, fuel);
    if p.0 == x1 && p.1 == y1 {
        assert(s == seq![(p.0, p.1)]);
    } else {
        lemma_line_step(x0, y0, x1, y1, p);
        let q = line_next(x0, y0, x1, y1, p);
        let rest = line_from(x0, y0, x1, y1, q, (fuel - 1) as nat);
        lemma_line_from(x0, y0, x1, y1, q, (fuel - 1) as nat);
        assert(s == seq![(p.0, p.1)] + rest);
        assert forall|k: int| 0 <= k < s.len() - 1 implies king_step(#[trigger] s[k], s[k + 1]) by {
            if k > 0 {
                assert(s[k] == rest[k - 1]);
                assert(s[k + 1] == rest[k]);
            }
        }
        assert forall|k: int| 0 <= k < s.len() implies in_box(x0, y0, x1, y1, #[trigger] s[k]) by {
            if k > 0 {
                assert(s[k] == rest[k - 1]);
            }
        }
    }
}

/// The line from `(x0, y0)` to `(x1, y1)` starts at the first point, ends at
/// the second, stays in their bounding box, and each pixel touches the next.
pub proof fn lemma_line_points_shape(x0: int, y0: int, x1: int, y1: int)
    ensures
        line_points(x0, y0, x1, y1).len() >= 1,
        line_points(x0, y0, x1, y1)[0] == (x0, y0),
        line_points(x0, y0, x1, y1).last() == (x1, y1),
        forall|k: int|
            0 <= k < line_points(x0, y0, x1, y1).len() - 1 ==> king_step(
                #[trigger] line_points(x0, y0, x1, y1)[k],
                line_points(x0, y0, x1, y1)[k + 1],
            ),
        forall|k: int|
            0 <= k < line_points(x0, y0, x1, y1).len() ==> in_box(
                x0,
                y0,
                x1,
                y1,
                #[trigger] line_points(x0, y0, x1, y1)[k],
            ),
{
    let p = (x0, y0, abs(x1 - x0) - abs(y1 - y0));
    assert(line_progress(x0, y0, x1, y1, p) == (0int, 0int));
    assert(0int * abs(x1 - x0) == 0 && 0int * abs(y1 - y0) == 0);
    assert(line_inv(x0, y0, x1, y1, p));
    lemma_line_from(
        x0,
        y0,
        x1,
        y1,
        (x0, y0, abs(x1 - x0) - abs(y1 - y0)),
        (abs(x1 - x0) + abs(y1 - y0) + 1) as nat,
    );
}

/// The colour of a maze cell on the minimap: walls grey, the goal green, floor
/// dark, anything else a darker grey.
#[verifier::allow_in_spec]
pub fn minimap_cell_color(cell: char) -> Color
    returns
        (if cell == '|' || cell == '+' || cell == '-' {
            Color { r: 100, g: 100, b: 100, a: 255 }
        } else if cell == 'g' {
            Color { r: 0, g: 255, b: 0, a: 255 }
        } else if cell == ' ' {
            Color { r: 30, g: 30, b: 30, a: 255 }
        } else {
            Color { r: 50, g: 50, b: 50, a: 255 }
        }),
{
    match cell {
        '|' | '+' | '-' => Color::new(100, 100, 100, 255),
        'g' => Color::new(0, 255, 0, 255),
        ' ' => Color::new(30, 30, 30, 255),
        _ => Color::new(50, 50, 50, 255),
    }
}

/// The colour of an item's dot on the minimap, by texture key.
#[verifier::allow_in_spec]
pub fn minimap_item_color(texture_key: char) -> Color
    returns
        (if texture_key == 'b' {
            Color { r: 0, g: 150, b: 255, a: 255 }
        } else if texture_key == 'c' {
            Color { r: 255, g: 215, b: 0, a: 255 }
        } else if texture_key == 'h' {
            Color { r: 255, g: 0, b: 255, a: 255 }
        } else {
            Color { r: 255, g: 255, b: 255, a: 255 }
        }),
{
    match texture_key {
        'b' => Color::new(0, 150, 255, 255),
        'c' => Color::new(255, 215, 0, 255),
        'h' => Color::new(255, 0, 255, 255),
        _ => Color::new(255, 255, 255, 255),
    }
}

/// Draws the translucent black square under the minimap.
pub fn draw_minimap_background(framebuffer: &mut Framebuffer, x: i32, y: i32, size: i32)
    requires
        old(framebuffer).wf(),
        x + size <= i32::MAX + 1,
        y + size <= i32::MAX + 1,
    ensures
        painted(*old(framebuffer), *final(framebuffer), rect(x as int, y as int, size as int, size as int), Color { r: 0, g: 0, b: 0, a: 200 }),
        final(framebuffer).current() == (Color { r: 0, g: 0, b: 0, a: 200 }),
{
    let c = Color::new(0, 0, 0, 200);
    framebuffer.set_current_color(c);
    let ghost s1 = *framebuffer;
    framebuffer.fill_rect(x, y, size, size);
    proof {
        lemma_painted_compose(*old(framebuffer), s1, *framebuffer, |px: int, py: int| false, rect(x as int, y as int, size as int, size as int), c);
        lemma_painted_same_shape(
            *old(framebuffer),
            *framebuffer,
            |px: int, py: int| false || rect(x as int, y as int, size as int, size as int)(px, py),
            rect(x as int, y as int, size as int, size as int),
            c,
        );
    }
}

/// The two-pixel frame of a `size` square at `(x, y)`: its top two and bottom
/// two rows and its left two and right two columns.
pub open spec fn border_shape(x: int, y: int, size: int) -> spec_fn(int, int) -> bool {
    |px: int, py: int|
        (x <= px < x + size && (py == y || py == y + 1 || py == y + size - 1 || py == y + size - 2)) || (y <= py < y
            + size && (px == x || px == x + 1 || px == x + size - 1 || px == x + size - 2))
}

/// Draws the white two-pixel frame of the minimap.
pub fn draw_minimap_border(framebuffer: &mut Framebuffer, x: i32, y: i32, size: i32)
    requires
        old(framebuffer).wf(),
        i32::MIN + 2 <= x,
        i32::MIN + 2 <= y,
        size > 0 ==> x + size <= i32::MAX && y + size <= i32::MAX,
    ensures
        painted(*old(framebuffer), *final(framebuffer), border_shape(x as int, y as int, size as int), Color::white()),
        final(framebuffer).current() == Color::white(),
{
    let ghost start = *framebuffer;
    let c = Color::white();
    framebuffer.set_current_color(c);
    let ghost (gx, gy, gs) = (x as int, y as int, size as int);
    if size <= 0 {
        proof {
            lemma_painted_same_shape(start, *framebuffer, |px: int, py: int| false, border_shape(gx, gy, gs), c);
        }
        return;
    }
    let ghost s0 = *framebuffer;
    framebuffer.fill_rect(x, y, size, 1);
    let ghost s1 = *framebuffer;
    framebuffer.fill_rect(x, y + 1, size, 1);
    let ghost s2 = *framebuffer;
    framebuffer.fill_rect(x, y + size - 1, size, 1);
    let ghost s3 = *framebuffer;
    framebuffer.fill_rect(x, y + size - 2, size, 1);
    let ghost s4 = *framebuffer;
    framebuffer.fill_rect(x, y, 1, size);
    let ghost s5 = *framebuffer;
    framebuffer.fill_rect(x + 1, y, 1, size);
    let ghost s6 = *framebuffer;
    framebuffer.fill_rect(x + size - 1, y, 1, size);
    let ghost s7 = *framebuffer;
    framebuffer.fill_rect(x + size - 2, y, 1, size);
    proof {
        let r0 = rect(gx, gy, gs, 1);
        let r1 = rect(gx, gy + 1, gs, 1);
        let r2 = rect(gx, gy + gs - 1, gs, 1);
        let r3 = rect(gx, gy + gs - 2, gs, 1);
        let r4 = rect(gx, gy, 1, gs);
        let r5 = rect(gx + 1, gy, 1, gs);
        let r6 = rect(gx + gs - 1, gy, 1, gs);
        let r7 = rect(gx + gs - 2, gy, 1, gs);
        lemma_painted_compose(start, s0, s1, |px: int, py: int| false, r0, c);
        let u1 = |px: int, py: int| false || r0(px, py);
        lemma_painted_compose(start, s1, s2, u1, r1, c);
        let u2 = |px: int, py: int| u1(px, py) || r1(px, py);
        lemma_painted_compose(start, s2, s3, u2, r2, c);
        let u3 = |px: int, py: int| u2(px, py) || r2(px, py);
        lemma_painted_compose(start, s3, s4, u3, r3, c);
        let u4 = |px: int, py: int| u3(px, py) || r3(px, py);
        lemma_painted_compose(start, s4, s5, u4, r4, c);
        let u5 = |px: int, py: int| u4(px, py) || r4(px, py);
        lemma_painted_compose(start, s5, s6, u5, r5, c);
        let u6 = |px: int, py: int| u5(px, py) || r5(px, py);
        lemma_painted_compose(start, s6, s7, u6, r6, c);
        let u7 = |px: int, py: int| u6(px, py) || r6(px, py);
        lemma_painted_compose(start, s7, *framebuffer, u7, r7, c);
        let u8 = |px: int, py: int| u7(px, py) || r7(px, py);
        lemma_painted_same_shape(start, *framebuffer, u8, border_shape(gx, gy, gs), c);
    }
}

/// Draws an item as a 3 x 3 dot centred on `(x, y)` in the colour of its texture key.
pub fn draw_minimap_item(framebuffer: &mut Framebuffer, x: i32, y: i32, texture_key: char)
    requires
        old(framebuffer).wf(),
        i32::MIN + 1 <= x <= i32::MAX - 1,
        i32::MIN + 1 <= y <= i32::MAX - 1,
    ensures
        painted(*old(framebuffer), *final(framebuffer), rect(x - 1, y - 1, 3, 3), minimap_item_color(texture_key)),
        final(framebuffer).current() == minimap_item_color(texture_key),
{
    let c = minimap_item_color(texture_key);
    framebuffer.set_current_color(c);
    let ghost s1 = *framebuffer;
    framebuffer.fill_rect(x - 1, y - 1, 3, 3);
    proof {
        lemma_painted_compose(*old(framebuffer), s1, *framebuffer, |px: int, py: int| false, rect(x - 1, y - 1, 3, 3), c);
        lemma_painted_same_shape(
            *old(framebuffer),
            *framebuffer,
            |px: int, py: int| false || rect(x - 1, y - 1, 3, 3)(px, py),
            rect(x - 1, y - 1, 3, 3),
            c,
        );
    }
}

/// The minimap squares of the first `n` cells of a row whose top is `y`,
/// cell `k` at `x0 + offsets[k]`.
pub open spec fn minimap_row_layers(row: Seq<char>, x0: int, y: int, offsets: Seq<i32>, size: int, n: int) -> Seq<Layer>
    decreases n,
{
    if n <= 0 {
        Seq::empty()
    } else {
        minimap_row_layers(row, x0, y, offsets, size, n - 1).push(
            (rect(x0 + offsets[n - 1], y, size, size), minimap_cell_color(row[n - 1])),
        )
    }
}

/// The minimap squares of the first `m` rows of `g`, row `k` at `y0 + offsets[k]`.
pub open spec fn minimap_layers(g: Seq<Seq<char>>, x0: int, y0: int, offsets: Seq<i32>, size: int, m: int) -> Seq<Layer>
    decreases m,
{
    if m <= 0 {
        Seq::empty()
    } else {
        minimap_layers(g, x0, y0, offsets, size, m - 1) + minimap_row_layers(
            g[m - 1],
            x0,
            y0 + offsets[m - 1],
            offsets,
            size,
            g[m - 1].len() as int,
        )
    }
}

/// Draws the maze on the minimap: cell `(row, col)` as a `cell_size` square at
/// `(x0 + offsets[col], y0 + offsets[row])` in its minimap colour, in
/// row-major order. `offsets[k]` is where the scaled cell `k` starts.
pub fn render_minimap_cells(
    framebuffer: &mut Framebuffer,
    maze: &Maze,
    x0: i32,
    y0: i32,
    offsets: &Vec<i32>,
    cell_size: i32,
)
    requires
        old(framebuffer).wf(),
        grid(maze).len() <= offsets@.len(),
        forall|r: int| 0 <= r < grid(maze).len() ==> #[trigger] grid(maze)[r].len() <= offsets@.len(),
        offsets_fit(x0 as int, y0 as int, offsets@, cell_size as int),
    ensures
        layered(
            *old(framebuffer),
            *final(framebuffer),
            minimap_layers(grid(maze), x0 as int, y0 as int, offsets@, cell_size as int, grid(maze).len() as int),
        ),
{
    let ghost start = *framebuffer;
    let ghost g = grid(maze);
    proof {
        lemma_layered_empty(start);
    }
    let m = maze.len();
    let mut row: usize = 0;
    while row < m
        invariant
            framebuffer.wf(),
            start == *old(framebuffer),
            g == grid(maze),
            m == g.len(),
            g.len() <= offsets@.len(),
            forall|r: int| 0 <= r < g.len() ==> #[trigger] g[r].len() <= offsets@.len(),
            forall|k: int|
                0 <= k < offsets@.len() ==> i32::MIN <= x0 + #[trigger] offsets@[k] <= i32::MAX && x0 + offsets@[k] + cell_size
                    <= i32::MAX + 1 && i32::MIN <= y0 + offsets@[k] <= i32::MAX && y0 + offsets@[k] + cell_size <= i32::MAX + 1,
            0 <= row <= m,
            layered(start, *framebuffer, minimap_layers(g, x0 as int, y0 as int, offsets@, cell_size as int, row as int)),
        decreases m - row,
    {
        let y: i32 = y0 + offsets[row];
        let ghost done_rows = minimap_layers(g, x0 as int, y0 as int, offsets@, cell_size as int, row as int);
        let n = maze[row].len();
        assert(n == g[row as int].len());
        assert(g[row as int].len() <= offsets@.len());
        let mut col: usize = 0;
        while col < n
            invariant
                framebuffer.wf(),
                start == *old(framebuffer),
                g == grid(maze),
                m == g.len(),
                0 <= row < m,
                m <= offsets@.len(),
                n == g[row as int].len(),
                n <= offsets@.len(),
                y == y0 + offsets@[row as int],
                forall|k: int|
                    0 <= k < offsets@.len() ==> i32::MIN <= x0 + #[trigger] offsets@[k] <= i32::MAX && x0 + offsets@[k]
                        + cell_size <= i32::MAX + 1 && i32::MIN <= y0 + offsets@[k] <= i32::MAX && y0 + offsets@[k] + cell_size
                        <= i32::MAX + 1,
                0 <= col <= n,
                done_rows == minimap_layers(g, x0 as int, y0 as int, offsets@, cell_size as int, row as int),
                layered(
                    start,
                    *framebuffer,
                    done_rows + minimap_row_layers(g[row as int], x0 as int, y as int, offsets@, cell_size as int, col as int),
                ),
            decreases n - col,
        {
            let x: i32 = x0 + offsets[col];
            let color = minimap_cell_color(maze[row][col]);
            let ghost before = done_rows + minimap_row_layers(g[row as int], x0 as int, y as int, offsets@, cell_size as int, col as int);
            let ghost b = *framebuffer;
            framebuffer.set_current_color(color);
            let ghost b2 = *framebuffer;
            framebuffer.fill_rect(x, y, cell_size, cell_size);
            proof {
                lemma_layered_push_colored(start, b, b2, *framebuffer, before, rect(x as int, y as int, cell_size as int, cell_size as int), color);
                assert(before.push((rect(x as int, y as int, cell_size as int, cell_size as int), color)) =~= done_rows
                    + minimap_row_layers(g[row as int], x0 as int, y as int, offsets@, cell_size as int, col as int + 1));
            }
            col = col + 1;
        }
        row = row + 1;
    }
}

/// Draws the line from `(x0, y0)` to `(x1, y1)` in the current colour, pixel
/// by pixel along the Bresenham walk (the pixels off the screen are skipped).
pub fn draw_line_minimap(framebuffer: &mut Framebuffer, x0: i32, y0: i32, x1: i32, y1: i32)
    requires
        old(framebuffer).wf(),
    ensures
        painted(
            *old(framebuffer),
            *final(framebuffer),
            |px: int, py: int| line_points(x0 as int, y0 as int, x1 as int, y1 as int).contains((px, py)),
            old(framebuffer).current(),
        ),
        final(framebuffer).current() == old(framebuffer).current(),
{
    let ghost c = framebuffer.current();
    let ghost start = *framebuffer;
    let ghost (gx0, gy0, gx1, gy1) = (x0 as int, y0 as int, x1 as int, y1 as int);
    let dx: i64 = if x1 >= x0 { x1 as i64 - x0 as i64 } else { x0 as i64 - x1 as i64 };
    let dy: i64 = if y1 >= y0 { y1 as i64 - y0 as i64 } else { y0 as i64 - y1 as i64 };
    let sx: i32 = if x0 < x1 { 1 } else { -1 };
    let sy: i32 = if y0 < y1 { 1 } else { -1 };
    let mut err: i64 = dx - dy;
    let mut x: i32 = x0;
    let mut y: i32 = y0;
    let ghost mut drawn: Seq<(int, int)> = Seq::empty();
    let ghost mut fuel: nat = (dx + dy + 1) as nat;
    proof {
        assert(line_progress(gx0, gy0, gx1, gy1, (x as int, y as int, err as int)) == (0int, 0int));
        assert(0int * dx == 0 && 0int * dy == 0);
        assert(line_inv(gx0, gy0, gx1, gy1, (x as int, y as int, err as int)));
    }
    loop
        invariant_except_break
            fuel >= line_measure(gx0, gy0, gx1, gy1, (x as int, y as int, err as int)) + 1,
            drawn + line_from(gx0, gy0, gx1, gy1, (x as int, y as int, err as int), fuel) == line_points(
                gx0,
                gy0,
                gx1,
                gy1,
            ),
        invariant
            framebuffer.wf(),
            framebuffer.current() == c,
            c == start.current(),
            start == *old(framebuffer),
            dx == abs(gx1 - gx0),
            dy == abs(gy1 - gy0),
            sx == step_dir(gx0, gx1),
            sy == step_dir(gy0, gy1),
            gx0 == x0 && gy0 == y0 && gx1 == x1 && gy1 == y1,
            line_inv(gx0, gy0, gx1, gy1, (x as int, y as int, err as int)),
            painted(start, *framebuffer, |px: int, py: int| drawn.contains((px, py)), c),
        ensures
            framebuffer.current() == c,
            painted(start, *framebuffer, |px: int, py: int| line_points(gx0, gy0, gx1, gy1).contains((px, py)), c),
        decreases fuel,
    {
        let ghost prev = *framebuffer;
        let ghost p = (x as int, y as int, err as int);
        framebuffer.set_pixel(x, y);
        proof {
            lemma_painted_compose(
                start,
                prev,
                *framebuffer,
                |px: int, py: int| drawn.contains((px, py)),
                |px: int, py: int| px == x && py == y,
                c,
            );
            let ghost old_drawn = drawn;
            drawn = drawn.push((x as int, y as int));
            assert forall|px: int, py: int|
                #![trigger drawn.contains((px, py))]
                drawn.contains((px, py)) <==> (old_drawn.contains((px, py)) || (px == x && py == y)) by {
                if drawn.contains((px, py)) {
                    let k = choose|k: int| 0 <= k < drawn.len() && drawn[k] == (px, py);
                    if k < old_drawn.len() {
                        assert(old_drawn[k] == (px, py));
                    }
                }
                if old_drawn.contains((px, py)) {
                    let k = choose|k: int| 0 <= k < old_drawn.len() && old_drawn[k] == (px, py);
                    assert(drawn[k] == (px, py));
                }
                if px == x && py == y {
                    assert(drawn[drawn.len() - 1] == (px, py));
                }
            }
        }
        if x == x1 && y == y1 {
            proof {
                assert(line_from(gx0, gy0, gx1, gy1, p, fuel) == seq![(x as int, y as int)]);
                assert(drawn =~= line_points(gx0, gy0, gx1, gy1));
            }
            break;
        }
        proof {
            lemma_line_step(gx0, gy0, gx1, gy1, p);
            let ghost rest = line_from(gx0, gy0, gx1, gy1, line_next(gx0, gy0, gx1, gy1, p), (fuel - 1) as nat);
            assert(line_from(gx0, gy0, gx1, gy1, p, fuel) == seq![(x as int, y as int)] + rest);
            assert(drawn + rest =~= line_points(gx0, gy0, gx1, gy1));
        }
        let e2: i64 = 2 * err;
        if e2 > -dy {
            err = err - dy;
            x = x + sx;
        }
        if e2 < dx {
            err = err + dx;
            y = y + sy;
        }
        proof {
            fuel = (fuel - 1) as nat;
        }
    }
}

/// An item as the minimap shows it: the centre of its dot relative to the
/// minimap's top-left corner, its texture key, and its pickup state.
pub struct MinimapItem {
    pub dx: i32,
    pub dy: i32,
    pub texture_key: char,
    pub collected: bool,
    pub state: ItemState,
}

/// An item has a dot while it is neither collected nor fading out.
pub open spec fn item_shown(item: MinimapItem) -> bool {
    !item.collected && item.state is Idle
}

/// The dots of the first `n` items that are shown, minimap corner at `(x0, y0)`.
pub open spec fn item_dot_layers(items: Seq<MinimapItem>, x0: int, y0: int, n: int) -> Seq<Layer>
    decreases n,
{
    if n <= 0 {
        Seq::empty()
    } else {
        let prev = item_dot_layers(items, x0, y0, n - 1);
        let it = items[n - 1];
        if item_shown(it) {
            prev.push((rect(x0 + it.dx - 1, y0 + it.dy - 1, 3, 3), minimap_item_color(it.texture_key)))
        } else {
            prev
        }
    }
}

/// How many of the first `n` items are still to be picked up: not collected
/// and idle.
pub open spec fn count_to_pick(items: Seq<MinimapItem>, n: int) -> int
    decreases n,
{
    if n <= 0 {
        0
    } else {
        count_to_pick(items, n - 1) + (if !items[n - 1].collected && items[n - 1].state == ItemState::Idle {
            1int
        } else {
            0int
        })
    }
}

/// Every item still to be picked up (not collected and idle) gets its dot,
/// and nothing else does: the dots of the first `n` items are one per such
/// item, in list order, item `k`'s dot being the 3 x 3 square centred on
/// `(x0 + dx, y0 + dy)` in the colour of its texture key.
pub proof fn lemma_every_item_to_pick_has_a_dot(items: Seq<MinimapItem>, x0: int, y0: int, n: int)
    requires
        0 <= n <= items.len(),
    ensures
        item_dot_layers(items, x0, y0, n).len() == count_to_pick(items, n),
        forall|k: int|
            0 <= k < n && !(#[trigger] items[k]).collected && items[k].state == ItemState::Idle ==> item_dot_layers(
                items,
                x0,
                y0,
                n,
            )[count_to_pick(items, k)] == (
                rect(x0 + items[k].dx - 1, y0 + items[k].dy - 1, 3, 3),
                minimap_item_color(items[k].texture_key),
            ),
    decreases n,
{
    if n > 0 {
        lemma_every_item_to_pick_has_a_dot(items, x0, y0, n - 1);
        lemma_count_to_pick_grows(items, n - 1);
        let prev = item_dot_layers(items, x0, y0, n - 1);
        let layers = item_dot_layers(items, x0, y0, n);
        assert forall|k: int|
            0 <= k < n && !(#[trigger] items[k]).collected && items[k].state == ItemState::Idle implies layers[count_to_pick(
                items,
                k,
            )] == (rect(x0 + items[k].dx - 1, y0 + items[k].dy - 1, 3, 3), minimap_item_color(items[k].texture_key)) by {
            if k < n - 1 {
                lemma_count_to_pick_mono(items, k + 1, n - 1);
                assert(count_to_pick(items, k + 1) == count_to_pick(items, k) + 1);
                lemma_count_to_pick_grows(items, k);
                assert(count_to_pick(items, k) < prev.len());
                let it = items[n - 1];
                if item_shown(it) {
                    assert(layers == prev.push((rect(x0 + it.dx - 1, y0 + it.dy - 1, 3, 3), minimap_item_color(it.texture_key))));
                } else {
                    assert(layers == prev);
                }
                assert(layers[count_to_pick(items, k)] == prev[count_to_pick(items, k)]);
            }
        }
    }
}

proof fn lemma_count_to_pick_grows(items: Seq<MinimapItem>, n: int)
    ensures
        count_to_pick(items, n) >= 0,
    decreases n,
{
    if n > 0 {
        lemma_count_to_pick_grows(items, n - 1);
    }
}

proof fn lemma_count_to_pick_mono(items: Seq<MinimapItem>, a: int, b: int)
    requires
        0 <= a <= b,
    ensures
        count_to_pick(items, a) <= count_to_pick(items, b),
    decreases b - a,
{
    if a < b {
        lemma_count_to_pick_mono(items, a, b - 1);
    }
}

/// The player's arrow on the minimap, every point relative to the minimap's
/// top-left corner: the player at `(x, y)`, the tip and the two back corners
/// of the triangle, and the half side `size` of the square filled under it.
pub struct PlayerArrow {
    pub x: i32,
    pub y: i32,
    pub size: i32,
    pub tip: (i32, i32),
    pub back_left: (i32, i32),
    pub back_right: (i32, i32),
}

/// The pixels of the line from `a` to `b`.
pub open spec fn segment(a: (int, int), b: (int, int)) -> spec_fn(int, int) -> bool {
    |px: int, py: int| line_points(a.0, a.1, b.0, b.1).contains((px, py))
}

/// The outline of the arrow: centre to tip, tip to one back corner, across to
/// the other, and back to the tip.
pub open spec fn arrow_outline(x0: int, y0: int, a: PlayerArrow) -> spec_fn(int, int) -> bool {
    let c = (x0 + a.x, y0 + a.y);
    let t = (x0 + a.tip.0, y0 + a.tip.1);
    let l = (x0 + a.back_left.0, y0 + a.back_left.1);
    let r = (x0 + a.back_right.0, y0 + a.back_right.1);
    |px: int, py: int| segment(c, t)(px, py) || segment(t, l)(px, py) || segment(l, r)(px, py) || segment(r, t)(px, py)
}

/// The bright red of the arrow's outline.
pub open spec fn arrow_red() -> Color {
    Color { r: 255, g: 50, b: 50, a: 255 }
}

/// The arrow as drawn: its outline, the light red square filled over it, and
/// the outline again on top.
pub open spec fn arrow_layers(x0: int, y0: int, a: PlayerArrow) -> Seq<Layer> {
    seq![
        (arrow_outline(x0, y0, a), arrow_red()),
        (rect(x0 + a.x - a.size, y0 + a.y - a.size, 2 * a.size + 1, 2 * a.size + 1), Color { r: 255, g: 100, b: 100, a: 255 }),
        (arrow_outline(x0, y0, a), arrow_red()),
    ]
}

/// Every point of the arrow and of its square, placed at `(x0, y0)`, is an
/// `i32` pixel position.
pub open spec fn arrow_fits(x0: int, y0: int, a: PlayerArrow) -> bool {
    &&& i32::MIN <= x0 + a.x <= i32::MAX && i32::MIN <= y0 + a.y <= i32::MAX
    &&& i32::MIN <= x0 + a.tip.0 <= i32::MAX && i32::MIN <= y0 + a.tip.1 <= i32::MAX
    &&& i32::MIN <= x0 + a.back_left.0 <= i32::MAX && i32::MIN <= y0 + a.back_left.1 <= i32::MAX
    &&& i32::MIN <= x0 + a.back_right.0 <= i32::MAX && i32::MIN <= y0 + a.back_right.1 <= i32::MAX
    &&& i32::MIN <= 2 * a.size + 1 <= i32::MAX
    &&& i32::MIN <= x0 + a.x - a.size <= i32::MAX && x0 + a.x + a.size + 1 <= i32::MAX + 1
    &&& i32::MIN <= y0 + a.y - a.size <= i32::MAX && y0 + a.y + a.size + 1 <= i32::MAX + 1
}

/// Draws the four sides of the arrow in the current colour.
fn draw_arrow_outline(framebuffer: &mut Framebuffer, cx: i32, cy: i32, t: (i32, i32), l: (i32, i32), r: (i32, i32))
    requires
        old(framebuffer).wf(),
    ensures
        painted(
            *old(framebuffer),
            *final(framebuffer),
            |px: int, py: int|
                segment((cx as int, cy as int), (t.0 as int, t.1 as int))(px, py) || segment(
                    (t.0 as int, t.1 as int),
                    (l.0 as int, l.1 as int),
                )(px, py) || segment((l.0 as int, l.1 as int), (r.0 as int, r.1 as int))(px, py) || segment(
                    (r.0 as int, r.1 as int),
                    (t.0 as int, t.1 as int),
                )(px, py),
            old(framebuffer).current(),
        ),
        final(framebuffer).current() == old(framebuffer).current(),
{
    let ghost c = framebuffer.current();
    let ghost s0 = *framebuffer;
    draw_line_minimap(framebuffer, cx, cy, t.0, t.1);
    let ghost s1 = *framebuffer;
    draw_line_minimap(framebuffer, t.0, t.1, l.0, l.1);
    let ghost s2 = *framebuffer;
    draw_line_minimap(framebuffer, l.0, l.1, r.0, r.1);
    let ghost s3 = *framebuffer;
    draw_line_minimap(framebuffer, r.0, r.1, t.0, t.1);
    proof {
        let g0 = segment((cx as int, cy as int), (t.0 as int, t.1 as int));
        let g1 = segment((t.0 as int, t.1 as int), (l.0 as int, l.1 as int));
        let g2 = segment((l.0 as int, l.1 as int), (r.0 as int, r.1 as int));
        let g3 = segment((r.0 as int, r.1 as int), (t.0 as int, t.1 as int));
        lemma_painted_same_shape(s0, s1, |px: int, py: int| line_points(cx as int, cy as int, t.0 as int, t.1 as int).contains((px, py)), g0, c);
        lemma_painted_same_shape(s1, s2, |px: int, py: int| line_points(t.0 as int, t.1 as int, l.0 as int, l.1 as int).contains((px, py)), g1, c);
        lemma_painted_same_shape(s2, s3, |px: int, py: int| line_points(l.0 as int, l.1 as int, r.0 as int, r.1 as int).contains((px, py)), g2, c);
        lemma_painted_same_shape(s3, *framebuffer, |px: int, py: int| line_points(r.0 as int, r.1 as int, t.0 as int, t.1 as int).contains((px, py)), g3, c);
        lemma_painted_compose(s0, s1, s2, g0, g1, c);
        let u1 = |px: int, py: int| g0(px, py) || g1(px, py);
        lemma_painted_compose(s0, s2, s3, u1, g2, c);
        let u2 = |px: int, py: int| u1(px, py) || g2(px, py);
        lemma_painted_compose(s0, s3, *framebuffer, u2, g3, c);
        let u3 = |px: int, py: int| u2(px, py) || g3(px, py);
        lemma_painted_same_shape(
            s0,
            *framebuffer,
            u3,
            |px: int, py: int| g0(px, py) || g1(px, py) || g2(px, py) || g3(px, py),
            c,
        );
    }
}

/// Draws the player's arrow with the minimap corner at `(x0, y0)`: the
/// outline in bright red, a light red square of half side `size` around the
/// player, and the outline again.
pub fn draw_player_on_minimap(framebuffer: &mut Framebuffer, x0: i32, y0: i32, arrow: &PlayerArrow)
    requires
        old(framebuffer).wf(),
        arrow_fits(x0 as int, y0 as int, *arrow),
    ensures
        layered(*old(framebuffer), *final(framebuffer), arrow_layers(x0 as int, y0 as int, *arrow)),
        final(framebuffer).current() == arrow_red(),
{
    let ghost start = *framebuffer;
    let ghost a = *arrow;
    let ghost (gx, gy) = (x0 as int, y0 as int);
    proof {
        lemma_layered_empty(start);
    }
    let cx: i32 = x0 + arrow.x;
    let cy: i32 = y0 + arrow.y;
    let t: (i32, i32) = (x0 + arrow.tip.0, y0 + arrow.tip.1);
    let l: (i32, i32) = (x0 + arrow.back_left.0, y0 + arrow.back_left.1);
    let r: (i32, i32) = (x0 + arrow.back_right.0, y0 + arrow.back_right.1);
    let size = arrow.size;
    let red = Color::new(255, 50, 50, 255);
    let light = Color::new(255, 100, 100, 255);
    let ghost outline = arrow_outline(gx, gy, a);
    let ghost square = rect(gx + a.x - a.size, gy + a.y - a.size, 2 * a.size + 1, 2 * a.size + 1);

    framebuffer.set_current_color(red);
    let ghost s1 = *framebuffer;
    draw_arrow_outline(framebuffer, cx, cy, t, l, r);
    let ghost s2 = *framebuffer;
    proof {
        lemma_painted_same_shape(
            s1,
            s2,
            |px: int, py: int|
                segment((cx as int, cy as int), (t.0 as int, t.1 as int))(px, py) || segment(
                    (t.0 as int, t.1 as int),
                    (l.0 as int, l.1 as int),
                )(px, py) || segment((l.0 as int, l.1 as int), (r.0 as int, r.1 as int))(px, py) || segment(
                    (r.0 as int, r.1 as int),
                    (t.0 as int, t.1 as int),
                )(px, py),
            outline,
            red,
        );
        lemma_layered_push_colored(start, start, s1, s2, Seq::empty(), outline, red);
    }
    framebuffer.set_current_color(light);
    let ghost s3 = *framebuffer;
    framebuffer.fill_rect(cx - size, cy - size, 2 * size + 1, 2 * size + 1);
    let ghost s4 = *framebuffer;
    proof {
        assert(Seq::<Layer>::empty().push((outline, red)) =~= seq![(outline, red)]);
        lemma_layered_push_colored(start, s2, s3, s4, seq![(outline, red)], square, light);
        assert(seq![(outline, red)].push((square, light)) =~= seq![(outline, red), (square, light)]);
    }
    framebuffer.set_current_color(red);
    let ghost s5 = *framebuffer;
    draw_arrow_outline(framebuffer, cx, cy, t, l, r);
    proof {
        lemma_painted_same_shape(
            s5,
            *framebuffer,
            |px: int, py: int|
                segment((cx as int, cy as int), (t.0 as int, t.1 as int))(px, py) || segment(
                    (t.0 as int, t.1 as int),
                    (l.0 as int, l.1 as int),
                )(px, py) || segment((l.0 as int, l.1 as int), (r.0 as int, r.1 as int))(px, py) || segment(
                    (r.0 as int, r.1 as int),
                    (t.0 as int, t.1 as int),
                )(px, py),
            outline,
            red,
        );
        lemma_layered_push_colored(start, s4, s5, *framebuffer, seq![(outline, red), (square, light)], outline, red);
        assert(seq![(outline, red), (square, light)].push((outline, red)) =~= arrow_layers(gx, gy, a));
    }
}

/// The minimap as drawn on a screen `h` pixels high: the translucent black
/// 200-pixel square 20 pixels from the left and bottom edges, the maze cells,
/// the dots of the items still to be picked up, the player's arrow, and the
/// white frame.
pub open spec fn minimap_view_layers(
    g: Seq<Seq<char>>,
    h: int,
    offsets: Seq<i32>,
    cell_size: int,
    items: Seq<MinimapItem>,
    arrow: PlayerArrow,
) -> Seq<Layer> {
    let y0 = h - 220;
    seq![(rect(20, y0, 200, 200), Color { r: 0, g: 0, b: 0, a: 200 })] + minimap_layers(g, 20, y0, offsets, cell_size, g.len() as int)
        + item_dot_layers(items, 20, y0, items.len() as int) + arrow_layers(20, y0, arrow) + seq![
        (border_shape(20, y0, 200), Color { r: 255, g: 255, b: 255, a: 255 }),
    ]
}

/// Every scaled cell of the minimap with its corner at `(x0, y0)` lies at
/// `i32` pixel positions.
pub open spec fn offsets_fit(x0: int, y0: int, offsets: Seq<i32>, cell_size: int) -> bool {
    forall|k: int|
        0 <= k < offsets.len() ==> i32::MIN <= x0 + #[trigger] offsets[k] <= i32::MAX && x0 + offsets[k] + cell_size <= i32::MAX + 1
            && i32::MIN <= y0 + offsets[k] <= i32::MAX && y0 + offsets[k] + cell_size <= i32::MAX + 1
}

/// Draws the minimap in the bottom-left corner of the screen. The
/// positions come from the minimap's scale: `offsets[k]` is where the scaled
/// cell `k` starts and `cell_size` the side of a scaled cell; the items' dots
/// and the arrow are placed relative to the minimap's top-left corner.
pub fn render_minimap(
    framebuffer: &mut Framebuffer,
    maze: &Maze,
    offsets: &Vec<i32>,
    cell_size: i32,
    items: &Vec<MinimapItem>,
    arrow: &PlayerArrow,
)
    requires
        old(framebuffer).wf(),
        old(framebuffer).h() <= i32::MAX,
        grid(maze).len() <= offsets@.len(),
        forall|r: int| 0 <= r < grid(maze).len() ==> #[trigger] grid(maze)[r].len() <= offsets@.len(),
        offsets_fit(20, old(framebuffer).h() - 220, offsets@, cell_size as int),
        forall|i: int|
            0 <= i < items@.len() && item_shown(#[trigger] items@[i]) ==> i32::MIN + 1 <= 20 + items@[i].dx <= i32::MAX - 1
                && i32::MIN + 1 <= old(framebuffer).h() - 220 + items@[i].dy <= i32::MAX - 1,
        arrow_fits(20, old(framebuffer).h() - 220, *arrow),
    ensures
        layered(
            *old(framebuffer),
            *final(framebuffer),
            minimap_view_layers(grid(maze), old(framebuffer).h() as int, offsets@, cell_size as int, items@, *arrow),
        ),
        final(framebuffer).current() == Color::white(),
{
    let ghost start = *framebuffer;
    let ghost g = grid(maze);
    let minimap_size: i32 = 200;
    let minimap_x: i32 = 20;
    let minimap_y: i32 = framebuffer.height() as i32 - minimap_size - 20;
    let ghost y0 = minimap_y as int;
    proof {
        lemma_layered_empty(start);
    }
    draw_minimap_background(framebuffer, minimap_x, minimap_y, minimap_size);
    let ghost back = seq![(rect(20, y0, 200, 200), Color { r: 0, g: 0, b: 0, a: 200 })];
    proof {
        lemma_layered_push(start, start, *framebuffer, Seq::empty(), rect(20, y0, 200, 200), Color { r: 0, g: 0, b: 0, a: 200 });
        assert(Seq::<Layer>::empty().push((rect(20, y0, 200, 200), Color { r: 0, g: 0, b: 0, a: 200 })) =~= back);
    }
    let ghost s1 = *framebuffer;
    render_minimap_cells(framebuffer, maze, minimap_x, minimap_y, offsets, cell_size);
    let ghost cells = minimap_layers(g, 20, y0, offsets@, cell_size as int, g.len() as int);
    proof {
        lemma_layered_concat(start, s1, *framebuffer, back, cells);
    }
    let ghost head = back + cells;
    let n = items.len();
    let mut i: usize = 0;
    while i < n
        invariant
            framebuffer.wf(),
            start == *old(framebuffer),
            framebuffer.h() == start.h(),
            minimap_x == 20,
            minimap_y == y0,
            y0 == start.h() - 220,
            n == items@.len(),
            forall|k: int|
                0 <= k < items@.len() && item_shown(#[trigger] items@[k]) ==> i32::MIN + 1 <= 20 + items@[k].dx <= i32::MAX - 1
                    && i32::MIN + 1 <= y0 + items@[k].dy <= i32::MAX - 1,
            0 <= i <= n,
            layered(start, *framebuffer, head + item_dot_layers(items@, 20, y0, i as int)),
        decreases n - i,
    {
        let ghost before = head + item_dot_layers(items@, 20, y0, i as int);
        let item = &items[i];
        let shown = !item.collected && match item.state {
            ItemState::Idle => true,
            ItemState::Fading => false,
        };
        if shown {
            let ghost b = *framebuffer;
            draw_minimap_item(framebuffer, minimap_x + item.dx, minimap_y + item.dy, item.texture_key);
            proof {
                lemma_layered_push(
                    start,
                    b,
                    *framebuffer,
                    before,
                    rect(20 + item.dx - 1, y0 + item.dy - 1, 3, 3),
                    minimap_item_color(item.texture_key),
                );
                assert(before.push((rect(20 + item.dx - 1, y0 + item.dy - 1, 3, 3), minimap_item_color(item.texture_key)))
                    =~= head + item_dot_layers(items@, 20, y0, i as int + 1));
            }
        } else {
            proof {
                assert(before =~= head + item_dot_layers(items@, 20, y0, i as int + 1));
            }
        }
        i = i + 1;
    }
    let ghost dots = head + item_dot_layers(items@, 20, y0, n as int);
    let ghost s2 = *framebuffer;
    draw_player_on_minimap(framebuffer, minimap_x, minimap_y, arrow);
    proof {
        lemma_layered_concat(start, s2, *framebuffer, dots, arrow_layers(20, y0, *arrow));
    }
    let ghost s3 = *framebuffer;
    draw_minimap_border(framebuffer, minimap_x, minimap_y, minimap_size);
    proof {
        lemma_layered_push(start, s3, *framebuffer, dots + arrow_layers(20, y0, *arrow), border_shape(20, y0, 200), Color::white());
        assert((dots + arrow_layers(20, y0, *arrow)).push((border_shape(20, y0, 200), Color::white())) =~= minimap_view_layers(
            g,
            start.h() as int,
            offsets@,
            cell_size as int,
            items@,
            *arrow,
        ));
    }
}

} // verus!
