use vstd::prelude::*;
use crate::color::Color;
use crate::framebuffer::{Framebuffer, painted, layered, rect, lemma_layered_empty, lemma_layered_push, lemma_painted_same_shape, lemma_painted_compose};
use crate::text::{draw_text_centered, draw_text_large, text_shape, centered_x};
use crate::maze::{Maze, grid, cell_in, lex_before};

verus! {

/// Draws the victory screen: a dark veil over the whole screen, the title in
/// gold four times the font size at a third of the height, and the way back to
/// the menu in grey below the middle.
pub fn render_victory_screen(framebuffer: &mut Framebuffer)
    requires
        old(framebuffer).wf(),
        old(framebuffer).w() <= i32::MAX,
        old(framebuffer).h() <= i32::MAX,
    ensures
        layered(
            *old(framebuffer),
            *final(framebuffer),
            seq![
                (rect(0, 0, old(framebuffer).w(), old(framebuffer).h()), Color { r: 0, g: 0, b: 0, a: 200 }),
                (
                    text_shape(
                        "NIVEL COMPLETADO"@,
                        centered_x(old(framebuffer).w(), 16, 4),
                        old(framebuffer).h() / 3,
                        4,
                    ),
                    Color { r: 255, g: 215, b: 0, a: 255 },
                ),
                (
                    text_shape(
                        "Presiona ENTER para volver al menu"@,
                        centered_x(old(framebuffer).w(), 34, 2),
                        old(framebuffer).h() / 2 + 100,
                        2,
                    ),
                    Color { r: 200, g: 200, b: 200, a: 255 },
                ),
            ],
        ),
        final(framebuffer).current() == (Color { r: 200, g: 200, b: 200, a: 255 }),
{
    let ghost start = *framebuffer;
    proof {
        lemma_layered_empty(start);
    }
    let veil = Color::new(0, 0, 0, 200);
    framebuffer.set_current_color(veil);
    let ghost s1 = *framebuffer;
    let w = framebuffer.width() as i32;
    let h = framebuffer.height() as i32;
    framebuffer.fill_rect(0, 0, w, h);
    let ghost s2 = *framebuffer;
    proof {
        crate::framebuffer::lemma_painted_compose(start, s1, s2, |x: int, y: int| false, rect(0, 0, w as int, h as int), veil);
        lemma_painted_same_shape(
            start,
            s2,
            |x: int, y: int| false || rect(0, 0, w as int, h as int)(x, y),
            rect(0, 0, w as int, h as int),
            veil,
        );
        lemma_layered_push(start, start, s2, Seq::empty(), rect(0, 0, w as int, h as int), veil);
    }
    let title = "NIVEL COMPLETADO";
    proof {
        reveal_strlit("NIVEL COMPLETADO");
    }
    let gold = Color::new(255, 215, 0, 255);
    let ty: i32 = (framebuffer.height() / 3) as i32;
    draw_text_large(framebuffer, title, ty, gold);
    let ghost s3 = *framebuffer;
    proof {
        lemma_layered_push(start, s2, s3, seq![(rect(0, 0, w as int, h as int), veil)], text_shape(title@, centered_x(start.w(), 16, 4), ty as int, 4), gold);
    }
    let instruction = "Presiona ENTER para volver al menu";
    proof {
        reveal_strlit("Presiona ENTER para volver al menu");
    }
    let grey = Color::new(200, 200, 200, 255);
    let iy: i32 = (framebuffer.height() / 2 + 100) as i32;
    draw_text_centered(framebuffer, instruction, iy, grey, 2);
    proof {
        lemma_layered_push(
            start,
            s3,
            *framebuffer,
            seq![(rect(0, 0, w as int, h as int), veil)].push((text_shape(title@, centered_x(start.w(), 16, 4), ty as int, 4), gold)),
            text_shape(instruction@, centered_x(start.w(), 34, 2), iy as int, 2),
            grey,
        );
        let ghost l1 = (rect(0, 0, w as int, h as int), veil);
        let ghost l2 = (text_shape(title@, centered_x(start.w(), 16, 4), ty as int, 4), gold);
        let ghost l3 = (text_shape(instruction@, centered_x(start.w(), 34, 2), iy as int, 2), grey);
        assert(seq![l1].push(l2).push(l3) =~= seq![l1, l2, l3]);
    }
}

/// Draws cell `cell` of the top-down view as a red `block_size` square with
/// top-left corner `(xo, yo)`; floor (`' '`) is not drawn.
pub fn draw_cell(framebuffer: &mut Framebuffer, xo: usize, yo: usize, block_size: usize, cell: char)
    requires
        old(framebuffer).wf(),
        block_size <= i32::MAX,
        xo + block_size <= i32::MAX + 1,
        yo + block_size <= i32::MAX + 1,
    ensures
        cell == ' ' ==> *final(framebuffer) == *old(framebuffer),
        cell != ' ' ==> painted(
            *old(framebuffer),
            *final(framebuffer),
            rect(xo as int, yo as int, block_size as int, block_size as int),
            Color::red(),
        ) && final(framebuffer).current() == Color::red(),
{
    if cell == ' ' {
        return;
    }
    let red = Color::red();
    framebuffer.set_current_color(red);
    let ghost s1 = *framebuffer;
    framebuffer.fill_rect(xo as i32, yo as i32, block_size as i32, block_size as i32);
    proof {
        lemma_painted_compose(*old(framebuffer), s1, *framebuffer, |x: int, y: int| false, rect(xo as int, yo as int, block_size as int, block_size as int), red);
        lemma_painted_same_shape(
            *old(framebuffer),
            *framebuffer,
            |x: int, y: int| false || rect(xo as int, yo as int, block_size as int, block_size as int)(x, y),
            rect(xo as int, yo as int, block_size as int, block_size as int),
            red,
        );
    }
}

/// The cell at row `r`, column `c` is drawn in the top-down view and covers `(x, y)`.
pub open spec fn wall_covers(g: Seq<Seq<char>>, block_size: int, r: int, c: int, x: int, y: int) -> bool {
    cell_in(g, r, c) && g[r][c] != ' ' && rect(c * block_size, r * block_size, block_size, block_size)(x, y)
}

/// The squares of all the non-floor cells of the maze.
pub open spec fn walls_shape(g: Seq<Seq<char>>, block_size: int) -> spec_fn(int, int) -> bool {
    |x: int, y: int| exists|r: int, c: int| #[trigger] wall_covers(g, block_size, r, c, x, y)
}

spec fn walls_before(g: Seq<Seq<char>>, block_size: int, row: int, col: int) -> spec_fn(int, int) -> bool {
    |x: int, y: int| exists|r: int, c: int| #[trigger] wall_covers(g, block_size, r, c, x, y) && lex_before(r, c, row, col)
}

proof fn lemma_mul_mono(a: int, b: int, n: int)
    by (nonlinear_arith)
    requires
        0 <= a < n,
        0 <= b,
    ensures
        0 <= a * b,
        a * b + b <= n * b,
{
}

/// Draws the top-down view: every non-floor cell as a red square, then the
/// player as one white pixel at `(player_x, player_y)`.
pub fn render_maze(framebuffer: &mut Framebuffer, maze: &Maze, block_size: usize, player_x: i32, player_y: i32)
    requires
        old(framebuffer).wf(),
        block_size <= i32::MAX,
        grid(maze).len() * block_size <= i32::MAX + 1,
        forall|r: int| 0 <= r < grid(maze).len() ==> #[trigger] grid(maze)[r].len() * block_size <= i32::MAX + 1,
    ensures
        layered(
            *old(framebuffer),
            *final(framebuffer),
            seq![
                (walls_shape(grid(maze), block_size as int), Color::red()),
                ((|x: int, y: int| x == player_x && y == player_y), Color::white()),
            ],
        ),
        final(framebuffer).current() == Color::white(),
{
    let ghost start = *framebuffer;
    let ghost g = grid(maze);
    let ghost bs = block_size as int;
    let red = Color::red();
    let m = maze.len();
    let mut row: usize = 0;
    while row < m
        invariant
            framebuffer.wf(),
            start == *old(framebuffer),
            g == grid(maze),
            bs == block_size,
            block_size <= i32::MAX,
            red == Color::red(),
            m == g.len(),
            g.len() * block_size <= i32::MAX + 1,
            forall|r: int| 0 <= r < g.len() ==> #[trigger] g[r].len() * block_size <= i32::MAX + 1,
            0 <= row <= m,
            painted(start, *framebuffer, walls_before(g, bs, row as int, 0), red),
        decreases m - row,
    {
        let n = maze[row].len();
        let mut col: usize = 0;
        while col < n
            invariant
                framebuffer.wf(),
                start == *old(framebuffer),
                g == grid(maze),
                bs == block_size,
                block_size <= i32::MAX,
                red == Color::red(),
                m == g.len(),
                g.len() * block_size <= i32::MAX + 1,
                forall|r: int| 0 <= r < g.len() ==> #[trigger] g[r].len() * block_size <= i32::MAX + 1,
                0 <= row < m,
                n == g[row as int].len(),
                0 <= col <= n,
                painted(start, *framebuffer, walls_before(g, bs, row as int, col as int), red),
            decreases n - col,
        {
            proof {
                lemma_mul_mono(col as int, bs, n as int);
                lemma_mul_mono(row as int, bs, m as int);
            }
            let cell = maze[row][col];
            let ghost before = walls_before(g, bs, row as int, col as int);
            let ghost after = walls_before(g, bs, row as int, col as int + 1);
            let ghost prev = *framebuffer;
            draw_cell(framebuffer, col * block_size, row * block_size, block_size, cell);
            proof {
                let ghost sq = rect(col * bs, row * bs, bs, bs);
                if cell == ' ' {
                    assert forall|x: int, y: int| #[trigger] after(x, y) == before(x, y) by {
                        if after(x, y) {
                            let (r, c) = choose|r: int, c: int| #[trigger] wall_covers(g, bs, r, c, x, y) && lex_before(r, c, row as int, col as int + 1);
                            assert(wall_covers(g, bs, r, c, x, y) && lex_before(r, c, row as int, col as int));
                        }
                        if before(x, y) {
                            let (r, c) = choose|r: int, c: int| #[trigger] wall_covers(g, bs, r, c, x, y) && lex_before(r, c, row as int, col as int);
                            assert(wall_covers(g, bs, r, c, x, y) && lex_before(r, c, row as int, col as int + 1));
                        }
                    }
                    lemma_painted_same_shape(start, *framebuffer, before, after, red);
                } else {
                    lemma_painted_compose(start, prev, *framebuffer, before, sq, red);
                    assert forall|x: int, y: int| #[trigger] after(x, y) == (before(x, y) || sq(x, y)) by {
                        if after(x, y) {
                            let (r, c) = choose|r: int, c: int| #[trigger] wall_covers(g, bs, r, c, x, y) && lex_before(r, c, row as int, col as int + 1);
                            if !(r == row && c == col) {
                                assert(wall_covers(g, bs, r, c, x, y) && lex_before(r, c, row as int, col as int));
                            }
                        }
                        if before(x, y) {
                            let (r, c) = choose|r: int, c: int| #[trigger] wall_covers(g, bs, r, c, x, y) && lex_before(r, c, row as int, col as int);
                            assert(wall_covers(g, bs, r, c, x, y) && lex_before(r, c, row as int, col as int + 1));
                        }
                        if sq(x, y) {
                            assert(wall_covers(g, bs, row as int, col as int, x, y));
                        }
                    }
                    lemma_painted_same_shape(start, *framebuffer, |x: int, y: int| before(x, y) || sq(x, y), after, red);
                }
            }
            col = col + 1;
        }
        proof {
            let ghost a = walls_before(g, bs, row as int, n as int);
            let ghost b = walls_before(g, bs, row as int + 1, 0);
            assert forall|x: int, y: int| #[trigger] b(x, y) == a(x, y) by {
                if b(x, y) {
                    let (r, c) = choose|r: int, c: int| #[trigger] wall_covers(g, bs, r, c, x, y) && lex_before(r, c, row as int + 1, 0);
                    assert(wall_covers(g, bs, r, c, x, y) && lex_before(r, c, row as int, n as int));
                }
                if a(x, y) {
                    let (r, c) = choose|r: int, c: int| #[trigger] wall_covers(g, bs, r, c, x, y) && lex_before(r, c, row as int, n as int);
                    assert(wall_covers(g, bs, r, c, x, y) && lex_before(r, c, row as int + 1, 0));
                }
            }
            lemma_painted_same_shape(start, *framebuffer, a, b, red);
        }
        row = row + 1;
    }
    let ghost s1 = *framebuffer;
    proof {
        let ghost a = walls_before(g, bs, m as int, 0);
        let ghost b = walls_shape(g, bs);
        assert forall|x: int, y: int| #[trigger] b(x, y) == a(x, y) by {
            if b(x, y) {
                let (r, c) = choose|r: int, c: int| #[trigger] wall_covers(g, bs, r, c, x, y);
                assert(wall_covers(g, bs, r, c, x, y) && lex_before(r, c, m as int, 0));
            }
        }
        lemma_painted_same_shape(start, s1, a, b, red);
        lemma_layered_empty(start);
        lemma_layered_push(start, start, s1, Seq::empty(), b, red);
    }
    let white = Color::white();
    framebuffer.set_current_color(white);
    let ghost s2 = *framebuffer;
    framebuffer.set_pixel(player_x, player_y);
    proof {
        let ghost pt = |x: int, y: int| x == player_x && y == player_y;
        lemma_painted_compose(s1, s2, *framebuffer, |x: int, y: int| false, pt, white);
        lemma_painted_same_shape(s1, *framebuffer, |x: int, y: int| false || pt(x, y), pt, white);
        lemma_layered_push(start, s1, *framebuffer, Seq::empty().push((walls_shape(g, bs), red)), pt, white);
        assert(Seq::empty().push((walls_shape(g, bs), red)).push((pt, white)) =~= seq![(walls_shape(g, bs), red), (pt, white)]);
    }
}

} // verus!
