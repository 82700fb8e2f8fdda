use vstd::prelude::*;
use crate::framebuffer::{Framebuffer, painted};
use crate::maze::{Maze, grid};

verus! {

/// What a ray finds at one point of its march.
#[derive(Clone, Copy, Debug, PartialEq, Eq, Structural)]
pub enum RayStep {
    /// The point is outside the maze; `maxhit` is the offset inside the block
    /// used as texture coordinate.
    Outside { maxhit: usize },
    /// The point is in a wall cell showing `impact`, hit at offset `maxhit`.
    Hit { impact: char, maxhit: usize },
    /// The point is in a cell that rays pass through.
    Empty,
}

/// Cells that rays pass through: floor, the item markers and the player start.
pub open spec fn is_see_through(c: char) -> bool {
    c == ' ' || c == 'b' || c == 'c' || c == 'h' || c == 'i'
}

/// The distance between `a` and `b`.
pub open spec fn abs_diff(a: int, b: int) -> int {
    if a < b {
        b - a
    } else {
        a - b
    }
}

/// The texture offset of a wall hit at `(hitx, hity)` inside its block: the
/// offset along the face that the point is closest to.
pub open spec fn wall_hit_offset(hitx: int, hity: int, block_size: int) -> int {
    if (hitx < abs_diff(hitx, block_size) && hitx < hity && hitx < abs_diff(hity, block_size)) || (abs_diff(
        hitx,
        block_size,
    ) < hity && abs_diff(hitx, block_size) < abs_diff(hity, block_size)) {
        hity
    } else {
        hitx
    }
}

/// The texture offset where a ray leaves the maze.
pub open spec fn edge_hit_offset(hitx: int, hity: int, block_size: int) -> int {
    if 1 < hitx && hitx < block_size - 1 {
        hitx
    } else {
        hity
    }
}

/// The character a cell shows: the special wall's texture key in place of `'*'`
/// when there is a special wall.
pub open spec fn shown_cell(cell: char, wall_key: Option<char>) -> char {
    if cell == '*' && wall_key is Some {
        wall_key->0
    } else {
        cell
    }
}

/// The width of the maze as the ray reckons it: the length of its first row.
pub open spec fn maze_width(g: Seq<Seq<char>>) -> int {
    if g.len() > 0 {
        g[0].len() as int
    } else {
        0
    }
}

/// What a ray finds at pixel `(x, y)`: outside the maze, a wall (with the
/// special wall shown by `wall_key`), or a cell it passes through.
pub open spec fn ray_step_spec(g: Seq<Seq<char>>, x: int, y: int, block_size: int, wall_key: Option<char>) -> RayStep {
    let i = x / block_size;
    let j = y / block_size;
    let hitx = x % block_size;
    let hity = y % block_size;
    if j >= g.len() || i >= maze_width(g) {
        RayStep::Outside { maxhit: edge_hit_offset(hitx, hity, block_size) as usize }
    } else if !is_see_through(shown_cell(g[j][i], wall_key)) {
        RayStep::Hit { impact: shown_cell(g[j][i], wall_key), maxhit: wall_hit_offset(hitx, hity, block_size) as usize }
    } else {
        RayStep::Empty
    }
}

/// What a ray meets at pixel `(x, y)`, for cells `block_size` wide, with
/// `(i, j) = (x / block_size, y / block_size)` its cell and
/// `(hx, hy) = (x % block_size, y % block_size)` its place in the cell:
/// - beyond the last row, or beyond the length of the first row, the ray
///   leaves the maze, at offset `hx` when `1 < hx < block_size - 1` and `hy`
///   otherwise;
/// - inside, the cell shows its character, or the special wall's key in place
///   of `'*'` when there is a special wall; rays pass through floor `' '`, the
///   items `'b'`, `'c'`, `'h'` and the player's start `'i'`, and hit every
///   other cell, showing that character, at offset `hy` when the point is
///   strictly nearer a left or right face of the cell than a top or bottom
///   face, and `hx` otherwise.
pub proof fn lemma_ray_meets(g: Seq<Seq<char>>, x: int, y: int, block_size: int, wall_key: Option<char>)
    requires
        block_size > 0,
        x >= 0,
        y >= 0,
    ensures
        ({
            let (i, j) = (x / block_size, y / block_size);
            let (hx, hy) = (x % block_size, y % block_size);
            let r = ray_step_spec(g, x, y, block_size, wall_key);
            let inside = j < g.len() && g.len() > 0 && i < g[0].len();
            let c = if g[j][i] == '*' && wall_key is Some { wall_key->0 } else { g[j][i] };
            let near_side = (if hx < block_size - hx { hx } else { block_size - hx });
            let near_top = (if hy < block_size - hy { hy } else { block_size - hy });
            &&& !inside ==> r == RayStep::Outside { maxhit: (if 1 < hx < block_size - 1 { hx } else { hy }) as usize }
            &&& inside ==> (r == RayStep::Empty <==> (c == ' ' || c == 'b' || c == 'c' || c == 'h' || c == 'i'))
            &&& inside && !(c == ' ' || c == 'b' || c == 'c' || c == 'h' || c == 'i') ==> r == RayStep::Hit {
                impact: c,
                maxhit: (if near_side < near_top { hy } else { hx }) as usize,
            }
        }),
{
}

/// One point of a ray's march through the maze, at pixel `(x, y)` with cells
/// `block_size` pixels wide.
pub fn ray_step(maze: &Maze, x: usize, y: usize, block_size: usize, wall_key: Option<char>) -> (r: RayStep)
    requires
        block_size > 0,
        (y / block_size) < grid(maze).len() && (x / block_size) < maze_width(grid(maze)) ==> (x / block_size)
            < grid(maze)[(y / block_size) as int].len(),
    ensures
        r == ray_step_spec(grid(maze), x as int, y as int, block_size as int, wall_key),
{
    let maze_height = maze.len();
    let maze_w = if maze_height > 0 { maze[0].len() } else { 0 };
    let i = x / block_size;
    let j = y / block_size;
    let hitx = x % block_size;
    let hity = y % block_size;
    if j >= maze_height || i >= maze_w {
        let mut maxhit = hity;
        if 1 < hitx && hitx < block_size - 1 {
            maxhit = hitx;
        }
        return RayStep::Outside { maxhit };
    }
    let mut cell = maze[j][i];
    if cell == '*' {
        if let Some(k) = wall_key {
            cell = k;
        }
    }
    if cell != ' ' && cell != 'b' && cell != 'c' && cell != 'h' && cell != 'i' {
        let dx_far = block_size - hitx;
        let dy_far = block_size - hity;
        let maxhit = if hitx < dx_far && hitx < hity && hitx < dy_far {
            hity
        } else if dx_far < hity && dx_far < dy_far {
            hity
        } else if hity < dy_far {
            hitx
        } else {
            hitx
        };
        return RayStep::Hit { impact: cell, maxhit };
    }
    RayStep::Empty
}

/// One point of a ray's march: what the ray finds at pixel `(x, y)`; where
/// it passes through and `draw_line` is set, that pixel is painted in the
/// current colour (the ray's trace in the top-down view).
pub fn ray_visit(
    framebuffer: &mut Framebuffer,
    maze: &Maze,
    x: usize,
    y: usize,
    block_size: usize,
    wall_key: Option<char>,
    draw_line: bool,
) -> (r: RayStep)
    requires
        old(framebuffer).wf(),
        block_size > 0,
        (y / block_size) < grid(maze).len() && (x / block_size) < maze_width(grid(maze)) ==> (x / block_size)
            < grid(maze)[(y / block_size) as int].len(),
    ensures
        r == ray_step_spec(grid(maze), x as int, y as int, block_size as int, wall_key),
        r is Empty && draw_line ==> painted(
            *old(framebuffer),
            *final(framebuffer),
            |px: int, py: int| px == x as i32 && py == y as i32,
            old(framebuffer).current(),
        ),
        !(r is Empty && draw_line) ==> *final(framebuffer) == *old(framebuffer),
        final(framebuffer).current() == old(framebuffer).current(),
{
    let r = ray_step(maze, x, y, block_size, wall_key);
    if draw_line {
        if let RayStep::Empty = r {
            framebuffer.set_pixel(#[verifier::truncate] (x as i32), #[verifier::truncate] (y as i32));
        }
    }
    r
}

} // verus!
