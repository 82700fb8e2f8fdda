use vstd::prelude::*;
use crate::menu::ItemConfig;

verus! {

/// The maze: one row of cell characters per line of the map file.
pub type Maze = Vec<Vec<char>>;

/// The maze as a grid of characters.
pub open spec fn grid(maze: &Maze) -> Seq<Seq<char>> {
    maze@.map_values(|row: Vec<char>| row@)
}

/// Row `r`, column `c` is a cell of `g`.
pub open spec fn cell_in(g: Seq<Seq<char>>, r: int, c: int) -> bool {
    0 <= r < g.len() && 0 <= c < g[r].len()
}

/// Cell `(r1, c1)` comes before cell `(r2, c2)` in row-major order.
pub open spec fn lex_before(r1: int, c1: int, r2: int, c2: int) -> bool {
    r1 < r2 || (r1 == r2 && c1 < c2)
}

/// Some cell of `g` holds `target`.
pub open spec fn has_char(g: Seq<Seq<char>>, target: char) -> bool {
    exists|r: int, c: int| cell_in(g, r, c) && #[trigger] g[r][c] == target
}

/// `(r, c)` is the first cell of `g`, in row-major order, that holds `target`.
pub open spec fn is_first_cell(g: Seq<Seq<char>>, target: char, r: int, c: int) -> bool {
    &&& cell_in(g, r, c)
    &&& g[r][c] == target
    &&& forall|r2: int, c2: int| cell_in(g, r2, c2) && lex_before(r2, c2, r, c) ==> #[trigger] g[r2][c2] != target
}

/// The maze whose rows are the characters of `lines`.
pub fn maze_from_lines(lines: &Vec<String>) -> (maze: Maze)
    ensures
        grid(&maze) == lines@.map_values(|l: String| l@),
{
    let mut maze: Maze = Vec::new();
    let m = lines.len();
    let mut r: usize = 0;
    while r < m
        invariant
            m == lines@.len(),
            0 <= r <= m,
            grid(&maze) == lines@.subrange(0, r as int).map_values(|l: String| l@),
        decreases m - r,
    {
        let line: &str = lines[r].as_str();
        let n = line.unicode_len();
        let mut row: Vec<char> = Vec::new();
        let mut c: usize = 0;
        while c < n
            invariant
                n == line@.len(),
                m == lines@.len(),
                0 <= r < m,
                line@ == lines@[r as int]@,
                grid(&maze) == lines@.subrange(0, r as int).map_values(|l: String| l@),
                0 <= c <= n,
                row@ == line@.subrange(0, c as int),
            decreases n - c,
        {
            row.push(line.get_char(c));
            c = c + 1;
        }
        assert(row@ == line@);
        let ghost before = maze@;
        let ghost old_grid = grid(&maze);
        assert(grid(&maze).len() == r);
        assert(before.len() == r);
        maze.push(row);
        proof {
            let ghost want = lines@.subrange(0, r as int + 1).map_values(|l: String| l@);
            assert forall|k: int| 0 <= k < want.len() implies #[trigger] grid(&maze)[k] == want[k] by {
                if k < r {
                    assert(maze@[k] == before[k]);
                    assert(grid(&maze)[k] == before[k]@);
                    assert(old_grid[k] == before[k]@);
                    assert(old_grid[k] == lines@.subrange(0, r as int).map_values(|l: String| l@)[k]);
                    assert(lines@.subrange(0, r as int)[k] == lines@[k]);
                } else {
                    assert(maze@[k] == row);
                    assert(lines@.subrange(0, r as int + 1)[k] == lines@[k]);
                }
            }
            assert(grid(&maze) =~= want);
        }
        r = r + 1;
    }
    assert(lines@.subrange(0, m as int) =~= lines@);
    maze
}

/// The first cell, in row-major order, holding `target`, as `(row, column)`.
pub fn find_char_cell(maze: &Maze, target: char) -> (r: Option<(usize, usize)>)
    ensures
        match r {
            Some((row, col)) => is_first_cell(grid(maze), target, row as int, col as int),
            None => !has_char(grid(maze), target),
        },
{
    let ghost g = grid(maze);
    let m = maze.len();
    let mut row: usize = 0;
    while row < m
        invariant
            m == g.len(),
            g == grid(maze),
            0 <= row <= m,
            forall|r2: int, c2: int| cell_in(g, r2, c2) && r2 < row ==> #[trigger] g[r2][c2] != target,
        decreases m - row,
    {
        let n = maze[row].len();
        let mut col: usize = 0;
        while col < n
            invariant
                m == g.len(),
                g == grid(maze),
                0 <= row < m,
                n == g[row as int].len(),
                0 <= col <= n,
                forall|r2: int, c2: int| cell_in(g, r2, c2) && lex_before(r2, c2, row as int, col as int) ==> #[trigger] g[r2][c2] != target,
            decreases n - col,
        {
            if maze[row][col] == target {
                return Some((row, col));
            }
            col = col + 1;
        }
        row = row + 1;
    }
    None
}

/// The first cell holding `target` in row-major order, as the pixel
/// coordinates `(x, y)` of its top-left corner for cells `block_size` wide
/// (the centre is half a block further along each axis).
pub fn find_char_position(maze: &Maze, target: char, block_size: usize) -> (r: Option<(usize, usize)>)
    requires
        forall|row: int, col: int|
            #[trigger] is_first_cell(grid(maze), target, row, col) ==> col * block_size <= usize::MAX && row
                * block_size <= usize::MAX,
    ensures
        match r {
            Some((x, y)) => exists|row: int, col: int|
                #[trigger] is_first_cell(grid(maze), target, row, col) && x == col * block_size && y == row
                    * block_size,
            None => !has_char(grid(maze), target),
        },
{
    match find_char_cell(maze, target) {
        Some((row, col)) => {
            assert(is_first_cell(grid(maze), target, row as int, col as int));
            Some((col * block_size, row * block_size))
        },
        None => None,
    }
}

/// The first cell holding `target` is unique.
pub proof fn lemma_first_cell_unique(g: Seq<Seq<char>>, target: char, r1: int, c1: int, r2: int, c2: int)
    requires
        is_first_cell(g, target, r1, c1),
        is_first_cell(g, target, r2, c2),
    ensures
        r1 == r2 && c1 == c2,
{
    if lex_before(r1, c1, r2, c2) {
        assert(g[r1][c1] != target);
    }
    if lex_before(r2, c2, r1, c1) {
        assert(g[r2][c2] != target);
    }
}

/// The player may step onto cell `(i, j)` (column `i`, row `j`): it exists and
/// is floor (`' '`) or the goal (`'g'`).
pub fn can_move_to(maze: &Maze, i: usize, j: usize) -> (r: bool)
    ensures
        r == (cell_in(grid(maze), j as int, i as int) && (grid(maze)[j as int][i as int] == ' '
            || grid(maze)[j as int][i as int] == 'g')),
{
    if j < maze.len() && i < maze[j].len() {
        let cell = maze[j][i];
        cell == ' ' || cell == 'g'
    } else {
        false
    }
}

/// Replaces the first broken map (`'*'`, in row-major order) with the restored
/// map (`'$'`); returns whether there was one.
pub fn fix_map_in_maze(maze: &mut Maze) -> (fixed: bool)
    ensures
        fixed == has_char(grid(old(maze)), '*'),
        fixed ==> exists|row: int, col: int|
            #[trigger] is_first_cell(grid(old(maze)), '*', row, col) && grid(final(maze)) == grid(old(maze)).update(
                row,
                grid(old(maze))[row].update(col, '$'),
            ),
        !fixed ==> grid(final(maze)) == grid(old(maze)),
{
    match find_char_cell(maze, '*') {
        Some((row, col)) => {
            let ghost g = grid(maze);
            assert(g[row as int][col as int] == '*');
            let mut line: Vec<char> = maze[row].clone();
            assert(line@ =~= g[row as int]);
            line.set(col, '$');
            maze.set(row, line);
            assert(grid(maze) =~= g.update(row as int, g[row as int].update(col as int, '$')));
            true
        },
        None => false,
    }
}

/// An item to place in the maze: the top-left pixel corner `(x, y)` of its
/// cell, its texture key and its name.
pub struct ItemSpawn {
    pub x: usize,
    pub y: usize,
    pub texture_key: char,
    pub name: String,
}

/// The fields of a spawn as plain values.
pub open spec fn spawn_view(s: ItemSpawn) -> (int, int, char, Seq<char>) {
    (s.x as int, s.y as int, s.texture_key, s.name@)
}

/// Configuration `i` is the first one for map character `ch`.
pub open spec fn is_first_config(cfgs: Seq<ItemConfig>, ch: char, i: int) -> bool {
    &&& 0 <= i < cfgs.len()
    &&& cfgs[i].char_key == ch
    &&& forall|j: int| 0 <= j < i ==> #[trigger] cfgs[j].char_key != ch
}

/// The index of the first configuration for map character `ch`, if any.
pub open spec fn config_index(cfgs: Seq<ItemConfig>, ch: char) -> Option<int> {
    if exists|i: int| is_first_config(cfgs, ch, i) {
        Some(choose|i: int| is_first_config(cfgs, ch, i))
    } else {
        None
    }
}

/// The item that the cell holding `ch`, with top-left corner `(x, y)`, yields:
/// one from the first configuration for `ch`, or none.
pub open spec fn spawn_of(cfgs: Seq<ItemConfig>, ch: char, x: int, y: int) -> Seq<(int, int, char, Seq<char>)> {
    match config_index(cfgs, ch) {
        Some(i) => seq![(x, y, cfgs[i].texture_key, cfgs[i].item_name@)],
        None => Seq::empty(),
    }
}

/// The items of the first `n` cells of row `r`, left to right.
pub open spec fn row_spawns(row: Seq<char>, r: int, cfgs: Seq<ItemConfig>, block_size: int, n: int) -> Seq<
    (int, int, char, Seq<char>),
>
    decreases n,
{
    if n <= 0 {
        Seq::empty()
    } else {
        row_spawns(row, r, cfgs, block_size, n - 1) + spawn_of(cfgs, row[n - 1], (n - 1) * block_size, r * block_size)
    }
}

/// The items of the first `m` rows of `g`, in row-major order.
pub open spec fn grid_spawns(g: Seq<Seq<char>>, cfgs: Seq<ItemConfig>, block_size: int, m: int) -> Seq<
    (int, int, char, Seq<char>),
>
    decreases m,
{
    if m <= 0 {
        Seq::empty()
    } else {
        grid_spawns(g, cfgs, block_size, m - 1) + row_spawns(g[m - 1], m - 1, cfgs, block_size, g[m - 1].len() as int)
    }
}

/// The first configuration for map character `ch` is unique.
pub proof fn lemma_first_config_unique(cfgs: Seq<ItemConfig>, ch: char, i: int, j: int)
    requires
        is_first_config(cfgs, ch, i),
        is_first_config(cfgs, ch, j),
    ensures
        i == j,
{
    if i < j {
        assert(cfgs[i].char_key != ch);
    }
    if j < i {
        assert(cfgs[j].char_key != ch);
    }
}

/// The index of the first configuration for map character `cell`.
fn find_config(item_configs: &Vec<ItemConfig>, cell: char) -> (r: Option<usize>)
    ensures
        match r {
            Some(i) => config_index(item_configs@, cell) == Some(i as int),
            None => config_index(item_configs@, cell) is None,
        },
{
    let n = item_configs.len();
    let mut i: usize = 0;
    while i < n
        invariant
            n == item_configs@.len(),
            0 <= i <= n,
            forall|j: int| 0 <= j < i ==> #[trigger] item_configs@[j].char_key != cell,
        decreases n - i,
    {
        if item_configs[i].char_key == cell {
            proof {
                assert(is_first_config(item_configs@, cell, i as int));
                let k = choose|k: int| is_first_config(item_configs@, cell, k);
                lemma_first_config_unique(item_configs@, cell, i as int, k);
            }
            return Some(i);
        }
        i = i + 1;
    }
    proof {
        if exists|k: int| is_first_config(item_configs@, cell, k) {
            let k = choose|k: int| is_first_config(item_configs@, cell, k);
            assert(item_configs@[k].char_key != cell);
        }
    }
    None
}

/// The items that the maze holds: for each cell in row-major order whose
/// character has a configuration, one item from the first such configuration,
/// placed at the cell's top-left pixel corner.
pub fn spawn_items_from_config(maze: &Maze, block_size: usize, item_configs: &Vec<ItemConfig>) -> (items: Vec<ItemSpawn>)
    requires
        forall|r: int, c: int|
            cell_in(grid(maze), r, c) && #[trigger] config_index(item_configs@, grid(maze)[r][c]) is Some ==> c
                * block_size <= usize::MAX && r * block_size <= usize::MAX,
    ensures
        items@.map_values(|s: ItemSpawn| spawn_view(s)) == grid_spawns(
            grid(maze),
            item_configs@,
            block_size as int,
            grid(maze).len() as int,
        ),
{
    let ghost g = grid(maze);
    let ghost cfgs = item_configs@;
    let ghost bs = block_size as int;
    let mut items: Vec<ItemSpawn> = Vec::new();
    let m = maze.len();
    let mut row: usize = 0;
    while row < m
        invariant
            g == grid(maze),
            cfgs == item_configs@,
            bs == block_size,
            m == g.len(),
            0 <= row <= m,
            forall|r: int, c: int|
                cell_in(g, r, c) && #[trigger] config_index(cfgs, g[r][c]) is Some ==> c * bs <= usize::MAX && r
                    * bs <= usize::MAX,
            items@.map_values(|s: ItemSpawn| spawn_view(s)) == grid_spawns(g, cfgs, bs, row as int),
        decreases m - row,
    {
        let n = maze[row].len();
        let ghost before_row = grid_spawns(g, cfgs, bs, row as int);
        let mut col: usize = 0;
        while col < n
            invariant
                g == grid(maze),
                cfgs == item_configs@,
                bs == block_size,
                m == g.len(),
                0 <= row < m,
                n == g[row as int].len(),
                0 <= col <= n,
                before_row == grid_spawns(g, cfgs, bs, row as int),
                forall|r: int, c: int|
                    cell_in(g, r, c) && #[trigger] config_index(cfgs, g[r][c]) is Some ==> c * bs <= usize::MAX
                        && r * bs <= usize::MAX,
                items@.map_values(|s: ItemSpawn| spawn_view(s)) == before_row + row_spawns(
                    g[row as int],
                    row as int,
                    cfgs,
                    bs,
                    col as int,
                ),
            decreases n - col,
        {
            let cell = maze[row][col];
            let ghost prev = items@;
            match find_config(item_configs, cell) {
                Some(i) => {
                    assert(config_index(cfgs, g[row as int][col as int]) is Some);
                    let spawn = ItemSpawn {
                        x: col * block_size,
                        y: row * block_size,
                        texture_key: item_configs[i].texture_key,
                        name: item_configs[i].item_name.clone(),
                    };
                    items.push(spawn);
                    assert(items@.map_values(|s: ItemSpawn| spawn_view(s)) =~= prev.map_values(
                        |s: ItemSpawn| spawn_view(s),
                    ).push(spawn_view(spawn)));
                },
                None => {},
            }
            assert(row_spawns(g[row as int], row as int, cfgs, bs, col as int + 1) == row_spawns(
                g[row as int],
                row as int,
                cfgs,
                bs,
                col as int,
            ) + spawn_of(cfgs, cell, col * bs, row * bs));
            assert(items@.map_values(|s: ItemSpawn| spawn_view(s)) =~= before_row + row_spawns(
                g[row as int],
                row as int,
                cfgs,
                bs,
                col as int + 1,
            ));
            col = col + 1;
        }
        assert(grid_spawns(g, cfgs, bs, row as int + 1) == before_row + row_spawns(
            g[row as int],
            row as int,
            cfgs,
            bs,
            n as int,
        ));
        row = row + 1;
    }
    items
}

} // verus!
