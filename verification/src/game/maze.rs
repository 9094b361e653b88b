use std::sync::Arc;
use vstd::prelude::*;

use crate::console::Entry;
use crate::game::position::Position;
use crate::game::tile::Tile;

verus! {

/// A grid is usable as a maze when it has at least one row and one column,
/// every row has the width of the first, and its cells can be numbered by
/// machine integers.
pub open spec fn well_formed(grid: Seq<Seq<Tile>>) -> bool {
    &&& 0 < grid.len() <= usize::MAX
    &&& 0 < grid[0].len() <= usize::MAX
    &&& forall|r: int| 0 <= r < grid.len() ==> (#[trigger] grid[r]).len() == grid[0].len()
}

/// The grid that a vector of rows holds.
pub open spec fn grid_of<T>(rows: Seq<Vec<T>>) -> Seq<Seq<T>> {
    Seq::new(rows.len(), |r: int| rows[r]@)
}

/// The characters that show the tiles of a grid, row by row.
pub open spec fn grid_glyphs(grid: Seq<Seq<Tile>>) -> Seq<Seq<char>> {
    Seq::new(grid.len(), |r: int| Seq::new(grid[r].len(), |c: int| grid[r][c].glyph_of()))
}

/// Whether `pos` lies inside the grid.
pub open spec fn inside(grid: Seq<Seq<Tile>>, pos: Position) -> bool {
    pos.row < grid.len() && pos.col < grid[0].len()
}

/// Whether `pos` lies inside the grid and holds a wall.
pub open spec fn is_wall(grid: Seq<Seq<Tile>>, pos: Position) -> bool {
    inside(grid, pos) && grid[pos.row as int][pos.col as int] == Tile::Wall
}

/// Whether `pos` lies inside the grid and holds open floor.
pub open spec fn is_open(grid: Seq<Seq<Tile>>, pos: Position) -> bool {
    inside(grid, pos) && grid[pos.row as int][pos.col as int] == Tile::Space
}

/// The cell that lies one step from `pos` in the direction `dir`, walls not
/// considered. The grid has no edge: a step over the first or the last row
/// or column comes out on the opposite side. An entry that is no direction
/// leads nowhere.
pub open spec fn step(grid: Seq<Seq<Tile>>, pos: Position, dir: Entry) -> Position {
    let last_row = grid.len() - 1;
    let last_col = grid[0].len() - 1;
    match dir {
        Entry::Up => Position {
            row: (if pos.row == 0 { last_row } else { pos.row - 1 }) as usize,
            col: pos.col,
        },
        Entry::Down => Position {
            row: (if pos.row == last_row { 0 } else { pos.row + 1 }) as usize,
            col: pos.col,
        },
        Entry::Left => Position {
            row: pos.row,
            col: (if pos.col == 0 { last_col } else { pos.col - 1 }) as usize,
        },
        Entry::Right => Position {
            row: pos.row,
            col: (if pos.col == last_col { 0 } else { pos.col + 1 }) as usize,
        },
        _ => pos,
    }
}

/// Where an element at `pos` stands after it has tried to move in the
/// direction `dir`: on the neighbouring cell, or where it was if that cell is
/// a wall.
pub open spec fn resolve(grid: Seq<Seq<Tile>>, pos: Position, dir: Entry) -> Position {
    let target = step(grid, pos, dir);
    if is_wall(grid, target) {
        pos
    } else {
        target
    }
}

/// Where an element stands after it has tried the same move `times` times.
pub open spec fn resolve_repeated(
    grid: Seq<Seq<Tile>>,
    pos: Position,
    dir: Entry,
    times: nat,
) -> Position
    decreases times,
{
    if times == 0 {
        pos
    } else {
        resolve(grid, resolve_repeated(grid, pos, dir, (times - 1) as nat), dir)
    }
}

/// A move that is not blocked changes one coordinate and leaves the other:
/// the row by one step modulo the height for `Up` and `Down`, the column by
/// one step modulo the width for `Left` and `Right`. A move into a wall
/// leaves the position as it was.
pub proof fn lemma_move_is_one_step(grid: Seq<Seq<Tile>>, pos: Position, dir: Entry)
    requires
        well_formed(grid),
        inside(grid, pos),
    ensures
        is_wall(grid, step(grid, pos, dir)) ==> resolve(grid, pos, dir) == pos,
        !is_wall(grid, step(grid, pos, dir)) ==> {
            let next = resolve(grid, pos, dir);
            let height = grid.len() as int;
            let width = grid[0].len() as int;
            &&& inside(grid, next)
            &&& dir == Entry::Up ==> next.row == (pos.row + height - 1) % height && next.col
                == pos.col
            &&& dir == Entry::Down ==> next.row == (pos.row + 1) % height && next.col == pos.col
            &&& dir == Entry::Left ==> next.col == (pos.col + width - 1) % width && next.row
                == pos.row
            &&& dir == Entry::Right ==> next.col == (pos.col + 1) % width && next.row == pos.row
            &&& !dir.is_direction() ==> next == pos
        },
{
    let height = grid.len() as int;
    let width = grid[0].len() as int;
    lemma_wrapped_neighbours(pos.row as int, height);
    lemma_wrapped_neighbours(pos.col as int, width);
}

/// The neighbours of `i` on a ring of `n` cells, by modular arithmetic.
proof fn lemma_wrapped_neighbours(i: int, n: int)
    requires
        0 <= i < n,
    ensures
        (i + 1) % n == (if i == n - 1 { 0 } else { i + 1 }),
        (i + n - 1) % n == (if i == 0 { n - 1 } else { i - 1 }),
{
    if i == n - 1 {
        vstd::arithmetic::div_mod::lemma_mod_self_0(n);
    } else {
        vstd::arithmetic::div_mod::lemma_small_mod((i + 1) as nat, n as nat);
    }
    if i == 0 {
        vstd::arithmetic::div_mod::lemma_small_mod((n - 1) as nat, n as nat);
    } else {
        vstd::arithmetic::div_mod::lemma_mod_add_multiples_vanish(i - 1, n);
        vstd::arithmetic::div_mod::lemma_small_mod((i - 1) as nat, n as nat);
    }
}

/// The grid has no edge. A move up from the first row leads to the last row
/// and a move down from the last row to the first; a move left from the first
/// column leads to the last column and a move right from the last column to
/// the first. Each holds unless the cell on the other side is a wall.
pub proof fn lemma_move_wraps(grid: Seq<Seq<Tile>>, pos: Position)
    requires
        well_formed(grid),
        inside(grid, pos),
    ensures
        ({
            let to = Position { row: (grid.len() - 1) as usize, col: pos.col };
            pos.row == 0 && !is_wall(grid, to) ==> resolve(grid, pos, Entry::Up) == to
        }),
        ({
            let to = Position { row: 0, col: pos.col };
            pos.row == grid.len() - 1 && !is_wall(grid, to) ==> resolve(grid, pos, Entry::Down)
                == to
        }),
        ({
            let to = Position { row: pos.row, col: (grid[0].len() - 1) as usize };
            pos.col == 0 && !is_wall(grid, to) ==> resolve(grid, pos, Entry::Left) == to
        }),
        ({
            let to = Position { row: pos.row, col: 0 };
            pos.col == grid[0].len() - 1 && !is_wall(grid, to) ==> resolve(
                grid,
                pos,
                Entry::Right,
            ) == to
        }),
{
}

/// A move into a wall can be tried any number of times: the element stays
/// where it was.
pub proof fn lemma_blocked_move_stays(
    grid: Seq<Seq<Tile>>,
    pos: Position,
    dir: Entry,
    times: nat,
)
    requires
        is_wall(grid, step(grid, pos, dir)),
    ensures
        resolve_repeated(grid, pos, dir, times) == pos,
    decreases times,
{
    if times > 0 {
        lemma_blocked_move_stays(grid, pos, dir, (times - 1) as nat);
    }
}

/// An element on open floor is on open floor after any move.
pub proof fn lemma_move_stays_on_floor(grid: Seq<Seq<Tile>>, pos: Position, dir: Entry)
    requires
        well_formed(grid),
        is_open(grid, pos),
    ensures
        is_open(grid, resolve(grid, pos, dir)),
{
    let target = step(grid, pos, dir);
    assert(inside(grid, target));
}

/// Whether the map can be made a maze: it has at least one row and one
/// column, and every row has the length of the first.
pub fn usable(map: &Vec<Vec<Tile>>) -> (yes: bool)
    ensures
        yes == well_formed(grid_of(map@)),
{
    if map.len() == 0 || map[0].len() == 0 {
        return false;
    }
    let mut r: usize = 0;
    while r < map.len()
        invariant
            r <= map.len(),
            map.len() > 0,
            map[0].len() > 0,
            forall|k: int| 0 <= k < r ==> (#[trigger] grid_of(map@)[k]).len() == grid_of(map@)[0].len(),
        decreases map.len() - r,
    {
        if map[r].len() != map[0].len() {
            assert(grid_of(map@)[r as int].len() != grid_of(map@)[0].len());
            return false;
        }
        r = r + 1;
    }
    true
}

/// The maze: a grid of tiles that never changes once built, shared between
/// the threads of the game.
pub struct Maze {
    map: Arc<Vec<Vec<Tile>>>,
}

impl Maze {
    /// Every maze has a well-formed grid.
    #[verifier::type_invariant]
    pub open spec fn sound(self) -> bool {
        well_formed(self@)
    }

    /// The grid of the maze, row by row.
    pub closed spec fn view(&self) -> Seq<Seq<Tile>> {
        grid_of(self.map@)
    }

    /// Creates a maze that threads can share. The map has at least one row
    /// and one column, and rows of one length; `usable` tells.
    pub fn new(map: Vec<Vec<Tile>>) -> (maze: Maze)
        requires
            well_formed(grid_of(map@)),
        ensures
            maze@ == grid_of(map@),
    {
        Maze { map: Arc::new(map) }
    }

    /// Returns a couple that holds the height and the width of the maze.
    pub fn get_heigth_width(&self) -> (dims: (usize, usize))
        ensures
            dims.0 == self@.len(),
            dims.1 == self@[0].len(),
            dims.0 > 0,
            dims.1 > 0,
    {
        proof {
            use_type_invariant(self);
        }
        (self.map.len(), self.map[0].len())
    }

    /// Gets the tile of the maze at the given coordinates, if they lie
    /// inside it.
    pub fn get_tile(&self, row: usize, col: usize) -> (tile: Option<&Tile>)
        ensures
            tile == if inside(self@, Position { row, col }) { Some(&self@[row as int][col as int]) } else { None },
    {
        proof {
            use_type_invariant(self);
        }
        if row < self.map.len() && col < self.map[0].len() {
            assert(self@[row as int].len() == self@[0].len());
            Some(&self.map[row][col])
        } else {
            None
        }
    }

    /// Creates a position from the current position and the given
    /// direction. An element that leaves the grid on one side comes back in
    /// on the other. The position is unchanged where the move leads into a
    /// wall, and for an entry that is no direction.
    pub fn make_move(&self, current_pos: &Position, dir: &Entry) -> (pos: Position)
        requires
            *dir == Entry::Down ==> current_pos.row < usize::MAX,
            *dir == Entry::Right ==> current_pos.col < usize::MAX,
        ensures
            pos == resolve(self@, *current_pos, *dir),
    {
        proof {
            use_type_invariant(self);
        }
        let (heigth, width) = self.get_heigth_width();

        let mut pos = Position::new(current_pos.row, current_pos.col);

        match dir {
            Entry::Up => {
                if pos.row == 0 {
                    pos.row = heigth - 1;
                } else {
                    pos.row = pos.row - 1;
                }
            },
            Entry::Down => {
                if pos.row == heigth - 1 {
                    pos.row = 0;
                } else {
                    pos.row = pos.row + 1;
                }
            },
            Entry::Right => {
                if pos.col == width - 1 {
                    pos.col = 0;
                } else {
                    pos.col = pos.col + 1;
                }
            },
            Entry::Left => {
                if pos.col == 0 {
                    pos.col = width - 1;
                } else {
                    pos.col = pos.col - 1;
                }
            },
            _ => (),
        }

        if let Some(tile) = self.get_tile(pos.row, pos.col) {
            if *tile == Tile::Wall {
                pos.row = current_pos.row;
                pos.col = current_pos.col;
            }
        }

        pos
    }

    /// The characters that show the maze, row by row: `#` for a wall and a
    /// blank for open floor.
    pub fn display_maze(&self) -> (shown: Vec<Vec<char>>)
        ensures
            grid_of(shown@) == grid_glyphs(self@),
    {
        let mut shown: Vec<Vec<char>> = Vec::new();
        let mut r: usize = 0;
        while r < self.map.len()
            invariant
                r <= self.map.len(),
                shown.len() == r,
                forall|k: int|
                    0 <= k < r ==> (#[trigger] shown@[k])@ == Seq::new(
                        self@[k].len(),
                        |c: int| self@[k][c].glyph_of(),
                    ),
            decreases self.map.len() - r,
        {
            let row = &self.map[r];
            let mut line: Vec<char> = Vec::new();
            let mut c: usize = 0;
            while c < row.len()
                invariant
                    c <= row.len(),
                    line.len() == c,
                    forall|k: int| 0 <= k < c ==> #[trigger] line@[k] == row@[k].glyph_of(),
                decreases row.len() - c,
            {
                line.push(row[c].glyph());
                c = c + 1;
            }
            shown.push(line);
            r = r + 1;
        }
        shown
    }

    /// Gets another handle to the same maze, for another thread.
    pub fn get_clone(&self) -> (maze: Maze)
        ensures
            maze@ == self@,
    {
        proof {
            use_type_invariant(self);
        }
        Maze { map: Arc::clone(&self.map) }
    }
}

} // verus!
