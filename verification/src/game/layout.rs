use vstd::prelude::*;
use vstd::slice::slice_subrange;

use crate::game::maze::{grid_of, is_open, usable, well_formed};
use crate::game::position::Position;
use crate::game::tile::Tile;

verus! {

/// The byte that marks a wall.
pub const WALL: u8 = 35u8;

/// The byte that marks the cell where the player starts.
pub const PLAYER: u8 = 80u8;

/// The byte that marks a cell where a ghost starts.
pub const GHOST: u8 = 71u8;

/// The byte that marks a gum.
pub const GUM: u8 = 46u8;

/// The byte that marks a mega gum.
pub const MEGA_GUM: u8 = 88u8;

/// The byte that ends a line.
pub const LINE_FEED: u8 = 10u8;

/// The byte that may stand before a line feed and is then part of the line
/// ending.
pub const CARRIAGE_RETURN: u8 = 13u8;

/// Something for the player to eat. A mega gum looks different and counts
/// the same.
#[derive(PartialEq, Eq, Structural, Clone, Copy, Debug)]
pub struct Gum {
    pub pos: Position,
    pub mega: bool,
}

/// Why a text is not the description of a maze.
#[derive(PartialEq, Eq, Structural, Clone, Copy, Debug)]
pub enum LoadError {
    /// No cell is marked as the start of the player.
    NoPlayerFound,
    /// The player has a start, but the lines differ in length.
    UnevenRows,
}

impl LoadError {
    /// The error in words.
    pub fn message(&self) -> (text: &'static str)
        ensures
            text@ == (match *self {
                LoadError::NoPlayerFound => "No player found"@,
                LoadError::UnevenRows => "Rows of unequal length"@,
            }),
    {
        match self {
            LoadError::NoPlayerFound => "No player found",
            LoadError::UnevenRows => "Rows of unequal length",
        }
    }
}

/// What a maze file describes: the grid, and the elements on it in reading
/// order.
pub struct Layout {
    pub map: Vec<Vec<Tile>>,
    pub pacman: Position,
    pub ghosts: Vec<Position>,
    pub gums: Vec<Gum>,
}

/// The number of bytes before the first line feed of `text`, or the length
/// of `text` if it has none.
pub open spec fn line_end(text: Seq<u8>) -> nat
    decreases text.len(),
{
    if text.len() == 0 || text[0] == LINE_FEED {
        0
    } else {
        1 + line_end(text.skip(1))
    }
}

/// A line without the carriage return at its end, if it has one.
pub open spec fn trimmed(line: Seq<u8>) -> Seq<u8> {
    if line.len() > 0 && line.last() == CARRIAGE_RETURN {
        line.drop_last()
    } else {
        line
    }
}

/// The lines of a text. A line ends with a line feed, or with a carriage
/// return and a line feed; neither is part of the line. What follows the
/// last line feed is a line too, unless it is empty.
pub open spec fn text_lines(text: Seq<u8>) -> Seq<Seq<u8>>
    decreases text.len(),
{
    let end = line_end(text);
    if text.len() == 0 {
        Seq::empty()
    } else if end >= text.len() {
        seq![text]
    } else {
        seq![trimmed(text.take(end as int))] + text_lines(text.skip(end as int + 1))
    }
}

/// The tile that a byte of a maze file stands for: a wall for `#`, open
/// floor for every other byte.
pub open spec fn tile_of(byte: u8) -> Tile {
    if byte == WALL {
        Tile::Wall
    } else {
        Tile::Space
    }
}

/// The tiles of one line.
pub open spec fn line_tiles(line: Seq<u8>) -> Seq<Tile> {
    Seq::new(line.len(), |c: int| tile_of(line[c]))
}

/// The grid that the lines describe.
pub open spec fn tiles(rows: Seq<Seq<u8>>) -> Seq<Seq<Tile>> {
    Seq::new(rows.len(), |r: int| line_tiles(rows[r]))
}

/// The cells of line `row` that hold `byte`, from left to right.
pub open spec fn line_marks(line: Seq<u8>, row: nat, byte: u8) -> Seq<Position>
    decreases line.len(),
{
    if line.len() == 0 {
        Seq::empty()
    } else {
        let before = line_marks(line.drop_last(), row, byte);
        if line.last() == byte {
            before.push(Position { row: row as usize, col: (line.len() - 1) as usize })
        } else {
            before
        }
    }
}

/// The cells that hold `byte`, in reading order.
pub open spec fn marks(rows: Seq<Seq<u8>>, byte: u8) -> Seq<Position>
    decreases rows.len(),
{
    if rows.len() == 0 {
        Seq::empty()
    } else {
        marks(rows.drop_last(), byte) + line_marks(rows.last(), (rows.len() - 1) as nat, byte)
    }
}

/// The gums of line `row`, from left to right.
pub open spec fn line_gums(line: Seq<u8>, row: nat) -> Seq<Gum>
    decreases line.len(),
{
    if line.len() == 0 {
        Seq::empty()
    } else {
        let before = line_gums(line.drop_last(), row);
        let byte = line.last();
        if byte == GUM || byte == MEGA_GUM {
            before.push(
                Gum {
                    pos: Position { row: row as usize, col: (line.len() - 1) as usize },
                    mega: byte == MEGA_GUM,
                },
            )
        } else {
            before
        }
    }
}

/// The gums of the maze, in reading order.
pub open spec fn gums_of(rows: Seq<Seq<u8>>) -> Seq<Gum>
    decreases rows.len(),
{
    if rows.len() == 0 {
        Seq::empty()
    } else {
        gums_of(rows.drop_last()) + line_gums(rows.last(), (rows.len() - 1) as nat)
    }
}

/// Where the player starts: the last cell in reading order that is marked
/// for the player, if there is one.
pub open spec fn player_of(rows: Seq<Seq<u8>>) -> Option<Position> {
    let starts = marks(rows, PLAYER);
    if starts.len() > 0 {
        Some(starts.last())
    } else {
        None
    }
}

/// Whether all lines have the length of the first.
pub open spec fn even(rows: Seq<Seq<u8>>) -> bool {
    forall|r: int| 0 <= r < rows.len() ==> (#[trigger] rows[r]).len() == rows[0].len()
}

/// Whether `layout` holds what the lines describe.
pub open spec fn describes(rows: Seq<Seq<u8>>, layout: Layout) -> bool {
    &&& grid_of(layout.map@) == tiles(rows)
    &&& Some(layout.pacman) == player_of(rows)
    &&& layout.ghosts@ == marks(rows, GHOST)
    &&& layout.gums@ == gums_of(rows)
}

/// Whether the elements of `layout` stand on open floor of a usable grid.
pub open spec fn playable(layout: Layout) -> bool {
    let grid = grid_of(layout.map@);
    &&& well_formed(grid)
    &&& is_open(grid, layout.pacman)
    &&& forall|i: int| 0 <= i < layout.ghosts.len() ==> is_open(grid, #[trigger] layout.ghosts[i])
    &&& forall|i: int| 0 <= i < layout.gums.len() ==> is_open(grid, (#[trigger] layout.gums[i]).pos)
}

impl Layout {
    /// Whether a game can be played on the layout: the grid is usable, and
    /// the player, the ghosts and the gums stand on open floor of it.
    pub fn is_playable(&self) -> (yes: bool)
        ensures
            yes == playable(*self),
    {
        if !usable(&self.map) {
            return false;
        }
        if !on_floor(&self.map, &self.pacman) {
            return false;
        }
        let mut i: usize = 0;
        while i < self.ghosts.len()
            invariant
                i <= self.ghosts.len(),
                well_formed(grid_of(self.map@)),
                forall|k: int| 0 <= k < i ==> is_open(grid_of(self.map@), #[trigger] self.ghosts[k]),
            decreases self.ghosts.len() - i,
        {
            if !on_floor(&self.map, &self.ghosts[i]) {
                return false;
            }
            i = i + 1;
        }
        let mut j: usize = 0;
        while j < self.gums.len()
            invariant
                j <= self.gums.len(),
                well_formed(grid_of(self.map@)),
                forall|k: int|
                    0 <= k < j ==> is_open(grid_of(self.map@), (#[trigger] self.gums[k]).pos),
            decreases self.gums.len() - j,
        {
            if !on_floor(&self.map, &self.gums[j].pos) {
                return false;
            }
            j = j + 1;
        }
        true
    }
}

/// Whether `pos` is open floor of the map.
fn on_floor(map: &Vec<Vec<Tile>>, pos: &Position) -> (yes: bool)
    requires
        well_formed(grid_of(map@)),
    ensures
        yes == is_open(grid_of(map@), *pos),
{
    if pos.row < map.len() && pos.col < map[0].len() {
        assert(grid_of(map@)[pos.row as int].len() == grid_of(map@)[0].len());
        map[pos.row][pos.col] == Tile::Space
    } else {
        false
    }
}

/// A run of bytes without a line feed, closed by a line feed or by the end of
/// the text, is the first line.
proof fn lemma_line_end(text: Seq<u8>, end: nat)
    requires
        end <= text.len(),
        forall|i: int| 0 <= i < end ==> text[i] != LINE_FEED,
        end == text.len() || text[end as int] == LINE_FEED,
    ensures
        line_end(text) == end,
    decreases end,
{
    if end > 0 {
        lemma_line_end(text.skip(1), (end - 1) as nat);
    }
}

/// A marked cell lies in its line and holds the byte it is marked with.
proof fn lemma_line_marks(line: Seq<u8>, row: nat, byte: u8)
    requires
        row <= usize::MAX,
        line.len() <= usize::MAX,
    ensures
        forall|i: int|
            0 <= i < line_marks(line, row, byte).len() ==> {
                let pos = #[trigger] line_marks(line, row, byte)[i];
                pos.row == row && pos.col < line.len() && line[pos.col as int] == byte
            },
    decreases line.len(),
{
    if line.len() > 0 {
        let front = line.drop_last();
        lemma_line_marks(front, row, byte);
        assert forall|i: int| 0 <= i < line_marks(line, row, byte).len() implies {
            let pos = #[trigger] line_marks(line, row, byte)[i];
            pos.row == row && pos.col < line.len() && line[pos.col as int] == byte
        } by {
            if i < line_marks(front, row, byte).len() {
                let pos = line_marks(front, row, byte)[i];
                assert(front[pos.col as int] == byte);
            }
        }
    }
}

/// A marked cell lies in the text and holds the byte it is marked with.
proof fn lemma_marks(rows: Seq<Seq<u8>>, byte: u8)
    requires
        rows.len() <= usize::MAX,
        forall|r: int| 0 <= r < rows.len() ==> (#[trigger] rows[r]).len() <= usize::MAX,
    ensures
        forall|i: int|
            0 <= i < marks(rows, byte).len() ==> {
                let pos = #[trigger] marks(rows, byte)[i];
                pos.row < rows.len() && pos.col < rows[pos.row as int].len()
                    && rows[pos.row as int][pos.col as int] == byte
            },
    decreases rows.len(),
{
    if rows.len() > 0 {
        let front = rows.drop_last();
        let row = (rows.len() - 1) as nat;
        assert forall|r: int| 0 <= r < front.len() implies (#[trigger] front[r]).len()
            <= usize::MAX by {
            assert(front[r] == rows[r]);
        }
        lemma_marks(front, byte);
        lemma_line_marks(rows.last(), row, byte);
        let before = marks(front, byte);
        let here = line_marks(rows.last(), row, byte);
        assert forall|i: int| 0 <= i < marks(rows, byte).len() implies {
            let pos = #[trigger] marks(rows, byte)[i];
            pos.row < rows.len() && pos.col < rows[pos.row as int].len()
                && rows[pos.row as int][pos.col as int] == byte
        } by {
            if i < before.len() {
                assert(front[before[i].row as int][before[i].col as int] == byte);
            } else {
                assert(here[i - before.len()].row == row);
            }
        }
    }
}

/// A gum lies in its line, on a cell that holds one of the two gum bytes.
proof fn lemma_line_gums(line: Seq<u8>, row: nat)
    requires
        row <= usize::MAX,
        line.len() <= usize::MAX,
    ensures
        forall|i: int|
            0 <= i < line_gums(line, row).len() ==> {
                let pos = (#[trigger] line_gums(line, row)[i]).pos;
                pos.row == row && pos.col < line.len() && (line[pos.col as int] == GUM
                    || line[pos.col as int] == MEGA_GUM)
            },
    decreases line.len(),
{
    if line.len() > 0 {
        let front = line.drop_last();
        lemma_line_gums(front, row);
        assert forall|i: int| 0 <= i < line_gums(line, row).len() implies {
            let pos = (#[trigger] line_gums(line, row)[i]).pos;
            pos.row == row && pos.col < line.len() && (line[pos.col as int] == GUM
                || line[pos.col as int] == MEGA_GUM)
        } by {
            if i < line_gums(front, row).len() {
                let pos = line_gums(front, row)[i].pos;
                assert(front[pos.col as int] == line[pos.col as int]);
            }
        }
    }
}

/// A gum lies in the text, on a cell that holds one of the two gum bytes.
proof fn lemma_gums(rows: Seq<Seq<u8>>)
    requires
        rows.len() <= usize::MAX,
        forall|r: int| 0 <= r < rows.len() ==> (#[trigger] rows[r]).len() <= usize::MAX,
    ensures
        forall|i: int|
            0 <= i < gums_of(rows).len() ==> {
                let pos = (#[trigger] gums_of(rows)[i]).pos;
                pos.row < rows.len() && pos.col < rows[pos.row as int].len() && (
                rows[pos.row as int][pos.col as int] == GUM || rows[pos.row as int][pos.col as int]
                    == MEGA_GUM)
            },
    decreases rows.len(),
{
    if rows.len() > 0 {
        let front = rows.drop_last();
        let row = (rows.len() - 1) as nat;
        assert forall|r: int| 0 <= r < front.len() implies (#[trigger] front[r]).len()
            <= usize::MAX by {
            assert(front[r] == rows[r]);
        }
        lemma_gums(front);
        lemma_line_gums(rows.last(), row);
        let before = gums_of(front);
        let here = line_gums(rows.last(), row);
        assert forall|i: int| 0 <= i < gums_of(rows).len() implies {
            let pos = (#[trigger] gums_of(rows)[i]).pos;
            pos.row < rows.len() && pos.col < rows[pos.row as int].len() && (
            rows[pos.row as int][pos.col as int] == GUM || rows[pos.row as int][pos.col as int]
                == MEGA_GUM)
        } by {
            if i < before.len() {
                let pos = before[i].pos;
                assert(front[pos.row as int] == rows[pos.row as int]);
            } else {
                assert(here[i - before.len()].pos.row == row);
            }
        }
    }
}

/// Reads one line of a maze file: returns its tiles and records the
/// elements that it places.
fn scan_line(
    line: &[u8],
    row: usize,
    ghosts: &mut Vec<Position>,
    gums: &mut Vec<Gum>,
    pacman: &mut Option<Position>,
) -> (cells: Vec<Tile>)
    ensures
        cells@ == line_tiles(line@),
        final(ghosts)@ == old(ghosts)@ + line_marks(line@, row as nat, GHOST),
        final(gums)@ == old(gums)@ + line_gums(line@, row as nat),
        *final(pacman) == (if line_marks(line@, row as nat, PLAYER).len() > 0 {
            Some(line_marks(line@, row as nat, PLAYER).last())
        } else {
            *old(pacman)
        }),
{
    let mut cells: Vec<Tile> = Vec::new();
    let mut col: usize = 0;
    while col < line.len()
        invariant
            col <= line.len(),
            cells@ == line_tiles(line@.take(col as int)),
            ghosts@ == old(ghosts)@ + line_marks(line@.take(col as int), row as nat, GHOST),
            gums@ == old(gums)@ + line_gums(line@.take(col as int), row as nat),
            *pacman == (if line_marks(line@.take(col as int), row as nat, PLAYER).len() > 0 {
                Some(line_marks(line@.take(col as int), row as nat, PLAYER).last())
            } else {
                *old(pacman)
            }),
        decreases line.len() - col,
    {
        let c = line[col];
        proof {
            let seen = line@.take(col as int + 1);
            assert(seen.drop_last() =~= line@.take(col as int));
        }
        let tile = if c == WALL {
            Tile::Wall
        } else {
            if c == PLAYER {
                *pacman = Some(Position { row, col });
            } else if c == GHOST {
                ghosts.push(Position { row, col });
            } else if c == GUM {
                gums.push(Gum { pos: Position { row, col }, mega: false });
            } else if c == MEGA_GUM {
                gums.push(Gum { pos: Position { row, col }, mega: true });
            }
            Tile::Space
        };
        cells.push(tile);
        col = col + 1;
    }
    proof {
        assert(line@.take(line.len() as int) =~= line@);
    }
    cells
}

/// Reads the description of a maze.
///
/// Each line of the text is a row of the grid and each byte a cell: `#` is
/// a wall and every other byte open floor. On open floor `P` places the
/// player, `G` a ghost, `.` a gum and `X` a mega gum. Where several cells
/// are marked for the player, the last one counts. A text without a start
/// for the player is refused, and so is one whose lines differ in length.
pub fn parse_layout(text: &[u8]) -> (res: Result<Layout, LoadError>)
    ensures
        match res {
            Ok(layout) => {
                &&& even(text_lines(text@))
                &&& describes(text_lines(text@), layout)
                &&& playable(layout)
            },
            Err(LoadError::NoPlayerFound) => player_of(text_lines(text@)) is None,
            Err(LoadError::UnevenRows) => {
                &&& player_of(text_lines(text@)) is Some
                &&& !even(text_lines(text@))
            },
        },
{
    let mut map: Vec<Vec<Tile>> = Vec::new();
    let mut ghosts: Vec<Position> = Vec::new();
    let mut gums: Vec<Gum> = Vec::new();
    let mut pacman: Option<Position> = None;
    let ghost rows = text_lines(text@);
    let ghost mut done: Seq<Seq<u8>> = Seq::empty();
    let mut start: usize = 0;
    proof {
        assert(text@.skip(0) =~= text@);
    }
    while start < text.len()
        invariant
            start <= text.len(),
            rows == text_lines(text@),
            rows == done + text_lines(text@.skip(start as int)),
            done.len() == map.len(),
            grid_of(map@) == tiles(done),
            ghosts@ == marks(done, GHOST),
            gums@ == gums_of(done),
            pacman == player_of(done),
        decreases text.len() - start,
    {
        let ghost rest = text@.skip(start as int);
        let mut end: usize = start;
        while end < text.len() && text[end] != LINE_FEED
            invariant
                start <= end <= text.len(),
                forall|i: int| start <= i < end ==> text[i] != LINE_FEED,
            decreases text.len() - end,
        {
            end = end + 1;
        }
        proof {
            lemma_line_end(rest, (end - start) as nat);
        }
        let closed = end < text.len();
        let stop = if closed && start < end && text[end - 1] == CARRIAGE_RETURN {
            end - 1
        } else {
            end
        };
        let line = slice_subrange(text, start, stop);
        let row = map.len();
        let ghost old_map = map@;
        let cells = scan_line(line, row, &mut ghosts, &mut gums, &mut pacman);
        map.push(cells);
        proof {
            let next = if closed { end + 1 } else { end as int };
            let whole = rest.take(end - start);
            if closed {
                assert(trimmed(whole) =~= line@);
                assert(rest.skip(end - start + 1) =~= text@.skip(next));
            } else {
                assert(rest =~= line@);
            }
            assert(text_lines(rest) =~= seq![line@] + text_lines(text@.skip(next)));
            let grown = done.push(line@);
            assert(rows =~= grown + text_lines(text@.skip(next)));
            assert(grown.drop_last() =~= done);
            assert(grid_of(map@) =~= tiles(grown)) by {
                assert forall|r: int| 0 <= r < grown.len() implies grid_of(map@)[r] == tiles(
                    grown,
                )[r] by {
                    if r < done.len() {
                        assert(grid_of(map@)[r] == grid_of(old_map)[r]);
                    }
                }
            }
            done = grown;
        }
        start = if closed {
            end + 1
        } else {
            end
        };
    }
    match pacman {
        None => Err(LoadError::NoPlayerFound),
        Some(player) => {
            let fit = usable(&map);
            let layout = Layout { map, pacman: player, ghosts, gums };
            proof {
                lemma_even_tiles(rows);
                if even(rows) {
                    lemma_playable(rows, layout);
                }
            }
            if fit {
                Ok(layout)
            } else {
                Err(LoadError::UnevenRows)
            }
        },
    }
}

/// The lines are of one length where the rows of their grid are.
proof fn lemma_even_tiles(rows: Seq<Seq<u8>>)
    ensures
        even(rows) <==> (forall|r: int|
            0 <= r < rows.len() ==> (#[trigger] tiles(rows)[r]).len() == tiles(rows)[0].len()),
{
    if even(rows) {
        assert forall|r: int| 0 <= r < rows.len() implies (#[trigger] tiles(rows)[r]).len()
            == tiles(rows)[0].len() by {
            assert(rows[r].len() == rows[0].len());
        }
    }
    if forall|r: int| 0 <= r < rows.len() ==> (#[trigger] tiles(rows)[r]).len() == tiles(rows)[0].len() {
        assert forall|r: int| 0 <= r < rows.len() implies (#[trigger] rows[r]).len()
            == rows[0].len() by {
            assert(tiles(rows)[r].len() == tiles(rows)[0].len());
        }
    }
}

/// What even lines with a start for the player describe can be played.
proof fn lemma_playable(rows: Seq<Seq<u8>>, layout: Layout)
    requires
        describes(rows, layout),
        even(rows),
    ensures
        playable(layout),
{
    let grid = grid_of(layout.map@);
    assert(tiles(rows).len() == rows.len());
    assert(layout.map.len() == layout.map@.len());
    assert forall|r: int| 0 <= r < rows.len() implies (#[trigger] rows[r]).len()
        <= usize::MAX by {
        assert(layout.map@[r].len() == layout.map@[r]@.len());
        assert(tiles(rows)[r].len() == rows[r].len());
    }
    lemma_even_tiles(rows);
    lemma_marks(rows, PLAYER);
    lemma_marks(rows, GHOST);
    lemma_gums(rows);
    let player = marks(rows, PLAYER).last();
    assert(rows[player.row as int].len() == rows[0].len());
    assert forall|i: int| 0 <= i < layout.ghosts.len() implies is_open(
        grid,
        #[trigger] layout.ghosts[i],
    ) by {
        let pos = marks(rows, GHOST)[i];
        assert(rows[pos.row as int].len() == rows[0].len());
    }
    assert forall|i: int| 0 <= i < layout.gums.len() implies is_open(
        grid,
        (#[trigger] layout.gums[i]).pos,
    ) by {
        let pos = gums_of(rows)[i].pos;
        assert(rows[pos.row as int].len() == rows[0].len());
    }
}

} // verus!
