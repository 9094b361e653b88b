use vstd::prelude::*;
use vstd::string::StringSliceAdditionalSpecFns;

use crate::console::{Entry, Glyph};

/// Coordinates of a cell of the maze.
pub mod position;

/// The static elements of the maze.
mod tile;

/// The grid and the rule of movement.
pub mod maze;

/// The text of a maze file and what it describes.
pub mod layout;

/// The ghosts and their random walk.
pub mod ghosts;

pub use self::ghosts::Ghosts;
pub use self::layout::{Gum, Layout, LoadError};
pub use self::maze::Maze;
pub use self::position::Position;
pub use self::tile::Tile;

use self::ghosts::ghost_glyphs;
use self::layout::{gums_of, marks, parse_layout, playable, player_of, text_lines, tiles, GHOST};
use self::maze::{grid_of, is_open, lemma_move_stays_on_floor, resolve, well_formed};

verus! {

/// The number of gums that lie before the first gum at `at`: the index of
/// that gum, or the number of all gums if none lies there.
pub open spec fn gum_index(gums: Seq<Gum>, at: Position) -> nat
    decreases gums.len(),
{
    if gums.len() == 0 || gums[0].pos == at {
        0
    } else {
        1 + gum_index(gums.skip(1), at)
    }
}

/// The gums that are left when the player has come to `at`: all but the
/// first gum that lies there.
pub open spec fn eaten(gums: Seq<Gum>, at: Position) -> Seq<Gum> {
    let index = gum_index(gums, at);
    if index < gums.len() {
        gums.remove(index as int)
    } else {
        gums
    }
}

/// Whether a gum lies at `at`.
pub open spec fn gum_at(gums: Seq<Gum>, at: Position) -> bool {
    exists|i: int| 0 <= i < gums.len() && (#[trigger] gums[i]).pos == at
}

/// Where the player stands after the entries `dirs`, one move for each.
pub open spec fn player_after(grid: Seq<Seq<Tile>>, player: Position, dirs: Seq<Entry>) -> Position
    decreases dirs.len(),
{
    if dirs.len() == 0 {
        player
    } else {
        resolve(grid, player_after(grid, player, dirs.drop_last()), dirs.last())
    }
}

/// The gums that are left after the entries `dirs`, one move for each.
pub open spec fn gums_after(
    grid: Seq<Seq<Tile>>,
    player: Position,
    gums: Seq<Gum>,
    dirs: Seq<Entry>,
) -> Seq<Gum>
    decreases dirs.len(),
{
    if dirs.len() == 0 {
        gums
    } else {
        eaten(gums_after(grid, player, gums, dirs.drop_last()), player_after(grid, player, dirs))
    }
}

/// The lives that are left of `lives` after a check for collisions: one
/// less if a ghost was met and a life was left to lose.
pub open spec fn lives_after(lives: int, hit: bool) -> int {
    if hit && lives > 0 {
        lives - 1
    } else {
        lives
    }
}

/// The lives that are left after one check for each element of `hits`.
pub open spec fn lives_after_all(lives: int, hits: Seq<bool>) -> int
    decreases hits.len(),
{
    if hits.len() == 0 {
        lives
    } else {
        lives_after(lives_after_all(lives, hits.drop_last()), hits.last())
    }
}

/// How a game stands after a round of the player.
#[derive(PartialEq, Eq, Structural, Clone, Copy, Debug)]
pub enum Outcome {
    /// The game goes on.
    Running,
    /// No gum is left.
    Won,
    /// Gums are left and no life is.
    Lost,
    /// Gums and lives are left, and the player has pressed escape.
    Aborted,
}

/// How a game stands in which `gums` gums and `lives` lives are left after
/// the player has entered `input`.
pub open spec fn outcome_of(input: Entry, gums: nat, lives: u8) -> Outcome {
    if gums == 0 {
        Outcome::Won
    } else if lives == 0 {
        Outcome::Lost
    } else if input == Entry::Esc {
        Outcome::Aborted
    } else {
        Outcome::Running
    }
}

/// The glyphs that show the gums, in their order.
pub open spec fn gum_glyphs(gums: Seq<Gum>) -> Seq<Glyph> {
    Seq::new(
        gums.len(),
        |i: int|
            Glyph { pos: gums[i].pos, character: if gums[i].mega { 'X' } else { '.' }, wide: false },
    )
}

/// What is drawn over the maze, in the order of drawing: the gums, the
/// ghosts, and last the player.
pub open spec fn screen(gums: Seq<Gum>, ghosts: Seq<Position>, player: Position) -> Seq<Glyph> {
    gum_glyphs(gums) + ghost_glyphs(ghosts) + seq![
        Glyph { pos: player, character: 'P', wide: false },
    ]
}

/// Gums without a gum at `at`, up to a gum there or to the end, end at the
/// first gum at `at`.
proof fn lemma_gum_index(gums: Seq<Gum>, at: Position, index: nat)
    requires
        index <= gums.len(),
        forall|k: int| 0 <= k < index ==> (#[trigger] gums[k]).pos != at,
        index == gums.len() || gums[index as int].pos == at,
    ensures
        gum_index(gums, at) == index,
    decreases index,
{
    if index > 0 {
        lemma_gum_index(gums.skip(1), at, (index - 1) as nat);
    }
}

/// The first gum at `at` is a gum at `at`, and none lies there before it.
proof fn lemma_gum_index_first(gums: Seq<Gum>, at: Position)
    ensures
        gum_index(gums, at) <= gums.len(),
        gum_index(gums, at) < gums.len() ==> gums[gum_index(gums, at) as int].pos == at,
        forall|k: int| 0 <= k < gum_index(gums, at) ==> (#[trigger] gums[k]).pos != at,
    decreases gums.len(),
{
    if gums.len() > 0 && gums[0].pos != at {
        let rest = gums.skip(1);
        lemma_gum_index_first(rest, at);
        assert forall|k: int| 0 <= k < gum_index(gums, at) implies (#[trigger] gums[k]).pos
            != at by {
            if k > 0 {
                assert(gums[k] == rest[k - 1]);
            }
        }
    }
}

/// A move takes one gum away if the player comes to a cell with a gum, and
/// none otherwise.
pub proof fn lemma_eaten_one(gums: Seq<Gum>, at: Position)
    ensures
        gum_at(gums, at) ==> eaten(gums, at).len() == gums.len() - 1,
        !gum_at(gums, at) ==> eaten(gums, at) == gums,
{
    lemma_gum_index_first(gums, at);
    let index = gum_index(gums, at);
    if gum_at(gums, at) {
        let i = choose|i: int| 0 <= i < gums.len() && (#[trigger] gums[i]).pos == at;
        assert(index <= i);
    } else if index < gums.len() {
        assert(gums[index as int].pos == at);
    }
}

/// The number of gums never grows, whatever the player enters.
pub proof fn lemma_gums_never_grow(
    grid: Seq<Seq<Tile>>,
    player: Position,
    gums: Seq<Gum>,
    dirs: Seq<Entry>,
)
    ensures
        gums_after(grid, player, gums, dirs).len() <= gums.len(),
        forall|n: int|
            0 <= n <= dirs.len() ==> gums_after(grid, player, gums, dirs).len() <= (
            #[trigger] gums_after(grid, player, gums, dirs.take(n))).len(),
    decreases dirs.len(),
{
    if dirs.len() > 0 {
        let front = dirs.drop_last();
        lemma_gums_never_grow(grid, player, gums, front);
        lemma_eaten_one(gums_after(grid, player, gums, front), player_after(grid, player, dirs));
        assert forall|n: int| 0 <= n <= dirs.len() implies gums_after(
            grid,
            player,
            gums,
            dirs,
        ).len() <= (#[trigger] gums_after(grid, player, gums, dirs.take(n))).len() by {
            if n < dirs.len() {
                assert(dirs.take(n) =~= front.take(n));
            } else {
                assert(dirs.take(n) =~= dirs);
            }
        }
    } else {
        assert(dirs.take(0) =~= dirs);
    }
}

/// Lives are never less than none, and never more than before, however
/// many collisions are checked.
pub proof fn lemma_lives_floor(lives: int, hits: Seq<bool>)
    requires
        0 <= lives,
    ensures
        0 <= lives_after_all(lives, hits) <= lives,
    decreases hits.len(),
{
    if hits.len() > 0 {
        lemma_lives_floor(lives, hits.drop_last());
    }
}

/// The lives that are left after a check for collisions.
pub fn after_collision(lives: u8, hit: bool) -> (left: u8)
    ensures
        left == lives_after(lives as int, hit),
{
    if hit && lives > 0 {
        lives - 1
    } else {
        lives
    }
}

/// The index of the first gum at `at`, or the number of the gums if none
/// lies there.
pub fn find_gum(gums: &Vec<Gum>, at: &Position) -> (index: usize)
    ensures
        index == gum_index(gums@, *at),
{
    let mut i: usize = 0;
    while i < gums.len()
        invariant
            i <= gums.len(),
            forall|k: int| 0 <= k < i ==> (#[trigger] gums@[k]).pos != *at,
        decreases gums.len() - i,
    {
        if gums[i].pos == *at {
            proof {
                lemma_gum_index(gums@, *at, i as nat);
            }
            return i;
        }
        i = i + 1;
    }
    proof {
        lemma_gum_index(gums@, *at, i as nat);
    }
    i
}

/// The glyphs that show the gums.
pub fn glyphs_of_gums(gums: &Vec<Gum>) -> (shown: Vec<Glyph>)
    ensures
        shown@ == gum_glyphs(gums@),
{
    let mut shown: Vec<Glyph> = Vec::new();
    let mut i: usize = 0;
    while i < gums.len()
        invariant
            i <= gums.len(),
            shown@ == gum_glyphs(gums@.take(i as int)),
        decreases gums.len() - i,
    {
        let c = if gums[i].mega {
            'X'
        } else {
            '.'
        };
        shown.push(Glyph { pos: gums[i].pos, character: c, wide: false });
        i = i + 1;
    }
    shown
}

/// Puts together what is drawn over the maze: the gums, the ghosts as
/// `ghosts` shows them, and last the player.
pub fn compose_screen(gums: &Vec<Gum>, ghosts: Vec<Glyph>, pacman: &Position) -> (shown: Vec<Glyph>)
    ensures
        shown@ == gum_glyphs(gums@) + ghosts@ + seq![
            Glyph { pos: *pacman, character: 'P', wide: false },
        ],
{
    let mut shown = glyphs_of_gums(gums);
    let mut i: usize = 0;
    while i < ghosts.len()
        invariant
            i <= ghosts.len(),
            shown@ == gum_glyphs(gums@) + ghosts@.take(i as int),
        decreases ghosts.len() - i,
    {
        shown.push(ghosts[i]);
        i = i + 1;
    }
    shown.push(Glyph { pos: *pacman, character: 'P', wide: false });
    shown
}

/// A game: the maze, the player and the ghosts in it, the gums that are
/// left, and the lives of the player.
#[allow(dead_code)]
pub struct Game {
    maze: Maze,
    pacman: Position,
    ghosts: Ghosts,
    gums: Vec<Gum>,
    width: usize,
    heigth: usize,
    /// Kept for the effect of a mega gum, which has none so far.
    berserk: usize,
    lives: u8,
    max_gums: usize,
}

impl Game {
    /// What holds of every game: the player and the gums are on open floor
    /// of the maze, the ghosts live in that maze, and no more gums are left
    /// than there were at the start.
    #[verifier::type_invariant]
    pub open spec fn sound(self) -> bool {
        &&& well_formed(self.grid())
        &&& self.measured()
        &&& is_open(self.grid(), self.player())
        &&& self.ghosts().home() == Some(self.grid())
        &&& self.gums().len() <= self.max_gums()
        &&& forall|i: int|
            0 <= i < self.gums().len() ==> is_open(self.grid(), (#[trigger] self.gums()[i]).pos)
    }

    /// Whether the game holds the height and the width of its maze.
    pub closed spec fn measured(&self) -> bool {
        self.heigth == self.maze@.len() && self.width == self.maze@[0].len()
    }

    /// The grid of the maze.
    pub closed spec fn grid(&self) -> Seq<Seq<Tile>> {
        self.maze@
    }

    /// Where the player stands.
    pub closed spec fn player(&self) -> Position {
        self.pacman
    }

    /// The handle to the ghosts.
    pub closed spec fn ghosts(&self) -> Ghosts {
        self.ghosts
    }

    /// The gums that are left, in reading order.
    pub closed spec fn gums(&self) -> Seq<Gum> {
        self.gums@
    }

    /// The lives that are left.
    pub closed spec fn lives(&self) -> u8 {
        self.lives
    }

    /// The number of gums at the start.
    pub closed spec fn max_gums(&self) -> usize {
        self.max_gums
    }

    /// The score: the number of gums eaten.
    pub open spec fn score(&self) -> int {
        self.max_gums() - self.gums().len()
    }

    /// Sets up a game on a layout: the player has one life and all the
    /// gums are still there.
    pub fn from_layout(layout: Layout) -> (game: Game)
        requires
            playable(layout),
        ensures
            game.grid() == grid_of(layout.map@),
            game.player() == layout.pacman,
            game.gums() == layout.gums@,
            game.lives() == 1,
            game.max_gums() == layout.gums@.len(),
            game.ghosts().count() == layout.ghosts@.len(),
            game.ghosts().home() == Some(game.grid()),
    {
        let Layout { map, pacman, ghosts, gums } = layout;
        let heigth = map.len();
        let width = map[0].len();
        let max_gums = gums.len();
        let ghost grid = grid_of(map@);
        let maze = Maze::new(map);
        Game {
            maze,
            pacman,
            ghosts: Ghosts::placed(ghosts, Ghost(grid)),
            gums,
            width,
            heigth,
            berserk: 0,
            lives: 1,
            max_gums,
        }
    }

    /// Loads the maze from its description and returns the game at its
    /// start; see `parse_layout` for what a description is. A text in which
    /// no cell is marked for the player is refused, and so is one whose
    /// lines differ in length.
    pub fn load_maze(contents: &str) -> (res: Result<Game, LoadError>)
        ensures
            match res {
                Ok(game) => {
                    let rows = text_lines(contents.spec_bytes());
                    &&& layout::even(rows)
                    &&& game.grid() == tiles(rows)
                    &&& Some(game.player()) == player_of(rows)
                    &&& game.gums() == gums_of(rows)
                    &&& game.lives() == 1
                    &&& game.max_gums() == gums_of(rows).len()
                    &&& game.ghosts().count() == marks(rows, GHOST).len()
                    &&& game.ghosts().home() == Some(game.grid())
                },
                Err(LoadError::NoPlayerFound) => player_of(text_lines(contents.spec_bytes()))
                    is None,
                Err(LoadError::UnevenRows) => {
                    &&& player_of(text_lines(contents.spec_bytes())) is Some
                    &&& !layout::even(text_lines(contents.spec_bytes()))
                },
            },
    {
        match parse_layout(contents.as_bytes()) {
            Ok(layout) => Ok(Game::from_layout(layout)),
            Err(e) => Err(e),
        }
    }

    /// Returns the number of gums left.
    pub fn get_nb_gums(&self) -> (left: usize)
        ensures
            left == self.gums().len(),
            left <= self.max_gums(),
    {
        proof {
            use_type_invariant(self);
        }
        self.gums.len()
    }

    /// Returns the number of lives left.
    pub fn get_lives(&self) -> (lives: u8)
        ensures
            lives == self.lives(),
    {
        self.lives
    }

    /// Returns the number of gums available at the start.
    pub fn get_max_gums(&self) -> (max: usize)
        ensures
            max == self.max_gums(),
    {
        self.max_gums
    }

    /// Returns the score of the game: the number of gums eaten. The score
    /// and the gums left always add up to the gums of the start.
    pub fn get_score(&self) -> (score: usize)
        ensures
            score == self.score(),
            score + self.gums().len() == self.max_gums(),
    {
        proof {
            use_type_invariant(self);
        }
        self.max_gums - self.gums.len()
    }

    /// Gets another handle to the ghosts of the game, for another thread.
    pub fn get_clone_ghosts(&self) -> (handle: Ghosts)
        ensures
            handle == self.ghosts(),
            handle.home() == Some(self.grid()),
    {
        proof {
            use_type_invariant(self);
        }
        self.ghosts.get_clone()
    }

    /// Gets another handle to the maze of the game, for another thread.
    pub fn get_clone_maze(&self) -> (maze: Maze)
        ensures
            maze@ == self.grid(),
    {
        self.maze.get_clone()
    }

    /// Moves the player in the given direction, as far as the maze lets
    /// it, and lets it eat the first gum that lies where it arrives.
    pub fn move_player(&mut self, dir: &Entry)
        ensures
            final(self).player() == resolve(old(self).grid(), old(self).player(), *dir),
            final(self).gums() == eaten(old(self).gums(), final(self).player()),
            final(self).grid() == old(self).grid(),
            final(self).ghosts() == old(self).ghosts(),
            final(self).lives() == old(self).lives(),
            final(self).max_gums() == old(self).max_gums(),
    {
        proof {
            use_type_invariant(&*self);
            lemma_move_stays_on_floor(self.maze@, self.pacman, *dir);
        }
        let player = self.maze.make_move(&self.pacman, dir);

        self.pacman = player;

        let index = find_gum(&self.gums, &self.pacman);
        if index < self.gums.len() {
            let mut gums: Vec<Gum> = Vec::new();
            core::mem::swap(&mut self.gums, &mut gums);
            gums.remove(index);
            self.gums = gums;
        }
    }

    /// Verifies whether the player is in collision with one of the ghosts,
    /// as they stand at the moment of the call. A collision takes a life,
    /// if one is left; see `after_collision`. The lives never fall below
    /// none.
    pub fn process_collisions(&mut self)
        ensures
            exists|list: Seq<Position>|
                old(self).ghosts().admits(list) && final(self).lives() == lives_after(
                    old(self).lives() as int,
                    #[trigger] list.contains(old(self).player()),
                ),
            final(self).player() == old(self).player(),
            final(self).gums() == old(self).gums(),
            final(self).grid() == old(self).grid(),
            final(self).ghosts() == old(self).ghosts(),
            final(self).max_gums() == old(self).max_gums(),
    {
        proof {
            use_type_invariant(&*self);
        }
        let hit = self.ghosts.check_collision(&self.pacman);
        let ghost list = choose|list: Seq<Position>|
            self.ghosts.admits(list) && hit == #[trigger] list.contains(self.pacman);
        self.lives = after_collision(self.lives, hit);
        proof {
            assert(self.lives == lives_after(
                old(self).lives() as int,
                list.contains(old(self).player()),
            ));
        }
    }

    /// How the game stands after the player has entered `input`.
    pub fn outcome(&self, input: &Entry) -> (outcome: Outcome)
        ensures
            outcome == outcome_of(*input, self.gums().len(), self.lives()),
    {
        if self.gums.len() == 0 {
            Outcome::Won
        } else if self.lives == 0 {
            Outcome::Lost
        } else if *input == Entry::Esc {
            Outcome::Aborted
        } else {
            Outcome::Running
        }
    }

    /// One round of the player: the player moves as `input` says, a
    /// collision with a ghost takes a life, and the game is over or goes on.
    pub fn tick(&mut self, input: &Entry) -> (outcome: Outcome)
        ensures
            final(self).player() == resolve(old(self).grid(), old(self).player(), *input),
            final(self).gums() == eaten(old(self).gums(), final(self).player()),
            exists|list: Seq<Position>|
                old(self).ghosts().admits(list) && final(self).lives() == lives_after(
                    old(self).lives() as int,
                    #[trigger] list.contains(final(self).player()),
                ),
            final(self).grid() == old(self).grid(),
            final(self).ghosts() == old(self).ghosts(),
            final(self).max_gums() == old(self).max_gums(),
            outcome == outcome_of(*input, final(self).gums().len(), final(self).lives()),
    {
        self.move_player(input);
        self.process_collisions();
        self.outcome(input)
    }

    /// What is drawn over the maze, in the order of drawing: the gums
    /// that are left, the ghosts as they stand at the moment of the call,
    /// and last the player; see `compose_screen`.
    pub fn print_screen(&self) -> (shown: Vec<Glyph>)
        ensures
            exists|list: Seq<Position>|
                self.ghosts().admits(list) && shown@ == #[trigger] screen(
                    self.gums(),
                    list,
                    self.player(),
                ),
    {
        let ghosts = self.ghosts.display_ghosts();
        let ghost list = choose|list: Seq<Position>|
            self.ghosts.admits(list) && ghosts@ == #[trigger] ghost_glyphs(list);
        let shown = compose_screen(&self.gums, ghosts, &self.pacman);
        proof {
            assert(shown@ =~= screen(self.gums(), list, self.player()));
        }
        shown
    }
}

} // verus!
