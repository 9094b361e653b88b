use std::sync::Arc;
use vstd::prelude::*;
use vstd::rwlock::{RwLock, RwLockPredicate};

use crate::console::{Entry, Glyph};
use crate::game::maze::{is_open, lemma_move_stays_on_floor, resolve, well_formed, Maze};
use crate::game::position::Position;
use crate::game::tile::Tile;

verus! {

/// How often a ghost draws a direction before it gives up and stays where
/// it is for this round.
pub const MAX_ATTEMPTS: usize = 64;

/// Where an element stands after it has tried the drawn directions in turn
/// until one of them moved it: on the cell that the first such direction
/// leads to, or where it was if none did.
pub open spec fn first_move(grid: Seq<Seq<Tile>>, from: Position, draws: Seq<Entry>) -> Position
    decreases draws.len(),
{
    if draws.len() == 0 {
        from
    } else if resolve(grid, from, draws[0]) != from {
        resolve(grid, from, draws[0])
    } else {
        first_move(grid, from, draws.skip(1))
    }
}

/// Whether `to` is where a ghost at `from` may stand after one round: the
/// ghost drew at most `MAX_ATTEMPTS` directions and went where the first one
/// that was not blocked led it, and it stayed only if all of them were
/// blocked.
pub open spec fn ghost_round(grid: Seq<Seq<Tile>>, from: Position, to: Position) -> bool {
    exists|draws: Seq<Entry>|
        {
            &&& draws.len() <= MAX_ATTEMPTS
            &&& forall|k: int| 0 <= k < draws.len() ==> (#[trigger] draws[k]).is_direction()
            &&& #[trigger] first_move(grid, from, draws) == to
            &&& to == from ==> draws.len() == MAX_ATTEMPTS
        }
}

/// Whether `to` is what the list `from` may be after one round: it has
/// as many ghosts, and each of them stands where the ghost at the same place
/// of `from` may stand after its round. A ghost whose row or column is the
/// largest machine integer has not moved.
pub open spec fn round_of(grid: Seq<Seq<Tile>>, from: Seq<Position>, to: Seq<Position>) -> bool {
    &&& to.len() == from.len()
    &&& forall|i: int|
        0 <= i < from.len() ==> if (#[trigger] from[i]).row < usize::MAX && from[i].col
            < usize::MAX {
            ghost_round(grid, from[i], to[i])
        } else {
            to[i] == from[i]
        }
}

/// Whether all the positions are open floor of the grid.
pub open spec fn all_open(grid: Seq<Seq<Tile>>, list: Seq<Position>) -> bool {
    forall|i: int| 0 <= i < list.len() ==> is_open(grid, #[trigger] list[i])
}

/// Draws that move nothing, followed by one more draw, lead where that draw
/// leads.
proof fn lemma_first_move_push(grid: Seq<Seq<Tile>>, from: Position, draws: Seq<Entry>, dir: Entry)
    requires
        first_move(grid, from, draws) == from,
    ensures
        first_move(grid, from, draws.push(dir)) == resolve(grid, from, dir),
    decreases draws.len(),
{
    let longer = draws.push(dir);
    if draws.len() == 0 {
        assert(first_move(grid, from, longer.skip(1)) == from);
    } else {
        assert(longer.skip(1) =~= draws.skip(1).push(dir));
        lemma_first_move_push(grid, from, draws.skip(1), dir);
    }
}

/// A ghost on open floor is on open floor after any draws.
pub proof fn lemma_first_move_on_floor(grid: Seq<Seq<Tile>>, from: Position, draws: Seq<Entry>)
    requires
        well_formed(grid),
        is_open(grid, from),
    ensures
        is_open(grid, first_move(grid, from, draws)),
    decreases draws.len(),
{
    if draws.len() > 0 {
        lemma_move_stays_on_floor(grid, from, draws[0]);
        lemma_first_move_on_floor(grid, from, draws.skip(1));
    }
}

/// A round changes neither the number of the ghosts nor the fact that they
/// all stand on open floor.
pub proof fn lemma_round_keeps_ghosts(grid: Seq<Seq<Tile>>, from: Seq<Position>, to: Seq<Position>)
    requires
        well_formed(grid),
        round_of(grid, from, to),
    ensures
        to.len() == from.len(),
        all_open(grid, from) ==> all_open(grid, to),
{
    if all_open(grid, from) {
        assert forall|i: int| 0 <= i < to.len() implies is_open(grid, #[trigger] to[i]) by {
            if from[i].row < usize::MAX && from[i].col < usize::MAX {
                let draws = choose|draws: Seq<Entry>| #[trigger]
                    first_move(grid, from[i], draws) == to[i];
                lemma_first_move_on_floor(grid, from[i], draws);
            }
        }
    }
}

/// However many rounds follow one another, the ghosts stay as many as they
/// were, and if they all stood on open floor at first they all do at every
/// later moment. `lists` holds the list of the ghosts before the first round
/// and after each round.
pub proof fn lemma_rounds_keep_ghosts(grid: Seq<Seq<Tile>>, lists: Seq<Seq<Position>>)
    requires
        well_formed(grid),
        lists.len() > 0,
        forall|n: int| 0 <= n < lists.len() - 1 ==> round_of(grid, #[trigger] lists[n], lists[n + 1]),
    ensures
        forall|n: int| 0 <= n < lists.len() ==> (#[trigger] lists[n]).len() == lists[0].len(),
        all_open(grid, lists[0]) ==> forall|n: int|
            0 <= n < lists.len() ==> all_open(grid, #[trigger] lists[n]),
    decreases lists.len(),
{
    if lists.len() > 1 {
        let front = lists.drop_last();
        let last = lists.len() - 1;
        assert forall|n: int| 0 <= n < front.len() - 1 implies round_of(
            grid,
            #[trigger] front[n],
            front[n + 1],
        ) by {
            assert(round_of(grid, lists[n], lists[n + 1]));
        }
        lemma_rounds_keep_ghosts(grid, front);
        assert(round_of(grid, lists[last - 1], lists[last - 1 + 1]));
        lemma_round_keeps_ghosts(grid, lists[last - 1], lists[last]);
        assert(front[last - 1] == lists[last - 1]);
        assert forall|n: int| 0 <= n < lists.len() implies (#[trigger] lists[n]).len()
            == lists[0].len() by {
            if n < last {
                assert(front[n] == lists[n]);
            }
        }
        if all_open(grid, lists[0]) {
            assert forall|n: int| 0 <= n < lists.len() implies all_open(
                grid,
                #[trigger] lists[n],
            ) by {
                if n < last {
                    assert(front[n] == lists[n]);
                }
            }
        }
    }
}

/// Lets an element try the drawn directions in turn until one of them moves
/// it.
pub fn try_moves(maze: &Maze, from: &Position, draws: &[Entry]) -> (to: Position)
    requires
        draws@.contains(Entry::Down) ==> from.row < usize::MAX,
        draws@.contains(Entry::Right) ==> from.col < usize::MAX,
    ensures
        to == first_move(maze@, *from, draws@),
{
    let mut k: usize = 0;
    proof {
        assert(draws@.skip(0) =~= draws@);
    }
    while k < draws.len()
        invariant
            k <= draws.len(),
            draws@.contains(Entry::Down) ==> from.row < usize::MAX,
            draws@.contains(Entry::Right) ==> from.col < usize::MAX,
            first_move(maze@, *from, draws@) == first_move(maze@, *from, draws@.skip(k as int)),
        decreases draws.len() - k,
    {
        let to = maze.make_move(from, &draws[k]);
        proof {
            assert(draws@.skip(k as int).skip(1) =~= draws@.skip(k as int + 1));
        }
        if to != *from {
            return to;
        }
        k = k + 1;
    }
    *from
}

/// Moves one ghost for one round: the ghost draws directions at random
/// until one of them is not blocked, and goes there. After `MAX_ATTEMPTS`
/// blocked draws it stays where it is, and so does a ghost whose row or
/// column is the largest machine integer.
pub fn move_ghost(maze: &Maze, from: &Position) -> (to: Position)
    ensures
        from.row < usize::MAX && from.col < usize::MAX ==> ghost_round(maze@, *from, to),
        !(from.row < usize::MAX && from.col < usize::MAX) ==> to == *from,
{
    if from.row == usize::MAX || from.col == usize::MAX {
        return *from;
    }
    let ghost mut draws: Seq<Entry> = Seq::empty();
    let mut attempts: usize = 0;
    while attempts < MAX_ATTEMPTS
        invariant
            attempts <= MAX_ATTEMPTS,
            from.row < usize::MAX,
            from.col < usize::MAX,
            draws.len() == attempts,
            forall|k: int| 0 <= k < draws.len() ==> (#[trigger] draws[k]).is_direction(),
            first_move(maze@, *from, draws) == *from,
        decreases MAX_ATTEMPTS - attempts,
    {
        let dir = Entry::generate_random();
        let to = maze.make_move(from, &dir);
        proof {
            lemma_first_move_push(maze@, *from, draws, dir);
            draws = draws.push(dir);
        }
        if to != *from {
            return to;
        }
        attempts = attempts + 1;
    }
    *from
}

/// Moves every ghost of the list for one round.
pub fn wander(list: &mut Vec<Position>, maze: &Maze)
    ensures
        round_of(maze@, old(list)@, final(list)@),
{
    let mut i: usize = 0;
    while i < list.len()
        invariant
            i <= list.len(),
            list@.len() == old(list)@.len(),
            forall|k: int| i <= k < list.len() ==> list@[k] == old(list)@[k],
            forall|k: int|
                0 <= k < i ==> {
                    let from = #[trigger] old(list)@[k];
                    let to = list@[k];
                    if from.row < usize::MAX && from.col < usize::MAX {
                        ghost_round(maze@, from, to)
                    } else {
                        to == from
                    }
                },
        decreases list.len() - i,
    {
        let to = move_ghost(maze, &list[i]);
        list[i] = to;
        i = i + 1;
    }
}

/// Whether one of the positions of the list is `position`.
pub fn stands_on(list: &Vec<Position>, position: &Position) -> (hit: bool)
    ensures
        hit == list@.contains(*position),
{
    let mut i: usize = 0;
    while i < list.len()
        invariant
            i <= list.len(),
            forall|k: int| 0 <= k < i ==> list@[k] != *position,
        decreases list.len() - i,
    {
        if list[i] == *position {
            return true;
        }
        i = i + 1;
    }
    false
}

/// The glyphs that show the ghosts of the list, in the order of the list.
pub open spec fn ghost_glyphs(list: Seq<Position>) -> Seq<Glyph> {
    Seq::new(list.len(), |i: int| Glyph { pos: list[i], character: 'G', wide: true })
}

/// The glyphs that show the ghosts of the list.
pub fn glyphs_of(list: &Vec<Position>) -> (shown: Vec<Glyph>)
    ensures
        shown@ == ghost_glyphs(list@),
{
    let mut shown: Vec<Glyph> = Vec::new();
    let mut i: usize = 0;
    while i < list.len()
        invariant
            i <= list.len(),
            shown@ == ghost_glyphs(list@.take(i as int)),
        decreases list.len() - i,
    {
        shown.push(Glyph { pos: list[i], character: 'G', wide: true });
        i = i + 1;
    }
    shown
}

/// The list of the ghosts at the two ends of a round.
pub struct Round {
    pub before: Seq<Position>,
    pub after: Seq<Position>,
}

/// What holds of the list of the ghosts whenever nobody holds its lock: the
/// number of the ghosts, and, for ghosts that live in a maze, the grid on
/// whose open floor they all stand.
pub struct GhostRule {
    pub count: nat,
    pub home: Option<Seq<Seq<Tile>>>,
}

impl RwLockPredicate<Vec<Position>> for GhostRule {
    open spec fn inv(self, list: Vec<Position>) -> bool {
        &&& list@.len() == self.count
        &&& self.home matches Some(grid) ==> well_formed(grid) && all_open(grid, list@)
    }
}

/// The ghosts of a game: a list of positions behind a lock. Every clone
/// is a handle to the same list, so that one thread can move the ghosts
/// while another looks at them.
pub struct Ghosts {
    list: Arc<RwLock<Vec<Position>, GhostRule>>,
}

impl Ghosts {
    /// What the lock keeps true of the list.
    pub closed spec fn rule(&self) -> GhostRule {
        self.list.pred()
    }

    /// The number of the ghosts. It never changes.
    pub open spec fn count(&self) -> nat {
        self.rule().count
    }

    /// The grid that the ghosts live in, if they were placed in one. Such
    /// ghosts stand on open floor of that grid at all times.
    pub open spec fn home(&self) -> Option<Seq<Seq<Tile>>> {
        self.rule().home
    }

    /// Whether `list` may be the list of the ghosts at some moment.
    pub open spec fn admits(&self, list: Seq<Position>) -> bool {
        &&& list.len() == self.count()
        &&& self.home() matches Some(grid) ==> all_open(grid, list)
    }

    /// Puts the ghosts behind a lock. Nothing is known of where they stand.
    pub fn new(ghosts: Vec<Position>) -> (handle: Ghosts)
        ensures
            handle.count() == ghosts@.len(),
            handle.home() is None,
    {
        let ghost rule = GhostRule { count: ghosts@.len(), home: None };
        Ghosts { list: Arc::new(RwLock::new(ghosts, Ghost(rule))) }
    }

    /// Puts ghosts that stand on open floor of `grid` behind a lock that
    /// keeps them there.
    pub(crate) fn placed(ghosts: Vec<Position>, Ghost(grid): Ghost<Seq<Seq<Tile>>>) -> (handle:
        Ghosts)
        requires
            well_formed(grid),
            all_open(grid, ghosts@),
        ensures
            handle.count() == ghosts@.len(),
            handle.home() == Some(grid),
    {
        let ghost rule = GhostRule { count: ghosts@.len(), home: Some(grid) };
        Ghosts { list: Arc::new(RwLock::new(ghosts, Ghost(rule))) }
    }

    /// Places the ghosts in a maze, if they all stand on open floor of it.
    /// From then on they can only be moved in that maze.
    pub fn in_maze(ghosts: Vec<Position>, maze: &Maze) -> (handle: Option<Ghosts>)
        ensures
            handle is Some <==> all_open(maze@, ghosts@),
            handle matches Some(h) ==> h.count() == ghosts@.len() && h.home() == Some(maze@),
    {
        let mut i: usize = 0;
        while i < ghosts.len()
            invariant
                i <= ghosts.len(),
                forall|k: int| 0 <= k < i ==> is_open(maze@, #[trigger] ghosts@[k]),
            decreases ghosts.len() - i,
        {
            let open = match maze.get_tile(ghosts[i].row, ghosts[i].col) {
                Some(tile) => *tile == Tile::Space,
                None => false,
            };
            if !open {
                return None;
            }
            i = i + 1;
        }
        proof {
            use_type_invariant(maze);
        }
        Some(Ghosts::placed(ghosts, Ghost(maze@)))
    }

    /// Another handle to the same ghosts.
    pub fn get_clone(&self) -> (handle: Ghosts)
        ensures
            handle == *self,
    {
        Ghosts { list: Arc::clone(&self.list) }
    }

    /// Moves all the ghosts for one round in the maze; see `wander`. The
    /// list is locked for the time of the round. Ghosts that live in a maze
    /// are moved in that maze only. What comes back exists in proofs only:
    /// it says what the list was when the round began and what it was when
    /// the round ended.
    pub fn move_ghosts(&self, maze: &Maze) -> (round: Ghost<Round>)
        requires
            self.home() matches Some(grid) ==> grid == maze@,
        ensures
            self.admits(round@.before),
            self.admits(round@.after),
            round_of(maze@, round@.before, round@.after),
    {
        let (mut list, handle) = self.list.acquire_write();
        let ghost before = list@;
        wander(&mut list, maze);
        let ghost after = list@;
        proof {
            use_type_invariant(maze);
            lemma_round_keeps_ghosts(maze@, before, after);
        }
        handle.release_write(list);
        Ghost(Round { before, after })
    }

    /// Verifies whether the given position is in conflict with one of the
    /// ghosts, as they stand at the moment of the call; see `stands_on`.
    /// The list is locked while it is read.
    pub fn check_collision(&self, position: &Position) -> (hit: bool)
        ensures
            exists|list: Seq<Position>| self.admits(list) && hit == #[trigger] list.contains(*position),
    {
        let handle = self.list.acquire_read();
        let hit = stands_on(handle.borrow(), position);
        handle.release_read();
        hit
    }

    /// The glyphs that show the ghosts as they stand at the moment of the
    /// call, copied while the list is locked; see `glyphs_of`.
    pub fn display_ghosts(&self) -> (shown: Vec<Glyph>)
        ensures
            exists|list: Seq<Position>| self.admits(list) && shown@ == #[trigger] ghost_glyphs(list),
    {
        let handle = self.list.acquire_read();
        let shown = glyphs_of(handle.borrow());
        handle.release_read();
        shown
    }
}

} // verus!
