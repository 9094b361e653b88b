use vstd::prelude::*;

use crate::console::{display_sprit, sprite_of};

verus! {

/// The static elements of the maze.
#[derive(PartialEq, Eq, Structural, Clone, Copy, Debug)]
pub enum Tile {
    Wall,
    Space,
}

impl Tile {
    /// The character that stands for the tile in a maze file and on the
    /// display: `#` for a wall, a blank for open floor.
    pub open spec fn glyph_of(self) -> char {
        match self {
            Tile::Wall => '#',
            Tile::Space => ' ',
        }
    }

    /// The character that stands for the tile.
    pub fn glyph(&self) -> (c: char)
        ensures
            c == self.glyph_of(),
    {
        match self {
            Tile::Wall => '#',
            Tile::Space => ' ',
        }
    }

    /// The sprite that shows the tile on the console.
    pub fn sprite(&self) -> (sprite: &'static str)
        ensures
            sprite@ == sprite_of(self.glyph_of()),
    {
        display_sprit(self.glyph())
    }
}

impl Default for Tile {
    /// A cell is a wall until the map says otherwise.
    fn default() -> (tile: Tile)
        ensures
            tile == Tile::Wall,
    {
        Tile::Wall
    }
}

} // verus!
