use rand::Rng;
use vstd::prelude::*;

use crate::game::position::Position;

verus! {

/// One entry of the player: a direction, the escape key, or nothing.
#[derive(PartialEq, Eq, Structural, Clone, Copy, Debug)]
pub enum Entry {
    /// The escape key: the player gives up.
    Esc,
    Up,
    Down,
    Left,
    Right,
    /// No key, or one that means nothing.
    Neutral,
}

/// One thing to draw: the character that names it, the cell of the maze it
/// belongs to, and how it is placed. A wide glyph is placed as the walls
/// are, which take two columns of the console; a small one every two
/// columns.
#[derive(PartialEq, Eq, Structural, Clone, Copy, Debug)]
pub struct Glyph {
    pub pos: Position,
    pub character: char,
    pub wide: bool,
}

/// The byte that the escape key sends, and that opens the sequence of an
/// arrow key.
pub const ESCAPE: u8 = 0x1b;

/// The second byte of the sequence of an arrow key.
pub const BRACKET: u8 = 0x5b;

/// What the bytes of one read of the keyboard mean. A lone escape byte is
/// the escape key. Three bytes or more that begin with escape and bracket are
/// an arrow key, named by the third byte, or the escape key if that byte is
/// an escape again. Everything else means nothing.
pub open spec fn decoded(input: Seq<u8>) -> Entry {
    if input.len() == 1 && input[0] == ESCAPE {
        Entry::Esc
    } else if input.len() >= 3 && input[0] == ESCAPE && input[1] == BRACKET {
        if input[2] == 0x41 {
            Entry::Up
        } else if input[2] == 0x42 {
            Entry::Down
        } else if input[2] == 0x43 {
            Entry::Right
        } else if input[2] == 0x44 {
            Entry::Left
        } else if input[2] == ESCAPE {
            Entry::Esc
        } else {
            Entry::Neutral
        }
    } else {
        Entry::Neutral
    }
}

/// Decodes the bytes of one read of the keyboard.
pub fn decode_input(input: &[u8]) -> (entry: Entry)
    ensures
        entry == decoded(input@),
{
    let cnt = input.len();
    if cnt == 1 && input[0] == ESCAPE {
        Entry::Esc
    } else if cnt >= 3 {
        if input[0] == ESCAPE && input[1] == BRACKET {
            match input[2] {
                0x41 => Entry::Up,
                0x42 => Entry::Down,
                0x43 => Entry::Right,
                0x44 => Entry::Left,
                0x1b => Entry::Esc,
                _ => Entry::Neutral,
            }
        } else {
            Entry::Neutral
        }
    } else {
        Entry::Neutral
    }
}

/// The sprite that shows a character on the console.
pub open spec fn sprite_of(character: char) -> Seq<char> {
    if character == '#' {
        "🧱"@
    } else if character == '.' {
        "▫️ "@
    } else if character == 'P' {
        "😃"@
    } else if character == 'G' {
        "👻"@
    } else if character == '-' {
        "  "@
    } else if character == 'X' {
        "💊"@
    } else if character == ' ' {
        "  "@
    } else {
        "ERROR"@
    }
}

/// The sprite that shows a character on the console.
pub fn display_sprit(character: char) -> (sprite: &'static str)
    ensures
        sprite@ == sprite_of(character),
{
    match character {
        '#' => "🧱",
        '.' => "▫️ ",
        'P' => "😃",
        'G' => "👻",
        '-' => "  ",
        'X' => "💊",
        ' ' => "  ",
        _ => "ERROR",
    }
}

/// The number of directions.
pub const DIRECTIONS: usize = 4;

/// Draws a number with `rand::Rng::gen_range`, on the generator that
/// `rand::thread_rng` keeps for the calling thread. The range handed over is
/// `low..high`; the call panics on an empty range, so `low` is less than
/// `high`. The number drawn lies in the range: nothing else is claimed of
/// it, and two calls may well differ. The claim is taken from the
/// documentation of `gen_range` and is not proved here.
#[verifier::external_body]
fn random_in(low: usize, high: usize) -> (n: usize)
    requires
        low < high,
    ensures
        low <= n < high,
{
    rand::thread_rng().gen_range(low..high)
}

impl Entry {
    /// Whether the entry is one of the four directions.
    pub open spec fn is_direction(self) -> bool {
        self == Entry::Up || self == Entry::Down || self == Entry::Left || self == Entry::Right
    }

    /// The direction with the given number: up, down, left, right.
    pub open spec fn nth_direction(index: int) -> Entry {
        if index == 0 {
            Entry::Up
        } else if index == 1 {
            Entry::Down
        } else if index == 2 {
            Entry::Left
        } else {
            Entry::Right
        }
    }

    /// The direction with the given number: up, down, left, right. There
    /// is no direction for a larger number.
    pub fn from_index(index: usize) -> (entry: Entry)
        requires
            index < DIRECTIONS,
        ensures
            entry == Entry::nth_direction(index as int),
            entry.is_direction(),
    {
        match index {
            0 => Entry::Up,
            1 => Entry::Down,
            2 => Entry::Left,
            3 => Entry::Right,
            _ => Entry::Neutral,
        }
    }

    /// Draws one of the four directions at random.
    pub fn generate_random() -> (entry: Entry)
        ensures
            entry.is_direction(),
    {
        Entry::from_index(random_in(0, DIRECTIONS))
    }
}

impl Default for Entry {
    /// No key was pressed.
    fn default() -> (entry: Entry)
        ensures
            entry == Entry::Neutral,
    {
        Entry::Neutral
    }
}

} // verus!
