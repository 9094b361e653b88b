use pacrust::game::layout::parse_layout;
use pacrust::game::position::Position;
use pacrust::game::{Gum, Layout, LoadError, Tile};

const W: Tile = Tile::Wall;
const S: Tile = Tile::Space;

#[test]
fn small_maze_is_read() {
    let layout = parse_layout(b"###\n#P.\n###").unwrap();

    assert_eq!(layout.map, vec![vec![W, W, W], vec![W, S, S], vec![W, W, W]]);
    assert_eq!(layout.pacman, Position::new(1, 1));
    assert_eq!(layout.ghosts, Vec::<Position>::new());
    assert_eq!(
        layout.gums,
        vec![Gum { pos: Position::new(1, 2), mega: false }]
    );
}

#[test]
fn elements_come_in_reading_order() {
    let layout = parse_layout(b"G.X#\nP G \n.#XG").unwrap();

    assert_eq!(
        layout.map,
        vec![vec![S, S, S, W], vec![S, S, S, S], vec![S, W, S, S]]
    );
    assert_eq!(layout.pacman, Position::new(1, 0));
    assert_eq!(
        layout.ghosts,
        vec![Position::new(0, 0), Position::new(1, 2), Position::new(2, 3)]
    );
    assert_eq!(
        layout.gums,
        vec![
            Gum { pos: Position::new(0, 1), mega: false },
            Gum { pos: Position::new(0, 2), mega: true },
            Gum { pos: Position::new(2, 0), mega: false },
            Gum { pos: Position::new(2, 2), mega: true },
        ]
    );
}

#[test]
fn unknown_bytes_are_open_floor() {
    let layout = parse_layout(b"P-a\t\xffp").unwrap();

    assert_eq!(layout.map, vec![vec![S, S, S, S, S, S]]);
    assert!(layout.gums.is_empty());
    assert!(layout.ghosts.is_empty());
}

#[test]
fn final_line_feed_adds_no_row() {
    let with = parse_layout(b"#P\n##\n").unwrap();
    let without = parse_layout(b"#P\n##").unwrap();

    assert_eq!(with.map, vec![vec![W, S], vec![W, W]]);
    assert_eq!(with.map, without.map);
    assert_eq!(with.pacman, without.pacman);
}

#[test]
fn carriage_return_before_a_line_feed_is_part_of_the_line_ending() {
    let layout = parse_layout(b"#P\r\n#.\r\n").unwrap();

    assert_eq!(layout.map, vec![vec![W, S], vec![W, S]]);
    assert_eq!(
        layout.gums,
        vec![Gum { pos: Position::new(1, 1), mega: false }]
    );
}

#[test]
fn carriage_return_elsewhere_is_a_cell() {
    // only the last line has no line feed: its carriage return stays
    let layout = parse_layout(b"#P  \r\n#.\r#\n###\r").unwrap();

    assert_eq!(
        layout.map,
        vec![vec![W, S, S, S], vec![W, S, S, W], vec![W, W, W, S]]
    );
}

#[test]
fn empty_lines_are_rows() {
    assert_eq!(parse_layout(b"P\n\n").err(), Some(LoadError::UnevenRows));
    assert_eq!(parse_layout(b"\nP").err(), Some(LoadError::UnevenRows));
}

#[test]
fn last_start_of_the_player_counts() {
    let layout = parse_layout(b"P.P\n.P.").unwrap();

    assert_eq!(layout.pacman, Position::new(1, 1));
    assert_eq!(layout.map, vec![vec![S, S, S], vec![S, S, S]]);
    assert_eq!(layout.gums.len(), 3);
}

#[test]
fn no_player_is_refused() {
    assert_eq!(
        parse_layout(b"###\n#.G\n###").err(),
        Some(LoadError::NoPlayerFound)
    );
    assert_eq!(parse_layout(b"").err(), Some(LoadError::NoPlayerFound));
    assert_eq!(parse_layout(b"\n\n").err(), Some(LoadError::NoPlayerFound));
    assert_eq!(parse_layout(b"p").err(), Some(LoadError::NoPlayerFound));
}

#[test]
fn no_player_comes_before_uneven_rows() {
    assert_eq!(
        parse_layout(b"###\n#.\n###").err(),
        Some(LoadError::NoPlayerFound)
    );
}

#[test]
fn uneven_rows_are_refused() {
    assert_eq!(
        parse_layout(b"###\n#P\n###").err(),
        Some(LoadError::UnevenRows)
    );
    assert_eq!(
        parse_layout(b"##\n#P.\n###").err(),
        Some(LoadError::UnevenRows)
    );
    assert_eq!(
        parse_layout(b"#P#\n###\n####").err(),
        Some(LoadError::UnevenRows)
    );
}

#[test]
fn errors_in_words() {
    assert_eq!(LoadError::NoPlayerFound.message(), "No player found");
    assert_eq!(LoadError::UnevenRows.message(), "Rows of unequal length");
}

fn layout_with(pacman: Position, ghost: Position, gum: Position) -> Layout {
    Layout {
        map: vec![vec![W, S, S], vec![S, S, W]],
        pacman,
        ghosts: vec![Position::new(0, 1), ghost],
        gums: vec![Gum { pos: Position::new(1, 0), mega: false }, Gum { pos: gum, mega: true }],
    }
}

#[test]
fn layouts_that_can_be_played() {
    let floor = Position::new(1, 1);

    assert!(layout_with(floor, floor, floor).is_playable());
    assert!(layout_with(Position::new(0, 2), Position::new(1, 0), Position::new(0, 1)).is_playable());
    assert!(parse_layout(b"#P.\nG X").unwrap().is_playable());
}

#[test]
fn layouts_that_cannot_be_played() {
    let floor = Position::new(1, 1);
    let wall = Position::new(0, 0);
    let outside = Position::new(2, 1);

    assert!(!layout_with(wall, floor, floor).is_playable());
    assert!(!layout_with(floor, wall, floor).is_playable());
    assert!(!layout_with(floor, floor, Position::new(1, 2)).is_playable());
    assert!(!layout_with(outside, floor, floor).is_playable());
    assert!(!layout_with(floor, Position::new(1, 3), floor).is_playable());
    assert!(!layout_with(floor, floor, outside).is_playable());

    let mut uneven = layout_with(floor, floor, floor);
    uneven.map = vec![vec![W, S, S], vec![S, S]];
    assert!(!uneven.is_playable());
    let mut empty = layout_with(floor, floor, floor);
    empty.map = Vec::new();
    assert!(!empty.is_playable());
}

/// What a text describes, read line by line and byte by byte.
fn read_by_lines(text: &str) -> Result<Layout, LoadError> {
    let mut map: Vec<Vec<Tile>> = Vec::new();
    let mut pacman = None;
    let mut ghosts = Vec::new();
    let mut gums = Vec::new();
    for (row, line) in text.lines().enumerate() {
        let mut cells = Vec::new();
        for (col, byte) in line.bytes().enumerate() {
            let pos = Position::new(row, col);
            match byte {
                b'P' => pacman = Some(pos),
                b'G' => ghosts.push(pos),
                b'.' => gums.push(Gum { pos, mega: false }),
                b'X' => gums.push(Gum { pos, mega: true }),
                _ => (),
            }
            cells.push(if byte == b'#' { W } else { S });
        }
        map.push(cells);
    }
    match pacman {
        None => Err(LoadError::NoPlayerFound),
        Some(pacman) => {
            if map.iter().all(|cells| cells.len() == map[0].len()) {
                Ok(Layout { map, pacman, ghosts, gums })
            } else {
                Err(LoadError::UnevenRows)
            }
        }
    }
}

fn same(text: &str) {
    match (parse_layout(text.as_bytes()), read_by_lines(text)) {
        (Ok(got), Ok(want)) => {
            assert_eq!(got.map, want.map, "{:?}", text);
            assert_eq!(got.pacman, want.pacman, "{:?}", text);
            assert_eq!(got.ghosts, want.ghosts, "{:?}", text);
            assert_eq!(got.gums, want.gums, "{:?}", text);
            assert!(got.is_playable(), "{:?}", text);
        }
        (Err(got), Err(want)) => assert_eq!(got, want, "{:?}", text),
        (got, want) => panic!("{:?}: {:?}, not {:?}", text, got.err(), want.err()),
    }
}

#[test]
fn every_short_text_is_read_line_by_line() {
    let alphabet = ['#', 'P', '.', 'G', '\n', '\r'];
    let mut texts = vec![String::new()];
    for _ in 0..6 {
        let mut longer = Vec::new();
        for text in &texts {
            same(text);
            for c in alphabet.iter() {
                let mut next = text.clone();
                next.push(*c);
                longer.push(next);
            }
        }
        texts = longer;
    }
    for text in &texts {
        same(text);
    }
}

#[test]
fn longer_texts_are_read_line_by_line() {
    same("#####\n#P.X#\n#G G#\n#####\n");
    same("#####\r\n#P.X#\r\n#G G#\r\n#####\r\n");
    same("#####\r\n#P.X#\n#G G#\r\n#####");
    same("#####\n#P.X#\n\n#G G#\n#####\n");
    same("#####\n#P.X#\n#G G#\n#####\r");
    same("#####\n#P.X\r\n#G G\n####\r");
    same("\r\r\n#P\r\n");
    same("caf\u{e9} P\n\u{1f47b}");
    same(" P \n\t.X\n GG");
}
