use pacrust::console::{Entry, Glyph};
use pacrust::game::position::Position;
use pacrust::game::{
    after_collision, compose_screen, find_gum, glyphs_of_gums, Game, Gum, Layout, LoadError,
    Outcome, Tile,
};

fn player(game: &Game) -> Position {
    let shown = game.print_screen();
    let last = shown[shown.len() - 1];
    assert_eq!(last.character, 'P');
    last.pos
}

fn ghosts(game: &Game) -> Vec<Position> {
    game.print_screen()
        .iter()
        .filter(|g| g.character == 'G')
        .map(|g| g.pos)
        .collect()
}

fn identity_holds(game: &Game) {
    assert_eq!(game.get_score() + game.get_nb_gums(), game.get_max_gums());
}

#[test]
fn player_eats_the_gum_next_to_it() {
    let mut game = Game::load_maze("###\n#P.\n###").unwrap();

    assert_eq!(player(&game), Position::new(1, 1));
    assert_eq!(game.get_nb_gums(), 1);
    assert_eq!(game.get_max_gums(), 1);
    assert_eq!(game.get_score(), 0);
    assert_eq!(game.get_lives(), 1);

    game.move_player(&Entry::Right);

    assert_eq!(player(&game), Position::new(1, 2));
    assert_eq!(game.get_nb_gums(), 0);
    assert_eq!(game.get_score(), 1);
    assert_eq!(game.get_max_gums(), 1);
}

#[test]
fn maze_without_player_is_refused() {
    assert_eq!(
        Game::load_maze("###\n#..\n###").err(),
        Some(LoadError::NoPlayerFound)
    );
    assert_eq!(Game::load_maze("").err(), Some(LoadError::NoPlayerFound));
}

#[test]
fn maze_with_uneven_rows_is_refused() {
    assert_eq!(
        Game::load_maze("###\n#P.#\n###").err(),
        Some(LoadError::UnevenRows)
    );
}

#[test]
fn game_on_a_layout() {
    let layout = Layout {
        map: vec![vec![Tile::Space, Tile::Space, Tile::Wall]],
        pacman: Position::new(0, 1),
        ghosts: vec![Position::new(0, 0)],
        gums: vec![Gum { pos: Position::new(0, 0), mega: true }],
    };
    let game = Game::from_layout(layout);

    assert_eq!(game.get_lives(), 1);
    assert_eq!(game.get_nb_gums(), 1);
    assert_eq!(game.get_max_gums(), 1);
    assert_eq!(game.get_score(), 0);
    assert_eq!(
        game.print_screen(),
        vec![
            Glyph { pos: Position::new(0, 0), character: 'X', wide: false },
            Glyph { pos: Position::new(0, 0), character: 'G', wide: true },
            Glyph { pos: Position::new(0, 1), character: 'P', wide: false },
        ]
    );
}

#[test]
fn gums_only_go_and_one_at_a_time() {
    let mut game = Game::load_maze("#####\n#.P.#\n#X#.#\n#...#\n#####").unwrap();
    let moves = [
        (Entry::Left, Position::new(1, 1), 6),
        (Entry::Left, Position::new(1, 1), 6),
        (Entry::Down, Position::new(2, 1), 5),
        (Entry::Right, Position::new(2, 1), 5),
        (Entry::Neutral, Position::new(2, 1), 5),
        (Entry::Down, Position::new(3, 1), 4),
        (Entry::Right, Position::new(3, 2), 3),
        (Entry::Left, Position::new(3, 1), 3),
        (Entry::Right, Position::new(3, 2), 3),
        (Entry::Right, Position::new(3, 3), 2),
        (Entry::Up, Position::new(2, 3), 1),
        (Entry::Up, Position::new(1, 3), 0),
        (Entry::Up, Position::new(1, 3), 0),
        (Entry::Left, Position::new(1, 2), 0),
    ];

    assert_eq!(game.get_nb_gums(), 7);
    assert_eq!(game.get_max_gums(), 7);
    identity_holds(&game);
    let mut left = 7;
    for (dir, at, gums) in moves.iter() {
        game.move_player(dir);
        assert_eq!(player(&game), *at);
        assert_eq!(game.get_nb_gums(), *gums);
        assert!(game.get_nb_gums() == left || game.get_nb_gums() + 1 == left);
        left = game.get_nb_gums();
        assert_eq!(game.get_max_gums(), 7);
        identity_holds(&game);
    }
    assert_eq!(game.get_score(), 7);
}

#[test]
fn player_wraps_around_the_edge() {
    let mut game = Game::load_maze(" . \n.P.\n . ").unwrap();

    game.move_player(&Entry::Up);
    assert_eq!(player(&game), Position::new(0, 1));
    game.move_player(&Entry::Up);
    assert_eq!(player(&game), Position::new(2, 1));
    game.move_player(&Entry::Left);
    assert_eq!(player(&game), Position::new(2, 0));
    game.move_player(&Entry::Left);
    assert_eq!(player(&game), Position::new(2, 2));
    game.move_player(&Entry::Down);
    assert_eq!(player(&game), Position::new(0, 2));
    game.move_player(&Entry::Right);
    assert_eq!(player(&game), Position::new(0, 0));
    assert_eq!(game.get_nb_gums(), 2);
    assert_eq!(game.get_score(), 2);
}

#[test]
fn collision_takes_the_life() {
    let mut game = Game::load_maze("#PG#").unwrap();

    game.process_collisions();
    assert_eq!(game.get_lives(), 1);

    game.move_player(&Entry::Right);
    assert_eq!(player(&game), Position::new(0, 2));
    game.process_collisions();
    assert_eq!(game.get_lives(), 0);
    identity_holds(&game);
}

#[test]
fn lives_stay_at_none() {
    let mut game = Game::load_maze("#PG#").unwrap();

    game.move_player(&Entry::Right);
    for _ in 0..300 {
        game.process_collisions();
        assert_eq!(game.get_lives(), 0);
    }
}

#[test]
fn lives_after_a_collision() {
    assert_eq!(after_collision(3, true), 2);
    assert_eq!(after_collision(1, true), 0);
    assert_eq!(after_collision(0, true), 0);
    assert_eq!(after_collision(255, true), 254);
    assert_eq!(after_collision(3, false), 3);
    assert_eq!(after_collision(0, false), 0);
}

#[test]
fn no_collision_without_ghosts() {
    let mut game = Game::load_maze("#P.#").unwrap();

    game.process_collisions();
    game.move_player(&Entry::Right);
    game.process_collisions();

    assert_eq!(game.get_lives(), 1);
    assert!(ghosts(&game).is_empty());
}

#[test]
fn ghosts_of_the_game_move_through_their_clone() {
    let mut game = Game::load_maze("#####\n#G G#\n# P #\n#G  #\n#####").unwrap();
    let handle = game.get_clone_ghosts();
    let maze = game.get_clone_maze();
    let start = ghosts(&game);

    assert_eq!(
        start,
        vec![Position::new(1, 1), Position::new(1, 3), Position::new(3, 1)]
    );
    for _ in 0..100 {
        let before = ghosts(&game);
        let _ = handle.move_ghosts(&maze);
        game.process_collisions();
        let after = ghosts(&game);
        assert_eq!(after.len(), 3);
        for (a, b) in before.iter().zip(after.iter()) {
            assert_ne!(a, b);
            assert_eq!(maze.get_tile(b.row, b.col), Some(&Tile::Space));
            assert!(handle.check_collision(b));
        }
        assert!(game.get_lives() <= 1);
        identity_holds(&game);
    }
}

#[test]
fn cloned_maze_is_the_maze_of_the_game() {
    let game = Game::load_maze("#P\n .").unwrap();
    let maze = game.get_clone_maze();

    assert_eq!(maze.get_tile(0, 0), Some(&Tile::Wall));
    assert_eq!(maze.get_tile(0, 1), Some(&Tile::Space));
    assert_eq!(maze.get_tile(1, 0), Some(&Tile::Space));
    assert_eq!(maze.get_tile(1, 1), Some(&Tile::Space));
    assert_eq!(maze.get_tile(2, 0), None);
}

#[test]
fn screen_lists_gums_ghosts_and_player() {
    let mut game = Game::load_maze("X.#\nP#G").unwrap();

    assert_eq!(
        game.print_screen(),
        vec![
            Glyph { pos: Position::new(0, 0), character: 'X', wide: false },
            Glyph { pos: Position::new(0, 1), character: '.', wide: false },
            Glyph { pos: Position::new(1, 2), character: 'G', wide: true },
            Glyph { pos: Position::new(1, 0), character: 'P', wide: false },
        ]
    );

    game.move_player(&Entry::Up);

    assert_eq!(
        game.print_screen(),
        vec![
            Glyph { pos: Position::new(0, 1), character: '.', wide: false },
            Glyph { pos: Position::new(1, 2), character: 'G', wide: true },
            Glyph { pos: Position::new(0, 0), character: 'P', wide: false },
        ]
    );
}

#[test]
fn first_gum_at_a_cell() {
    let gums = vec![
        Gum { pos: Position::new(0, 1), mega: false },
        Gum { pos: Position::new(2, 2), mega: true },
        Gum { pos: Position::new(0, 1), mega: true },
    ];

    assert_eq!(find_gum(&gums, &Position::new(0, 1)), 0);
    assert_eq!(find_gum(&gums, &Position::new(2, 2)), 1);
    assert_eq!(find_gum(&gums, &Position::new(1, 0)), 3);
    assert_eq!(find_gum(&Vec::new(), &Position::new(0, 0)), 0);
}

#[test]
fn only_the_first_gum_at_a_cell_is_eaten() {
    let layout = Layout {
        map: vec![vec![Tile::Space, Tile::Space]],
        pacman: Position::new(0, 0),
        ghosts: Vec::new(),
        gums: vec![
            Gum { pos: Position::new(0, 1), mega: false },
            Gum { pos: Position::new(0, 0), mega: false },
            Gum { pos: Position::new(0, 1), mega: true },
        ],
    };
    let mut game = Game::from_layout(layout);

    game.move_player(&Entry::Right);

    assert_eq!(game.get_nb_gums(), 2);
    assert_eq!(
        game.print_screen(),
        vec![
            Glyph { pos: Position::new(0, 0), character: '.', wide: false },
            Glyph { pos: Position::new(0, 1), character: 'X', wide: false },
            Glyph { pos: Position::new(0, 1), character: 'P', wide: false },
        ]
    );
}

#[test]
fn glyphs_of_the_gums() {
    let gums = vec![
        Gum { pos: Position::new(0, 1), mega: false },
        Gum { pos: Position::new(2, 2), mega: true },
    ];

    assert_eq!(
        glyphs_of_gums(&gums),
        vec![
            Glyph { pos: Position::new(0, 1), character: '.', wide: false },
            Glyph { pos: Position::new(2, 2), character: 'X', wide: false },
        ]
    );
}

#[test]
fn screen_is_put_together_in_painting_order() {
    let gums = vec![Gum { pos: Position::new(0, 1), mega: true }];
    let ghosts = vec![
        Glyph { pos: Position::new(5, 5), character: 'G', wide: true },
        Glyph { pos: Position::new(4, 4), character: 'G', wide: true },
    ];

    assert_eq!(
        compose_screen(&gums, ghosts, &Position::new(9, 9)),
        vec![
            Glyph { pos: Position::new(0, 1), character: 'X', wide: false },
            Glyph { pos: Position::new(5, 5), character: 'G', wide: true },
            Glyph { pos: Position::new(4, 4), character: 'G', wide: true },
            Glyph { pos: Position::new(9, 9), character: 'P', wide: false },
        ]
    );
    assert_eq!(
        compose_screen(&Vec::new(), Vec::new(), &Position::new(1, 2)),
        vec![Glyph { pos: Position::new(1, 2), character: 'P', wide: false }]
    );
}

#[test]
fn game_goes_on_while_gums_and_lives_are_left() {
    let mut game = Game::load_maze("#P ..G#").unwrap();

    assert_eq!(game.outcome(&Entry::Neutral), Outcome::Running);
    assert_eq!(game.outcome(&Entry::Left), Outcome::Running);
    assert_eq!(game.tick(&Entry::Right), Outcome::Running);
    assert_eq!(player(&game), Position::new(0, 2));
    assert_eq!(game.tick(&Entry::Neutral), Outcome::Running);
    assert_eq!(game.tick(&Entry::Right), Outcome::Running);
    assert_eq!(game.get_nb_gums(), 1);
    assert_eq!(game.get_lives(), 1);
}

#[test]
fn escape_ends_the_game() {
    let mut game = Game::load_maze("#P ..G#").unwrap();

    assert_eq!(game.outcome(&Entry::Esc), Outcome::Aborted);
    assert_eq!(game.tick(&Entry::Esc), Outcome::Aborted);
    assert_eq!(player(&game), Position::new(0, 1));
    assert_eq!(game.get_nb_gums(), 2);
    assert_eq!(game.get_lives(), 1);
}

#[test]
fn last_gum_wins_the_game() {
    let mut game = Game::load_maze("#P..G#").unwrap();

    assert_eq!(game.tick(&Entry::Right), Outcome::Running);
    assert_eq!(game.tick(&Entry::Right), Outcome::Won);
    assert_eq!(game.get_score(), 2);
    assert_eq!(game.outcome(&Entry::Esc), Outcome::Won);
    assert_eq!(game.outcome(&Entry::Neutral), Outcome::Won);
}

#[test]
fn last_life_loses_the_game() {
    let mut game = Game::load_maze("#PG.#").unwrap();

    assert_eq!(game.tick(&Entry::Right), Outcome::Lost);
    assert_eq!(game.get_lives(), 0);
    assert_eq!(game.get_nb_gums(), 1);
    assert_eq!(game.outcome(&Entry::Esc), Outcome::Lost);
}

#[test]
fn winning_counts_before_losing() {
    let mut game = Game::load_maze("#P.#\n##G#").unwrap();
    let ghosts = game.get_clone_ghosts();
    let maze = game.get_clone_maze();

    // the only free cell for the ghost is the one above it, where the gum is
    let _ = ghosts.move_ghosts(&maze);
    assert!(ghosts.check_collision(&Position::new(0, 2)));

    assert_eq!(game.tick(&Entry::Right), Outcome::Won);
    assert_eq!(game.get_lives(), 0);
    assert_eq!(game.get_nb_gums(), 0);
}
