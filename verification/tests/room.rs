use punchcards::geometry::CardinalDirection;
use punchcards::geometry::Position;
use punchcards::level::read_level;
use punchcards::level::Legend;
use punchcards::tile::TileType;
use punchcards::ExternalEvent;
use punchcards::GameState;
use punchcards::Input;

fn player_at(game: &GameState) -> Position {
    let mut iter = game.render_iter();
    let mut found = Vec::new();
    while let Some((coord, tile)) = iter.next() {
        if tile.typ == TileType::Player {
            found.push(coord);
        }
    }
    assert_eq!(found.len(), 1);
    found[0]
}

fn count(game: &GameState, typ: TileType) -> usize {
    let mut iter = game.render_iter();
    let mut n = 0;
    while let Some((_, tile)) = iter.next() {
        if tile.typ == typ {
            n += 1;
        }
    }
    n
}

#[test]
fn walk_starts_in_the_room() {
    let game = GameState::from_rng_seed(0);
    assert_eq!(player_at(&game), Position::new(3, 6));
    assert_eq!(count(&game, TileType::Wall), 28 + 4);
    assert_eq!(count(&game, TileType::Floor), 64 - 32);
    assert_eq!(game.policy.wit.next, 65);
    let hash = &game.policy.low_level.spatial_hash;
    assert_eq!(hash.get(Position::new(3, 4)).unwrap().solid_count, 1);
    assert_eq!(hash.get(Position::new(2, 4)).unwrap().solid_count, 0);
}

#[test]
fn walk_follows_inputs_and_walls() {
    let mut game = GameState::from_rng_seed(0);
    let event = game.tick(
        vec![
            Input::Move(CardinalDirection::North),
            Input::Move(CardinalDirection::North),
            Input::Move(CardinalDirection::East),
            Input::Move(CardinalDirection::South),
            Input::Move(CardinalDirection::South),
        ],
        16,
    );
    assert!(event.is_none());
    assert_eq!(player_at(&game), Position::new(4, 7 - 1));
    game.tick(vec![Input::Move(CardinalDirection::West); 9], 16);
    assert_eq!(player_at(&game), Position::new(1, 6));
    assert_eq!(ExternalEvent::GameOver, ExternalEvent::GameOver);
}

#[test]
fn walk_is_saved_and_brought_back() {
    let mut game = GameState::from_rng_seed(0);
    game.tick(vec![Input::Move(CardinalDirection::East)], 16);
    let save = game.save(0);
    game.tick(vec![Input::Move(CardinalDirection::East)], 16);
    let mut back = GameState::from_save_state(save);
    assert_eq!(player_at(&back), Position::new(4, 6));
    assert_eq!(player_at(&game), Position::new(5, 6));
    assert_eq!(back.policy.wit, game.policy.wit);
    back.tick(vec![Input::Move(CardinalDirection::North)], 16);
    assert_eq!(player_at(&back), Position::new(4, 5));
    assert_eq!(
        back.policy.low_level.spatial_hash.get(Position::new(0, 0)).unwrap().solid_count,
        1
    );
}

#[test]
fn plain_legend_knows_no_cards_or_dummies() {
    assert!(read_level(Legend::Plain, &vec!["#@."]).is_some());
    assert!(read_level(Legend::Plain, &vec!["#@m"]).is_none());
    assert!(read_level(Legend::Plain, &vec!["#@0"]).is_none());
    assert!(read_level(Legend::Full, &vec!["#@m0"]).is_some());
    let level = read_level(Legend::Plain, &vec!["#@."]).unwrap();
    assert_eq!(level.next_id, 4);
    assert_eq!(level.player_id, 1);
    assert_eq!(level.changes.len(), 3 + 5 + 2);
    let level = read_level(Legend::Full, &vec!["#@."]).unwrap();
    assert_eq!(level.next_id, 5);
    assert_eq!(level.player_id, 2);
}
