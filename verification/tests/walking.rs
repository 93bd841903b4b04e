use punchcards::entity_store::EntityChange;
use punchcards::geometry::CardinalDirection;
use punchcards::geometry::Position;
use punchcards::tile::TileInfo;
use punchcards::tile::TileType;
use punchcards::Policy;

fn drawn(policy: &Policy) -> Vec<(Position, TileInfo)> {
    let mut iter = policy.render_iter();
    let mut pairs = Vec::new();
    while let Some(pair) = iter.next() {
        pairs.push(pair);
    }
    pairs
}

fn players(policy: &Policy) -> Vec<Position> {
    drawn(policy)
        .into_iter()
        .filter(|(_, tile)| tile.typ == TileType::Player)
        .map(|(coord, _)| coord)
        .collect()
}

#[test]
fn new_policy_is_empty_eight_by_eight() {
    let policy = Policy::new();
    assert_eq!(policy.low_level.spatial_hash.width(), 8);
    assert_eq!(policy.low_level.spatial_hash.height(), 8);
    assert!(drawn(&policy).is_empty());
    assert_eq!(policy.wit.next, 0);
}

#[test]
fn make_wall_makes_a_solid_drawn_entity() {
    let mut policy = Policy::new();
    policy.make_wall(Position::new(2, 3));
    assert_eq!(
        drawn(&policy),
        vec![(Position::new(2, 3), TileInfo::new(TileType::Wall, 2))]
    );
    let cell = policy.low_level.spatial_hash.get(Position::new(2, 3)).unwrap();
    assert_eq!(cell.solid_count, 1);
    assert!(policy.low_level.entity_store.is_solid(0));
    assert_eq!(policy.wit.next, 1);
}

#[test]
fn make_floor_and_player_use_their_tiles() {
    let mut policy = Policy::new();
    policy.make_floor(Position::new(1, 1));
    policy.make_player(Position::new(1, 1));
    assert_eq!(
        drawn(&policy),
        vec![
            (Position::new(1, 1), TileInfo::new(TileType::Floor, 1)),
            (Position::new(1, 1), TileInfo::new(TileType::Player, 3)),
        ]
    );
    assert!(policy.low_level.entity_store.is_player(1));
    assert_eq!(
        policy.low_level.spatial_hash.get(Position::new(1, 1)).unwrap().solid_count,
        0
    );
}

#[test]
fn player_is_stopped_by_wall() {
    let mut policy = Policy::new();
    policy.make_wall(Position::new(0, 0));
    policy.make_floor(Position::new(1, 0));
    policy.make_player(Position::new(1, 0));
    policy.move_player(CardinalDirection::West);
    assert_eq!(players(&policy), vec![Position::new(1, 0)]);
    policy.move_player(CardinalDirection::East);
    assert_eq!(players(&policy), vec![Position::new(2, 0)]);
}

#[test]
fn player_is_stopped_by_the_edge_of_the_grid() {
    let mut policy = Policy::new();
    policy.make_player(Position::new(7, 0));
    policy.move_player(CardinalDirection::East);
    assert_eq!(players(&policy), vec![Position::new(7, 0)]);
    policy.move_player(CardinalDirection::North);
    assert_eq!(players(&policy), vec![Position::new(7, 0)]);
    policy.move_player(CardinalDirection::South);
    assert_eq!(players(&policy), vec![Position::new(7, 1)]);
}

#[test]
fn move_player_without_player_changes_nothing() {
    let mut policy = Policy::new();
    policy.make_wall(Position::new(0, 0));
    let before = drawn(&policy);
    policy.move_player(CardinalDirection::South);
    assert_eq!(drawn(&policy), before);
}

#[test]
fn move_collider_check_gives_the_cell_stepped_into() {
    let mut policy = Policy::new();
    policy.make_player(Position::new(3, 3));
    policy.make_wall(Position::new(3, 2));
    let low = &policy.low_level;
    assert_eq!(low.move_collider_check(0, CardinalDirection::North), None);
    assert_eq!(
        low.move_collider_check(0, CardinalDirection::East),
        Some(Position::new(4, 3))
    );
    assert_eq!(
        low.move_collider_check(0, CardinalDirection::South),
        Some(Position::new(3, 4))
    );
    assert_eq!(
        low.move_collider_check(0, CardinalDirection::West),
        Some(Position::new(2, 3))
    );
    assert_eq!(low.move_collider_check(7, CardinalDirection::West), None);
}

#[test]
fn moving_a_wall_moves_its_solid_count() {
    let mut policy = Policy::new();
    policy.make_wall(Position::new(1, 1));
    policy.low_level.move_collider(0, CardinalDirection::East);
    let hash = &policy.low_level.spatial_hash;
    assert_eq!(hash.get(Position::new(1, 1)).unwrap().solid_count, 0);
    assert_eq!(hash.get(Position::new(2, 1)).unwrap().solid_count, 1);
}

#[test]
fn render_iter_ends_and_stays_ended() {
    let mut policy = Policy::new();
    policy.make_floor(Position::new(0, 0));
    let mut iter = policy.render_iter();
    assert!(iter.next().is_some());
    assert!(iter.next().is_none());
    assert!(iter.next().is_none());
}

#[test]
fn apply_commits_to_store_and_index() {
    let mut policy = Policy::new();
    policy.make_wall(Position::new(4, 4));
    policy.low_level.apply(EntityChange::Remove(
        0,
        punchcards::entity_store::ComponentType::Solid,
    ));
    assert!(!policy.low_level.entity_store.is_solid(0));
    assert_eq!(
        policy.low_level.spatial_hash.get(Position::new(4, 4)).unwrap().solid_count,
        0
    );
}

#[test]
fn the_player_with_the_least_identifier_walks() {
    let mut policy = Policy::new();
    policy.make_floor(Position::new(0, 0));
    policy.make_player(Position::new(2, 2));
    policy.make_player(Position::new(5, 5));
    policy.move_player(CardinalDirection::East);
    let store = &policy.low_level.entity_store;
    assert_eq!(store.get_coord(1), Some(Position::new(3, 2)));
    assert_eq!(store.get_coord(2), Some(Position::new(5, 5)));
}

#[test]
fn blocked_step_leaves_the_index_as_it_was() {
    let mut policy = Policy::new();
    policy.make_player(Position::new(1, 1));
    policy.make_wall(Position::new(2, 1));
    for cell in policy.low_level.spatial_hash.cells.iter_mut() {
        cell.last_updated = 9;
    }
    policy.low_level.move_collider(0, CardinalDirection::East);
    assert!(policy.low_level.spatial_hash.cells.iter().all(|c| c.last_updated == 9));
    assert_eq!(policy.low_level.entity_store.get_coord(0), Some(Position::new(1, 1)));
    policy.low_level.move_collider(0, CardinalDirection::South);
    let hash = &policy.low_level.spatial_hash;
    assert_eq!(hash.get(Position::new(1, 1)).unwrap().last_updated, 0);
    assert_eq!(hash.get(Position::new(1, 2)).unwrap().last_updated, 0);
    assert_eq!(hash.get(Position::new(2, 1)).unwrap().last_updated, 9);
}
