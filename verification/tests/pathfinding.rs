use grid_search::BfsContext;
use grid_search::DistanceMap;
use grid_search::SolidGrid;
use punchcards::card::Card;
use punchcards::entity_store::ComponentValue;
use punchcards::entity_store::EntityChange;
use punchcards::geometry::CardinalDirection;
use punchcards::geometry::CompassDirection;
use punchcards::geometry::Position;
use punchcards::geometry::Size;
use punchcards::pathfinding::act;
use punchcards::pathfinding::bfs_context_for;
use punchcards::pathfinding::cost_at;
use punchcards::pathfinding::distance_map_for;
use punchcards::pathfinding::is_searchable;
use punchcards::pathfinding::SpatialHashSolidCellGrid;
use punchcards::pathfinding::SpatialHashSolidOrOccupiedCellGrid;
use punchcards::pathfinding::compute_player_map;
use punchcards::pathfinding::step_along;
use punchcards::pathfinding::MAX_DEPTH;
use punchcards::state::State;

const MAZE: [&str; 7] = [
    "#########",
    "#@..#...#",
    "#.#.#.#.#",
    "#.#...#.#",
    "#.#####.#",
    "#......0#",
    "#########",
];

fn maze() -> State {
    State::from_level(&MAZE.to_vec(), vec![Card::Move; 4], 4, 0).unwrap()
}

fn search(width: u32, height: u32) -> (BfsContext, DistanceMap<u32>) {
    let size = grid_2d::Size::new(width, height);
    (BfsContext::new(size), DistanceMap::new(size))
}

fn cost(map: &DistanceMap<u32>, x: i32, y: i32) -> Option<u32> {
    map.cost(grid_2d::Coord::new(x, y))
}

fn is_wall(x: i32, y: i32) -> bool {
    MAZE[y as usize].as_bytes()[x as usize] == b'#'
}

#[test]
fn player_map_costs_are_step_counts() {
    let state = maze();
    let (mut bfs, mut map) = search(9, 7);
    compute_player_map(Position::new(1, 1), state.spatial_hash(), &mut bfs, &mut map);
    assert_eq!(cost(&map, 1, 1), Some(0));
    assert_eq!(cost(&map, 2, 1), Some(1));
    assert_eq!(cost(&map, 3, 1), Some(2));
    assert_eq!(cost(&map, 3, 3), Some(4));
    assert_eq!(cost(&map, 5, 3), Some(6));
    assert_eq!(cost(&map, 5, 1), Some(8));
    assert_eq!(cost(&map, 7, 1), Some(10));
    assert_eq!(cost(&map, 1, 5), Some(4));
    assert_eq!(cost(&map, 7, 5), Some(10));
    assert_eq!(cost(&map, 7, 4), Some(11));
    assert_eq!(cost(&map, 0, 0), None);
    assert_eq!(cost(&map, 4, 1), None);
    assert_eq!(cost(&map, -1, 3), None);
    assert_eq!(cost(&map, 9, 3), None);
}

#[test]
fn player_map_cost_is_one_more_than_least_neighbour() {
    let state = maze();
    let (mut bfs, mut map) = search(9, 7);
    compute_player_map(Position::new(1, 1), state.spatial_hash(), &mut bfs, &mut map);
    for y in 0..7 {
        for x in 0..9 {
            if is_wall(x, y) {
                assert_eq!(cost(&map, x, y), None);
                continue;
            }
            let here = cost(&map, x, y).expect("every open cell of the maze is reachable");
            if (x, y) == (1, 1) {
                assert_eq!(here, 0);
                continue;
            }
            let least = [(0, -1), (1, 0), (0, 1), (-1, 0)]
                .iter()
                .filter(|(dx, dy)| !is_wall(x + dx, y + dy))
                .map(|(dx, dy)| cost(&map, x + dx, y + dy).unwrap())
                .min()
                .unwrap();
            assert_eq!(here, 1 + least);
        }
    }
}

#[test]
fn player_map_leaves_cut_off_cells_unset() {
    let state =
        State::from_level(&vec!["@.#.."], vec![Card::Move], 1, 0).unwrap();
    let (mut bfs, mut map) = search(5, 1);
    compute_player_map(Position::new(0, 0), state.spatial_hash(), &mut bfs, &mut map);
    assert_eq!(cost(&map, 0, 0), Some(0));
    assert_eq!(cost(&map, 1, 0), Some(1));
    assert_eq!(cost(&map, 2, 0), None);
    assert_eq!(cost(&map, 3, 0), None);
    assert_eq!(cost(&map, 4, 0), None);
}

#[test]
fn player_map_is_computed_afresh_each_time() {
    let state = State::from_level(&vec!["@...."], vec![Card::Move], 1, 0).unwrap();
    let (mut bfs, mut map) = search(5, 1);
    compute_player_map(Position::new(0, 0), state.spatial_hash(), &mut bfs, &mut map);
    assert_eq!(cost(&map, 4, 0), Some(4));
    compute_player_map(Position::new(4, 0), state.spatial_hash(), &mut bfs, &mut map);
    assert_eq!(cost(&map, 4, 0), Some(0));
    assert_eq!(cost(&map, 0, 0), Some(4));
}

#[test]
fn actor_at_cost_one_takes_no_action() {
    let state = State::from_level(&vec!["#@0..#"], vec![Card::Move], 1, 0).unwrap();
    let actor = state.entity_store().npcs_at(Position::new(2, 0))[0];
    let (mut bfs, mut map) = search(6, 1);
    compute_player_map(Position::new(1, 0), state.spatial_hash(), &mut bfs, &mut map);
    assert_eq!(cost(&map, 2, 0), Some(1));
    let mut path = vec![CompassDirection::South];
    let mut changes = Vec::new();
    act(
        actor,
        state.entity_store(),
        state.spatial_hash(),
        &map,
        &mut bfs,
        &mut path,
        &mut changes,
    );
    assert!(changes.is_empty());
    assert_eq!(path, vec![CompassDirection::South]);
}

#[test]
fn actor_proposes_first_step_towards_player() {
    let state = maze();
    let actor = state.entity_store().npcs_at(Position::new(7, 5))[0];
    let (mut bfs, mut map) = search(9, 7);
    compute_player_map(Position::new(1, 1), state.spatial_hash(), &mut bfs, &mut map);
    let mut path = Vec::new();
    let mut changes = Vec::new();
    act(
        actor,
        state.entity_store(),
        state.spatial_hash(),
        &map,
        &mut bfs,
        &mut path,
        &mut changes,
    );
    assert_eq!(
        changes,
        vec![EntityChange::Insert(
            actor,
            ComponentValue::Coord(Position::new(6, 5))
        )]
    );
    assert_eq!(path, vec![CompassDirection::West; MAX_DEPTH]);
}

#[test]
fn actor_does_not_walk_through_other_actors() {
    let state = State::from_level(&vec!["#@..00#"], vec![Card::Move], 1, 0).unwrap();
    let far = state.entity_store().npcs_at(Position::new(5, 0))[0];
    let (mut bfs, mut map) = search(7, 1);
    compute_player_map(Position::new(1, 0), state.spatial_hash(), &mut bfs, &mut map);
    assert_eq!(cost(&map, 5, 0), Some(4));
    let mut path = Vec::new();
    let mut changes = Vec::new();
    act(
        far,
        state.entity_store(),
        state.spatial_hash(),
        &map,
        &mut bfs,
        &mut path,
        &mut changes,
    );
    // the best cell it can reach is the one it stands on
    assert!(changes.is_empty());
    assert!(path.is_empty());
}

#[test]
fn step_along_takes_the_first_direction() {
    let mut changes = Vec::new();
    step_along(
        3,
        Position::new(4, 4),
        &vec![CompassDirection::North, CompassDirection::East],
        &mut changes,
    );
    assert_eq!(
        changes,
        vec![EntityChange::Insert(
            3,
            ComponentValue::Coord(Position::new(4, 3))
        )]
    );
}

#[test]
fn step_along_ignores_empty_and_diagonal_paths() {
    let mut changes = Vec::new();
    step_along(3, Position::new(4, 4), &vec![], &mut changes);
    step_along(
        3,
        Position::new(4, 4),
        &vec![CompassDirection::NorthEast],
        &mut changes,
    );
    step_along(
        3,
        Position::new(i32::MAX, 0),
        &vec![CompassDirection::East],
        &mut changes,
    );
    assert!(changes.is_empty());
}

#[test]
fn compass_and_cardinal_directions_agree() {
    for d in [
        CardinalDirection::North,
        CardinalDirection::East,
        CardinalDirection::South,
        CardinalDirection::West,
    ] {
        assert_eq!(d.direction().cardinal(), Some(d));
        assert_eq!(d.opposite().opposite(), d);
    }
    assert_eq!(CompassDirection::SouthWest.cardinal(), None);
    assert_eq!(CardinalDirection::North.opposite(), CardinalDirection::South);
    assert_eq!(CardinalDirection::East.opposite(), CardinalDirection::West);
}

#[test]
fn search_structures_are_made_for_searchable_sizes_only() {
    assert!(is_searchable(Size::new(1, 1)));
    assert!(is_searchable(Size::new(65535, 65537)));
    assert!(!is_searchable(Size::new(65536, 65536)));
    assert!(!is_searchable(Size::new(0, 5)));
    assert!(!is_searchable(Size::new(5, 0)));
    assert!(!is_searchable(Size::new(0x8000_0000, 1)));
    assert!(bfs_context_for(Size::new(0, 5)).is_none());
    assert!(distance_map_for(Size::new(5, 0)).is_none());
    let bfs = bfs_context_for(Size::new(4, 3)).unwrap();
    assert_eq!((bfs.width(), bfs.height()), (4, 3));
    let map = distance_map_for(Size::new(4, 3)).unwrap();
    assert_eq!((map.width(), map.height()), (4, 3));
    for y in 0..3 {
        for x in 0..4 {
            assert_eq!(cost_at(&map, Position::new(x, y)), None);
        }
    }
}

#[test]
fn cost_at_reads_the_player_map() {
    let state = State::from_level(&vec!["@..#."], vec![Card::Move], 1, 0).unwrap();
    let mut bfs = bfs_context_for(Size::new(5, 1)).unwrap();
    let mut map = distance_map_for(Size::new(5, 1)).unwrap();
    compute_player_map(Position::new(0, 0), state.spatial_hash(), &mut bfs, &mut map);
    assert_eq!(cost_at(&map, Position::new(0, 0)), Some(0));
    assert_eq!(cost_at(&map, Position::new(2, 0)), Some(2));
    assert_eq!(cost_at(&map, Position::new(3, 0)), None);
    assert_eq!(cost_at(&map, Position::new(4, 0)), None);
    assert_eq!(cost_at(&map, Position::new(7, 7)), None);
}

#[test]
fn grids_answer_for_each_cell_and_for_none_outside() {
    let state = State::from_level(&vec!["#@0.", "...."], vec![Card::Move], 1, 0).unwrap();
    let solid = SpatialHashSolidCellGrid(state.spatial_hash());
    let blocked = SpatialHashSolidOrOccupiedCellGrid(state.spatial_hash());
    let at = |x: i32, y: i32| grid_2d::Coord::new(x, y);
    assert_eq!(solid.is_solid(at(0, 0)), Some(true));
    assert_eq!(solid.is_solid(at(1, 0)), Some(false));
    assert_eq!(solid.is_solid(at(2, 0)), Some(false));
    assert_eq!(solid.is_solid(at(3, 1)), Some(false));
    assert_eq!(blocked.is_solid(at(0, 0)), Some(true));
    assert_eq!(blocked.is_solid(at(1, 0)), Some(false));
    assert_eq!(blocked.is_solid(at(2, 0)), Some(true));
    assert_eq!(blocked.is_solid(at(3, 1)), Some(false));
    for outside in [at(4, 0), at(0, 2), at(-1, 0), at(0, -1)] {
        assert_eq!(solid.is_solid(outside), None);
        assert_eq!(blocked.is_solid(outside), None);
    }
}

#[test]
fn lookup_on_a_table_with_too_few_cells_gives_nothing() {
    let mut state = State::from_level(&vec!["#@..", "...."], vec![Card::Move], 1, 0).unwrap();
    state.game_state.spatial_hash.cells.truncate(5);
    let hash = state.spatial_hash();
    assert!(hash.lookup(Position::new(0, 1)).is_some());
    assert_eq!(hash.lookup(Position::new(0, 0)).unwrap().solid_count, 1);
    assert!(hash.lookup(Position::new(1, 1)).is_none());
    assert!(hash.lookup(Position::new(3, 1)).is_none());
    let solid = SpatialHashSolidCellGrid(hash);
    assert_eq!(solid.is_solid(grid_2d::Coord::new(0, 0)), Some(true));
    assert_eq!(solid.is_solid(grid_2d::Coord::new(1, 1)), None);
}

#[test]
fn actor_at_cost_one_needs_no_fitting_search_context() {
    let state = State::from_level(&vec!["#@0..#"], vec![Card::Move], 1, 0).unwrap();
    let actor = state.entity_store().npcs_at(Position::new(2, 0))[0];
    let (mut bfs, mut map) = search(6, 1);
    compute_player_map(Position::new(1, 0), state.spatial_hash(), &mut bfs, &mut map);
    let mut small = BfsContext::new(grid_2d::Size::new(1, 1));
    let mut path = Vec::new();
    let mut changes = Vec::new();
    act(
        actor,
        state.entity_store(),
        state.spatial_hash(),
        &map,
        &mut small,
        &mut path,
        &mut changes,
    );
    assert!(changes.is_empty());
    assert!(path.is_empty());
}
