use punchcards::animation::Animation;
use punchcards::card::Card;
use punchcards::entity_store::ComponentFlags;
use punchcards::entity_store::ComponentType;
use punchcards::entity_store::ComponentValue;
use punchcards::entity_store::EntityChange;
use punchcards::entity_store::EntityComponentTable;
use punchcards::entity_store::EntityIdAllocator;
use punchcards::entity_store::EntityStore;
use punchcards::entity_store::Renderable;
use punchcards::geometry::CardinalDirection;
use punchcards::geometry::Position;
use punchcards::geometry::Size;
use punchcards::input::Input;
use punchcards::policy::check;
use punchcards::prototypes;
use punchcards::reaction::removal;
use punchcards::reaction::Reaction;
use punchcards::spatial_hash::SpatialHashTable;
use punchcards::state::interpret;
use punchcards::state::step_all;
use punchcards::state::GameState;
use punchcards::state::InputState;
use punchcards::state::Interpretation;
use punchcards::state::Play;
use punchcards::tile::TileInfo;
use punchcards::tile::TileType;

fn ins(id: u64, value: ComponentValue) -> EntityChange {
    EntityChange::Insert(id, value)
}

#[test]
fn commit_inserts_and_removes_each_kind() {
    let mut store = EntityStore::new();
    let tile = TileInfo::new(TileType::Floor, 1);
    let values = [
        ComponentValue::Coord(Position::new(1, 2)),
        ComponentValue::Solid,
        ComponentValue::Tile(tile),
        ComponentValue::Player,
        ComponentValue::Card(Card::Punch),
        ComponentValue::Npc,
    ];
    for v in values {
        assert!(!store.contains(5, v.typ()));
        assert_eq!(store.get(5, v.typ()), None);
        store.commit(ins(5, v));
        assert!(store.contains(5, v.typ()));
        assert_eq!(store.get(5, v.typ()), Some(v));
        assert_eq!(store.ids_holding(v.typ()), vec![5]);
    }
    assert_eq!(store.get_coord(5), Some(Position::new(1, 2)));
    assert_eq!(store.get_tile(5), Some(tile));
    assert_eq!(store.get_card(5), Some(Card::Punch));
    assert!(store.is_solid(5) && store.is_player(5) && store.is_npc(5));
    for v in values {
        store.commit(EntityChange::Remove(5, v.typ()));
        assert!(!store.contains(5, v.typ()));
    }
    assert_eq!(store.get_coord(5), None);
}

#[test]
fn commit_overwrites_a_value() {
    let mut store = EntityStore::new();
    store.commit(ins(1, ComponentValue::Coord(Position::new(0, 0))));
    store.commit(ins(1, ComponentValue::Coord(Position::new(3, 4))));
    assert_eq!(store.get_coord(1), Some(Position::new(3, 4)));
    assert_eq!(store.ids_holding(ComponentType::Coord), vec![1]);
}

#[test]
fn change_knows_its_entity_and_kind() {
    let change = ins(8, ComponentValue::Card(Card::Move));
    assert_eq!(change.entity(), 8);
    assert_eq!(change.typ(), ComponentType::Card);
    let change = EntityChange::Remove(9, ComponentType::Npc);
    assert_eq!(change.entity(), 9);
    assert_eq!(change.typ(), ComponentType::Npc);
}

#[test]
fn renderables_need_position_and_tile() {
    let mut store = EntityStore::new();
    let tile = TileInfo::new(TileType::Wall, 2);
    store.commit(ins(1, ComponentValue::Coord(Position::new(0, 0))));
    store.commit(ins(2, ComponentValue::Tile(tile)));
    store.commit(ins(3, ComponentValue::Coord(Position::new(5, 6))));
    store.commit(ins(3, ComponentValue::Tile(tile)));
    assert_eq!(
        store.renderables(),
        vec![Renderable {
            id: 3,
            coord: Position::new(5, 6),
            tile
        }]
    );
}

#[test]
fn scans_find_entities_by_position() {
    let mut store = EntityStore::new();
    let here = Position::new(2, 2);
    let mut changes = Vec::new();
    prototypes::target_dummy(1, here, &mut changes);
    prototypes::target_dummy(2, here, &mut changes);
    prototypes::target_dummy(3, Position::new(0, 0), &mut changes);
    prototypes::card(4, here, Card::Move, TileType::CardMove, &mut changes);
    changes.push(ins(2, ComponentValue::Solid));
    for change in changes {
        store.commit(change);
    }
    assert_eq!(store.npcs_at(here), vec![1, 2]);
    assert_eq!(store.targets_at(here), vec![1]);
    assert_eq!(store.cards_at(here), vec![4]);
    assert!(store.cards_at(Position::new(0, 0)).is_empty());
    assert_eq!(removal(&store, 4), Reaction::TakeCard(4, Card::Move));
    assert_eq!(removal(&store, 1), Reaction::RemoveEntity(1));
}

#[test]
fn clone_changes_rebuilds_the_store() {
    let mut store = EntityStore::new();
    let mut changes = Vec::new();
    prototypes::wall(1, Position::new(0, 0), &mut changes);
    prototypes::floor(2, Position::new(0, 0), &mut changes);
    prototypes::player(3, Position::new(1, 0), &mut changes);
    prototypes::card(4, Position::new(2, 0), Card::Punch, TileType::CardPunch, &mut changes);
    prototypes::target_dummy(5, Position::new(3, 0), &mut changes);
    prototypes::punch(6, Position::new(3, 0), &mut changes);
    for change in changes {
        store.commit(change);
    }
    let mut log = vec![EntityChange::Remove(77, ComponentType::Tile)];
    store.clone_changes(&mut log);
    assert_eq!(log[0], EntityChange::Remove(77, ComponentType::Tile));
    assert_eq!(log.len(), 1 + 3 + 2 + 3 + 3 + 3 + 2);
    let mut copy = EntityStore::new();
    for change in log.into_iter().skip(1) {
        copy.commit(change);
    }
    for typ in [
        ComponentType::Coord,
        ComponentType::Solid,
        ComponentType::Tile,
        ComponentType::Player,
        ComponentType::Card,
        ComponentType::Npc,
    ] {
        assert_eq!(copy.ids_holding(typ), store.ids_holding(typ));
        for id in store.ids_holding(typ) {
            assert_eq!(copy.get(id, typ), store.get(id, typ));
        }
    }
    assert_eq!(copy.renderables(), store.renderables());
}

#[test]
fn allocator_counts_up() {
    let mut ids = EntityIdAllocator::new();
    assert!(ids.has_next());
    assert_eq!(ids.allocate(), 0);
    assert_eq!(ids.allocate(), 1);
    assert_eq!(ids.next, 2);
    assert!(!EntityIdAllocator { next: u64::MAX }.has_next());
}

#[test]
fn component_table_follows_changes() {
    let mut table = EntityComponentTable::new();
    assert!(table.components(1).is_empty());
    table.update(&ins(1, ComponentValue::Npc));
    table.update(&ins(1, ComponentValue::Coord(Position::new(0, 0))));
    table.update(&ins(1, ComponentValue::Tile(TileInfo::new(TileType::Floor, 1))));
    table.update(&ins(2, ComponentValue::Solid));
    assert_eq!(
        table.components(1),
        vec![ComponentType::Coord, ComponentType::Tile, ComponentType::Npc]
    );
    table.update(&EntityChange::Remove(1, ComponentType::Tile));
    table.update(&EntityChange::Remove(1, ComponentType::Card));
    assert_eq!(
        table.components(1),
        vec![ComponentType::Coord, ComponentType::Npc]
    );
    table.update(&EntityChange::Remove(2, ComponentType::Solid));
    assert!(table.components(2).is_empty());
    assert!(!table.table.contains_key(&2));
}

#[test]
fn flags_list_kinds_in_order() {
    let mut flags = ComponentFlags::none();
    assert!(flags.is_none());
    flags.set(ComponentType::Card, true);
    flags.set(ComponentType::Solid, true);
    flags.set(ComponentType::Player, true);
    assert!(flags.get(ComponentType::Card));
    assert!(!flags.get(ComponentType::Npc));
    assert_eq!(
        flags.kinds(),
        vec![ComponentType::Solid, ComponentType::Player, ComponentType::Card]
    );
    flags.set(ComponentType::Solid, false);
    assert_eq!(
        flags.kinds(),
        vec![ComponentType::Player, ComponentType::Card]
    );
}

#[test]
fn delete_entity_proposes_removal_of_what_it_holds() {
    let mut game = GameState::new(Size::new(3, 3));
    let mut changes = Vec::new();
    prototypes::wall(7, Position::new(1, 1), &mut changes);
    for change in changes.drain(..) {
        game.commit(change);
    }
    assert_eq!(game.count, 3);
    game.delete_entity(7, &mut changes);
    game.delete_entity(8, &mut changes);
    assert_eq!(
        changes,
        vec![
            EntityChange::Remove(7, ComponentType::Coord),
            EntityChange::Remove(7, ComponentType::Solid),
            EntityChange::Remove(7, ComponentType::Tile),
        ]
    );
    for change in changes.drain(..) {
        game.commit(change);
    }
    assert_eq!(game.count, 6);
    assert!(game.entity_components.components(7).is_empty());
    assert_eq!(
        game.spatial_hash.get(Position::new(1, 1)).unwrap().solid_count,
        0
    );
}

#[test]
fn restore_leaves_the_turn_counter_alone() {
    let mut game = GameState::new(Size::new(2, 2));
    game.restore(ins(1, ComponentValue::Coord(Position::new(1, 1))));
    game.restore(ins(1, ComponentValue::Solid));
    assert_eq!(game.count, 0);
    let cell = game.spatial_hash.get(Position::new(1, 1)).unwrap();
    assert_eq!(cell.solid_count, 1);
    assert_eq!(cell.last_updated, 0);
    let rebuilt = GameState::rebuild(
        Size::new(2, 2),
        &vec![
            ins(1, ComponentValue::Coord(Position::new(1, 1))),
            ins(1, ComponentValue::Solid),
            ins(1, ComponentValue::Coord(Position::new(0, 1))),
        ],
    );
    assert_eq!(rebuilt.spatial_hash.get(Position::new(1, 1)).unwrap().solid_count, 0);
    assert_eq!(rebuilt.spatial_hash.get(Position::new(0, 1)).unwrap().solid_count, 1);
}

#[test]
fn spatial_hash_follows_every_kind_of_change() {
    let mut store = EntityStore::new();
    let mut hash = SpatialHashTable::new(Size::new(4, 3));
    let a = Position::new(1, 1);
    let b = Position::new(3, 2);
    let mut turn = 10;
    let mut run = |store: &mut EntityStore, hash: &mut SpatialHashTable, change: EntityChange| {
        hash.update(store, &change, turn);
        store.commit(change);
        turn += 1;
    };
    run(&mut store, &mut hash, ins(1, ComponentValue::Solid));
    assert_eq!(hash.get(a).unwrap().solid_count, 0);
    run(&mut store, &mut hash, ins(1, ComponentValue::Coord(a)));
    assert_eq!(hash.get(a).unwrap().solid_count, 1);
    assert_eq!(hash.get(a).unwrap().last_updated, 11);
    run(&mut store, &mut hash, ins(1, ComponentValue::Solid));
    assert_eq!(hash.get(a).unwrap().solid_count, 1);
    run(&mut store, &mut hash, ins(2, ComponentValue::Coord(a)));
    run(&mut store, &mut hash, ins(2, ComponentValue::Npc));
    run(&mut store, &mut hash, ins(2, ComponentValue::Solid));
    assert_eq!(hash.get(a).unwrap().solid_count, 2);
    assert!(hash.get(a).unwrap().npc_set.contains(&2));
    run(&mut store, &mut hash, ins(2, ComponentValue::Coord(b)));
    assert_eq!(hash.get(a).unwrap().solid_count, 1);
    assert_eq!(hash.get(b).unwrap().solid_count, 1);
    assert!(hash.get(a).unwrap().npc_set.is_empty());
    assert!(hash.get(b).unwrap().npc_set.contains(&2));
    assert_eq!(hash.get(b).unwrap().last_updated, 16);
    run(&mut store, &mut hash, ins(2, ComponentValue::Coord(Position::new(9, 9))));
    assert_eq!(hash.get(b).unwrap().solid_count, 0);
    assert!(hash.get(b).unwrap().npc_set.is_empty());
    run(&mut store, &mut hash, ins(2, ComponentValue::Coord(b)));
    run(&mut store, &mut hash, EntityChange::Remove(2, ComponentType::Npc));
    assert!(hash.get(b).unwrap().npc_set.is_empty());
    run(&mut store, &mut hash, EntityChange::Remove(2, ComponentType::Solid));
    assert_eq!(hash.get(b).unwrap().solid_count, 0);
    run(&mut store, &mut hash, EntityChange::Remove(1, ComponentType::Coord));
    assert_eq!(hash.get(a).unwrap().solid_count, 0);
    run(&mut store, &mut hash, EntityChange::Remove(1, ComponentType::Coord));
    assert_eq!(hash.get(a).unwrap().solid_count, 0);
    assert_eq!(hash.get(Position::new(0, 0)).unwrap().last_updated, 0);
}

#[test]
fn spatial_hash_get_outside_is_nothing() {
    let hash = SpatialHashTable::new(Size::new(4, 3));
    assert!(hash.get(Position::new(4, 0)).is_none());
    assert!(hash.get(Position::new(0, 3)).is_none());
    assert!(hash.get(Position::new(-1, 0)).is_none());
    assert!(hash.get(Position::new(3, 2)).is_some());
    assert!(hash.lookup(Position::new(4, 0)).is_none());
    assert!(hash.lookup(Position::new(3, 2)).is_some());
    assert_eq!(hash.width(), 4);
    assert_eq!(hash.height(), 3);
}

#[test]
fn size_indexes_row_by_row() {
    let size = Size::new(4, 3);
    assert_eq!(size.index_of(Position::new(0, 0)), Some(0));
    assert_eq!(size.index_of(Position::new(3, 0)), Some(3));
    assert_eq!(size.index_of(Position::new(0, 1)), Some(4));
    assert_eq!(size.index_of(Position::new(3, 2)), Some(11));
    assert_eq!(size.index_of(Position::new(4, 2)), None);
    assert!(size.is_valid(Position::new(3, 2)));
    assert!(!size.is_valid(Position::new(3, -1)));
}

#[test]
fn position_steps_in_each_direction() {
    let p = Position::new(5, 5);
    assert_eq!(p.step(CardinalDirection::North), Some(Position::new(5, 4)));
    assert_eq!(p.step(CardinalDirection::East), Some(Position::new(6, 5)));
    assert_eq!(p.step(CardinalDirection::South), Some(Position::new(5, 6)));
    assert_eq!(p.step(CardinalDirection::West), Some(Position::new(4, 5)));
    assert_eq!(Position::new(i32::MAX, 0).step(CardinalDirection::East), None);
    assert_eq!(Position::new(i32::MIN, 0).step(CardinalDirection::West), None);
    assert_eq!(Position::new(0, i32::MIN).step(CardinalDirection::North), None);
    assert_eq!(Position::new(0, i32::MAX).step(CardinalDirection::South), None);
}

#[test]
fn check_refuses_moves_into_solid_cells_and_off_the_grid() {
    let mut game = GameState::new(Size::new(3, 1));
    let mut changes = Vec::new();
    prototypes::player(1, Position::new(0, 0), &mut changes);
    prototypes::wall(2, Position::new(1, 0), &mut changes);
    for change in changes {
        game.commit(change);
    }
    let mut reactions = Vec::new();
    let go = |to: Position| ins(1, ComponentValue::Coord(to));
    assert!(!check(&go(Position::new(1, 0)), &game.entity_store, &game.spatial_hash, &mut reactions));
    assert!(!check(&go(Position::new(3, 0)), &game.entity_store, &game.spatial_hash, &mut reactions));
    assert!(!check(&go(Position::new(0, -1)), &game.entity_store, &game.spatial_hash, &mut reactions));
    assert!(check(&go(Position::new(2, 0)), &game.entity_store, &game.spatial_hash, &mut reactions));
    // an entity that has no position yet may be put onto a solid cell
    assert!(check(
        &ins(9, ComponentValue::Coord(Position::new(1, 0))),
        &game.entity_store,
        &game.spatial_hash,
        &mut reactions
    ));
    assert!(check(
        &EntityChange::Remove(2, ComponentType::Solid),
        &game.entity_store,
        &game.spatial_hash,
        &mut reactions
    ));
    assert!(reactions.is_empty());
}

#[test]
fn check_lets_only_the_player_take_cards() {
    let mut game = GameState::new(Size::new(3, 1));
    let mut changes = Vec::new();
    prototypes::player(1, Position::new(0, 0), &mut changes);
    prototypes::target_dummy(2, Position::new(2, 0), &mut changes);
    prototypes::card(3, Position::new(1, 0), Card::Punch, TileType::CardPunch, &mut changes);
    prototypes::card(4, Position::new(1, 0), Card::Move, TileType::CardMove, &mut changes);
    for change in changes {
        game.commit(change);
    }
    let mut reactions = vec![Reaction::RemoveEntity(50)];
    assert!(check(
        &ins(2, ComponentValue::Coord(Position::new(1, 0))),
        &game.entity_store,
        &game.spatial_hash,
        &mut reactions
    ));
    assert_eq!(reactions, vec![Reaction::RemoveEntity(50)]);
    assert!(check(
        &ins(1, ComponentValue::Coord(Position::new(1, 0))),
        &game.entity_store,
        &game.spatial_hash,
        &mut reactions
    ));
    assert_eq!(
        reactions,
        vec![
            Reaction::RemoveEntity(50),
            Reaction::TakeCard(3, Card::Punch),
            Reaction::TakeCard(4, Card::Move),
        ]
    );
}

#[test]
fn interpret_reads_inputs_in_order() {
    let hand = vec![Card::Move, Card::Punch];
    let start = InputState::WaitingForCardSelection;
    assert_eq!(
        interpret(&hand, start, &vec![]),
        Interpretation { input_state: start, play: None }
    );
    assert_eq!(
        interpret(&hand, start, &vec![Input::Direction(CardinalDirection::North)]),
        Interpretation { input_state: start, play: None }
    );
    assert_eq!(
        interpret(
            &hand,
            start,
            &vec![
                Input::SelectCard(7),
                Input::SelectCard(1),
                Input::Direction(CardinalDirection::North),
                Input::Direction(CardinalDirection::West),
                Input::SelectCard(0),
            ]
        ),
        Interpretation {
            input_state: InputState::WaitingForDirection(0, Card::Move),
            play: Some(Play {
                index: 1,
                card: Card::Punch,
                direction: CardinalDirection::West
            }),
        }
    );
}

#[test]
fn step_all_steps_each_and_leaves_none() {
    let mut animations = vec![
        Animation::RemoveEntity(1, 10),
        Animation::RemoveEntity(2, 50),
    ];
    let mut reactions = vec![Reaction::RemoveEntity(0)];
    step_all(&mut animations, 20, &mut reactions);
    assert!(animations.is_empty());
    assert_eq!(
        reactions,
        vec![
            Reaction::RemoveEntity(0),
            Reaction::RemoveEntity(1),
            Reaction::StartAnimation(Animation::RemoveEntity(2, 30)),
        ]
    );
}

#[test]
fn clone_changes_lists_each_component_once_kind_by_kind() {
    let mut store = EntityStore::new();
    let mut changes = Vec::new();
    prototypes::target_dummy(9, Position::new(3, 0), &mut changes);
    prototypes::wall(4, Position::new(0, 0), &mut changes);
    prototypes::card(6, Position::new(2, 0), Card::Punch, TileType::CardPunch, &mut changes);
    changes.push(EntityChange::Remove(4, ComponentType::Tile));
    changes.push(ins(4, ComponentValue::Coord(Position::new(1, 1))));
    for change in changes {
        store.commit(change);
    }
    let mut log = Vec::new();
    store.clone_changes(&mut log);
    assert_eq!(
        log,
        vec![
            ins(4, ComponentValue::Coord(Position::new(1, 1))),
            ins(6, ComponentValue::Coord(Position::new(2, 0))),
            ins(9, ComponentValue::Coord(Position::new(3, 0))),
            ins(4, ComponentValue::Solid),
            ins(6, ComponentValue::Tile(TileInfo::new(TileType::CardPunch, 2))),
            ins(9, ComponentValue::Tile(TileInfo::new(TileType::TargetDummy, 3))),
            ins(6, ComponentValue::Card(Card::Punch)),
            ins(9, ComponentValue::Npc),
        ]
    );
}

#[test]
fn rebuilt_index_bears_no_stamps() {
    let mut game = GameState::new(Size::new(3, 1));
    game.count = 5;
    game.commit(ins(1, ComponentValue::Coord(Position::new(1, 0))));
    assert_eq!(game.spatial_hash.get(Position::new(1, 0)).unwrap().last_updated, 5);
    let mut log = Vec::new();
    game.entity_store.clone_changes(&mut log);
    let rebuilt = GameState::rebuild(Size::new(3, 1), &log);
    assert!(rebuilt.spatial_hash.cells.iter().all(|c| c.last_updated == 0));
    assert_eq!(rebuilt.count, 0);
}
