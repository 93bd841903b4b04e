use punchcards::animation::Animation;
use punchcards::card::Card;
use punchcards::entity_store::ComponentType;
use punchcards::entity_store::EntityId;
use punchcards::geometry::CardinalDirection;
use punchcards::geometry::Position;
use punchcards::geometry::Size;
use punchcards::input::Input;
use punchcards::state::InputState;
use punchcards::state::Meta;
use punchcards::state::State;
use punchcards::tile::TileInfo;
use punchcards::tile::TileType;

fn game(rows: &[&str], cards: Vec<Card>, hand_size: usize) -> State {
    State::from_level(&rows.to_vec(), cards, hand_size, 7).expect("level")
}

fn drawn(state: &State) -> Vec<(Position, TileInfo)> {
    let mut pairs: Vec<(Position, TileInfo)> = state
        .entity_store()
        .renderables()
        .into_iter()
        .map(|r| (r.coord, r.tile))
        .collect();
    pairs.sort_by_key(|(c, t)| (c.y, c.x, t.depth, format!("{:?}", t.typ)));
    pairs
}

fn where_is(state: &State, id: EntityId) -> Option<Position> {
    state.entity_store().get_coord(id)
}

fn solid_counts_agree(state: &State) {
    let store = state.entity_store();
    let hash = state.spatial_hash();
    for y in 0..hash.height() as i32 {
        for x in 0..hash.width() as i32 {
            let coord = Position::new(x, y);
            let solids = store
                .ids_holding(ComponentType::Solid)
                .into_iter()
                .filter(|id| store.get_coord(*id) == Some(coord))
                .count();
            let npcs: Vec<EntityId> = store.npcs_at(coord);
            let cell = hash.get(coord).unwrap();
            assert_eq!(cell.solid_count, solids, "solid count at {:?}", coord);
            assert_eq!(cell.npc_set.len(), npcs.len(), "actors at {:?}", coord);
            for id in npcs {
                assert!(cell.npc_set.contains(&id));
            }
        }
    }
}

#[test]
fn player_walks_onto_move_pickup() {
    let mut state = game(&["#####", "#@m.#", "#####"], vec![Card::Move; 4], 4);
    let player = state.player_id;
    assert_eq!(where_is(&state, player), Some(Position::new(1, 1)));
    let pickups = state.entity_store().cards_at(Position::new(2, 1));
    assert_eq!(pickups.len(), 1);
    let pickup = pickups[0];
    let meta = state.tick(
        vec![Input::SelectCard(0), Input::Direction(CardinalDirection::East)],
        16,
    );
    assert_eq!(meta, None);
    assert_eq!(where_is(&state, player), Some(Position::new(2, 1)));
    for typ in [
        ComponentType::Coord,
        ComponentType::Solid,
        ComponentType::Tile,
        ComponentType::Player,
        ComponentType::Card,
        ComponentType::Npc,
    ] {
        assert!(!state.entity_store().contains(pickup, typ));
    }
    assert!(state.entity_store().cards_at(Position::new(2, 1)).is_empty());
    assert_eq!(state.card_state().hand.len(), 3);
    assert_eq!(state.card_state().deck.len(), 1);
    assert_eq!(*state.input_state(), InputState::WaitingForCardSelection);
    solid_counts_agree(&state);
}

#[test]
fn empty_hand_is_game_over() {
    let mut state = game(&["#####", "#@..#", "#####"], vec![Card::Move], 1);
    let meta = state.tick(
        vec![Input::SelectCard(0), Input::Direction(CardinalDirection::East)],
        16,
    );
    assert_eq!(meta, Some(Meta::GameOver));
    assert!(state.card_state().hand.is_empty());
    assert_eq!(state.tick(vec![], 16), Some(Meta::GameOver));
}

#[test]
fn move_into_solid_cell_is_refused() {
    let mut state = game(&["#####", "#@#.#", "#####"], vec![Card::Move; 3], 2);
    let player = state.player_id;
    let before = drawn(&state);
    let count = state.game_state.count;
    let meta = state.tick(
        vec![Input::SelectCard(1), Input::Direction(CardinalDirection::East)],
        16,
    );
    assert_eq!(meta, None);
    assert_eq!(where_is(&state, player), Some(Position::new(1, 1)));
    assert_eq!(drawn(&state), before);
    assert_eq!(state.game_state.count, count);
    assert_eq!(state.card_state().hand.len(), 2);
    assert_eq!(
        *state.input_state(),
        InputState::WaitingForDirection(1, Card::Move)
    );
    solid_counts_agree(&state);
}

#[test]
fn actor_next_to_player_does_not_move() {
    let mut state = game(&["######", "#0@..#", "######"], vec![Card::Punch; 2], 2);
    let actors = state.entity_store().npcs_at(Position::new(1, 1));
    assert_eq!(actors.len(), 1);
    let actor = actors[0];
    state.tick(
        vec![Input::SelectCard(0), Input::Direction(CardinalDirection::East)],
        16,
    );
    assert_eq!(state.card_state().hand.len(), 1);
    assert_eq!(where_is(&state, actor), Some(Position::new(1, 1)));
    solid_counts_agree(&state);
}

#[test]
fn actor_far_from_player_steps_towards_player() {
    let mut state = game(&["#######", "#0..@.#", "#######"], vec![Card::Punch; 2], 2);
    let actor = state.entity_store().npcs_at(Position::new(1, 1))[0];
    state.tick(
        vec![Input::SelectCard(0), Input::Direction(CardinalDirection::East)],
        16,
    );
    assert_eq!(where_is(&state, actor), Some(Position::new(2, 1)));
    assert_eq!(
        state.spatial_hash().get(Position::new(2, 1)).unwrap().npc_set.len(),
        1
    );
    assert!(state.spatial_hash().get(Position::new(1, 1)).unwrap().npc_set.is_empty());
    solid_counts_agree(&state);
}

#[test]
fn actors_wait_until_a_card_is_played() {
    let mut state = game(&["#######", "#0..@.#", "#######"], vec![Card::Punch; 2], 2);
    let actor = state.entity_store().npcs_at(Position::new(1, 1))[0];
    state.tick(vec![Input::SelectCard(0)], 16);
    assert_eq!(where_is(&state, actor), Some(Position::new(1, 1)));
    state.tick(vec![], 16);
    assert_eq!(where_is(&state, actor), Some(Position::new(1, 1)));
}

#[test]
fn quiescent_tick_changes_nothing() {
    let mut state = State::new(3);
    let before = drawn(&state);
    let count = state.game_state.count;
    let hand = state.card_state().hand.cards.clone();
    let deck = state.card_state().deck.cards.clone();
    assert_eq!(state.tick(vec![], 16), None);
    assert_eq!(drawn(&state), before);
    assert_eq!(state.game_state.count, count);
    assert_eq!(state.card_state().hand.cards, hand);
    assert_eq!(state.card_state().deck.cards, deck);
    assert_eq!(*state.input_state(), InputState::WaitingForCardSelection);
    assert!(state.animations.is_empty());
    solid_counts_agree(&state);
}

#[test]
fn new_game_is_the_first_level() {
    let state = State::new(11);
    assert_eq!(state.spatial_hash().size, Size::new(10, 10));
    assert_eq!(where_is(&state, state.player_id), Some(Position::new(3, 3)));
    assert_eq!(state.card_state().hand.len(), 4);
    assert_eq!(state.card_state().hand.capacity, 4);
    assert_eq!(state.card_state().deck.len(), 6);
    let mut all: Vec<Card> = state.card_state().hand.cards.clone();
    all.extend(state.card_state().deck.cards.iter().copied());
    assert_eq!(all.iter().filter(|c| **c == Card::Punch).count(), 5);
    assert_eq!(all.iter().filter(|c| **c == Card::Move).count(), 5);
    assert_eq!(state.game_state.count, 0);
    assert_eq!(state.entity_store().cards_at(Position::new(3, 1)).len(), 1);
    assert_eq!(state.entity_store().npcs_at(Position::new(2, 3)).len(), 1);
    let walls = drawn(&state)
        .into_iter()
        .filter(|(_, t)| t.typ == TileType::Wall)
        .count();
    assert_eq!(walls, 36 + 3 + 4);
    let floors = drawn(&state)
        .into_iter()
        .filter(|(_, t)| t.typ == TileType::Floor)
        .count();
    assert_eq!(floors, 100);
    assert_eq!(state.game_state.id_allocator.next, 100 + 43 + 3);
    solid_counts_agree(&state);
}

#[test]
fn same_seed_gives_the_same_deal() {
    let a = State::new(5);
    let b = State::new(5);
    assert_eq!(a.card_state().hand.cards, b.card_state().hand.cards);
    assert_eq!(a.card_state().deck.cards, b.card_state().deck.cards);
}

#[test]
fn level_that_cannot_be_loaded_gives_nothing() {
    let cards = || vec![Card::Move];
    assert!(State::from_level(&vec![], cards(), 1, 0).is_none());
    assert!(State::from_level(&vec![""], cards(), 1, 0).is_none());
    assert!(State::from_level(&vec!["#.#"], cards(), 1, 0).is_none());
    assert!(State::from_level(&vec!["#@#", "##"], cards(), 1, 0).is_none());
    assert!(State::from_level(&vec!["#@x"], cards(), 1, 0).is_none());
    assert!(State::from_level(&vec!["#@#"], cards(), 1, 0).is_some());
}

#[test]
fn last_player_glyph_is_the_player() {
    let state = game(&["@.@"], vec![Card::Move], 1);
    assert_eq!(where_is(&state, state.player_id), Some(Position::new(2, 0)));
}

#[test]
fn select_card_beyond_hand_is_ignored() {
    let mut state = game(&["#@.#"], vec![Card::Move; 2], 2);
    state.tick(vec![Input::SelectCard(2)], 16);
    assert_eq!(*state.input_state(), InputState::WaitingForCardSelection);
    state.tick(vec![Input::Direction(CardinalDirection::East)], 16);
    assert_eq!(where_is(&state, state.player_id), Some(Position::new(1, 0)));
}

#[test]
fn selection_survives_until_direction_arrives() {
    let mut state = game(&["#@.#"], vec![Card::Move; 2], 2);
    state.tick(vec![Input::SelectCard(1)], 16);
    assert_eq!(
        *state.input_state(),
        InputState::WaitingForDirection(1, Card::Move)
    );
    state.tick(vec![Input::Direction(CardinalDirection::East)], 16);
    assert_eq!(where_is(&state, state.player_id), Some(Position::new(2, 0)));
    assert_eq!(*state.input_state(), InputState::WaitingForCardSelection);
    assert_eq!(state.card_state().hand.len(), 1);
}

#[test]
fn hand_is_refilled_after_play() {
    let mut state = game(&["#@...#"], vec![Card::Move; 5], 3);
    assert_eq!(state.card_state().hand.len(), 3);
    assert_eq!(state.card_state().deck.len(), 2);
    state.tick(
        vec![Input::SelectCard(0), Input::Direction(CardinalDirection::East)],
        16,
    );
    assert_eq!(state.card_state().hand.len(), 3);
    assert_eq!(state.card_state().deck.len(), 1);
    state.tick(
        vec![Input::SelectCard(2), Input::Direction(CardinalDirection::East)],
        16,
    );
    assert_eq!(state.card_state().hand.len(), 3);
    assert_eq!(state.card_state().deck.len(), 0);
    state.tick(
        vec![Input::SelectCard(1), Input::Direction(CardinalDirection::East)],
        16,
    );
    assert_eq!(state.card_state().hand.len(), 2);
    assert!(state.card_state().hand.len() <= state.card_state().hand.capacity);
    assert_eq!(where_is(&state, state.player_id), Some(Position::new(4, 0)));
}

#[test]
fn turn_counter_counts_committed_changes() {
    let mut state = game(&["#@m.#"], vec![Card::Move; 2], 2);
    assert_eq!(state.game_state.count, 0);
    state.tick(
        vec![Input::SelectCard(0), Input::Direction(CardinalDirection::East)],
        16,
    );
    // one move, then the three components of the pickup are removed
    assert_eq!(state.game_state.count, 4);
    let cell = state.spatial_hash().get(Position::new(2, 0)).unwrap();
    assert_eq!(cell.last_updated, 1);
    let cell = state.spatial_hash().get(Position::new(1, 0)).unwrap();
    assert_eq!(cell.last_updated, 0);
}

#[test]
fn punch_removes_target_and_leaves_a_trace_for_a_while() {
    let mut state = game(&["#@0.#"], vec![Card::Punch; 2], 2);
    let target = state.entity_store().npcs_at(Position::new(2, 0))[0];
    let trace = state.game_state.id_allocator.next;
    let meta = state.tick(
        vec![Input::SelectCard(0), Input::Direction(CardinalDirection::East)],
        16,
    );
    assert_eq!(meta, None);
    assert_eq!(where_is(&state, target), None);
    assert!(!state.entity_store().is_npc(target));
    assert_eq!(where_is(&state, trace), Some(Position::new(2, 0)));
    assert_eq!(
        state.entity_store().get_tile(trace),
        Some(TileInfo::new(TileType::Punch, 4))
    );
    assert_eq!(state.animations, vec![Animation::RemoveEntity(trace, 100)]);
    assert_eq!(state.game_state.id_allocator.next, trace + 1);
    solid_counts_agree(&state);

    // while the animation runs, input is not read
    state.tick(vec![Input::SelectCard(0)], 60);
    assert_eq!(*state.input_state(), InputState::WaitingForCardSelection);
    assert_eq!(state.animations, vec![Animation::RemoveEntity(trace, 40)]);
    assert_eq!(where_is(&state, trace), Some(Position::new(2, 0)));

    state.tick(vec![], 40);
    assert!(state.animations.is_empty());
    assert_eq!(where_is(&state, trace), None);
    assert_eq!(state.entity_store().get_tile(trace), None);

    state.tick(vec![Input::SelectCard(0)], 16);
    assert_eq!(
        *state.input_state(),
        InputState::WaitingForDirection(0, Card::Punch)
    );
    solid_counts_agree(&state);
}

#[test]
fn save_and_restore_draw_the_same() {
    let mut state = State::new(1);
    state.tick(vec![Input::SelectCard(0)], 16);
    let before = drawn(&state);
    let save = state.create_save_state(99);
    assert!(save.is_wf());
    assert_eq!(save.next_rng_seed, 99);
    assert_eq!(save.size, Size::new(10, 10));
    let restored = State::from_save_state(save);
    assert_eq!(drawn(&restored), before);
    assert_eq!(restored.game_state.count, state.game_state.count);
    assert_eq!(restored.player_id, state.player_id);
    assert_eq!(restored.input_state, state.input_state);
    assert_eq!(
        restored.card_state().hand.cards,
        state.card_state().hand.cards
    );
    assert_eq!(
        restored.card_state().deck.cards,
        state.card_state().deck.cards
    );
    assert_eq!(
        restored.game_state.id_allocator,
        state.game_state.id_allocator
    );
    solid_counts_agree(&restored);
}

#[test]
fn restored_game_plays_on() {
    let mut state = game(&["#####", "#@m.#", "#####"], vec![Card::Move; 4], 4);
    state.tick(vec![Input::SelectCard(0)], 16);
    let mut restored = State::from_save_state(state.create_save_state(4));
    restored.tick(vec![Input::Direction(CardinalDirection::East)], 16);
    assert_eq!(
        where_is(&restored, restored.player_id),
        Some(Position::new(2, 1))
    );
    assert_eq!(restored.card_state().deck.len(), 1);
}

#[test]
fn save_state_with_bad_selection_is_not_wf() {
    let state = game(&["#@.#"], vec![Card::Move; 2], 2);
    let mut save = state.create_save_state(0);
    assert!(save.is_wf());
    save.input_state = InputState::WaitingForDirection(5, Card::Move);
    assert!(!save.is_wf());
    save.input_state = InputState::WaitingForDirection(0, Card::Punch);
    assert!(!save.is_wf());
    save.input_state = InputState::WaitingForDirection(0, Card::Move);
    assert!(save.is_wf());
    save.size = Size::new(0, 3);
    assert!(!save.is_wf());
}

#[test]
fn taken_card_joins_the_cards_left_in_the_deck() {
    let mut state = game(&["#@m.#"], vec![Card::Punch, Card::Punch, Card::Move], 1);
    // the hand draws the last card of the shuffled deck; play until the move comes up
    let mut turns = 0;
    while state.card_state().hand.cards != vec![Card::Move] {
        state.tick(
            vec![Input::SelectCard(0), Input::Direction(CardinalDirection::West)],
            1000,
        );
        state.tick(vec![], 1000);
        turns += 1;
        assert!(turns < 3);
    }
    let mut before: Vec<Card> = state.card_state().deck.cards.clone();
    state.tick(
        vec![Input::SelectCard(0), Input::Direction(CardinalDirection::East)],
        16,
    );
    // one card of the deck went to the hand, and the move that was taken came in
    let drawn = state.card_state().hand.cards.clone();
    let mut after: Vec<Card> = state.card_state().deck.cards.clone();
    if let Some(card) = before.pop() {
        assert_eq!(drawn, vec![card]);
    } else {
        assert!(drawn.is_empty());
    }
    before.push(Card::Move);
    let key = |c: &Card| format!("{:?}", c);
    before.sort_by_key(key);
    after.sort_by_key(key);
    assert_eq!(after, before);
}

#[test]
fn cells_bear_the_turn_of_the_last_change_that_touched_them() {
    let mut state = game(&["#@m.#"], vec![Card::Move; 3], 3);
    state.tick(
        vec![Input::SelectCard(0), Input::Direction(CardinalDirection::East)],
        16,
    );
    state.tick(
        vec![Input::SelectCard(0), Input::Direction(CardinalDirection::East)],
        16,
    );
    let stamp = |x: i32| state.spatial_hash().get(Position::new(x, 0)).unwrap().last_updated;
    // turn 0: the move to (2, 0); turns 1 to 3: the pickup goes; turn 4: the move to (3, 0)
    assert_eq!(state.game_state.count, 5);
    assert_eq!(stamp(0), 0);
    assert_eq!(stamp(1), 0);
    assert_eq!(stamp(2), 4);
    assert_eq!(stamp(3), 4);
    assert_eq!(stamp(4), 0);
}
