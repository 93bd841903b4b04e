use punchcards::animation::Animation;
use punchcards::card::aim;
use punchcards::card::Card;
use punchcards::card::PUNCH_MILLIS;
use punchcards::card_state::copy_cards;
use punchcards::card_state::CardState;
use punchcards::card_state::Deck;
use punchcards::card_state::Hand;
use punchcards::entity_store::ComponentValue;
use punchcards::entity_store::EntityChange;
use punchcards::entity_store::EntityIdAllocator;
use punchcards::geometry::CardinalDirection;
use punchcards::geometry::Position;
use punchcards::reaction::Reaction;
use punchcards::state::State;
use punchcards::tile::TileInfo;
use punchcards::tile::TileType;

fn sorted(mut cards: Vec<Card>) -> Vec<u8> {
    let mut keys: Vec<u8> = cards
        .drain(..)
        .map(|c| match c {
            Card::Move => 0,
            Card::Punch => 1,
        })
        .collect();
    keys.sort();
    keys
}

#[test]
fn deal_draws_from_the_end_of_the_deck() {
    let state = CardState::deal(
        vec![Card::Move, Card::Move, Card::Punch, Card::Move, Card::Punch],
        2,
    );
    assert_eq!(state.hand.cards, vec![Card::Punch, Card::Move]);
    assert_eq!(state.deck.cards, vec![Card::Move, Card::Move, Card::Punch]);
    assert_eq!(state.hand.capacity, 2);
}

#[test]
fn deal_with_short_deck_draws_it_all() {
    let state = CardState::deal(vec![Card::Move, Card::Punch], 5);
    assert_eq!(state.hand.cards, vec![Card::Punch, Card::Move]);
    assert!(state.deck.is_empty());
    let state = CardState::deal(vec![Card::Move], 0);
    assert!(state.hand.is_empty());
    assert_eq!(state.deck.len(), 1);
}

#[test]
fn fill_hand_stops_at_capacity() {
    let mut state = CardState {
        deck: Deck::new(vec![Card::Move, Card::Punch, Card::Punch]),
        hand: Hand::new(3),
    };
    state.hand.cards.push(Card::Move);
    state.fill_hand();
    assert_eq!(state.hand.cards, vec![Card::Move, Card::Punch, Card::Punch]);
    assert_eq!(state.deck.cards, vec![Card::Move]);
    state.fill_hand();
    assert_eq!(state.hand.len(), 3);
    assert_eq!(state.deck.len(), 1);
}

#[test]
fn remove_card_shifts_later_cards() {
    let mut hand = Hand::new(3);
    hand.cards = vec![Card::Move, Card::Punch, Card::Move];
    assert_eq!(hand.get(1), Some(Card::Punch));
    assert_eq!(hand.get(3), None);
    assert_eq!(hand.remove_card(1), Card::Punch);
    assert_eq!(hand.cards, vec![Card::Move, Card::Move]);
    assert_eq!(hand.capacity, 3);
}

#[test]
fn deck_draw_and_add_at() {
    let mut deck = Deck::new(vec![Card::Move, Card::Punch]);
    deck.add_at(Card::Punch, 0);
    assert_eq!(deck.cards, vec![Card::Punch, Card::Move, Card::Punch]);
    deck.add_at(Card::Move, 3);
    assert_eq!(deck.draw(), Some(Card::Move));
    assert_eq!(deck.draw(), Some(Card::Punch));
    assert_eq!(deck.len(), 2);
    let mut empty = Deck::new(vec![]);
    assert_eq!(empty.draw(), None);
}

#[test]
fn shuffled_deal_keeps_every_card() {
    let cards = vec![
        Card::Punch,
        Card::Punch,
        Card::Punch,
        Card::Move,
        Card::Move,
        Card::Move,
        Card::Move,
    ];
    let state = State::from_level(&vec!["@"], cards.clone(), 3, 1234).unwrap();
    let cs = state.card_state();
    assert_eq!(cs.hand.len(), 3);
    assert_eq!(cs.deck.len(), 4);
    let mut all = cs.hand.cards.clone();
    all.extend(cs.deck.cards.iter().copied());
    assert_eq!(sorted(all), sorted(cards));
}

#[test]
fn some_seed_changes_the_order() {
    let cards = vec![
        Card::Punch,
        Card::Move,
        Card::Punch,
        Card::Move,
        Card::Punch,
        Card::Move,
        Card::Punch,
        Card::Move,
    ];
    let deals: Vec<Vec<Card>> = (0..8)
        .map(|seed| {
            let state = State::from_level(&vec!["@"], cards.clone(), 0, seed).unwrap();
            state.card_state().deck.cards.clone()
        })
        .collect();
    assert!(deals.iter().any(|d| *d != cards));
}

#[test]
fn taken_card_lands_somewhere_in_the_deck() {
    for seed in 0..6 {
        let mut state = State::from_level(
            &vec!["@m"],
            vec![Card::Punch, Card::Move, Card::Punch],
            1,
            seed,
        )
        .unwrap();
        // whichever card came up, a punch east misses and a move east
        // picks the card up; play until the move has been played
        let mut guard = 0;
        while !state.entity_store().cards_at(Position::new(1, 0)).is_empty() {
            state.tick(
                vec![
                    punchcards::input::Input::SelectCard(0),
                    punchcards::input::Input::Direction(CardinalDirection::East),
                ],
                1000,
            );
            state.tick(vec![], 1000);
            guard += 1;
            assert!(guard < 4);
        }
        let cs = state.card_state();
        let mut all = cs.hand.cards.clone();
        all.extend(cs.deck.cards.iter().copied());
        let moves = all.iter().filter(|c| **c == Card::Move).count();
        assert_eq!(moves, 1, "the move played is gone, the move taken is there");
    }
}

#[test]
fn duplicate_copies_deck_and_hand() {
    let state = CardState::deal(vec![Card::Move, Card::Punch, Card::Move], 2);
    let copy = state.duplicate();
    assert_eq!(copy.deck.cards, state.deck.cards);
    assert_eq!(copy.hand.cards, state.hand.cards);
    assert_eq!(copy.hand.capacity, 2);
    assert_eq!(copy_cards(&vec![Card::Punch]), vec![Card::Punch]);
}

#[test]
fn move_proposes_a_step() {
    let state = State::from_level(&vec!["#@.#"], vec![Card::Move], 1, 0).unwrap();
    let store = state.entity_store();
    let mut ids = EntityIdAllocator { next: 40 };
    let mut changes = Vec::new();
    let mut reactions = Vec::new();
    Card::Move.play(
        state.player_id,
        store,
        CardinalDirection::West,
        &mut ids,
        &mut changes,
        &mut reactions,
    );
    assert_eq!(
        changes,
        vec![EntityChange::Insert(
            state.player_id,
            ComponentValue::Coord(Position::new(0, 0))
        )]
    );
    assert!(reactions.is_empty());
    assert_eq!(ids.next, 40);
    assert_eq!(
        aim(store, state.player_id, CardinalDirection::East),
        Some(Position::new(2, 0))
    );
    assert_eq!(aim(store, 999, CardinalDirection::East), None);
}

#[test]
fn card_played_by_nobody_does_nothing() {
    let state = State::from_level(&vec!["#@.#"], vec![Card::Move], 1, 0).unwrap();
    let mut ids = EntityIdAllocator { next: 40 };
    let mut changes = Vec::new();
    let mut reactions = Vec::new();
    for card in [Card::Move, Card::Punch] {
        card.play(
            999,
            state.entity_store(),
            CardinalDirection::East,
            &mut ids,
            &mut changes,
            &mut reactions,
        );
    }
    assert!(changes.is_empty());
    assert!(reactions.is_empty());
    assert_eq!(ids.next, 40);
}

#[test]
fn punch_proposes_trace_animation_and_removals() {
    let state = State::from_level(&vec!["#@0#"], vec![Card::Punch], 1, 0).unwrap();
    let target = state.entity_store().npcs_at(Position::new(2, 0))[0];
    let mut ids = EntityIdAllocator { next: 40 };
    let mut changes = Vec::new();
    let mut reactions = Vec::new();
    Card::Punch.play(
        state.player_id,
        state.entity_store(),
        CardinalDirection::East,
        &mut ids,
        &mut changes,
        &mut reactions,
    );
    assert_eq!(
        changes,
        vec![
            EntityChange::Insert(
                40,
                ComponentValue::Tile(TileInfo::new(TileType::Punch, 4))
            ),
            EntityChange::Insert(40, ComponentValue::Coord(Position::new(2, 0))),
        ]
    );
    assert_eq!(
        reactions,
        vec![
            Reaction::StartAnimation(Animation::RemoveEntity(40, PUNCH_MILLIS)),
            Reaction::RemoveEntity(target),
        ]
    );
    assert_eq!(ids.next, 41);
}

#[test]
fn punch_without_fresh_id_does_nothing() {
    let state = State::from_level(&vec!["#@0#"], vec![Card::Punch], 1, 0).unwrap();
    let mut ids = EntityIdAllocator { next: u64::MAX };
    let mut changes = Vec::new();
    let mut reactions = Vec::new();
    Card::Punch.play(
        state.player_id,
        state.entity_store(),
        CardinalDirection::East,
        &mut ids,
        &mut changes,
        &mut reactions,
    );
    assert!(changes.is_empty());
    assert!(reactions.is_empty());
    assert_eq!(ids.next, u64::MAX);
}

#[test]
fn animation_steps_down_and_ends() {
    let mut reactions = Vec::new();
    let animation = Animation::RemoveEntity(9, 100);
    assert_eq!(animation.remaining_millis(), 100);
    animation.step(30, &mut reactions);
    animation.step(100, &mut reactions);
    animation.step(250, &mut reactions);
    assert_eq!(
        reactions,
        vec![
            Reaction::StartAnimation(Animation::RemoveEntity(9, 70)),
            Reaction::RemoveEntity(9),
            Reaction::RemoveEntity(9),
        ]
    );
}
