//! The player's deck and hand.

use crate::card::Card;
use crate::random::index_below;
use crate::random::shuffle_cards;
use rand::StdRng;
use vstd::prelude::*;

verus! {

/// A position in the hand.
pub type HandIndex = usize;

/// The cards that have not been drawn. The last card is drawn first.
pub struct Deck {
    pub cards: Vec<Card>,
}

/// The cards that have been drawn, in the order in which they were
/// drawn, and how many the hand can hold.
pub struct Hand {
    pub cards: Vec<Card>,
    pub capacity: usize,
}

/// A deck and the hand that draws from it.
pub struct CardState {
    pub deck: Deck,
    pub hand: Hand,
}

/// The first `n` cards drawn from `deck`: its last `n` cards, the last
/// one first.
pub open spec fn drawn(deck: Seq<Card>, n: int) -> Seq<Card>
    recommends
        0 <= n <= deck.len(),
{
    Seq::new(n as nat, |i: int| deck[deck.len() - 1 - i])
}

/// How many cards a hand of `hand_len` cards that can hold `capacity`
/// draws from a deck of `deck_len` cards.
pub open spec fn draw_count(deck_len: int, hand_len: int, capacity: int) -> int {
    if hand_len >= capacity {
        0
    } else if capacity - hand_len <= deck_len {
        capacity - hand_len
    } else {
        deck_len
    }
}

/// What is left of `deck` after a hand holding `hand`, which can hold
/// `capacity` cards, has drawn all it can.
pub open spec fn filled_deck(deck: Seq<Card>, hand: Seq<Card>, capacity: int) -> Seq<Card> {
    deck.take(deck.len() - draw_count(deck.len() as int, hand.len() as int, capacity))
}

/// What a hand holding `hand`, which can hold `capacity` cards, holds
/// after it has drawn all it can from `deck`.
pub open spec fn filled_hand(deck: Seq<Card>, hand: Seq<Card>, capacity: int) -> Seq<Card> {
    hand + drawn(deck, draw_count(deck.len() as int, hand.len() as int, capacity))
}

/// A copy of a list of cards.
pub fn copy_cards(cards: &Vec<Card>) -> (copy: Vec<Card>)
    ensures
        copy@ == cards@,
{
    let mut copy: Vec<Card> = Vec::new();
    let mut k: usize = 0;
    while k < cards.len()
        invariant
            k <= cards@.len(),
            copy@ == cards@.take(k as int),
        decreases cards@.len() - k,
    {
        copy.push(cards[k]);
        k = k + 1;
        assert(copy@ =~= cards@.take(k as int));
    }
    assert(cards@.take(k as int) =~= cards@);
    copy
}

impl Deck {
    pub fn new(cards: Vec<Card>) -> (deck: Deck)
        ensures
            deck.cards@ == cards@,
    {
        Deck { cards }
    }

    pub fn len(&self) -> (n: usize)
        ensures
            n == self.cards@.len(),
    {
        self.cards.len()
    }

    pub fn is_empty(&self) -> (b: bool)
        ensures
            b == (self.cards@.len() == 0),
    {
        self.cards.len() == 0
    }

    /// Takes the last card off the deck.
    pub fn draw(&mut self) -> (card: Option<Card>)
        ensures
            old(self).cards@.len() == 0 ==> card is None && final(self).cards@ == old(self).cards@,
            old(self).cards@.len() > 0 ==> card == Some(old(self).cards@.last()) && final(self).cards@ == old(self).cards@.drop_last(),
    {
        self.cards.pop()
    }

    /// Puts `card` into the deck so that `position` cards lie before it.
    pub fn add_at(&mut self, card: Card, position: usize)
        requires
            position <= old(self).cards@.len(),
        ensures
            final(self).cards@ == old(self).cards@.insert(position as int, card),
            final(self).cards@.to_multiset() == old(self).cards@.to_multiset().insert(card),
    {
        proof {
            vstd::seq_lib::to_multiset_insert(self.cards@, position as int, card);
        }
        self.cards.insert(position, card);
    }

    /// Puts `card` into the deck at a position drawn from `rng`.
    pub fn add_random(&mut self, card: Card, rng: &mut StdRng)
        ensures
            exists|position: int|
                0 <= position <= old(self).cards@.len() && final(self).cards@ == old(self).cards@.insert(position, card),
            final(self).cards@.to_multiset() == old(self).cards@.to_multiset().insert(card),
    {
        if self.cards.len() < usize::MAX {
            let position = index_below(rng, self.cards.len() + 1);
            self.add_at(card, position);
        } else {
            self.add_at(card, 0);
        }
    }
}

impl Hand {
    pub fn new(capacity: usize) -> (hand: Hand)
        ensures
            hand.cards@ == Seq::<Card>::empty(),
            hand.capacity == capacity,
    {
        Hand { cards: Vec::new(), capacity }
    }

    pub fn len(&self) -> (n: usize)
        ensures
            n == self.cards@.len(),
    {
        self.cards.len()
    }

    pub fn is_empty(&self) -> (b: bool)
        ensures
            b == (self.cards@.len() == 0),
    {
        self.cards.len() == 0
    }

    /// The card at `index`, if the hand has that many cards.
    pub fn get(&self, index: HandIndex) -> (card: Option<Card>)
        ensures
            card == (if index < self.cards@.len() {
                Some(self.cards@[index as int])
            } else {
                None
            }),
    {
        if index < self.cards.len() {
            Some(self.cards[index])
        } else {
            None
        }
    }

    /// Takes the card at `index` out of the hand. The cards after it
    /// move up by one position.
    pub fn remove_card(&mut self, index: HandIndex) -> (card: Card)
        requires
            index < old(self).cards@.len(),
        ensures
            card == old(self).cards@[index as int],
            final(self).cards@ == old(self).cards@.remove(index as int),
            final(self).capacity == old(self).capacity,
    {
        self.cards.remove(index)
    }
}

impl CardState {
    /// The hand holds no more cards than it can.
    pub open spec fn wf(&self) -> bool {
        self.hand.cards@.len() <= self.hand.capacity
    }

    /// The deck after the hand has drawn all it can.
    pub open spec fn spec_filled_deck(&self) -> Seq<Card> {
        filled_deck(self.deck.cards@, self.hand.cards@, self.hand.capacity as int)
    }

    /// The hand after it has drawn all it can.
    pub open spec fn spec_filled_hand(&self) -> Seq<Card> {
        filled_hand(self.deck.cards@, self.hand.cards@, self.hand.capacity as int)
    }

    /// A card state whose deck is `cards`, last card on top, after the
    /// hand has drawn up to `hand_size` cards from it.
    pub fn deal(cards: Vec<Card>, hand_size: usize) -> (state: CardState)
        ensures
            state.wf(),
            state.hand.capacity == hand_size,
            state.deck.cards@ == cards@.take(
                cards@.len() - draw_count(cards@.len() as int, 0, hand_size as int),
            ),
            state.hand.cards@ == drawn(cards@, draw_count(cards@.len() as int, 0, hand_size as int)),
    {
        let mut state = CardState { deck: Deck::new(cards), hand: Hand::new(hand_size) };
        state.fill_hand();
        assert(state.hand.cards@ =~= drawn(
            cards@,
            draw_count(cards@.len() as int, 0, hand_size as int),
        ));
        state
    }

    /// Shuffles `cards` with `rng` and deals them.
    pub fn new(cards: Vec<Card>, hand_size: usize, rng: &mut StdRng) -> (state: CardState)
        ensures
            state.wf(),
            state.hand.capacity == hand_size,
            state.hand.cards@.len() == draw_count(cards@.len() as int, 0, hand_size as int),
            state.hand.cards@.len() + state.deck.cards@.len() == cards@.len(),
            exists|order: Seq<Card>|
                #![trigger order.to_multiset()]
                {
                    &&& order.to_multiset() == cards@.to_multiset()
                    &&& state.deck.cards@ == order.take(
                        order.len() - draw_count(order.len() as int, 0, hand_size as int),
                    )
                    &&& state.hand.cards@ == drawn(
                        order,
                        draw_count(order.len() as int, 0, hand_size as int),
                    )
                },
    {
        let mut order = cards;
        shuffle_cards(rng, &mut order);
        proof {
            order@.to_multiset_ensures();
            cards@.to_multiset_ensures();
        }
        let state = CardState::deal(order, hand_size);
        state
    }

    /// A copy of this card state.
    pub fn duplicate(&self) -> (copy: CardState)
        ensures
            copy.deck.cards@ == self.deck.cards@,
            copy.hand.cards@ == self.hand.cards@,
            copy.hand.capacity == self.hand.capacity,
    {
        CardState {
            deck: Deck { cards: copy_cards(&self.deck.cards) },
            hand: Hand { cards: copy_cards(&self.hand.cards), capacity: self.hand.capacity },
        }
    }

    /// Draws cards from the deck into the hand until the hand is full or
    /// the deck is empty.
    pub fn fill_hand(&mut self)
        ensures
            final(self).hand.capacity == old(self).hand.capacity,
            final(self).deck.cards@ == old(self).spec_filled_deck(),
            final(self).hand.cards@ == old(self).spec_filled_hand(),
            old(self).wf() ==> final(self).wf(),
    {
        let ghost deck = self.deck.cards@;
        let ghost hand = self.hand.cards@;
        let ghost n = draw_count(deck.len() as int, hand.len() as int, self.hand.capacity as int);
        let mut k: usize = 0;
        while self.hand.cards.len() < self.hand.capacity && self.deck.cards.len() > 0
            invariant
                self.hand.capacity == old(self).hand.capacity,
                n == draw_count(
                    deck.len() as int,
                    hand.len() as int,
                    self.hand.capacity as int,
                ),
                0 <= k <= n <= deck.len(),
                self.deck.cards@ == deck.take(deck.len() - k),
                self.hand.cards@ == hand + drawn(deck, k as int),
                k < n <==> self.hand.cards@.len() < self.hand.capacity && self.deck.cards@.len() > 0,
            decreases n - k,
        {
            let card = self.deck.cards.pop();
            match card {
                Some(c) => {
                    self.hand.cards.push(c);
                },
                None => {},
            }
            k = k + 1;
            assert(self.deck.cards@ =~= deck.take(deck.len() - k));
            assert(self.hand.cards@ =~= hand + drawn(deck, k as int));
        }
    }
}

/// Once a hand that held no more than it can has drawn all it can, it
/// still holds no more than it can; it is full unless the deck has run
/// out; and no card has been lost or made.
pub proof fn lemma_fill_hand(deck: Seq<Card>, hand: Seq<Card>, capacity: int)
    requires
        hand.len() <= capacity,
    ensures
        filled_hand(deck, hand, capacity).len() <= capacity,
        filled_hand(deck, hand, capacity).len() == capacity || filled_deck(
            deck,
            hand,
            capacity,
        ).len() == 0,
        filled_hand(deck, hand, capacity).len() + filled_deck(deck, hand, capacity).len()
            == hand.len() + deck.len(),
{
}

/// After a card has been played from a hand that held no more than it
/// can, and the hand has been filled again, the hand holds no more than
/// it can, and it is full if the deck still has cards.
pub proof fn lemma_hand_after_play(deck: Seq<Card>, hand: Seq<Card>, capacity: int, index: int)
    requires
        hand.len() <= capacity,
        0 <= index < hand.len(),
    ensures
        filled_hand(deck, hand.remove(index), capacity).len() <= capacity,
        filled_deck(deck, hand.remove(index), capacity).len() > 0 ==> filled_hand(
            deck,
            hand.remove(index),
            capacity,
        ).len() == capacity,
        hand.len() == capacity && deck.len() > 0 ==> filled_hand(
            deck,
            hand.remove(index),
            capacity,
        ).len() == capacity,
{
    lemma_fill_hand(deck, hand.remove(index), capacity);
}

} // verus!
