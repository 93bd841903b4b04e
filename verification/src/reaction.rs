//! Effects that the rules put off until the pending changes have been
//! dealt with.

use crate::animation::Animation;
use crate::card::Card;
use crate::entity_store::EntityChange;
use crate::entity_store::EntityId;
use crate::entity_store::EntityStore;
use crate::entity_store::lemma_is_sorted_ids;
use crate::entity_store::sorted_ids;
use crate::entity_store::StoreView;
use vstd::prelude::*;

verus! {

/// A deferred effect.
#[derive(Clone, Copy, Debug, PartialEq, Eq, Structural)]
pub enum Reaction {
    /// The card goes to the deck and the entity that carried it
    /// disappears.
    TakeCard(EntityId, Card),
    /// The entity loses all its components.
    RemoveEntity(EntityId),
    /// The animation starts to run.
    StartAnimation(Animation),
    /// The change joins the pending changes.
    EntityChange(EntityChange),
}

/// How `id` leaves the game: as a card for the deck where it carries
/// one, plainly otherwise.
pub open spec fn spec_removal(view: StoreView, id: EntityId) -> Reaction {
    if view.card.contains_key(id) {
        Reaction::TakeCard(id, view.card[id])
    } else {
        Reaction::RemoveEntity(id)
    }
}

/// The removals of the entities `ids`, in that order.
pub open spec fn spec_removals(view: StoreView, ids: Seq<EntityId>) -> Seq<Reaction> {
    Seq::new(ids.len(), |i: int| spec_removal(view, ids[i]))
}

/// The removal of each entity of `targets`, by increasing identifier.
pub open spec fn removals_of_each(view: StoreView, targets: Set<EntityId>) -> Seq<Reaction> {
    spec_removals(view, sorted_ids(targets))
}

/// The removals of no entities are none.
pub proof fn lemma_removals_of_none(view: StoreView)
    ensures
        removals_of_each(view, Set::<EntityId>::empty()) == Seq::<Reaction>::empty(),
{
    let none = Seq::<EntityId>::empty();
    assert(none.to_set() =~= Set::<EntityId>::empty());
    lemma_is_sorted_ids(none);
    assert(spec_removals(view, none) =~= Seq::<Reaction>::empty());
}

/// How `id` leaves the game: as a card for the deck where it carries
/// one, plainly otherwise.
pub fn removal(store: &EntityStore, id: EntityId) -> (reaction: Reaction)
    ensures
        reaction == spec_removal(store@, id),
{
    match store.get_card(id) {
        Some(card) => Reaction::TakeCard(id, card),
        None => Reaction::RemoveEntity(id),
    }
}

/// Appends the removal of each of `ids`, in that order.
pub fn push_removals(store: &EntityStore, ids: &Vec<EntityId>, reactions: &mut Vec<Reaction>)
    ensures
        final(reactions)@ == old(reactions)@ + spec_removals(store@, ids@),
{
    let mut k: usize = 0;
    while k < ids.len()
        invariant
            k <= ids@.len(),
            reactions@ == old(reactions)@ + spec_removals(store@, ids@.take(k as int)),
        decreases ids@.len() - k,
    {
        reactions.push(removal(store, ids[k]));
        k = k + 1;
        assert(reactions@ =~= old(reactions)@ + spec_removals(store@, ids@.take(k as int)));
    }
    assert(ids@.take(k as int) =~= ids@);
}

} // verus!
