//! The rules that decide whether a proposed change may be committed.

use crate::entity_store::ComponentValue;
use crate::entity_store::EntityChange;
use crate::entity_store::EntityId;
use crate::entity_store::EntityStore;
use crate::entity_store::StoreView;
use crate::geometry::Size;
use crate::reaction::lemma_removals_of_none;
use crate::reaction::push_removals;
use crate::reaction::Reaction;
use crate::reaction::removals_of_each;
use crate::spatial_hash::SpatialHashTable;
use vstd::prelude::*;

verus! {

/// Whether `change` may be committed to `view` on a grid of `size`.
///
/// Only changes of position are ever refused: one that leads off the
/// grid, and one that moves an entity, which already has a position,
/// into a cell that holds something solid.
pub open spec fn accepts(change: EntityChange, view: StoreView, size: Size) -> bool {
    match change {
        EntityChange::Insert(id, ComponentValue::Coord(to)) => size.contains(to) && !(
        view.coord.contains_key(id) && view.solid_at(to).len() > 0),
        _ => true,
    }
}

/// The changes among `changes` that get committed when they are
/// validated in order, each one that is accepted being committed before
/// the next is validated, and no more than `headroom` being committed.
pub open spec fn resolved(
    view: StoreView,
    size: Size,
    changes: Seq<EntityChange>,
    headroom: nat,
) -> Seq<EntityChange>
    decreases changes.len(),
{
    if changes.len() == 0 {
        Seq::empty()
    } else {
        let before = resolved(view, size, changes.drop_last(), headroom);
        if before.len() < headroom && accepts(changes.last(), view.replay(before), size) {
            before.push(changes.last())
        } else {
            before
        }
    }
}

/// The card pickups that `change` makes a player walk onto.
pub open spec fn picked_up(change: EntityChange, view: StoreView, size: Size) -> Set<EntityId> {
    match change {
        EntityChange::Insert(id, ComponentValue::Coord(to)) => if accepts(change, view, size)
            && view.player.contains(id) {
            view.card_at(to)
        } else {
            Set::empty()
        },
        _ => Set::empty(),
    }
}

/// The reactions that validating `change` emits: each card pickup that
/// it makes a player walk onto is taken, by increasing identifier.
pub open spec fn pickups(change: EntityChange, view: StoreView, size: Size) -> Seq<Reaction> {
    removals_of_each(view, picked_up(change, view, size))
}

/// The reactions that validating `changes` in order emits, each change
/// that is accepted being committed before the next is validated, and
/// validation ending once `headroom` changes have been committed.
pub open spec fn emitted(
    view: StoreView,
    size: Size,
    changes: Seq<EntityChange>,
    headroom: nat,
) -> Seq<Reaction>
    decreases changes.len(),
{
    if changes.len() == 0 {
        Seq::empty()
    } else {
        let before = resolved(view, size, changes.drop_last(), headroom);
        let so_far = emitted(view, size, changes.drop_last(), headroom);
        if before.len() < headroom {
            so_far + pickups(changes.last(), view.replay(before), size)
        } else {
            so_far
        }
    }
}

/// Decides whether `change` may be committed, and appends to
/// `reactions` what follows from it: each card pickup in the cell that
/// a player enters is taken. Neither the store nor the index is
/// altered.
pub fn check(
    change: &EntityChange,
    entity_store: &EntityStore,
    spatial_hash: &SpatialHashTable,
    reactions: &mut Vec<Reaction>,
) -> (accepted: bool)
    requires
        spatial_hash.reflects(entity_store@),
    ensures
        accepted == accepts(*change, entity_store@, spatial_hash.size),
        final(reactions)@ == old(reactions)@ + pickups(*change, entity_store@, spatial_hash.size),
        forall|i: int|
            old(reactions)@.len() <= i < final(reactions)@.len() ==> (
            #[trigger] final(reactions)@[i]) is TakeCard,
{
    let ghost view = entity_store@;
    proof {
        lemma_removals_of_none(view);
    }
    match *change {
        EntityChange::Insert(id, ComponentValue::Coord(to)) => {
            match spatial_hash.get(to) {
                Some(cell) => {
                    if entity_store.get_coord(id).is_some() && cell.solid_count > 0 {
                        assert(reactions@ =~= old(reactions)@ + Seq::<Reaction>::empty());
                        false
                    } else if entity_store.is_player(id) {
                        let found = entity_store.cards_at(to);
                        push_removals(entity_store, &found, reactions);
                        proof {
                            let taken = pickups(*change, view, spatial_hash.size);
                            assert forall|i: int|
                                old(reactions)@.len() <= i < reactions@.len() implies (
                            #[trigger] reactions@[i]) is TakeCard by {
                                let k = i - old(reactions)@.len();
                                assert(reactions@[i] == taken[k]);
                                assert(found@.to_set().contains(found@[k]));
                            }
                        }
                        true
                    } else {
                        assert(reactions@ =~= old(reactions)@ + Seq::<Reaction>::empty());
                        true
                    }
                },
                None => {
                    assert(reactions@ =~= old(reactions)@ + Seq::<Reaction>::empty());
                    false
                },
            }
        },
        _ => {
            assert(reactions@ =~= old(reactions)@ + Seq::<Reaction>::empty());
            true
        },
    }
}

} // verus!
