//! The cards a player can hold and play.

use crate::animation::Animation;
use crate::entity_store::ComponentValue;
use crate::entity_store::EntityChange;
use crate::entity_store::EntityId;
use crate::entity_store::EntityIdAllocator;
use crate::entity_store::EntityStore;
use crate::entity_store::StoreView;
use crate::geometry::CardinalDirection;
use crate::geometry::Position;
use crate::prototypes::punch_changes;
use crate::prototypes;
use crate::reaction::push_removals;
use crate::reaction::Reaction;
use crate::reaction::removals_of_each;
use vstd::prelude::*;

verus! {

/// An action a player can take once, in a direction of their choice.
#[derive(Clone, Copy, Debug, PartialEq, Eq, Structural)]
pub enum Card {
    /// Step one cell.
    Move,
    /// Hit what stands in the next cell.
    Punch,
}

/// How long the trace of a punch stays on the grid.
pub const PUNCH_MILLIS: u64 = 100;

/// The cell next to `id` in `direction`, where `id` has a position and
/// that cell can be named.
pub open spec fn spec_aim(view: StoreView, id: EntityId, direction: CardinalDirection) -> Option<
    Position,
> {
    match view.coord_of(id) {
        Some(from) => if from.can_step(direction) {
            Some(Position { x: from.spec_step(direction).0 as i32, y: from.spec_step(direction).1 as i32 })
        } else {
            None
        },
        None => None,
    }
}

/// The cell next to `id` in `direction`, where `id` has a position and
/// that cell can be named.
pub fn aim(store: &EntityStore, id: EntityId, direction: CardinalDirection) -> (r: Option<Position>)
    ensures
        r == spec_aim(store@, id, direction),
{
    match store.get_coord(id) {
        Some(from) => from.step(direction),
        None => None,
    }
}

impl Card {
    /// Whether playing this card has any effect: the actor must aim at
    /// a cell, and a punch needs a fresh identifier for its trace.
    pub open spec fn takes_effect(
        self,
        view: StoreView,
        id: EntityId,
        direction: CardinalDirection,
        ids: EntityIdAllocator,
    ) -> bool {
        spec_aim(view, id, direction) is Some && (self == Card::Punch ==> ids.spec_has_next())
    }

    /// The changes that playing this card proposes.
    pub open spec fn spec_changes(
        self,
        view: StoreView,
        id: EntityId,
        direction: CardinalDirection,
        ids: EntityIdAllocator,
    ) -> Seq<EntityChange> {
        if self.takes_effect(view, id, direction, ids) {
            let to = spec_aim(view, id, direction)->0;
            match self {
                Card::Move => seq![EntityChange::Insert(id, ComponentValue::Coord(to))],
                Card::Punch => punch_changes(ids.next, to),
            }
        } else {
            Seq::empty()
        }
    }

    /// The reactions that playing this card asks for: a punch starts
    /// the animation that takes its trace away, and asks for the removal
    /// of each actor in the cell aimed at that is not solid, by
    /// increasing identifier.
    pub open spec fn spec_reactions(
        self,
        view: StoreView,
        id: EntityId,
        direction: CardinalDirection,
        ids: EntityIdAllocator,
    ) -> Seq<Reaction> {
        if self == Card::Punch && self.takes_effect(view, id, direction, ids) {
            seq![Reaction::StartAnimation(Animation::RemoveEntity(ids.next, PUNCH_MILLIS))]
                + removals_of_each(view, view.target_at(spec_aim(view, id, direction)->0))
        } else {
            Seq::empty()
        }
    }

    /// Proposes the effect of this card, played by `entity_id` in
    /// `direction`. Nothing is committed here.
    ///
    /// A move proposes to put the actor into the cell it aims at. A
    /// punch proposes its own trace in that cell, starts the animation
    /// that will take the trace away again, and asks for the removal of
    /// every actor in that cell that is not solid.
    pub fn play(
        self,
        entity_id: EntityId,
        entity_store: &EntityStore,
        direction: CardinalDirection,
        id_allocator: &mut EntityIdAllocator,
        changes: &mut Vec<EntityChange>,
        reactions: &mut Vec<Reaction>,
    )
        ensures
            final(changes)@ == old(changes)@ + self.spec_changes(
                entity_store@,
                entity_id,
                direction,
                *old(id_allocator),
            ),
            final(id_allocator).next == (if self == Card::Punch && self.takes_effect(
                entity_store@,
                entity_id,
                direction,
                *old(id_allocator),
            ) {
                (old(id_allocator).next + 1) as u64
            } else {
                old(id_allocator).next
            }),
            final(reactions)@ == old(reactions)@ + self.spec_reactions(
                entity_store@,
                entity_id,
                direction,
                *old(id_allocator),
            ),
    {
        match aim(entity_store, entity_id, direction) {
            Some(to) => {
                match self {
                    Card::Move => {
                        changes.push(EntityChange::Insert(entity_id, ComponentValue::Coord(to)));
                        assert(changes@ =~= old(changes)@ + seq![
                            EntityChange::Insert(entity_id, ComponentValue::Coord(to)),
                        ]);
                        assert(reactions@ =~= old(reactions)@ + Seq::<Reaction>::empty());
                    },
                    Card::Punch => {
                        if id_allocator.has_next() {
                            let trace: EntityId = id_allocator.allocate();
                            prototypes::punch(trace, to, changes);
                            reactions.push(
                                Reaction::StartAnimation(
                                    Animation::RemoveEntity(trace, PUNCH_MILLIS),
                                ),
                            );
                            let targets = entity_store.targets_at(to);
                            push_removals(entity_store, &targets, reactions);
                            assert(reactions@ =~= old(reactions)@ + self.spec_reactions(
                                entity_store@,
                                entity_id,
                                direction,
                                *old(id_allocator),
                            ));
                        } else {
                            assert(changes@ =~= old(changes)@ + Seq::<EntityChange>::empty());
                            assert(reactions@ =~= old(reactions)@ + Seq::<Reaction>::empty());
                        }
                    },
                }
            },
            None => {
                assert(changes@ =~= old(changes)@ + Seq::<EntityChange>::empty());
                assert(reactions@ =~= old(reactions)@ + Seq::<Reaction>::empty());
            },
        }
    }
}

} // verus!
