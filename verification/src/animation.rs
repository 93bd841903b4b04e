//! Timed effects that keep the player waiting while they run.

use crate::entity_store::EntityId;
use crate::reaction::Reaction;
use vstd::prelude::*;

verus! {

/// An effect that takes time. While any is running the engine does not
/// read input.
#[derive(Clone, Copy, Debug, PartialEq, Eq, Structural)]
pub enum Animation {
    /// The entity disappears once the given number of milliseconds has
    /// passed.
    RemoveEntity(EntityId, u64),
}

impl Animation {
    /// How many milliseconds this animation still has to run.
    pub open spec fn spec_remaining_millis(self) -> u64 {
        match self {
            Animation::RemoveEntity(_, remaining) => remaining,
        }
    }

    /// What stepping this animation by `period_millis` emits: the rest
    /// of the animation while time remains, its final effect otherwise.
    pub open spec fn spec_step(self, period_millis: u64) -> Reaction {
        match self {
            Animation::RemoveEntity(id, remaining) => if period_millis < remaining {
                Reaction::StartAnimation(
                    Animation::RemoveEntity(id, (remaining - period_millis) as u64),
                )
            } else {
                Reaction::RemoveEntity(id)
            },
        }
    }

    pub fn remaining_millis(&self) -> (millis: u64)
        ensures
            millis == self.spec_remaining_millis(),
    {
        match self {
            Animation::RemoveEntity(_, remaining) => *remaining,
        }
    }

    /// Lets `period_millis` pass. An animation with time left over asks
    /// to be started again with what is left; one that runs out emits
    /// its final effect.
    pub fn step(self, period_millis: u64, reactions: &mut Vec<Reaction>)
        ensures
            final(reactions)@ == old(reactions)@.push(self.spec_step(period_millis)),
    {
        match self {
            Animation::RemoveEntity(id, remaining) => {
                if period_millis < remaining {
                    reactions.push(
                        Reaction::StartAnimation(
                            Animation::RemoveEntity(id, remaining - period_millis),
                        ),
                    );
                } else {
                    reactions.push(Reaction::RemoveEntity(id));
                }
            },
        }
    }
}

} // verus!
