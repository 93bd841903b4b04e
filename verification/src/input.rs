//! What the player can ask of the engine.

use crate::card_state::HandIndex;
use crate::geometry::CardinalDirection;
use vstd::prelude::*;

verus! {

/// One input event.
#[derive(Clone, Copy, Debug, PartialEq, Eq, Structural)]
pub enum Input {
    /// Pick the card at this position of the hand.
    SelectCard(HandIndex),
    /// Play the picked card in this direction.
    Direction(CardinalDirection),
}

} // verus!
