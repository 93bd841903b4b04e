//! The changes that bring each kind of entity into being.

use crate::card::Card;
use crate::entity_store::ComponentValue;
use crate::entity_store::EntityChange;
use crate::entity_store::EntityId;
use crate::geometry::Position;
use crate::tile::TileInfo;
use crate::tile::TileType;
use vstd::prelude::*;

verus! {

/// The changes that make `id` a wall at `coord`.
pub open spec fn wall_changes(id: EntityId, coord: Position) -> Seq<EntityChange> {
    seq![
        EntityChange::Insert(id, ComponentValue::Coord(coord)),
        EntityChange::Insert(id, ComponentValue::Solid),
        EntityChange::Insert(id, ComponentValue::Tile(TileInfo { typ: TileType::Wall, depth: 2 })),
    ]
}

/// The changes that make `id` a piece of floor at `coord`.
pub open spec fn floor_changes(id: EntityId, coord: Position) -> Seq<EntityChange> {
    seq![
        EntityChange::Insert(id, ComponentValue::Coord(coord)),
        EntityChange::Insert(id, ComponentValue::Tile(TileInfo { typ: TileType::Floor, depth: 1 })),
    ]
}

/// The changes that make `id` a pickup of `card` at `coord`, drawn as
/// `tile`.
pub open spec fn card_changes(id: EntityId, coord: Position, card: Card, tile: TileType) -> Seq<
    EntityChange,
> {
    seq![
        EntityChange::Insert(id, ComponentValue::Coord(coord)),
        EntityChange::Insert(id, ComponentValue::Card(card)),
        EntityChange::Insert(id, ComponentValue::Tile(TileInfo { typ: tile, depth: 2 })),
    ]
}

/// The changes that make `id` a target dummy at `coord`.
pub open spec fn target_dummy_changes(id: EntityId, coord: Position) -> Seq<EntityChange> {
    seq![
        EntityChange::Insert(id, ComponentValue::Coord(coord)),
        EntityChange::Insert(id, ComponentValue::Npc),
        EntityChange::Insert(
            id,
            ComponentValue::Tile(TileInfo { typ: TileType::TargetDummy, depth: 3 }),
        ),
    ]
}

/// The changes that make `id` a player standing at `coord`.
pub open spec fn player_changes(id: EntityId, coord: Position) -> Seq<EntityChange> {
    seq![
        EntityChange::Insert(id, ComponentValue::Coord(coord)),
        EntityChange::Insert(id, ComponentValue::Player),
        EntityChange::Insert(
            id,
            ComponentValue::Tile(TileInfo { typ: TileType::Player, depth: 3 }),
        ),
    ]
}

/// The changes that make `id` the trace of a punch at `coord`.
pub open spec fn punch_changes(id: EntityId, coord: Position) -> Seq<EntityChange> {
    seq![
        EntityChange::Insert(id, ComponentValue::Tile(TileInfo { typ: TileType::Punch, depth: 4 })),
        EntityChange::Insert(id, ComponentValue::Coord(coord)),
    ]
}

pub fn wall(id: EntityId, coord: Position, changes: &mut Vec<EntityChange>)
    ensures
        final(changes)@ == old(changes)@ + wall_changes(id, coord),
{
    changes.push(EntityChange::Insert(id, ComponentValue::Coord(coord)));
    changes.push(EntityChange::Insert(id, ComponentValue::Solid));
    changes.push(
        EntityChange::Insert(id, ComponentValue::Tile(TileInfo { typ: TileType::Wall, depth: 2 })),
    );
    assert(changes@ =~= old(changes)@ + wall_changes(id, coord));
}

pub fn floor(id: EntityId, coord: Position, changes: &mut Vec<EntityChange>)
    ensures
        final(changes)@ == old(changes)@ + floor_changes(id, coord),
{
    changes.push(EntityChange::Insert(id, ComponentValue::Coord(coord)));
    changes.push(
        EntityChange::Insert(id, ComponentValue::Tile(TileInfo { typ: TileType::Floor, depth: 1 })),
    );
    assert(changes@ =~= old(changes)@ + floor_changes(id, coord));
}

pub fn card(id: EntityId, coord: Position, card: Card, tile: TileType, changes: &mut Vec<EntityChange>)
    ensures
        final(changes)@ == old(changes)@ + card_changes(id, coord, card, tile),
{
    changes.push(EntityChange::Insert(id, ComponentValue::Coord(coord)));
    changes.push(EntityChange::Insert(id, ComponentValue::Card(card)));
    changes.push(EntityChange::Insert(id, ComponentValue::Tile(TileInfo { typ: tile, depth: 2 })));
    assert(changes@ =~= old(changes)@ + card_changes(id, coord, card, tile));
}

pub fn target_dummy(id: EntityId, coord: Position, changes: &mut Vec<EntityChange>)
    ensures
        final(changes)@ == old(changes)@ + target_dummy_changes(id, coord),
{
    changes.push(EntityChange::Insert(id, ComponentValue::Coord(coord)));
    changes.push(EntityChange::Insert(id, ComponentValue::Npc));
    changes.push(
        EntityChange::Insert(
            id,
            ComponentValue::Tile(TileInfo { typ: TileType::TargetDummy, depth: 3 }),
        ),
    );
    assert(changes@ =~= old(changes)@ + target_dummy_changes(id, coord));
}

pub fn player(id: EntityId, coord: Position, changes: &mut Vec<EntityChange>)
    ensures
        final(changes)@ == old(changes)@ + player_changes(id, coord),
{
    changes.push(EntityChange::Insert(id, ComponentValue::Coord(coord)));
    changes.push(EntityChange::Insert(id, ComponentValue::Player));
    changes.push(
        EntityChange::Insert(id, ComponentValue::Tile(TileInfo { typ: TileType::Player, depth: 3 })),
    );
    assert(changes@ =~= old(changes)@ + player_changes(id, coord));
}

pub fn punch(id: EntityId, coord: Position, changes: &mut Vec<EntityChange>)
    ensures
        final(changes)@ == old(changes)@ + punch_changes(id, coord),
{
    changes.push(
        EntityChange::Insert(id, ComponentValue::Tile(TileInfo { typ: TileType::Punch, depth: 4 })),
    );
    changes.push(EntityChange::Insert(id, ComponentValue::Coord(coord)));
    assert(changes@ =~= old(changes)@ + punch_changes(id, coord));
}

} // verus!
