//! What the presentation layer needs to know to draw an entity.

use vstd::prelude::*;

verus! {

/// The kind of glyph an entity is drawn with.
#[derive(Clone, Copy, Debug, PartialEq, Eq, Structural)]
pub enum TileType {
    Floor,
    Wall,
    Player,
    CardMove,
    CardPunch,
    TargetDummy,
    Punch,
}

/// A glyph kind together with the layer it is drawn on; higher layers
/// cover lower ones.
#[derive(Clone, Copy, Debug, PartialEq, Eq, Structural)]
pub struct TileInfo {
    pub typ: TileType,
    pub depth: i8,
}

impl TileInfo {
    pub fn new(typ: TileType, depth: i8) -> (t: TileInfo)
        ensures
            t == (TileInfo { typ, depth }),
    {
        TileInfo { typ, depth }
    }
}

} // verus!
