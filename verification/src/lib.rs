//! Turn resolution for a grid-based, card-driven tactical game.
//!
//! The crate root holds a small rule set for walking a collider around a
//! walled grid; the card-driven engine lives in [`state`].

use crate::entity_store::ComponentValue;
use crate::entity_store::EntityChange;
use crate::entity_store::EntityId;
use crate::entity_store::EntityIdAllocator;
use crate::entity_store::EntityStore;
use crate::entity_store::is_rendering_of;
use crate::entity_store::lemma_replay_push;
use crate::entity_store::members_of;
use crate::entity_store::Renderable;
use crate::entity_store::sorted_ids;
use crate::entity_store::StoreView;
use crate::geometry::CardinalDirection;
use crate::geometry::Position;
use crate::geometry::Size;
use crate::level::glyph_known;
use crate::level::glyphs;
use crate::level::Legend;
use crate::level::level_changes;
use crate::level::level_ids;
use crate::level::level_ok;
use crate::level::level_size;
use crate::level::read_level;
use crate::prototypes::floor_changes;
use crate::prototypes::player_changes;
use crate::prototypes::wall_changes;
use crate::spatial_hash::SpatialHashTable;
use crate::spatial_hash::touches;
use crate::tile::TileInfo;
use crate::tile::TileType;
use vstd::prelude::*;

pub mod animation;
pub mod card;
pub mod card_state;
pub mod entity_store;
pub mod geometry;
pub mod input;
pub mod level;
pub mod pathfinding;
pub mod policy;
pub mod prototypes;
pub mod random;
pub mod reaction;
pub mod spatial_hash;
pub mod state;
pub mod tile;

verus! {

/// The component tables together with the per-cell summary that is kept
/// in step with them.
pub struct LowLevelPolicy {
    pub entity_store: EntityStore,
    pub spatial_hash: SpatialHashTable,
}

/// Where a step of `id` in `direction` would end on a grid of `size`,
/// provided `id` has a position, the step stays on the grid and nothing
/// solid is in the cell it leads to.
pub open spec fn collider_target(
    view: StoreView,
    size: Size,
    id: EntityId,
    direction: CardinalDirection,
) -> Option<Position> {
    match view.coord_of(id) {
        Some(from) => {
            let (x, y) = from.spec_step(direction);
            let to = Position { x: x as i32, y: y as i32 };
            if from.can_step(direction) && size.contains(to) && view.solid_at(to).len() == 0 {
                Some(to)
            } else {
                None
            }
        },
        None => None,
    }
}

/// The tables after `id` has tried to step in `direction`.
pub open spec fn collider_step(
    view: StoreView,
    size: Size,
    id: EntityId,
    direction: CardinalDirection,
) -> StoreView {
    match collider_target(view, size, id, direction) {
        Some(to) => view.apply(EntityChange::Insert(id, ComponentValue::Coord(to))),
        None => view,
    }
}

/// The player that walks: the one with the least identifier.
pub open spec fn first_player(view: StoreView) -> EntityId {
    sorted_ids(view.player)[0]
}

/// The tables after `id` has tried each of the steps that `inputs` ask
/// for, in order.
pub open spec fn collider_walk(view: StoreView, size: Size, id: EntityId, inputs: Seq<Input>) -> StoreView
    decreases inputs.len(),
{
    if inputs.len() == 0 {
        view
    } else {
        match inputs.last() {
            Input::Move(direction) => collider_step(
                collider_walk(view, size, id, inputs.drop_last()),
                size,
                id,
                direction,
            ),
        }
    }
}

/// The turn stamp that the cell at `coord` bears after `id` has tried
/// each of the steps that `inputs` ask for, the cell having borne
/// `stamp` before: 0 where one of the steps taken touches it.
pub open spec fn walk_stamp(
    view: StoreView,
    size: Size,
    id: EntityId,
    inputs: Seq<Input>,
    coord: Position,
    stamp: int,
) -> int
    decreases inputs.len(),
{
    if inputs.len() == 0 {
        stamp
    } else {
        let before = collider_walk(view, size, id, inputs.drop_last());
        match inputs.last() {
            Input::Move(direction) => match collider_target(before, size, id, direction) {
                Some(to) => if touches(
                    before,
                    EntityChange::Insert(id, ComponentValue::Coord(to)),
                    coord,
                ) {
                    0
                } else {
                    walk_stamp(view, size, id, inputs.drop_last(), coord, stamp)
                },
                None => walk_stamp(view, size, id, inputs.drop_last(), coord, stamp),
            },
        }
    }
}

impl LowLevelPolicy {
    /// The per-cell summary agrees with the component tables.
    pub open spec fn wf(&self) -> bool {
        self.spatial_hash.reflects(self.entity_store@)
    }

    pub open spec fn spec_move_collider_check(
        &self,
        id: EntityId,
        direction: CardinalDirection,
    ) -> Option<Position> {
        collider_target(self.entity_store@, self.spatial_hash.size, id, direction)
    }

    pub open spec fn spec_move_collider(
        &self,
        id: EntityId,
        direction: CardinalDirection,
    ) -> StoreView {
        collider_step(self.entity_store@, self.spatial_hash.size, id, direction)
    }

    /// The tables and summary that committing `changes`, in order, to
    /// empty ones on a grid of the given size leads to.
    pub fn rebuild(size: Size, changes: &Vec<EntityChange>) -> (low_level: LowLevelPolicy)
        requires
            size.count() <= usize::MAX,
        ensures
            low_level.wf(),
            low_level.spatial_hash.size == size,
            low_level.spatial_hash.unstamped(),
            low_level.entity_store@ == StoreView::empty().replay(changes@),
    {
        let mut low_level = LowLevelPolicy {
            entity_store: EntityStore::new(),
            spatial_hash: SpatialHashTable::new(size),
        };
        let mut k: usize = 0;
        while k < changes.len()
            invariant
                k <= changes@.len(),
                low_level.wf(),
                low_level.spatial_hash.size == size,
                low_level.spatial_hash.unstamped(),
                low_level.entity_store@ == StoreView::empty().replay(changes@.take(k as int)),
            decreases changes@.len() - k,
        {
            proof {
                lemma_replay_push(StoreView::empty(), changes@.take(k as int), changes@[k as int]);
                assert(changes@.take(k + 1) =~= changes@.take(k as int).push(changes@[k as int]));
            }
            low_level.apply(changes[k]);
            k = k + 1;
        }
        assert(changes@.take(k as int) =~= changes@);
        low_level
    }

    /// A copy of the tables, with a summary made anew for them.
    pub fn duplicate(&self) -> (copy: LowLevelPolicy)
        requires
            self.wf(),
        ensures
            copy.wf(),
            copy.spatial_hash.size == self.spatial_hash.size,
            copy.spatial_hash.unstamped(),
            copy.entity_store@ == self.entity_store@,
    {
        let mut changes: Vec<EntityChange> = Vec::new();
        self.entity_store.clone_changes(&mut changes);
        assert(changes@.skip(0) =~= changes@);
        LowLevelPolicy::rebuild(self.spatial_hash.size, &changes)
    }

    /// Commits one change to the summary and then to the tables.
    pub fn apply(&mut self, change: EntityChange)
        requires
            old(self).wf(),
        ensures
            final(self).wf(),
            final(self).spatial_hash.size == old(self).spatial_hash.size,
            final(self).entity_store@ == old(self).entity_store@.apply(change),
            forall|coord: Position|
                #![trigger final(self).spatial_hash.spec_cell(coord)]
                old(self).spatial_hash.size.contains(coord) ==> final(self).spatial_hash.spec_cell(
                    coord,
                ).last_updated == (if touches(old(self).entity_store@, change, coord) {
                    0
                } else {
                    old(self).spatial_hash.spec_cell(coord).last_updated
                }),
    {
        self.spatial_hash.update(&self.entity_store, &change, 0);
        self.entity_store.commit(change);
    }

    pub fn make_player(&mut self, id: EntityId, coord: Position)
        requires
            old(self).wf(),
        ensures
            final(self).wf(),
            final(self).spatial_hash.size == old(self).spatial_hash.size,
            final(self).entity_store@ == old(self).entity_store@.replay(player_changes(id, coord)),
    {
        proof {
            lemma_replay_three(old(self).entity_store@, player_changes(id, coord));
        }
        self.apply(EntityChange::Insert(id, ComponentValue::Coord(coord)));
        self.apply(EntityChange::Insert(id, ComponentValue::Player));
        self.apply(
            EntityChange::Insert(
                id,
                ComponentValue::Tile(TileInfo { typ: TileType::Player, depth: 3 }),
            ),
        );
    }

    pub fn make_wall(&mut self, id: EntityId, coord: Position)
        requires
            old(self).wf(),
        ensures
            final(self).wf(),
            final(self).spatial_hash.size == old(self).spatial_hash.size,
            final(self).entity_store@ == old(self).entity_store@.replay(wall_changes(id, coord)),
    {
        proof {
            lemma_replay_three(old(self).entity_store@, wall_changes(id, coord));
        }
        self.apply(EntityChange::Insert(id, ComponentValue::Coord(coord)));
        self.apply(EntityChange::Insert(id, ComponentValue::Solid));
        self.apply(
            EntityChange::Insert(
                id,
                ComponentValue::Tile(TileInfo { typ: TileType::Wall, depth: 2 }),
            ),
        );
    }

    pub fn make_floor(&mut self, id: EntityId, coord: Position)
        requires
            old(self).wf(),
        ensures
            final(self).wf(),
            final(self).spatial_hash.size == old(self).spatial_hash.size,
            final(self).entity_store@ == old(self).entity_store@.replay(floor_changes(id, coord)),
    {
        proof {
            lemma_replay_two(old(self).entity_store@, floor_changes(id, coord));
        }
        self.apply(EntityChange::Insert(id, ComponentValue::Coord(coord)));
        self.apply(
            EntityChange::Insert(
                id,
                ComponentValue::Tile(TileInfo { typ: TileType::Floor, depth: 1 }),
            ),
        );
    }

    /// Where a step of `id` in `direction` would end, or nothing where
    /// `id` has no position, the step would leave the grid, or something
    /// solid is in the way.
    pub fn move_collider_check(&self, id: EntityId, direction: CardinalDirection) -> (r: Option<
        Position,
    >)
        requires
            self.wf(),
        ensures
            r == self.spec_move_collider_check(id, direction),
    {
        if let Some(current_coord) = self.entity_store.get_coord(id) {
            if let Some(new_coord) = current_coord.step(direction) {
                if let Some(destination_cell) = self.spatial_hash.get(new_coord) {
                    if destination_cell.solid_count == 0 {
                        return Some(new_coord);
                    }
                }
            }
        }
        None
    }

    /// Moves `id` one step in `direction` unless
    /// [`move_collider_check`](Self::move_collider_check) finds the step
    /// impossible.
    pub fn move_collider(&mut self, id: EntityId, direction: CardinalDirection)
        requires
            old(self).wf(),
        ensures
            final(self).wf(),
            final(self).spatial_hash.size == old(self).spatial_hash.size,
            final(self).entity_store@ == old(self).spec_move_collider(id, direction),
            old(self).spec_move_collider_check(id, direction) is None ==> *final(self) == *old(self),
            old(self).spec_move_collider_check(id, direction) matches Some(to) ==> forall|
                coord: Position,
            |
                #![trigger final(self).spatial_hash.spec_cell(coord)]
                old(self).spatial_hash.size.contains(coord) ==> final(self).spatial_hash.spec_cell(
                    coord,
                ).last_updated == (if touches(
                    old(self).entity_store@,
                    EntityChange::Insert(id, ComponentValue::Coord(to)),
                    coord,
                ) {
                    0
                } else {
                    old(self).spatial_hash.spec_cell(coord).last_updated
                }),
    {
        if let Some(new_coord) = self.move_collider_check(id, direction) {
            self.apply(EntityChange::Insert(id, ComponentValue::Coord(new_coord)));
        }
    }
}

/// Replaying a list of two changes commits the first and then the
/// second.
pub proof fn lemma_replay_two(view: StoreView, changes: Seq<EntityChange>)
    requires
        changes.len() == 2,
    ensures
        view.replay(changes) == view.apply(changes[0]).apply(changes[1]),
{
    let one = changes.drop_last();
    assert(one.drop_last().len() == 0);
    assert(view.replay(one.drop_last()) == view);
    assert(view.replay(one) == view.apply(changes[0]));
}

/// Replaying a list of three changes commits them one after the other.
pub proof fn lemma_replay_three(view: StoreView, changes: Seq<EntityChange>)
    requires
        changes.len() == 3,
    ensures
        view.replay(changes) == view.apply(changes[0]).apply(changes[1]).apply(changes[2]),
{
    let two = changes.drop_last();
    lemma_replay_two(view, two);
}

/// A [`LowLevelPolicy`] that hands out the identifiers of the entities
/// it makes.
pub struct Policy {
    pub low_level: LowLevelPolicy,
    pub wit: EntityIdAllocator,
}

impl Policy {
    pub open spec fn wf(&self) -> bool {
        self.low_level.wf()
    }

    /// An empty grid of eight by eight cells.
    pub fn new() -> (policy: Policy)
        ensures
            policy.wf(),
            policy.low_level.entity_store@ == StoreView::empty(),
            policy.low_level.spatial_hash.size == (Size { width: 8, height: 8 }),
            policy.low_level.spatial_hash.unstamped(),
            policy.wit.next == 0,
    {
        let size = Size::new(8, 8);
        assert(size.count() == 64) by (nonlinear_arith)
            requires
                size.width == 8,
                size.height == 8,
        ;
        Policy {
            low_level: LowLevelPolicy {
                entity_store: EntityStore::new(),
                spatial_hash: SpatialHashTable::new(size),
            },
            wit: EntityIdAllocator::new(),
        }
    }

    /// Moves a player one step in `direction`, if there is a player and
    /// the step is possible.
    pub fn move_player(&mut self, direction: CardinalDirection)
        requires
            old(self).wf(),
        ensures
            final(self).wf(),
            final(self).wit == old(self).wit,
            final(self).low_level.spatial_hash.size == old(self).low_level.spatial_hash.size,
            old(self).low_level.entity_store@.player.len() == 0 ==> *final(self) == *old(self),
            old(self).low_level.entity_store@.player.len() > 0 ==> final(self).low_level.entity_store@ == collider_step(
                old(self).low_level.entity_store@,
                old(self).low_level.spatial_hash.size,
                first_player(old(self).low_level.entity_store@),
                direction,
            ),
            old(self).low_level.entity_store@.player.len() > 0 && collider_target(
                old(self).low_level.entity_store@,
                old(self).low_level.spatial_hash.size,
                first_player(old(self).low_level.entity_store@),
                direction,
            ) is None ==> *final(self) == *old(self),
            old(self).low_level.entity_store@.player.len() > 0 && collider_target(
                old(self).low_level.entity_store@,
                old(self).low_level.spatial_hash.size,
                first_player(old(self).low_level.entity_store@),
                direction,
            ) is Some ==> forall|coord: Position|
                #![trigger final(self).low_level.spatial_hash.spec_cell(coord)]
                old(self).low_level.spatial_hash.size.contains(coord) ==> final(self).low_level.spatial_hash.spec_cell(coord).last_updated == (if touches(
                    old(self).low_level.entity_store@,
                    EntityChange::Insert(
                        first_player(old(self).low_level.entity_store@),
                        ComponentValue::Coord(
                            collider_target(
                                old(self).low_level.entity_store@,
                                old(self).low_level.spatial_hash.size,
                                first_player(old(self).low_level.entity_store@),
                                direction,
                            )->0,
                        ),
                    ),
                    coord,
                ) {
                    0
                } else {
                    old(self).low_level.spatial_hash.spec_cell(coord).last_updated
                }),
    {
        let players = members_of(&self.low_level.entity_store.player);
        proof {
            self.low_level.entity_store.lemma_finite();
            players@.unique_seq_to_set();
            crate::entity_store::lemma_is_sorted_ids(players@);
        }
        if players.len() > 0 {
            let player_id: EntityId = players[0];
            self.low_level.move_collider(player_id, direction);
        }
    }

    pub fn make_player(&mut self, coord: Position)
        requires
            old(self).wf(),
            old(self).wit.spec_has_next(),
        ensures
            final(self).wf(),
            final(self).wit.next == old(self).wit.next + 1,
            final(self).low_level.spatial_hash.size == old(self).low_level.spatial_hash.size,
            final(self).low_level.entity_store@ == old(self).low_level.entity_store@.replay(
                player_changes(old(self).wit.next, coord),
            ),
    {
        let id: EntityId = self.wit.allocate();
        self.low_level.make_player(id, coord);
    }

    pub fn make_wall(&mut self, coord: Position)
        requires
            old(self).wf(),
            old(self).wit.spec_has_next(),
        ensures
            final(self).wf(),
            final(self).wit.next == old(self).wit.next + 1,
            final(self).low_level.spatial_hash.size == old(self).low_level.spatial_hash.size,
            final(self).low_level.entity_store@ == old(self).low_level.entity_store@.replay(
                wall_changes(old(self).wit.next, coord),
            ),
    {
        let id: EntityId = self.wit.allocate();
        self.low_level.make_wall(id, coord);
    }

    pub fn make_floor(&mut self, coord: Position)
        requires
            old(self).wf(),
            old(self).wit.spec_has_next(),
        ensures
            final(self).wf(),
            final(self).wit.next == old(self).wit.next + 1,
            final(self).low_level.spatial_hash.size == old(self).low_level.spatial_hash.size,
            final(self).low_level.entity_store@ == old(self).low_level.entity_store@.replay(
                floor_changes(old(self).wit.next, coord),
            ),
    {
        let id: EntityId = self.wit.allocate();
        self.low_level.make_floor(id, coord);
    }

    /// Everything there is to draw: each entity that has a position and
    /// a tile, once.
    pub fn render_iter(&self) -> (iter: RenderIter)
        ensures
            iter.position == 0,
            is_rendering_of(iter.items@, self.low_level.entity_store@),
    {
        RenderIter { items: self.low_level.entity_store.renderables(), position: 0 }
    }
}

/// A pass over the entities to draw.
pub struct RenderIter {
    pub items: Vec<Renderable>,
    pub position: usize,
}

impl RenderIter {
    /// What is still to come.
    pub open spec fn remaining(&self) -> Seq<Renderable> {
        if self.position <= self.items@.len() {
            self.items@.subrange(self.position as int, self.items@.len() as int)
        } else {
            Seq::empty()
        }
    }

    /// The position and tile of the next entity, or nothing once all
    /// have been handed out.
    pub fn next(&mut self) -> (r: Option<(Position, TileInfo)>)
        ensures
            old(self).remaining().len() == 0 ==> r is None && final(self).remaining().len() == 0,
            old(self).remaining().len() > 0 ==> r == Some(
                (old(self).remaining()[0].coord, old(self).remaining()[0].tile),
            ) && final(self).remaining() == old(self).remaining().drop_first(),
            final(self).items == old(self).items,
    {
        if self.position < self.items.len() {
            let item = self.items[self.position];
            self.position = self.position + 1;
            assert(self.remaining() =~= old(self).remaining().drop_first());
            Some((item.coord, item.tile))
        } else {
            None
        }
    }
}

/// The room that a walk starts in.
pub open spec fn room() -> Seq<Seq<char>> {
    seq![
        "########"@,
        "#......#"@,
        "#......#"@,
        "#......#"@,
        "#..#####"@,
        "#......#"@,
        "#..@...#"@,
        "########"@,
    ]
}

/// The room can be loaded.
pub proof fn lemma_room_ok()
    ensures
        level_ok(Legend::Plain, room()),
{
    reveal_strlit("########");
    reveal_strlit("#......#");
    reveal_strlit("#..#####");
    reveal_strlit("#..@...#");
    let rows = room();
    assert(rows.len() == 8);
    assert(rows[0].len() == 8);
    assert(level_size(rows).count() == 64) by (nonlinear_arith)
        requires
            level_size(rows).width == 8,
            level_size(rows).height == 8,
    ;
    assert(rows[6][3] == '@');
    crate::level::lemma_level_has_player(Legend::Plain, rows, 6, 3, 8);
    assert forall|y: int, x: int| 0 <= y < rows.len() && 0 <= x < rows[y].len() implies glyph_known(
        Legend::Plain,
        #[trigger] rows[y][x],
    ) by {
        if y == 0 || y == 7 {
            assert(rows[y] == "########"@);
        } else if y == 4 {
            assert(rows[y] == "#..#####"@);
        } else if y == 6 {
            assert(rows[y] == "#..@...#"@);
        } else {
            assert(rows[y] == "#......#"@);
        }
    }
}

/// A walk around a walled room.
pub struct GameState {
    pub policy: Policy,
}

/// All that is needed to bring a [`GameState`] back.
pub struct SaveState {
    pub low_level: LowLevelPolicy,
    pub wit: EntityIdAllocator,
}

impl SaveState {
    pub open spec fn wf(&self) -> bool {
        self.low_level.wf()
    }
}

impl GameState {
    pub open spec fn wf(&self) -> bool {
        self.policy.wf()
    }

    /// A walk that starts in [`room`]. The seed is not used: nothing in
    /// a walk is left to chance.
    pub fn from_rng_seed(rng_seed: usize) -> (game: GameState)
        ensures
            game.wf(),
            game.policy.low_level.spatial_hash.size == level_size(room()),
            game.policy.low_level.spatial_hash.unstamped(),
            game.policy.low_level.entity_store@ == StoreView::empty().replay(
                level_changes(Legend::Plain, room(), 8),
            ),
            game.policy.wit.next == level_ids(Legend::Plain, room(), 8),
    {
        let strings: Vec<&str> = vec![
            "########",
            "#......#",
            "#......#",
            "#......#",
            "#..#####",
            "#......#",
            "#..@...#",
            "########",
        ];
        proof {
            lemma_room_ok();
            assert(glyphs(strings@) =~= room());
        }
        match read_level(Legend::Plain, &strings) {
            Some(level) => GameState {
                policy: Policy {
                    low_level: LowLevelPolicy::rebuild(level.size, &level.changes),
                    wit: EntityIdAllocator { next: level.next_id },
                },
            },
            None => vstd::pervasive::unreached(),
        }
    }

    /// The walk that `save_state` holds.
    pub fn from_save_state(save_state: SaveState) -> (game: GameState)
        requires
            save_state.wf(),
        ensures
            game.wf(),
            game.policy.low_level == save_state.low_level,
            game.policy.wit == save_state.wit,
    {
        GameState { policy: Policy { low_level: save_state.low_level, wit: save_state.wit } }
    }

    /// A copy of this walk to keep. The seed is not used.
    pub fn save(&self, rng_seed: usize) -> (save_state: SaveState)
        requires
            self.wf(),
        ensures
            save_state.wf(),
            save_state.low_level.entity_store@ == self.policy.low_level.entity_store@,
            save_state.low_level.spatial_hash.size == self.policy.low_level.spatial_hash.size,
            save_state.low_level.spatial_hash.unstamped(),
            save_state.wit == self.policy.wit,
    {
        SaveState { low_level: self.policy.low_level.duplicate(), wit: self.policy.wit }
    }

    /// Lets a player take each of the steps that `inputs` ask for, in
    /// order. A walk never ends, so no event is ever reported.
    pub fn tick(&mut self, inputs: Vec<Input>, period_millis: u64) -> (event: Option<ExternalEvent>)
        requires
            old(self).wf(),
        ensures
            final(self).wf(),
            event is None,
            final(self).policy.wit == old(self).policy.wit,
            final(self).policy.low_level.spatial_hash.size == old(self).policy.low_level.spatial_hash.size,
            old(self).policy.low_level.entity_store@.player.len() == 0 ==> *final(self) == *old(self),
            old(self).policy.low_level.entity_store@.player.len() > 0 ==> final(self).policy.low_level.entity_store@ == collider_walk(
                old(self).policy.low_level.entity_store@,
                old(self).policy.low_level.spatial_hash.size,
                first_player(old(self).policy.low_level.entity_store@),
                inputs@,
            ),
            old(self).policy.low_level.entity_store@.player.len() > 0 ==> forall|coord: Position|
                #![trigger final(self).policy.low_level.spatial_hash.spec_cell(coord)]
                old(self).policy.low_level.spatial_hash.size.contains(coord) ==> final(self).policy.low_level.spatial_hash.spec_cell(coord).last_updated == walk_stamp(
                    old(self).policy.low_level.entity_store@,
                    old(self).policy.low_level.spatial_hash.size,
                    first_player(old(self).policy.low_level.entity_store@),
                    inputs@,
                    coord,
                    old(self).policy.low_level.spatial_hash.spec_cell(coord).last_updated as int,
                ),
    {
        let ghost start = self.policy.low_level.entity_store@;
        let ghost size = self.policy.low_level.spatial_hash.size;
        let ghost walker = first_player(start);
        let mut k: usize = 0;
        while k < inputs.len()
            invariant
                k <= inputs@.len(),
                self.wf(),
                walker == first_player(start),
                self.policy.wit == old(self).policy.wit,
                self.policy.low_level.spatial_hash.size == size,
                self.policy.low_level.entity_store@.player == start.player,
                start.player.len() == 0 ==> *self == *old(self),
                start.player.len() > 0 ==> self.policy.low_level.entity_store@ == collider_walk(
                    start,
                    size,
                    walker,
                    inputs@.take(k as int),
                ),
                start.player.len() > 0 ==> forall|coord: Position|
                    #![trigger self.policy.low_level.spatial_hash.spec_cell(coord)]
                    size.contains(coord) ==> self.policy.low_level.spatial_hash.spec_cell(
                        coord,
                    ).last_updated == walk_stamp(
                        start,
                        size,
                        walker,
                        inputs@.take(k as int),
                        coord,
                        old(self).policy.low_level.spatial_hash.spec_cell(coord).last_updated as int,
                    ),
            decreases inputs@.len() - k,
        {
            let ghost table = self.policy.low_level.spatial_hash;
            match inputs[k] {
                Input::Move(direction) => {
                    self.policy.move_player(direction);
                    proof {
                        assert(inputs@.take(k + 1).drop_last() =~= inputs@.take(k as int));
                        assert(inputs@.take(k + 1).last() == Input::Move(direction));
                        if start.player.len() > 0 {
                            assert forall|coord: Position| size.contains(coord) implies (
                            #[trigger] self.policy.low_level.spatial_hash.spec_cell(
                                coord,
                            )).last_updated == walk_stamp(
                                start,
                                size,
                                walker,
                                inputs@.take(k + 1),
                                coord,
                                old(self).policy.low_level.spatial_hash.spec_cell(
                                    coord,
                                ).last_updated as int,
                            ) by {
                                assert(table.spec_cell(coord).last_updated == walk_stamp(
                                    start,
                                    size,
                                    walker,
                                    inputs@.take(k as int),
                                    coord,
                                    old(self).policy.low_level.spatial_hash.spec_cell(
                                        coord,
                                    ).last_updated as int,
                                ));
                            }
                        }
                    }
                },
            }
            k = k + 1;
        }
        assert(inputs@.take(k as int) =~= inputs@);
        None
    }

    /// Everything there is to draw: each entity that has a position and
    /// a tile, once.
    pub fn render_iter(&self) -> (iter: RenderIter)
        ensures
            iter.position == 0,
            is_rendering_of(iter.items@, self.policy.low_level.entity_store@),
    {
        self.policy.render_iter()
    }
}

/// What the player can ask of the walking rule set.
#[derive(Clone, Copy, Debug, PartialEq, Eq, Structural)]
pub enum Input {
    Move(CardinalDirection),
}

/// What a tick reports to the application around it.
#[derive(Clone, Copy, Debug, PartialEq, Eq, Structural)]
pub enum ExternalEvent {
    GameOver,
}

} // verus!
