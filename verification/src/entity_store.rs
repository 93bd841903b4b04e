//! Entities, their components, and the changes that move components in
//! and out of the store.

use crate::card::Card;
use crate::geometry::Position;
use crate::tile::TileInfo;
use std::collections::BTreeMap;
use std::collections::BTreeSet;
use vstd::prelude::*;
use vstd::std_specs::iter::IteratorSpec;

verus! {

broadcast use vstd::std_specs::btree::group_btree_axioms;

/// An entity is nothing but a key into the component tables.
pub type EntityId = u64;

/// The kinds of component an entity can hold.
#[derive(Clone, Copy, Debug, PartialEq, Eq, Structural)]
pub enum ComponentType {
    Coord,
    Solid,
    Tile,
    Player,
    Card,
    Npc,
}

/// A component together with its data.
#[derive(Clone, Copy, Debug, PartialEq, Eq, Structural)]
pub enum ComponentValue {
    Coord(Position),
    Solid,
    Tile(TileInfo),
    Player,
    Card(Card),
    Npc,
}

/// The only way component tables are ever altered.
#[derive(Clone, Copy, Debug, PartialEq, Eq, Structural)]
pub enum EntityChange {
    Insert(EntityId, ComponentValue),
    Remove(EntityId, ComponentType),
}

impl ComponentValue {
    pub open spec fn spec_typ(self) -> ComponentType {
        match self {
            ComponentValue::Coord(_) => ComponentType::Coord,
            ComponentValue::Solid => ComponentType::Solid,
            ComponentValue::Tile(_) => ComponentType::Tile,
            ComponentValue::Player => ComponentType::Player,
            ComponentValue::Card(_) => ComponentType::Card,
            ComponentValue::Npc => ComponentType::Npc,
        }
    }

    /// The kind of this component.
    pub fn typ(&self) -> (t: ComponentType)
        ensures
            t == self.spec_typ(),
    {
        match self {
            ComponentValue::Coord(_) => ComponentType::Coord,
            ComponentValue::Solid => ComponentType::Solid,
            ComponentValue::Tile(_) => ComponentType::Tile,
            ComponentValue::Player => ComponentType::Player,
            ComponentValue::Card(_) => ComponentType::Card,
            ComponentValue::Npc => ComponentType::Npc,
        }
    }
}

impl EntityChange {
    pub open spec fn spec_entity(self) -> EntityId {
        match self {
            EntityChange::Insert(id, _) => id,
            EntityChange::Remove(id, _) => id,
        }
    }

    pub open spec fn spec_typ(self) -> ComponentType {
        match self {
            EntityChange::Insert(_, value) => value.spec_typ(),
            EntityChange::Remove(_, typ) => typ,
        }
    }

    /// The entity this change is about.
    pub fn entity(&self) -> (id: EntityId)
        ensures
            id == self.spec_entity(),
    {
        match self {
            EntityChange::Insert(id, _) => *id,
            EntityChange::Remove(id, _) => *id,
        }
    }

    /// The kind of component this change inserts or removes.
    pub fn typ(&self) -> (t: ComponentType)
        ensures
            t == self.spec_typ(),
    {
        match self {
            EntityChange::Insert(_, value) => value.typ(),
            EntityChange::Remove(_, typ) => *typ,
        }
    }
}

/// The mathematical content of an [`EntityStore`]: one table per
/// component kind.
pub struct StoreView {
    pub coord: Map<EntityId, Position>,
    pub solid: Set<EntityId>,
    pub tile: Map<EntityId, TileInfo>,
    pub player: Set<EntityId>,
    pub card: Map<EntityId, Card>,
    pub npc: Set<EntityId>,
}

impl StoreView {
    pub open spec fn empty() -> StoreView {
        StoreView {
            coord: Map::empty(),
            solid: Set::empty(),
            tile: Map::empty(),
            player: Set::empty(),
            card: Map::empty(),
            npc: Set::empty(),
        }
    }

    /// Every table holds finitely many entries.
    pub open spec fn finite(self) -> bool {
        &&& self.coord.dom().finite()
        &&& self.solid.finite()
        &&& self.tile.dom().finite()
        &&& self.player.finite()
        &&& self.card.dom().finite()
        &&& self.npc.finite()
    }

    /// Whether `id` holds a component of kind `typ`.
    pub open spec fn holds(self, id: EntityId, typ: ComponentType) -> bool {
        match typ {
            ComponentType::Coord => self.coord.contains_key(id),
            ComponentType::Solid => self.solid.contains(id),
            ComponentType::Tile => self.tile.contains_key(id),
            ComponentType::Player => self.player.contains(id),
            ComponentType::Card => self.card.contains_key(id),
            ComponentType::Npc => self.npc.contains(id),
        }
    }

    /// The store after `change` has been committed to it.
    pub open spec fn apply(self, change: EntityChange) -> StoreView {
        match change {
            EntityChange::Insert(id, ComponentValue::Coord(c)) => StoreView {
                coord: self.coord.insert(id, c),
                ..self
            },
            EntityChange::Insert(id, ComponentValue::Solid) => StoreView {
                solid: self.solid.insert(id),
                ..self
            },
            EntityChange::Insert(id, ComponentValue::Tile(t)) => StoreView {
                tile: self.tile.insert(id, t),
                ..self
            },
            EntityChange::Insert(id, ComponentValue::Player) => StoreView {
                player: self.player.insert(id),
                ..self
            },
            EntityChange::Insert(id, ComponentValue::Card(c)) => StoreView {
                card: self.card.insert(id, c),
                ..self
            },
            EntityChange::Insert(id, ComponentValue::Npc) => StoreView {
                npc: self.npc.insert(id),
                ..self
            },
            EntityChange::Remove(id, ComponentType::Coord) => StoreView {
                coord: self.coord.remove(id),
                ..self
            },
            EntityChange::Remove(id, ComponentType::Solid) => StoreView {
                solid: self.solid.remove(id),
                ..self
            },
            EntityChange::Remove(id, ComponentType::Tile) => StoreView {
                tile: self.tile.remove(id),
                ..self
            },
            EntityChange::Remove(id, ComponentType::Player) => StoreView {
                player: self.player.remove(id),
                ..self
            },
            EntityChange::Remove(id, ComponentType::Card) => StoreView {
                card: self.card.remove(id),
                ..self
            },
            EntityChange::Remove(id, ComponentType::Npc) => StoreView {
                npc: self.npc.remove(id),
                ..self
            },
        }
    }

    /// The store after all of `changes` have been committed in order.
    pub open spec fn replay(self, changes: Seq<EntityChange>) -> StoreView
        decreases changes.len(),
    {
        if changes.len() == 0 {
            self
        } else {
            self.replay(changes.drop_last()).apply(changes.last())
        }
    }

    /// Where `id` is, if it is anywhere.
    pub open spec fn coord_of(self, id: EntityId) -> Option<Position> {
        if self.coord.contains_key(id) {
            Some(self.coord[id])
        } else {
            None
        }
    }

    /// The entities at `coord` that block movement.
    pub open spec fn solid_at(self, coord: Position) -> Set<EntityId> {
        Set::new(
            |id: EntityId|
                self.solid.contains(id) && self.coord.contains_key(id) && self.coord[id] == coord,
        )
    }

    /// The non-player actors at `coord`.
    pub open spec fn npc_at(self, coord: Position) -> Set<EntityId> {
        Set::new(
            |id: EntityId|
                self.npc.contains(id) && self.coord.contains_key(id) && self.coord[id] == coord,
        )
    }

    /// The card pickups at `coord`.
    pub open spec fn card_at(self, coord: Position) -> Set<EntityId> {
        Set::new(
            |id: EntityId|
                self.card.contains_key(id) && self.coord.contains_key(id) && self.coord[id]
                    == coord,
        )
    }

    /// What the presentation layer draws: the position and tile of every
    /// entity that has both.
    pub open spec fn render_set(self) -> Set<(Position, TileInfo)> {
        Set::new(
            |p: (Position, TileInfo)|
                exists|id: EntityId|
                    self.coord.contains_key(id) && self.tile.contains_key(id) && p == (
                        self.coord[id],
                        #[trigger] self.tile[id],
                    ),
        )
    }
}

/// Replaying a list of changes extended by one more is replaying the
/// list and then committing the last.
pub proof fn lemma_replay_push(view: StoreView, changes: Seq<EntityChange>, change: EntityChange)
    ensures
        view.replay(changes.push(change)) == view.replay(changes).apply(change),
{
    assert(changes.push(change).drop_last() =~= changes);
}

/// Replaying two lists one after the other is replaying their
/// concatenation.
pub proof fn lemma_replay_concat(view: StoreView, a: Seq<EntityChange>, b: Seq<EntityChange>)
    ensures
        view.replay(a + b) == view.replay(a).replay(b),
    decreases b.len(),
{
    if b.len() == 0 {
        assert(a + b =~= a);
    } else {
        lemma_replay_concat(view, a, b.drop_last());
        assert((a + b).drop_last() =~= a + b.drop_last());
        assert((a + b).last() == b.last());
    }
}

/// Typed component tables keyed by entity.
pub struct EntityStore {
    pub coord: BTreeMap<EntityId, Position>,
    pub solid: BTreeSet<EntityId>,
    pub tile: BTreeMap<EntityId, TileInfo>,
    pub player: BTreeSet<EntityId>,
    pub card: BTreeMap<EntityId, Card>,
    pub npc: BTreeSet<EntityId>,
}

impl View for EntityStore {
    type V = StoreView;

    open spec fn view(&self) -> StoreView {
        StoreView {
            coord: self.coord@,
            solid: self.solid@,
            tile: self.tile@,
            player: self.player@,
            card: self.card@,
            npc: self.npc@,
        }
    }
}

/// A set held by a `BTreeSet` is finite and its size fits in `usize`.
pub proof fn lemma_tree_set_finite(s: &BTreeSet<EntityId>)
    ensures
        s@.finite(),
        s@.len() <= usize::MAX,
{
    let keys = s.iter().remaining();
    vstd::seq_lib::seq_to_set_is_finite(keys.unref());
    assert(s@.len() == vstd::std_specs::btree::spec_btree_set_len(s));
}

/// The domain of a `BTreeMap` is finite and its size fits in `usize`.
pub proof fn lemma_tree_map_bounded<V>(m: &BTreeMap<EntityId, V>)
    ensures
        m@.dom().finite(),
        m@.dom().len() <= usize::MAX,
{
    assert(m@.len() == vstd::std_specs::btree::spec_btree_map_len(m));
}

impl EntityStore {
    pub fn new() -> (store: EntityStore)
        ensures
            store@ == StoreView::empty(),
    {
        EntityStore {
            coord: BTreeMap::new(),
            solid: BTreeSet::new(),
            tile: BTreeMap::new(),
            player: BTreeSet::new(),
            card: BTreeMap::new(),
            npc: BTreeSet::new(),
        }
    }

    /// The tables of a store are finite.
    pub proof fn lemma_finite(&self)
        ensures
            self@.finite(),
    {
        lemma_tree_set_finite(&self.solid);
        lemma_tree_set_finite(&self.player);
        lemma_tree_set_finite(&self.npc);
    }

    /// Applies one change to the table of its component kind. Nothing is
    /// checked here: validation is the caller's business.
    pub fn commit(&mut self, change: EntityChange)
        ensures
            final(self)@ == old(self)@.apply(change),
    {
        match change {
            EntityChange::Insert(id, ComponentValue::Coord(c)) => {
                self.coord.insert(id, c);
            },
            EntityChange::Insert(id, ComponentValue::Solid) => {
                self.solid.insert(id);
            },
            EntityChange::Insert(id, ComponentValue::Tile(t)) => {
                self.tile.insert(id, t);
            },
            EntityChange::Insert(id, ComponentValue::Player) => {
                self.player.insert(id);
            },
            EntityChange::Insert(id, ComponentValue::Card(c)) => {
                self.card.insert(id, c);
            },
            EntityChange::Insert(id, ComponentValue::Npc) => {
                self.npc.insert(id);
            },
            EntityChange::Remove(id, ComponentType::Coord) => {
                self.coord.remove(&id);
            },
            EntityChange::Remove(id, ComponentType::Solid) => {
                self.solid.remove(&id);
            },
            EntityChange::Remove(id, ComponentType::Tile) => {
                self.tile.remove(&id);
            },
            EntityChange::Remove(id, ComponentType::Player) => {
                self.player.remove(&id);
            },
            EntityChange::Remove(id, ComponentType::Card) => {
                self.card.remove(&id);
            },
            EntityChange::Remove(id, ComponentType::Npc) => {
                self.npc.remove(&id);
            },
        }
    }

    pub fn get_coord(&self, id: EntityId) -> (r: Option<Position>)
        ensures
            r == self@.coord_of(id),
    {
        match self.coord.get(&id) {
            Some(c) => Some(*c),
            None => None,
        }
    }

    pub fn get_tile(&self, id: EntityId) -> (r: Option<TileInfo>)
        ensures
            r == (if self@.tile.contains_key(id) {
                Some(self@.tile[id])
            } else {
                None
            }),
    {
        match self.tile.get(&id) {
            Some(t) => Some(*t),
            None => None,
        }
    }

    pub fn get_card(&self, id: EntityId) -> (r: Option<Card>)
        ensures
            r == (if self@.card.contains_key(id) {
                Some(self@.card[id])
            } else {
                None
            }),
    {
        match self.card.get(&id) {
            Some(c) => Some(*c),
            None => None,
        }
    }

    pub fn is_solid(&self, id: EntityId) -> (b: bool)
        ensures
            b == self@.solid.contains(id),
    {
        self.solid.contains(&id)
    }

    pub fn is_player(&self, id: EntityId) -> (b: bool)
        ensures
            b == self@.player.contains(id),
    {
        self.player.contains(&id)
    }

    pub fn is_npc(&self, id: EntityId) -> (b: bool)
        ensures
            b == self@.npc.contains(id),
    {
        self.npc.contains(&id)
    }

    /// Whether `id` holds a component of kind `typ`.
    pub fn contains(&self, id: EntityId, typ: ComponentType) -> (b: bool)
        ensures
            b == self@.holds(id, typ),
    {
        match typ {
            ComponentType::Coord => self.coord.contains_key(&id),
            ComponentType::Solid => self.solid.contains(&id),
            ComponentType::Tile => self.tile.contains_key(&id),
            ComponentType::Player => self.player.contains(&id),
            ComponentType::Card => self.card.contains_key(&id),
            ComponentType::Npc => self.npc.contains(&id),
        }
    }
}

/// One entity as the presentation layer sees it.
#[derive(Clone, Copy, Debug, PartialEq, Eq, Structural)]
pub struct Renderable {
    pub id: EntityId,
    pub coord: Position,
    pub tile: TileInfo,
}

/// `items` lists, by increasing identifier, exactly the entities of
/// `view` that have both a position and a tile, each with that position
/// and tile.
pub open spec fn is_rendering_of(items: Seq<Renderable>, view: StoreView) -> bool {
    &&& forall|i: int|
        0 <= i < items.len() ==> {
            &&& view.coord.contains_key((#[trigger] items[i]).id)
            &&& view.tile.contains_key(items[i].id)
            &&& items[i].coord == view.coord[items[i].id]
            &&& items[i].tile == view.tile[items[i].id]
        }
    &&& forall|i: int, j: int|
        0 <= i < j < items.len() ==> (#[trigger] items[i]).id < (#[trigger] items[j]).id
    &&& forall|id: EntityId|
        view.coord.contains_key(id) && view.tile.contains_key(id) ==> listed(items, id)
}

/// Whether `items` has an entry for the entity `id`.
pub open spec fn listed(items: Seq<Renderable>, id: EntityId) -> bool {
    exists|i: int| 0 <= i < items.len() && (#[trigger] items[i]).id == id
}

/// The positions and tiles that a rendering lists.
pub open spec fn pairs_of(items: Seq<Renderable>) -> Set<(Position, TileInfo)> {
    Set::new(
        |p: (Position, TileInfo)|
            exists|i: int| 0 <= i < items.len() && p == ((#[trigger] items[i]).coord, items[i].tile),
    )
}

/// A rendering of a store lists exactly the position and tile pairs
/// that the store holds.
pub proof fn lemma_rendering_pairs(items: Seq<Renderable>, view: StoreView)
    requires
        is_rendering_of(items, view),
    ensures
        pairs_of(items) == view.render_set(),
{
    assert forall|p: (Position, TileInfo)| pairs_of(items).contains(p) implies view.render_set().contains(
        p,
    ) by {
        let i = choose|i: int| 0 <= i < items.len() && p == ((#[trigger] items[i]).coord, items[i].tile);
        let id = items[i].id;
        assert(view.coord.contains_key(id) && view.tile.contains_key(id) && p == (
            view.coord[id],
            view.tile[id],
        ));
    }
    assert forall|p: (Position, TileInfo)| view.render_set().contains(p) implies pairs_of(items).contains(
        p,
    ) by {
        let id = choose|id: EntityId|
            view.coord.contains_key(id) && view.tile.contains_key(id) && p == (
                view.coord[id],
                #[trigger] view.tile[id],
            );
        assert(listed(items, id));
        let i = choose|i: int| 0 <= i < items.len() && (#[trigger] items[i]).id == id;
        assert(p == (items[i].coord, items[i].tile));
    }
    assert(pairs_of(items) =~= view.render_set());
}

/// `ids` lists entities by increasing identifier.
pub open spec fn ascending(ids: Seq<EntityId>) -> bool {
    forall|i: int, j: int| 0 <= i < j < ids.len() ==> ids[i] < ids[j]
}

/// The members of `ids` by increasing identifier, where `ids` is
/// finite.
pub open spec fn sorted_ids(ids: Set<EntityId>) -> Seq<EntityId> {
    choose|list: Seq<EntityId>| ascending(list) && #[trigger] list.to_set() == ids
}

/// Two lists by increasing identifier that hold the same entities are
/// the same list.
pub proof fn lemma_ascending_unique(a: Seq<EntityId>, b: Seq<EntityId>)
    requires
        ascending(a),
        ascending(b),
        a.to_set() == b.to_set(),
    ensures
        a == b,
    decreases a.len(),
{
    if a.len() == 0 {
        if b.len() > 0 {
            assert(b.to_set().contains(b[0]));
            assert(a.to_set().contains(b[0]));
        }
        assert(a =~= b);
    } else {
        assert(a.to_set().contains(a[0]));
        assert(b.to_set().contains(a[0]));
        assert(b.len() > 0);
        assert(b.to_set().contains(b[0]));
        assert(a.to_set().contains(b[0]));
        let i = choose|i: int| 0 <= i < b.len() && b[i] == a[0];
        let j = choose|j: int| 0 <= j < a.len() && a[j] == b[0];
        assert(a[0] == b[0]);
        let ra = a.drop_first();
        let rb = b.drop_first();
        assert forall|id: EntityId| ra.to_set().contains(id) <==> rb.to_set().contains(id) by {
            if ra.contains(id) {
                let k = choose|k: int| 0 <= k < ra.len() && ra[k] == id;
                assert(a[k + 1] == id);
                assert(a.to_set().contains(id));
                assert(b.to_set().contains(id));
                let m = choose|m: int| 0 <= m < b.len() && b[m] == id;
                assert(m != 0);
                assert(rb[m - 1] == id);
            }
            if rb.contains(id) {
                let k = choose|k: int| 0 <= k < rb.len() && rb[k] == id;
                assert(b[k + 1] == id);
                assert(b.to_set().contains(id));
                assert(a.to_set().contains(id));
                let m = choose|m: int| 0 <= m < a.len() && a[m] == id;
                assert(m != 0);
                assert(ra[m - 1] == id);
            }
        }
        assert(ra.to_set() =~= rb.to_set());
        lemma_ascending_unique(ra, rb);
        assert(a =~= seq![a[0]] + ra);
        assert(b =~= seq![b[0]] + rb);
    }
}

/// A list by increasing identifier is the sorted list of the entities
/// it holds.
pub proof fn lemma_is_sorted_ids(list: Seq<EntityId>)
    requires
        ascending(list),
    ensures
        list == sorted_ids(list.to_set()),
{
    let chosen = sorted_ids(list.to_set());
    assert(ascending(chosen) && chosen.to_set() == list.to_set());
    lemma_ascending_unique(list, chosen);
}

/// The keys of a `BTreeMap` come out by increasing identifier.
pub proof fn lemma_keys_ascend<V>(m: &BTreeMap<EntityId, V>)
    ensures
        ascending(m.keys().remaining().unref()),
{
    broadcast use vstd::laws_cmp::group_laws_cmp;

    let keys = m.keys().remaining();
    assert(vstd::laws_cmp::obeys_cmp::<&EntityId>());
    vstd::std_specs::btree::axiom_increasing_seq_meaning::<&EntityId>(keys);
    assert forall|i: int, j: int| 0 <= i < j < keys.len() implies keys.unref()[i]
        < keys.unref()[j] by {
        assert(vstd::std_specs::cmp::OrdSpec::cmp_spec(&keys[i], &keys[j]) is Less);
    }
}

/// The members of a `BTreeSet` come out by increasing identifier.
pub proof fn lemma_members_ascend(s: &BTreeSet<EntityId>)
    ensures
        ascending(s.iter().remaining().unref()),
{
    broadcast use vstd::laws_cmp::group_laws_cmp;

    let keys = s.iter().remaining();
    assert(vstd::laws_cmp::obeys_cmp::<&EntityId>());
    vstd::std_specs::btree::axiom_increasing_seq_meaning::<&EntityId>(keys);
    assert forall|i: int, j: int| 0 <= i < j < keys.len() implies keys.unref()[i]
        < keys.unref()[j] by {
        assert(vstd::std_specs::cmp::OrdSpec::cmp_spec(&keys[i], &keys[j]) is Less);
    }
}

/// The keys of a table, by increasing identifier.
pub fn keys_of<V>(m: &BTreeMap<EntityId, V>) -> (keys: Vec<EntityId>)
    ensures
        ascending(keys@),
        keys@.no_duplicates(),
        keys@.to_set() == m@.dom(),
{
    proof {
        lemma_keys_ascend(m);
    }
    let mut keys: Vec<EntityId> = Vec::new();
    for key in it: m.keys()
        invariant
            keys@.len() == it.index(),
            it.seq() == m.keys().remaining(),
            forall|j: int| 0 <= j < keys@.len() ==> keys@[j] == *it.seq()[j],
    {
        keys.push(*key);
    }
    assert(keys@ =~= m.keys().remaining().unref());
    keys
}

/// The members of a set of entities, by increasing identifier.
pub fn members_of(s: &BTreeSet<EntityId>) -> (members: Vec<EntityId>)
    ensures
        ascending(members@),
        members@.no_duplicates(),
        members@.to_set() == s@,
{
    proof {
        lemma_members_ascend(s);
    }
    let mut members: Vec<EntityId> = Vec::new();
    for key in it: s.iter()
        invariant
            members@.len() == it.index(),
            it.seq() == s.iter().remaining(),
            forall|j: int| 0 <= j < members@.len() ==> members@[j] == *it.seq()[j],
    {
        members.push(*key);
    }
    assert(members@ =~= s.iter().remaining().unref());
    members
}

impl EntityStore {
    /// Every entity that has both a position and a tile, by increasing
    /// identifier.
    pub fn renderables(&self) -> (items: Vec<Renderable>)
        ensures
            is_rendering_of(items@, self@),
    {
        let keys = keys_of(&self.tile);
        let mut items: Vec<Renderable> = Vec::new();
        let mut k: usize = 0;
        while k < keys.len()
            invariant
                k <= keys@.len(),
                ascending(keys@),
                keys@.to_set() == self@.tile.dom(),
                forall|i: int|
                    0 <= i < items@.len() ==> {
                        &&& self@.coord.contains_key((#[trigger] items@[i]).id)
                        &&& self@.tile.contains_key(items@[i].id)
                        &&& items@[i].coord == self@.coord[items@[i].id]
                        &&& items@[i].tile == self@.tile[items@[i].id]
                        &&& keys@.subrange(0, k as int).contains(items@[i].id)
                    },
                forall|i: int, j: int|
                    0 <= i < j < items@.len() ==> (#[trigger] items@[i]).id < (
                    #[trigger] items@[j]).id,
                forall|j: int|
                    0 <= j < k && self@.coord.contains_key(#[trigger] keys@[j])
                        ==> listed(items@, keys@[j]),
            decreases keys@.len() - k,
        {
            let id: EntityId = keys[k];
            assert(keys@.to_set().contains(id));
            let ghost before = items@;
            assert forall|i: int| 0 <= i < before.len() implies (#[trigger] before[i]).id < id by {
                let j = choose|j: int|
                    0 <= j < keys@.subrange(0, k as int).len() && keys@.subrange(0, k as int)[j]
                        == before[i].id;
                assert(keys@[j] == before[i].id);
            }
            match self.coord.get(&id) {
                Some(coord) => {
                    match self.tile.get(&id) {
                        Some(tile) => {
                            items.push(Renderable { id, coord: *coord, tile: *tile });
                            assert(items@[before.len() as int].id == id);
                        },
                        None => {},
                    }
                },
                None => {},
            }
            proof {
                let next = keys@.subrange(0, k + 1);
                assert forall|i: int| 0 <= i < items@.len() implies next.contains(
                    (#[trigger] items@[i]).id,
                ) by {
                    if i < before.len() {
                        let j = choose|j: int|
                            0 <= j < keys@.subrange(0, k as int).len() && keys@.subrange(
                                0,
                                k as int,
                            )[j] == before[i].id;
                        assert(next[j] == items@[i].id);
                    } else {
                        assert(next[k as int] == items@[i].id);
                    }
                }
                assert forall|j: int|
                    0 <= j < k + 1 && self@.coord.contains_key(#[trigger] keys@[j]) implies listed(
                    items@,
                    keys@[j],
                ) by {
                    if j < k {
                        assert(listed(before, keys@[j]));
                        let i = choose|i: int|
                            0 <= i < before.len() && (#[trigger] before[i]).id == keys@[j];
                        assert(items@[i].id == keys@[j]);
                    } else {
                        assert(items@[before.len() as int].id == keys@[j]);
                    }
                }
            }
            k = k + 1;
        }
        proof {
            assert forall|id: EntityId|
                self@.coord.contains_key(id) && self@.tile.contains_key(id) implies listed(
                items@,
                id,
            ) by {
                assert(keys@.to_set().contains(id));
                let j = choose|j: int| 0 <= j < keys@.len() && keys@[j] == id;
                assert(self@.coord.contains_key(keys@[j]));
            }
        }
        items
    }
}

impl StoreView {
    /// The actors at `coord` that a punch can hit: those that are not
    /// solid.
    pub open spec fn target_at(self, coord: Position) -> Set<EntityId> {
        Set::new(
            |id: EntityId|
                self.npc.contains(id) && !self.solid.contains(id) && self.coord.contains_key(id)
                    && self.coord[id] == coord,
        )
    }
}

impl EntityStore {
    /// Those of `candidates` that stand at `coord`, without the solid
    /// ones where `skip_solid` is set.
    fn select(&self, candidates: &Vec<EntityId>, coord: Position, skip_solid: bool) -> (found: Vec<
        EntityId,
    >)
        requires
            ascending(candidates@),
        ensures
            ascending(found@),
            forall|id: EntityId|
                found@.contains(id) <==> candidates@.contains(id) && self@.coord_of(id) == Some(
                    coord,
                ) && !(skip_solid && self@.solid.contains(id)),
    {
        let mut found: Vec<EntityId> = Vec::new();
        let mut k: usize = 0;
        while k < candidates.len()
            invariant
                k <= candidates@.len(),
                ascending(candidates@),
                ascending(found@),
                forall|id: EntityId|
                    found@.contains(id) <==> candidates@.subrange(0, k as int).contains(id)
                        && self@.coord_of(id) == Some(coord) && !(skip_solid
                        && self@.solid.contains(id)),
            decreases candidates@.len() - k,
        {
            let id: EntityId = candidates[k];
            let ghost before = found@;
            let ghost seen = candidates@.subrange(0, k as int);
            let ghost next = candidates@.subrange(0, k + 1);
            assert(next =~= seen.push(id));
            assert forall|i: int| 0 <= i < before.len() implies before[i] < id by {
                assert(before.contains(before[i]));
                let j = choose|j: int| 0 <= j < seen.len() && seen[j] == before[i];
                assert(candidates@[j] == before[i]);
            }
            let here = match self.get_coord(id) {
                Some(c) => c.x == coord.x && c.y == coord.y,
                None => false,
            };
            if here && !(skip_solid && self.is_solid(id)) {
                found.push(id);
                assert forall|other: EntityId| found@.contains(other) <==> before.contains(other)
                    || other == id by {
                    if before.contains(other) {
                        let j = choose|j: int| 0 <= j < before.len() && before[j] == other;
                        assert(found@[j] == other);
                    }
                    if other == id {
                        assert(found@[before.len() as int] == other);
                    }
                }
            }
            assert forall|other: EntityId| next.contains(other) <==> seen.contains(other) || other
                == id by {
                if seen.contains(other) {
                    let j = choose|j: int| 0 <= j < seen.len() && seen[j] == other;
                    assert(next[j] == other);
                }
                if other == id {
                    assert(next[k as int] == other);
                }
            }
            k = k + 1;
        }
        assert(candidates@.subrange(0, k as int) =~= candidates@);
        found
    }

    /// The actors standing at `coord`, by increasing identifier.
    pub fn npcs_at(&self, coord: Position) -> (found: Vec<EntityId>)
        ensures
            found@ == sorted_ids(self@.npc_at(coord)),
            ascending(found@),
            found@.to_set() == self@.npc_at(coord),
    {
        let all = members_of(&self.npc);
        let found = self.select(&all, coord, false);
        assert forall|id: EntityId| found@.to_set().contains(id) <==> self@.npc_at(coord).contains(
            id,
        ) by {
            assert(all@.to_set().contains(id) <==> all@.contains(id));
        }
        assert(found@.to_set() =~= self@.npc_at(coord));
        proof {
            lemma_is_sorted_ids(found@);
        }
        found
    }

    /// The actors standing at `coord` that are not solid, by increasing
    /// identifier.
    pub fn targets_at(&self, coord: Position) -> (found: Vec<EntityId>)
        ensures
            found@ == sorted_ids(self@.target_at(coord)),
            ascending(found@),
            found@.to_set() == self@.target_at(coord),
    {
        let all = members_of(&self.npc);
        let found = self.select(&all, coord, true);
        assert forall|id: EntityId|
            found@.to_set().contains(id) <==> self@.target_at(coord).contains(id) by {
            assert(all@.to_set().contains(id) <==> all@.contains(id));
        }
        assert(found@.to_set() =~= self@.target_at(coord));
        proof {
            lemma_is_sorted_ids(found@);
        }
        found
    }

    /// The card pickups lying at `coord`, by increasing identifier.
    pub fn cards_at(&self, coord: Position) -> (found: Vec<EntityId>)
        ensures
            found@ == sorted_ids(self@.card_at(coord)),
            ascending(found@),
            found@.to_set() == self@.card_at(coord),
    {
        let all = keys_of(&self.card);
        let found = self.select(&all, coord, false);
        assert forall|id: EntityId| found@.to_set().contains(id) <==> self@.card_at(coord).contains(
            id,
        ) by {
            assert(all@.to_set().contains(id) <==> all@.contains(id));
        }
        assert(found@.to_set() =~= self@.card_at(coord));
        proof {
            lemma_is_sorted_ids(found@);
        }
        found
    }
}

impl StoreView {
    /// The entities that hold a component of kind `typ`.
    pub open spec fn holders(self, typ: ComponentType) -> Set<EntityId> {
        match typ {
            ComponentType::Coord => self.coord.dom(),
            ComponentType::Solid => self.solid,
            ComponentType::Tile => self.tile.dom(),
            ComponentType::Player => self.player,
            ComponentType::Card => self.card.dom(),
            ComponentType::Npc => self.npc,
        }
    }

    /// The component of kind `typ` that `id` holds.
    pub open spec fn value(self, id: EntityId, typ: ComponentType) -> ComponentValue
        recommends
            self.holds(id, typ),
    {
        match typ {
            ComponentType::Coord => ComponentValue::Coord(self.coord[id]),
            ComponentType::Solid => ComponentValue::Solid,
            ComponentType::Tile => ComponentValue::Tile(self.tile[id]),
            ComponentType::Player => ComponentValue::Player,
            ComponentType::Card => ComponentValue::Card(self.card[id]),
            ComponentType::Npc => ComponentValue::Npc,
        }
    }

    /// The part of the store that a dump has written once it has
    /// finished the kinds ranked below `rank` and, of the kind ranked
    /// `rank`, the entities in `seen`.
    pub open spec fn upto(self, rank: int, seen: Set<EntityId>) -> StoreView {
        StoreView {
            coord: if rank > 0 {
                self.coord
            } else {
                self.coord.restrict(seen)
            },
            solid: if rank > 1 {
                self.solid
            } else if rank == 1 {
                self.solid.intersect(seen)
            } else {
                Set::empty()
            },
            tile: if rank > 2 {
                self.tile
            } else if rank == 2 {
                self.tile.restrict(seen)
            } else {
                Map::empty()
            },
            player: if rank > 3 {
                self.player
            } else if rank == 3 {
                self.player.intersect(seen)
            } else {
                Set::empty()
            },
            card: if rank > 4 {
                self.card
            } else if rank == 4 {
                self.card.restrict(seen)
            } else {
                Map::empty()
            },
            npc: if rank > 5 {
                self.npc
            } else if rank == 5 {
                self.npc.intersect(seen)
            } else {
                Set::empty()
            },
        }
    }
}

/// A dump that has written nothing has written the empty store.
pub proof fn lemma_upto_start(view: StoreView)
    ensures
        view.upto(0, Set::empty()) == StoreView::empty(),
{
    assert(view.coord.restrict(Set::empty()) =~= Map::empty());
}

/// Writing one more entity of a kind extends what a dump has written by
/// that entity.
pub proof fn lemma_upto_step(view: StoreView, typ: ComponentType, seen: Set<EntityId>, id: EntityId)
    requires
        view.holds(id, typ),
    ensures
        view.upto(kind_rank(typ), seen).apply(EntityChange::Insert(id, view.value(id, typ)))
            == view.upto(kind_rank(typ), seen.insert(id)),
{
    let before = view.upto(kind_rank(typ), seen);
    let after = before.apply(EntityChange::Insert(id, view.value(id, typ)));
    let wanted = view.upto(kind_rank(typ), seen.insert(id));
    assert(after.coord =~= wanted.coord);
    assert(after.solid =~= wanted.solid);
    assert(after.tile =~= wanted.tile);
    assert(after.player =~= wanted.player);
    assert(after.card =~= wanted.card);
    assert(after.npc =~= wanted.npc);
}

/// Once a dump has written every entity of a kind, it is about to
/// start on the next kind.
pub proof fn lemma_upto_next(view: StoreView, typ: ComponentType)
    ensures
        view.upto(kind_rank(typ), view.holders(typ)) == view.upto(kind_rank(typ) + 1, Set::empty()),
        kind_rank(typ) == 5 ==> view.upto(6, Set::empty()) == view,
{
    let before = view.upto(kind_rank(typ), view.holders(typ));
    let wanted = view.upto(kind_rank(typ) + 1, Set::empty());
    assert(before.coord =~= wanted.coord);
    assert(before.solid =~= wanted.solid);
    assert(before.tile =~= wanted.tile);
    assert(before.player =~= wanted.player);
    assert(before.card =~= wanted.card);
    assert(before.npc =~= wanted.npc);
}

impl EntityStore {
    /// The entities that hold a component of kind `typ`, by increasing
    /// identifier.
    pub fn ids_holding(&self, typ: ComponentType) -> (ids: Vec<EntityId>)
        ensures
            ascending(ids@),
            ids@.to_set() == self@.holders(typ),
    {
        match typ {
            ComponentType::Coord => keys_of(&self.coord),
            ComponentType::Solid => members_of(&self.solid),
            ComponentType::Tile => keys_of(&self.tile),
            ComponentType::Player => members_of(&self.player),
            ComponentType::Card => keys_of(&self.card),
            ComponentType::Npc => members_of(&self.npc),
        }
    }

    /// The component of kind `typ` that `id` holds, if it holds one.
    pub fn get(&self, id: EntityId, typ: ComponentType) -> (value: Option<ComponentValue>)
        ensures
            value == (if self@.holds(id, typ) {
                Some(self@.value(id, typ))
            } else {
                None
            }),
    {
        match typ {
            ComponentType::Coord => match self.coord.get(&id) {
                Some(c) => Some(ComponentValue::Coord(*c)),
                None => None,
            },
            ComponentType::Solid => if self.solid.contains(&id) {
                Some(ComponentValue::Solid)
            } else {
                None
            },
            ComponentType::Tile => match self.tile.get(&id) {
                Some(t) => Some(ComponentValue::Tile(*t)),
                None => None,
            },
            ComponentType::Player => if self.player.contains(&id) {
                Some(ComponentValue::Player)
            } else {
                None
            },
            ComponentType::Card => match self.card.get(&id) {
                Some(c) => Some(ComponentValue::Card(*c)),
                None => None,
            },
            ComponentType::Npc => if self.npc.contains(&id) {
                Some(ComponentValue::Npc)
            } else {
                None
            },
        }
    }

    /// Appends the insertion of every component of kind `typ`, by
    /// increasing identifier.
    fn dump_kind(&self, typ: ComponentType, changes: &mut Vec<EntityChange>)
        ensures
            final(changes)@ == old(changes)@ + kind_dump(self@, typ),
            listable(self@, typ),
    {
        let ids = self.ids_holding(typ);
        let mut k: usize = 0;
        proof {
            lemma_is_sorted_ids(ids@);
            assert(changes@ =~= old(changes)@ + insertions(self@, typ, ids@.take(0)));
        }
        while k < ids.len()
            invariant
                k <= ids@.len(),
                ids@.to_set() == self@.holders(typ),
                changes@ == old(changes)@ + insertions(self@, typ, ids@.take(k as int)),
            decreases ids@.len() - k,
        {
            let id: EntityId = ids[k];
            let ghost before = changes@;
            assert(ids@.to_set().contains(id));
            match self.get(id, typ) {
                Some(value) => {
                    changes.push(EntityChange::Insert(id, value));
                },
                None => {},
            }
            k = k + 1;
            assert(changes@ =~= old(changes)@ + insertions(self@, typ, ids@.take(k as int)));
        }
        assert(ids@.take(k as int) =~= ids@);
    }

    /// Appends to `changes` the list of insertions that builds this
    /// store from an empty one: one insertion for each component that
    /// the store holds, kind by kind and by increasing identifier.
    pub fn clone_changes(&self, changes: &mut Vec<EntityChange>)
        ensures
            final(changes)@ == old(changes)@ + spec_dump(self@),
            is_dump_of(spec_dump(self@), self@),
            StoreView::empty().replay(spec_dump(self@)) == self@,
            final(changes)@.len() >= old(changes)@.len(),
            final(changes)@.take(old(changes)@.len() as int) == old(changes)@,
            StoreView::empty().replay(final(changes)@.skip(old(changes)@.len() as int)) == self@,
    {
        self.dump_kind(ComponentType::Coord, changes);
        self.dump_kind(ComponentType::Solid, changes);
        self.dump_kind(ComponentType::Tile, changes);
        self.dump_kind(ComponentType::Player, changes);
        self.dump_kind(ComponentType::Card, changes);
        self.dump_kind(ComponentType::Npc, changes);
        proof {
            assert(changes@ =~= old(changes)@ + spec_dump(self@));
            lemma_dump_lists_entries(self@);
            lemma_dump_replays(self@);
            assert(changes@.skip(old(changes)@.len() as int) =~= spec_dump(self@));
            assert(changes@.take(old(changes)@.len() as int) =~= old(changes)@);
        }
    }
}

/// The insertion, for each of `ids` in order, of the component of kind
/// `typ` that it holds in `view`.
pub open spec fn insertions(view: StoreView, typ: ComponentType, ids: Seq<EntityId>) -> Seq<
    EntityChange,
> {
    Seq::new(ids.len(), |i: int| EntityChange::Insert(ids[i], view.value(ids[i], typ)))
}

/// The insertion of every component of kind `typ` that `view` holds, by
/// increasing identifier.
pub open spec fn kind_dump(view: StoreView, typ: ComponentType) -> Seq<EntityChange> {
    insertions(view, typ, sorted_ids(view.holders(typ)))
}

/// The insertion of every component that `view` holds, kind by kind in
/// the order of [`ComponentType`]'s variants, and by increasing
/// identifier within a kind.
pub open spec fn spec_dump(view: StoreView) -> Seq<EntityChange> {
    kind_dump(view, ComponentType::Coord) + kind_dump(view, ComponentType::Solid) + kind_dump(
        view,
        ComponentType::Tile,
    ) + kind_dump(view, ComponentType::Player) + kind_dump(view, ComponentType::Card) + kind_dump(
        view,
        ComponentType::Npc,
    )
}

/// The holders of kind `typ` can be listed by increasing identifier,
/// which is so for every store: there are finitely many of them.
pub open spec fn listable(view: StoreView, typ: ComponentType) -> bool {
    ascending(sorted_ids(view.holders(typ))) && sorted_ids(view.holders(typ)).to_set()
        == view.holders(typ)
}

/// `log` holds insertions only, of components of kinds ranked below
/// `rank`: one for each such component that `view` holds, with the value
/// it holds, none for a component it does not hold, and none twice.
pub open spec fn dumps_below(log: Seq<EntityChange>, view: StoreView, rank: int) -> bool {
    &&& forall|i: int|
        0 <= i < log.len() ==> {
            &&& (#[trigger] log[i]) is Insert
            &&& kind_rank(log[i].spec_typ()) < rank
            &&& view.holds(log[i].spec_entity(), log[i].spec_typ())
            &&& log[i] == EntityChange::Insert(
                log[i].spec_entity(),
                view.value(log[i].spec_entity(), log[i].spec_typ()),
            )
        }
    &&& forall|i: int, j: int|
        0 <= i < j < log.len() ==> !((#[trigger] log[i]).spec_entity() == (
        #[trigger] log[j]).spec_entity() && log[i].spec_typ() == log[j].spec_typ())
    &&& forall|id: EntityId, typ: ComponentType|
        kind_rank(typ) < rank && #[trigger] view.holds(id, typ) ==> log.contains(
            EntityChange::Insert(id, view.value(id, typ)),
        )
}

/// `log` holds insertions only: exactly one for each component that
/// `view` holds, with the value it holds.
pub open spec fn is_dump_of(log: Seq<EntityChange>, view: StoreView) -> bool {
    dumps_below(log, view, 6)
}

/// A dump of the kinds ranked below that of `typ`, followed by the
/// insertions of kind `typ`, is a dump of the kinds up to `typ`.
pub proof fn lemma_dump_join(log: Seq<EntityChange>, view: StoreView, typ: ComponentType)
    requires
        dumps_below(log, view, kind_rank(typ)),
        listable(view, typ),
    ensures
        dumps_below(log + kind_dump(view, typ), view, kind_rank(typ) + 1),
{
    let ids = sorted_ids(view.holders(typ));
    let more = kind_dump(view, typ);
    let all = log + more;
    let rank = kind_rank(typ);
    assert forall|k: int| 0 <= k < more.len() implies {
        &&& (#[trigger] more[k]).spec_entity() == ids[k]
        &&& more[k].spec_typ() == typ
        &&& view.holds(ids[k], typ)
        &&& more[k] == EntityChange::Insert(ids[k], view.value(ids[k], typ))
    } by {
        assert(ids.to_set().contains(ids[k]));
    }
    assert forall|i: int| 0 <= i < all.len() implies {
        &&& (#[trigger] all[i]) is Insert
        &&& kind_rank(all[i].spec_typ()) < rank + 1
        &&& view.holds(all[i].spec_entity(), all[i].spec_typ())
        &&& all[i] == EntityChange::Insert(
            all[i].spec_entity(),
            view.value(all[i].spec_entity(), all[i].spec_typ()),
        )
    } by {
        if i < log.len() {
            assert(all[i] == log[i]);
        } else {
            assert(all[i] == more[i - log.len()]);
        }
    }
    assert forall|i: int, j: int| 0 <= i < j < all.len() implies !((
    #[trigger] all[i]).spec_entity() == (#[trigger] all[j]).spec_entity() && all[i].spec_typ()
        == all[j].spec_typ()) by {
        if j < log.len() {
            assert(all[i] == log[i] && all[j] == log[j]);
        } else if i < log.len() {
            assert(all[i] == log[i]);
            assert(all[j] == more[j - log.len()]);
            assert(kind_rank(log[i].spec_typ()) < rank);
        } else {
            assert(all[i] == more[i - log.len()]);
            assert(all[j] == more[j - log.len()]);
            assert(ids[i - log.len()] < ids[j - log.len()]);
        }
    }
    assert forall|id: EntityId, other: ComponentType|
        kind_rank(other) < rank + 1 && #[trigger] view.holds(id, other) implies all.contains(
        EntityChange::Insert(id, view.value(id, other)),
    ) by {
        let wanted = EntityChange::Insert(id, view.value(id, other));
        if kind_rank(other) < rank {
            assert(log.contains(wanted));
            let i = choose|i: int| 0 <= i < log.len() && log[i] == wanted;
            assert(all[i] == wanted);
        } else {
            assert(other == typ);
            assert(view.holders(typ).contains(id));
            assert(ids.to_set().contains(id));
            let k = choose|k: int| 0 <= k < ids.len() && ids[k] == id;
            assert(more[k] == wanted);
            assert(all[log.len() + k] == wanted);
        }
    }
}

/// The dump of a store whose holders can be listed holds insertions
/// only: exactly one for each component that the store holds.
pub proof fn lemma_dump_lists_entries(view: StoreView)
    requires
        listable(view, ComponentType::Coord),
        listable(view, ComponentType::Solid),
        listable(view, ComponentType::Tile),
        listable(view, ComponentType::Player),
        listable(view, ComponentType::Card),
        listable(view, ComponentType::Npc),
    ensures
        is_dump_of(spec_dump(view), view),
{
    let d0 = Seq::<EntityChange>::empty();
    let d1 = d0 + kind_dump(view, ComponentType::Coord);
    let d2 = d1 + kind_dump(view, ComponentType::Solid);
    let d3 = d2 + kind_dump(view, ComponentType::Tile);
    let d4 = d3 + kind_dump(view, ComponentType::Player);
    let d5 = d4 + kind_dump(view, ComponentType::Card);
    let d6 = d5 + kind_dump(view, ComponentType::Npc);
    assert(dumps_below(d0, view, 0));
    lemma_dump_join(d0, view, ComponentType::Coord);
    lemma_dump_join(d1, view, ComponentType::Solid);
    lemma_dump_join(d2, view, ComponentType::Tile);
    lemma_dump_join(d3, view, ComponentType::Player);
    lemma_dump_join(d4, view, ComponentType::Card);
    lemma_dump_join(d5, view, ComponentType::Npc);
    assert(d1 =~= kind_dump(view, ComponentType::Coord));
    assert(d6 == spec_dump(view));
}

/// Replaying the insertions of kind `typ` for `ids` extends what a dump
/// has written by those entities.
pub proof fn lemma_insertions_replay(
    base: StoreView,
    view: StoreView,
    typ: ComponentType,
    ids: Seq<EntityId>,
)
    requires
        base == view.upto(kind_rank(typ), Set::empty()),
        forall|i: int| 0 <= i < ids.len() ==> view.holds(#[trigger] ids[i], typ),
    ensures
        base.replay(insertions(view, typ, ids)) == view.upto(kind_rank(typ), ids.to_set()),
    decreases ids.len(),
{
    let log = insertions(view, typ, ids);
    if ids.len() == 0 {
        assert(ids.to_set() =~= Set::<EntityId>::empty());
    } else {
        let front = ids.drop_last();
        let id = ids.last();
        lemma_insertions_replay(base, view, typ, front);
        assert(log.drop_last() =~= insertions(view, typ, front));
        assert(log.last() == EntityChange::Insert(id, view.value(id, typ)));
        lemma_upto_step(view, typ, front.to_set(), id);
        assert(ids.to_set() =~= front.to_set().insert(id)) by {
            assert forall|other: EntityId|
                ids.to_set().contains(other) <==> front.to_set().insert(id).contains(other) by {
                if front.contains(other) {
                    let j = choose|j: int| 0 <= j < front.len() && front[j] == other;
                    assert(ids[j] == other);
                }
                if ids.contains(other) {
                    let j = choose|j: int| 0 <= j < ids.len() && ids[j] == other;
                    if j < front.len() {
                        assert(front[j] == other);
                    }
                }
                if other == id {
                    assert(ids[ids.len() - 1] == other);
                }
            }
        }
    }
}

/// Replaying the dump of a store whose holders can be listed, on empty
/// tables, gives the store.
pub proof fn lemma_dump_replays(view: StoreView)
    requires
        listable(view, ComponentType::Coord),
        listable(view, ComponentType::Solid),
        listable(view, ComponentType::Tile),
        listable(view, ComponentType::Player),
        listable(view, ComponentType::Card),
        listable(view, ComponentType::Npc),
    ensures
        StoreView::empty().replay(spec_dump(view)) == view,
{
    let empty = StoreView::empty();
    let k0 = kind_dump(view, ComponentType::Coord);
    let k1 = kind_dump(view, ComponentType::Solid);
    let k2 = kind_dump(view, ComponentType::Tile);
    let k3 = kind_dump(view, ComponentType::Player);
    let k4 = kind_dump(view, ComponentType::Card);
    let k5 = kind_dump(view, ComponentType::Npc);
    lemma_upto_start(view);
    lemma_kind_replays(view, ComponentType::Coord);
    lemma_kind_replays(view, ComponentType::Solid);
    lemma_kind_replays(view, ComponentType::Tile);
    lemma_kind_replays(view, ComponentType::Player);
    lemma_kind_replays(view, ComponentType::Card);
    lemma_kind_replays(view, ComponentType::Npc);
    lemma_replay_concat(empty, k0, k1);
    lemma_replay_concat(empty, k0 + k1, k2);
    lemma_replay_concat(empty, k0 + k1 + k2, k3);
    lemma_replay_concat(empty, k0 + k1 + k2 + k3, k4);
    lemma_replay_concat(empty, k0 + k1 + k2 + k3 + k4, k5);
    lemma_upto_next(view, ComponentType::Npc);
}

/// Replaying the insertions of one kind, on what a dump has written of
/// the kinds before it, gives what the dump has written up to the next
/// kind.
pub proof fn lemma_kind_replays(view: StoreView, typ: ComponentType)
    requires
        listable(view, typ),
    ensures
        view.upto(kind_rank(typ), Set::empty()).replay(kind_dump(view, typ)) == view.upto(
            kind_rank(typ) + 1,
            Set::empty(),
        ),
{
    let ids = sorted_ids(view.holders(typ));
    assert forall|i: int| 0 <= i < ids.len() implies view.holds(#[trigger] ids[i], typ) by {
        assert(ids.to_set().contains(ids[i]));
    }
    lemma_insertions_replay(view.upto(kind_rank(typ), Set::empty()), view, typ, ids);
    lemma_upto_next(view, typ);
}

/// Hands out entity identifiers in increasing order, each one once.
#[derive(Clone, Copy, Debug, PartialEq, Eq, Structural)]
pub struct EntityIdAllocator {
    pub next: EntityId,
}

impl EntityIdAllocator {
    pub fn new() -> (a: EntityIdAllocator)
        ensures
            a.next == 0,
    {
        EntityIdAllocator { next: 0 }
    }

    /// Whether another identifier can be handed out.
    pub open spec fn spec_has_next(self) -> bool {
        self.next < u64::MAX
    }

    pub fn has_next(&self) -> (b: bool)
        ensures
            b == self.spec_has_next(),
    {
        self.next < u64::MAX
    }

    /// Returns an identifier that no earlier call on this allocator has
    /// returned.
    pub fn allocate(&mut self) -> (id: EntityId)
        requires
            old(self).spec_has_next(),
        ensures
            id == old(self).next,
            final(self).next == old(self).next + 1,
    {
        let id: EntityId = self.next;
        self.next = self.next + 1;
        id
    }
}

/// Which kinds of component one entity holds.
#[derive(Clone, Copy, Debug, PartialEq, Eq, Structural)]
pub struct ComponentFlags {
    pub coord: bool,
    pub solid: bool,
    pub tile: bool,
    pub player: bool,
    pub card: bool,
    pub npc: bool,
}

impl ComponentFlags {
    pub open spec fn spec_none() -> ComponentFlags {
        ComponentFlags {
            coord: false,
            solid: false,
            tile: false,
            player: false,
            card: false,
            npc: false,
        }
    }

    pub open spec fn spec_get(self, typ: ComponentType) -> bool {
        match typ {
            ComponentType::Coord => self.coord,
            ComponentType::Solid => self.solid,
            ComponentType::Tile => self.tile,
            ComponentType::Player => self.player,
            ComponentType::Card => self.card,
            ComponentType::Npc => self.npc,
        }
    }

    pub open spec fn spec_set(self, typ: ComponentType, present: bool) -> ComponentFlags {
        match typ {
            ComponentType::Coord => ComponentFlags { coord: present, ..self },
            ComponentType::Solid => ComponentFlags { solid: present, ..self },
            ComponentType::Tile => ComponentFlags { tile: present, ..self },
            ComponentType::Player => ComponentFlags { player: present, ..self },
            ComponentType::Card => ComponentFlags { card: present, ..self },
            ComponentType::Npc => ComponentFlags { npc: present, ..self },
        }
    }

    /// The kinds that are present, in the order of [`ComponentType`]'s
    /// variants.
    pub open spec fn spec_kinds(self) -> Seq<ComponentType> {
        kind_if(self.coord, ComponentType::Coord) + kind_if(self.solid, ComponentType::Solid)
            + kind_if(self.tile, ComponentType::Tile) + kind_if(
            self.player,
            ComponentType::Player,
        ) + kind_if(self.card, ComponentType::Card) + kind_if(self.npc, ComponentType::Npc)
    }

    pub fn none() -> (f: ComponentFlags)
        ensures
            f == ComponentFlags::spec_none(),
    {
        ComponentFlags {
            coord: false,
            solid: false,
            tile: false,
            player: false,
            card: false,
            npc: false,
        }
    }

    pub fn get(&self, typ: ComponentType) -> (b: bool)
        ensures
            b == self.spec_get(typ),
    {
        match typ {
            ComponentType::Coord => self.coord,
            ComponentType::Solid => self.solid,
            ComponentType::Tile => self.tile,
            ComponentType::Player => self.player,
            ComponentType::Card => self.card,
            ComponentType::Npc => self.npc,
        }
    }

    pub fn set(&mut self, typ: ComponentType, present: bool)
        ensures
            *final(self) == old(self).spec_set(typ, present),
    {
        match typ {
            ComponentType::Coord => {
                self.coord = present;
            },
            ComponentType::Solid => {
                self.solid = present;
            },
            ComponentType::Tile => {
                self.tile = present;
            },
            ComponentType::Player => {
                self.player = present;
            },
            ComponentType::Card => {
                self.card = present;
            },
            ComponentType::Npc => {
                self.npc = present;
            },
        }
    }

    pub fn is_none(&self) -> (b: bool)
        ensures
            b == (*self == ComponentFlags::spec_none()),
    {
        !self.coord && !self.solid && !self.tile && !self.player && !self.card && !self.npc
    }

    /// The kinds that are present, in the order of [`ComponentType`]'s
    /// variants.
    pub fn kinds(&self) -> (v: Vec<ComponentType>)
        ensures
            v@ == self.spec_kinds(),
            v@.len() <= 6,
            forall|typ: ComponentType| v@.contains(typ) <==> self.spec_get(typ),
    {
        let mut v: Vec<ComponentType> = Vec::new();
        if self.coord {
            v.push(ComponentType::Coord);
        }
        assert(v@ =~= kind_if(self.coord, ComponentType::Coord));
        if self.solid {
            v.push(ComponentType::Solid);
        }
        let ghost s2 = kind_if(self.coord, ComponentType::Coord) + kind_if(
            self.solid,
            ComponentType::Solid,
        );
        assert(v@ =~= s2);
        if self.tile {
            v.push(ComponentType::Tile);
        }
        let ghost s3 = s2 + kind_if(self.tile, ComponentType::Tile);
        assert(v@ =~= s3);
        if self.player {
            v.push(ComponentType::Player);
        }
        let ghost s4 = s3 + kind_if(self.player, ComponentType::Player);
        assert(v@ =~= s4);
        if self.card {
            v.push(ComponentType::Card);
        }
        let ghost s5 = s4 + kind_if(self.card, ComponentType::Card);
        assert(v@ =~= s5);
        if self.npc {
            v.push(ComponentType::Npc);
        }
        let ghost s6 = s5 + kind_if(self.npc, ComponentType::Npc);
        assert(v@ =~= s6);
        proof {
            lemma_kinds_members(*self);
        }
        v
    }
}

/// The position of a kind among [`ComponentType`]'s variants.
pub open spec fn kind_rank(typ: ComponentType) -> int {
    match typ {
        ComponentType::Coord => 0,
        ComponentType::Solid => 1,
        ComponentType::Tile => 2,
        ComponentType::Player => 3,
        ComponentType::Card => 4,
        ComponentType::Npc => 5,
    }
}

/// The one-element list of `typ` where `present`, the empty list
/// otherwise.
pub open spec fn kind_if(present: bool, typ: ComponentType) -> Seq<ComponentType> {
    if present {
        seq![typ]
    } else {
        Seq::empty()
    }
}

/// `s` lists, once each, exactly the kinds ranked below `k` whose flag
/// is set.
pub open spec fn lists_kinds_below(s: Seq<ComponentType>, flags: ComponentFlags, k: int) -> bool {
    &&& forall|i: int| 0 <= i < s.len() ==> kind_rank(#[trigger] s[i]) < k && flags.spec_get(s[i])
    &&& forall|typ: ComponentType|
        flags.spec_get(typ) && kind_rank(typ) < k ==> #[trigger] s.contains(typ)
    &&& s.no_duplicates()
    &&& s.len() <= k
}

proof fn lemma_lists_kinds_step(
    s: Seq<ComponentType>,
    flags: ComponentFlags,
    k: int,
    typ: ComponentType,
)
    requires
        lists_kinds_below(s, flags, k),
        kind_rank(typ) == k,
    ensures
        lists_kinds_below(s + kind_if(flags.spec_get(typ), typ), flags, k + 1),
{
    let t = s + kind_if(flags.spec_get(typ), typ);
    assert forall|other: ComponentType|
        flags.spec_get(other) && kind_rank(other) < k + 1 implies #[trigger] t.contains(other) by {
        if kind_rank(other) < k {
            assert(s.contains(other));
            let i = choose|i: int| 0 <= i < s.len() && s[i] == other;
            assert(t[i] == other);
        } else {
            assert(other == typ);
            assert(t[s.len() as int] == other);
        }
    }
}

/// A kind is listed exactly when its flag is set, and none is listed
/// twice.
pub proof fn lemma_kinds_members(flags: ComponentFlags)
    ensures
        forall|typ: ComponentType| flags.spec_kinds().contains(typ) <==> flags.spec_get(typ),
        flags.spec_kinds().no_duplicates(),
        flags.spec_kinds().len() <= 6,
{
    let s0 = Seq::<ComponentType>::empty();
    let s1 = s0 + kind_if(flags.coord, ComponentType::Coord);
    let s2 = s1 + kind_if(flags.solid, ComponentType::Solid);
    let s3 = s2 + kind_if(flags.tile, ComponentType::Tile);
    let s4 = s3 + kind_if(flags.player, ComponentType::Player);
    let s5 = s4 + kind_if(flags.card, ComponentType::Card);
    let s6 = s5 + kind_if(flags.npc, ComponentType::Npc);
    assert(lists_kinds_below(s0, flags, 0));
    lemma_lists_kinds_step(s0, flags, 0, ComponentType::Coord);
    lemma_lists_kinds_step(s1, flags, 1, ComponentType::Solid);
    lemma_lists_kinds_step(s2, flags, 2, ComponentType::Tile);
    lemma_lists_kinds_step(s3, flags, 3, ComponentType::Player);
    lemma_lists_kinds_step(s4, flags, 4, ComponentType::Card);
    lemma_lists_kinds_step(s5, flags, 5, ComponentType::Npc);
    assert(s1 =~= kind_if(flags.coord, ComponentType::Coord));
    assert(s6 == flags.spec_kinds());
    assert forall|typ: ComponentType| s6.contains(typ) implies flags.spec_get(typ) by {
        let i = choose|i: int| 0 <= i < s6.len() && s6[i] == typ;
        assert(flags.spec_get(s6[i]));
    }
    assert forall|typ: ComponentType| flags.spec_get(typ) implies s6.contains(typ) by {
        assert(kind_rank(typ) < 6);
    }
}

/// For each entity, the kinds of component it currently holds.
pub struct EntityComponentTable {
    pub table: BTreeMap<EntityId, ComponentFlags>,
}

impl EntityComponentTable {
    /// The flags recorded for `id`; all unset where nothing is recorded.
    pub open spec fn flags_of(&self, id: EntityId) -> ComponentFlags {
        if self.table@.contains_key(id) {
            self.table@[id]
        } else {
            ComponentFlags::spec_none()
        }
    }

    /// The table records exactly what `view` holds.
    pub open spec fn mirrors(&self, view: StoreView) -> bool {
        forall|id: EntityId, typ: ComponentType|
            #![trigger self.flags_of(id).spec_get(typ)]
            #![trigger view.holds(id, typ)]
            self.flags_of(id).spec_get(typ) == view.holds(id, typ)
    }

    pub fn new() -> (t: EntityComponentTable)
        ensures
            t.table@ == Map::<EntityId, ComponentFlags>::empty(),
            t.mirrors(StoreView::empty()),
    {
        EntityComponentTable { table: BTreeMap::new() }
    }

    /// Records the effect of `change`: the entity gains or loses the
    /// kind that the change names. An entity left with nothing is
    /// forgotten.
    pub fn update(&mut self, change: &EntityChange)
        ensures
            forall|id: EntityId|
                #![trigger final(self).flags_of(id)]
                final(self).flags_of(id) == (if id == change.spec_entity() {
                    old(self).flags_of(id).spec_set(change.spec_typ(), change is Insert)
                } else {
                    old(self).flags_of(id)
                }),
    {
        let id: EntityId = change.entity();
        let typ = change.typ();
        let present = match change {
            EntityChange::Insert(_, _) => true,
            EntityChange::Remove(_, _) => false,
        };
        let mut flags = match self.table.get(&id) {
            Some(f) => *f,
            None => ComponentFlags::none(),
        };
        flags.set(typ, present);
        if flags.is_none() {
            self.table.remove(&id);
        } else {
            self.table.insert(id, flags);
        }
    }

    /// The kinds of component that `id` holds, in the order of
    /// [`ComponentType`]'s variants.
    pub fn components(&self, id: EntityId) -> (v: Vec<ComponentType>)
        ensures
            v@ == self.flags_of(id).spec_kinds(),
            v@.len() <= 6,
            forall|typ: ComponentType| v@.contains(typ) <==> self.flags_of(id).spec_get(typ),
    {
        match self.table.get(&id) {
            Some(f) => f.kinds(),
            None => {
                let v: Vec<ComponentType> = Vec::new();
                proof {
                    lemma_kinds_members(ComponentFlags::spec_none());
                    assert(v@ =~= ComponentFlags::spec_none().spec_kinds());
                }
                v
            },
        }
    }
}

/// A table that mirrors a store still mirrors it after both have taken
/// the same change.
pub proof fn lemma_mirrors_apply(
    before: &EntityComponentTable,
    after: &EntityComponentTable,
    view: StoreView,
    change: EntityChange,
)
    requires
        before.mirrors(view),
        forall|id: EntityId|
            #![trigger after.flags_of(id)]
            after.flags_of(id) == (if id == change.spec_entity() {
                before.flags_of(id).spec_set(change.spec_typ(), change is Insert)
            } else {
                before.flags_of(id)
            }),
    ensures
        after.mirrors(view.apply(change)),
{
    assert forall|id: EntityId, typ: ComponentType|
        after.flags_of(id).spec_get(typ) == view.apply(change).holds(id, typ) by {
        assert(before.flags_of(id).spec_get(typ) == view.holds(id, typ));
    }
}

} // verus!
