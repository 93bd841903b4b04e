//! A per-cell summary of what the entity store holds at each position of
//! a rectangular grid.

use crate::entity_store::ComponentType;
use crate::entity_store::ComponentValue;
use crate::entity_store::EntityChange;
use crate::entity_store::EntityId;
use crate::entity_store::EntityStore;
use crate::entity_store::lemma_tree_map_bounded;
use crate::entity_store::lemma_tree_set_finite;
use crate::entity_store::StoreView;
use crate::geometry::lemma_index_in_range;
use crate::geometry::lemma_index_injective;
use crate::geometry::Position;
use crate::geometry::Size;
use std::collections::BTreeSet;
use vstd::prelude::*;

verus! {

broadcast use vstd::std_specs::btree::group_btree_axioms;

/// What is known about one cell of the grid.
pub struct SpatialHashCell {
    /// How many entities here block movement.
    pub solid_count: usize,
    /// The non-player actors standing here.
    pub npc_set: BTreeSet<EntityId>,
    /// The turn in which this cell was last touched by a change.
    pub last_updated: u64,
}

/// One [`SpatialHashCell`] for each cell of a grid, in row-major order.
pub struct SpatialHashTable {
    pub size: Size,
    pub cells: Vec<SpatialHashCell>,
}

/// Whether committing `change` to `view` touches the cell at `coord`:
/// the cell an entity leaves or enters, or the cell of an entity that
/// starts or stops being solid or an actor.
pub open spec fn touches(view: StoreView, change: EntityChange, coord: Position) -> bool {
    let id = change.spec_entity();
    match change.spec_typ() {
        ComponentType::Coord => view.coord_of(id) == Some(coord) || change == EntityChange::Insert(
            id,
            ComponentValue::Coord(coord),
        ),
        ComponentType::Solid | ComponentType::Npc => view.coord_of(id) == Some(coord),
        _ => false,
    }
}

/// The turn in which the cell at `coord` was last touched once the
/// changes of `log` have been committed to `view`, one per turn from
/// turn `turn` on, the cell having last been touched in turn `stamp`
/// before: the turn of the last of them that touches it.
pub open spec fn stamp_after(
    view: StoreView,
    log: Seq<EntityChange>,
    turn: int,
    coord: Position,
    stamp: int,
) -> int
    decreases log.len(),
{
    if log.len() == 0 {
        stamp
    } else if touches(view.replay(log.drop_last()), log.last(), coord) {
        turn + log.len() - 1
    } else {
        stamp_after(view, log.drop_last(), turn, coord, stamp)
    }
}

/// The stamp after two lists of changes is the stamp after the second,
/// committed on top of the first.
pub proof fn lemma_stamp_concat(
    view: StoreView,
    a: Seq<EntityChange>,
    b: Seq<EntityChange>,
    turn: int,
    coord: Position,
    stamp: int,
)
    ensures
        stamp_after(view, a + b, turn, coord, stamp) == stamp_after(
            view.replay(a),
            b,
            turn + a.len(),
            coord,
            stamp_after(view, a, turn, coord, stamp),
        ),
    decreases b.len(),
{
    if b.len() == 0 {
        assert(a + b =~= a);
    } else {
        lemma_stamp_concat(view, a, b.drop_last(), turn, coord, stamp);
        crate::entity_store::lemma_replay_concat(view, a, b.drop_last());
        assert((a + b).drop_last() =~= a + b.drop_last());
        assert((a + b).last() == b.last());
    }
}

/// Each cell of `after` bears the stamp that committing `log` to `view`,
/// one change per turn from turn `turn` on, leaves on the cell as it was
/// in `before`.
pub open spec fn stamps_follow(
    after: SpatialHashTable,
    before: SpatialHashTable,
    view: StoreView,
    log: Seq<EntityChange>,
    turn: int,
) -> bool {
    forall|coord: Position|
        #![trigger after.spec_cell(coord)]
        before.size.contains(coord) ==> after.spec_cell(coord).last_updated == stamp_after(
            view,
            log,
            turn,
            coord,
            before.spec_cell(coord).last_updated as int,
        )
}

/// Stamps that follow one list of changes and then another follow the
/// two lists joined.
pub proof fn lemma_stamps_chain(
    first: SpatialHashTable,
    second: SpatialHashTable,
    third: SpatialHashTable,
    view: StoreView,
    a: Seq<EntityChange>,
    b: Seq<EntityChange>,
    turn: int,
)
    requires
        first.size == second.size,
        stamps_follow(second, first, view, a, turn),
        stamps_follow(third, second, view.replay(a), b, turn + a.len()),
    ensures
        stamps_follow(third, first, view, a + b, turn),
{
    assert forall|coord: Position| first.size.contains(coord) implies (#[trigger] third.spec_cell(
        coord,
    )).last_updated == stamp_after(
        view,
        a + b,
        turn,
        coord,
        first.spec_cell(coord).last_updated as int,
    ) by {
        lemma_stamp_concat(view, a, b, turn, coord, first.spec_cell(coord).last_updated as int);
        assert(second.spec_cell(coord).last_updated == stamp_after(
            view,
            a,
            turn,
            coord,
            first.spec_cell(coord).last_updated as int,
        ));
    }
}

impl SpatialHashTable {
    /// There is exactly one cell for each position of the grid.
    pub open spec fn wf(&self) -> bool {
        &&& self.size.count() <= usize::MAX
        &&& self.cells@.len() == self.size.count()
    }

    /// The cell at `coord`, which must lie inside the grid.
    pub open spec fn spec_cell(&self, coord: Position) -> SpatialHashCell
        recommends
            self.size.contains(coord),
    {
        self.cells@[self.size.spec_index(coord)]
    }

    /// Each cell counts the solid entities and lists the actors that
    /// `view` places there.
    pub open spec fn reflects(&self, view: StoreView) -> bool {
        &&& self.wf()
        &&& forall|coord: Position|
            #![trigger self.spec_cell(coord)]
            self.size.contains(coord) ==> {
                &&& self.spec_cell(coord).solid_count == view.solid_at(coord).len()
                &&& self.spec_cell(coord).npc_set@ == view.npc_at(coord)
            }
    }

    /// Every cell was last touched in turn 0.
    pub open spec fn unstamped(&self) -> bool {
        forall|coord: Position|
            #![trigger self.spec_cell(coord)]
            self.size.contains(coord) ==> self.spec_cell(coord).last_updated == 0
    }

    /// A table for an empty store, with every cell last touched in
    /// turn 0.
    pub fn new(size: Size) -> (table: SpatialHashTable)
        requires
            size.count() <= usize::MAX,
        ensures
            table.size == size,
            table.reflects(StoreView::empty()),
            forall|coord: Position|
                #![trigger table.spec_cell(coord)]
                size.contains(coord) ==> table.spec_cell(coord).last_updated == 0,
    {
        let width: usize = size.width as usize;
        let height: usize = size.height as usize;
        let total: usize = width * height;
        let mut cells: Vec<SpatialHashCell> = Vec::new();
        let mut i: usize = 0;
        while i < total
            invariant
                i <= total,
                cells@.len() == i,
                forall|j: int|
                    0 <= j < i ==> {
                        &&& (#[trigger] cells@[j]).solid_count == 0
                        &&& cells@[j].npc_set@ == Set::<EntityId>::empty()
                        &&& cells@[j].last_updated == 0
                    },
            decreases total - i,
        {
            cells.push(SpatialHashCell { solid_count: 0, npc_set: BTreeSet::new(), last_updated: 0 });
            i = i + 1;
        }
        let table = SpatialHashTable { size, cells };
        proof {
            assert forall|coord: Position| size.contains(coord) implies {
                &&& (#[trigger] table.spec_cell(coord)).solid_count == StoreView::empty().solid_at(
                    coord,
                ).len()
                &&& table.spec_cell(coord).npc_set@ == StoreView::empty().npc_at(coord)
                &&& table.spec_cell(coord).last_updated == 0
            } by {
                lemma_index_in_range(size, coord);
                assert(StoreView::empty().solid_at(coord) =~= Set::<EntityId>::empty());
                assert(StoreView::empty().npc_at(coord) =~= Set::<EntityId>::empty());
            }
        }
        table
    }

    pub fn width(&self) -> (w: u32)
        ensures
            w == self.size.width,
    {
        self.size.width
    }

    pub fn height(&self) -> (h: u32)
        ensures
            h == self.size.height,
    {
        self.size.height
    }

    /// The summary of the cell at `coord`, or nothing where `coord` lies
    /// outside the grid.
    pub fn get(&self, coord: Position) -> (r: Option<&SpatialHashCell>)
        requires
            self.wf(),
        ensures
            r is Some <==> self.size.contains(coord),
            r matches Some(cell) ==> *cell == self.spec_cell(coord),
    {
        match self.size.index_of(coord) {
            Some(i) => Some(&self.cells[i]),
            None => None,
        }
    }

    /// The cell that the table holds for `coord`, whatever is known of
    /// the table: the one at the row-major index of `coord`, where
    /// `coord` lies inside the size and the table has that many cells.
    pub open spec fn spec_lookup(&self, coord: Position) -> Option<SpatialHashCell> {
        if self.size.contains(coord) && self.size.spec_index(coord) < self.cells@.len() {
            Some(self.cells@[self.size.spec_index(coord)])
        } else {
            None
        }
    }

    /// The summary of the cell at `coord` like [`get`](Self::get), for
    /// a table of which nothing is known: where the table holds no
    /// such cell the answer is nothing.
    pub fn lookup(&self, coord: Position) -> (r: Option<&SpatialHashCell>)
        ensures
            r is Some <==> self.spec_lookup(coord) is Some,
            r matches Some(cell) ==> self.spec_lookup(coord) == Some(*cell),
            self.wf() ==> (r is Some <==> self.size.contains(coord)),
            self.wf() ==> (r matches Some(cell) ==> *cell == self.spec_cell(coord)),
    {
        if !self.size.is_valid(coord) {
            return None;
        }
        let row: u64 = coord.y as u64;
        let column: u64 = coord.x as u64;
        let width: u64 = self.size.width as u64;
        assert(row * width + column < 0x1_0000_0000 * 0x1_0000_0000) by (nonlinear_arith)
            requires
                0 <= row < 0x1_0000_0000,
                0 <= column < width,
                width <= 0x1_0000_0000,
        ;
        let index: u64 = row * width + column;
        let len: usize = self.cells.len();
        if index < len as u64 {
            Some(&self.cells[index as usize])
        } else {
            proof {
                if self.wf() {
                    lemma_index_in_range(self.size, coord);
                }
            }
            None
        }
    }

    /// Touches the cell at `at` in turn `turn`. With `solid`, its count
    /// goes up (`add`) or down by one; with `npc`, `id` joins (`add`) or
    /// leaves its actors.
    fn adjust(&mut self, at: Position, add: bool, solid: bool, npc: bool, id: EntityId, turn: u64)
        requires
            old(self).wf(),
            old(self).size.contains(at),
            solid && add ==> old(self).spec_cell(at).solid_count < usize::MAX,
            solid && !add ==> old(self).spec_cell(at).solid_count > 0,
        ensures
            final(self).wf(),
            final(self).size == old(self).size,
            forall|c: Position|
                #![trigger final(self).spec_cell(c)]
                old(self).size.contains(c) && c != at ==> final(self).spec_cell(c) == old(
                    self,
                ).spec_cell(c),
            final(self).spec_cell(at).last_updated == turn,
            final(self).spec_cell(at).solid_count == old(self).spec_cell(at).solid_count + (if solid {
                if add {
                    1int
                } else {
                    -1int
                }
            } else {
                0int
            }),
            final(self).spec_cell(at).npc_set@ == (if npc {
                if add {
                    old(self).spec_cell(at).npc_set@.insert(id)
                } else {
                    old(self).spec_cell(at).npc_set@.remove(id)
                }
            } else {
                old(self).spec_cell(at).npc_set@
            }),
    {
        let size = self.size;
        let i: usize = match size.index_of(at) {
            Some(i) => i,
            None => 0,
        };
        let cell = &mut self.cells[i];
        cell.last_updated = turn;
        if solid {
            if add {
                cell.solid_count = cell.solid_count + 1;
            } else {
                cell.solid_count = cell.solid_count - 1;
            }
        }
        if npc {
            if add {
                cell.npc_set.insert(id);
            } else {
                cell.npc_set.remove(&id);
            }
        }
        proof {
            assert forall|c: Position| size.contains(c) && c != at implies final(self).spec_cell(c)
                == old(self).spec_cell(c) by {
                lemma_index_in_range(size, c);
                if size.spec_index(c) == size.spec_index(at) {
                    lemma_index_injective(size, c, at);
                }
            }
        }
    }

    /// Brings the cells up to date with `change`, which is about to be
    /// committed to `store` in turn `turn`. This reads the entity's
    /// position and flags before the change, so it must run before the
    /// store itself takes the change.
    pub fn update(&mut self, store: &EntityStore, change: &EntityChange, turn: u64)
        requires
            old(self).reflects(store@),
        ensures
            final(self).size == old(self).size,
            final(self).reflects(store@.apply(*change)),
            forall|coord: Position|
                #![trigger final(self).spec_cell(coord)]
                old(self).size.contains(coord) ==> final(self).spec_cell(coord).last_updated == (
                if touches(store@, *change, coord) {
                    turn
                } else {
                    old(self).spec_cell(coord).last_updated
                }),
    {
        let ghost view = store@;
        let ghost before = *old(self);
        let size = self.size;
        proof {
            store.lemma_finite();
            lemma_tree_set_finite(&store.solid);
            lemma_tree_map_bounded(&store.coord);
        }
        match *change {
            EntityChange::Insert(id, ComponentValue::Coord(to)) => {
                let solid = store.is_solid(id);
                let npc = store.is_npc(id);
                let ghost away = view.apply(EntityChange::Remove(id, ComponentType::Coord));
                match store.get_coord(id) {
                    Some(from) => {
                        if size.is_valid(from) {
                            proof {
                                lemma_leave(view, id);
                                if solid {
                                    assert(view.solid_at(from).contains(id));
                                    lemma_solid_at_bounded(view, from);
                                }
                            }
                            self.adjust(from, false, solid, npc, id, turn);
                        }
                        proof {
                            lemma_leave(view, id);
                        }
                    },
                    None => {
                        proof {
                            lemma_leave(view, id);
                        }
                    },
                }
                assert(self.reflects(away));
                let ghost middle = *self;
                proof {
                    lemma_enter(away, id, to);
                    assert(away.apply(*change).coord =~= view.apply(*change).coord);
                    assert(away.apply(*change) == view.apply(*change));
                }
                if size.is_valid(to) {
                    proof {
                        if solid {
                            vstd::set_lib::lemma_len_subset(
                                view.apply(*change).solid_at(to),
                                view.solid,
                            );
                        }
                    }
                    self.adjust(to, true, solid, npc, id, turn);
                }
                proof {
                    assert forall|coord: Position| size.contains(coord) implies (
                    #[trigger] self.spec_cell(coord)).last_updated == (if touches(
                        view,
                        *change,
                        coord,
                    ) {
                        turn
                    } else {
                        before.spec_cell(coord).last_updated
                    }) by {
                        assert(middle.spec_cell(coord).last_updated == (if view.coord_of(id)
                            == Some(coord) {
                            turn
                        } else {
                            before.spec_cell(coord).last_updated
                        }));
                    }
                }
            },
            EntityChange::Remove(id, ComponentType::Coord) => {
                let solid = store.is_solid(id);
                let npc = store.is_npc(id);
                proof {
                    lemma_leave(view, id);
                }
                match store.get_coord(id) {
                    Some(from) => {
                        if size.is_valid(from) {
                            proof {
                                if solid {
                                    assert(view.solid_at(from).contains(id));
                                    lemma_solid_at_bounded(view, from);
                                }
                            }
                            self.adjust(from, false, solid, npc, id, turn);
                        }
                    },
                    None => {},
                }
            },
            EntityChange::Insert(id, ComponentValue::Solid) => {
                let fresh = !store.is_solid(id);
                proof {
                    lemma_solid_on(view, id);
                }
                match store.get_coord(id) {
                    Some(at) => {
                        if size.is_valid(at) {
                            proof {
                                if fresh {
                                    lemma_solid_at_in_coord(view.apply(*change), at);
                                    vstd::set_lib::lemma_len_subset(
                                        view.apply(*change).solid_at(at),
                                        view.coord.dom(),
                                    );
                                }
                            }
                            self.adjust(at, true, fresh, false, id, turn);
                        }
                    },
                    None => {},
                }
            },
            EntityChange::Remove(id, ComponentType::Solid) => {
                let solid = store.is_solid(id);
                proof {
                    lemma_solid_off(view, id);
                }
                match store.get_coord(id) {
                    Some(at) => {
                        if size.is_valid(at) {
                            proof {
                                if solid {
                                    assert(view.solid_at(at).contains(id));
                                    lemma_solid_at_bounded(view, at);
                                }
                            }
                            self.adjust(at, false, solid, false, id, turn);
                        }
                    },
                    None => {},
                }
            },
            EntityChange::Insert(id, ComponentValue::Npc) => {
                proof {
                    lemma_npc_on(view, id);
                }
                match store.get_coord(id) {
                    Some(at) => {
                        if size.is_valid(at) {
                            self.adjust(at, true, false, true, id, turn);
                        }
                    },
                    None => {},
                }
            },
            EntityChange::Remove(id, ComponentType::Npc) => {
                proof {
                    lemma_npc_off(view, id);
                }
                match store.get_coord(id) {
                    Some(at) => {
                        if size.is_valid(at) {
                            self.adjust(at, false, false, true, id, turn);
                        }
                    },
                    None => {},
                }
            },
            _ => {
                proof {
                    lemma_other_kinds(view, *change);
                }
            },
        }
    }
}

/// The solid entities at a cell are finitely many, and a member makes
/// their number positive.
pub proof fn lemma_solid_at_bounded(view: StoreView, coord: Position)
    requires
        view.finite(),
    ensures
        view.solid_at(coord).finite(),
        forall|id: EntityId| view.solid_at(coord).contains(id) ==> view.solid_at(coord).len() > 0,
{
    assert(view.solid_at(coord).subset_of(view.solid));
    vstd::set_lib::lemma_set_subset_finite(view.solid, view.solid_at(coord));
    assert forall|id: EntityId| view.solid_at(coord).contains(id) implies view.solid_at(
        coord,
    ).len() > 0 by {
        vstd::set::axiom_set_contains_len(view.solid_at(coord), id);
    }
}

/// Every solid entity at a cell has a position.
pub proof fn lemma_solid_at_in_coord(view: StoreView, coord: Position)
    ensures
        view.solid_at(coord).subset_of(view.coord.dom()),
{
}

/// Taking the position of `id` away removes it from the cell it was in
/// and leaves every other cell as it was.
pub proof fn lemma_leave(view: StoreView, id: EntityId)
    requires
        view.finite(),
    ensures
        ({
            let after = view.apply(EntityChange::Remove(id, ComponentType::Coord));
            &&& after.finite()
            &&& !after.coord.contains_key(id)
            &&& after.solid == view.solid
            &&& after.npc == view.npc
            &&& !view.coord.contains_key(id) ==> after == view
            &&& forall|c: Position|
                #![trigger after.solid_at(c)]
                #![trigger after.npc_at(c)]
                {
                    &&& after.npc_at(c) == (if view.coord_of(id) == Some(c) && view.npc.contains(
                        id,
                    ) {
                        view.npc_at(c).remove(id)
                    } else {
                        view.npc_at(c)
                    })
                    &&& after.solid_at(c).len() == view.solid_at(c).len() - (if view.coord_of(id)
                        == Some(c) && view.solid.contains(id) {
                        1int
                    } else {
                        0int
                    })
                }
        }),
{
    let after = view.apply(EntityChange::Remove(id, ComponentType::Coord));
    if !view.coord.contains_key(id) {
        assert(after.coord =~= view.coord);
    }
    assert forall|c: Position|
        {
            &&& #[trigger] after.npc_at(c) == (if view.coord_of(id) == Some(c)
                && view.npc.contains(id) {
                view.npc_at(c).remove(id)
            } else {
                view.npc_at(c)
            })
            &&& (#[trigger] after.solid_at(c)).len() == view.solid_at(c).len() - (if view.coord_of(
                id,
            ) == Some(c) && view.solid.contains(id) {
                1int
            } else {
                0int
            })
        } by {
        lemma_solid_at_bounded(view, c);
        if view.coord_of(id) == Some(c) && view.solid.contains(id) {
            assert(after.solid_at(c) =~= view.solid_at(c).remove(id));
        } else {
            assert(after.solid_at(c) =~= view.solid_at(c));
        }
        if view.coord_of(id) == Some(c) && view.npc.contains(id) {
            assert(after.npc_at(c) =~= view.npc_at(c).remove(id));
        } else {
            assert(after.npc_at(c) =~= view.npc_at(c));
        }
    }
}

/// Giving a position to `id`, which has none, adds it to the cell it
/// enters and leaves every other cell as it was.
pub proof fn lemma_enter(view: StoreView, id: EntityId, to: Position)
    requires
        view.finite(),
        !view.coord.contains_key(id),
    ensures
        ({
            let after = view.apply(EntityChange::Insert(id, ComponentValue::Coord(to)));
            forall|c: Position|
                #![trigger after.solid_at(c)]
                #![trigger after.npc_at(c)]
                {
                    &&& after.npc_at(c) == (if c == to && view.npc.contains(id) {
                        view.npc_at(c).insert(id)
                    } else {
                        view.npc_at(c)
                    })
                    &&& after.solid_at(c).len() == view.solid_at(c).len() + (if c == to
                        && view.solid.contains(id) {
                        1int
                    } else {
                        0int
                    })
                }
        }),
{
    let after = view.apply(EntityChange::Insert(id, ComponentValue::Coord(to)));
    assert forall|c: Position|
        {
            &&& #[trigger] after.npc_at(c) == (if c == to && view.npc.contains(id) {
                view.npc_at(c).insert(id)
            } else {
                view.npc_at(c)
            })
            &&& (#[trigger] after.solid_at(c)).len() == view.solid_at(c).len() + (if c == to
                && view.solid.contains(id) {
                1int
            } else {
                0int
            })
        } by {
        lemma_solid_at_bounded(view, c);
        if c == to && view.npc.contains(id) {
            assert(after.npc_at(c) =~= view.npc_at(c).insert(id));
        } else {
            assert(after.npc_at(c) =~= view.npc_at(c));
        }
        if c == to && view.solid.contains(id) {
            assert(after.solid_at(c) =~= view.solid_at(c).insert(id));
        } else {
            assert(after.solid_at(c) =~= view.solid_at(c));
        }
    }
}

/// Making `id` solid adds it to the solid entities of its cell, if it
/// was not among them, and changes nothing else.
pub proof fn lemma_solid_on(view: StoreView, id: EntityId)
    requires
        view.finite(),
    ensures
        ({
            let after = view.apply(EntityChange::Insert(id, ComponentValue::Solid));
            forall|c: Position|
                #![trigger after.solid_at(c)]
                #![trigger after.npc_at(c)]
                {
                    &&& after.npc_at(c) == view.npc_at(c)
                    &&& after.solid_at(c).len() == view.solid_at(c).len() + (if view.coord_of(id)
                        == Some(c) && !view.solid.contains(id) {
                        1int
                    } else {
                        0int
                    })
                }
        }),
{
    let after = view.apply(EntityChange::Insert(id, ComponentValue::Solid));
    assert forall|c: Position|
        {
            &&& #[trigger] after.npc_at(c) == view.npc_at(c)
            &&& (#[trigger] after.solid_at(c)).len() == view.solid_at(c).len() + (if view.coord_of(
                id,
            ) == Some(c) && !view.solid.contains(id) {
                1int
            } else {
                0int
            })
        } by {
        lemma_solid_at_bounded(view, c);
        assert(after.npc_at(c) =~= view.npc_at(c));
        if view.coord_of(id) == Some(c) && !view.solid.contains(id) {
            assert(after.solid_at(c) =~= view.solid_at(c).insert(id));
        } else {
            assert(after.solid_at(c) =~= view.solid_at(c));
        }
    }
}

/// Making `id` no longer solid removes it from the solid entities of its
/// cell, if it was among them, and changes nothing else.
pub proof fn lemma_solid_off(view: StoreView, id: EntityId)
    requires
        view.finite(),
    ensures
        ({
            let after = view.apply(EntityChange::Remove(id, ComponentType::Solid));
            forall|c: Position|
                #![trigger after.solid_at(c)]
                #![trigger after.npc_at(c)]
                {
                    &&& after.npc_at(c) == view.npc_at(c)
                    &&& after.solid_at(c).len() == view.solid_at(c).len() - (if view.coord_of(id)
                        == Some(c) && view.solid.contains(id) {
                        1int
                    } else {
                        0int
                    })
                }
        }),
{
    let after = view.apply(EntityChange::Remove(id, ComponentType::Solid));
    assert forall|c: Position|
        {
            &&& #[trigger] after.npc_at(c) == view.npc_at(c)
            &&& (#[trigger] after.solid_at(c)).len() == view.solid_at(c).len() - (if view.coord_of(
                id,
            ) == Some(c) && view.solid.contains(id) {
                1int
            } else {
                0int
            })
        } by {
        lemma_solid_at_bounded(view, c);
        assert(after.npc_at(c) =~= view.npc_at(c));
        if view.coord_of(id) == Some(c) && view.solid.contains(id) {
            assert(after.solid_at(c) =~= view.solid_at(c).remove(id));
        } else {
            assert(after.solid_at(c) =~= view.solid_at(c));
        }
    }
}

/// Marking `id` as an actor adds it to the actors of its cell and
/// changes nothing else.
pub proof fn lemma_npc_on(view: StoreView, id: EntityId)
    ensures
        ({
            let after = view.apply(EntityChange::Insert(id, ComponentValue::Npc));
            forall|c: Position|
                #![trigger after.solid_at(c)]
                #![trigger after.npc_at(c)]
                {
                    &&& after.solid_at(c) == view.solid_at(c)
                    &&& after.npc_at(c) == (if view.coord_of(id) == Some(c) {
                        view.npc_at(c).insert(id)
                    } else {
                        view.npc_at(c)
                    })
                }
        }),
{
    let after = view.apply(EntityChange::Insert(id, ComponentValue::Npc));
    assert forall|c: Position|
        {
            &&& #[trigger] after.solid_at(c) == view.solid_at(c)
            &&& #[trigger] after.npc_at(c) == (if view.coord_of(id) == Some(c) {
                view.npc_at(c).insert(id)
            } else {
                view.npc_at(c)
            })
        } by {
        assert(after.solid_at(c) =~= view.solid_at(c));
        if view.coord_of(id) == Some(c) {
            assert(after.npc_at(c) =~= view.npc_at(c).insert(id));
        } else {
            assert(after.npc_at(c) =~= view.npc_at(c));
        }
    }
}

/// Unmarking `id` as an actor removes it from the actors of its cell and
/// changes nothing else.
pub proof fn lemma_npc_off(view: StoreView, id: EntityId)
    ensures
        ({
            let after = view.apply(EntityChange::Remove(id, ComponentType::Npc));
            forall|c: Position|
                #![trigger after.solid_at(c)]
                #![trigger after.npc_at(c)]
                {
                    &&& after.solid_at(c) == view.solid_at(c)
                    &&& after.npc_at(c) == (if view.coord_of(id) == Some(c) {
                        view.npc_at(c).remove(id)
                    } else {
                        view.npc_at(c)
                    })
                }
        }),
{
    let after = view.apply(EntityChange::Remove(id, ComponentType::Npc));
    assert forall|c: Position|
        {
            &&& #[trigger] after.solid_at(c) == view.solid_at(c)
            &&& #[trigger] after.npc_at(c) == (if view.coord_of(id) == Some(c) {
                view.npc_at(c).remove(id)
            } else {
                view.npc_at(c)
            })
        } by {
        assert(after.solid_at(c) =~= view.solid_at(c));
        if view.coord_of(id) == Some(c) {
            assert(after.npc_at(c) =~= view.npc_at(c).remove(id));
        } else {
            assert(after.npc_at(c) =~= view.npc_at(c));
        }
    }
}

/// A change to a tile, a player flag or a card leaves every cell as it
/// was.
pub proof fn lemma_other_kinds(view: StoreView, change: EntityChange)
    requires
        change.spec_typ() == ComponentType::Tile || change.spec_typ() == ComponentType::Player
            || change.spec_typ() == ComponentType::Card,
    ensures
        forall|c: Position|
            #![trigger view.apply(change).solid_at(c)]
            #![trigger view.apply(change).npc_at(c)]
            view.apply(change).solid_at(c) == view.solid_at(c) && view.apply(change).npc_at(c)
                == view.npc_at(c),
{
    let after = view.apply(change);
    assert forall|c: Position|
        #[trigger] after.solid_at(c) == view.solid_at(c) && #[trigger] after.npc_at(c)
            == view.npc_at(c) by {
        assert(after.solid_at(c) =~= view.solid_at(c));
        assert(after.npc_at(c) =~= view.npc_at(c));
    }
}

} // verus!
