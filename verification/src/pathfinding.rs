//! How the actors that are not the player find their way: a field of
//! distances to the player, shared by all, and a short search of each
//! actor's surroundings for the cell that the field likes best.

use crate::entity_store::ComponentValue;
use crate::entity_store::EntityChange;
use crate::entity_store::EntityId;
use crate::entity_store::EntityStore;
use crate::entity_store::StoreView;
use crate::geometry::CardinalDirection;
use crate::geometry::CompassDirection;
use crate::geometry::Position;
use crate::geometry::Size;
use crate::spatial_hash::SpatialHashTable;
use grid_search::BfsContext;
use grid_search::DistanceMap;
use grid_search::SearchConfig;
use grid_search::SolidGrid;
use vstd::prelude::*;

verus! {

broadcast use vstd::std_specs::btree::group_btree_axioms;

/// `grid_2d::Coord`, the position type that `grid_search` speaks in.
#[verifier::external_type_specification]
#[verifier::external_body]
pub struct ExOutsideCoord(grid_2d::Coord);

/// `direction::Direction`, the type of the steps of a path that
/// `grid_search` finds.
#[verifier::external_type_specification]
#[verifier::external_body]
pub struct ExOutsideDirection(direction::Direction);

/// `grid_search::BfsContext`, the scratch space of a breadth-first
/// search.
#[verifier::external_type_specification]
#[verifier::external_body]
pub struct ExBfsContext(BfsContext);

/// `grid_search::DistanceMap`, a cost for each cell that a search has
/// reached.
#[verifier::external_type_specification]
#[verifier::external_body]
#[verifier::reject_recursive_types(Cost)]
pub struct ExDistanceMap<Cost>(DistanceMap<Cost>);

/// `invert::PartialInvert`, a value that compares the other way round.
#[verifier::external_type_specification]
#[verifier::external_body]
#[verifier::reject_recursive_types(T)]
pub struct ExPartialInvert<T: PartialOrd>(invert::PartialInvert<T>);

/// `grid_search::Error`, the ways in which a search can fail.
#[verifier::external_type_specification]
#[verifier::external_body]
pub struct ExSearchFailure(grid_search::Error);

/// How deep the search around an actor goes.
pub const MAX_DEPTH: usize = 4;

/// Why a search came back without a path.
#[derive(Clone, Copy, Debug, PartialEq, Eq, Structural)]
pub enum SearchError {
    StartOutsideGrid,
    StartSolid,
    NoPath,
    VisitOutsideContext,
    VisitOutsideDistanceMap,
    InconsistentDistanceMap,
}

/// The cost that a distance map holds for each cell it has reached in
/// its latest fill, keyed by the cell's `x` and `y`.
pub uninterp spec fn distance_costs(field: DistanceMap<u32>) -> Map<(int, int), nat>;

/// The width and height that a distance map was made with.
pub uninterp spec fn distance_map_size(field: DistanceMap<u32>) -> (nat, nat);

/// The `x` and `y` fields of a `grid_2d::Coord`.
pub uninterp spec fn outside_xy(coord: grid_2d::Coord) -> (int, int);

/// The value that an `invert::PartialInvert` wraps.
pub uninterp spec fn inverted_value(score: invert::PartialInvert<u32>) -> nat;

/// The width and height that a search context was made with.
pub uninterp spec fn bfs_size(bfs: BfsContext) -> (nat, nat);

/// What `grid_search::BfsContext::bfs_best` finds on a grid whose
/// cells, keyed by their `x` and `y`, are blocked as `blocked` says,
/// scoring each cell by the inverse of its cost in `costs`.
pub uninterp spec fn best_first_search(
    blocked: Map<(int, int), bool>,
    costs: Map<(int, int), nat>,
    start: (int, int),
    allow_solid_start: bool,
    max_depth: nat,
) -> Result<Seq<CompassDirection>, SearchError>;

/// A grid size that the search structures can be made for: neither
/// dimension is zero or beyond `i32::MAX`, and the number of cells fits
/// in `u32`.
pub open spec fn searchable(size: Size) -> bool {
    &&& 1 <= size.width <= i32::MAX
    &&& 1 <= size.height <= i32::MAX
    &&& size.count() <= u32::MAX
}

/// For each cell of `table`, keyed by its `x` and `y`, whether it holds
/// something solid.
pub open spec fn solid_cells(table: SpatialHashTable) -> Map<(int, int), bool> {
    Map::new(
        |p: (int, int)| 0 <= p.0 < table.size.width && 0 <= p.1 < table.size.height,
        |p: (int, int)| table.spec_cell(Position { x: p.0 as i32, y: p.1 as i32 }).solid_count > 0,
    )
}

/// For each cell of `table`, keyed by its `x` and `y`, whether it holds
/// something solid or an actor.
pub open spec fn solid_or_occupied(table: SpatialHashTable) -> Map<(int, int), bool> {
    Map::new(
        |p: (int, int)| 0 <= p.0 < table.size.width && 0 <= p.1 < table.size.height,
        |p: (int, int)|
            table.spec_cell(Position { x: p.0 as i32, y: p.1 as i32 }).solid_count > 0
                || table.spec_cell(Position { x: p.0 as i32, y: p.1 as i32 }).npc_set@.len() > 0,
    )
}

/// For each cell of a grid of `size`, keyed by its `x` and `y`, whether
/// `view` places something solid there.
pub open spec fn solid_cells_in(view: StoreView, size: Size) -> Map<(int, int), bool> {
    Map::new(
        |p: (int, int)| 0 <= p.0 < size.width && 0 <= p.1 < size.height,
        |p: (int, int)| view.solid_at(Position { x: p.0 as i32, y: p.1 as i32 }).len() > 0,
    )
}

/// For each cell of a grid of `size`, keyed by its `x` and `y`, whether
/// `view` places something solid or an actor there.
pub open spec fn solid_or_occupied_in(view: StoreView, size: Size) -> Map<(int, int), bool> {
    Map::new(
        |p: (int, int)| 0 <= p.0 < size.width && 0 <= p.1 < size.height,
        |p: (int, int)|
            view.solid_at(Position { x: p.0 as i32, y: p.1 as i32 }).len() > 0 || view.npc_at(
                Position { x: p.0 as i32, y: p.1 as i32 },
            ).len() > 0,
    )
}

/// A spatial index that reflects the component tables blocks the cells
/// that the tables block.
pub proof fn lemma_cells_agree(table: SpatialHashTable, view: StoreView)
    requires
        table.reflects(view),
        table.size.width <= i32::MAX,
        table.size.height <= i32::MAX,
    ensures
        solid_cells(table) == solid_cells_in(view, table.size),
        solid_or_occupied(table) == solid_or_occupied_in(view, table.size),
{
    assert forall|p: (int, int)|
        0 <= p.0 < table.size.width && 0 <= p.1 < table.size.height implies {
        &&& #[trigger] solid_cells(table)[p] == solid_cells_in(view, table.size)[p]
        &&& solid_or_occupied(table)[p] == solid_or_occupied_in(view, table.size)[p]
    } by {
        let c = Position { x: p.0 as i32, y: p.1 as i32 };
        assert(table.size.contains(c));
        assert(table.spec_cell(c).solid_count == view.solid_at(c).len());
        assert(table.spec_cell(c).npc_set@ == view.npc_at(c));
    }
    assert(solid_cells(table) =~= solid_cells_in(view, table.size));
    assert(solid_or_occupied(table) =~= solid_or_occupied_in(view, table.size));
}

/// Whether a step can lead into the cell at `(x, y)`: it is a cell and
/// holds nothing solid.
pub open spec fn passable(solid: Map<(int, int), bool>, x: int, y: int) -> bool {
    solid.contains_key((x, y)) && !solid[(x, y)]
}

/// The cell at `(x, y)`, if it has a cost and is not the start, is
/// passable and costs one more than one of its four neighbours.
pub open spec fn descends(
    costs: Map<(int, int), nat>,
    solid: Map<(int, int), bool>,
    start: Position,
    x: int,
    y: int,
) -> bool {
    costs.contains_key((x, y)) && (x, y) != (start.x as int, start.y as int) ==> {
        &&& passable(solid, x, y)
        &&& costs[(x, y)] >= 1
        &&& exists|d: CardinalDirection|
            #![trigger d.dx()]
            costs.contains_key((x + d.dx(), y + d.dy())) && costs[(x + d.dx(), y + d.dy())] + 1
                == costs[(x, y)]
    }
}

/// The neighbour in direction `d` of the cell at `(x, y)`, if that cell
/// has a cost and the neighbour is passable, has a cost too, at most one
/// more.
pub open spec fn spreads(
    costs: Map<(int, int), nat>,
    solid: Map<(int, int), bool>,
    x: int,
    y: int,
    d: CardinalDirection,
) -> bool {
    costs.contains_key((x, y)) && passable(solid, x + d.dx(), y + d.dy()) ==> {
        &&& costs.contains_key((x + d.dx(), y + d.dy()))
        &&& costs[(x + d.dx(), y + d.dy())] <= costs[(x, y)] + 1
    }
}

/// `costs` is the field of distances from `start` on a grid whose cells
/// are solid as `solid` says: `start`
/// costs 0; every other cell with a cost is passable and costs one more
/// than one of its four neighbours; and every passable neighbour of a
/// cell with a cost has a cost too, at most one more.
pub open spec fn is_distance_field(
    costs: Map<(int, int), nat>,
    solid: Map<(int, int), bool>,
    start: Position,
) -> bool {
    &&& costs.contains_key((start.x as int, start.y as int))
    &&& costs[(start.x as int, start.y as int)] == 0
    &&& forall|x: int, y: int| #[trigger] descends(costs, solid, start, x, y)
    &&& forall|x: int, y: int, d: CardinalDirection| #[trigger] spreads(costs, solid, x, y, d)
}

/// In a field of distances, the cost of a cell other than the start is
/// one more than the least cost among its neighbours that have one, and
/// every passable neighbour has one.
pub proof fn lemma_cost_is_one_more_than_least_neighbour(
    costs: Map<(int, int), nat>,
    solid: Map<(int, int), bool>,
    start: Position,
    x: int,
    y: int,
)
    requires
        is_distance_field(costs, solid, start),
        costs.contains_key((x, y)),
        (x, y) != (start.x as int, start.y as int),
    ensures
        exists|d: CardinalDirection|
            #![trigger d.dx()]
            costs.contains_key((x + d.dx(), y + d.dy())) && costs[(x, y)] == 1 + costs[(
                x + d.dx(),
                y + d.dy(),
            )],
        forall|d: CardinalDirection|
            #![trigger d.dx()]
            costs.contains_key((x + d.dx(), y + d.dy())) ==> costs[(x, y)] <= 1 + costs[(
                x + d.dx(),
                y + d.dy(),
            )],
        forall|d: CardinalDirection|
            #![trigger d.dx()]
            passable(solid, x + d.dx(), y + d.dy()) ==> costs.contains_key(
                (x + d.dx(), y + d.dy()),
            ),
{
    assert(descends(costs, solid, start, x, y));
    assert forall|d: CardinalDirection|
        #![trigger d.dx()]
        costs.contains_key((x + d.dx(), y + d.dy())) implies costs[(x, y)] <= 1 + costs[(
        x + d.dx(),
        y + d.dy(),
    )] by {
        let back = d.spec_opposite();
        let nx = x + d.dx();
        let ny = y + d.dy();
        assert(back.dx() == -d.dx() && back.dy() == -d.dy());
        assert(spreads(costs, solid, nx, ny, back));
    }
    assert forall|d: CardinalDirection|
        #![trigger d.dx()]
        passable(solid, x + d.dx(), y + d.dy()) implies costs.contains_key(
        (x + d.dx(), y + d.dy()),
    ) by {
        assert(spreads(costs, solid, x, y, d));
    }
}

/// The spatial hash as a grid in which a cell is blocked where it holds
/// something solid.
pub struct SpatialHashSolidCellGrid<'a>(pub &'a SpatialHashTable);

/// The spatial hash as a grid in which a cell is blocked where it holds
/// something solid or an actor.
pub struct SpatialHashSolidOrOccupiedCellGrid<'a>(pub &'a SpatialHashTable);

/// The `x` and `y` fields of a `grid_2d::Coord`, which are public
/// fields of type `i32`; [`outside_xy`] is the name under which the
/// contracts speak of them.
#[verifier::external_body]
fn xy_of(coord: grid_2d::Coord) -> (xy: (i32, i32))
    ensures
        (xy.0 as int, xy.1 as int) == outside_xy(coord),
{
    (coord.x, coord.y)
}

/// The position that a `grid_2d::Coord` names.
pub open spec fn position_of(coord: grid_2d::Coord) -> Position {
    Position { x: outside_xy(coord).0 as i32, y: outside_xy(coord).1 as i32 }
}

/// What the grid of solid cells answers for `coord`: whether the cell
/// there holds something solid, and nothing where `table` has no such
/// cell.
pub open spec fn spec_is_solid(table: SpatialHashTable, coord: Position) -> Option<bool> {
    match table.spec_lookup(coord) {
        Some(cell) => Some(cell.solid_count > 0),
        None => None,
    }
}

/// What the grid of solid or occupied cells answers for `coord`:
/// whether the cell there holds something solid or an actor, and
/// nothing where `table` has no such cell.
pub open spec fn spec_is_solid_or_occupied(table: SpatialHashTable, coord: Position) -> Option<
    bool,
> {
    match table.spec_lookup(coord) {
        Some(cell) => Some(cell.solid_count > 0 || cell.npc_set@.len() > 0),
        None => None,
    }
}

/// On a table with one cell for each position, the two grids answer for
/// every position what [`solid_cells`] and [`solid_or_occupied`] hold
/// for it, and nothing for a position outside.
pub proof fn lemma_grids_answer_cells(table: SpatialHashTable, coord: Position)
    requires
        table.wf(),
    ensures
        spec_is_solid(table, coord) == (if solid_cells(table).contains_key(
            (coord.x as int, coord.y as int),
        ) {
            Some(solid_cells(table)[(coord.x as int, coord.y as int)])
        } else {
            None
        }),
        spec_is_solid_or_occupied(table, coord) == (if solid_or_occupied(table).contains_key(
            (coord.x as int, coord.y as int),
        ) {
            Some(solid_or_occupied(table)[(coord.x as int, coord.y as int)])
        } else {
            None
        }),
{
    if table.size.contains(coord) {
        crate::geometry::lemma_index_in_range(table.size, coord);
        assert(Position { x: (coord.x as int) as i32, y: (coord.y as int) as i32 } == coord);
    }
}

impl<'a> SolidGrid for SpatialHashSolidCellGrid<'a> {
    fn is_solid(&self, coord: grid_2d::Coord) -> (r: Option<bool>)
        ensures
            r == spec_is_solid(*self.0, position_of(coord)),
    {
        let (x, y) = xy_of(coord);
        match self.0.lookup(Position { x, y }) {
            Some(cell) => Some(cell.solid_count > 0),
            None => None,
        }
    }
}

impl<'a> SolidGrid for SpatialHashSolidOrOccupiedCellGrid<'a> {
    fn is_solid(&self, coord: grid_2d::Coord) -> (r: Option<bool>)
        ensures
            r == spec_is_solid_or_occupied(*self.0, position_of(coord)),
    {
        let (x, y) = xy_of(coord);
        match self.0.lookup(Position { x, y }) {
            Some(cell) => {
                proof {
                    crate::entity_store::lemma_tree_set_finite(&cell.npc_set);
                    if cell.npc_set@.len() == 0 {
                        cell.npc_set@.lemma_len0_is_empty();
                    }
                }
                Some(cell.solid_count > 0 || !cell.npc_set.is_empty())
            },
            None => None,
        }
    }
}

/// `invert::partial_invert`, which wraps a value so that a lower one
/// compares as greater; [`inverted_value`] is the name under which the
/// contracts speak of the value that is wrapped.
#[verifier::external_body]
fn inverted(cost: u32) -> (score: invert::PartialInvert<u32>)
    ensures
        inverted_value(score) == cost,
{
    invert::partial_invert(cost)
}

/// The score of the cell at `coord` for an actor that looks for the
/// player: the inverse of its cost in `field`, where it has one.
fn score_of(field: &DistanceMap<u32>, coord: grid_2d::Coord) -> (score: Option<
    invert::PartialInvert<u32>,
>)
    ensures
        score is Some <==> distance_costs(*field).contains_key(outside_xy(coord)),
        score matches Some(s) ==> inverted_value(s) == distance_costs(*field)[outside_xy(coord)],
{
    let (x, y) = xy_of(coord);
    match distance_cost(field, Position { x, y }) {
        Some(cost) => Some(inverted(cost)),
        None => None,
    }
}

/// Tells the variants of `direction::Direction` apart.
#[verifier::external_body]
fn direction_of(d: direction::Direction) -> (r: CompassDirection) {
    match d {
        direction::Direction::North => CompassDirection::North,
        direction::Direction::NorthEast => CompassDirection::NorthEast,
        direction::Direction::East => CompassDirection::East,
        direction::Direction::SouthEast => CompassDirection::SouthEast,
        direction::Direction::South => CompassDirection::South,
        direction::Direction::SouthWest => CompassDirection::SouthWest,
        direction::Direction::West => CompassDirection::West,
        direction::Direction::NorthWest => CompassDirection::NorthWest,
    }
}

/// Tells the variants of `grid_search::Error` apart.
#[verifier::external_body]
fn search_error_of(e: grid_search::Error) -> (r: SearchError) {
    match e {
        grid_search::Error::StartOutsideGrid => SearchError::StartOutsideGrid,
        grid_search::Error::StartSolid => SearchError::StartSolid,
        grid_search::Error::NoPath => SearchError::NoPath,
        grid_search::Error::VisitOutsideContext => SearchError::VisitOutsideContext,
        grid_search::Error::VisitOutsideDistanceMap => SearchError::VisitOutsideDistanceMap,
        grid_search::Error::InconsistentDistanceMap => SearchError::InconsistentDistanceMap,
    }
}

/// `grid_search::BfsContext::new`, which allocates one node for each
/// cell of a grid of the given size. `grid_2d` cannot build a grid with
/// a dimension beyond `i32::MAX`, with more cells than fit in `u32`, or
/// with no columns but some rows; `searchable` leaves those out.
#[verifier::external_body]
fn new_bfs_context(size: Size) -> (bfs: BfsContext)
    requires
        searchable(size),
    ensures
        bfs_size(bfs) == (size.width as nat, size.height as nat),
{
    BfsContext::new(grid_2d::Size::new(size.width, size.height))
}

/// `grid_search::DistanceMap::new`, which allocates one cell for each
/// cell of a grid of the given size and marks none of them as reached,
/// so that no cell has a cost.
#[verifier::external_body]
fn new_distance_map(size: Size) -> (field: DistanceMap<u32>)
    requires
        searchable(size),
    ensures
        distance_map_size(field) == (size.width as nat, size.height as nat),
        (distance_costs(field) == Map::<(int, int), nat>::empty()),
{
    DistanceMap::new(grid_2d::Size::new(size.width, size.height))
}

/// `grid_search::DistanceMap::cost`: the cost of the cell at `coord`
/// where the field has reached it in its latest fill, 0 for the cell that
/// fill started from, and nothing for any other cell or position.
#[verifier::external_body]
fn distance_cost(field: &DistanceMap<u32>, coord: Position) -> (cost: Option<u32>)
    ensures
        cost is Some <==> distance_costs(*field).contains_key((coord.x as int, coord.y as int)),
        cost matches Some(c) ==> c == distance_costs(*field)[(coord.x as int, coord.y as int)],
{
    field.cost(grid_2d::Coord::new(coord.x, coord.y))
}

/// Whether a search can start at `start`: it must be a cell of the
/// grid, and one that holds nothing solid unless a solid start is
/// allowed.
pub open spec fn can_start(table: SpatialHashTable, start: Position, allow_solid_start: bool) -> bool {
    table.size.contains(start) && (allow_solid_start || !solid_cells(table)[(
        start.x as int,
        start.y as int,
    )])
}

/// Why a search cannot start at `start`: because it is no cell of the
/// grid, or else because it is a blocked one.
pub open spec fn start_failure(table: SpatialHashTable, start: Position) -> SearchError {
    if table.size.contains(start) {
        SearchError::StartSolid
    } else {
        SearchError::StartOutsideGrid
    }
}

/// `grid_search::BfsContext::populate_distance_map` over the four
/// cardinal directions, with `spatial_hash` as the grid in which a cell
/// is blocked where it holds something solid.
///
/// That function runs a breadth-first search from `start` through the
/// cells that are not blocked, giving each cell it reaches for the first
/// time the cost of the cell it came from plus one. Before it writes
/// anything it fails with `StartOutsideGrid` where `start` is no cell of
/// the grid, and with `StartSolid` where `start` is blocked and
/// `allow_solid_start` is not set; its other failure needs a map smaller
/// than the grid, which is left out here.
#[verifier::external_body]
fn populate_distance_map(
    bfs: &mut BfsContext,
    spatial_hash: &SpatialHashTable,
    start: Position,
    allow_solid_start: bool,
    field: &mut DistanceMap<u32>,
) -> (result: Result<(), SearchError>)
    requires
        spatial_hash.wf(),
        searchable(spatial_hash.size),
        distance_map_size(*old(field)) == (
            spatial_hash.size.width as nat,
            spatial_hash.size.height as nat,
        ),
    ensures
        bfs_size(*final(bfs)) == bfs_size(*old(bfs)),
        distance_map_size(*final(field)) == distance_map_size(*old(field)),
        result is Ok <==> can_start(*spatial_hash, start, allow_solid_start),
        result is Ok ==> is_distance_field(
            distance_costs(*final(field)),
            solid_cells(*spatial_hash),
            start,
        ),
        (result is Err ==> result == Err::<(), SearchError>(start_failure(*spatial_hash, start))
            && distance_costs(*final(field)) == distance_costs(*old(field))),
{
    let grid = SpatialHashSolidCellGrid(spatial_hash);
    let from = grid_2d::Coord::new(start.x, start.y);
    let config = SearchConfig { allow_solid_start };
    match bfs.populate_distance_map(&grid, from, direction::DirectionsCardinal, config, field) {
        Ok(_) => Ok(()),
        Err(e) => Err(search_error_of(e)),
    }
}

/// `grid_search::BfsContext::bfs_best` over the four cardinal
/// directions, with `spatial_hash` as the grid in which a cell is blocked
/// where it holds something solid or an actor, and with the
/// `invert::partial_invert`ed cost of a cell in `field` as its score, so
/// that a lower cost scores higher.
///
/// The context must have been made for the grid: on a smaller one the
/// search fails with `VisitOutsideContext` whatever the grid holds. The
/// path found is then named by [`best_first_search`]. Of the failures,
/// `StartOutsideGrid` needs a start that is no cell of the grid and
/// `StartSolid` a blocked start that is not admitted; where neither
/// holds the only failure is `NoPath`.
#[verifier::external_body]
fn bfs_best(
    bfs: &mut BfsContext,
    spatial_hash: &SpatialHashTable,
    start: Position,
    field: &DistanceMap<u32>,
    allow_solid_start: bool,
    max_depth: usize,
) -> (result: Result<Vec<CompassDirection>, SearchError>)
    requires
        spatial_hash.wf(),
        searchable(spatial_hash.size),
        bfs_size(*old(bfs)) == (spatial_hash.size.width as nat, spatial_hash.size.height as nat),
    ensures
        bfs_size(*final(bfs)) == bfs_size(*old(bfs)),
        (result matches Ok(path) ==> best_first_search(
            solid_or_occupied(*spatial_hash),
            distance_costs(*field),
            (start.x as int, start.y as int),
            allow_solid_start,
            max_depth as nat,
        ) == Ok::<Seq<CompassDirection>, SearchError>(path@)),
        (result matches Err(e) ==> best_first_search(
            solid_or_occupied(*spatial_hash),
            distance_costs(*field),
            (start.x as int, start.y as int),
            allow_solid_start,
            max_depth as nat,
        ) == Err::<Seq<CompassDirection>, SearchError>(e)),
        spatial_hash.size.contains(start) && allow_solid_start ==> (result matches Err(e) ==> e
            == SearchError::NoPath),
{
    let grid = SpatialHashSolidOrOccupiedCellGrid(spatial_hash);
    let from = grid_2d::Coord::new(start.x, start.y);
    let score = |c: grid_2d::Coord| score_of(field, c);
    let config = SearchConfig { allow_solid_start };
    let mut path = Vec::new();
    let cardinal = direction::DirectionsCardinal;
    match bfs.bfs_best(&grid, from, score, cardinal, config, max_depth, &mut path) {
        Ok(_) => Ok(path.into_iter().map(direction_of).collect()),
        Err(e) => Err(search_error_of(e)),
    }
}

/// Whether the search structures can be made for a grid of `size`.
pub fn is_searchable(size: Size) -> (b: bool)
    ensures
        b == searchable(size),
{
    let width: u64 = size.width as u64;
    let height: u64 = size.height as u64;
    assert(width * height <= 0xffff_ffff * 0xffff_ffff) by (nonlinear_arith)
        requires
            0 <= width <= 0xffff_ffff,
            0 <= height <= 0xffff_ffff,
    ;
    1 <= width && width <= 0x7fff_ffff && 1 <= height && height <= 0x7fff_ffff && width * height
        <= 0xffff_ffff
}

/// A search context for a grid of `size`, where one can be made.
pub fn bfs_context_for(size: Size) -> (bfs: Option<BfsContext>)
    ensures
        bfs is Some <==> searchable(size),
        bfs matches Some(b) ==> bfs_size(b) == (size.width as nat, size.height as nat),
{
    if is_searchable(size) {
        Some(new_bfs_context(size))
    } else {
        None
    }
}

/// A distance map for a grid of `size`, with no cell reached yet, where
/// one can be made.
pub fn distance_map_for(size: Size) -> (field: Option<DistanceMap<u32>>)
    ensures
        field is Some <==> searchable(size),
        field matches Some(f) ==> distance_map_size(f) == (size.width as nat, size.height as nat)
            && distance_costs(f) == Map::<(int, int), nat>::empty(),
{
    if is_searchable(size) {
        Some(new_distance_map(size))
    } else {
        None
    }
}

/// The cost that `field` holds for the cell at `coord`, if it has
/// reached that cell.
pub fn cost_at(field: &DistanceMap<u32>, coord: Position) -> (cost: Option<u32>)
    ensures
        cost is Some <==> distance_costs(*field).contains_key((coord.x as int, coord.y as int)),
        cost matches Some(c) ==> c == distance_costs(*field)[(coord.x as int, coord.y as int)],
{
    distance_cost(field, coord)
}

/// Fills `dijkstra_map` with the distance of every cell from
/// `player_coord`, measured in steps through cells that hold nothing
/// solid.
pub fn compute_player_map(
    player_coord: Position,
    spatial_hash: &SpatialHashTable,
    bfs: &mut BfsContext,
    dijkstra_map: &mut DistanceMap<u32>,
)
    requires
        spatial_hash.wf(),
        searchable(spatial_hash.size),
        spatial_hash.size.contains(player_coord),
        distance_map_size(*old(dijkstra_map)) == (
            spatial_hash.size.width as nat,
            spatial_hash.size.height as nat,
        ),
    ensures
        bfs_size(*final(bfs)) == bfs_size(*old(bfs)),
        distance_map_size(*final(dijkstra_map)) == distance_map_size(*old(dijkstra_map)),
        is_distance_field(
            distance_costs(*final(dijkstra_map)),
            solid_cells(*spatial_hash),
            player_coord,
        ),
{
    let _ = populate_distance_map(bfs, spatial_hash, player_coord, true, dijkstra_map);
}

/// The step that an actor at `coord` takes along `path`: into the cell
/// that the first direction of the path leads to. No step is taken on
/// an empty path, in a direction that is not cardinal, or where the
/// cell cannot be named.
pub open spec fn spec_step_along(id: EntityId, coord: Position, path: Seq<CompassDirection>) -> Seq<
    EntityChange,
> {
    if path.len() > 0 && path[0].spec_cardinal() is Some && coord.can_step(
        path[0].spec_cardinal()->0,
    ) {
        let (x, y) = coord.spec_step(path[0].spec_cardinal()->0);
        seq![EntityChange::Insert(id, ComponentValue::Coord(Position { x: x as i32, y: y as i32 }))]
    } else {
        Seq::empty()
    }
}

/// What an actor at `coord`, at cost `cost` in the field, proposes once
/// its search has come back: nothing next to the player, and nothing
/// where the search found no path.
pub open spec fn spec_act(
    id: EntityId,
    coord: Position,
    cost: u32,
    found: Result<Seq<CompassDirection>, SearchError>,
) -> Seq<EntityChange> {
    if cost == 1 {
        Seq::empty()
    } else {
        match found {
            Ok(path) => spec_step_along(id, coord, path),
            Err(_) => Seq::empty(),
        }
    }
}

/// What the actor `id` proposes on a grid of `size` that holds what
/// `view` holds, the distances to the player being `costs`: nothing
/// unless it stands on a cell of the grid that has a cost above zero,
/// and else what [`spec_act`] says of the path that its search finds.
pub open spec fn actor_move(
    view: StoreView,
    size: Size,
    costs: Map<(int, int), nat>,
    id: EntityId,
) -> Seq<EntityChange> {
    match view.coord_of(id) {
        Some(coord) => if size.contains(coord) && costs.contains_key(
            (coord.x as int, coord.y as int),
        ) && costs[(coord.x as int, coord.y as int)] > 0 {
            spec_act(
                id,
                coord,
                costs[(coord.x as int, coord.y as int)] as u32,
                best_first_search(
                    solid_or_occupied_in(view, size),
                    costs,
                    (coord.x as int, coord.y as int),
                    true,
                    MAX_DEPTH as nat,
                ),
            )
        } else {
            Seq::empty()
        },
        None => Seq::empty(),
    }
}

/// What the actors `ids` propose, one after the other.
pub open spec fn actor_moves(
    view: StoreView,
    size: Size,
    costs: Map<(int, int), nat>,
    ids: Seq<EntityId>,
) -> Seq<EntityChange>
    decreases ids.len(),
{
    if ids.len() == 0 {
        Seq::empty()
    } else {
        actor_moves(view, size, costs, ids.drop_last()) + actor_move(view, size, costs, ids.last())
    }
}

/// Proposes the first step of `path` for the actor `id` at `coord`.
pub fn step_along(id: EntityId, coord: Position, path: &Vec<CompassDirection>, changes: &mut Vec<EntityChange>)
    ensures
        final(changes)@ == old(changes)@ + spec_step_along(id, coord, path@),
{
    if path.len() > 0 {
        if let Some(direction) = path[0].cardinal() {
            if let Some(to) = coord.step(direction) {
                changes.push(EntityChange::Insert(id, ComponentValue::Coord(to)));
                assert(changes@ =~= old(changes)@ + spec_step_along(id, coord, path@));
                return;
            }
        }
    }
    assert(changes@ =~= old(changes)@ + spec_step_along(id, coord, path@));
}

/// Lets the actor `id` decide its move for this turn.
///
/// An actor next to the player, at cost 1, stays where it is. Any
/// other looks up to [`MAX_DEPTH`] steps around itself, through cells
/// that hold neither something solid nor another actor, for the cell of
/// least cost, and proposes the first step towards it; where the search
/// finds no path it proposes nothing. `path` receives the path found.
///
/// The actor must have a position that has a cost above zero in
/// `dijkstra_map`. Unless that cost is 1, the position must be a cell
/// of the grid and `bfs` must have been made for the grid.
pub fn act(
    id: EntityId,
    entity_store: &EntityStore,
    spatial_hash: &SpatialHashTable,
    dijkstra_map: &DistanceMap<u32>,
    bfs: &mut BfsContext,
    path: &mut Vec<CompassDirection>,
    changes: &mut Vec<EntityChange>,
)
    requires
        spatial_hash.wf(),
        searchable(spatial_hash.size),
        entity_store@.coord.contains_key(id),
        distance_costs(*dijkstra_map).contains_key(
            (entity_store@.coord[id].x as int, entity_store@.coord[id].y as int),
        ),
        distance_costs(*dijkstra_map)[(
            entity_store@.coord[id].x as int,
            entity_store@.coord[id].y as int,
        )] > 0,
        distance_costs(*dijkstra_map)[(
            entity_store@.coord[id].x as int,
            entity_store@.coord[id].y as int,
        )] != 1 ==> bfs_size(*old(bfs)) == (
            spatial_hash.size.width as nat,
            spatial_hash.size.height as nat,
        ) && spatial_hash.size.contains(entity_store@.coord[id]),
    ensures
        bfs_size(*final(bfs)) == bfs_size(*old(bfs)),
        final(changes)@ == old(changes)@ + spec_act(
            id,
            entity_store@.coord[id],
            distance_costs(*dijkstra_map)[(
                entity_store@.coord[id].x as int,
                entity_store@.coord[id].y as int,
            )] as u32,
            best_first_search(
                solid_or_occupied(*spatial_hash),
                distance_costs(*dijkstra_map),
                (entity_store@.coord[id].x as int, entity_store@.coord[id].y as int),
                true,
                MAX_DEPTH as nat,
            ),
        ),
        distance_costs(*dijkstra_map)[(
            entity_store@.coord[id].x as int,
            entity_store@.coord[id].y as int,
        )] == 1 ==> final(changes)@ == old(changes)@,
        final(path)@ == (if distance_costs(*dijkstra_map)[(
            entity_store@.coord[id].x as int,
            entity_store@.coord[id].y as int,
        )] == 1 {
            old(path)@
        } else {
            match best_first_search(
                solid_or_occupied(*spatial_hash),
                distance_costs(*dijkstra_map),
                (entity_store@.coord[id].x as int, entity_store@.coord[id].y as int),
                true,
                MAX_DEPTH as nat,
            ) {
                Ok(found) => found,
                Err(_) => old(path)@,
            }
        }),
{
    let coord = match entity_store.get_coord(id) {
        Some(coord) => coord,
        None => Position::new(0, 0),
    };
    let current_cost: u32 = match distance_cost(dijkstra_map, coord) {
        Some(cost) => cost,
        None => 0,
    };
    if current_cost == 1 {
        assert(changes@ =~= old(changes)@ + Seq::<EntityChange>::empty());
        return;
    }
    let result = bfs_best(bfs, spatial_hash, coord, dijkstra_map, true, MAX_DEPTH);
    match result {
        Ok(found) => {
            step_along(id, coord, &found, changes);
            *path = found;
        },
        Err(e) => {
            assert(e == SearchError::NoPath);
            assert(changes@ =~= old(changes)@ + Seq::<EntityChange>::empty());
        },
    }
}

} // verus!
