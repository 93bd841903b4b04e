//! Levels drawn as text: one row of the grid per line, one cell per
//! character.
//!
//! In the full legend `#` is a wall, `.` bare floor, `m` a move card to
//! pick up, `0` a target dummy and `@` the player; each of these but
//! bare floor also has floor under it. The plain legend knows only `#`,
//! `.` and `@`, and puts no floor under a wall.

use crate::card::Card;
use crate::entity_store::EntityChange;
use crate::entity_store::EntityId;
use crate::geometry::Position;
use crate::geometry::Size;
use crate::pathfinding::is_searchable;
use crate::pathfinding::searchable;
use crate::prototypes::card_changes;
use crate::prototypes::floor_changes;
use crate::prototypes::player_changes;
use crate::prototypes::target_dummy_changes;
use crate::prototypes::wall_changes;
use crate::prototypes;
use crate::tile::TileType;
use vstd::prelude::*;
use vstd::string::*;

verus! {

/// How the glyphs of a level are read.
#[derive(Clone, Copy, Debug, PartialEq, Eq, Structural)]
pub enum Legend {
    /// Walls, floor and the player.
    Plain,
    /// Walls, floor, card pickups, target dummies and the player.
    Full,
}

/// Whether `glyph` stands for anything.
pub open spec fn glyph_known(legend: Legend, glyph: char) -> bool {
    glyph == '#' || glyph == '.' || glyph == '@' || (legend == Legend::Full && (glyph == 'm'
        || glyph == '0'))
}

/// How many entities `glyph` stands for.
pub open spec fn glyph_ids(legend: Legend, glyph: char) -> nat {
    if glyph == '.' || (legend == Legend::Plain && glyph == '#') {
        1
    } else {
        2
    }
}

/// The changes that make what `glyph` stands for at `coord`, the first
/// entity being `first`.
pub open spec fn glyph_changes(
    legend: Legend,
    glyph: char,
    first: EntityId,
    coord: Position,
) -> Seq<EntityChange> {
    let second = (first + 1) as EntityId;
    if glyph == '#' && legend == Legend::Plain {
        wall_changes(first, coord)
    } else if glyph == '#' {
        wall_changes(first, coord) + floor_changes(second, coord)
    } else if glyph == '.' {
        floor_changes(first, coord)
    } else if glyph == 'm' {
        card_changes(first, coord, Card::Move, TileType::CardMove) + floor_changes(second, coord)
    } else if glyph == '0' {
        target_dummy_changes(first, coord) + floor_changes(second, coord)
    } else {
        player_changes(first, coord) + floor_changes(second, coord)
    }
}

/// How many entities the first `x` glyphs of `row` stand for.
pub open spec fn row_ids(legend: Legend, row: Seq<char>, x: int) -> nat
    decreases x,
{
    if x <= 0 {
        0
    } else {
        row_ids(legend, row, x - 1) + glyph_ids(legend, row[x - 1])
    }
}

/// The changes that make what the first `x` glyphs of `row`, which is
/// row `y` of the level, stand for, the first entity being `first`.
pub open spec fn row_changes(legend: Legend, row: Seq<char>, y: int, first: nat, x: int) -> Seq<EntityChange>
    decreases x,
{
    if x <= 0 {
        Seq::empty()
    } else {
        row_changes(legend, row, y, first, x - 1) + glyph_changes(
            legend,
            row[x - 1],
            (first + row_ids(legend, row, x - 1)) as EntityId,
            Position { x: (x - 1) as i32, y: y as i32 },
        )
    }
}

/// The entity of the last `@` among the first `x` glyphs of `row`, the
/// first entity of the row being `first`.
pub open spec fn row_player(legend: Legend, row: Seq<char>, first: nat, x: int) -> Option<EntityId>
    decreases x,
{
    if x <= 0 {
        None
    } else if row[x - 1] == '@' {
        Some((first + row_ids(legend, row, x - 1)) as EntityId)
    } else {
        row_player(legend, row, first, x - 1)
    }
}

/// How many entities the first `y` rows stand for.
pub open spec fn level_ids(legend: Legend, rows: Seq<Seq<char>>, y: int) -> nat
    decreases y,
{
    if y <= 0 {
        0
    } else {
        level_ids(legend, rows, y - 1) + row_ids(legend, rows[y - 1], rows[y - 1].len() as int)
    }
}

/// The changes that make what the first `y` rows stand for.
pub open spec fn level_changes(legend: Legend, rows: Seq<Seq<char>>, y: int) -> Seq<EntityChange>
    decreases y,
{
    if y <= 0 {
        Seq::empty()
    } else {
        level_changes(legend, rows, y - 1) + row_changes(
            legend,
            rows[y - 1],
            y - 1,
            level_ids(legend, rows, y - 1),
            rows[y - 1].len() as int,
        )
    }
}

/// The entity of the last `@` in the first `y` rows.
pub open spec fn level_player(legend: Legend, rows: Seq<Seq<char>>, y: int) -> Option<EntityId>
    decreases y,
{
    if y <= 0 {
        None
    } else {
        match row_player(
            legend,
            rows[y - 1],
            level_ids(legend, rows, y - 1),
            rows[y - 1].len() as int,
        ) {
            Some(id) => Some(id),
            None => level_player(legend, rows, y - 1),
        }
    }
}

/// The size of the grid that `rows` draw: as wide as the first row, as
/// high as there are rows.
pub open spec fn level_size(rows: Seq<Seq<char>>) -> Size {
    Size { width: rows[0].len() as u32, height: rows.len() as u32 }
}

/// A level that can be loaded: it has a row, its rows are all as long
/// as the first, its size can be searched, every glyph stands for
/// something, and one of them is the player.
pub open spec fn level_ok(legend: Legend, rows: Seq<Seq<char>>) -> bool {
    &&& rows.len() >= 1
    &&& rows.len() <= i32::MAX
    &&& rows[0].len() <= i32::MAX
    &&& searchable(level_size(rows))
    &&& forall|y: int| 0 <= y < rows.len() ==> (#[trigger] rows[y]).len() == rows[0].len()
    &&& forall|y: int, x: int|
        0 <= y < rows.len() && 0 <= x < rows[y].len() ==> glyph_known(
            legend,
            #[trigger] rows[y][x],
        )
    &&& level_player(legend, rows, rows.len() as int) is Some
}

/// The characters of each of `rows`.
pub open spec fn glyphs(rows: Seq<&str>) -> Seq<Seq<char>> {
    Seq::new(rows.len(), |y: int| rows[y]@)
}

/// A row with an `@` among its first `x` glyphs has a player.
pub proof fn lemma_row_has_player(legend: Legend, row: Seq<char>, first: nat, at: int, x: int)
    requires
        0 <= at < x,
        row[at] == '@',
    ensures
        row_player(legend, row, first, x) is Some,
    decreases x,
{
    if row[x - 1] != '@' {
        lemma_row_has_player(legend, row, first, at, x - 1);
    }
}

/// A level with an `@` in one of its first `y` rows has a player.
pub proof fn lemma_level_has_player(
    legend: Legend,
    rows: Seq<Seq<char>>,
    row: int,
    at: int,
    y: int,
)
    requires
        0 <= row < y,
        0 <= at < rows[row].len(),
        rows[row][at] == '@',
    ensures
        level_player(legend, rows, y) is Some,
    decreases y,
{
    if row == y - 1 {
        lemma_row_has_player(
            legend,
            rows[row],
            level_ids(legend, rows, row),
            at,
            rows[row].len() as int,
        );
    } else {
        lemma_level_has_player(legend, rows, row, at, y - 1);
    }
}

/// The changes that bring a level into being, and who the player is.
pub struct Level {
    pub size: Size,
    pub changes: Vec<EntityChange>,
    pub next_id: EntityId,
    pub player_id: EntityId,
}

/// Whether `rows` has a row, no more than `i32::MAX` rows, a first row
/// of no more than `i32::MAX` glyphs, and a size that can be searched.
fn measure(rows: &Vec<&str>) -> (size: Option<Size>)
    ensures
        size is Some <==> rows@.len() >= 1 && rows@.len() <= i32::MAX && rows@[0]@.len()
            <= i32::MAX && searchable(level_size(glyphs(rows@))),
        size matches Some(s) ==> s == level_size(glyphs(rows@)),
{
    if rows.len() == 0 || rows.len() > 0x7fff_ffff {
        return None;
    }
    let first_len: usize = rows[0].unicode_len();
    if first_len == 0 || first_len > 0x7fff_ffff {
        return None;
    }
    let size = Size { width: first_len as u32, height: rows.len() as u32 };
    if is_searchable(size) {
        Some(size)
    } else {
        None
    }
}

/// Reads the level that `rows` draw. Nothing comes back for a level
/// that cannot be loaded.
pub fn read_level(legend: Legend, rows: &Vec<&str>) -> (level: Option<Level>)
    ensures
        level is Some <==> level_ok(legend, glyphs(rows@)),
        level matches Some(l) ==> {
            &&& l.size == level_size(glyphs(rows@))
            &&& l.changes@ == level_changes(legend, glyphs(rows@), rows@.len() as int)
            &&& l.next_id == level_ids(legend, glyphs(rows@), rows@.len() as int)
            &&& Some(l.player_id) == level_player(legend, glyphs(rows@), rows@.len() as int)
        },
{
    let ghost all = glyphs(rows@);
    let size = match measure(rows) {
        Some(size) => size,
        None => {
            return None;
        },
    };
    let width: usize = size.width as usize;
    let mut changes: Vec<EntityChange> = Vec::new();
    let mut next_id: EntityId = 0;
    let mut player: Option<EntityId> = None;
    let mut y: usize = 0;
    while y < rows.len()
        invariant
            y <= rows@.len(),
            all == glyphs(rows@),
            rows@.len() >= 1,
            rows@.len() <= i32::MAX,
            width == all[0].len(),
            1 <= width <= i32::MAX,
            width * rows@.len() <= u32::MAX,
            forall|i: int| 0 <= i < y ==> (#[trigger] all[i]).len() == width,
            forall|i: int, j: int| 0 <= i < y && 0 <= j < width ==> glyph_known(legend, #[trigger] all[i][j]),
            changes@ == level_changes(legend, all, y as int),
            next_id == level_ids(legend, all, y as int),
            next_id <= 2 * width * y,
            player == level_player(legend, all, y as int),
        decreases rows@.len() - y,
    {
        let row: &str = rows[y];
        let ghost glyphs_of_row = all[y as int];
        assert(glyphs_of_row == row@);
        if row.unicode_len() != width {
            assert(!level_ok(legend, all));
            return None;
        }
        let ghost first = next_id as nat;
        let mut found: Option<EntityId> = None;
        let mut x: usize = 0;
        assert(next_id + 2 * width <= 2 * u32::MAX) by (nonlinear_arith)
            requires
                next_id <= 2 * width * y,
                y < rows@.len(),
                width >= 0,
                width * rows@.len() <= u32::MAX,
        ;
        while x < width
            invariant
                x <= width,
                y < rows@.len(),
                rows@.len() <= i32::MAX,
                width <= i32::MAX,
                all == glyphs(rows@),
                row == rows@[y as int],
                glyphs_of_row == row@,
                glyphs_of_row == all[y as int],
                glyphs_of_row.len() == width,
                first == level_ids(legend, all, y as int),
                first + 2 * width <= 2 * u32::MAX,
                forall|j: int| 0 <= j < x ==> glyph_known(legend, #[trigger] glyphs_of_row[j]),
                changes@ == level_changes(legend, all, y as int) + row_changes(
                    legend,
                    glyphs_of_row,
                    y as int,
                    first,
                    x as int,
                ),
                next_id == first + row_ids(legend, glyphs_of_row, x as int),
                next_id <= first + 2 * x,
                found == row_player(legend, glyphs_of_row, first, x as int),
            decreases width - x,
        {
            let glyph: char = row.get_char(x);
            let coord = Position { x: x as i32, y: y as i32 };
            let id: EntityId = next_id;
            let ghost before = changes@;
            let ghost so_far = row_changes(legend, glyphs_of_row, y as int, first, x as int);
            let full = match legend {
                Legend::Full => true,
                Legend::Plain => false,
            };
            if glyph == '#' && !full {
                prototypes::wall(id, coord, &mut changes);
                next_id = next_id + 1;
            } else if glyph == '#' {
                prototypes::wall(id, coord, &mut changes);
                prototypes::floor(id + 1, coord, &mut changes);
                next_id = next_id + 2;
            } else if glyph == '.' {
                prototypes::floor(id, coord, &mut changes);
                next_id = next_id + 1;
            } else if glyph == 'm' && full {
                prototypes::card(id, coord, Card::Move, TileType::CardMove, &mut changes);
                prototypes::floor(id + 1, coord, &mut changes);
                next_id = next_id + 2;
            } else if glyph == '0' && full {
                prototypes::target_dummy(id, coord, &mut changes);
                prototypes::floor(id + 1, coord, &mut changes);
                next_id = next_id + 2;
            } else if glyph == '@' {
                found = Some(id);
                prototypes::player(id, coord, &mut changes);
                prototypes::floor(id + 1, coord, &mut changes);
                next_id = next_id + 2;
            } else {
                assert(!glyph_known(legend, all[y as int][x as int]));
                assert(!level_ok(legend, all));
                return None;
            }
            assert(changes@ =~= level_changes(legend, all, y as int) + (so_far + glyph_changes(
                legend,
                glyph,
                id,
                coord,
            )));
            x = x + 1;
        }
        proof {
            assert(level_player(legend, all, y + 1) == match found {
                Some(id) => Some(id),
                None => level_player(legend, all, y as int),
            });
        }
        player = match found {
            Some(id) => Some(id),
            None => player,
        };
        assert(next_id <= 2 * width * (y + 1)) by (nonlinear_arith)
            requires
                next_id <= first + 2 * width,
                first <= 2 * width * y,
        ;
        y = y + 1;
    }
    match player {
        Some(player_id) => Some(Level { size, changes, next_id, player_id }),
        None => None,
    }
}

} // verus!
