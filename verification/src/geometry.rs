//! Integer coordinates, grid sizes and directions.

use vstd::prelude::*;

verus! {

/// A cell position. `x` grows to the east, `y` grows to the south.
#[derive(Clone, Copy, Debug, PartialEq, Eq, Structural)]
pub struct Position {
    pub x: i32,
    pub y: i32,
}

/// The dimensions of a rectangular grid.
#[derive(Clone, Copy, Debug, PartialEq, Eq, Structural)]
pub struct Size {
    pub width: u32,
    pub height: u32,
}

/// One of the four axis-aligned directions.
#[derive(Clone, Copy, Debug, PartialEq, Eq, Structural)]
pub enum CardinalDirection {
    North,
    East,
    South,
    West,
}

/// One of the eight compass directions.
#[derive(Clone, Copy, Debug, PartialEq, Eq, Structural)]
pub enum CompassDirection {
    North,
    NorthEast,
    East,
    SouthEast,
    South,
    SouthWest,
    West,
    NorthWest,
}

impl CardinalDirection {
    /// Horizontal component of the unit step in this direction.
    pub open spec fn dx(self) -> int {
        match self {
            CardinalDirection::North => 0,
            CardinalDirection::East => 1,
            CardinalDirection::South => 0,
            CardinalDirection::West => -1,
        }
    }

    /// Vertical component of the unit step in this direction.
    pub open spec fn dy(self) -> int {
        match self {
            CardinalDirection::North => -1,
            CardinalDirection::East => 0,
            CardinalDirection::South => 1,
            CardinalDirection::West => 0,
        }
    }

    /// The same direction among the eight compass directions.
    pub open spec fn spec_direction(self) -> CompassDirection {
        match self {
            CardinalDirection::North => CompassDirection::North,
            CardinalDirection::East => CompassDirection::East,
            CardinalDirection::South => CompassDirection::South,
            CardinalDirection::West => CompassDirection::West,
        }
    }

    pub fn direction(self) -> (d: CompassDirection)
        ensures
            d == self.spec_direction(),
    {
        match self {
            CardinalDirection::North => CompassDirection::North,
            CardinalDirection::East => CompassDirection::East,
            CardinalDirection::South => CompassDirection::South,
            CardinalDirection::West => CompassDirection::West,
        }
    }

    /// The direction pointing the other way.
    pub open spec fn spec_opposite(self) -> CardinalDirection {
        match self {
            CardinalDirection::North => CardinalDirection::South,
            CardinalDirection::East => CardinalDirection::West,
            CardinalDirection::South => CardinalDirection::North,
            CardinalDirection::West => CardinalDirection::East,
        }
    }

    pub fn opposite(self) -> (d: CardinalDirection)
        ensures
            d == self.spec_opposite(),
            d.dx() == -self.dx(),
            d.dy() == -self.dy(),
    {
        match self {
            CardinalDirection::North => CardinalDirection::South,
            CardinalDirection::East => CardinalDirection::West,
            CardinalDirection::South => CardinalDirection::North,
            CardinalDirection::West => CardinalDirection::East,
        }
    }
}

impl CompassDirection {
    /// Horizontal component of the unit step in this direction.
    pub open spec fn dx(self) -> int {
        match self {
            CompassDirection::North | CompassDirection::South => 0,
            CompassDirection::NorthEast | CompassDirection::East | CompassDirection::SouthEast => 1,
            CompassDirection::NorthWest | CompassDirection::West | CompassDirection::SouthWest => -1,
        }
    }

    /// Vertical component of the unit step in this direction.
    pub open spec fn dy(self) -> int {
        match self {
            CompassDirection::East | CompassDirection::West => 0,
            CompassDirection::SouthEast | CompassDirection::South | CompassDirection::SouthWest => 1,
            CompassDirection::NorthEast | CompassDirection::North | CompassDirection::NorthWest => -1,
        }
    }

    /// The cardinal direction this is, if it is one.
    pub open spec fn spec_cardinal(self) -> Option<CardinalDirection> {
        match self {
            CompassDirection::North => Some(CardinalDirection::North),
            CompassDirection::East => Some(CardinalDirection::East),
            CompassDirection::South => Some(CardinalDirection::South),
            CompassDirection::West => Some(CardinalDirection::West),
            _ => None,
        }
    }

    pub fn cardinal(self) -> (c: Option<CardinalDirection>)
        ensures
            c == self.spec_cardinal(),
            c matches Some(d) ==> d.dx() == self.dx() && d.dy() == self.dy(),
    {
        match self {
            CompassDirection::North => Some(CardinalDirection::North),
            CompassDirection::East => Some(CardinalDirection::East),
            CompassDirection::South => Some(CardinalDirection::South),
            CompassDirection::West => Some(CardinalDirection::West),
            _ => None,
        }
    }
}

impl Position {
    pub fn new(x: i32, y: i32) -> (c: Position)
        ensures
            c == (Position { x, y }),
    {
        Position { x, y }
    }

    /// The position one step from `self` in the given direction, as
    /// unbounded integers.
    pub open spec fn spec_step(self, direction: CardinalDirection) -> (int, int) {
        (self.x + direction.dx(), self.y + direction.dy())
    }

    /// Whether the step in `direction` stays within the range of `i32`.
    pub open spec fn can_step(self, direction: CardinalDirection) -> bool {
        let (x, y) = self.spec_step(direction);
        i32::MIN <= x <= i32::MAX && i32::MIN <= y <= i32::MAX
    }

    /// The neighbouring position in `direction`, or `None` where that
    /// position cannot be represented.
    pub fn step(self, direction: CardinalDirection) -> (r: Option<Position>)
        ensures
            r is Some <==> self.can_step(direction),
            r matches Some(c) ==> (c.x as int, c.y as int) == self.spec_step(direction),
    {
        match direction {
            CardinalDirection::North => if self.y > i32::MIN {
                Some(Position { x: self.x, y: self.y - 1 })
            } else {
                None
            },
            CardinalDirection::East => if self.x < i32::MAX {
                Some(Position { x: self.x + 1, y: self.y })
            } else {
                None
            },
            CardinalDirection::South => if self.y < i32::MAX {
                Some(Position { x: self.x, y: self.y + 1 })
            } else {
                None
            },
            CardinalDirection::West => if self.x > i32::MIN {
                Some(Position { x: self.x - 1, y: self.y })
            } else {
                None
            },
        }
    }
}

impl Size {
    pub fn new(width: u32, height: u32) -> (s: Size)
        ensures
            s == (Size { width, height }),
    {
        Size { width, height }
    }

    /// Number of cells of a grid of this size.
    pub open spec fn count(self) -> nat {
        (self.width as nat) * (self.height as nat)
    }

    /// Whether `coord` names a cell of a grid of this size.
    pub open spec fn contains(self, coord: Position) -> bool {
        0 <= coord.x < self.width && 0 <= coord.y < self.height
    }

    /// Row-major index of `coord` in a grid of this size.
    pub open spec fn spec_index(self, coord: Position) -> int {
        coord.y * self.width + coord.x
    }

    pub fn is_valid(self, coord: Position) -> (b: bool)
        ensures
            b == self.contains(coord),
    {
        coord.x >= 0 && coord.y >= 0 && (coord.x as u32) < self.width && (coord.y as u32)
            < self.height
    }

    /// Row-major index of `coord`, or `None` where `coord` lies outside.
    pub fn index_of(self, coord: Position) -> (r: Option<usize>)
        requires
            self.count() <= usize::MAX,
        ensures
            r is Some <==> self.contains(coord),
            r matches Some(i) ==> i == self.spec_index(coord) && i < self.count(),
    {
        if self.is_valid(coord) {
            proof {
                lemma_index_in_range(self, coord);
            }
            let row: usize = coord.y as usize;
            let width: usize = self.width as usize;
            let column: usize = coord.x as usize;
            Some(row * width + column)
        } else {
            None
        }
    }
}

/// The row-major index of a cell of a grid is below the number of cells.
pub proof fn lemma_index_in_range(size: Size, coord: Position)
    requires
        size.contains(coord),
    ensures
        0 <= coord.y * size.width <= size.spec_index(coord) < size.count(),
{
    let y = coord.y as int;
    let w = size.width as int;
    let h = size.height as int;
    assert(0 <= y * w) by (nonlinear_arith)
        requires
            0 <= y,
            0 <= w,
    ;
    assert(y * w + w <= h * w) by (nonlinear_arith)
        requires
            0 <= y < h,
            0 <= w,
    ;
    assert(h * w == w * h) by (nonlinear_arith);
}

/// Distinct cells of a grid have distinct row-major indices.
pub proof fn lemma_index_injective(size: Size, a: Position, b: Position)
    requires
        size.contains(a),
        size.contains(b),
        size.spec_index(a) == size.spec_index(b),
    ensures
        a == b,
{
    let w = size.width as int;
    let ay = a.y as int;
    let by = b.y as int;
    if ay < by {
        assert(ay * w + w <= by * w) by (nonlinear_arith)
            requires
                ay < by,
                0 <= w,
        ;
    } else if by < ay {
        assert(by * w + w <= ay * w) by (nonlinear_arith)
            requires
                by < ay,
                0 <= w,
        ;
    }
}

} // verus!
