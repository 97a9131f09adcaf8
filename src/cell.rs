use vstd::prelude::*;

verus! {

/// A 2D integer offset or position, `(x, y)`.
#[derive(Clone, Copy, Debug)]
pub struct Coordinates(pub i64, pub i64);

impl View for Coordinates {
    type V = (int, int);

    open spec fn view(&self) -> (int, int) {
        (self.0 as int, self.1 as int)
    }
}

impl Coordinates {
    /// Componentwise difference `self - rhs`.
    pub fn sub(self, rhs: Coordinates) -> (r: Coordinates)
        requires
            i64::MIN <= self.0 - rhs.0 <= i64::MAX,
            i64::MIN <= self.1 - rhs.1 <= i64::MAX,
        ensures
            r@ == (self@.0 - rhs@.0, self@.1 - rhs@.1),
    {
        Coordinates(self.0 - rhs.0, self.1 - rhs.1)
    }
}

/// The `k`-th of the eight unit offsets that lead from a cell to its neighbours,
/// in the order in which they are tried.
pub open spec fn offset(k: int) -> (int, int) {
    if k == 0 {
        (-1, -1)
    } else if k == 1 {
        (-1, 0)
    } else if k == 2 {
        (-1, 1)
    } else if k == 3 {
        (0, -1)
    } else if k == 4 {
        (0, 1)
    } else if k == 5 {
        (1, -1)
    } else if k == 6 {
        (1, 0)
    } else {
        (1, 1)
    }
}

/// The number of neighbour offsets.
pub const NEIGHBOUR_COUNT: usize = 8;

/// The `k`-th neighbour offset as a value.
pub fn neighbour_op(k: usize) -> (r: Coordinates)
    requires
        k < NEIGHBOUR_COUNT,
    ensures
        r@ == offset(k as int),
{
    if k == 0 {
        Coordinates(-1, -1)
    } else if k == 1 {
        Coordinates(-1, 0)
    } else if k == 2 {
        Coordinates(-1, 1)
    } else if k == 3 {
        Coordinates(0, -1)
    } else if k == 4 {
        Coordinates(0, 1)
    } else if k == 5 {
        Coordinates(1, -1)
    } else if k == 6 {
        Coordinates(1, 0)
    } else {
        Coordinates(1, 1)
    }
}

/// The state of one grid unit.
#[derive(Clone, Copy, Debug, PartialEq, Eq, Structural)]
pub enum Cell {
    Dead,
    Alive,
}

/// The glyph that stands for a cell: a hollow square for a dead one,
/// a filled square for a living one.
pub open spec fn glyph(c: Cell) -> Seq<char> {
    match c {
        Cell::Dead => seq!['\u{25FB}'],
        Cell::Alive => seq!['\u{25FC}'],
    }
}

impl Cell {
    /// True exactly for a living cell.
    pub fn is_alive(&self) -> (r: bool)
        ensures
            r == (*self is Alive),
    {
        *self == Cell::Alive
    }

    /// The cell's glyph.
    pub fn render(&self) -> (r: &'static str)
        ensures
            r@ == glyph(*self),
    {
        match self {
            Cell::Dead => {
                proof {
                    reveal_strlit("\u{25FB}");
                }
                "\u{25FB}"
            },
            Cell::Alive => {
                proof {
                    reveal_strlit("\u{25FC}");
                }
                "\u{25FC}"
            },
        }
    }
}

} // verus!
