use vstd::prelude::*;

verus! {

/// Axial coordinate `(q, r)` on a pointy-top hex grid.
///
/// The same type stands for a cell and for a step between cells: the six unit
/// steps are the neighbour directions.
#[derive(PartialEq, Eq, Structural, Clone, Copy, Debug, Hash)]
pub struct HexCoord {
    pub q: i32,
    pub r: i32,
}

/// A point of the hex lattice in exact integer units: `x` counts apothems
/// (`sqrt(3)/2`) and `y` counts half radii (`1/2`).
///
/// Every hex centre and every hex corner of the grid is such a point, so the
/// geometry of the grid is exact; a renderer scales `x` by the apothem and `y`
/// by one half.
#[derive(PartialEq, Eq, Structural, Clone, Copy, Debug)]
pub struct LatticePoint {
    pub x: i64,
    pub y: i64,
}

/// The six corners of one hex, as lattice points.
#[derive(PartialEq, Eq, Structural, Clone, Copy, Debug)]
pub struct HexCorners {
    pub top: LatticePoint,
    pub top_left: LatticePoint,
    pub top_right: LatticePoint,
    pub bottom_left: LatticePoint,
    pub bottom_right: LatticePoint,
    pub bottom: LatticePoint,
}

impl View for HexCoord {
    type V = (int, int);

    open spec fn view(&self) -> (int, int) {
        (self.q as int, self.r as int)
    }
}

/// `ceil(y / 2)`, written as in the offset formulas: `(y + (y & 1)) / 2`.
pub open spec fn half_up(y: int) -> int {
    (y + y % 2) / 2
}

/// Axial coordinate of the cell in column `x` of row `y`.
pub open spec fn axial_of_offset(x: int, y: int) -> (int, int) {
    (x - half_up(y), y)
}

/// Column and row of the cell with axial coordinate `(q, r)`.
pub open spec fn offset_of_axial(q: int, r: int) -> (int, int) {
    (q + half_up(r), r)
}

pub open spec fn in_i32(v: int) -> bool {
    i32::MIN <= v <= i32::MAX
}

/// Clockwise rotation by one sixth of a turn.
pub open spec fn clockwise(d: (int, int)) -> (int, int) {
    (-d.1, d.0 + d.1)
}

/// Anticlockwise rotation by one sixth of a turn.
pub open spec fn anticlockwise(d: (int, int)) -> (int, int) {
    (d.0 + d.1, -d.0)
}

/// The six unit directions, clockwise from the top left.
pub open spec fn is_unit(d: (int, int)) -> bool {
    d == (0int, -1int) || d == (1int, -1int) || d == (1int, 0int) || d == (0int, 1int) || d
        == (-1int, 1int) || d == (-1int, 0int)
}

/// Lattice position of the centre of the hex `h`.
pub open spec fn centre_of(h: (int, int)) -> (int, int) {
    (2 * h.0 + h.1, 3 * h.1)
}

/// Offset from a hex centre to the corner that the unit direction `d` selects.
pub open spec fn corner_offset(d: (int, int)) -> (int, int) {
    if d == (0int, -1int) {
        (-1, -1)
    } else if d == (1int, -1int) {
        (0, -2)
    } else if d == (1int, 0int) {
        (1, -1)
    } else if d == (0int, 1int) {
        (1, 1)
    } else if d == (-1int, 1int) {
        (0, 2)
    } else {
        (-1, 1)
    }
}

/// Lattice position of the corner of hex `h` selected by the unit direction `d`.
pub open spec fn corner_of(h: (int, int), d: (int, int)) -> (int, int) {
    (centre_of(h).0 + corner_offset(d).0, centre_of(h).1 + corner_offset(d).1)
}

impl LatticePoint {
    pub open spec fn pair(self) -> (int, int) {
        (self.x as int, self.y as int)
    }
}

/// `ceil(y / 2)` for a row index.
fn half_up_exec(y: i32) -> (h: i64)
    ensures
        h == half_up(y as int),
        i32::MIN / 2 <= h <= i32::MAX / 2 + 1,
{
    let p: i64 = if y % 2 == 0 {
        0
    } else {
        1
    };
    (y as i64 + p) / 2
}

impl HexCoord {
    pub fn new(q: i32, r: i32) -> (h: Self)
        ensures
            h.q == q,
            h.r == r,
    {
        HexCoord { q, r }
    }

    pub fn top_left() -> (h: Self)
        ensures
            h@ == (0int, -1int),
    {
        HexCoord { q: 0, r: -1 }
    }

    pub fn top_right() -> (h: Self)
        ensures
            h@ == (1int, -1int),
    {
        HexCoord { q: 1, r: -1 }
    }

    pub fn right() -> (h: Self)
        ensures
            h@ == (1int, 0int),
    {
        HexCoord { q: 1, r: 0 }
    }

    pub fn bottom_right() -> (h: Self)
        ensures
            h@ == (0int, 1int),
    {
        HexCoord { q: 0, r: 1 }
    }

    pub fn bottom_left() -> (h: Self)
        ensures
            h@ == (-1int, 1int),
    {
        HexCoord { q: -1, r: 1 }
    }

    pub fn left() -> (h: Self)
        ensures
            h@ == (-1int, 0int),
    {
        HexCoord { q: -1, r: 0 }
    }

    /// Whether `self` is one of the six unit directions.
    pub fn is_unit(&self) -> (b: bool)
        ensures
            b == is_unit(self@),
    {
        (self.q == 0 && self.r == -1) || (self.q == 1 && self.r == -1) || (self.q == 1 && self.r
            == 0) || (self.q == 0 && self.r == 1) || (self.q == -1 && self.r == 1) || (self.q
            == -1 && self.r == 0)
    }

    /// The cell in column `x` of row `y` (rows staggered by parity).
    pub fn from_offset(x: i32, y: i32) -> (h: Self)
        requires
            in_i32(axial_of_offset(x as int, y as int).0),
        ensures
            h@ == axial_of_offset(x as int, y as int),
    {
        let q = x as i64 - half_up_exec(y);
        HexCoord { q: q as i32, r: y }
    }

    /// Column and row of this cell.
    pub fn to_offset(&self) -> (o: (i32, i32))
        requires
            in_i32(offset_of_axial(self.q as int, self.r as int).0),
        ensures
            (o.0 as int, o.1 as int) == offset_of_axial(self.q as int, self.r as int),
    {
        let col = self.q as i64 + half_up_exec(self.r);
        (col as i32, self.r)
    }

    /// Cube coordinates `(q, r, -q - r)`.
    pub fn to_cubic(&self) -> (c: (i32, i32, i32))
        requires
            in_i32(-self.q - self.r),
        ensures
            c.0 == self.q,
            c.1 == self.r,
            c.2 == -self.q - self.r,
    {
        let s = 0 - self.q as i64 - self.r as i64;
        (self.q, self.r, s as i32)
    }

    /// Rotation by one sixth of a turn clockwise, `(q, r) -> (-r, q + r)`.
    pub fn rotate_clockwise(&self) -> (d: Self)
        requires
            in_i32(-self.r),
            in_i32(self.q + self.r),
        ensures
            d@ == clockwise(self@),
    {
        HexCoord::new(-self.r, self.q + self.r)
    }

    /// Rotation by one sixth of a turn anticlockwise, `(q, r) -> (q + r, -q)`.
    pub fn rotate_anticlockwise(&self) -> (d: Self)
        requires
            in_i32(self.q + self.r),
            in_i32(-self.q),
        ensures
            d@ == anticlockwise(self@),
    {
        HexCoord::new(self.q + self.r, -self.q)
    }

    /// The hex one step away in direction `d`.
    pub fn add(self, d: Self) -> (h: Self)
        requires
            in_i32(self.q + d.q),
            in_i32(self.r + d.r),
        ensures
            h@ == (self@.0 + d@.0, self@.1 + d@.1),
    {
        HexCoord::new(self.q + d.q, self.r + d.r)
    }

    /// Lattice position of the centre of this hex.
    pub fn centre(&self) -> (c: LatticePoint)
        ensures
            c.pair() == centre_of(self@),
    {
        LatticePoint { x: 2 * (self.q as i64) + self.r as i64, y: 3 * (self.r as i64) }
    }

    /// The corner of this hex that the unit direction `direction` selects:
    /// each direction names the corner that ends the edge facing it, going
    /// clockwise.
    pub fn corner(&self, direction: Self) -> (c: LatticePoint)
        requires
            is_unit(direction@),
        ensures
            c.pair() == corner_of(self@, direction@),
    {
        let centre = self.centre();
        let (dx, dy): (i64, i64) = if direction.q == 0 && direction.r == -1 {
            (-1, -1)
        } else if direction.q == 1 && direction.r == -1 {
            (0, -2)
        } else if direction.q == 1 && direction.r == 0 {
            (1, -1)
        } else if direction.q == 0 && direction.r == 1 {
            (1, 1)
        } else if direction.q == -1 && direction.r == 1 {
            (0, 2)
        } else {
            (-1, 1)
        };
        LatticePoint { x: centre.x + dx, y: centre.y + dy }
    }

    /// All six corners of this hex.
    pub fn world_space(&self) -> (c: HexCorners)
        ensures
            c.top.pair() == (centre_of(self@).0, centre_of(self@).1 - 2),
            c.top_left.pair() == (centre_of(self@).0 - 1, centre_of(self@).1 - 1),
            c.top_right.pair() == (centre_of(self@).0 + 1, centre_of(self@).1 - 1),
            c.bottom_right.pair() == (centre_of(self@).0 + 1, centre_of(self@).1 + 1),
            c.bottom.pair() == (centre_of(self@).0, centre_of(self@).1 + 2),
            c.bottom_left.pair() == (centre_of(self@).0 - 1, centre_of(self@).1 + 1),
    {
        let c = self.centre();
        HexCorners {
            top: LatticePoint { x: c.x, y: c.y - 2 },
            top_left: LatticePoint { x: c.x - 1, y: c.y - 1 },
            top_right: LatticePoint { x: c.x + 1, y: c.y - 1 },
            bottom_left: LatticePoint { x: c.x - 1, y: c.y + 1 },
            bottom_right: LatticePoint { x: c.x + 1, y: c.y + 1 },
            bottom: LatticePoint { x: c.x, y: c.y + 2 },
        }
    }
}

/// Converting a cell to axial coordinates and back gives the same column and
/// row, for every cell of a grid of at most 64 by 64.
pub proof fn lemma_offset_round_trip(x: int, y: int, width: int, height: int)
    requires
        0 <= x < width,
        0 <= y < height,
        width <= 64,
        height <= 64,
    ensures
        in_i32(axial_of_offset(x, y).0),
        offset_of_axial(axial_of_offset(x, y).0, axial_of_offset(x, y).1) == (x, y),
{
}

/// On the six unit directions, six clockwise turns are the identity, and the
/// clockwise and anticlockwise turns undo each other.
pub proof fn lemma_rotation_group(d: (int, int))
    requires
        is_unit(d),
    ensures
        clockwise(clockwise(clockwise(clockwise(clockwise(clockwise(d)))))) == d,
        anticlockwise(clockwise(d)) == d,
        clockwise(anticlockwise(d)) == d,
        is_unit(clockwise(d)),
        is_unit(anticlockwise(d)),
{
}

} // verus!
