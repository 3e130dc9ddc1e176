//! The playfield grid: its fixed dimensions, the coordinate arithmetic that
//! maps pixel positions to rows and columns, and the unit square that every
//! piece is made of.
//!
//! Rows are counted from the top of the playfield (row 0) downwards, columns
//! from its left edge (column 0) to the right.

use vstd::prelude::*;

verus! {

/// Horizontal position of the playfield's left edge.
pub const X_ANCHOR: i32 = 300;

/// Vertical position of the playfield's top edge.
pub const Y_ANCHOR: i32 = 100;

/// Horizontal position just past the playfield's right edge.
pub const MAX_X: i32 = 500;

/// Vertical position of the playfield's floor.
pub const MAX_Y: i32 = 300;

/// Edge length of one grid cell.
pub const GRANULE_SIZE: i32 = 10;

/// Number of rows of the playfield.
pub const LINES: usize = 20;

/// Number of columns of the playfield.
pub const COLS: usize = 20;

/// The row and column counts are the playfield's extent measured in granules.
pub proof fn lemma_field_dimensions()
    ensures
        LINES * GRANULE_SIZE == MAX_Y - Y_ANCHOR,
        COLS * GRANULE_SIZE == MAX_X - X_ANCHOR,
        X_ANCHOR % GRANULE_SIZE == 0,
        Y_ANCHOR % GRANULE_SIZE == 0,
{
}

/// A position in pixel coordinates.
#[derive(Clone, Copy, Debug, PartialEq, Eq, Structural)]
pub struct Point {
    pub x: i32,
    pub y: i32,
}

/// A width and a height in pixels.
#[derive(Clone, Copy, Debug, PartialEq, Eq, Structural)]
pub struct Size {
    pub width: u32,
    pub height: u32,
}

/// An axis-aligned rectangle given by its top-left corner and its size.
#[derive(Clone, Copy, Debug, PartialEq, Eq, Structural)]
pub struct Rectangle {
    pub top_left: Point,
    pub size: Size,
}

/// The colour tag of a unit. It is carried along for rendering and never
/// read by the game rules.
#[derive(Clone, Copy, Debug, PartialEq, Eq, Structural)]
pub enum Color {
    Red,
    Green,
    Magenta,
    Blue,
    Yellow,
}

/// Remainder of the division that rounds towards zero: it carries the sign of
/// `v`.
pub open spec fn rem_toward_zero(v: int, d: int) -> int {
    if v >= 0 {
        v % d
    } else {
        -((-v) % d)
    }
}

/// The granule divided by a positive `scaler`, rounded down.
pub open spec fn granule_fraction(scaler: int) -> int {
    GRANULE_SIZE as int / scaler
}

/// Where a coordinate lands when it is snapped to a grid line.
///
/// The remainder of `v` by the granule decides: below `GRANULE_SIZE / scaler`
/// the coordinate falls back by the remainder, otherwise it moves forward to
/// the next multiple of the granule. With `scaler == 1` every non-negative
/// coordinate falls back; with `scaler == 2` it goes to the nearest line.
pub open spec fn snapped(v: int, scaler: int) -> int {
    let r = rem_toward_zero(v, GRANULE_SIZE as int);
    if r < granule_fraction(scaler) {
        v - r
    } else {
        v + GRANULE_SIZE - r
    }
}

/// Row index of the cell whose top edge is at `y`.
pub open spec fn row_of(y: int) -> int {
    (y - Y_ANCHOR) / (GRANULE_SIZE as int)
}

/// Column index of the cell whose left edge is at `x`.
pub open spec fn col_of(x: int) -> int {
    (x - X_ANCHOR) / (GRANULE_SIZE as int)
}

/// The y coordinate of the top edge of row `row`.
pub open spec fn row_y(row: int) -> int {
    row * GRANULE_SIZE + Y_ANCHOR
}

/// The x coordinate of the left edge of column `col`.
pub open spec fn col_x(col: int) -> int {
    col * GRANULE_SIZE + X_ANCHOR
}

/// Snaps one coordinate to the grid. `scaler` is the factor by which the
/// coordinate was scaled up beforehand: the threshold between falling back
/// and moving forward is the granule divided by it.
pub fn snap_coordinate(v: i64, scaler: i64) -> (r: i64)
    requires
        scaler > 0,
        v <= i64::MAX - GRANULE_SIZE,
    ensures
        r == snapped(v as int, scaler as int),
{
    let granule: i64 = GRANULE_SIZE as i64;
    let d: i64 = v % granule;
    if d < granule / scaler {
        v - d
    } else {
        v + granule - d
    }
}

/// Snaps both coordinates of `point` to the grid.
pub fn snap_to_grid(point: &mut Point, scaler: i32)
    requires
        scaler > 0,
        old(point).x <= i32::MAX - GRANULE_SIZE,
        old(point).y <= i32::MAX - GRANULE_SIZE,
    ensures
        final(point).x == snapped(old(point).x as int, scaler as int),
        final(point).y == snapped(old(point).y as int, scaler as int),
{
    let x: i64 = snap_coordinate(point.x as i64, scaler as i64);
    let y: i64 = snap_coordinate(point.y as i64, scaler as i64);
    point.x = x as i32;
    point.y = y as i32;
}

impl Point {
    /// The origin.
    pub fn zero() -> (p: Point)
        ensures
            p == (Point { x: 0, y: 0 }),
    {
        Point { x: 0, y: 0 }
    }
}

impl Rectangle {
    /// The empty rectangle at the origin.
    pub fn zero() -> (r: Rectangle)
        ensures
            r == (Rectangle { top_left: Point { x: 0, y: 0 }, size: Size { width: 0, height: 0 } }),
    {
        Rectangle { top_left: Point { x: 0, y: 0 }, size: Size { width: 0, height: 0 } }
    }

    /// The pixel at the centre of the rectangle. Where the width or the
    /// height is even the centre lies between two pixels and the one nearer
    /// to the top-left corner is taken.
    pub open spec fn center_point(self) -> Point {
        Point {
            x: (self.top_left.x + center_offset(self.size.width as int)) as i32,
            y: (self.top_left.y + center_offset(self.size.height as int)) as i32,
        }
    }

    /// The pixel at the centre of the rectangle.
    pub fn center(&self) -> (c: Point)
        requires
            self.top_left.x + center_offset(self.size.width as int) <= i32::MAX,
            self.top_left.y + center_offset(self.size.height as int) <= i32::MAX,
        ensures
            c == self.center_point(),
            c.x == self.top_left.x + center_offset(self.size.width as int),
            c.y == self.top_left.y + center_offset(self.size.height as int),
    {
        let dx: u32 = if self.size.width == 0 {
            0
        } else {
            (self.size.width - 1) / 2
        };
        let dy: u32 = if self.size.height == 0 {
            0
        } else {
            (self.size.height - 1) / 2
        };
        let cx: i64 = self.top_left.x as i64 + dx as i64;
        let cy: i64 = self.top_left.y as i64 + dy as i64;
        Point { x: cx as i32, y: cy as i32 }
    }
}

/// Distance from one edge of an extent of `length` pixels to its centre pixel.
pub open spec fn center_offset(length: int) -> int {
    if length <= 0 {
        0
    } else {
        (length - 1) / 2
    }
}

/// The atomic 1×1 grid square: a position and a colour tag.
///
/// `x` and `y` are the pixel coordinates of the square's top-left corner; its
/// edge length is always one granule.
#[derive(Clone, Copy, Debug, PartialEq, Eq, Structural)]
pub struct PrimitiveBox {
    pub x: i32,
    pub y: i32,
    pub color: Color,
}

impl PrimitiveBox {
    /// The square lies wholly inside the playfield.
    pub open spec fn in_bounds(self) -> bool {
        &&& self.x >= X_ANCHOR
        &&& self.x + GRANULE_SIZE <= MAX_X
        &&& self.y >= Y_ANCHOR
        &&& self.y + GRANULE_SIZE <= MAX_Y
    }

    /// The square's corner is a whole number of granules away from the
    /// playfield's anchor corner.
    pub open spec fn on_grid(self) -> bool {
        &&& (self.x - X_ANCHOR) % (GRANULE_SIZE as int) == 0
        &&& (self.y - Y_ANCHOR) % (GRANULE_SIZE as int) == 0
    }

    /// The square occupies exactly one cell of the playfield.
    pub open spec fn valid(self) -> bool {
        self.in_bounds() && self.on_grid()
    }

    /// Row index of the square.
    pub open spec fn row(self) -> int {
        row_of(self.y as int)
    }

    /// Column index of the square.
    pub open spec fn col(self) -> int {
        col_of(self.x as int)
    }

    /// The square moved by `dx` and `dy` pixels.
    pub open spec fn moved(self, dx: int, dy: int) -> PrimitiveBox {
        PrimitiveBox { x: (self.x + dx) as i32, y: (self.y + dy) as i32, color: self.color }
    }

    pub fn new(x: i32, y: i32, color: Color) -> (unit: PrimitiveBox)
        ensures
            unit == (PrimitiveBox { x, y, color }),
    {
        PrimitiveBox { x, y, color }
    }

    pub fn is_in_bounds(&self) -> (inside: bool)
        ensures
            inside == self.in_bounds(),
    {
        self.x >= X_ANCHOR && self.x <= MAX_X - GRANULE_SIZE && self.y >= Y_ANCHOR && self.y
            <= MAX_Y - GRANULE_SIZE
    }

    /// Moves the square one granule to the left.
    pub fn left(&mut self) -> (done: Option<()>)
        requires
            old(self).x - GRANULE_SIZE >= i32::MIN,
        ensures
            done is Some,
            *final(self) == old(self).moved(-GRANULE_SIZE as int, 0),
            final(self).x == old(self).x - GRANULE_SIZE,
    {
        self.x -= GRANULE_SIZE;
        Some(())
    }

    /// Moves the square one granule to the right.
    pub fn right(&mut self) -> (done: Option<()>)
        requires
            old(self).x + GRANULE_SIZE <= i32::MAX,
        ensures
            done is Some,
            *final(self) == old(self).moved(GRANULE_SIZE as int, 0),
            final(self).x == old(self).x + GRANULE_SIZE,
    {
        self.x += GRANULE_SIZE;
        Some(())
    }

    /// Moves the square one granule down.
    pub fn down(&mut self) -> (done: Option<()>)
        requires
            old(self).y + GRANULE_SIZE <= i32::MAX,
        ensures
            done is Some,
            *final(self) == old(self).moved(0, GRANULE_SIZE as int),
            final(self).y == old(self).y + GRANULE_SIZE,
    {
        self.y += GRANULE_SIZE;
        Some(())
    }

    pub fn top_left(&self) -> (p: Point)
        ensures
            p == (Point { x: self.x, y: self.y }),
    {
        Point { x: self.x, y: self.y }
    }

    /// The square as a rectangle: its corner and its one-granule extent.
    pub fn bounding_box(&self) -> (r: Rectangle)
        ensures
            r == (Rectangle {
                top_left: Point { x: self.x, y: self.y },
                size: Size { width: GRANULE_SIZE as u32, height: GRANULE_SIZE as u32 },
            }),
    {
        Rectangle {
            top_left: Point { x: self.x, y: self.y },
            size: Size { width: GRANULE_SIZE as u32, height: GRANULE_SIZE as u32 },
        }
    }

    /// Row index of a square inside the playfield.
    pub fn row_index(&self) -> (row: usize)
        requires
            self.in_bounds(),
        ensures
            row == self.row(),
            row < LINES,
    {
        ((self.y - Y_ANCHOR) / GRANULE_SIZE) as usize
    }

    /// Column index of a square inside the playfield.
    pub fn col_index(&self) -> (col: usize)
        requires
            self.in_bounds(),
        ensures
            col == self.col(),
            col < COLS,
    {
        ((self.x - X_ANCHOR) / GRANULE_SIZE) as usize
    }
}

} // verus!
