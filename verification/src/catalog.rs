//! The piece catalog: five fixed archetypes, each made of four units around a
//! spawn anchor at the horizontal centre of the playfield, its topmost units
//! in the first row.

use crate::grid::{Color, Point, PrimitiveBox, GRANULE_SIZE, MAX_X, X_ANCHOR, Y_ANCHOR};
use crate::shape::{
    all_valid, bounds, first_least, key_bottom, key_left, key_right, key_top, pivot_for, Shape,
    ShapeView,
};
use vstd::prelude::*;

verus! {

/// Horizontal position of the spawn anchor: the centre of the playfield.
pub const SPAWN_X: i32 = 400;

/// The spawn anchor is halfway between the left and the right edge.
pub proof fn lemma_spawn_anchor()
    ensures
        SPAWN_X == X_ANCHOR + (MAX_X - X_ANCHOR) / 2,
{
}

/// Number of archetypes in the catalog.
pub const ARCHETYPES: u32 = 5;

/// The five kinds of piece.
#[derive(Clone, Copy, Debug, PartialEq, Eq, Structural)]
pub enum Archetype {
    /// Four units in a column.
    Long,
    /// Two by two units.
    Quad,
    /// Three units in a row and one above the middle.
    T,
    /// Two rows of two units, the lower one shifted to the right.
    Z,
    /// Three units in a column with a foot to the right.
    L,
}

/// The unit of colour `color` that lies `dx` columns right of the spawn
/// anchor and `dy` rows below the top of the playfield.
pub open spec fn spawn_unit(dx: int, dy: int, color: Color) -> PrimitiveBox {
    PrimitiveBox {
        x: (SPAWN_X + dx * GRANULE_SIZE) as i32,
        y: (Y_ANCHOR + dy * GRANULE_SIZE) as i32,
        color,
    }
}

impl Archetype {
    /// The colour tag of the archetype.
    pub open spec fn color(self) -> Color {
        match self {
            Archetype::Long => Color::Red,
            Archetype::Quad => Color::Green,
            Archetype::T => Color::Magenta,
            Archetype::Z => Color::Blue,
            Archetype::L => Color::Yellow,
        }
    }

    /// The four units of the archetype at its spawn position, in the order
    /// in which the piece holds them.
    pub open spec fn units(self) -> Seq<PrimitiveBox> {
        let c = self.color();
        match self {
            Archetype::Long => seq![
                spawn_unit(0, 3, c),
                spawn_unit(0, 2, c),
                spawn_unit(0, 1, c),
                spawn_unit(0, 0, c),
            ],
            Archetype::Quad => seq![
                spawn_unit(0, 1, c),
                spawn_unit(1, 1, c),
                spawn_unit(0, 0, c),
                spawn_unit(1, 0, c),
            ],
            Archetype::T => seq![
                spawn_unit(0, 1, c),
                spawn_unit(1, 1, c),
                spawn_unit(-1, 1, c),
                spawn_unit(0, 0, c),
            ],
            Archetype::Z => seq![
                spawn_unit(1, 1, c),
                spawn_unit(2, 1, c),
                spawn_unit(0, 0, c),
                spawn_unit(1, 0, c),
            ],
            Archetype::L => seq![
                spawn_unit(0, 2, c),
                spawn_unit(1, 2, c),
                spawn_unit(0, 1, c),
                spawn_unit(0, 0, c),
            ],
        }
    }

    /// The pivot of the archetype at its spawn position.
    pub open spec fn pivot(self) -> Point {
        match self {
            Archetype::Long => Point { x: SPAWN_X, y: (Y_ANCHOR + GRANULE_SIZE) as i32 },
            Archetype::Quad => Point { x: SPAWN_X, y: Y_ANCHOR },
            Archetype::T => Point { x: SPAWN_X, y: Y_ANCHOR },
            Archetype::Z => Point { x: (SPAWN_X + GRANULE_SIZE) as i32, y: Y_ANCHOR },
            Archetype::L => Point { x: SPAWN_X, y: (Y_ANCHOR + GRANULE_SIZE) as i32 },
        }
    }

    /// The archetype as a piece at its spawn position.
    pub open spec fn spawned(self) -> ShapeView {
        ShapeView { units: self.units(), pivot: self.pivot() }
    }

    /// The archetype that the catalog lists at `index`.
    pub open spec fn at(index: int) -> Archetype {
        if index == 0 {
            Archetype::Long
        } else if index == 1 {
            Archetype::Quad
        } else if index == 2 {
            Archetype::T
        } else if index == 3 {
            Archetype::Z
        } else {
            Archetype::L
        }
    }

    /// The archetype at position `index` of the catalog.
    pub fn from_index(index: u32) -> (archetype: Archetype)
        requires
            index < ARCHETYPES,
        ensures
            archetype == Archetype::at(index as int),
    {
        match index {
            0 => Archetype::Long,
            1 => Archetype::Quad,
            2 => Archetype::T,
            3 => Archetype::Z,
            _ => Archetype::L,
        }
    }
}

/// Every archetype spawns as a well-formed piece of four units whose pivot
/// is the one that a piece made of those units gets.
pub proof fn lemma_spawned(archetype: Archetype)
    ensures
        archetype.units().len() == 4,
        all_valid(archetype.units()),
        archetype.pivot() == pivot_for(archetype.units()),
        archetype.spawned().wf(),
        forall|i: int| 0 <= i < 4 ==> (#[trigger] archetype.units()[i]).color == archetype.color(),
{
    let units = archetype.units();
    reveal_with_fuel(first_least, 5);
    assert(units.len() == 4);
    let l = first_least(units, key_left(), 4);
    let r = first_least(units, key_right(), 4);
    let t = first_least(units, key_top(), 4);
    let b = first_least(units, key_bottom(), 4);
    match archetype {
        Archetype::Long => {
            assert(l == 0 && r == 0 && t == 3 && b == 0);
        },
        Archetype::Quad => {
            assert(l == 0 && r == 1 && t == 2 && b == 0);
        },
        Archetype::T => {
            assert(l == 2 && r == 1 && t == 3 && b == 0);
        },
        Archetype::Z => {
            assert(l == 2 && r == 1 && t == 2 && b == 0);
        },
        Archetype::L => {
            assert(l == 0 && r == 1 && t == 3 && b == 0);
        },
    }
    let bb = bounds(units);
    assert(bb.top_left.x == units[l].x);
    assert(bb.top_left.y == units[t].y);
}

/// Builds the pieces of the catalog.
pub struct ShapeBuilder {
    pub inner: Shape,
}

impl ShapeBuilder {
    /// The archetype `archetype` at its spawn position.
    pub fn of(archetype: Archetype) -> (builder: ShapeBuilder)
        ensures
            builder.inner@ == archetype.spawned(),
            builder.inner@.wf(),
    {
        match archetype {
            Archetype::Long => ShapeBuilder::long(),
            Archetype::Quad => ShapeBuilder::quad(),
            Archetype::T => ShapeBuilder::t(),
            Archetype::Z => ShapeBuilder::z(),
            Archetype::L => ShapeBuilder::l(),
        }
    }

    /// Four units in a column below the spawn anchor.
    pub fn long() -> (builder: ShapeBuilder)
        ensures
            builder.inner@ == Archetype::Long.spawned(),
            builder.inner@.wf(),
    {
        let color = Color::Red;
        let mut elements: Vec<PrimitiveBox> = Vec::new();
        elements.push(PrimitiveBox::new(SPAWN_X, Y_ANCHOR + 3 * GRANULE_SIZE, color));
        elements.push(PrimitiveBox::new(SPAWN_X, Y_ANCHOR + 2 * GRANULE_SIZE, color));
        elements.push(PrimitiveBox::new(SPAWN_X, Y_ANCHOR + GRANULE_SIZE, color));
        elements.push(PrimitiveBox::new(SPAWN_X, Y_ANCHOR, color));
        proof {
            lemma_spawned(Archetype::Long);
            assert(elements@ =~= Archetype::Long.units());
        }
        ShapeBuilder { inner: Shape::new(elements) }
    }

    /// Two by two units at the spawn anchor.
    pub fn quad() -> (builder: ShapeBuilder)
        ensures
            builder.inner@ == Archetype::Quad.spawned(),
            builder.inner@.wf(),
    {
        let color = Color::Green;
        let mut elements: Vec<PrimitiveBox> = Vec::new();
        elements.push(PrimitiveBox::new(SPAWN_X, Y_ANCHOR + GRANULE_SIZE, color));
        elements.push(PrimitiveBox::new(SPAWN_X + GRANULE_SIZE, Y_ANCHOR + GRANULE_SIZE, color));
        elements.push(PrimitiveBox::new(SPAWN_X, Y_ANCHOR, color));
        elements.push(PrimitiveBox::new(SPAWN_X + GRANULE_SIZE, Y_ANCHOR, color));
        proof {
            lemma_spawned(Archetype::Quad);
            assert(elements@ =~= Archetype::Quad.units());
        }
        ShapeBuilder { inner: Shape::new(elements) }
    }

    /// Three units in the second row and one above the middle of them.
    pub fn t() -> (builder: ShapeBuilder)
        ensures
            builder.inner@ == Archetype::T.spawned(),
            builder.inner@.wf(),
    {
        let color = Color::Magenta;
        let mut elements: Vec<PrimitiveBox> = Vec::new();
        elements.push(PrimitiveBox::new(SPAWN_X, Y_ANCHOR + GRANULE_SIZE, color));
        elements.push(PrimitiveBox::new(SPAWN_X + GRANULE_SIZE, Y_ANCHOR + GRANULE_SIZE, color));
        elements.push(PrimitiveBox::new(SPAWN_X - GRANULE_SIZE, Y_ANCHOR + GRANULE_SIZE, color));
        elements.push(PrimitiveBox::new(SPAWN_X, Y_ANCHOR, color));
        proof {
            lemma_spawned(Archetype::T);
            assert(elements@ =~= Archetype::T.units());
        }
        ShapeBuilder { inner: Shape::new(elements) }
    }

    /// Two units in the first row and two in the second, one column further
    /// to the right.
    pub fn z() -> (builder: ShapeBuilder)
        ensures
            builder.inner@ == Archetype::Z.spawned(),
            builder.inner@.wf(),
    {
        let color = Color::Blue;
        let mut elements: Vec<PrimitiveBox> = Vec::new();
        elements.push(PrimitiveBox::new(SPAWN_X + GRANULE_SIZE, Y_ANCHOR + GRANULE_SIZE, color));
        elements.push(PrimitiveBox::new(SPAWN_X + 2 * GRANULE_SIZE, Y_ANCHOR + GRANULE_SIZE, color));
        elements.push(PrimitiveBox::new(SPAWN_X, Y_ANCHOR, color));
        elements.push(PrimitiveBox::new(SPAWN_X + GRANULE_SIZE, Y_ANCHOR, color));
        proof {
            lemma_spawned(Archetype::Z);
            assert(elements@ =~= Archetype::Z.units());
        }
        ShapeBuilder { inner: Shape::new(elements) }
    }

    /// Three units in a column and one to the right of the lowest.
    pub fn l() -> (builder: ShapeBuilder)
        ensures
            builder.inner@ == Archetype::L.spawned(),
            builder.inner@.wf(),
    {
        let color = Color::Yellow;
        let mut elements: Vec<PrimitiveBox> = Vec::new();
        elements.push(PrimitiveBox::new(SPAWN_X, Y_ANCHOR + 2 * GRANULE_SIZE, color));
        elements.push(PrimitiveBox::new(SPAWN_X + GRANULE_SIZE, Y_ANCHOR + 2 * GRANULE_SIZE, color));
        elements.push(PrimitiveBox::new(SPAWN_X, Y_ANCHOR + GRANULE_SIZE, color));
        elements.push(PrimitiveBox::new(SPAWN_X, Y_ANCHOR, color));
        proof {
            lemma_spawned(Archetype::L);
            assert(elements@ =~= Archetype::L.units());
        }
        ShapeBuilder { inner: Shape::new(elements) }
    }

    /// Hands out the piece.
    pub fn build(self) -> (shape: Shape)
        ensures
            shape == self.inner,
    {
        self.inner
    }

    /// Gives every unit of the piece the colour `color`.
    pub fn with_color(self, color: Color) -> (builder: ShapeBuilder)
        ensures
            builder.inner@.pivot == self.inner@.pivot,
            builder.inner@.units.len() == self.inner@.units.len(),
            forall|i: int|
                0 <= i < self.inner@.units.len() ==> #[trigger] builder.inner@.units[i] == (PrimitiveBox {
                    color,
                    ..self.inner@.units[i]
                }),
    {
        let mut builder = self;
        let ghost before = builder.inner@.units;
        let n: usize = builder.inner.elements.len();
        let mut i: usize = 0;
        while i < n
            invariant
                i <= n,
                n == before.len(),
                builder.inner@.units.len() == n,
                builder.inner@.pivot == self.inner@.pivot,
                forall|j: int|
                    0 <= j < i ==> #[trigger] builder.inner@.units[j] == (PrimitiveBox { color, ..before[j] }),
                forall|j: int| i <= j < n ==> #[trigger] builder.inner@.units[j] == before[j],
            decreases n - i,
        {
            let mut unit: PrimitiveBox = builder.inner.elements[i];
            unit.color = color;
            builder.inner.elements.set(i, unit);
            i += 1;
        }
        builder
    }
}

} // verus!
