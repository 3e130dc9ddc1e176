//! Pieces: ordered collections of unit squares with a pivot, and the purely
//! geometric operations on them. Nothing here knows about settled material;
//! whatever depends on it is handed in as a predicate on single units.

use crate::grid::{
    snap_coordinate, snap_to_grid, snapped, Point, PrimitiveBox, Rectangle, Size, GRANULE_SIZE, MAX_X,
    MAX_Y, X_ANCHOR, Y_ANCHOR,
};
use vstd::prelude::*;

verus! {

/// The mathematical content of a piece: its units in insertion order and its
/// pivot.
pub struct ShapeView {
    pub units: Seq<PrimitiveBox>,
    pub pivot: Point,
}

/// An ordered collection of units plus the point about which they rotate.
#[derive(Debug, PartialEq, Eq, Clone)]
pub struct Shape {
    pub elements: Vec<PrimitiveBox>,
    pub pivot: Point,
}

impl View for Shape {
    type V = ShapeView;

    open spec fn view(&self) -> ShapeView {
        ShapeView { units: self.elements@, pivot: self.pivot }
    }
}

/// The three directions in which a piece can be moved.
#[derive(Clone, Copy, Debug, PartialEq, Eq, Structural)]
pub enum Direction {
    Left,
    Right,
    Down,
}

/// The two senses of a quarter turn.
#[derive(Clone, Copy, Debug, PartialEq, Eq, Structural)]
pub enum Rotation {
    Clockwise,
    Counterclockwise,
}

/// Every unit of the sequence occupies exactly one cell of the playfield.
pub open spec fn all_valid(units: Seq<PrimitiveBox>) -> bool {
    forall|i: int| 0 <= i < units.len() ==> (#[trigger] units[i]).valid()
}

impl ShapeView {
    /// Well-formedness of a piece: every unit sits on a cell of the
    /// playfield, and the pivot lies on grid lines.
    pub open spec fn wf(self) -> bool {
        &&& all_valid(self.units)
        &&& self.pivot.x as int % (GRANULE_SIZE as int) == 0
        &&& self.pivot.y as int % (GRANULE_SIZE as int) == 0
    }

    /// The pivot can be moved by one granule in any direction without
    /// leaving the range of its coordinates.
    pub open spec fn pivot_has_room(self) -> bool {
        &&& i32::MIN + GRANULE_SIZE <= self.pivot.x <= i32::MAX - GRANULE_SIZE
        &&& self.pivot.y <= i32::MAX - GRANULE_SIZE
    }

    /// The piece has a unit, and no unit is farther from the pivot, along
    /// either axis, than the playfield is wide and high. A piece that is
    /// made of units on the playfield is anchored, and moving or turning it
    /// keeps it so; the pivot of an anchored piece stays near the playfield.
    pub open spec fn anchored(self) -> bool {
        &&& self.units.len() > 0
        &&& forall|i: int|
            0 <= i < self.units.len() ==> {
                &&& -(MAX_X - X_ANCHOR) <= (#[trigger] self.units[i]).x - self.pivot.x <= MAX_X - X_ANCHOR
                &&& -(MAX_Y - Y_ANCHOR) <= self.units[i].y - self.pivot.y <= MAX_Y - Y_ANCHOR
            }
    }
}

// ---------------------------------------------------------------------------
// Directional scans
// ---------------------------------------------------------------------------

/// Orders units from left to right.
pub open spec fn key_left() -> spec_fn(PrimitiveBox) -> int {
    |u: PrimitiveBox| u.x as int
}

/// Orders units from right to left.
pub open spec fn key_right() -> spec_fn(PrimitiveBox) -> int {
    |u: PrimitiveBox| -(u.x as int)
}

/// Orders units from top to bottom.
pub open spec fn key_top() -> spec_fn(PrimitiveBox) -> int {
    |u: PrimitiveBox| u.y as int
}

/// Orders units from bottom to top.
pub open spec fn key_bottom() -> spec_fn(PrimitiveBox) -> int {
    |u: PrimitiveBox| -(u.y as int)
}

/// Index of the first unit among `units[0..upto]` whose key is least.
pub open spec fn first_least(units: Seq<PrimitiveBox>, key: spec_fn(PrimitiveBox) -> int, upto: int) -> int
    decreases upto,
{
    if upto <= 1 {
        0
    } else {
        let best = first_least(units, key, upto - 1);
        if key(units[upto - 1]) < key(units[best]) {
            upto - 1
        } else {
            best
        }
    }
}

/// `first_least` names a unit with the least key, and the earliest such.
pub proof fn lemma_first_least(units: Seq<PrimitiveBox>, key: spec_fn(PrimitiveBox) -> int, upto: int)
    requires
        1 <= upto <= units.len(),
    ensures
        0 <= first_least(units, key, upto) < upto,
        forall|j: int| 0 <= j < upto ==> key(units[first_least(units, key, upto)]) <= key(#[trigger] units[j]),
        forall|j: int|
            0 <= j < first_least(units, key, upto) ==> key(units[first_least(units, key, upto)]) < key(
                #[trigger] units[j],
            ),
    decreases upto,
{
    if upto > 1 {
        lemma_first_least(units, key, upto - 1);
    }
}

/// Once the least key over the whole sequence has been found, looking
/// further does not change the answer.
pub proof fn lemma_first_least_settled(
    units: Seq<PrimitiveBox>,
    key: spec_fn(PrimitiveBox) -> int,
    from: int,
    upto: int,
)
    requires
        1 <= from <= upto <= units.len(),
        forall|j: int| 0 <= j < units.len() ==> key(units[first_least(units, key, from)]) <= key(#[trigger] units[j]),
    ensures
        first_least(units, key, upto) == first_least(units, key, from),
    decreases upto - from,
{
    if from < upto {
        lemma_first_least_settled(units, key, from, upto - 1);
        lemma_first_least(units, key, from);
    }
}

/// The outcomes that a scan can have.
///
/// The scan holds `current` and is about to look at `units[from]`. It ends
/// with `current` when no unit is left or when `stop` accepts `current`;
/// otherwise `better` decides whether `units[from]` replaces `current`, and
/// the scan goes on. `result` is an outcome when the answers that `stop` and
/// `better` may give lead to it.
pub open spec fn scan_result<F, M>(
    units: Seq<PrimitiveBox>,
    better: F,
    stop: M,
    current: PrimitiveBox,
    from: int,
    result: PrimitiveBox,
) -> bool where F: Fn(&PrimitiveBox, &PrimitiveBox) -> bool, M: Fn(&PrimitiveBox) -> bool
    decreases units.len() - from,
{
    if from >= units.len() {
        result == current
    } else {
        ||| (call_ensures(stop, (&current,), true) && result == current)
        ||| (call_ensures(stop, (&current,), false) && call_ensures(better, (&current, &units[from]), true)
            && scan_result(units, better, stop, units[from], from + 1, result))
        ||| (call_ensures(stop, (&current,), false) && call_ensures(better, (&current, &units[from]), false)
            && scan_result(units, better, stop, current, from + 1, result))
    }
}

/// A scan whose `better` compares by `key`, and whose `stop` accepts only
/// units whose key is as low as any key can be, ends with the first unit of
/// least key.
pub proof fn lemma_scan_first_least<F, M>(
    units: Seq<PrimitiveBox>,
    better: F,
    stop: M,
    key: spec_fn(PrimitiveBox) -> int,
    floor: int,
    from: int,
    result: PrimitiveBox,
) where F: Fn(&PrimitiveBox, &PrimitiveBox) -> bool, M: Fn(&PrimitiveBox) -> bool
    requires
        1 <= from <= units.len(),
        forall|i: int, j: int|
            0 <= i < units.len() && 0 <= j < units.len() && #[trigger] call_ensures(
                better,
                (&units[i], &units[j]),
                true,
            ) ==> key(units[j]) < key(units[i]),
        forall|i: int, j: int|
            0 <= i < units.len() && 0 <= j < units.len() && #[trigger] call_ensures(
                better,
                (&units[i], &units[j]),
                false,
            ) ==> key(units[j]) >= key(units[i]),
        forall|i: int|
            0 <= i < units.len() && #[trigger] call_ensures(stop, (&units[i],), true) ==> key(units[i])
                <= floor,
        forall|i: int| 0 <= i < units.len() ==> key(#[trigger] units[i]) >= floor,
        scan_result(units, better, stop, units[first_least(units, key, from)], from, result),
    ensures
        result == units[first_least(units, key, units.len() as int)],
    decreases units.len() - from,
{
    let current = units[first_least(units, key, from)];
    lemma_first_least(units, key, from);
    if from < units.len() {
        if call_ensures(stop, (&current,), true) && result == current {
            lemma_first_least_settled(units, key, from, units.len() as int);
        } else {
            lemma_scan_first_least(units, better, stop, key, floor, from + 1, result);
        }
    }
}

/// Whether `unit` can move one granule in direction `dir` and stay inside the
/// playfield.
pub open spec fn has_room(unit: PrimitiveBox, dir: Direction) -> bool {
    match dir {
        Direction::Left => unit.x > X_ANCHOR,
        Direction::Right => unit.x + GRANULE_SIZE < MAX_X,
        Direction::Down => unit.y + GRANULE_SIZE < MAX_Y,
    }
}

/// Horizontal displacement of a step in direction `dir`.
pub open spec fn step_x(dir: Direction) -> int {
    match dir {
        Direction::Left => -(GRANULE_SIZE as int),
        Direction::Right => GRANULE_SIZE as int,
        Direction::Down => 0,
    }
}

/// Vertical displacement of a step in direction `dir`.
pub open spec fn step_y(dir: Direction) -> int {
    match dir {
        Direction::Left => 0,
        Direction::Right => 0,
        Direction::Down => GRANULE_SIZE as int,
    }
}

/// Half of `v`, rounded towards zero.
pub open spec fn half_toward_zero(v: int) -> int {
    if v >= 0 {
        v / 2
    } else {
        -((-v) / 2)
    }
}

/// Where the corner of `unit` lands under a quarter turn about `pivot`.
///
/// The offset from the pivot is taken at twice its size, so that positions
/// half a granule off the grid stay whole numbers; it is swapped and negated,
/// `(x, y)` to `(y, -x)` for a clockwise turn and to `(-y, x)` for a
/// counterclockwise one; the doubled pivot is added back, the result is
/// snapped to the nearest grid line and halved.
pub open spec fn rotated_position(unit: PrimitiveBox, pivot: Point, rotation: Rotation) -> (int, int) {
    let cx = 2 * pivot.x;
    let cy = 2 * pivot.y;
    let x = 2 * unit.x - cx;
    let y = 2 * unit.y - cy;
    let (tx, ty) = match rotation {
        Rotation::Clockwise => (y + cx, cy - x),
        Rotation::Counterclockwise => (cx - y, x + cy),
    };
    (half_toward_zero(snapped(tx, 2)), half_toward_zero(snapped(ty, 2)))
}

/// A cell whose corner is at `(x, y)` lies wholly inside the playfield.
pub open spec fn position_in_bounds(x: int, y: int) -> bool {
    &&& X_ANCHOR <= x
    &&& x + GRANULE_SIZE <= MAX_X
    &&& Y_ANCHOR <= y
    &&& y + GRANULE_SIZE <= MAX_Y
}

/// The turned unit stays inside the playfield.
pub open spec fn rotation_fits(unit: PrimitiveBox, pivot: Point, rotation: Rotation) -> bool {
    position_in_bounds(rotated_position(unit, pivot, rotation).0, rotated_position(unit, pivot, rotation).1)
}

/// The unit after a quarter turn about `pivot`.
pub open spec fn rotated_unit(unit: PrimitiveBox, pivot: Point, rotation: Rotation) -> PrimitiveBox {
    PrimitiveBox {
        x: rotated_position(unit, pivot, rotation).0 as i32,
        y: rotated_position(unit, pivot, rotation).1 as i32,
        color: unit.color,
    }
}

/// `blocked` rejects none of the units.
pub open spec fn none_blocked<F: Fn(&PrimitiveBox) -> bool>(units: Seq<PrimitiveBox>, blocked: F) -> bool {
    forall|i: int| 0 <= i < units.len() ==> call_ensures(blocked, (&#[trigger] units[i],), false)
}

/// `blocked` rejects one of the units.
pub open spec fn some_blocked<F: Fn(&PrimitiveBox) -> bool>(units: Seq<PrimitiveBox>, blocked: F) -> bool {
    exists|i: int| 0 <= i < units.len() && call_ensures(blocked, (&#[trigger] units[i],), true)
}

/// The units that lie strictly above the horizontal line at `y`.
pub open spec fn units_above(units: Seq<PrimitiveBox>, y: int) -> Seq<PrimitiveBox> {
    units.filter(|u: PrimitiveBox| u.y < y)
}

/// The units that lie at or below the horizontal line at `y`.
pub open spec fn units_from(units: Seq<PrimitiveBox>, y: int) -> Seq<PrimitiveBox> {
    units.filter(|u: PrimitiveBox| u.y >= y)
}

/// `out` is what can be left of `units` when every unit that `condition`
/// accepts is deleted: the units it turned down, in their order.
pub open spec fn retained<F: Fn(&PrimitiveBox) -> bool>(
    units: Seq<PrimitiveBox>,
    condition: F,
    out: Seq<PrimitiveBox>,
) -> bool
    decreases units.len(),
{
    if units.len() == 0 {
        out.len() == 0
    } else {
        ||| (call_ensures(condition, (&units.last(),), true) && retained(units.drop_last(), condition, out))
        ||| (call_ensures(condition, (&units.last(),), false) && out.len() > 0 && out.last() == units.last()
            && retained(units.drop_last(), condition, out.drop_last()))
    }
}

/// Where `condition` turns down exactly the units that satisfy `spared`,
/// deleting leaves exactly those units.
pub proof fn lemma_retained_is_filter<F: Fn(&PrimitiveBox) -> bool>(
    units: Seq<PrimitiveBox>,
    condition: F,
    spared: spec_fn(PrimitiveBox) -> bool,
    out: Seq<PrimitiveBox>,
)
    requires
        forall|i: int|
            0 <= i < units.len() && call_ensures(condition, (&#[trigger] units[i],), true) ==> !spared(
                units[i],
            ),
        forall|i: int|
            0 <= i < units.len() && call_ensures(condition, (&#[trigger] units[i],), false) ==> spared(
                units[i],
            ),
        retained(units, condition, out),
    ensures
        out == units.filter(spared),
    decreases units.len(),
{
    reveal(Seq::filter);
    if units.len() > 0 {
        let rest = units.drop_last();
        if call_ensures(condition, (&units.last(),), true) && retained(rest, condition, out) {
            lemma_retained_is_filter(rest, condition, spared, out);
        } else {
            lemma_retained_is_filter(rest, condition, spared, out.drop_last());
            assert(out == out.drop_last().push(out.last()));
        }
    } else {
        assert(out == units.filter(spared));
    }
}

impl ShapeView {
    /// The boundary check of a move: the piece has a unit, and each
    /// unit has room to move.
    pub open spec fn can_shift(self, dir: Direction) -> bool {
        &&& self.units.len() > 0
        &&& forall|i: int| 0 <= i < self.units.len() ==> has_room(#[trigger] self.units[i], dir)
    }

    /// The piece with every unit and the pivot moved one granule.
    pub open spec fn shifted(self, dir: Direction) -> ShapeView {
        ShapeView {
            units: self.units.map_values(|u: PrimitiveBox| u.moved(step_x(dir), step_y(dir))),
            pivot: Point { x: (self.pivot.x + step_x(dir)) as i32, y: (self.pivot.y + step_y(dir)) as i32 },
        }
    }

    /// The piece after an attempt to translate it: moved where the boundary
    /// check passes, untouched where it does not.
    pub open spec fn translated(self, dir: Direction) -> ShapeView {
        if self.can_shift(dir) {
            self.shifted(dir)
        } else {
            self
        }
    }

    /// Every unit stays inside the playfield under the quarter turn.
    pub open spec fn rotation_in_bounds(self, rotation: Rotation) -> bool {
        forall|i: int|
            0 <= i < self.units.len() ==> rotation_fits(#[trigger] self.units[i], self.pivot, rotation)
    }

    /// The piece with every unit turned about the pivot.
    pub open spec fn rotated(self, rotation: Rotation) -> ShapeView {
        ShapeView {
            units: self.units.map_values(|u: PrimitiveBox| rotated_unit(u, self.pivot, rotation)),
            pivot: self.pivot,
        }
    }

    /// The piece with the units of `other` appended.
    pub open spec fn merged(self, other: ShapeView) -> ShapeView {
        ShapeView { units: self.units + other.units, pivot: self.pivot }
    }
}

/// The units moved down by `rows` rows.
pub open spec fn lowered(units: Seq<PrimitiveBox>, rows: int) -> Seq<PrimitiveBox> {
    units.map_values(|u: PrimitiveBox| u.moved(0, rows * GRANULE_SIZE))
}

/// The pivot of a well-formed, anchored piece has room to move.
pub proof fn lemma_anchored_pivot(piece: ShapeView)
    requires
        piece.wf(),
        piece.anchored(),
    ensures
        piece.pivot_has_room(),
        X_ANCHOR - (MAX_X - X_ANCHOR) <= piece.pivot.x <= MAX_X + (MAX_X - X_ANCHOR),
        Y_ANCHOR - (MAX_Y - Y_ANCHOR) <= piece.pivot.y <= MAX_Y + (MAX_Y - Y_ANCHOR),
{
    assert(piece.units[0].valid());
}

/// A move keeps a well-formed, anchored piece well formed and
/// anchored.
pub proof fn lemma_translated_anchored(piece: ShapeView, dir: Direction)
    requires
        piece.wf(),
        piece.anchored(),
    ensures
        piece.translated(dir).wf(),
        piece.translated(dir).anchored(),
{
    lemma_anchored_pivot(piece);
    if piece.can_shift(dir) {
        let after = piece.shifted(dir);
        assert forall|i: int| 0 <= i < after.units.len() implies (#[trigger] after.units[i]).valid() && -(MAX_X
            - X_ANCHOR) <= after.units[i].x - after.pivot.x <= MAX_X - X_ANCHOR && -(MAX_Y - Y_ANCHOR)
            <= after.units[i].y - after.pivot.y <= MAX_Y - Y_ANCHOR by {
            assert(piece.units[i].valid());
            assert(has_room(piece.units[i], dir));
        }
    }
}

/// A quarter turn that stays inside the playfield keeps a well-formed,
/// anchored piece well formed and anchored.
pub proof fn lemma_rotated_anchored(piece: ShapeView, rotation: Rotation)
    requires
        piece.wf(),
        piece.anchored(),
        piece.rotation_in_bounds(rotation),
    ensures
        piece.rotated(rotation).wf(),
        piece.rotated(rotation).anchored(),
{
    let after = piece.rotated(rotation);
    assert forall|i: int| 0 <= i < after.units.len() implies (#[trigger] after.units[i]).valid() && -(MAX_X
        - X_ANCHOR) <= after.units[i].x - after.pivot.x <= MAX_X - X_ANCHOR && -(MAX_Y - Y_ANCHOR)
        <= after.units[i].y - after.pivot.y <= MAX_Y - Y_ANCHOR by {
        assert(piece.units[i].valid());
        assert(rotation_fits(piece.units[i], piece.pivot, rotation));
        lemma_rotation_on_grid(piece.units[i], piece.pivot, rotation);
    }
}

/// A selection of valid units is made of valid units.
pub proof fn lemma_filter_keeps_valid(units: Seq<PrimitiveBox>, pred: spec_fn(PrimitiveBox) -> bool)
    requires
        all_valid(units),
    ensures
        all_valid(units.filter(pred)),
{
    let chosen = units.filter(pred);
    assert forall|i: int| 0 <= i < chosen.len() implies (#[trigger] chosen[i]).valid() by {
        assert(chosen.contains(chosen[i]));
        units.lemma_filter_contains_rev(pred, chosen[i]);
        let j = choose|j: int| 0 <= j < units.len() && units[j] == chosen[i];
        assert(units[j].valid());
    }
}

/// The smallest rectangle that holds all the units; the empty rectangle at
/// the origin where there is none.
pub open spec fn bounds(units: Seq<PrimitiveBox>) -> Rectangle {
    if units.len() == 0 {
        Rectangle { top_left: Point { x: 0, y: 0 }, size: Size { width: 0, height: 0 } }
    } else {
        let n = units.len() as int;
        let left = units[first_least(units, key_left(), n)].x;
        let right = units[first_least(units, key_right(), n)].x;
        let top = units[first_least(units, key_top(), n)].y;
        let bottom = units[first_least(units, key_bottom(), n)].y;
        Rectangle {
            top_left: Point { x: left, y: top },
            size: Size {
                width: (right + GRANULE_SIZE - left) as u32,
                height: (bottom + GRANULE_SIZE - top) as u32,
            },
        }
    }
}

/// The pivot that a piece gets when it is made: the centre of its bounding
/// box, moved back to the grid line before it.
pub open spec fn pivot_for(units: Seq<PrimitiveBox>) -> Point {
    Point {
        x: snapped(bounds(units).center_point().x as int, 1) as i32,
        y: snapped(bounds(units).center_point().y as int, 1) as i32,
    }
}

/// A doubled coordinate that is a whole number of double granules is left
/// alone by the snap, and its half is on the grid.
pub proof fn lemma_snap_doubled(k: int)
    ensures
        snapped(20 * k, 2) == 20 * k,
        half_toward_zero(20 * k) == 10 * k,
{
    let v = 20 * k;
    if v >= 0 {
        assert(v % 10 == 0);
        assert(v / 2 == 10 * k);
    } else {
        assert((-v) % 10 == 0);
        assert((-v) / 2 == -10 * k);
    }
}

/// About a pivot on the grid a quarter turn of a unit on the grid is exact:
/// the offset `(x, y)` from the pivot becomes `(y, -x)` or `(-y, x)`, no
/// snapping takes place, and the unit is on the grid again.
pub proof fn lemma_rotation_on_grid(unit: PrimitiveBox, pivot: Point, rotation: Rotation)
    requires
        unit.on_grid(),
        pivot.x as int % (GRANULE_SIZE as int) == 0,
        pivot.y as int % (GRANULE_SIZE as int) == 0,
    ensures
        rotation == Rotation::Clockwise ==> rotated_position(unit, pivot, rotation) == (
            pivot.x + (unit.y - pivot.y),
            pivot.y - (unit.x - pivot.x),
        ),
        rotation == Rotation::Counterclockwise ==> rotated_position(unit, pivot, rotation) == (
            pivot.x - (unit.y - pivot.y),
            pivot.y + (unit.x - pivot.x),
        ),
        rotation_fits(unit, pivot, rotation) ==> rotated_unit(unit, pivot, rotation).valid(),
{
    let ux = (unit.x - X_ANCHOR) / 10 + 30;
    let uy = (unit.y - Y_ANCHOR) / 10 + 10;
    let px = pivot.x as int / 10;
    let py = pivot.y as int / 10;
    assert(unit.x == 10 * ux);
    assert(unit.y == 10 * uy);
    assert(pivot.x == 10 * px);
    assert(pivot.y == 10 * py);
    match rotation {
        Rotation::Clockwise => {
            lemma_snap_doubled(px + (uy - py));
            lemma_snap_doubled(py - (ux - px));
            assert(2 * unit.y - 2 * pivot.y + 2 * pivot.x == 20 * (px + (uy - py)));
            assert(2 * pivot.y - (2 * unit.x - 2 * pivot.x) == 20 * (py - (ux - px)));
        },
        Rotation::Counterclockwise => {
            lemma_snap_doubled(px - (uy - py));
            lemma_snap_doubled(py + (ux - px));
            assert(2 * pivot.x - (2 * unit.y - 2 * pivot.y) == 20 * (px - (uy - py)));
            assert(2 * unit.x - 2 * pivot.x + 2 * pivot.y == 20 * (py + (ux - px)));
        },
    }
}

impl Shape {
    /// Scans the units in order for the one that is extremal under `better`.
    ///
    /// The scan starts with the first unit. For each later unit it first asks
    /// `stop` about the unit it holds, and ends there if `stop` accepts it;
    /// otherwise the later unit takes its place where `better(held, later)`
    /// says so. An empty piece has no extremal unit.
    pub fn extreme<F, M>(&self, better: F, stop: M) -> (found: Option<&PrimitiveBox>) where
        F: Fn(&PrimitiveBox, &PrimitiveBox) -> bool,
        M: Fn(&PrimitiveBox) -> bool,

        requires
            forall|i: int, j: int|
                0 <= i < self@.units.len() && 0 <= j < self@.units.len() ==> call_requires(
                    better,
                    (&#[trigger] self@.units[i], &#[trigger] self@.units[j]),
                ),
            forall|i: int| 0 <= i < self@.units.len() ==> call_requires(stop, (&#[trigger] self@.units[i],)),
        ensures
            match found {
                None => self@.units.len() == 0,
                Some(u) => {
                    &&& self@.units.len() > 0
                    &&& self@.units.contains(*u)
                    &&& scan_result(self@.units, better, stop, self@.units[0], 1, *u)
                },
            },
    {
        if self.elements.len() == 0 {
            return None;
        }
        let ghost units = self@.units;
        let mut at: usize = 0;
        let mut i: usize = 1;
        while i < self.elements.len()
            invariant
                units == self@.units,
                1 <= i <= units.len(),
                at < i,
                forall|i: int, j: int|
                    0 <= i < units.len() && 0 <= j < units.len() ==> call_requires(
                        better,
                        (&#[trigger] units[i], &#[trigger] units[j]),
                    ),
                forall|i: int| 0 <= i < units.len() ==> call_requires(stop, (&#[trigger] units[i],)),
                forall|r: PrimitiveBox| #[trigger]
                    scan_result(units, better, stop, units[at as int], i as int, r) ==> scan_result(
                        units,
                        better,
                        stop,
                        units[0],
                        1,
                        r,
                    ),
            decreases units.len() - i,
        {
            let current: &PrimitiveBox = &self.elements[at];
            if stop(current) {
                assert(scan_result(units, better, stop, units[at as int], i as int, *current));
                return Some(current);
            }
            let ghost held = at;
            if better(current, &self.elements[i]) {
                at = i;
            }
            assert forall|r: PrimitiveBox| #[trigger]
                scan_result(units, better, stop, units[at as int], i + 1, r) implies scan_result(
                units,
                better,
                stop,
                units[0],
                1,
                r,
            ) by {
                assert(scan_result(units, better, stop, units[held as int], i as int, r));
            }
            i += 1;
        }
        let current: &PrimitiveBox = &self.elements[at];
        assert(scan_result(units, better, stop, units[at as int], i as int, *current));
        Some(current)
    }

    /// The first of the units farthest to the left.
    pub fn leftmost(&self) -> (found: Option<&PrimitiveBox>)
        requires
            self@.wf(),
        ensures
            match found {
                None => self@.units.len() == 0,
                Some(u) => self@.units.len() > 0 && *u == self@.units[first_least(
                    self@.units,
                    key_left(),
                    self@.units.len() as int,
                )],
            },
    {
        let better = |left: &PrimitiveBox, right: &PrimitiveBox| -> (b: bool)
            ensures
                b == (right.x < left.x),
            { right.x < left.x };
        let stop = |element: &PrimitiveBox| -> (b: bool)
            ensures
                b == (element.x == X_ANCHOR),
            { element.x == X_ANCHOR };
        let found = self.extreme(better, stop);
        proof {
            if let Some(u) = found {
                lemma_scan_first_least(self@.units, better, stop, key_left(), X_ANCHOR as int, 1, *u);
            }
        }
        found
    }

    /// The first of the units farthest to the right.
    pub fn rightmost(&self) -> (found: Option<&PrimitiveBox>)
        requires
            self@.wf(),
        ensures
            match found {
                None => self@.units.len() == 0,
                Some(u) => self@.units.len() > 0 && *u == self@.units[first_least(
                    self@.units,
                    key_right(),
                    self@.units.len() as int,
                )],
            },
    {
        let better = |left: &PrimitiveBox, right: &PrimitiveBox| -> (b: bool)
            ensures
                b == (right.x > left.x),
            { right.x > left.x };
        let stop = |element: &PrimitiveBox| -> (b: bool)
            ensures
                b == (element.x == MAX_X - GRANULE_SIZE),
            { element.x == MAX_X - GRANULE_SIZE };
        let found = self.extreme(better, stop);
        proof {
            if let Some(u) = found {
                lemma_scan_first_least(
                    self@.units,
                    better,
                    stop,
                    key_right(),
                    -(MAX_X - GRANULE_SIZE) as int,
                    1,
                    *u,
                );
            }
        }
        found
    }

    /// The first of the units nearest to the floor.
    pub fn lowest(&self) -> (found: Option<&PrimitiveBox>)
        requires
            self@.wf(),
        ensures
            match found {
                None => self@.units.len() == 0,
                Some(u) => self@.units.len() > 0 && *u == self@.units[first_least(
                    self@.units,
                    key_bottom(),
                    self@.units.len() as int,
                )],
            },
    {
        let better = |left: &PrimitiveBox, right: &PrimitiveBox| -> (b: bool)
            ensures
                b == (right.y > left.y),
            { right.y > left.y };
        let stop = |element: &PrimitiveBox| -> (b: bool)
            ensures
                b == (element.y == MAX_Y - GRANULE_SIZE),
            { element.y == MAX_Y - GRANULE_SIZE };
        let found = self.extreme(better, stop);
        proof {
            if let Some(u) = found {
                lemma_scan_first_least(
                    self@.units,
                    better,
                    stop,
                    key_bottom(),
                    -(MAX_Y - GRANULE_SIZE) as int,
                    1,
                    *u,
                );
            }
        }
        found
    }

    /// The first of the units nearest to the top.
    pub fn highest(&self) -> (found: Option<&PrimitiveBox>)
        requires
            self@.wf(),
        ensures
            match found {
                None => self@.units.len() == 0,
                Some(u) => self@.units.len() > 0 && *u == self@.units[first_least(
                    self@.units,
                    key_top(),
                    self@.units.len() as int,
                )],
            },
    {
        let better = |lhs: &PrimitiveBox, rhs: &PrimitiveBox| -> (b: bool)
            ensures
                b == (rhs.y < lhs.y),
            { rhs.y < lhs.y };
        let stop = |element: &PrimitiveBox| -> (b: bool)
            ensures
                b == (element.y == Y_ANCHOR),
            { element.y == Y_ANCHOR };
        let found = self.extreme(better, stop);
        proof {
            if let Some(u) = found {
                lemma_scan_first_least(self@.units, better, stop, key_top(), Y_ANCHOR as int, 1, *u);
            }
        }
        found
    }
}

impl Default for Shape {
    /// The piece without units, its pivot at the origin.
    fn default() -> (shape: Shape)
        ensures
            shape@.units.len() == 0,
            shape@.pivot == (Point { x: 0, y: 0 }),
            shape@.wf(),
    {
        Shape { elements: Vec::new(), pivot: Point { x: 0, y: 0 } }
    }
}

impl Shape {
    /// A copy of the piece, to try a move on.
    pub fn duplicate(&self) -> (copy: Shape)
        ensures
            copy@ == self@,
    {
        let copy = Shape { elements: self.elements.clone(), pivot: self.pivot };
        assert(copy@.units =~= self@.units);
        copy
    }

    /// Moves every unit and the pivot one granule in direction `dir`, unless
    /// that would push a unit past the edge of the playfield: then nothing
    /// changes and the move is rejected.
    pub fn translate(&mut self, dir: Direction) -> (moved: Option<()>)
        requires
            old(self)@.wf(),
            old(self)@.pivot_has_room(),
        ensures
            moved is Some <==> old(self)@.can_shift(dir),
            final(self)@ == old(self)@.translated(dir),
            final(self)@.wf(),
    {
        let ghost before = self@;
        let n: usize = self.elements.len();
        proof {
            if n > 0 {
                lemma_first_least(before.units, key_left(), n as int);
                lemma_first_least(before.units, key_right(), n as int);
                lemma_first_least(before.units, key_bottom(), n as int);
            }
        }
        let room: bool = match dir {
            Direction::Left => match self.leftmost() {
                Some(unit) => unit.x > X_ANCHOR,
                None => false,
            },
            Direction::Right => match self.rightmost() {
                Some(unit) => unit.x < MAX_X - GRANULE_SIZE,
                None => false,
            },
            Direction::Down => match self.lowest() {
                Some(unit) => unit.y < MAX_Y - GRANULE_SIZE,
                None => false,
            },
        };
        assert(room == before.can_shift(dir));
        if !room {
            return None;
        }
        match dir {
            Direction::Left => {
                self.pivot.x -= GRANULE_SIZE;
            },
            Direction::Right => {
                self.pivot.x += GRANULE_SIZE;
            },
            Direction::Down => {
                self.pivot.y += GRANULE_SIZE;
            },
        }
        let mut i: usize = 0;
        while i < n
            invariant
                i <= n,
                n == before.units.len(),
                self.elements@.len() == n,
                before.wf(),
                before.can_shift(dir),
                self.pivot == before.shifted(dir).pivot,
                forall|j: int| 0 <= j < i ==> self.elements@[j] == before.shifted(dir).units[j],
                forall|j: int| i <= j < n ==> self.elements@[j] == before.units[j],
            decreases n - i,
        {
            let mut unit: PrimitiveBox = self.elements[i];
            assert(unit == before.units[i as int]);
            assert(before.units[i as int].valid());
            assert(has_room(before.units[i as int], dir));
            match dir {
                Direction::Left => {
                    unit.left();
                },
                Direction::Right => {
                    unit.right();
                },
                Direction::Down => {
                    unit.down();
                },
            }
            self.elements.set(i, unit);
            i += 1;
        }
        proof {
            assert(self@.units =~= before.shifted(dir).units);
            assert forall|j: int| 0 <= j < self@.units.len() implies (#[trigger] self@.units[j]).valid() by {
                assert(before.units[j].valid());
                assert(has_room(before.units[j], dir));
            }
        }
        Some(())
    }

    /// Moves the piece one granule to the left where the playfield allows it.
    pub fn left(&mut self) -> (moved: Option<()>)
        requires
            old(self)@.wf(),
            old(self)@.pivot_has_room(),
        ensures
            moved is Some <==> old(self)@.can_shift(Direction::Left),
            final(self)@ == old(self)@.translated(Direction::Left),
            final(self)@.wf(),
    {
        self.translate(Direction::Left)
    }

    /// Moves the piece one granule to the right where the playfield allows
    /// it.
    pub fn right(&mut self) -> (moved: Option<()>)
        requires
            old(self)@.wf(),
            old(self)@.pivot_has_room(),
        ensures
            moved is Some <==> old(self)@.can_shift(Direction::Right),
            final(self)@ == old(self)@.translated(Direction::Right),
            final(self)@.wf(),
    {
        self.translate(Direction::Right)
    }

    /// Moves the piece one granule down where the playfield allows it.
    pub fn down(&mut self) -> (moved: Option<()>)
        requires
            old(self)@.wf(),
            old(self)@.pivot_has_room(),
        ensures
            moved is Some <==> old(self)@.can_shift(Direction::Down),
            final(self)@ == old(self)@.translated(Direction::Down),
            final(self)@.wf(),
    {
        self.translate(Direction::Down)
    }

    /// Tries the move on a copy and commits the copy only if the
    /// boundary check passes and `blocked` rejects none of the moved units.
    /// A rejected move leaves the piece as it was.
    pub fn translate_checked<F>(&mut self, dir: Direction, blocked: F) -> (moved: Option<()>) where
        F: Fn(&PrimitiveBox) -> bool,

        requires
            old(self)@.wf(),
            old(self)@.pivot_has_room(),
            forall|unit: PrimitiveBox| unit.valid() ==> call_requires(blocked, (&unit,)),
        ensures
            final(self)@.wf(),
            match moved {
                Some(_) => {
                    &&& old(self)@.can_shift(dir)
                    &&& none_blocked(old(self)@.shifted(dir).units, blocked)
                    &&& final(self)@ == old(self)@.shifted(dir)
                },
                None => {
                    &&& final(self)@ == old(self)@
                    &&& (!old(self)@.can_shift(dir) || some_blocked(old(self)@.shifted(dir).units, blocked))
                },
            },
    {
        let ghost before = self@;
        let mut copy = self.duplicate();
        if copy.translate(dir).is_none() {
            return None;
        }
        let n: usize = copy.elements.len();
        let mut i: usize = 0;
        while i < n
            invariant
                i <= n,
                n == copy@.units.len(),
                self@ == before,
                before.wf(),
                before.can_shift(dir),
                copy@ == before.shifted(dir),
                copy@.wf(),
                forall|unit: PrimitiveBox| unit.valid() ==> call_requires(blocked, (&unit,)),
                forall|j: int| 0 <= j < i ==> call_ensures(blocked, (&#[trigger] copy@.units[j],), false),
            decreases n - i,
        {
            assert(copy@.units[i as int].valid());
            if blocked(&copy.elements[i]) {
                return None;
            }
            i += 1;
        }
        *self = copy;
        Some(())
    }

    /// A checked move to the left.
    pub fn left_checked<F>(&mut self, blocked: F) -> (moved: Option<()>) where F: Fn(&PrimitiveBox) -> bool
        requires
            old(self)@.wf(),
            old(self)@.pivot_has_room(),
            forall|unit: PrimitiveBox| unit.valid() ==> call_requires(blocked, (&unit,)),
        ensures
            final(self)@.wf(),
            match moved {
                Some(_) => {
                    &&& old(self)@.can_shift(Direction::Left)
                    &&& none_blocked(old(self)@.shifted(Direction::Left).units, blocked)
                    &&& final(self)@ == old(self)@.shifted(Direction::Left)
                },
                None => {
                    &&& final(self)@ == old(self)@
                    &&& (!old(self)@.can_shift(Direction::Left) || some_blocked(
                        old(self)@.shifted(Direction::Left).units,
                        blocked,
                    ))
                },
            },
    {
        self.translate_checked(Direction::Left, blocked)
    }

    /// A checked move to the right.
    pub fn right_checked<F>(&mut self, blocked: F) -> (moved: Option<()>) where F: Fn(&PrimitiveBox) -> bool
        requires
            old(self)@.wf(),
            old(self)@.pivot_has_room(),
            forall|unit: PrimitiveBox| unit.valid() ==> call_requires(blocked, (&unit,)),
        ensures
            final(self)@.wf(),
            match moved {
                Some(_) => {
                    &&& old(self)@.can_shift(Direction::Right)
                    &&& none_blocked(old(self)@.shifted(Direction::Right).units, blocked)
                    &&& final(self)@ == old(self)@.shifted(Direction::Right)
                },
                None => {
                    &&& final(self)@ == old(self)@
                    &&& (!old(self)@.can_shift(Direction::Right) || some_blocked(
                        old(self)@.shifted(Direction::Right).units,
                        blocked,
                    ))
                },
            },
    {
        self.translate_checked(Direction::Right, blocked)
    }

    /// Turns the piece a quarter about its pivot, all or nothing.
    ///
    /// The turned units are built up on the side. As soon as one of them
    /// would lie outside the playfield, or `blocked` rejects it, the turn is
    /// given up and the piece is left exactly as it was. There is no nudging
    /// of a turn that does not fit.
    pub fn rotate<F>(&mut self, blocked: F, rotation: Rotation) -> (turned: Option<()>) where
        F: Fn(&PrimitiveBox) -> bool,

        requires
            old(self)@.wf(),
            forall|unit: PrimitiveBox| unit.valid() ==> call_requires(blocked, (&unit,)),
        ensures
            final(self)@.wf(),
            match turned {
                Some(_) => {
                    &&& old(self)@.rotation_in_bounds(rotation)
                    &&& none_blocked(old(self)@.rotated(rotation).units, blocked)
                    &&& final(self)@ == old(self)@.rotated(rotation)
                },
                None => {
                    &&& final(self)@ == old(self)@
                    &&& (!old(self)@.rotation_in_bounds(rotation) || some_blocked(
                        old(self)@.rotated(rotation).units,
                        blocked,
                    ))
                },
            },
    {
        let ghost before = self@;
        let multiplicator: i64 = 2;
        let center_x: i64 = self.pivot.x as i64 * multiplicator;
        let center_y: i64 = self.pivot.y as i64 * multiplicator;
        let n: usize = self.elements.len();
        let mut turned_units: Vec<PrimitiveBox> = Vec::new();
        let mut i: usize = 0;
        while i < n
            invariant
                i <= n,
                n == before.units.len(),
                self@ == before,
                before.wf(),
                center_x == 2 * before.pivot.x,
                center_y == 2 * before.pivot.y,
                multiplicator == 2,
                turned_units@.len() == i,
                forall|unit: PrimitiveBox| unit.valid() ==> call_requires(blocked, (&unit,)),
                forall|j: int| 0 <= j < i ==> rotation_fits(#[trigger] before.units[j], before.pivot, rotation),
                forall|j: int|
                    0 <= j < i ==> #[trigger] turned_units@[j] == rotated_unit(
                        before.units[j],
                        before.pivot,
                        rotation,
                    ),
                forall|j: int| 0 <= j < i ==> (#[trigger] turned_units@[j]).valid(),
                forall|j: int| 0 <= j < i ==> call_ensures(blocked, (&#[trigger] turned_units@[j],), false),
            decreases n - i,
        {
            let element: PrimitiveBox = self.elements[i];
            assert(element == before.units[i as int]);
            assert(before.units[i as int].valid());
            let x: i64 = element.x as i64 * multiplicator - center_x;
            let y: i64 = element.y as i64 * multiplicator - center_y;
            let (target_x, target_y): (i64, i64) = match rotation {
                Rotation::Clockwise => (y + center_x, center_y - x),
                Rotation::Counterclockwise => (center_x - y, x + center_y),
            };
            let new_x: i64 = snap_coordinate(target_x, multiplicator) / multiplicator;
            let new_y: i64 = snap_coordinate(target_y, multiplicator) / multiplicator;
            assert(new_x == rotated_position(element, before.pivot, rotation).0);
            assert(new_y == rotated_position(element, before.pivot, rotation).1);
            let fits: bool = new_x >= X_ANCHOR as i64 && new_x <= (MAX_X - GRANULE_SIZE) as i64 && new_y
                >= Y_ANCHOR as i64 && new_y <= (MAX_Y - GRANULE_SIZE) as i64;
            assert(fits == rotation_fits(element, before.pivot, rotation));
            if !fits {
                return None;
            }
            let turned_unit = PrimitiveBox { x: new_x as i32, y: new_y as i32, color: element.color };
            proof {
                lemma_rotation_on_grid(element, before.pivot, rotation);
                assert(turned_unit == rotated_unit(element, before.pivot, rotation));
            }
            if blocked(&turned_unit) {
                proof {
                    let all = before.rotated(rotation).units;
                    assert(all[i as int] == turned_unit);
                    assert(call_ensures(blocked, (&all[i as int],), true));
                }
                return None;
            }
            turned_units.push(turned_unit);
            i += 1;
        }
        self.elements = turned_units;
        proof {
            assert(self@.units =~= before.rotated(rotation).units);
        }
        Some(())
    }

    /// A quarter turn that takes the offset `(x, y)` from the pivot to
    /// `(y, -x)`.
    pub fn rotate_clockwise<F>(&mut self, blocked: F) -> (turned: Option<()>) where
        F: Fn(&PrimitiveBox) -> bool,

        requires
            old(self)@.wf(),
            forall|unit: PrimitiveBox| unit.valid() ==> call_requires(blocked, (&unit,)),
        ensures
            final(self)@.wf(),
            match turned {
                Some(_) => {
                    &&& old(self)@.rotation_in_bounds(Rotation::Clockwise)
                    &&& none_blocked(old(self)@.rotated(Rotation::Clockwise).units, blocked)
                    &&& final(self)@ == old(self)@.rotated(Rotation::Clockwise)
                },
                None => {
                    &&& final(self)@ == old(self)@
                    &&& (!old(self)@.rotation_in_bounds(Rotation::Clockwise) || some_blocked(
                        old(self)@.rotated(Rotation::Clockwise).units,
                        blocked,
                    ))
                },
            },
    {
        self.rotate(blocked, Rotation::Clockwise)
    }

    /// A quarter turn that takes the offset `(x, y)` from the pivot to
    /// `(-y, x)`.
    pub fn rotate_counterclockwise<F>(&mut self, blocked: F) -> (turned: Option<()>) where
        F: Fn(&PrimitiveBox) -> bool,

        requires
            old(self)@.wf(),
            forall|unit: PrimitiveBox| unit.valid() ==> call_requires(blocked, (&unit,)),
        ensures
            final(self)@.wf(),
            match turned {
                Some(_) => {
                    &&& old(self)@.rotation_in_bounds(Rotation::Counterclockwise)
                    &&& none_blocked(old(self)@.rotated(Rotation::Counterclockwise).units, blocked)
                    &&& final(self)@ == old(self)@.rotated(Rotation::Counterclockwise)
                },
                None => {
                    &&& final(self)@ == old(self)@
                    &&& (!old(self)@.rotation_in_bounds(Rotation::Counterclockwise) || some_blocked(
                        old(self)@.rotated(Rotation::Counterclockwise).units,
                        blocked,
                    ))
                },
            },
    {
        self.rotate(blocked, Rotation::Counterclockwise)
    }
}

impl Shape {
    /// Absorbs the units of `other`, after the units already here. The pivot
    /// stays.
    pub fn merge(&mut self, other: Shape)
        ensures
            final(self)@ == old(self)@.merged(other@),
            old(self)@.wf() && all_valid(other@.units) ==> final(self)@.wf(),
    {
        let mut other = other;
        self.elements.append(&mut other.elements);
    }

    /// Cuts the piece along the horizontal line at `y`.
    ///
    /// The units at or below the line stay; those strictly above it are
    /// taken out and returned as a piece of their own, its pivot at the
    /// origin. Where no unit is above the line nothing is returned.
    pub fn split_at_y(&mut self, y: i32) -> (above: Option<Shape>)
        ensures
            final(self)@.units == units_from(old(self)@.units, y as int),
            final(self)@.pivot == old(self)@.pivot,
            old(self)@.wf() ==> final(self)@.wf(),
            match above {
                Some(shape) => {
                    &&& shape@.units == units_above(old(self)@.units, y as int)
                    &&& shape@.units.len() > 0
                    &&& shape@.pivot == (Point { x: 0, y: 0 })
                    &&& old(self)@.wf() ==> shape@.wf()
                },
                None => units_above(old(self)@.units, y as int).len() == 0,
            },
    {
        let ghost before = self@.units;
        let ghost is_above = |u: PrimitiveBox| u.y < y as int;
        let ghost is_from = |u: PrimitiveBox| u.y >= y as int;
        let n: usize = self.elements.len();
        let mut taken: Vec<PrimitiveBox> = Vec::new();
        let mut kept: Vec<PrimitiveBox> = Vec::new();
        let mut i: usize = 0;
        proof {
            reveal(Seq::filter);
            assert(before.take(0).filter(is_above) =~= Seq::<PrimitiveBox>::empty());
            assert(before.take(0).filter(is_from) =~= Seq::<PrimitiveBox>::empty());
        }
        while i < n
            invariant
                i <= n,
                n == before.len(),
                self@.units == before,
                is_above == (|u: PrimitiveBox| u.y < y as int),
                is_from == (|u: PrimitiveBox| u.y >= y as int),
                taken@ == before.take(i as int).filter(is_above),
                kept@ == before.take(i as int).filter(is_from),
            decreases n - i,
        {
            let unit: PrimitiveBox = self.elements[i];
            proof {
                before.lemma_take_succ_push(i as int);
                before.take(i as int).lemma_filter_push(unit, is_above);
                before.take(i as int).lemma_filter_push(unit, is_from);
            }
            if unit.y < y {
                taken.push(unit);
            } else {
                kept.push(unit);
            }
            i += 1;
        }
        proof {
            assert(before.take(n as int) =~= before);
            if all_valid(before) {
                lemma_filter_keeps_valid(before, is_above);
                lemma_filter_keeps_valid(before, is_from);
            }
        }
        self.elements = kept;
        if taken.len() == 0 {
            return None;
        }
        Some(Shape { elements: taken, pivot: Point::zero() })
    }

    /// Deletes every unit that `condition` accepts; the others keep their
    /// order.
    pub fn remove<F>(&mut self, condition: F) where F: Fn(&PrimitiveBox) -> bool
        requires
            forall|i: int|
                0 <= i < old(self)@.units.len() ==> call_requires(condition, (&#[trigger] old(self)@.units[i],)),
        ensures
            retained(old(self)@.units, condition, final(self)@.units),
            final(self)@.pivot == old(self)@.pivot,
    {
        let ghost before = self@.units;
        let n: usize = self.elements.len();
        let mut kept: Vec<PrimitiveBox> = Vec::new();
        let mut i: usize = 0;
        assert(before.take(0) =~= Seq::<PrimitiveBox>::empty());
        while i < n
            invariant
                i <= n,
                n == before.len(),
                self@.units == before,
                forall|j: int| 0 <= j < before.len() ==> call_requires(condition, (&#[trigger] before[j],)),
                retained(before.take(i as int), condition, kept@),
            decreases n - i,
        {
            let unit: PrimitiveBox = self.elements[i];
            let ghost kept_before = kept@;
            let doomed: bool = condition(&self.elements[i]);
            if !doomed {
                kept.push(unit);
            }
            proof {
                let next = before.take(i + 1);
                assert(next.last() == unit);
                assert(next.drop_last() =~= before.take(i as int));
                if !doomed {
                    assert(kept@.drop_last() =~= kept_before);
                }
            }
            i += 1;
        }
        assert(before.take(n as int) =~= before);
        self.elements = kept;
    }

    /// The smallest rectangle that holds every unit of the piece.
    pub fn bounding_box(&self) -> (r: Rectangle)
        requires
            self@.wf(),
        ensures
            r == bounds(self@.units),
            self@.units.len() > 0 ==> {
                &&& X_ANCHOR <= r.top_left.x
                &&& r.top_left.x + r.size.width <= MAX_X
                &&& Y_ANCHOR <= r.top_left.y
                &&& r.top_left.y + r.size.height <= MAX_Y
                &&& r.size.width >= GRANULE_SIZE
                &&& r.size.height >= GRANULE_SIZE
                &&& (r.top_left.x - X_ANCHOR) % (GRANULE_SIZE as int) == 0
                &&& (r.top_left.y - Y_ANCHOR) % (GRANULE_SIZE as int) == 0
            },
    {
        let n: usize = self.elements.len();
        proof {
            if n > 0 {
                lemma_first_least(self@.units, key_left(), n as int);
                lemma_first_least(self@.units, key_right(), n as int);
                lemma_first_least(self@.units, key_top(), n as int);
                lemma_first_least(self@.units, key_bottom(), n as int);
            }
        }
        match (self.lowest(), self.rightmost(), self.leftmost(), self.highest()) {
            (Some(lowest), Some(rightmost), Some(leftmost), Some(highest)) => {
                Rectangle {
                    top_left: Point { x: leftmost.x, y: highest.y },
                    size: Size {
                        width: (rightmost.x + GRANULE_SIZE - leftmost.x) as u32,
                        height: (lowest.y + GRANULE_SIZE - highest.y) as u32,
                    },
                }
            },
            _ => Rectangle::zero(),
        }
    }

    /// The top-left corner of the bounding box.
    pub fn top_left(&self) -> (p: Point)
        requires
            self@.wf(),
        ensures
            p == bounds(self@.units).top_left,
    {
        self.bounding_box().top_left
    }

    /// Puts the pivot at the centre of the bounding box, moved back to the
    /// grid line before it.
    pub fn recompute_pivot(&mut self)
        requires
            all_valid(old(self)@.units),
        ensures
            final(self)@.units == old(self)@.units,
            final(self)@.pivot == pivot_for(old(self)@.units),
            final(self)@.wf(),
            final(self)@.units.len() > 0 ==> {
                &&& X_ANCHOR <= final(self)@.pivot.x < MAX_X
                &&& Y_ANCHOR <= final(self)@.pivot.y < MAX_Y
                &&& final(self)@.anchored()
            },
    {
        self.pivot = Point::zero();
        let mut pivot = self.bounding_box().center();
        snap_to_grid(&mut pivot, 1);
        self.pivot = pivot;
    }

    /// Makes a piece of the given units.
    pub fn new(elements: Vec<PrimitiveBox>) -> (shape: Shape)
        requires
            all_valid(elements@),
        ensures
            shape@.units == elements@,
            shape@.pivot == pivot_for(elements@),
            shape@.wf(),
            shape@.units.len() > 0 ==> {
                &&& X_ANCHOR <= shape@.pivot.x < MAX_X
                &&& Y_ANCHOR <= shape@.pivot.y < MAX_Y
                &&& shape@.anchored()
            },
    {
        let mut s = Shape { elements, pivot: Point::zero() };
        s.recompute_pivot();
        s
    }
}

} // verus!
