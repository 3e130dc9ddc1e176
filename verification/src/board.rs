//! The board: score, per-row fill counters, per-column stack heights, the
//! settled material and the falling piece, and the rules by which one input
//! sample changes them.

use crate::catalog::{lemma_spawned, Archetype, ShapeBuilder, ARCHETYPES};
use crate::grid::{
    col_x, row_y, Point, PrimitiveBox, COLS, GRANULE_SIZE, LINES, MAX_X, MAX_Y, X_ANCHOR, Y_ANCHOR,
};
use crate::interface::KeyCode;
use crate::random::{draw_below, seeded_source};
use crate::shape::{
    all_valid, first_least, has_room, lemma_anchored_pivot, lemma_filter_keeps_valid,
    lemma_first_least, lemma_retained_is_filter, lemma_rotated_anchored, lemma_scan_first_least,
    lemma_translated_anchored, lowered, units_above, units_from, Direction, Rotation, Shape, ShapeView,
};
use rand::rngs::SmallRng;
use vstd::prelude::*;

verus! {

/// The seed of the pseudorandom source of a new game.
pub const SEED: u64 = 42;

/// The last row of the guard zone at the top of the playfield: a unit that
/// settles in this row or above it ends the game.
pub const GUARD_ROW: usize = 1;

/// How the next piece is chosen.
#[derive(Clone, Copy, Debug, PartialEq, Eq, Structural)]
pub enum Selection {
    /// Always the same archetype.
    Always(Archetype),
    /// Each of the five archetypes with the same chance.
    Random,
}

/// What one input sample did to the board.
#[derive(Clone, Copy, Debug, PartialEq, Eq, Structural)]
pub enum TickOutcome {
    /// The piece is still falling.
    Falling,
    /// The piece has settled, `cleared` rows were full and have been
    /// cleared, and the next piece has spawned.
    Landed { cleared: usize },
    /// A unit settled in the guard zone: the game was lost with `score`
    /// points and the board has started afresh.
    ToppedOut { score: u32 },
}

/// The mathematical content of the board.
pub struct BoardView {
    pub score: u32,
    pub line_counts: Seq<u8>,
    pub heights: Seq<i32>,
    pub settled: ShapeView,
    pub falling: ShapeView,
    pub selection: Selection,
}

/// The authoritative state of a game.
#[derive(Debug, PartialEq, Eq)]
pub struct GameState {
    score: u32,
    line_counts: [u8; LINES],
    heights: [i32; COLS],
    settled_piece: Shape,
    falling_piece: Shape,
    selection: Selection,
    source: SmallRng,
}

impl View for GameState {
    type V = BoardView;

    closed spec fn view(&self) -> BoardView {
        BoardView {
            score: self.score,
            line_counts: self.line_counts@,
            heights: self.heights@,
            settled: self.settled_piece@,
            falling: self.falling_piece@,
            selection: self.selection,
        }
    }
}

// ---------------------------------------------------------------------------
// Collision against the stack
// ---------------------------------------------------------------------------

/// The y coordinate of the top of the stack in the column of `unit`: the
/// floor where the column is empty.
pub open spec fn stack_top(unit: PrimitiveBox, heights: Seq<i32>) -> int {
    MAX_Y - heights[unit.col()] * GRANULE_SIZE
}

/// The lower edge of `unit` has reached the top of the stack in its column,
/// or the floor.
pub open spec fn is_blocked_at(unit: PrimitiveBox, heights: Seq<i32>) -> bool {
    unit.y + GRANULE_SIZE >= stack_top(unit, heights)
}

/// The upper edge of `unit` is at or below the top of the stack in its
/// column: the unit would sit inside the stack.
pub open spec fn would_be_blocked_at(unit: PrimitiveBox, heights: Seq<i32>) -> bool {
    unit.y >= stack_top(unit, heights)
}

/// One of the units is grounded.
pub open spec fn grounded(units: Seq<PrimitiveBox>, heights: Seq<i32>) -> bool {
    exists|i: int| 0 <= i < units.len() && is_blocked_at(#[trigger] units[i], heights)
}

/// One of the units would sit inside the stack.
pub open spec fn obstructed(units: Seq<PrimitiveBox>, heights: Seq<i32>) -> bool {
    exists|i: int| 0 <= i < units.len() && would_be_blocked_at(#[trigger] units[i], heights)
}

/// Whether `element` is grounded on a stack of the given heights.
pub fn is_blocked(element: &PrimitiveBox, heights: &[i32; COLS]) -> (blocked: bool)
    requires
        element.in_bounds(),
    ensures
        blocked == is_blocked_at(*element, heights@),
{
    let height: i64 = heights[element.col_index()] as i64;
    element.y as i64 + GRANULE_SIZE as i64 >= MAX_Y as i64 - height * GRANULE_SIZE as i64
}

/// Whether `element` would sit inside a stack of the given heights.
pub fn would_be_blocked(element: &PrimitiveBox, heights: &[i32; COLS]) -> (blocked: bool)
    requires
        element.in_bounds(),
    ensures
        blocked == would_be_blocked_at(*element, heights@),
{
    let height: i64 = heights[element.col_index()] as i64;
    element.y as i64 >= MAX_Y as i64 - height * GRANULE_SIZE as i64
}

// ---------------------------------------------------------------------------
// Applying an input
// ---------------------------------------------------------------------------

/// A move of the piece is legal: the boundary check passes and no moved
/// unit would sit inside the stack.
pub open spec fn shift_allowed(piece: ShapeView, dir: Direction, heights: Seq<i32>) -> bool {
    piece.can_shift(dir) && !obstructed(piece.shifted(dir).units, heights)
}

/// A quarter turn of the piece is legal: every turned unit lies inside the
/// playfield and none would sit inside the stack.
pub open spec fn turn_allowed(piece: ShapeView, rotation: Rotation, heights: Seq<i32>) -> bool {
    piece.rotation_in_bounds(rotation) && !obstructed(piece.rotated(rotation).units, heights)
}

/// The piece after a checked move: moved where the move is legal, untouched
/// where it is rejected.
pub open spec fn checked_shift(piece: ShapeView, dir: Direction, heights: Seq<i32>) -> ShapeView {
    if shift_allowed(piece, dir, heights) {
        piece.shifted(dir)
    } else {
        piece
    }
}

/// The piece after a checked quarter turn: turned where the turn is legal,
/// untouched where it is rejected.
pub open spec fn checked_turn(piece: ShapeView, rotation: Rotation, heights: Seq<i32>) -> ShapeView {
    if turn_allowed(piece, rotation, heights) {
        piece.rotated(rotation)
    } else {
        piece
    }
}

/// The key for a quarter turn counterclockwise.
pub const KEY_COUNTERCLOCKWISE: char = 'k';

/// The key for a quarter turn clockwise.
pub const KEY_CLOCKWISE: char = 'l';

/// The falling piece after the command `input` has been applied to it.
///
/// Down, and the absence of a command, let the piece fall by one row where
/// the floor allows it. Left and right are checked moves, `k` and `l` are
/// checked quarter turns. Every other key leaves the piece alone.
pub open spec fn after_input(piece: ShapeView, heights: Seq<i32>, input: Option<KeyCode>) -> ShapeView {
    match input {
        None => piece.translated(Direction::Down),
        Some(KeyCode::ArrowDown) => piece.translated(Direction::Down),
        Some(KeyCode::ArrowLeft) => checked_shift(piece, Direction::Left, heights),
        Some(KeyCode::ArrowRight) => checked_shift(piece, Direction::Right, heights),
        Some(KeyCode::Char(c)) => if c == KEY_COUNTERCLOCKWISE {
            checked_turn(piece, Rotation::Counterclockwise, heights)
        } else if c == KEY_CLOCKWISE {
            checked_turn(piece, Rotation::Clockwise, heights)
        } else {
            piece
        },
        Some(_) => piece,
    }
}

/// The command that an optional key stands for.
pub open spec fn command(input: Option<&KeyCode>) -> Option<KeyCode> {
    match input {
        Some(key) => Some(*key),
        None => None,
    }
}

impl BoardView {
    /// Well-formedness of the board.
    ///
    /// There is a counter for each row and a height for each column; no
    /// counter has reached the number of columns; no height exceeds the
    /// number of rows; both pieces are well formed, and the falling piece is
    /// anchored.
    pub open spec fn wf(self) -> bool {
        &&& self.line_counts.len() == LINES
        &&& self.heights.len() == COLS
        &&& forall|r: int| 0 <= r < LINES ==> #[trigger] self.line_counts[r] < COLS
        &&& forall|c: int| 0 <= c < COLS ==> 0 <= #[trigger] self.heights[c] <= LINES
        &&& self.settled.wf()
        &&& self.falling.wf()
        &&& self.falling.anchored()
    }

    /// The board with `piece` as the falling piece.
    pub open spec fn with_falling(self, piece: ShapeView) -> BoardView {
        BoardView { falling: piece, ..self }
    }
}

/// Checked moves and turns keep a well-formed, anchored piece so.
pub proof fn lemma_after_input(piece: ShapeView, heights: Seq<i32>, input: Option<KeyCode>)
    requires
        piece.wf(),
        piece.anchored(),
    ensures
        after_input(piece, heights, input).wf(),
        after_input(piece, heights, input).anchored(),
        after_input(piece, heights, input).units.len() == piece.units.len(),
{
    lemma_translated_anchored(piece, Direction::Down);
    lemma_translated_anchored(piece, Direction::Left);
    lemma_translated_anchored(piece, Direction::Right);
    if piece.rotation_in_bounds(Rotation::Clockwise) {
        lemma_rotated_anchored(piece, Rotation::Clockwise);
    }
    if piece.rotation_in_bounds(Rotation::Counterclockwise) {
        lemma_rotated_anchored(piece, Rotation::Counterclockwise);
    }
}

impl GameState {
    /// The score.
    pub fn score(&self) -> (score: u32)
        ensures
            score == self@.score,
    {
        self.score
    }

    /// The number of settled units in each row, from the top row down.
    pub fn line_counts(&self) -> (counts: &[u8; LINES])
        ensures
            counts@ == self@.line_counts,
    {
        &self.line_counts
    }

    /// The height of the stack in each column, from the left column on.
    pub fn heights(&self) -> (heights: &[i32; COLS])
        ensures
            heights@ == self@.heights,
    {
        &self.heights
    }

    /// The settled material.
    pub fn settled_piece(&self) -> (piece: &Shape)
        ensures
            piece@ == self@.settled,
    {
        &self.settled_piece
    }

    /// The piece that is falling.
    pub fn falling_piece(&self) -> (piece: &Shape)
        ensures
            piece@ == self@.falling,
    {
        &self.falling_piece
    }

    /// How the next piece is chosen.
    pub fn selection(&self) -> (selection: Selection)
        ensures
            selection == self@.selection,
    {
        self.selection
    }

    /// Chooses how the pieces after the falling one are picked.
    pub fn set_selection(&mut self, selection: Selection)
        ensures
            final(self)@ == (BoardView { selection, ..old(self)@ }),
    {
        self.selection = selection;
    }

    /// Applies one command to the falling piece.
    pub fn handle_input(&mut self, input: Option<&KeyCode>)
        requires
            old(self)@.wf(),
        ensures
            final(self)@ == old(self)@.with_falling(
                after_input(old(self)@.falling, old(self)@.heights, command(input)),
            ),
            final(self)@.wf(),
    {
        let ghost before = self@;
        proof {
            lemma_anchored_pivot(before.falling);
            lemma_after_input(before.falling, before.heights, command(input));
        }
        let heights = &self.heights;
        let blocked = |element: &PrimitiveBox| -> (b: bool)
            requires
                element.valid(),
            ensures
                b == would_be_blocked_at(*element, heights@),
            { would_be_blocked(element, heights) };
        match input {
            None => {
                self.falling_piece.down();
            },
            Some(key) => {
                match *key {
                    KeyCode::ArrowDown => {
                        self.falling_piece.down();
                    },
                    KeyCode::ArrowLeft => {
                        self.falling_piece.left_checked(blocked);
                    },
                    KeyCode::ArrowRight => {
                        self.falling_piece.right_checked(blocked);
                    },
                    KeyCode::Char(c) => {
                        if c == KEY_COUNTERCLOCKWISE {
                            self.falling_piece.rotate_counterclockwise(blocked);
                        } else if c == KEY_CLOCKWISE {
                            self.falling_piece.rotate_clockwise(blocked);
                        }
                    },
                    _ => {},
                }
            },
        }
    }
}

// ---------------------------------------------------------------------------
// Column heights
// ---------------------------------------------------------------------------

/// Orders units so that those in the column at `x` come first, the higher
/// the earlier, and all others after them.
pub open spec fn key_column(x: int) -> spec_fn(PrimitiveBox) -> int {
    |u: PrimitiveBox|
        if u.x == x {
            u.y as int
        } else {
            MAX_Y as int
        }
}

/// Number of rows from the floor up to and including the topmost unit of
/// column `col`; zero where the column holds no unit.
pub open spec fn column_height(units: Seq<PrimitiveBox>, col: int) -> int {
    if units.len() == 0 {
        0
    } else {
        let top = units[first_least(units, key_column(col_x(col)), units.len() as int)];
        if top.x != col_x(col) {
            0
        } else {
            LINES - top.row()
        }
    }
}

/// The height of every column of a heap of units.
pub open spec fn heights_of(units: Seq<PrimitiveBox>) -> Seq<i32> {
    Seq::new(COLS as nat, |c: int| column_height(units, c) as i32)
}

// ---------------------------------------------------------------------------
// Clearing rows
// ---------------------------------------------------------------------------

/// The rows are listed from the top down, none twice, and all exist.
pub open spec fn ascending_rows(lines: Seq<usize>) -> bool {
    &&& forall|i: int, j: int| 0 <= i < j < lines.len() ==> lines[i] < lines[j]
    &&& forall|i: int| 0 <= i < lines.len() ==> lines[i] < LINES
}

/// `row` is one of the listed rows.
pub open spec fn in_lines(lines: Seq<usize>, row: int) -> bool {
    exists|i: int| 0 <= i < lines.len() && lines[i] == row
}

/// Accepts the units that lie in none of the listed rows.
pub open spec fn spared(lines: Seq<usize>) -> spec_fn(PrimitiveBox) -> bool {
    |u: PrimitiveBox| !in_lines(lines, u.row())
}

/// Number of listed rows below `row`: by so many rows the material of `row`
/// falls when the listed rows are cleared.
pub open spec fn drop_of(lines: Seq<usize>, row: int) -> int
    decreases lines.len(),
{
    if lines.len() == 0 {
        0
    } else {
        drop_of(lines.drop_last(), row) + if lines.last() > row {
            1int
        } else {
            0int
        }
    }
}

/// What becomes of a heap once the units of the listed rows are gone.
///
/// `rest` is the part of the heap still in place, `fallen` what has fallen
/// already, and `from` the index of the next listed row. That row cuts
/// `rest`: what lies above the cut falls by as many rows as there are listed
/// rows from this one on, and joins `fallen`. In the end `fallen` goes back
/// on the heap, behind what never moved.
pub open spec fn settle_bands(
    rest: Seq<PrimitiveBox>,
    fallen: Seq<PrimitiveBox>,
    lines: Seq<usize>,
    from: int,
) -> Seq<PrimitiveBox>
    decreases lines.len() - from,
{
    if from < 0 || from >= lines.len() {
        rest + fallen
    } else {
        let y = row_y(lines[from] as int);
        settle_bands(
            units_from(rest, y),
            fallen + lowered(units_above(rest, y), lines.len() - from),
            lines,
            from + 1,
        )
    }
}

/// The heap after the listed rows have been cleared: their units are gone,
/// and what lay above them has fallen.
pub open spec fn collapsed(units: Seq<PrimitiveBox>, lines: Seq<usize>) -> Seq<PrimitiveBox> {
    settle_bands(units.filter(spared(lines)), Seq::empty(), lines, 0)
}

/// The row counters while they follow their material down. The rows from
/// the floor up to `from` have been dealt with: the counter of each such row
/// that has a cleared row below it has moved down by the number of those
/// rows and left a zero behind.
pub open spec fn relocated(counts: Seq<u8>, lines: Seq<usize>, from: int) -> Seq<u8>
    decreases LINES - from,
{
    if from >= LINES {
        counts
    } else {
        let later = relocated(counts, lines, from + 1);
        let fall = drop_of(lines, from);
        if fall > 0 {
            later.update(from + fall, later[from]).update(from, 0u8)
        } else {
            later
        }
    }
}

/// The score after `rows` rows of `COLS` units each have been cleared. The
/// counter wraps around where it would pass the largest value it can hold.
pub open spec fn score_after(score: u32, rows: int) -> u32 {
    ((score + rows * COLS) % 0x1_0000_0000) as u32
}

/// The board after the listed rows have been cleared.
pub open spec fn cleared(board: BoardView, lines: Seq<usize>) -> BoardView {
    BoardView {
        score: score_after(board.score, lines.len() as int),
        line_counts: relocated(board.line_counts, lines, 0),
        heights: heights_of(collapsed(board.settled.units, lines)),
        settled: ShapeView { units: collapsed(board.settled.units, lines), pivot: board.settled.pivot },
        ..board
    }
}

/// Between two places of an ascending list the rows differ at least by the
/// distance of the places.
pub proof fn lemma_ascending_gap(lines: Seq<usize>, i: int, j: int)
    requires
        ascending_rows(lines),
        0 <= i <= j < lines.len(),
    ensures
        lines[j] - lines[i] >= j - i,
    decreases j - i,
{
    if i < j {
        lemma_ascending_gap(lines, i, j - 1);
    }
}

/// Of an ascending list, the rows below `row` are the ones from the first
/// such row on.
pub proof fn lemma_drop_of_suffix(lines: Seq<usize>, row: int, first: int)
    requires
        ascending_rows(lines),
        0 <= first <= lines.len(),
        forall|i: int| 0 <= i < first ==> lines[i] <= row,
        forall|i: int| first <= i < lines.len() ==> lines[i] > row,
    ensures
        drop_of(lines, row) == lines.len() - first,
    decreases lines.len(),
{
    if lines.len() > 0 {
        let rest = lines.drop_last();
        if first == lines.len() {
            lemma_drop_of_suffix(rest, row, first - 1);
        } else {
            lemma_drop_of_suffix(rest, row, first);
        }
    }
}

/// Material never falls through the floor: a row and the listed rows below
/// it all fit between the row and the floor.
pub proof fn lemma_drop_fits(lines: Seq<usize>, row: int)
    requires
        ascending_rows(lines),
        0 <= row < LINES,
    ensures
        0 <= drop_of(lines, row),
        row + drop_of(lines, row) < LINES,
{
    let first = first_below(lines, row, 0);
    lemma_first_below(lines, row, 0);
    lemma_drop_of_suffix(lines, row, first);
    if first < lines.len() {
        lemma_ascending_gap(lines, first, lines.len() - 1);
    }
}

/// Index of the first listed row below `row`, looking from place `from` on;
/// the length of the list where there is none.
pub open spec fn first_below(lines: Seq<usize>, row: int, from: int) -> int
    decreases lines.len() - from,
{
    if from < 0 || from >= lines.len() || lines[from] > row {
        from
    } else {
        first_below(lines, row, from + 1)
    }
}

/// `first_below` splits an ascending list into the rows down to `row` and
/// the rows below it.
pub proof fn lemma_first_below(lines: Seq<usize>, row: int, from: int)
    requires
        ascending_rows(lines),
        0 <= from <= lines.len(),
        forall|i: int| 0 <= i < from ==> lines[i] <= row,
    ensures
        from <= first_below(lines, row, from) <= lines.len(),
        forall|i: int| 0 <= i < first_below(lines, row, from) ==> lines[i] <= row,
        forall|i: int| first_below(lines, row, from) <= i < lines.len() ==> lines[i] > row,
    decreases lines.len() - from,
{
    if from < lines.len() && lines[from] <= row {
        lemma_first_below(lines, row, from + 1);
    }
}

/// Whether `row` is one of the listed rows.
pub fn row_listed(lines: &[usize], row: usize) -> (listed: bool)
    ensures
        listed == in_lines(lines@, row as int),
{
    let mut i: usize = 0;
    while i < lines.len()
        invariant
            i <= lines@.len(),
            forall|j: int| 0 <= j < i ==> lines@[j] != row,
        decreases lines@.len() - i,
    {
        if lines[i] == row {
            return true;
        }
        i += 1;
    }
    false
}

impl GameState {
    /// Works out the height of every column afresh from the settled
    /// material: the distance of the column's topmost unit from the floor,
    /// zero for an empty column.
    pub fn calculate_heights(&mut self)
        requires
            old(self)@.settled.wf(),
        ensures
            final(self)@ == (BoardView { heights: heights_of(old(self)@.settled.units), ..old(self)@ }),
            forall|c: int| 0 <= c < COLS ==> 0 <= #[trigger] final(self)@.heights[c] <= LINES,
    {
        let ghost before = self@;
        let ghost units = self@.settled.units;
        let mut col: usize = 0;
        while col < COLS
            invariant
                col <= COLS,
                self@ == (BoardView { heights: self@.heights, ..before }),
                units == before.settled.units,
                before.settled.wf(),
                self@.heights.len() == COLS,
                forall|c: int| 0 <= c < col ==> #[trigger] self@.heights[c] == column_height(units, c),
                forall|c: int| 0 <= c < col ==> 0 <= #[trigger] self@.heights[c] <= LINES,
            decreases COLS - col,
        {
            let x: i32 = col as i32 * GRANULE_SIZE + X_ANCHOR;
            let better = |lhs: &PrimitiveBox, rhs: &PrimitiveBox| -> (b: bool)
                ensures
                    b == (rhs.x == x && (rhs.y < lhs.y || lhs.x != x)),
                { rhs.x == x && (rhs.y < lhs.y || lhs.x != x) };
            let stop = |element: &PrimitiveBox| -> (b: bool)
                ensures
                    b == (element.x == x && element.y == Y_ANCHOR),
                { element.x == x && element.y == Y_ANCHOR };
            let found = self.settled_piece.extreme(better, stop);
            let top_most: usize = match found {
                Some(item) => {
                    proof {
                        let key = key_column(x as int);
                        assert forall|i: int| 0 <= i < units.len() implies Y_ANCHOR <= key(#[trigger] units[i])
                            <= MAX_Y by {
                            assert(units[i].valid());
                        }
                        lemma_scan_first_least(units, better, stop, key, Y_ANCHOR as int, 1, *item);
                        lemma_first_least(units, key, units.len() as int);
                        assert(item.valid());
                    }
                    if item.x != x {
                        LINES
                    } else {
                        item.row_index()
                    }
                },
                None => LINES,
            };
            self.heights[col] = (LINES - top_most) as i32;
            col += 1;
        }
        proof {
            assert(self@.heights =~= heights_of(units));
        }
    }

    /// Clears the listed rows, which are full and given from the top down.
    ///
    /// The units of the listed rows vanish. The material above each of them
    /// falls by as many rows as were cleared at or below it, and the row
    /// counters move with their material. The column heights are worked out
    /// afresh, and the score grows by the number of units cleared.
    pub fn clear_lines(&mut self, lines: &[usize])
        requires
            old(self)@.wf(),
            ascending_rows(lines@),
        ensures
            final(self)@ == cleared(old(self)@, lines@),
            final(self)@.wf(),
    {
        let ghost before = self@;
        let ghost ls = lines@;
        let k: usize = lines.len();
        proof {
            if k > 0 {
                lemma_ascending_gap(ls, 0, k - 1);
            }
        }
        let doomed = |element: &PrimitiveBox| -> (b: bool)
            requires
                element.in_bounds(),
            ensures
                b == in_lines(lines@, element.row()),
            { row_listed(lines, element.row_index()) };
        assert forall|i: int| 0 <= i < before.settled.units.len() implies call_requires(
            doomed,
            (&#[trigger] before.settled.units[i],),
        ) by {
            assert(before.settled.units[i].valid());
        }
        self.settled_piece.remove(doomed);
        proof {
            lemma_retained_is_filter(before.settled.units, doomed, spared(ls), self@.settled.units);
            lemma_filter_keeps_valid(before.settled.units, spared(ls));
        }
        let mut fallen = Shape::default();
        let mut i: usize = 0;
        while i < k
            invariant
                i <= k,
                k == ls.len(),
                ls == lines@,
                k <= LINES,
                ascending_rows(ls),
                before.wf(),
                self@ == (BoardView { settled: self@.settled, ..before }),
                self@.settled.pivot == before.settled.pivot,
                self@.settled.wf(),
                all_valid(fallen@.units),
                settle_bands(self@.settled.units, fallen@.units, ls, i as int) == collapsed(
                    before.settled.units,
                    ls,
                ),
            decreases k - i,
        {
            let line: usize = lines[i];
            let y: i32 = line as i32 * GRANULE_SIZE + Y_ANCHOR;
            let ghost rest = self@.settled.units;
            let ghost band = units_above(rest, y as int);
            let ghost rows: int = k - i;
            proof {
                lemma_ascending_gap(ls, i as int, k - 1);
            }
            match self.settled_piece.split_at_y(y) {
                None => {
                    proof {
                        assert(lowered(band, rows) =~= Seq::<PrimitiveBox>::empty());
                        assert(fallen@.units + lowered(band, rows) =~= fallen@.units);
                    }
                },
                Some(above) => {
                    let mut falling = above;
                    let mut n: usize = 0;
                    proof {
                        assert(lowered(band, 0) =~= band);
                    }
                    while n < k - i
                        invariant
                            n <= k - i,
                            i < k,
                            k == ls.len(),
                            k <= LINES,
                            rows == k - i,
                            ls[i as int] + rows <= LINES,
                            y == row_y(ls[i as int] as int),
                            band == units_above(rest, y as int),
                            band.len() > 0,
                            all_valid(band),
                            falling@.units == lowered(band, n as int),
                            falling@.pivot == (Point { x: 0, y: (n * GRANULE_SIZE) as i32 }),
                            falling@.wf(),
                        decreases k - i - n,
                    {
                        let ghost now = falling@;
                        proof {
                            assert forall|m: int| 0 <= m < now.units.len() implies has_room(
                                #[trigger] now.units[m],
                                Direction::Down,
                            ) by {
                                rest.lemma_filter_pred(|u: PrimitiveBox| u.y < y as int, m);
                                assert(band[m].valid());
                                assert(band[m].y < y);
                            }
                            assert(now.can_shift(Direction::Down));
                        }
                        falling.down();
                        n += 1;
                        proof {
                            assert(falling@.units =~= lowered(band, n as int));
                        }
                    }
                    proof {
                        assert forall|m: int| 0 <= m < falling@.units.len() implies (
                        #[trigger] falling@.units[m]).valid() by {}
                    }
                    fallen.merge(falling);
                },
            }
            i += 1;
        }
        self.settled_piece.merge(fallen);
        assert(self@.settled.units == collapsed(before.settled.units, ls));

        let mut drop_amounts: [usize; LINES] = [0;LINES];
        let mut m: usize = 0;
        proof {
            assert(ls.take(0) =~= Seq::<usize>::empty());
        }
        while m < k
            invariant
                m <= k,
                k == ls.len(),
                ls == lines@,
                k <= LINES,
                forall|r: int| 0 <= r < LINES ==> #[trigger] drop_amounts@[r] == drop_of(ls.take(m as int), r),
                forall|r: int| 0 <= r < LINES ==> 0 <= #[trigger] drop_amounts@[r] <= m,
            decreases k - m,
        {
            let line: usize = lines[m];
            let ghost counted = drop_amounts@;
            proof {
                assert(ls.take(m + 1).drop_last() =~= ls.take(m as int));
                assert(ls.take(m + 1).last() == line);
            }
            let mut d: usize = 0;
            while d < LINES && d < line
                invariant
                    d <= LINES,
                    d <= line,
                    m < k <= LINES,
                    counted.len() == LINES,
                    forall|r: int| 0 <= r < LINES ==> 0 <= #[trigger] counted[r] <= m,
                    forall|r: int| 0 <= r < d ==> #[trigger] drop_amounts@[r] == counted[r] + 1,
                    forall|r: int| d <= r < LINES ==> #[trigger] drop_amounts@[r] == counted[r],
                decreases LINES - d,
            {
                drop_amounts[d] = drop_amounts[d] + 1;
                d += 1;
            }
            proof {
                assert forall|r: int| 0 <= r < LINES implies #[trigger] drop_amounts@[r] == drop_of(
                    ls.take(m + 1),
                    r,
                ) by {
                    assert(ls.take(m + 1).drop_last() =~= ls.take(m as int));
                    assert(ls.take(m + 1).last() == line);
                    assert(counted[r] == drop_of(ls.take(m as int), r));
                }
            }
            m += 1;
        }
        proof {
            assert(ls.take(k as int) =~= ls);
        }
        let mut next: usize = LINES;
        while next > 0
            invariant
                next <= LINES,
                ascending_rows(ls),
                self@ == (BoardView { line_counts: self@.line_counts, ..self@ }),
                self@.line_counts == relocated(before.line_counts, ls, next as int),
                self@.line_counts.len() == LINES,
                self@.settled.units == collapsed(before.settled.units, ls),
                self@.settled.pivot == before.settled.pivot,
                self@.settled.wf(),
                self@.score == before.score,
                self@.heights == before.heights,
                self@.falling == before.falling,
                self@.selection == before.selection,
                forall|r: int| 0 <= r < LINES ==> #[trigger] self@.line_counts[r] < COLS,
                forall|r: int| 0 <= r < LINES ==> #[trigger] drop_amounts@[r] == drop_of(ls, r),
            decreases next,
        {
            let from: usize = next - 1;
            proof {
                lemma_drop_fits(ls, from as int);
            }
            if drop_amounts[from] > 0 {
                let to: usize = from + drop_amounts[from];
                self.line_counts[to] = self.line_counts[from];
                self.line_counts[from] = 0;
            }
            next = from;
        }
        self.calculate_heights();
        let ghost recomputed = self@;
        self.score = self.score.wrapping_add((k * COLS) as u32);
        proof {
            assert(self@ == (BoardView { score: self@.score, ..recomputed }));
            assert forall|c: int| 0 <= c < COLS implies 0 <= #[trigger] self@.heights[c] <= LINES by {
                assert(0 <= recomputed.heights[c] <= LINES);
            }
        }
    }
}

// ---------------------------------------------------------------------------
// Settling
// ---------------------------------------------------------------------------

/// One of the units lies in the guard zone at the top of the playfield.
pub open spec fn tops_out(units: Seq<PrimitiveBox>) -> bool {
    exists|i: int| 0 <= i < units.len() && (#[trigger] units[i]).row() <= GUARD_ROW
}

/// Number of units in row `row`.
pub open spec fn count_in_row(units: Seq<PrimitiveBox>, row: int) -> nat
    decreases units.len(),
{
    if units.len() == 0 {
        0
    } else {
        count_in_row(units.drop_last(), row) + if units.last().row() == row {
            1nat
        } else {
            0nat
        }
    }
}

/// The row would hold as many units as it has columns, or more, once
/// `units` have settled: it is full.
pub open spec fn completes(counts: Seq<u8>, units: Seq<PrimitiveBox>, row: int) -> bool {
    counts[row] + count_in_row(units, row) >= COLS
}

/// The row counters after `units` have settled. A counter goes back to zero
/// whenever it reaches the number of columns.
pub open spec fn counts_after(counts: Seq<u8>, units: Seq<PrimitiveBox>) -> Seq<u8> {
    Seq::new(LINES as nat, |r: int| ((counts[r] + count_in_row(units, r)) % (COLS as int)) as u8)
}

/// The column heights after `units` have settled: each unit in turn sets
/// the height of its column to its own distance from the floor.
pub open spec fn heights_after(heights: Seq<i32>, units: Seq<PrimitiveBox>) -> Seq<i32>
    decreases units.len(),
{
    if units.len() == 0 {
        heights
    } else {
        heights_after(heights, units.drop_last()).update(
            units.last().col(),
            (LINES - units.last().row()) as i32,
        )
    }
}

/// The rows above row `upto` that are full once `units` have settled, from
/// the top down.
pub open spec fn full_rows(counts: Seq<u8>, units: Seq<PrimitiveBox>, upto: int) -> Seq<usize>
    decreases upto,
{
    if upto <= 0 {
        Seq::empty()
    } else if completes(counts, units, upto - 1) {
        full_rows(counts, units, upto - 1).push((upto - 1) as usize)
    } else {
        full_rows(counts, units, upto - 1)
    }
}

/// The full rows are listed from the top down, none twice.
pub proof fn lemma_full_rows(counts: Seq<u8>, units: Seq<PrimitiveBox>, upto: int)
    requires
        0 <= upto <= LINES,
    ensures
        ascending_rows(full_rows(counts, units, upto)),
        full_rows(counts, units, upto).len() <= upto,
        forall|i: int|
            0 <= i < full_rows(counts, units, upto).len() ==> {
                &&& (#[trigger] full_rows(counts, units, upto)[i]) < upto
                &&& completes(counts, units, full_rows(counts, units, upto)[i] as int)
            },
        forall|r: int| 0 <= r < upto && completes(counts, units, r) ==> in_lines(full_rows(counts, units, upto), r),
    decreases upto,
{
    if upto > 0 {
        lemma_full_rows(counts, units, upto - 1);
        let rest = full_rows(counts, units, upto - 1);
        let all = full_rows(counts, units, upto);
        assert forall|r: int| 0 <= r < upto && completes(counts, units, r) implies in_lines(all, r) by {
            if r < upto - 1 {
                let i = choose|i: int| 0 <= i < rest.len() && rest[i] == r;
                assert(all[i] == r);
            } else {
                assert(all[all.len() - 1] == r);
            }
        }
    }
}

/// A new game: nothing has settled, nothing has been scored, and the long
/// piece is falling.
pub open spec fn fresh(selection: Selection) -> BoardView {
    BoardView {
        score: 0,
        line_counts: Seq::new(LINES as nat, |r: int| 0u8),
        heights: Seq::new(COLS as nat, |c: int| 0i32),
        settled: ShapeView { units: Seq::empty(), pivot: Point { x: 0, y: 0 } },
        falling: Archetype::Long.spawned(),
        selection,
    }
}

/// The board after the falling piece has come to rest below the guard zone.
///
/// Each unit of the piece sets the height of its column and is counted in
/// its row; the piece becomes part of the settled material; the rows that
/// are full are cleared.
pub open spec fn landed(board: BoardView) -> BoardView {
    let units = board.falling.units;
    let rows = full_rows(board.line_counts, units, LINES as int);
    let heap = BoardView {
        line_counts: counts_after(board.line_counts, units),
        heights: heights_after(board.heights, units),
        settled: board.settled.merged(board.falling),
        ..board
    };
    if rows.len() == 0 {
        heap
    } else {
        cleared(heap, rows)
    }
}

/// The board after a collision: started afresh where a unit of the falling
/// piece lies in the guard zone, with the piece settled otherwise.
pub open spec fn collided(board: BoardView) -> BoardView {
    if tops_out(board.falling.units) {
        fresh(board.selection)
    } else {
        landed(board)
    }
}

/// The archetype that comes next when the pseudorandom source has drawn
/// `index`.
pub open spec fn chosen(selection: Selection, index: int) -> Archetype {
    match selection {
        Selection::Always(archetype) => archetype,
        Selection::Random => Archetype::at(index),
    }
}

/// The board after the settle check that follows every input: where a unit
/// of the falling piece is grounded the piece collides and the next piece
/// spawns, otherwise nothing changes.
pub open spec fn validated(board: BoardView, index: int) -> BoardView {
    if grounded(board.falling.units, board.heights) {
        collided(board).with_falling(chosen(board.selection, index).spawned())
    } else {
        board
    }
}

/// The board after one input sample: the command is applied to the falling
/// piece, then the settle check runs.
pub open spec fn ticked(board: BoardView, input: Option<KeyCode>, index: int) -> BoardView {
    validated(board.with_falling(after_input(board.falling, board.heights, input)), index)
}

/// What the settle check reports of a board.
pub open spec fn outcome_of(board: BoardView) -> TickOutcome {
    if !grounded(board.falling.units, board.heights) {
        TickOutcome::Falling
    } else if tops_out(board.falling.units) {
        TickOutcome::ToppedOut { score: board.score }
    } else {
        TickOutcome::Landed {
            cleared: full_rows(board.line_counts, board.falling.units, LINES as int).len() as usize,
        }
    }
}

impl GameState {
    /// A new game whose pieces are drawn at random.
    pub fn new() -> (state: GameState)
        ensures
            state@ == fresh(Selection::Random),
            state@.wf(),
    {
        GameState::with_selection(Selection::Random)
    }

    /// A new game whose pieces are chosen as `selection` says.
    pub fn with_selection(selection: Selection) -> (state: GameState)
        ensures
            state@ == fresh(selection),
            state@.wf(),
    {
        let first = ShapeBuilder::long().build();
        let state = GameState {
            score: 0,
            line_counts: [0;LINES],
            heights: [0;COLS],
            settled_piece: Shape::default(),
            falling_piece: first,
            selection,
            source: seeded_source(SEED),
        };
        proof {
            lemma_spawned(Archetype::Long);
            assert(state@.line_counts =~= fresh(selection).line_counts);
            assert(state@.heights =~= fresh(selection).heights);
            assert(state@.settled.units =~= fresh(selection).settled.units);
            lemma_fresh_wf(selection);
        }
        state
    }

    /// Throws the game away and starts afresh. The choice of pieces and the
    /// pseudorandom source carry over. Returns the score of the lost game.
    pub fn restart(&mut self) -> (score: u32)
        ensures
            score == old(self)@.score,
            final(self)@ == fresh(old(self)@.selection),
            final(self)@.wf(),
    {
        let score: u32 = self.score;
        self.score = 0;
        self.line_counts = [0;LINES];
        self.heights = [0;COLS];
        self.settled_piece = Shape::default();
        self.falling_piece = ShapeBuilder::long().build();
        proof {
            let selection = self@.selection;
            assert(self@.line_counts =~= fresh(selection).line_counts);
            assert(self@.heights =~= fresh(selection).heights);
            assert(self@.settled.units =~= fresh(selection).settled.units);
            lemma_fresh_wf(selection);
        }
        score
    }

    /// Makes `archetype` the falling piece, at its spawn position.
    pub fn spawn(&mut self, archetype: Archetype)
        ensures
            final(self)@ == old(self)@.with_falling(archetype.spawned()),
            old(self)@.wf() ==> final(self)@.wf(),
    {
        self.falling_piece = ShapeBuilder::of(archetype).build();
        proof {
            lemma_spawn_anchored(archetype);
        }
    }

    /// Spawns the next piece: the archetype that the selection names, or one
    /// drawn from the pseudorandom source.
    pub fn next_piece(&mut self)
        ensures
            exists|index: int|
                0 <= index < ARCHETYPES && final(self)@ == old(self)@.with_falling(
                    #[trigger] chosen(old(self)@.selection, index).spawned(),
                ),
            old(self)@.wf() ==> final(self)@.wf(),
    {
        let ghost before = self@;
        match self.selection {
            Selection::Always(archetype) => {
                self.spawn(archetype);
                assert(self@ == before.with_falling(chosen(before.selection, 0).spawned()));
            },
            Selection::Random => {
                let index: u32 = draw_below(&mut self.source, ARCHETYPES);
                self.spawn(Archetype::from_index(index));
                assert(self@ == before.with_falling(chosen(before.selection, index as int).spawned()));
            },
        }
    }

    /// Whether a unit of the falling piece touches the floor or sits on the
    /// stack.
    pub fn is_grounded(&self) -> (touching: bool)
        requires
            self@.wf(),
        ensures
            touching == grounded(self@.falling.units, self@.heights),
    {
        let n: usize = self.falling_piece.elements.len();
        let mut i: usize = 0;
        while i < n
            invariant
                i <= n,
                n == self@.falling.units.len(),
                self@.wf(),
                forall|j: int| 0 <= j < i ==> !is_blocked_at(#[trigger] self@.falling.units[j], self@.heights),
            decreases n - i,
        {
            assert(self@.falling.units[i as int].valid());
            if is_blocked(&self.falling_piece.elements[i], &self.heights) {
                return true;
            }
            i += 1;
        }
        false
    }

    /// Lets the falling piece settle.
    ///
    /// A unit in the guard zone ends the game: the board starts afresh and
    /// the rest of the piece is not looked at. Otherwise every unit sets the
    /// height of its column and is counted in its row, a row whose counter
    /// reaches the number of columns is noted as full and its counter goes
    /// back to zero, the piece is merged into the settled material, and the
    /// full rows are cleared from the top down.
    pub fn handle_collision(&mut self) -> (outcome: TickOutcome)
        requires
            old(self)@.wf(),
        ensures
            final(self)@ == collided(old(self)@),
            final(self)@.wf(),
            outcome == if tops_out(old(self)@.falling.units) {
                TickOutcome::ToppedOut { score: old(self)@.score }
            } else {
                TickOutcome::Landed {
                    cleared: full_rows(old(self)@.line_counts, old(self)@.falling.units, LINES as int).len() as usize,
                }
            },
    {
        let ghost before = self@;
        let ghost units = before.falling.units;
        let n: usize = self.falling_piece.elements.len();
        let mut full_marks: [bool; LINES] = [false;LINES];
        let mut i: usize = 0;
        proof {
            assert(units.take(0) =~= Seq::<PrimitiveBox>::empty());
        }
        while i < n
            invariant
                i <= n,
                n == units.len(),
                before == old(self)@,
                before.wf(),
                units == before.falling.units,
                self@ == (BoardView { line_counts: self@.line_counts, heights: self@.heights, ..before }),
                self@.line_counts.len() == LINES,
                self@.heights.len() == COLS,
                forall|j: int| 0 <= j < i ==> (#[trigger] units[j]).row() > GUARD_ROW,
                forall|r: int|
                    0 <= r < LINES ==> #[trigger] self@.line_counts[r] == (before.line_counts[r] + count_in_row(
                        units.take(i as int),
                        r,
                    )) % (COLS as int),
                forall|r: int|
                    0 <= r < LINES ==> #[trigger] full_marks@[r] == completes(
                        before.line_counts,
                        units.take(i as int),
                        r,
                    ),
                self@.heights == heights_after(before.heights, units.take(i as int)),
                forall|c: int| 0 <= c < COLS ==> 0 <= #[trigger] self@.heights[c] <= LINES,
            decreases n - i,
        {
            let element: PrimitiveBox = self.falling_piece.elements[i];
            assert(element == units[i as int]);
            assert(units[i as int].valid());
            let row: usize = element.row_index();
            let col: usize = element.col_index();
            if row <= GUARD_ROW {
                proof {
                    assert(units[i as int].row() <= GUARD_ROW);
                    assert(tops_out(units));
                    assert(self@.score == before.score);
                    assert(self@.selection == before.selection);
                }
                let score: u32 = self.restart();
                return TickOutcome::ToppedOut { score };
            }
            proof {
                assert(units.take(i + 1).drop_last() =~= units.take(i as int));
                assert(units.take(i + 1).last() == element);
            }
            self.heights[col] = (LINES - row) as i32;
            self.line_counts[row] = self.line_counts[row] + 1;
            if self.line_counts[row] >= COLS as u8 {
                full_marks[row] = true;
                self.line_counts[row] = 0;
            }
            i += 1;
        }
        proof {
            assert(units.take(n as int) =~= units);
            assert(!tops_out(units));
            assert(self@.line_counts =~= counts_after(before.line_counts, units));
        }
        let mut full: Vec<usize> = Vec::new();
        let mut r: usize = 0;
        while r < LINES
            invariant
                r <= LINES,
                full@ == full_rows(before.line_counts, units, r as int),
                forall|q: int| 0 <= q < LINES ==> #[trigger] full_marks@[q] == completes(before.line_counts, units, q),
            decreases LINES - r,
        {
            if full_marks[r] {
                full.push(r);
            }
            r += 1;
        }
        proof {
            lemma_full_rows(before.line_counts, units, LINES as int);
        }
        self.settled_piece.merge(self.falling_piece.duplicate());
        if full.len() > 0 {
            self.clear_lines(full.as_slice());
        }
        TickOutcome::Landed { cleared: full.len() }
    }

    /// The settle check that follows every input.
    ///
    /// Where a unit of the falling piece is grounded the piece settles and
    /// the next piece spawns. Which piece spawns is for the selection and
    /// the pseudorandom source to say, so the board that results is stated
    /// for some index that the source may have drawn.
    pub fn validate(&mut self) -> (outcome: TickOutcome)
        requires
            old(self)@.wf(),
        ensures
            exists|index: int| 0 <= index < ARCHETYPES && final(self)@ == #[trigger] validated(old(self)@, index),
            outcome == outcome_of(old(self)@),
            final(self)@.wf(),
    {
        let ghost before = self@;
        if self.is_grounded() {
            let outcome = self.handle_collision();
            let ghost settled = self@;
            self.next_piece();
            proof {
                let index = choose|index: int|
                    0 <= index < ARCHETYPES && self@ == settled.with_falling(
                        #[trigger] chosen(settled.selection, index).spawned(),
                    );
                assert(self@ == validated(before, index));
            }
            outcome
        } else {
            assert(self@ == validated(before, 0));
            TickOutcome::Falling
        }
    }

    /// One input sample: applies the command to the falling piece, then
    /// runs the settle check.
    pub fn tick(&mut self, input: Option<&KeyCode>) -> (outcome: TickOutcome)
        requires
            old(self)@.wf(),
        ensures
            exists|index: int|
                0 <= index < ARCHETYPES && final(self)@ == #[trigger] ticked(old(self)@, command(input), index),
            outcome == outcome_of(
                old(self)@.with_falling(after_input(old(self)@.falling, old(self)@.heights, command(input))),
            ),
            final(self)@.wf(),
    {
        let ghost before = self@;
        self.handle_input(input);
        let ghost moved = self@;
        let outcome = self.validate();
        proof {
            let index = choose|index: int| 0 <= index < ARCHETYPES && self@ == #[trigger] validated(moved, index);
            assert(self@ == ticked(before, command(input), index));
        }
        outcome
    }
}

/// A spawned piece is anchored.
pub proof fn lemma_spawn_anchored(archetype: Archetype)
    ensures
        archetype.spawned().wf(),
        archetype.spawned().anchored(),
{
    lemma_spawned(archetype);
    let piece = archetype.spawned();
    assert forall|i: int| 0 <= i < piece.units.len() implies -(MAX_X - X_ANCHOR) <= (#[trigger] piece.units[i]).x
        - piece.pivot.x <= MAX_X - X_ANCHOR && -(MAX_Y - Y_ANCHOR) <= piece.units[i].y - piece.pivot.y <= MAX_Y
        - Y_ANCHOR by {
        assert(piece.units[i].valid());
    }
}

/// A new game is well formed.
pub proof fn lemma_fresh_wf(selection: Selection)
    ensures
        fresh(selection).wf(),
{
    lemma_spawn_anchored(Archetype::Long);
}

} // verus!
