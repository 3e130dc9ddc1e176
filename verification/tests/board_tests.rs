use tinytetris::board::{is_blocked, would_be_blocked, GameState, Selection, TickOutcome};
use tinytetris::catalog::{Archetype, ShapeBuilder};
use tinytetris::game::game_loop;
use tinytetris::grid::{Color, Point, PrimitiveBox, COLS, LINES};
use tinytetris::interface::KeyCode;
use tinytetris::shape::Shape;

fn cells(shape: &Shape) -> Vec<(i32, i32)> {
    shape.elements.iter().map(|u| (u.x, u.y)).collect()
}

fn sorted_cells(shape: &Shape) -> Vec<(i32, i32)> {
    let mut all = cells(shape);
    all.sort();
    all
}

fn press(state: &mut GameState, key: KeyCode, times: usize) {
    for _ in 0..times {
        assert_eq!(state.tick(Some(&key)), TickOutcome::Falling);
    }
}

/// Lets the piece fall until it lands; returns the number of ticks and what
/// the last one reported.
fn drop_piece(state: &mut GameState) -> (usize, TickOutcome) {
    for ticks in 1..=LINES {
        let outcome = state.tick(Some(&KeyCode::ArrowDown));
        if outcome != TickOutcome::Falling {
            return (ticks, outcome);
        }
    }
    panic!("the piece did not land");
}

/// Lays the long piece flat and slides it so that it covers the four columns
/// from `first_col` on, then drops it.
fn drop_flat(state: &mut GameState, first_col: i32) -> TickOutcome {
    assert_eq!(state.tick(Some(&KeyCode::Char('l'))), TickOutcome::Falling);
    // flat, the piece covers columns 9 to 12
    if first_col < 9 {
        press(state, KeyCode::ArrowLeft, (9 - first_col) as usize);
    } else {
        press(state, KeyCode::ArrowRight, (first_col - 9) as usize);
    }
    drop_piece(state).1
}

/// Slides the upright long piece into column `col`, then drops it.
fn drop_upright(state: &mut GameState, col: i32) -> TickOutcome {
    if col < 10 {
        press(state, KeyCode::ArrowLeft, (10 - col) as usize);
    } else {
        press(state, KeyCode::ArrowRight, (col - 10) as usize);
    }
    drop_piece(state).1
}

/// A board whose last row lacks one unit, in the last column.
fn board_with_one_gap() -> GameState {
    let mut state = GameState::with_selection(Selection::Always(Archetype::Long));
    for first_col in [0, 4, 8, 12] {
        assert_eq!(drop_flat(&mut state, first_col), TickOutcome::Landed { cleared: 0 });
    }
    for col in [16, 17, 18] {
        assert_eq!(drop_upright(&mut state, col), TickOutcome::Landed { cleared: 0 });
    }
    state
}

#[test]
fn new_game() {
    let state = GameState::new();
    assert_eq!(state.score(), 0);
    assert_eq!(state.line_counts(), &[0u8; LINES]);
    assert_eq!(state.heights(), &[0i32; COLS]);
    assert!(state.settled_piece().elements.is_empty());
    assert_eq!(state.falling_piece(), &ShapeBuilder::long().build());
    assert_eq!(state.selection(), Selection::Random);
}

#[test]
fn blocked_predicates() {
    let mut heights = [0i32; COLS];
    heights[10] = 4;
    let resting = PrimitiveBox::new(400, 250, Color::Red);
    let above = PrimitiveBox::new(400, 240, Color::Red);
    let inside = PrimitiveBox::new(400, 260, Color::Red);
    assert!(is_blocked(&resting, &heights));
    assert!(!is_blocked(&above, &heights));
    assert!(is_blocked(&inside, &heights));
    assert!(!would_be_blocked(&resting, &heights));
    assert!(would_be_blocked(&inside, &heights));
    // an empty column: only the floor blocks
    let on_floor = PrimitiveBox::new(300, 290, Color::Red);
    let over_floor = PrimitiveBox::new(300, 280, Color::Red);
    assert!(is_blocked(&on_floor, &heights));
    assert!(!is_blocked(&over_floor, &heights));
    assert!(!would_be_blocked(&on_floor, &heights));
}

#[test]
fn long_piece_dropped_on_an_empty_board() {
    let mut state = GameState::with_selection(Selection::Always(Archetype::Long));
    let (ticks, outcome) = drop_piece(&mut state);
    assert_eq!(ticks, 16);
    assert_eq!(outcome, TickOutcome::Landed { cleared: 0 });
    let mut heights = [0i32; COLS];
    heights[10] = 4;
    assert_eq!(state.heights(), &heights);
    let mut counts = [0u8; LINES];
    for row in 16..20 {
        counts[row] = 1;
    }
    assert_eq!(state.line_counts(), &counts);
    assert_eq!(state.score(), 0);
    assert_eq!(cells(state.settled_piece()), vec![(400, 290), (400, 280), (400, 270), (400, 260)]);
    assert_eq!(state.falling_piece(), &ShapeBuilder::long().build());
}

#[test]
fn absence_of_a_command_is_gravity() {
    let mut with_down = GameState::with_selection(Selection::Always(Archetype::Long));
    let mut with_none = GameState::with_selection(Selection::Always(Archetype::Long));
    for _ in 0..16 {
        let a = with_down.tick(Some(&KeyCode::ArrowDown));
        let b = with_none.tick(None);
        assert_eq!(a, b);
        assert_eq!(with_down.falling_piece(), with_none.falling_piece());
        assert_eq!(with_down.heights(), with_none.heights());
    }
    assert_eq!(with_none.heights()[10], 4);
}

#[test]
fn other_keys_change_nothing() {
    let mut state = GameState::with_selection(Selection::Always(Archetype::T));
    let before = state.falling_piece().clone();
    for key in [KeyCode::Esc, KeyCode::ArrowUp, KeyCode::Unknown, KeyCode::Char('x'), KeyCode::Char('K')] {
        assert_eq!(state.tick(Some(&key)), TickOutcome::Falling);
        assert_eq!(state.falling_piece(), &before);
    }
}

#[test]
fn handle_input_alone_does_not_settle() {
    let mut state = GameState::with_selection(Selection::Always(Archetype::Long));
    for _ in 0..30 {
        state.handle_input(Some(&KeyCode::ArrowDown));
    }
    // gravity stops at the floor; nothing settles before the settle check
    assert_eq!(cells(state.falling_piece()), vec![(400, 290), (400, 280), (400, 270), (400, 260)]);
    assert!(state.settled_piece().elements.is_empty());
    assert!(state.is_grounded());
    assert_eq!(state.validate(), TickOutcome::Landed { cleared: 0 });
    assert_eq!(state.heights()[10], 4);
    assert!(!state.is_grounded());
    assert_eq!(state.validate(), TickOutcome::Falling);
}

#[test]
fn piece_lands_on_the_stack() {
    let mut state = GameState::with_selection(Selection::Always(Archetype::Long));
    assert_eq!(drop_piece(&mut state), (16, TickOutcome::Landed { cleared: 0 }));
    assert_eq!(drop_piece(&mut state), (12, TickOutcome::Landed { cleared: 0 }));
    assert_eq!(state.heights()[10], 8);
    let mut counts = [0u8; LINES];
    for row in 12..20 {
        counts[row] = 1;
    }
    assert_eq!(state.line_counts(), &counts);
    assert_eq!(state.settled_piece().elements.len(), 8);
}

#[test]
fn stack_blocks_moves_to_the_side() {
    let mut state = GameState::with_selection(Selection::Always(Archetype::Long));
    drop_piece(&mut state);
    press(&mut state, KeyCode::ArrowLeft, 1);
    press(&mut state, KeyCode::ArrowDown, 15);
    let beside = state.falling_piece().clone();
    assert_eq!(cells(&beside), vec![(390, 280), (390, 270), (390, 260), (390, 250)]);
    // to the right stands the first piece
    assert_eq!(state.tick(Some(&KeyCode::ArrowRight)), TickOutcome::Falling);
    assert_eq!(state.falling_piece(), &beside);
    // a turn would reach into it as well
    assert_eq!(state.tick(Some(&KeyCode::Char('l'))), TickOutcome::Falling);
    assert_eq!(state.falling_piece(), &beside);
    // to the left the way is free
    assert_eq!(state.tick(Some(&KeyCode::ArrowLeft)), TickOutcome::Falling);
    assert_eq!(cells(state.falling_piece()), vec![(380, 280), (380, 270), (380, 260), (380, 250)]);
}

#[test]
fn turn_keys() {
    let mut state = GameState::with_selection(Selection::Always(Archetype::Long));
    assert_eq!(state.tick(Some(&KeyCode::Char('l'))), TickOutcome::Falling);
    assert_eq!(cells(state.falling_piece()), vec![(420, 110), (410, 110), (400, 110), (390, 110)]);
    let mut other = GameState::with_selection(Selection::Always(Archetype::Long));
    assert_eq!(other.tick(Some(&KeyCode::Char('k'))), TickOutcome::Falling);
    assert_eq!(cells(other.falling_piece()), vec![(380, 110), (390, 110), (400, 110), (410, 110)]);
}

#[test]
fn completing_a_row_clears_it() {
    let mut state = board_with_one_gap();
    let mut heights = [1i32; COLS];
    heights[16] = 4;
    heights[17] = 4;
    heights[18] = 4;
    heights[19] = 0;
    assert_eq!(state.heights(), &heights);
    let mut counts = [0u8; LINES];
    counts[16] = 3;
    counts[17] = 3;
    counts[18] = 3;
    counts[19] = 19;
    assert_eq!(state.line_counts(), &counts);
    assert_eq!(state.settled_piece().elements.len(), 28);
    assert_eq!(state.score(), 0);

    assert_eq!(drop_upright(&mut state, 19), TickOutcome::Landed { cleared: 1 });

    assert_eq!(state.score(), COLS as u32);
    assert_eq!(state.settled_piece().elements.len(), 32 - COLS);
    // what stood above the cleared row has come down by one row
    let mut expected = Vec::new();
    for x in [460, 470, 480, 490] {
        for y in [270, 280, 290] {
            expected.push((x, y));
        }
    }
    assert_eq!(sorted_cells(state.settled_piece()), expected);
    // every height is lower by one
    let mut heights = [0i32; COLS];
    for col in 16..20 {
        heights[col] = 3;
    }
    assert_eq!(state.heights(), &heights);
    // the counters have moved with their rows
    let mut counts = [0u8; LINES];
    counts[17] = 4;
    counts[18] = 4;
    counts[19] = 4;
    assert_eq!(state.line_counts(), &counts);
    assert_eq!(state.falling_piece(), &ShapeBuilder::long().build());
}

#[test]
fn cleared_material_keeps_its_order() {
    let mut state = board_with_one_gap();
    drop_upright(&mut state, 19);
    assert_eq!(
        cells(state.settled_piece()),
        vec![
            (460, 290),
            (460, 280),
            (460, 270),
            (470, 290),
            (470, 280),
            (470, 270),
            (480, 290),
            (480, 280),
            (480, 270),
            (490, 290),
            (490, 280),
            (490, 270)
        ]
    );
}

#[test]
fn four_rows_cleared_at_once() {
    let mut state = GameState::with_selection(Selection::Always(Archetype::Long));
    for col in 0..19 {
        assert_eq!(drop_upright(&mut state, col), TickOutcome::Landed { cleared: 0 });
    }
    assert_eq!(state.settled_piece().elements.len(), 76);
    assert_eq!(drop_upright(&mut state, 19), TickOutcome::Landed { cleared: 4 });
    assert_eq!(state.score(), 4 * COLS as u32);
    assert!(state.settled_piece().elements.is_empty());
    assert_eq!(state.heights(), &[0i32; COLS]);
    assert_eq!(state.line_counts(), &[0u8; LINES]);
}

#[test]
fn rows_between_cleared_rows_fall_by_the_rows_below_them() {
    let mut state = GameState::with_selection(Selection::Always(Archetype::Long));
    // last row: columns 0 to 15
    for first_col in [0, 4, 8, 12] {
        assert_eq!(drop_flat(&mut state, first_col), TickOutcome::Landed { cleared: 0 });
    }
    // columns 16 to 18: rows 16 to 19
    for col in [16, 17, 18] {
        assert_eq!(drop_upright(&mut state, col), TickOutcome::Landed { cleared: 0 });
    }
    // row 18: columns 1 to 12
    for first_col in [1, 5, 9] {
        assert_eq!(drop_flat(&mut state, first_col), TickOutcome::Landed { cleared: 0 });
    }
    // row 17: columns 0 to 15, hanging over the gaps in row 18
    for first_col in [0, 4, 8, 12] {
        assert_eq!(drop_flat(&mut state, first_col), TickOutcome::Landed { cleared: 0 });
    }
    let mut counts = [0u8; LINES];
    counts[19] = 19;
    counts[18] = 15;
    counts[17] = 19;
    counts[16] = 3;
    assert_eq!(state.line_counts(), &counts);
    let mut heights = [3i32; COLS];
    heights[16] = 4;
    heights[17] = 4;
    heights[18] = 4;
    heights[19] = 0;
    assert_eq!(state.heights(), &heights);
    assert_eq!(state.settled_piece().elements.len(), 56);

    // the last column completes rows 17 and 19, not row 18
    assert_eq!(drop_upright(&mut state, 19), TickOutcome::Landed { cleared: 2 });

    assert_eq!(state.score(), 2 * COLS as u32);
    assert_eq!(state.settled_piece().elements.len(), 60 - 2 * COLS);
    // row 18 has come down one row, row 16 two rows
    let mut counts = [0u8; LINES];
    counts[19] = 16;
    counts[18] = 4;
    assert_eq!(state.line_counts(), &counts);
    let mut heights = [1i32; COLS];
    heights[0] = 0;
    for col in 13..16 {
        heights[col] = 0;
    }
    for col in 16..20 {
        heights[col] = 2;
    }
    assert_eq!(state.heights(), &heights);
    let mut expected = Vec::new();
    for col in 1..13 {
        expected.push((300 + 10 * col, 290));
    }
    for col in 16..20 {
        expected.push((300 + 10 * col, 280));
        expected.push((300 + 10 * col, 290));
    }
    expected.sort();
    assert_eq!(sorted_cells(state.settled_piece()), expected);
}

#[test]
fn settling_in_the_guard_zone_starts_the_game_afresh() {
    let mut state = board_with_one_gap();
    assert_eq!(drop_upright(&mut state, 19), TickOutcome::Landed { cleared: 1 });
    assert_eq!(state.score(), 20);
    for height in [4, 8, 12, 16] {
        assert_eq!(drop_piece(&mut state).1, TickOutcome::Landed { cleared: 0 });
        assert_eq!(state.heights()[10], height);
    }
    // the next piece has no room left to fall
    assert_eq!(state.tick(None), TickOutcome::ToppedOut { score: 20 });
    assert_eq!(state.score(), 0);
    assert!(state.settled_piece().elements.is_empty());
    assert_eq!(state.heights(), &[0i32; COLS]);
    assert_eq!(state.line_counts(), &[0u8; LINES]);
    assert_eq!(state.falling_piece(), &ShapeBuilder::long().build());
    assert_eq!(state.selection(), Selection::Always(Archetype::Long));
    // and play goes on
    assert_eq!(drop_piece(&mut state), (16, TickOutcome::Landed { cleared: 0 }));
}

#[test]
fn restart_reports_the_score_and_keeps_the_selection() {
    let mut state = board_with_one_gap();
    drop_upright(&mut state, 19);
    assert_eq!(state.restart(), 20);
    assert_eq!(state.score(), 0);
    assert!(state.settled_piece().elements.is_empty());
    assert_eq!(state.selection(), Selection::Always(Archetype::Long));
    assert_eq!(state.restart(), 0);
}

#[test]
fn selection_decides_the_next_piece() {
    let mut state = GameState::with_selection(Selection::Always(Archetype::Z));
    // the first piece is the long one whatever the selection
    assert_eq!(state.falling_piece(), &ShapeBuilder::long().build());
    drop_piece(&mut state);
    assert_eq!(state.falling_piece(), &ShapeBuilder::z().build());
    state.set_selection(Selection::Always(Archetype::Quad));
    assert_eq!(state.falling_piece(), &ShapeBuilder::z().build());
    press(&mut state, KeyCode::ArrowLeft, 5);
    drop_piece(&mut state);
    assert_eq!(state.falling_piece(), &ShapeBuilder::quad().build());
    state.next_piece();
    assert_eq!(state.falling_piece(), &ShapeBuilder::quad().build());
    state.spawn(Archetype::T);
    assert_eq!(state.falling_piece(), &ShapeBuilder::t().build());
}

#[test]
fn random_selection_spawns_pieces_of_the_catalog() {
    let catalog = [
        ShapeBuilder::long().build(),
        ShapeBuilder::quad().build(),
        ShapeBuilder::t().build(),
        ShapeBuilder::z().build(),
        ShapeBuilder::l().build(),
    ];
    let mut state = GameState::new();
    let mut seen = [false; 5];
    for _ in 0..200 {
        state.next_piece();
        let at = catalog.iter().position(|piece| piece == state.falling_piece());
        let at = at.expect("the piece is one of the five archetypes");
        seen[at] = true;
    }
    // two hundred draws leave none of the five out
    assert_eq!(seen, [true; 5]);
}

#[test]
fn random_game_keeps_its_books() {
    // whatever is drawn, a piece that lands adds its four units to the counters
    let mut state = GameState::new();
    let mut landed = 0;
    for _ in 0..400 {
        match state.tick(None) {
            TickOutcome::Falling => {},
            TickOutcome::Landed { cleared } => {
                landed += 1;
                assert_eq!(cleared, 0);
                let total: u32 = state.line_counts().iter().map(|c| *c as u32).sum();
                assert_eq!(total, 4 * landed);
                assert_eq!(state.settled_piece().elements.len() as u32, 4 * landed);
            },
            TickOutcome::ToppedOut { score } => {
                assert_eq!(score, 0);
                assert!(state.settled_piece().elements.is_empty());
                landed = 0;
            },
        }
        assert!(state.line_counts().iter().all(|c| (*c as usize) < COLS));
        assert!(state.heights().iter().all(|h| 0 <= *h && *h as usize <= LINES));
    }
}

#[test]
fn calculate_heights_reads_the_settled_material() {
    let mut state = GameState::with_selection(Selection::Always(Archetype::L));
    // the long piece first, then the angled one on top of it
    drop_piece(&mut state);
    drop_piece(&mut state);
    let before = *state.heights();
    assert_eq!(before[10], 7);
    assert_eq!(before[11], 5);
    state.calculate_heights();
    assert_eq!(state.heights(), &before);
}

#[test]
fn clear_lines_on_its_own() {
    let mut state = GameState::with_selection(Selection::Always(Archetype::Long));
    drop_piece(&mut state);
    // rows 17 and 19 are taken out from under the column of four
    state.clear_lines(&[17, 19]);
    assert_eq!(state.score(), 40);
    // what fell from row 16 goes back on the heap before what fell from row 18
    assert_eq!(cells(state.settled_piece()), vec![(400, 280), (400, 290)]);
    assert_eq!(state.heights()[10], 2);
    let mut counts = [0u8; LINES];
    // the counter of row 18 has come down to row 19, that of row 16 to row 18;
    // the counter of the cleared row 17 has followed as far as row 18 and was
    // overwritten there
    counts[19] = 1;
    counts[18] = 1;
    assert_eq!(state.line_counts(), &counts);
    state.clear_lines(&[]);
    assert_eq!(state.score(), 40);
    assert_eq!(cells(state.settled_piece()), vec![(400, 280), (400, 290)]);
}

#[test]
fn game_loop_plays_one_tick_per_sample() {
    let mut state = GameState::with_selection(Selection::Always(Archetype::Long));
    let samples = vec![
        b"\x1b[D".to_vec(),
        Vec::new(),
        b"l".to_vec(),
        b"\x1b".to_vec(),
        b"\x1b[Bkkk".to_vec(),
    ];
    let outcomes = game_loop(&mut state, &samples);
    assert_eq!(outcomes, vec![TickOutcome::Falling; 5]);
    assert_eq!(cells(state.falling_piece()), vec![(410, 130), (400, 130), (390, 130), (380, 130)]);
    assert_eq!(state.falling_piece().pivot, Point { x: 390, y: 130 });
}

#[test]
fn game_loop_reports_what_each_tick_did() {
    let mut state = GameState::with_selection(Selection::Always(Archetype::Long));
    let samples: Vec<Vec<u8>> = (0..28).map(|_| Vec::new()).collect();
    let outcomes = game_loop(&mut state, &samples);
    let mut expected = vec![TickOutcome::Falling; 28];
    expected[15] = TickOutcome::Landed { cleared: 0 };
    expected[27] = TickOutcome::Landed { cleared: 0 };
    assert_eq!(outcomes, expected);
    assert_eq!(state.heights()[10], 8);
    assert_eq!(game_loop(&mut state, &Vec::new()), Vec::new());
    assert_eq!(state.heights()[10], 8);
}

#[test]
fn turn_at_the_left_wall_leaves_the_falling_piece_alone() {
    let mut state = GameState::with_selection(Selection::Always(Archetype::Long));
    press(&mut state, KeyCode::ArrowLeft, 10);
    press(&mut state, KeyCode::ArrowDown, 3);
    let at_wall = state.falling_piece().clone();
    assert_eq!(cells(&at_wall), vec![(300, 160), (300, 150), (300, 140), (300, 130)]);
    // one more step to the left is rejected, twice as well as once
    press(&mut state, KeyCode::ArrowLeft, 2);
    assert_eq!(state.falling_piece(), &at_wall);
    // either turn would reach over the wall
    press(&mut state, KeyCode::Char('l'), 1);
    assert_eq!(state.falling_piece(), &at_wall);
    press(&mut state, KeyCode::Char('k'), 1);
    assert_eq!(state.falling_piece(), &at_wall);
}

#[test]
fn height_of_a_column_is_set_by_the_unit_listed_last() {
    // upright as it spawns, the long piece lists its units from the bottom up
    let mut upright = GameState::with_selection(Selection::Always(Archetype::Long));
    drop_piece(&mut upright);
    assert_eq!(upright.heights()[10], 4);

    // after two quarter turns it lists them from the top down
    let mut turned = GameState::with_selection(Selection::Always(Archetype::Long));
    press(&mut turned, KeyCode::ArrowDown, 5);
    press(&mut turned, KeyCode::Char('l'), 2);
    assert_eq!(cells(turned.falling_piece()), vec![(400, 140), (400, 150), (400, 160), (400, 170)]);
    assert_eq!(drop_piece(&mut turned).1, TickOutcome::Landed { cleared: 0 });
    assert_eq!(cells(turned.settled_piece()), vec![(400, 260), (400, 270), (400, 280), (400, 290)]);
    assert_eq!(turned.heights()[10], 1);
    // working the heights out afresh finds the top of the column
    turned.calculate_heights();
    assert_eq!(turned.heights()[10], 4);
}

#[test]
fn counter_goes_back_to_zero_when_its_row_gets_full() {
    let mut state = board_with_one_gap();
    assert_eq!(state.line_counts()[19], 19);
    // the last unit of the row arrives alone in its column
    press(&mut state, KeyCode::ArrowRight, 9);
    for _ in 0..15 {
        assert_eq!(state.tick(None), TickOutcome::Falling);
        assert_eq!(state.line_counts()[19], 19);
    }
    assert_eq!(state.tick(None), TickOutcome::Landed { cleared: 1 });
    // the cleared row has made room for the row above it, which held four units
    assert_eq!(state.line_counts()[19], 4);
    assert_eq!(state.line_counts()[16], 0);
    assert!(state.line_counts().iter().all(|count| (*count as usize) < COLS));
}

#[test]
fn any_sequence_of_keys_keeps_the_board_well_formed() {
    let keys = [
        Some(KeyCode::ArrowDown),
        Some(KeyCode::ArrowLeft),
        Some(KeyCode::ArrowRight),
        Some(KeyCode::Char('k')),
        Some(KeyCode::Char('l')),
        Some(KeyCode::Esc),
        None,
        None,
    ];
    let mut state = GameState::new();
    let mut seed: u32 = 2463534242;
    let mut landings = 0;
    let mut losses = 0;
    for _ in 0..20000 {
        seed ^= seed << 13;
        seed ^= seed >> 17;
        seed ^= seed << 5;
        let key = keys[(seed % 8) as usize];
        let score_before = state.score();
        match state.tick(key.as_ref()) {
            TickOutcome::Falling => assert_eq!(state.score(), score_before),
            TickOutcome::Landed { cleared } => {
                landings += 1;
                assert!(cleared <= 4);
                assert_eq!(state.score(), score_before + (cleared * COLS) as u32);
            },
            TickOutcome::ToppedOut { score } => {
                losses += 1;
                assert_eq!(score, score_before);
                assert_eq!(state.score(), 0);
                assert!(state.settled_piece().elements.is_empty());
            },
        }
        assert_eq!(state.falling_piece().elements.len(), 4);
        for unit in state.falling_piece().elements.iter().chain(state.settled_piece().elements.iter()) {
            assert!(unit.is_in_bounds());
            assert_eq!((unit.x - 300) % 10, 0);
            assert_eq!((unit.y - 100) % 10, 0);
        }
        assert!(state.line_counts().iter().all(|count| (*count as usize) < COLS));
        assert!(state.heights().iter().all(|height| 0 <= *height && *height as usize <= LINES));
    }
    assert!(landings > 100);
    assert!(losses > 0);
}

#[test]
fn without_turns_the_heights_are_always_exact() {
    let keys = [Some(KeyCode::ArrowDown), Some(KeyCode::ArrowLeft), Some(KeyCode::ArrowRight), None];
    let mut state = GameState::new();
    let mut seed: u32 = 88172645;
    for _ in 0..20000 {
        seed ^= seed << 13;
        seed ^= seed >> 17;
        seed ^= seed << 5;
        let key = keys[(seed % 4) as usize];
        state.tick(key.as_ref());
        let mut heights = [0i32; COLS];
        let mut counts = [0u8; LINES];
        for unit in state.settled_piece().elements.iter() {
            let height = (LINES - unit.row_index()) as i32;
            if heights[unit.col_index()] < height {
                heights[unit.col_index()] = height;
            }
            counts[unit.row_index()] += 1;
        }
        assert_eq!(state.heights(), &heights);
        assert_eq!(state.line_counts(), &counts);
    }
    assert_eq!(state.score() as usize % COLS, 0);
}
