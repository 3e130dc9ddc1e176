use tinytetris::catalog::{Archetype, ShapeBuilder};
use tinytetris::grid::{Color, Point, PrimitiveBox, Rectangle, Size};
use tinytetris::shape::{Direction, Rotation, Shape};

fn positions(shape: &Shape) -> Vec<(i32, i32)> {
    shape.elements.iter().map(|u| (u.x, u.y)).collect()
}

fn sorted_positions(shape: &Shape) -> Vec<(i32, i32)> {
    let mut all = positions(shape);
    all.sort();
    all
}

fn never(_: &PrimitiveBox) -> bool {
    false
}

#[test]
fn catalog_long() {
    let s = ShapeBuilder::long().build();
    assert_eq!(positions(&s), vec![(400, 130), (400, 120), (400, 110), (400, 100)]);
    assert_eq!(s.pivot, Point { x: 400, y: 110 });
    assert!(s.elements.iter().all(|u| u.color == Color::Red));
}

#[test]
fn catalog_quad() {
    let s = ShapeBuilder::quad().build();
    assert_eq!(positions(&s), vec![(400, 110), (410, 110), (400, 100), (410, 100)]);
    assert_eq!(s.pivot, Point { x: 400, y: 100 });
    assert!(s.elements.iter().all(|u| u.color == Color::Green));
}

#[test]
fn catalog_t() {
    let s = ShapeBuilder::t().build();
    assert_eq!(positions(&s), vec![(400, 110), (410, 110), (390, 110), (400, 100)]);
    assert_eq!(s.pivot, Point { x: 400, y: 100 });
    assert!(s.elements.iter().all(|u| u.color == Color::Magenta));
}

#[test]
fn catalog_z() {
    let s = ShapeBuilder::z().build();
    assert_eq!(positions(&s), vec![(410, 110), (420, 110), (400, 100), (410, 100)]);
    assert_eq!(s.pivot, Point { x: 410, y: 100 });
    assert!(s.elements.iter().all(|u| u.color == Color::Blue));
}

#[test]
fn catalog_l() {
    let s = ShapeBuilder::l().build();
    assert_eq!(positions(&s), vec![(400, 120), (410, 120), (400, 110), (400, 100)]);
    assert_eq!(s.pivot, Point { x: 400, y: 110 });
    assert!(s.elements.iter().all(|u| u.color == Color::Yellow));
}

#[test]
fn catalog_by_archetype_and_index() {
    assert_eq!(Archetype::from_index(0), Archetype::Long);
    assert_eq!(Archetype::from_index(1), Archetype::Quad);
    assert_eq!(Archetype::from_index(2), Archetype::T);
    assert_eq!(Archetype::from_index(3), Archetype::Z);
    assert_eq!(Archetype::from_index(4), Archetype::L);
    assert_eq!(ShapeBuilder::of(Archetype::Z).build(), ShapeBuilder::z().build());
    assert_eq!(ShapeBuilder::of(Archetype::Long).build(), ShapeBuilder::long().build());
    assert_ne!(ShapeBuilder::of(Archetype::L).build(), ShapeBuilder::t().build());
}

#[test]
fn with_color_recolours_every_unit() {
    let s = ShapeBuilder::t().with_color(Color::Yellow).build();
    assert_eq!(positions(&s), vec![(400, 110), (410, 110), (390, 110), (400, 100)]);
    assert_eq!(s.pivot, Point { x: 400, y: 100 });
    assert!(s.elements.iter().all(|u| u.color == Color::Yellow));
}

#[test]
fn new_puts_the_pivot_at_the_snapped_centre() {
    let s = Shape::new(vec![
        PrimitiveBox::new(300, 100, Color::Red),
        PrimitiveBox::new(330, 100, Color::Red),
    ]);
    assert_eq!(s.pivot, Point { x: 310, y: 100 });
    let single = Shape::new(vec![PrimitiveBox::new(490, 290, Color::Red)]);
    assert_eq!(single.pivot, Point { x: 490, y: 290 });
    let none = Shape::new(Vec::new());
    assert_eq!(none.pivot, Point { x: 0, y: 0 });
    assert_eq!(none, Shape::default());
}

#[test]
fn directional_queries() {
    let s = ShapeBuilder::t().build();
    assert_eq!(s.leftmost().map(|u| (u.x, u.y)), Some((390, 110)));
    assert_eq!(s.rightmost().map(|u| (u.x, u.y)), Some((410, 110)));
    assert_eq!(s.highest().map(|u| (u.x, u.y)), Some((400, 100)));
    // three units share the lowest row: the first of them is reported
    assert_eq!(s.lowest().map(|u| (u.x, u.y)), Some((400, 110)));
    let empty = Shape::default();
    assert_eq!(empty.leftmost(), None);
    assert_eq!(empty.rightmost(), None);
    assert_eq!(empty.highest(), None);
    assert_eq!(empty.lowest(), None);
}

#[test]
fn extreme_stops_short_when_told_to() {
    let s = ShapeBuilder::long().build();
    let higher = |held: &PrimitiveBox, next: &PrimitiveBox| next.y < held.y;
    let found = s.extreme(higher, |held: &PrimitiveBox| held.y == 120);
    assert_eq!(found.map(|u| u.y), Some(120));
    let found = s.extreme(higher, never);
    assert_eq!(found.map(|u| u.y), Some(100));
    let found = s.extreme(|_: &PrimitiveBox, _: &PrimitiveBox| false, never);
    assert_eq!(found.map(|u| u.y), Some(130));
    assert_eq!(Shape::default().extreme(higher, never), None);
}

#[test]
fn bounding_box_and_corner() {
    let s = ShapeBuilder::t().build();
    assert_eq!(
        s.bounding_box(),
        Rectangle { top_left: Point { x: 390, y: 100 }, size: Size { width: 30, height: 20 } }
    );
    assert_eq!(s.top_left(), Point { x: 390, y: 100 });
    let l = ShapeBuilder::long().build();
    assert_eq!(
        l.bounding_box(),
        Rectangle { top_left: Point { x: 400, y: 100 }, size: Size { width: 10, height: 40 } }
    );
    assert_eq!(Shape::default().bounding_box(), Rectangle::zero());
}

#[test]
fn move_shifts_units_and_pivot() {
    let mut s = ShapeBuilder::l().build();
    assert_eq!(s.left(), Some(()));
    assert_eq!(positions(&s), vec![(390, 120), (400, 120), (390, 110), (390, 100)]);
    assert_eq!(s.pivot, Point { x: 390, y: 110 });
    assert_eq!(s.down(), Some(()));
    assert_eq!(positions(&s), vec![(390, 130), (400, 130), (390, 120), (390, 110)]);
    assert_eq!(s.pivot, Point { x: 390, y: 120 });
    assert_eq!(s.right(), Some(()));
    assert_eq!(s.right(), Some(()));
    assert_eq!(positions(&s), vec![(410, 130), (420, 130), (410, 120), (410, 110)]);
    assert_eq!(s.pivot, Point { x: 410, y: 120 });
    assert_eq!(s.translate(Direction::Down), Some(()));
    assert_eq!(s.pivot, Point { x: 410, y: 130 });
}

#[test]
fn move_of_an_empty_piece_is_rejected() {
    let mut s = Shape::default();
    assert_eq!(s.left(), None);
    assert_eq!(s.right(), None);
    assert_eq!(s.down(), None);
    assert_eq!(s, Shape::default());
}

#[test]
fn rejected_move_changes_nothing_however_often_it_is_tried() {
    let mut s = ShapeBuilder::long().build();
    for _ in 0..10 {
        assert_eq!(s.left(), Some(()));
    }
    assert_eq!(positions(&s), vec![(300, 130), (300, 120), (300, 110), (300, 100)]);
    let at_wall = s.clone();
    assert_eq!(s.left(), None);
    assert_eq!(s, at_wall);
    assert_eq!(s.left(), None);
    assert_eq!(s, at_wall);
    assert_eq!(s.left_checked(never), None);
    assert_eq!(s, at_wall);
}

#[test]
fn moves_stop_at_the_right_wall_and_the_floor() {
    let mut s = ShapeBuilder::quad().build();
    let mut steps = 0;
    while s.right().is_some() {
        steps += 1;
    }
    assert_eq!(steps, 8);
    assert_eq!(positions(&s), vec![(480, 110), (490, 110), (480, 100), (490, 100)]);
    let mut falls = 0;
    while s.down().is_some() {
        falls += 1;
    }
    assert_eq!(falls, 18);
    assert_eq!(positions(&s), vec![(480, 290), (490, 290), (480, 280), (490, 280)]);
    assert_eq!(s.pivot, Point { x: 480, y: 280 });
}

#[test]
fn checked_move_asks_the_predicate_about_the_moved_units() {
    let mut s = ShapeBuilder::long().build();
    let before = s.clone();
    // the column to the left is taken from y = 120 downwards
    let blocked = |u: &PrimitiveBox| u.x == 390 && u.y >= 120;
    assert_eq!(s.left_checked(blocked), None);
    assert_eq!(s, before);
    // the column to the right is free
    assert_eq!(s.right_checked(blocked), Some(()));
    assert_eq!(positions(&s), vec![(410, 130), (410, 120), (410, 110), (410, 100)]);
    assert_eq!(s.pivot, Point { x: 410, y: 110 });
    assert_eq!(s.translate_checked(Direction::Down, never), Some(()));
    assert_eq!(positions(&s), vec![(410, 140), (410, 130), (410, 120), (410, 110)]);
}

#[test]
fn clockwise_turn_takes_the_offset_x_y_to_y_minus_x() {
    let mut s = ShapeBuilder::long().build();
    assert_eq!(s.rotate_clockwise(never), Some(()));
    assert_eq!(positions(&s), vec![(420, 110), (410, 110), (400, 110), (390, 110)]);
    assert_eq!(s.pivot, Point { x: 400, y: 110 });
}

#[test]
fn counterclockwise_turn_takes_the_offset_x_y_to_minus_y_x() {
    let mut s = ShapeBuilder::long().build();
    assert_eq!(s.rotate_counterclockwise(never), Some(()));
    assert_eq!(positions(&s), vec![(380, 110), (390, 110), (400, 110), (410, 110)]);
    assert_eq!(s.pivot, Point { x: 400, y: 110 });
}

#[test]
fn four_quarter_turns_bring_a_piece_back() {
    let mut s = ShapeBuilder::l().build();
    for _ in 0..3 {
        assert_eq!(s.down(), Some(()));
    }
    let start = s.clone();
    assert_eq!(s.rotate(never, Rotation::Clockwise), Some(()));
    assert_eq!(positions(&s), vec![(410, 140), (410, 130), (400, 140), (390, 140)]);
    assert_eq!(s.rotate(never, Rotation::Clockwise), Some(()));
    assert_eq!(s.rotate(never, Rotation::Clockwise), Some(()));
    assert_eq!(s.rotate(never, Rotation::Clockwise), Some(()));
    assert_eq!(s, start);
    assert_eq!(s.rotate(never, Rotation::Counterclockwise), Some(()));
    assert_eq!(s.rotate(never, Rotation::Clockwise), Some(()));
    assert_eq!(s, start);
}

#[test]
fn turn_that_would_leave_through_the_top_is_rejected() {
    let mut s = ShapeBuilder::t().build();
    let before = s.clone();
    assert_eq!(s.rotate_clockwise(never), None);
    assert_eq!(s, before);
    assert_eq!(s.rotate_counterclockwise(never), None);
    assert_eq!(s, before);
}

#[test]
fn turn_flush_against_the_left_wall_is_rejected() {
    let mut s = ShapeBuilder::long().build();
    for _ in 0..10 {
        assert_eq!(s.left(), Some(()));
    }
    for _ in 0..5 {
        assert_eq!(s.down(), Some(()));
    }
    let before = s.clone();
    assert_eq!(positions(&before), vec![(300, 180), (300, 170), (300, 160), (300, 150)]);
    assert_eq!(s.rotate_clockwise(never), None);
    assert_eq!(s, before);
    assert_eq!(s.rotate_counterclockwise(never), None);
    assert_eq!(s, before);
    assert_eq!(positions(&s), positions(&before));
    assert_eq!(s.pivot, before.pivot);
}

#[test]
fn blocked_turn_is_rejected_as_a_whole() {
    let mut s = ShapeBuilder::long().build();
    let before = s.clone();
    // only the last of the four turned units is blocked
    assert_eq!(s.rotate_clockwise(|u: &PrimitiveBox| u.x == 390 && u.y == 110), None);
    assert_eq!(s, before);
    assert_eq!(s.rotate_clockwise(|u: &PrimitiveBox| u.x == 390 && u.y == 120), Some(()));
    assert_ne!(s, before);
}

#[test]
fn turn_of_an_empty_piece_succeeds_and_changes_nothing() {
    let mut s = Shape::default();
    assert_eq!(s.rotate_clockwise(never), Some(()));
    assert_eq!(s, Shape::default());
}

#[test]
fn merge_appends_the_units() {
    let mut s = ShapeBuilder::quad().build();
    let mut other = ShapeBuilder::long().build();
    for _ in 0..4 {
        other.left();
    }
    s.merge(other);
    assert_eq!(
        positions(&s),
        vec![
            (400, 110),
            (410, 110),
            (400, 100),
            (410, 100),
            (360, 130),
            (360, 120),
            (360, 110),
            (360, 100)
        ]
    );
    assert_eq!(s.pivot, Point { x: 400, y: 100 });
}

#[test]
fn split_takes_out_what_is_strictly_above_the_line() {
    let mut s = ShapeBuilder::long().build();
    let above = s.split_at_y(120).expect("two units lie above the line");
    assert_eq!(positions(&above), vec![(400, 110), (400, 100)]);
    assert_eq!(above.pivot, Point { x: 0, y: 0 });
    assert_eq!(positions(&s), vec![(400, 130), (400, 120)]);
    assert_eq!(s.pivot, Point { x: 400, y: 110 });
}

#[test]
fn split_returns_nothing_when_nothing_is_above() {
    let mut s = ShapeBuilder::long().build();
    let before = s.clone();
    assert_eq!(s.split_at_y(100), None);
    assert_eq!(s, before);
    assert_eq!(s.split_at_y(50), None);
    assert_eq!(s, before);
}

#[test]
fn split_of_everything_leaves_an_empty_piece() {
    let mut s = ShapeBuilder::z().build();
    let above = s.split_at_y(300).expect("all units lie above the floor");
    assert_eq!(positions(&above), vec![(410, 110), (420, 110), (400, 100), (410, 100)]);
    assert!(s.elements.is_empty());
    assert_eq!(s.pivot, Point { x: 410, y: 100 });
}

#[test]
fn split_then_merge_gives_back_the_same_units() {
    for y in [100, 110, 120, 130, 140] {
        let whole = ShapeBuilder::l().build();
        let mut s = whole.clone();
        if let Some(above) = s.split_at_y(y) {
            s.merge(above);
        }
        assert_eq!(sorted_positions(&s), sorted_positions(&whole));
        assert_eq!(s.elements.len(), whole.elements.len());
    }
}

#[test]
fn remove_deletes_what_the_condition_accepts() {
    let mut s = ShapeBuilder::t().build();
    s.remove(|u: &PrimitiveBox| u.y == 110);
    assert_eq!(positions(&s), vec![(400, 100)]);
    assert_eq!(s.pivot, Point { x: 400, y: 100 });
    let mut l = ShapeBuilder::l().build();
    l.remove(|u: &PrimitiveBox| u.x == 400 && u.y != 110);
    assert_eq!(positions(&l), vec![(410, 120), (400, 110)]);
    l.remove(never);
    assert_eq!(positions(&l), vec![(410, 120), (400, 110)]);
    l.remove(|_: &PrimitiveBox| true);
    assert!(l.elements.is_empty());
}

#[test]
fn duplicate_is_equal() {
    let s = ShapeBuilder::z().build();
    assert_eq!(s.duplicate(), s);
}
