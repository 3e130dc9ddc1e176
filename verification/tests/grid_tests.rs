use tinytetris::grid::{
    snap_coordinate, snap_to_grid, Color, Point, PrimitiveBox, Rectangle, Size, COLS, GRANULE_SIZE,
    LINES, MAX_X, MAX_Y, X_ANCHOR, Y_ANCHOR,
};

#[test]
fn field_is_twenty_by_twenty_granules() {
    assert_eq!(LINES as i32 * GRANULE_SIZE, MAX_Y - Y_ANCHOR);
    assert_eq!(COLS as i32 * GRANULE_SIZE, MAX_X - X_ANCHOR);
    assert_eq!(LINES, 20);
    assert_eq!(COLS, 20);
}

#[test]
fn snap_with_scaler_one_falls_back_to_the_line_before() {
    let mut p = Point { x: 409, y: 114 };
    snap_to_grid(&mut p, 1);
    assert_eq!(p, Point { x: 400, y: 110 });

    let mut q = Point { x: 400, y: 119 };
    snap_to_grid(&mut q, 1);
    assert_eq!(q, Point { x: 400, y: 110 });
}

#[test]
fn snap_with_scaler_two_goes_to_the_nearest_line() {
    let mut p = Point { x: 404, y: 405 };
    snap_to_grid(&mut p, 2);
    assert_eq!(p, Point { x: 400, y: 410 });

    let mut q = Point { x: 820, y: 239 };
    snap_to_grid(&mut q, 2);
    assert_eq!(q, Point { x: 820, y: 240 });
}

#[test]
fn snap_of_negative_coordinates_goes_towards_zero() {
    assert_eq!(snap_coordinate(-14, 2), -10);
    assert_eq!(snap_coordinate(-19, 1), -10);
    assert_eq!(snap_coordinate(-20, 2), -20);
}

#[test]
fn snap_with_a_large_scaler_always_moves_forward() {
    // the threshold is the granule divided by the scaler: zero here
    assert_eq!(snap_coordinate(12, 11), 20);
    assert_eq!(snap_coordinate(20, 11), 30);
}

#[test]
fn center_of_a_rectangle() {
    let r = Rectangle { top_left: Point { x: 400, y: 100 }, size: Size { width: 10, height: 40 } };
    assert_eq!(r.center(), Point { x: 404, y: 119 });
    let s = Rectangle { top_left: Point { x: 10, y: 20 }, size: Size { width: 3, height: 4 } };
    assert_eq!(s.center(), Point { x: 11, y: 21 });
    assert_eq!(Rectangle::zero().center(), Point { x: 0, y: 0 });
}

#[test]
fn unit_moves_by_one_granule() {
    let mut u = PrimitiveBox::new(400, 100, Color::Red);
    assert_eq!(u.left(), Some(()));
    assert_eq!((u.x, u.y), (390, 100));
    assert_eq!(u.right(), Some(()));
    assert_eq!(u.right(), Some(()));
    assert_eq!((u.x, u.y), (410, 100));
    assert_eq!(u.down(), Some(()));
    assert_eq!((u.x, u.y), (410, 110));
    assert_eq!(u.color, Color::Red);
}

#[test]
fn unit_bounds() {
    assert!(PrimitiveBox::new(300, 100, Color::Blue).is_in_bounds());
    assert!(PrimitiveBox::new(490, 290, Color::Blue).is_in_bounds());
    assert!(!PrimitiveBox::new(290, 100, Color::Blue).is_in_bounds());
    assert!(!PrimitiveBox::new(500, 100, Color::Blue).is_in_bounds());
    assert!(!PrimitiveBox::new(300, 90, Color::Blue).is_in_bounds());
    assert!(!PrimitiveBox::new(300, 300, Color::Blue).is_in_bounds());
    assert!(!PrimitiveBox::new(i32::MAX, i32::MAX, Color::Blue).is_in_bounds());
}

#[test]
fn unit_rows_and_columns() {
    let u = PrimitiveBox::new(300, 100, Color::Green);
    assert_eq!((u.row_index(), u.col_index()), (0, 0));
    let v = PrimitiveBox::new(490, 290, Color::Green);
    assert_eq!((v.row_index(), v.col_index()), (19, 19));
    let w = PrimitiveBox::new(400, 120, Color::Green);
    assert_eq!((w.row_index(), w.col_index()), (2, 10));
}

#[test]
fn unit_corner_and_box() {
    let u = PrimitiveBox::new(320, 150, Color::Yellow);
    assert_eq!(u.top_left(), Point { x: 320, y: 150 });
    assert_eq!(
        u.bounding_box(),
        Rectangle { top_left: Point { x: 320, y: 150 }, size: Size { width: 10, height: 10 } }
    );
}
