use counterpuncher::geometry::manhattan_distance;
use counterpuncher::{Direction, Point, Rect};

#[test]
fn manhattan_counts_cardinal_steps() {
    assert_eq!(manhattan_distance(Point::new(1, 2), Point::new(4, 0)), 5);
    assert_eq!(manhattan_distance(Point::new(4, 0), Point::new(1, 2)), 5);
    assert_eq!(manhattan_distance(Point::new(3, 3), Point::new(3, 3)), 0);
}

#[test]
fn manhattan_spans_the_whole_coordinate_range() {
    let far = manhattan_distance(Point::new(i32::MIN, i32::MIN), Point::new(i32::MAX, i32::MAX));
    assert_eq!(far, 2 * (u32::MAX as u64));
}

#[test]
fn direction_follows_the_larger_gap() {
    let from = Point::new(5, 5);
    assert_eq!(Direction::get_direction_towards(from, Point::new(9, 6)), Some(Direction::E));
    assert_eq!(Direction::get_direction_towards(from, Point::new(1, 6)), Some(Direction::W));
    assert_eq!(Direction::get_direction_towards(from, Point::new(6, 9)), Some(Direction::S));
    assert_eq!(Direction::get_direction_towards(from, Point::new(6, 1)), Some(Direction::N));
}

#[test]
fn direction_of_a_diagonal_is_vertical() {
    let from = Point::new(5, 5);
    assert_eq!(Direction::get_direction_towards(from, Point::new(7, 7)), Some(Direction::S));
    assert_eq!(Direction::get_direction_towards(from, Point::new(3, 3)), Some(Direction::N));
}

#[test]
fn direction_to_the_same_tile_is_none() {
    let from = Point::new(5, 5);
    assert_eq!(Direction::get_direction_towards(from, from), None);
}

#[test]
fn direction_survives_extreme_gaps() {
    let west = Point::new(i32::MIN, 0);
    let east = Point::new(i32::MAX, 0);
    assert_eq!(Direction::get_direction_towards(west, east), Some(Direction::E));
    assert_eq!(Direction::get_direction_towards(east, west), Some(Direction::W));
}

#[test]
fn point_in_direction_takes_one_step() {
    let from = Point::new(5, 5);
    assert_eq!(Direction::point_in_direction(from, Direction::N), Point::new(5, 4));
    assert_eq!(Direction::point_in_direction(from, Direction::E), Point::new(6, 5));
    assert_eq!(Direction::point_in_direction(from, Direction::S), Point::new(5, 6));
    assert_eq!(Direction::point_in_direction(from, Direction::W), Point::new(4, 5));
}

#[test]
fn a_step_and_its_direction_agree() {
    let from = Point::new(-3, 8);
    for direction in [Direction::N, Direction::E, Direction::S, Direction::W] {
        let to = Direction::point_in_direction(from, direction);
        assert_eq!(Direction::get_direction_towards(from, to), Some(direction));
        assert_eq!(manhattan_distance(from, to), 1);
    }
}

#[test]
fn checked_shift_refuses_to_leave_the_type() {
    assert_eq!(Point::new(i32::MAX, 0).checked_shift(Point::new(1, 0)), None);
    assert_eq!(Point::new(0, i32::MIN).checked_shift(Point::new(0, -1)), None);
    assert_eq!(Point::new(2, 3).checked_shift(Point::new(-5, 4)), Some(Point::new(-3, 7)));
    assert_eq!(Point::new(2, 3).shift(Point::new(-5, 4)), Point::new(-3, 7));
}

#[test]
fn rect_with_size_reaches_w_and_h_further() {
    let rect = Rect::with_size(3, 4, 20, 10);
    assert_eq!(rect, Rect { x1: 3, x2: 23, y1: 4, y2: 14 });
    assert_eq!(rect.center(), Point::new(13, 9));
}

#[test]
fn rect_center_rounds_towards_zero() {
    assert_eq!(Rect { x1: -3, x2: 0, y1: -7, y2: 2 }.center(), Point::new(-1, -2));
    assert_eq!(Rect { x1: 0, x2: 3, y1: 2, y2: 7 }.center(), Point::new(1, 4));
    assert_eq!(
        Rect { x1: i32::MAX, x2: i32::MAX, y1: i32::MIN, y2: i32::MIN }.center(),
        Point::new(i32::MAX, i32::MIN)
    );
}

#[test]
fn rects_that_share_an_edge_intersect() {
    let a = Rect { x1: 0, x2: 5, y1: 0, y2: 5 };
    assert!(a.intersect(&Rect { x1: 5, x2: 9, y1: 5, y2: 9 }));
    assert!(!a.intersect(&Rect { x1: 6, x2: 9, y1: 0, y2: 5 }));
    assert!(!a.intersect(&Rect { x1: 0, x2: 5, y1: 6, y2: 9 }));
    assert!(a.has(Point::new(5, 0)));
    assert!(!a.has(Point::new(6, 0)));
}
