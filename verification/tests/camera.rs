use counterpuncher::camera::const_max;
use counterpuncher::gui::{position_box, BoxPlacement, CONSOLE_HEIGHT, CONSOLE_WIDTH};
use counterpuncher::{Camera, CameraIterator, Point};

#[test]
fn the_larger_of_two() {
    assert_eq!(const_max(41, 0), 41);
    assert_eq!(const_max(-3, 0), 0);
    assert_eq!(const_max(7, 7), 7);
}

#[test]
fn the_view_is_centred_as_far_as_the_map_allows() {
    let mut camera = Camera { origin: Point::new(0, 0) };
    camera.update(Point::new(60, 60));
    assert_eq!(camera.origin, Point::new(21, 35));
    camera.update(Point::new(5, 5));
    assert_eq!(camera.origin, Point::new(0, 0));
    camera.update(Point::new(119, 119));
    assert_eq!(camera.origin, Point::new(41, 70));
    camera.update(Point::new(i32::MIN, i32::MAX));
    assert_eq!(camera.origin, Point::new(0, 70));
    camera.update(Point::new(39, 25));
    assert_eq!(camera.origin, Point::new(0, 0));
    camera.update(Point::new(40, 26));
    assert_eq!(camera.origin, Point::new(1, 1));
}

#[test]
fn what_is_on_screen() {
    let camera = Camera { origin: Point::new(21, 35) };
    assert!(camera.on_screen(Point::new(21, 35)));
    assert!(camera.on_screen(Point::new(99, 84)));
    assert!(!camera.on_screen(Point::new(100, 84)));
    assert!(!camera.on_screen(Point::new(99, 85)));
    assert!(!camera.on_screen(Point::new(20, 35)));
    assert!(!camera.on_screen(Point::new(21, 34)));
    let far = Camera { origin: Point::new(i32::MAX, i32::MAX) };
    assert!(far.on_screen(Point::new(i32::MAX, i32::MAX)));
}

#[test]
fn the_walk_goes_row_by_row() {
    let camera = Camera { origin: Point::new(2, 3) };
    let mut walk = camera.iter();
    assert_eq!(walk.next(), Some(3 * 120 + 2));
    assert_eq!(walk.next(), Some(3 * 120 + 3));
    for _ in 2..79 {
        walk.next();
    }
    assert_eq!(walk.next(), Some(4 * 120 + 2));
    let mut count = 80;
    let mut last = 0;
    while let Some(index) = walk.next() {
        count += 1;
        last = index;
    }
    assert_eq!(count, 79 * 50);
    assert_eq!(last, 52 * 120 + 80);
    assert_eq!(walk.next(), None);
    assert_eq!(walk.next(), None);
}

#[test]
fn a_walk_from_the_far_corner() {
    let mut walk = CameraIterator::new(Point::new(41, 70));
    let mut all = vec![];
    while let Some(index) = walk.next() {
        all.push(index);
    }
    assert_eq!(all.len(), 79 * 50);
    assert_eq!(all[0], 70 * 120 + 41);
    assert_eq!(all[all.len() - 1], 119 * 120 + 119);
    assert!(all.windows(2).all(|w| w[0] < w[1]));
}

#[test]
fn a_box_goes_where_the_screen_has_room() {
    assert_eq!((CONSOLE_WIDTH, CONSOLE_HEIGHT), (97, 67));
    assert_eq!(position_box(20, 10, 15, 10), BoxPlacement { x: 21, y: 10, right: true, down: true });
    assert_eq!(position_box(20, 45, 15, 10), BoxPlacement { x: 21, y: 35, right: true, down: false });
    assert_eq!(position_box(90, 10, 15, 10), BoxPlacement { x: 74, y: 10, right: false, down: true });
    assert_eq!(position_box(90, 45, 15, 10), BoxPlacement { x: 74, y: 35, right: false, down: false });
    // the last column and row that still leave room
    assert_eq!(position_box(80, 39, 15, 10), BoxPlacement { x: 81, y: 39, right: true, down: true });
    assert_eq!(position_box(81, 40, 15, 10), BoxPlacement { x: 65, y: 30, right: false, down: false });
}
