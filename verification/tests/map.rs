use counterpuncher::{Direction, MonsterPart, MultiTile, Point, Rect, TileMap, TileType};
use std::collections::HashMap;

/// A map whose inside is floor and whose border is wall.
fn open_map(width: i32, height: i32) -> TileMap {
    let mut map = TileMap::new(width, height, 1);
    map.build_room(Rect { x1: 1, x2: width - 2, y1: 1, y2: height - 2 });
    map.set_blocked_tiles();
    map
}

fn two_parts() -> MultiTile {
    MultiTile {
        part_list: vec![
            MonsterPart { symbol_map: vec![(Point::new(-1, 0), 1)], health: 1, max_health: 1 },
            MonsterPart { symbol_map: vec![(Point::new(0, 1), 2)], health: 1, max_health: 1 },
        ],
        facing: Direction::N,
        bounds: Rect { x1: -1, x2: 0, y1: 0, y2: 1 },
    }
}

fn blocked_agrees(map: &TileMap) -> bool {
    (0..map.tiles.len()).all(|t| {
        map.blocked_tiles[t] == (map.tiles[t] == TileType::Wall || map.creature_map.contains_key(&t))
    })
}

fn snapshot(map: &TileMap) -> (HashMap<usize, usize>, Vec<bool>) {
    (map.creature_map.clone(), map.blocked_tiles.clone())
}

#[test]
fn a_new_map_is_all_wall() {
    let map = TileMap::new(7, 5, 3);
    assert_eq!(map.tiles.len(), 35);
    assert!(map.tiles.iter().all(|t| *t == TileType::Wall));
    assert!(map.blocked_tiles.iter().all(|b| *b));
    assert!(map.known_tiles.iter().all(|b| !*b));
    assert!(map.visible_tiles.iter().all(|b| !*b));
    assert!(map.creature_map.is_empty());
    assert!(map.item_map.is_empty());
    assert_eq!((map.width, map.height, map.depth, map.level_exit), (7, 5, 3, 0));
}

#[test]
fn tiles_are_numbered_row_by_row() {
    let map = open_map(30, 20);
    assert_eq!(map.get_index(0, 0), 0);
    assert_eq!(map.get_index(29, 0), 29);
    assert_eq!(map.get_index(0, 1), 30);
    assert_eq!(map.get_index(10, 10), 310);
    assert_eq!(map.get_index(29, 19), 599);
    assert_eq!(map.point2d_to_index(Point::new(11, 10)), 311);
    assert_eq!(map.index_to_point2d(311), Point::new(11, 10));
    assert_eq!(map.index_to_point2d(599), Point::new(29, 19));
}

#[test]
fn walls_are_opaque() {
    let map = open_map(10, 10);
    assert!(map.is_opaque(0));
    assert!(!map.is_opaque(11));
}

#[test]
fn a_room_is_floor_inside_and_wall_outside() {
    let mut map = TileMap::new(12, 12, 1);
    map.build_room(Rect { x1: 2, x2: 4, y1: 3, y2: 5 });
    for y in 0..12 {
        for x in 0..12 {
            let inside = (2..=4).contains(&x) && (3..=5).contains(&y);
            let want = if inside { TileType::Floor } else { TileType::Wall };
            assert_eq!(map.tiles[map.get_index(x, y)], want);
        }
    }
    assert_eq!(map.rooms, vec![Rect { x1: 2, x2: 4, y1: 3, y2: 5 }]);
    assert!(map.blocked_tiles.iter().all(|b| *b));
    map.set_blocked_tiles();
    assert!(blocked_agrees(&map));
}

#[test]
fn a_hallway_runs_along_the_row_of_its_start_and_the_column_of_its_end() {
    let mut map = TileMap::new(12, 12, 1);
    map.build_hallway(Point::new(2, 3), Point::new(6, 8));
    for y in 0..12 {
        for x in 0..12 {
            let on_row = y == 3 && (2..=6).contains(&x);
            let on_column = x == 6 && (3..=8).contains(&y);
            let want = if on_row || on_column { TileType::Floor } else { TileType::Wall };
            assert_eq!(map.tiles[map.get_index(x, y)], want, "at {} {}", x, y);
        }
    }
}

#[test]
fn a_hallway_runs_backwards_too() {
    let mut map = TileMap::new(12, 12, 1);
    map.build_hallway(Point::new(6, 8), Point::new(2, 3));
    for y in 0..12 {
        for x in 0..12 {
            let on_row = y == 8 && (2..=6).contains(&x);
            let on_column = x == 2 && (3..=8).contains(&y);
            let want = if on_row || on_column { TileType::Floor } else { TileType::Wall };
            assert_eq!(map.tiles[map.get_index(x, y)], want, "at {} {}", x, y);
        }
    }
}

#[test]
fn pathing_distance_is_manhattan() {
    let map = open_map(30, 20);
    assert_eq!(map.get_pathing_distance(map.get_index(2, 3), map.get_index(7, 1)), 7);
    assert_eq!(map.get_pathing_distance(311, 311), 0);
    assert_eq!(map.get_pathing_distance(0, 599), 29 + 19);
}

#[test]
fn exits_are_the_free_cardinal_neighbours() {
    let mut map = open_map(10, 10);
    let exits = map.get_available_exits_for(map.get_index(5, 5), 1, None);
    assert_eq!(exits, vec![(54, 1), (56, 1), (45, 1), (65, 1)]);
}

#[test]
fn exits_stop_at_walls_and_at_the_border() {
    let mut map = open_map(10, 10);
    let corner = map.get_index(1, 1);
    assert_eq!(map.get_available_exits_for(corner, 1, None), vec![(12, 1), (21, 1)]);
    let far = map.get_index(8, 8);
    assert_eq!(map.get_available_exits_for(far, 1, None), vec![(87, 1), (78, 1)]);
}

#[test]
fn others_block_an_exit_and_the_actor_itself_does_not() {
    let mut map = open_map(10, 10);
    assert!(map.track_creature(2, Point::new(6, 5), None));
    assert!(map.track_creature(1, Point::new(5, 5), None));
    let exits = map.get_available_exits_for(map.get_index(5, 5), 1, None);
    assert_eq!(exits, vec![(54, 1), (45, 1), (65, 1)]);
    assert!(map.is_exit_valid_for(5, 5, 1, None));
    assert!(!map.is_exit_valid_for(5, 5, 2, None));
    assert!(map.is_exit_valid_for(6, 5, 2, None));
    assert!(!map.is_exit_valid_for(6, 5, 1, None));
}

#[test]
fn a_footprint_is_valid_as_a_whole_or_not_at_all() {
    let mut map = open_map(10, 10);
    let multi = two_parts();
    assert!(map.is_exit_valid_for(5, 5, 1, Some(&multi)));
    assert!(!map.is_exit_valid_for(1, 5, 1, Some(&multi)));
    assert!(!map.is_exit_valid_for(5, 8, 1, Some(&multi)));
    assert!(map.is_exit_valid_for(1, 5, 1, None));
    assert!(map.track_creature(2, Point::new(4, 5), None));
    assert!(!map.is_exit_valid_for(5, 5, 1, Some(&multi)));
}

#[test]
fn validity_ignores_coordinates_that_do_not_fit() {
    let mut map = open_map(10, 10);
    let multi = MultiTile {
        part_list: vec![MonsterPart {
            symbol_map: vec![(Point::new(i32::MAX, i32::MIN), 1)],
            health: 1,
            max_health: 1,
        }],
        facing: Direction::N,
        bounds: Rect { x1: 0, x2: 0, y1: 0, y2: 0 },
    };
    assert!(!map.is_exit_valid_for(5, 5, 1, Some(&multi)));
    assert!(!map.is_exit_valid_for(i32::MAX, i32::MAX, 1, None));
    assert!(!map.is_exit_valid_for(-1, 3, 1, None));
}

#[test]
fn placing_marks_anchor_and_footprint() {
    let mut map = open_map(30, 30);
    let multi = two_parts();
    assert!(map.track_creature(7, Point::new(10, 10), Some(&multi)));
    assert_eq!(map.creature_map.len(), 3);
    for t in [310, 309, 340] {
        assert_eq!(map.creature_map.get(&t), Some(&7));
        assert!(map.blocked_tiles[t]);
    }
    assert!(blocked_agrees(&map));
}

#[test]
fn placing_on_a_taken_anchor_fails_and_changes_nothing() {
    let mut map = open_map(30, 30);
    assert!(map.track_creature(1, Point::new(10, 10), None));
    let before = snapshot(&map);
    assert!(!map.track_creature(2, Point::new(10, 10), Some(&two_parts())));
    assert_eq!(snapshot(&map), before);
    assert_eq!(map.creature_map.get(&310), Some(&1));
}

#[test]
fn removing_gives_the_tiles_up() {
    let mut map = open_map(30, 30);
    let multi = two_parts();
    assert!(map.track_creature(7, Point::new(10, 10), Some(&multi)));
    assert_eq!(map.untrack_creature(Point::new(10, 10), Some(&multi)), Some(7));
    assert!(map.creature_map.is_empty());
    for t in [310, 309, 340] {
        assert!(!map.blocked_tiles[t]);
    }
    assert!(blocked_agrees(&map));
}

#[test]
fn removing_from_an_empty_tile_removes_nobody() {
    let mut map = open_map(30, 30);
    assert!(map.track_creature(3, Point::new(9, 10), None));
    let before = snapshot(&map);
    assert_eq!(map.untrack_creature(Point::new(10, 10), Some(&two_parts())), None);
    assert_eq!(snapshot(&map), before);
}

#[test]
fn a_wall_stays_blocked_when_it_is_given_up() {
    let mut map = open_map(30, 30);
    assert_eq!(map.untrack_creature(Point::new(0, 0), None), None);
    assert!(map.blocked_tiles[0]);
    assert!(blocked_agrees(&map));
}

#[test]
fn remove_then_place_restores_the_map() {
    let mut map = open_map(30, 30);
    let multi = two_parts();
    assert!(map.track_creature(4, Point::new(20, 20), None));
    assert!(map.track_creature(7, Point::new(10, 10), Some(&multi)));
    let before = snapshot(&map);
    assert_eq!(map.untrack_creature(Point::new(10, 10), Some(&multi)), Some(7));
    assert_ne!(snapshot(&map), before);
    assert!(map.track_creature(7, Point::new(10, 10), Some(&multi)));
    assert_eq!(snapshot(&map), before);
}

#[test]
fn a_moved_footprint_leaves_no_stale_entry() {
    let mut map = open_map(30, 30);
    let multi = two_parts();
    assert!(map.track_creature(7, Point::new(10, 10), Some(&multi)));
    assert!(map.move_creature(7, Point::new(10, 10), Point::new(11, 10), Some(&multi)));
    assert_eq!(map.creature_map.len(), 3);
    for t in [311, 310, 341] {
        assert_eq!(map.creature_map.get(&t), Some(&7));
        assert!(map.blocked_tiles[t]);
    }
    for t in [309, 340] {
        assert_eq!(map.creature_map.get(&t), None);
        assert!(!map.blocked_tiles[t]);
    }
    assert!(blocked_agrees(&map));
}

#[test]
fn a_move_into_a_wall_changes_nothing() {
    let mut map = open_map(30, 30);
    assert!(map.track_creature(7, Point::new(1, 1), None));
    let before = snapshot(&map);
    assert!(!map.move_creature(7, Point::new(1, 1), Point::new(0, 1), None));
    assert!(!map.move_creature(7, Point::new(1, 1), Point::new(1, 0), None));
    assert!(!map.move_creature(7, Point::new(1, 1), Point::new(-5, 77), None));
    assert_eq!(snapshot(&map), before);
}

#[test]
fn a_move_onto_somebody_changes_nothing() {
    let mut map = open_map(30, 30);
    let multi = two_parts();
    assert!(map.track_creature(7, Point::new(10, 10), Some(&multi)));
    assert!(map.track_creature(8, Point::new(12, 10), None));
    let before = snapshot(&map);
    assert!(!map.move_creature(8, Point::new(12, 10), Point::new(11, 10), Some(&multi)));
    assert!(!map.move_creature(8, Point::new(12, 10), Point::new(10, 10), None));
    assert!(!map.move_creature(7, Point::new(10, 10), Point::new(13, 10), Some(&multi)));
    assert_eq!(snapshot(&map), before);
}

#[test]
fn a_move_to_the_own_tile_is_valid() {
    let mut map = open_map(30, 30);
    let multi = two_parts();
    assert!(map.track_creature(7, Point::new(10, 10), Some(&multi)));
    let before = snapshot(&map);
    assert!(map.move_creature(7, Point::new(10, 10), Point::new(10, 10), Some(&multi)));
    assert_eq!(snapshot(&map), before);
}

#[test]
fn reshaping_migrates_the_footprint() {
    let mut map = open_map(30, 30);
    let multi = two_parts();
    assert!(map.track_creature(7, Point::new(10, 10), Some(&multi)));
    let cells = vec![Point::new(1, 0), Point::new(0, 1)];
    assert!(map.reshape_creature(7, Point::new(10, 10), Some(&multi), cells));
    for t in [310, 311, 340] {
        assert_eq!(map.creature_map.get(&t), Some(&7));
    }
    assert_eq!(map.creature_map.get(&309), None);
    assert!(blocked_agrees(&map));
}

#[test]
fn reshaping_into_a_wall_changes_nothing() {
    let mut map = open_map(30, 30);
    assert!(map.track_creature(7, Point::new(1, 1), None));
    let before = snapshot(&map);
    assert!(!map.reshape_creature(7, Point::new(1, 1), None, vec![Point::new(-1, 0)]));
    assert_eq!(snapshot(&map), before);
}

#[test]
fn items_are_tracked_one_to_a_tile() {
    let mut map = open_map(30, 30);
    assert!(map.track_item(5, Point::new(3, 3)));
    assert!(!map.track_item(6, Point::new(3, 3)));
    assert_eq!(map.item_map.get(&93), Some(&5));
    assert!(!map.blocked_tiles[93]);
    assert_eq!(map.untrack_item(Point::new(3, 3)), Some(5));
    assert_eq!(map.untrack_item(Point::new(3, 3)), None);
    assert!(map.item_map.is_empty());
}

#[test]
fn the_tiles_under_a_footprint() {
    let map = open_map(30, 30);
    let cells = two_parts().offsets();
    assert_eq!(cells, vec![Point::new(-1, 0), Point::new(0, 1)]);
    assert_eq!(map.footprint_indices(Point::new(10, 10), &cells), vec![310, 309, 340]);
}

#[test]
fn blocking_marks_tiles_without_indexing_them() {
    let mut map = open_map(10, 10);
    map.block_tiles(&vec![11, 12]);
    assert!(map.blocked_tiles[11] && map.blocked_tiles[12] && !map.blocked_tiles[13]);
    assert!(map.creature_map.is_empty());
}

#[test]
fn nobody_stands_off_the_grid() {
    let mut map = open_map(10, 10);
    assert!(map.track_creature(3, Point::new(4, 4), None));
    assert_eq!(map.creature_at(Point::new(4, 4)), Some(3));
    assert_eq!(map.creature_at(Point::new(5, 4)), None);
    assert_eq!(map.creature_at(Point::new(14, 3)), None);
    assert_eq!(map.creature_at(Point::new(-6, 5)), None);
}

#[test]
fn parts_can_be_shifted() {
    let mut multi = two_parts();
    assert_eq!(
        multi.moved_cells(&vec![Point::new(2, 0)]),
        Some(vec![Point::new(1, 0), Point::new(0, 1)])
    );
    assert_eq!(multi.moved_cells(&vec![Point::new(i32::MIN, 0)]), None);
    assert_eq!(multi.moved_cells(&vec![Point::new(0, 0); 3]), None);
    multi.shift_parts(&vec![Point::new(2, 0), Point::new(0, -2)]);
    assert_eq!(multi.offsets(), vec![Point::new(1, 0), Point::new(0, -1)]);
    assert_eq!(multi.part_list[0].symbol_map, vec![(Point::new(1, 0), 1)]);
    assert_eq!(multi.part_list[1].health, 1);
}

/// A map that is floor all over, up to its edge.
fn bare_map(width: i32, height: i32) -> TileMap {
    let mut map = TileMap::new(width, height, 1);
    map.build_room(Rect { x1: 0, x2: width - 1, y1: 0, y2: height - 1 });
    map.set_blocked_tiles();
    map
}

#[test]
fn the_first_column_and_the_first_row_can_be_stepped_on() {
    let mut map = bare_map(10, 10);
    assert!(map.track_creature(7, Point::new(1, 1), None));
    assert!(map.is_exit_valid_for(0, 1, 7, None));
    assert!(map.is_exit_valid_for(1, 0, 7, None));
    assert!(map.is_exit_valid_for(0, 0, 7, None));
    assert!(map.is_exit_valid_for(9, 9, 7, None));
    assert!(!map.is_exit_valid_for(-1, 1, 7, None));
    assert!(!map.is_exit_valid_for(10, 1, 7, None));
    assert!(!map.is_exit_valid_for(1, 10, 7, None));
    assert!(map.move_creature(7, Point::new(1, 1), Point::new(0, 1), None));
    assert_eq!(map.creature_map.get(&10), Some(&7));
    assert_eq!(map.creature_map.get(&11), None);
    assert!(map.move_creature(7, Point::new(0, 1), Point::new(0, 0), None));
    assert_eq!(map.creature_map.get(&0), Some(&7));
    assert!(blocked_agrees(&map));
}

#[test]
fn exits_reach_the_edge_of_the_grid_and_no_further() {
    let mut map = bare_map(10, 10);
    assert_eq!(map.get_available_exits_for(0, 1, None), vec![(1, 1), (10, 1)]);
    assert_eq!(map.get_available_exits_for(11, 1, None), vec![(10, 1), (12, 1), (1, 1), (21, 1)]);
    assert_eq!(map.get_available_exits_for(99, 1, None), vec![(98, 1), (89, 1)]);
    // the tile east of the last one of a row is the first of the next row
    assert_eq!(map.get_available_exits_for(19, 1, None), vec![(18, 1), (9, 1), (29, 1)]);
}

#[test]
fn a_footprint_may_lie_in_the_first_column() {
    let mut map = bare_map(10, 10);
    let multi = two_parts();
    assert!(map.track_creature(3, Point::new(5, 5), Some(&multi)));
    assert!(map.is_exit_valid_for(1, 5, 3, Some(&multi)));
    assert!(!map.is_exit_valid_for(0, 5, 3, Some(&multi)));
    assert!(!map.is_exit_valid_for(1, 9, 3, Some(&multi)));
}

#[test]
fn a_wall_is_no_exit_even_where_it_is_not_marked_as_blocked() {
    let mut map = open_map(10, 10);
    assert!(map.track_creature(7, Point::new(1, 1), None));
    let wall = map.get_index(0, 1);
    assert_eq!(map.tiles[wall], TileType::Wall);
    map.blocked_tiles[wall] = false;
    assert!(!map.is_exit_valid_for(0, 1, 7, None));
    assert!(!map.move_creature(7, Point::new(1, 1), Point::new(0, 1), None));
    assert_eq!(map.creature_map.get(&map.get_index(1, 1)), Some(&7));
}
