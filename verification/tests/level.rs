use counterpuncher::{build_rogue_map, TileType};
use rltk::RandomNumberGenerator;

#[test]
fn a_level_has_rooms_of_floor_that_do_not_overlap() {
    for seed in [1u64, 2, 3, 99, 12345] {
        let mut rng = RandomNumberGenerator::seeded(seed);
        let map = build_rogue_map(120, 120, 2, &mut rng);
        assert_eq!((map.width, map.height, map.depth), (120, 120, 2));
        assert_eq!(map.tiles.len(), 120 * 120);
        assert!(!map.rooms.is_empty() && map.rooms.len() <= 12);
        for (i, room) in map.rooms.iter().enumerate() {
            assert!(room.x1 >= 1 && room.x2 <= 118 && room.y1 >= 1 && room.y2 <= 118);
            assert!((20..50).contains(&(room.x2 - room.x1)));
            assert!((20..50).contains(&(room.y2 - room.y1)));
            for other in map.rooms.iter().skip(i + 1) {
                assert!(!room.intersect(other));
            }
            for y in room.y1..=room.y2 {
                for x in room.x1..=room.x2 {
                    assert_eq!(map.tiles[map.get_index(x, y)], TileType::Floor);
                }
            }
        }
        for t in 0..map.tiles.len() {
            assert_eq!(map.blocked_tiles[t], map.tiles[t] == TileType::Wall);
        }
        let exit = map.index_to_point2d(map.level_exit);
        assert!(map.rooms[map.rooms.len() - 1].has(exit));
        assert_eq!(map.tiles[map.level_exit], TileType::Floor);
        assert!(map.creature_map.is_empty());
    }
}

#[test]
fn the_smallest_level_that_can_be_built() {
    let mut rng = RandomNumberGenerator::seeded(7);
    let map = build_rogue_map(52, 52, 1, &mut rng);
    assert!(!map.rooms.is_empty());
}
