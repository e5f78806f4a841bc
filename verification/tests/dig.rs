use counterpuncher::map_builder::drunk_walk::{
    count_floor, dig, open_area, open_halls, starting_position, winding_passages, MAX_DIGGERS,
};
use counterpuncher::{DrunkSpawnMode, DrunkardSettings, Position, TileMap, TileType};
use rltk::RandomNumberGenerator;

#[test]
fn the_three_ways_to_dig() {
    assert_eq!(
        open_area(),
        DrunkardSettings {
            spawn_mode: DrunkSpawnMode::StartingPoint,
            drunken_lifetime: 1000,
            floor_percent: 50,
            digger_size: 4
        }
    );
    assert_eq!(
        open_halls(),
        DrunkardSettings {
            spawn_mode: DrunkSpawnMode::Random,
            drunken_lifetime: 400,
            floor_percent: 50,
            digger_size: 3
        }
    );
    assert_eq!(
        winding_passages(),
        DrunkardSettings {
            spawn_mode: DrunkSpawnMode::Random,
            drunken_lifetime: 100,
            floor_percent: 40,
            digger_size: 2
        }
    );
}

#[test]
fn floor_is_counted() {
    let mut map = TileMap::new(10, 10, 1);
    assert_eq!(count_floor(&map), 0);
    map.tiles[3] = TileType::Floor;
    map.tiles[99] = TileType::Floor;
    assert_eq!(count_floor(&map), 2);
    assert_eq!(starting_position(&map), Position { x: 5, y: 5 });
    assert_eq!(starting_position(&TileMap::new(7, 9, 1)), Position { x: 3, y: 4 });
}

#[test]
fn a_dig_leaves_enough_floor_and_the_border_alone() {
    for (seed, settings) in [(1u64, open_area()), (2, open_halls()), (3, winding_passages())] {
        let mut map = TileMap::new(60, 40, 1);
        map.tiles[70] = TileType::Floor;
        let mut rng = RandomNumberGenerator::seeded(seed);
        let report = dig(&mut map, &settings, &mut rng);
        assert!(0 <= report.active && report.active <= report.diggers && report.diggers <= MAX_DIGGERS);
        assert!(report.active >= 1);
        let wanted = settings.floor_percent as usize * 2400 / 100;
        assert!(report.diggers == MAX_DIGGERS || count_floor(&map) >= wanted);
        assert_eq!(map.tiles[20 * 60 + 30], TileType::Floor);
        assert_eq!(map.tiles[70], TileType::Floor);
        for x in 0..60 {
            assert_eq!(map.tiles[x], TileType::Wall);
            assert_eq!(map.tiles[60 + x] == TileType::Floor, x == 10);
        }
        for y in 2..40 {
            assert_eq!(map.tiles[y * 60], TileType::Wall);
            assert_eq!(map.tiles[y * 60 + 1], TileType::Wall);
        }
        assert!(map.is_well_formed());
        assert!(map.blocked_tiles.iter().all(|b| *b));
    }
}

#[test]
fn a_dig_for_no_floor_sends_nobody() {
    let mut map = TileMap::new(20, 20, 1);
    let mut rng = RandomNumberGenerator::seeded(1);
    let idle = DrunkardSettings {
        spawn_mode: DrunkSpawnMode::Random,
        drunken_lifetime: 10,
        floor_percent: 0,
        digger_size: 0,
    };
    let report = dig(&mut map, &idle, &mut rng);
    assert_eq!((report.diggers, report.active), (0, 0));
    assert_eq!(count_floor(&map), 1);
}

#[test]
fn diggers_without_a_life_give_up_after_a_thousand() {
    let mut map = TileMap::new(20, 20, 1);
    let mut rng = RandomNumberGenerator::seeded(1);
    let lifeless = DrunkardSettings {
        spawn_mode: DrunkSpawnMode::StartingPoint,
        drunken_lifetime: 0,
        floor_percent: 50,
        digger_size: 1,
    };
    let report = dig(&mut map, &lifeless, &mut rng);
    assert_eq!((report.diggers, report.active), (MAX_DIGGERS, 0));
    assert_eq!(count_floor(&map), 1);
}
