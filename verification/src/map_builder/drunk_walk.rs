use vstd::prelude::*;
use crate::components::Position;
use crate::map::{TileMap, TileType};
use crate::random::roll_dice;

verus! {

/// Where a digger starts.
#[derive(Clone, Copy, Debug, PartialEq, Eq, Structural)]
pub enum DrunkSpawnMode {
    /// Every digger starts in the middle of the map.
    StartingPoint,
    /// The first digger starts in the middle, the others anywhere.
    Random,
}

/// How a level is dug: where diggers start, how many steps a digger
/// staggers, what share of the map, in hundredths, is to be floor, and how
/// many tiles beyond its own a digger clears to the east and to the south.
#[derive(Clone, Copy, Debug, PartialEq, Eq, Structural)]
pub struct DrunkardSettings {
    pub spawn_mode: DrunkSpawnMode,
    pub drunken_lifetime: i32,
    pub floor_percent: u32,
    pub digger_size: i32,
}

/// No more diggers than this are sent, however little floor they leave.
pub const MAX_DIGGERS: i32 = 1000;

/// What a dig reports: how many diggers were sent, and how many of them
/// found a wall to dig.
#[derive(Clone, Copy, Debug, PartialEq, Eq, Structural)]
pub struct DigReport {
    pub diggers: i32,
    pub active: i32,
}

/// The number of tiles of floor among the first `upto` tiles.
pub open spec fn floor_count(ground: Seq<TileType>, upto: int) -> int
    decreases upto,
{
    if upto <= 0 {
        0
    } else {
        floor_count(ground, upto - 1) + (if ground[upto - 1] == TileType::Floor {
            1int
        } else {
            0int
        })
    }
}

/// The number of tiles of floor that a dig aims at.
pub open spec fn desired_floor(settings: DrunkardSettings, tiles: int) -> int {
    (settings.floor_percent * tiles) / 100
}

/// `after` is `before` with some walls dug away: no tile has become a wall.
pub open spec fn only_dug(before: Seq<TileType>, after: Seq<TileType>) -> bool {
    &&& after.len() == before.len()
    &&& forall|t: int|
        0 <= t < before.len() ==> #[trigger] after[t] == before[t] || after[t] == TileType::Floor
}

/// Every tile of `after` that is not what it is in `before` lies at least
/// `margin` columns and rows into a grid that is `width` wide.
pub open spec fn dug_inside(before: Seq<TileType>, after: Seq<TileType>, width: int, margin: int) -> bool {
    forall|t: int|
        0 <= t < before.len() && #[trigger] after[t] != before[t] ==> margin <= t % width
            && margin <= t / width
}

/// Whether a map is large enough for the diggers: a digger that starts in
/// the middle, or anywhere inside the border, clears tiles of the map only.
pub open spec fn room_to_dig(map: &TileMap, settings: DrunkardSettings) -> bool {
    &&& 0 <= settings.digger_size
    &&& 2 * settings.digger_size + 4 <= map.width
    &&& 2 * settings.digger_size + 4 <= map.height
}

/// Wide, open caves.
pub fn open_area() -> (settings: DrunkardSettings)
    ensures
        settings == (DrunkardSettings {
            spawn_mode: DrunkSpawnMode::StartingPoint,
            drunken_lifetime: 1000,
            floor_percent: 50,
            digger_size: 4,
        }),
{
    DrunkardSettings {
        spawn_mode: DrunkSpawnMode::StartingPoint,
        drunken_lifetime: 1000,
        floor_percent: 50,
        digger_size: 4,
    }
}

/// Halls that branch.
pub fn open_halls() -> (settings: DrunkardSettings)
    ensures
        settings == (DrunkardSettings {
            spawn_mode: DrunkSpawnMode::Random,
            drunken_lifetime: 400,
            floor_percent: 50,
            digger_size: 3,
        }),
{
    DrunkardSettings {
        spawn_mode: DrunkSpawnMode::Random,
        drunken_lifetime: 400,
        floor_percent: 50,
        digger_size: 3,
    }
}

/// Passages that wind.
pub fn winding_passages() -> (settings: DrunkardSettings)
    ensures
        settings == (DrunkardSettings {
            spawn_mode: DrunkSpawnMode::Random,
            drunken_lifetime: 100,
            floor_percent: 40,
            digger_size: 2,
        }),
{
    DrunkardSettings {
        spawn_mode: DrunkSpawnMode::Random,
        drunken_lifetime: 100,
        floor_percent: 40,
        digger_size: 2,
    }
}

/// The number of tiles of floor on the map.
pub fn count_floor(map: &TileMap) -> (count: usize)
    ensures
        count == floor_count(map.tiles@, map.tiles@.len() as int),
{
    let mut count: usize = 0;
    let mut t: usize = 0;
    while t < map.tiles.len()
        invariant
            t <= map.tiles@.len(),
            count <= t,
            count == floor_count(map.tiles@, t as int),
        decreases map.tiles@.len() - t,
    {
        if map.tiles[t] == TileType::Floor {
            count = count + 1;
        }
        t = t + 1;
    }
    count
}

/// The tile in the middle of the map, where the digging starts.
pub fn starting_position(map: &TileMap) -> (start: Position)
    requires
        map.wf(),
    ensures
        start.x == map.width / 2,
        start.y == map.height / 2,
{
    Position { x: map.width / 2, y: map.height / 2 }
}

/// Clears the square of tiles that a digger at `(x, y)` stands on, and
/// tells whether there was a wall among them.
fn clear(map: &mut TileMap, x: i32, y: i32, size: i32) -> (dug: bool)
    requires
        old(map).wf(),
        0 <= size,
        0 <= x,
        x + size < old(map).width,
        0 <= y,
        y + size < old(map).height,
    ensures
        final(map).wf(),
        final(map).same_but_tiles(old(map)),
        only_dug(old(map).tiles@, final(map).tiles@),
        final(map).tiles@[y * old(map).width + x] == TileType::Floor,
        forall|t: int|
            0 <= t < old(map).tiles@.len() && #[trigger] final(map).tiles@[t] != old(
                map,
            ).tiles@[t] ==> x <= t % (old(map).width as int) && y <= t / (old(map).width as int),
{
    let first = map.get_index(x, y);
    let mut dug = false;
    let mut dx: i32 = 0;
    while dx <= size
        invariant
            map.wf(),
            map.same_but_tiles(old(map)),
            only_dug(old(map).tiles@, map.tiles@),
            0 <= size,
            0 <= x,
            x + size < map.width,
            0 <= y,
            y + size < map.height,
            0 <= dx <= size + 1,
            first == y * map.width + x,
            first < map.tiles@.len(),
            dx > 0 ==> map.tiles@[first as int] == TileType::Floor,
            forall|t: int|
                0 <= t < old(map).tiles@.len() && #[trigger] map.tiles@[t] != old(map).tiles@[t]
                    ==> x <= t % (map.width as int) && y <= t / (map.width as int),
        decreases size + 1 - dx,
    {
        let mut dy: i32 = 0;
        while dy <= size
            invariant
                map.wf(),
                map.same_but_tiles(old(map)),
                only_dug(old(map).tiles@, map.tiles@),
                0 <= size,
                0 <= x,
                x + size < map.width,
                0 <= y,
                y + size < map.height,
                0 <= dx <= size,
                0 <= dy <= size + 1,
                first == y * map.width + x,
                first < map.tiles@.len(),
                (dx > 0 || dy > 0) ==> map.tiles@[first as int] == TileType::Floor,
                forall|t: int|
                    0 <= t < old(map).tiles@.len() && #[trigger] map.tiles@[t] != old(
                        map,
                    ).tiles@[t] ==> x <= t % (map.width as int) && y <= t / (map.width as int),
            decreases size + 1 - dy,
        {
            let drunk_idx = map.get_index(x + dx, y + dy);
            proof {
                crate::map::lemma_tile_in_grid(
                    map.width as int,
                    map.height as int,
                    x + dx,
                    y + dy,
                );
            }
            if map.tiles[drunk_idx] == TileType::Wall {
                dug = true;
            }
            map.tiles.set(drunk_idx, TileType::Floor);
            dy = dy + 1;
        }
        dx = dx + 1;
    }
    dug
}

/// Sends diggers through the map until enough of it is floor, or
/// `MAX_DIGGERS` have been sent. A digger clears the tiles it stands on and
/// staggers one tile in a direction drawn at random, for as many steps as
/// its lifetime says. Whatever is drawn, the dig only turns walls into
/// floor, it leaves the two westernmost columns and the two northernmost
/// rows alone, and the tile in the middle of the map is floor afterwards.
pub fn dig(map: &mut TileMap, settings: &DrunkardSettings, rng: &mut rltk::RandomNumberGenerator) -> (report:
    DigReport)
    requires
        old(map).wf(),
        room_to_dig(old(map), *settings),
    ensures
        final(map).wf(),
        final(map).same_but_tiles(old(map)),
        only_dug(old(map).tiles@, final(map).tiles@),
        dug_inside(old(map).tiles@, final(map).tiles@, old(map).width as int, 2),
        final(map).tiles@[(old(map).height / 2) * old(map).width + old(map).width / 2]
            == TileType::Floor,
        0 <= report.active <= report.diggers <= MAX_DIGGERS,
        report.diggers == MAX_DIGGERS || floor_count(
            final(map).tiles@,
            final(map).tiles@.len() as int,
        ) >= desired_floor(*settings, final(map).tiles@.len() as int),
{
    let size = settings.digger_size;
    let start = starting_position(map);
    let start_idx = map.get_index(start.x, start.y);
    proof {
        crate::map::lemma_tile_in_grid(
            map.width as int,
            map.height as int,
            start.x as int,
            start.y as int,
        );
    }
    map.tiles.set(start_idx, TileType::Floor);
    assert(settings.floor_percent * map.tiles@.len() <= 0xffff_ffff * 0x7fff_ffff)
        by (nonlinear_arith)
        requires
            0 <= settings.floor_percent <= 0xffff_ffff,
            0 <= map.tiles@.len() <= 0x7fff_ffff,
    ;
    let desired_floor_tiles: u64 = (settings.floor_percent as u64 * map.tiles.len() as u64) / 100;
    let mut floor_tile_count = count_floor(map);
    let mut digger_count: i32 = 0;
    let mut active_digger_count: i32 = 0;
    while (floor_tile_count as u64) < desired_floor_tiles && digger_count < MAX_DIGGERS
        invariant
            map.wf(),
            map.same_but_tiles(old(map)),
            only_dug(old(map).tiles@, map.tiles@),
            dug_inside(old(map).tiles@, map.tiles@, map.width as int, 2),
            room_to_dig(map, *settings),
            size == settings.digger_size,
            start.x == map.width / 2,
        start.y == map.height / 2,
            start_idx == start.y * map.width + start.x,
            start_idx < map.tiles@.len(),
            map.tiles@[start_idx as int] == TileType::Floor,
            desired_floor_tiles == desired_floor(*settings, map.tiles@.len() as int),
            floor_tile_count == floor_count(map.tiles@, map.tiles@.len() as int),
            0 <= active_digger_count <= digger_count <= MAX_DIGGERS,
        decreases MAX_DIGGERS - digger_count,
    {
        let mut did_something = false;
        let mut drunk_x: i32 = start.x;
        let mut drunk_y: i32 = start.y;
        if settings.spawn_mode == DrunkSpawnMode::Random && digger_count != 0 {
            drunk_x = roll_dice(rng, 1, map.width - size - 2) + 1;
            drunk_y = roll_dice(rng, 1, map.height - size - 2) + 1;
        }
        let mut drunk_life: i32 = settings.drunken_lifetime;
        while drunk_life > 0
            invariant
                map.wf(),
                map.same_but_tiles(old(map)),
                only_dug(old(map).tiles@, map.tiles@),
                dug_inside(old(map).tiles@, map.tiles@, map.width as int, 2),
                room_to_dig(map, *settings),
                size == settings.digger_size,
                map.tiles@[start_idx as int] == TileType::Floor,
                start_idx < map.tiles@.len(),
                2 <= drunk_x,
                drunk_x + size < map.width,
                2 <= drunk_y,
                drunk_y + size < map.height,
            decreases drunk_life,
        {
            let ghost before = map.tiles@;
            if clear(map, drunk_x, drunk_y, size) {
                did_something = true;
            }
            assert(dug_inside(old(map).tiles@, map.tiles@, map.width as int, 2)) by {
                assert forall|t: int|
                    0 <= t < before.len() && #[trigger] map.tiles@[t] != old(map).tiles@[t]
                    implies 2 <= t % (map.width as int) && 2 <= t / (map.width as int) by {
                    if map.tiles@[t] != before[t] {
                    } else {
                        assert(before[t] != old(map).tiles@[t]);
                    }
                }
            }
            let stagger_direction = roll_dice(rng, 1, 4);
            if stagger_direction == 1 {
                if drunk_x > 2 {
                    drunk_x = drunk_x - 1;
                }
            } else if stagger_direction == 2 {
                if drunk_x < map.width - size - 1 {
                    drunk_x = drunk_x + 1;
                }
            } else if stagger_direction == 3 {
                if drunk_y > 2 {
                    drunk_y = drunk_y - 1;
                }
            } else {
                if drunk_y < map.height - size - 1 {
                    drunk_y = drunk_y + 1;
                }
            }
            drunk_life = drunk_life - 1;
        }
        if did_something {
            active_digger_count = active_digger_count + 1;
        }
        digger_count = digger_count + 1;
        floor_tile_count = count_floor(map);
    }
    DigReport { diggers: digger_count, active: active_digger_count }
}

} // verus!
