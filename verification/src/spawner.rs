use vstd::prelude::*;
use vstd::string::*;
use crate::components::{
    parts_distinct, AiState, Health, Moveset, MultiTile, Position, Viewshed,
};
use crate::direction::Direction;
use crate::geometry::{Point, Rect};
use crate::glyph::{cp437, to_cp437};
use crate::map::TileMap;
use crate::monster_part::MonsterPart;
use crate::move_type::AttackType;
use crate::random::{random_below, roll_dice};
use crate::sys_ai::Behavior;
use crate::world::{Actor, NpcType, World};

verus! {

/// At most this many monsters, and three, are rolled for in a region of the
/// first level.
pub const MAX_MONSTERS: i32 = 4;

/// The kinds of monster that a region is filled with, each with its share
/// of a hundred.
pub fn room_table(_map_depth: i32) -> (table: Vec<(String, u32)>)
    ensures
        table@.len() == 2,
        table@[0].0@ == "mook"@,
        table@[0].1 == 70,
        table@[1].0@ == "archer"@,
        table@[1].1 == 30,
{
    let mut spawn_ary: Vec<(String, u32)> = Vec::new();
    spawn_ary.push((String::from_str("mook"), 70));
    spawn_ary.push((String::from_str("archer"), 30));
    spawn_ary
}

/// What every enemy starts from: it wanders, and has yet to look around.
pub fn build_enemy_base() -> (actor: Actor)
    ensures
        is_enemy(actor),
        actor.position == (Position { x: 0, y: 0 }),
        actor.health is None,
        actor.multi is None,
        actor.moveset is None,
        actor.facing is None,
{
    Actor {
        position: Position { x: 0, y: 0 },
        health: None,
        multi: None,
        moveset: None,
        ai: Some(AiState { status: Behavior::Wander }),
        viewshed: Some(Viewshed { visible: Vec::new(), dirty: true, range: 10 }),
        facing: None,
        openable: false,
        npc: None,
    }
}

fn part_of_three(a: Point, a_glyph: char, b: Point, b_glyph: char, c: Point, c_glyph: char) -> (part:
    MonsterPart)
    ensures
        part.health == 1,
        part.max_health == 1,
        part.symbol_map@ == seq![(a, cp437(a_glyph)), (b, cp437(b_glyph)), (c, cp437(c_glyph))],
{
    let mut symbol_map: Vec<(Point, u16)> = Vec::new();
    symbol_map.push((a, to_cp437(a_glyph)));
    symbol_map.push((b, to_cp437(b_glyph)));
    symbol_map.push((c, to_cp437(c_glyph)));
    assert(symbol_map@ =~= seq![(a, cp437(a_glyph)), (b, cp437(b_glyph)), (c, cp437(c_glyph))]);
    MonsterPart { symbol_map, health: 1, max_health: 1 }
}

/// The offsets under a mook: an angle to the south-west of its anchor and
/// one to the north-east.
pub open spec fn mook_footprint() -> Seq<Point> {
    seq![
        Point { x: -1i32, y: 0 },
        Point { x: -1i32, y: 1 },
        Point { x: 0, y: 1 },
        Point { x: 0, y: -1i32 },
        Point { x: 1, y: -1i32 },
        Point { x: 1, y: 0 },
    ]
}

/// The tiles of the first part of a mook, with their glyphs.
pub open spec fn mook_left() -> Seq<(Point, u16)> {
    seq![
        (Point { x: -1i32, y: 0 }, cp437('\u{2502}')),
        (Point { x: -1i32, y: 1 }, cp437('\u{2514}')),
        (Point { x: 0, y: 1 }, cp437('\u{2500}')),
    ]
}

/// The tiles of the second part of a mook, with their glyphs.
pub open spec fn mook_right() -> Seq<(Point, u16)> {
    seq![
        (Point { x: 0, y: -1i32 }, cp437('\u{2500}')),
        (Point { x: 1, y: -1i32 }, cp437('\u{2510}')),
        (Point { x: 1, y: 0 }, cp437('\u{2502}')),
    ]
}

/// Whether `actor` is an enemy as all enemies begin: it wanders, and has
/// yet to look around, ten tiles far.
pub open spec fn is_enemy(actor: Actor) -> bool {
    &&& !actor.openable
    &&& actor.npc is None
    &&& actor.ai matches Some(state) && state.status is Wander
    &&& actor.viewshed matches Some(v) && v.visible@.len() == 0 && v.dirty && v.range == 10
}

/// Whether `actor` is a mook at `point`: ten points of health, two parts of
/// three tiles and one point each, no tile twice in a part, a sweep one
/// time in four and a punch else.
pub open spec fn is_mook(actor: Actor, point: Point) -> bool {
    &&& is_enemy(actor)
    &&& actor.position == (Position { x: point.x, y: point.y })
    &&& actor.health == Some(Health { current: 10, max: 10 })
    &&& actor.moveset matches Some(m) && m.moves@ == seq![
        (AttackType::Sweep, 25u32),
        (AttackType::Punch, 75u32),
    ]
    &&& actor.facing == Some(Direction::N)
    &&& actor.multi matches Some(m) && {
        &&& m.facing == Direction::N
        &&& m.bounds == (Rect { x1: -1i32, x2: 1, y1: -1i32, y2: 1 })
        &&& m.footprint() == mook_footprint()
        &&& m.part_list@.len() == 2
        &&& m.part_list@[0].symbol_map@ == mook_left()
        &&& m.part_list@[1].symbol_map@ == mook_right()
        &&& m.distinct_parts()
        &&& forall|p: int|
            0 <= p < 2 ==> (#[trigger] m.part_list@[p]).health == 1 && m.part_list@[p].max_health
                == 1
    }
}

/// Whether `actor` is an archer at `point`: two points of health, a punch
/// one time in four and a shot else.
pub open spec fn is_archer(actor: Actor, point: Point) -> bool {
    &&& is_enemy(actor)
    &&& actor.position == (Position { x: point.x, y: point.y })
    &&& actor.health == Some(Health { current: 2, max: 2 })
    &&& actor.moveset matches Some(m) && m.moves@ == seq![
        (AttackType::Punch, 25u32),
        (AttackType::Ranged, 75u32),
    ]
    &&& actor.multi is None
    &&& actor.facing is None
}

/// A mook at `point`.
pub fn build_mook(point: Point) -> (actor: Actor)
    ensures
        is_mook(actor, point),
        parts_distinct(actor.multi),
{
    let mut part_list: Vec<MonsterPart> = Vec::new();
    part_list.push(
        part_of_three(
            Point { x: -1, y: 0 },
            '\u{2502}',
            Point { x: -1, y: 1 },
            '\u{2514}',
            Point { x: 0, y: 1 },
            '\u{2500}',
        ),
    );
    part_list.push(
        part_of_three(
            Point { x: 0, y: -1 },
            '\u{2500}',
            Point { x: 1, y: -1 },
            '\u{2510}',
            Point { x: 1, y: 0 },
            '\u{2502}',
        ),
    );
    let mut moves: Vec<(AttackType, u32)> = Vec::new();
    moves.push((AttackType::Sweep, 25));
    moves.push((AttackType::Punch, 75));
    assert(moves@ =~= seq![(AttackType::Sweep, 25u32), (AttackType::Punch, 75u32)]);
    let multi = MultiTile {
        part_list,
        facing: Direction::N,
        bounds: Rect { x1: -1, x2: 1, y1: -1, y2: 1 },
    };
    proof {
        let parts = multi.part_list@;
        reveal_with_fuel(crate::monster_part::parts_offsets, 3);
        assert(parts.drop_last().drop_last() =~= Seq::empty());
        assert(parts.drop_last().last() == parts[0]);
        assert(parts.last() == parts[1]);
        assert(multi.footprint() =~= mook_footprint());
    }
    let mut actor = build_enemy_base();
    actor.position = Position { x: point.x, y: point.y };
    actor.health = Some(Health { current: 10, max: 10 });
    actor.moveset = Some(Moveset { moves });
    actor.multi = Some(multi);
    actor.facing = Some(Direction::N);
    actor
}

/// An archer at `point`.
pub fn build_archer(point: Point) -> (actor: Actor)
    ensures
        is_archer(actor, point),
{
    let mut moves: Vec<(AttackType, u32)> = Vec::new();
    moves.push((AttackType::Punch, 25));
    moves.push((AttackType::Ranged, 75));
    assert(moves@ =~= seq![(AttackType::Punch, 25u32), (AttackType::Ranged, 75u32)]);
    let mut actor = build_enemy_base();
    actor.position = Position { x: point.x, y: point.y };
    actor.health = Some(Health { current: 2, max: 2 });
    actor.moveset = Some(Moveset { moves });
    actor
}

/// The player at `point`: ten points of health, and eyes that reach
/// twenty tiles.
pub fn build_player(point: Point) -> (actor: Actor)
    ensures
        actor.position == (Position { x: point.x, y: point.y }),
        actor.health == Some(Health { current: 10, max: 10 }),
        actor.multi is None,
        actor.moveset is None,
        actor.ai is None,
        actor.facing is None,
        !actor.openable,
        actor.npc is None,
        actor.viewshed matches Some(v) && v.visible@.len() == 0 && v.dirty && v.range == 20,
{
    Actor {
        position: Position { x: point.x, y: point.y },
        health: Some(Health { current: 10, max: 10 }),
        multi: None,
        moveset: None,
        ai: None,
        viewshed: Some(Viewshed { visible: Vec::new(), dirty: true, range: 20 }),
        facing: None,
        openable: false,
        npc: None,
    }
}

/// A barrel at `point`: it stands in the way and breaks after two hits.
pub fn build_empty_barrel(point: Point, _quality: i32) -> (actor: Actor)
    ensures
        actor.position == (Position { x: point.x, y: point.y }),
        actor.health == Some(Health { current: 2, max: 2 }),
        actor.multi is None,
        actor.moveset is None,
        actor.ai is None,
        actor.viewshed is None,
        actor.facing is None,
        actor.openable,
        actor.npc is None,
{
    Actor {
        position: Position { x: point.x, y: point.y },
        health: Some(Health { current: 2, max: 2 }),
        multi: None,
        moveset: None,
        ai: None,
        viewshed: None,
        facing: None,
        openable: true,
        npc: None,
    }
}

/// Whether `actor` is somebody to talk to, of the kind `npc_type`, at
/// `point`: it has ten points of health and eyes that reach twenty tiles,
/// and it neither fights nor moves.
pub open spec fn is_npc(actor: Actor, point: Point, npc_type: NpcType) -> bool {
    &&& actor.position == (Position { x: point.x, y: point.y })
    &&& actor.health == Some(Health { current: 10, max: 10 })
    &&& actor.multi is None
    &&& actor.moveset is None
    &&& actor.ai is None
    &&& actor.facing is None
    &&& !actor.openable
    &&& actor.npc == Some(npc_type)
    &&& actor.viewshed matches Some(v) && v.visible@.len() == 0 && v.dirty && v.range == 20
}

fn build_npc_base(point: Point, npc_type: NpcType) -> (actor: Actor)
    ensures
        is_npc(actor, point, npc_type),
{
    Actor {
        position: Position { x: point.x, y: point.y },
        health: Some(Health { current: 10, max: 10 }),
        multi: None,
        moveset: None,
        ai: None,
        viewshed: Some(Viewshed { visible: Vec::new(), dirty: true, range: 20 }),
        facing: None,
        openable: false,
        npc: Some(npc_type),
    }
}

/// The blacksmith, at `point`.
pub fn build_npc_blacksmith(point: Point) -> (actor: Actor)
    ensures
        is_npc(actor, point, NpcType::Blacksmith),
{
    build_npc_base(point, NpcType::Blacksmith)
}

/// The shopkeeper, at `point`.
pub fn build_npc_shopkeeper(point: Point) -> (actor: Actor)
    ensures
        is_npc(actor, point, NpcType::Shopkeeper),
{
    build_npc_base(point, NpcType::Shopkeeper)
}

/// The handler, who hands out quests, at `point`.
pub fn build_npc_handler(point: Point) -> (actor: Actor)
    ensures
        is_npc(actor, point, NpcType::Handler),
{
    build_npc_base(point, NpcType::Handler)
}

/// The monster that the table calls `name`, at `point`, if there is one.
pub fn build_from_name(name: &String, point: Point) -> (actor: Option<Actor>)
    ensures
        actor is Some <==> name@ == "mook"@ || name@ == "archer"@,
        name@ == "mook"@ ==> is_mook(actor->0, point),
        name@ == "archer"@ ==> is_archer(actor->0, point),
        actor matches Some(built) ==> parts_distinct(built.multi),
{
    let mook = String::from_str("mook");
    let archer = String::from_str("archer");
    proof {
        reveal_strlit("mook");
        reveal_strlit("archer");
        assert("mook"@.len() != "archer"@.len());
    }
    if *name == mook {
        Some(build_mook(point))
    } else if *name == archer {
        Some(build_archer(point))
    } else {
        None
    }
}

/// Lets `actor` join the world on the tile `map_idx`, and tells its id.
/// Nothing happens where the tile is none of the map, or the actor does not
/// fit there.
pub fn track_entity(world: &mut World, actor: Actor, map_idx: usize) -> (id: Option<usize>)
    requires
        old(world).inv(),
    ensures
        final(world).inv(),
        final(world).map.same_ground(&old(world).map),
        final(world).player == old(world).player,
        final(world).dead == old(world).dead,
        final(world).particles == old(world).particles,
        joins(old(world), final(world), actor, map_idx),
        id is Some <==> map_idx < old(world).map.tiles@.len() && old(world).admits(
            &placed(actor, old(world).map.width as int, map_idx),
        ),
        id is None ==> final(world).same_actors(old(world)) && final(world).map.occupancy() == old(
            world,
        ).map.occupancy(),
        id matches Some(a) ==> {
            &&& a == old(world).len()
            &&& final(world).len() == old(world).len() + 1
            &&& final(world).alive@ == old(world).alive@.push(true)
            &&& final(world).positions@ == old(world).positions@.push(
                placed(actor, old(world).map.width as int, map_idx).position,
            )
            &&& final(world).healths@ == old(world).healths@.push(actor.health)
            &&& final(world).multis@ == old(world).multis@.push(actor.multi)
            &&& final(world).movesets@ == old(world).movesets@.push(actor.moveset)
            &&& final(world).ai_states@ == old(world).ai_states@.push(actor.ai)
            &&& final(world).viewsheds@ == old(world).viewsheds@.push(actor.viewshed)
            &&& final(world).can_act@ == old(world).can_act@.push(None)
            &&& final(world).move_intents@ == old(world).move_intents@.push(None)
            &&& final(world).attack_intents@ == old(world).attack_intents@.push(None)
            &&& final(world).attacks_in_progress@ == old(world).attacks_in_progress@.push(false)
            &&& final(world).facings@ == old(world).facings@.push(actor.facing)
            &&& final(world).part_moves@ == old(world).part_moves@.push(None)
            &&& final(world).openables@ == old(world).openables@.push(actor.openable)
            &&& final(world).npcs@ == old(world).npcs@.push(actor.npc)
            &&& final(world).map.occupancy() == crate::map::occupied(
                old(world).map.occupancy(),
                crate::map::footprint_tiles(
                    old(world).map.width as int,
                    Point {
                        x: placed(actor, old(world).map.width as int, map_idx).position.x,
                        y: placed(actor, old(world).map.width as int, map_idx).position.y,
                    },
                    crate::world::cells_of(actor.multi),
                ),
                a,
            )
        },
{
    if map_idx >= world.map.tiles.len() {
        return None;
    }
    let point = world.map.index_to_point2d(map_idx);
    let mut actor = actor;
    actor.position = Position { x: point.x, y: point.y };
    world.spawn(actor)
}

/// `actor`, standing on the tile `map_idx` of a grid that is `width` wide.
pub open spec fn placed(actor: Actor, width: int, map_idx: usize) -> Actor {
    Actor {
        position: Position {
            x: (map_idx as int % width) as i32,
            y: (map_idx as int / width) as i32,
        },
        health: actor.health,
        multi: actor.multi,
        moveset: actor.moveset,
        ai: actor.ai,
        viewshed: actor.viewshed,
        facing: actor.facing,
        openable: actor.openable,
        npc: actor.npc,
    }
}

/// What letting `actor` join on the tile `map_idx` makes of the world. Where
/// the tile is one of the map and the actor fits there, the actor gets the
/// next free id, a row in every column, and the tiles under it. Else
/// nobody joins, and who stands where stays as it is.
pub open spec fn joins(pre: &World, post: &World, actor: Actor, map_idx: usize) -> bool {
    let newcomer = placed(actor, pre.map.width as int, map_idx);
    &&& post.map.same_ground(&pre.map)
    &&& post.player == pre.player
    &&& post.dead == pre.dead
    &&& post.particles == pre.particles
    &&& if map_idx < pre.map.tiles@.len() && pre.admits(&newcomer) {
        &&& post.alive@ == pre.alive@.push(true)
        &&& post.positions@ == pre.positions@.push(newcomer.position)
        &&& post.healths@ == pre.healths@.push(actor.health)
        &&& post.multis@ == pre.multis@.push(actor.multi)
        &&& post.movesets@ == pre.movesets@.push(actor.moveset)
        &&& post.ai_states@ == pre.ai_states@.push(actor.ai)
        &&& post.viewsheds@ == pre.viewsheds@.push(actor.viewshed)
        &&& post.can_act@ == pre.can_act@.push(None)
        &&& post.move_intents@ == pre.move_intents@.push(None)
        &&& post.attack_intents@ == pre.attack_intents@.push(None)
        &&& post.attacks_in_progress@ == pre.attacks_in_progress@.push(false)
        &&& post.facings@ == pre.facings@.push(actor.facing)
        &&& post.part_moves@ == pre.part_moves@.push(None)
        &&& post.openables@ == pre.openables@.push(actor.openable)
        &&& post.npcs@ == pre.npcs@.push(actor.npc)
        &&& post.map.occupancy() == crate::map::occupied(
            pre.map.occupancy(),
            crate::map::footprint_tiles(
                pre.map.width as int,
                Point { x: newcomer.position.x, y: newcomer.position.y },
                crate::world::cells_of(actor.multi),
            ),
            pre.alive@.len() as usize,
        )
    } else {
        post.same_actors(pre) && post.map.occupancy() == pre.map.occupancy()
    }
}

/// The weights of the first `n` entries of a table, added up.
pub open spec fn share_sum(table: Seq<(String, u32)>, n: int) -> int
    decreases n,
{
    if n <= 0 {
        0
    } else {
        share_sum(table, n - 1) + table[n - 1].1
    }
}

/// Whether the draw lies below the shares of the entries up to and
/// including entry `k`.
pub open spec fn selects(table: Seq<(String, u32)>, draw: int, k: int) -> bool {
    draw < share_sum(table, k + 1)
}

/// Entry `k` is the first of the table that the draw selects.
pub open spec fn first_selected(table: Seq<(String, u32)>, draw: int, k: int) -> bool {
    &&& 0 <= k < table.len()
    &&& selects(table, draw, k)
    &&& forall|j: int| 0 <= j < k ==> !#[trigger] selects(table, draw, j)
}

/// The entry of the table that the draw `draw` selects: the first whose
/// share, added to those before it, exceeds the draw; the very first entry
/// where the draw exceeds them all.
pub open spec fn rolled(table: Seq<(String, u32)>, draw: int) -> int {
    if exists|k: int| first_selected(table, draw, k) {
        choose|k: int| first_selected(table, draw, k)
    } else {
        0
    }
}

/// The name that the draw `draw` selects from the table.
pub fn roll(chance: &Vec<(String, u32)>, draw: u32) -> (name: String)
    requires
        chance@.len() > 0,
    ensures
        name == chance@[rolled(chance@, draw as int)].0,
        0 <= rolled(chance@, draw as int) < chance@.len(),
{
    let mut cumul_prob: u64 = 0;
    let mut index: usize = 0;
    while index < chance.len()
        invariant
            index <= chance@.len(),
            cumul_prob <= draw,
            cumul_prob == share_sum(chance@, index as int),
            forall|j: int| 0 <= j < index ==> !#[trigger] selects(chance@, draw as int, j),
        decreases chance@.len() - index,
    {
        assert(share_sum(chance@, index + 1) == share_sum(chance@, index as int)
            + chance@[index as int].1);
        cumul_prob = cumul_prob + chance[index].1 as u64;
        if (draw as u64) < cumul_prob {
            proof {
                lemma_rolled_first(chance@, draw as int, index as int);
            }
            return chance[index].0.clone();
        }
        assert(!selects(chance@, draw as int, index as int));
        index = index + 1;
    }
    proof {
        assert forall|k: int| !first_selected(chance@, draw as int, k) by {
            if 0 <= k < chance@.len() {
                assert(!selects(chance@, draw as int, k));
            }
        }
    }
    chance[0].0.clone()
}

/// The entry that a draw selects is the first whose band holds the draw.
pub proof fn lemma_rolled_first(table: Seq<(String, u32)>, draw: int, k: int)
    requires
        first_selected(table, draw, k),
    ensures
        rolled(table, draw) == k,
{
    let first = choose|k: int| first_selected(table, draw, k);
    if first < k {
        assert(!selects(table, draw, first));
    }
    if k < first {
        assert(!selects(table, draw, k));
    }
}

/// The number of monsters for a region with `available` tiles on the level
/// `map_depth`, given what a seven-sided die showed: three fewer than the
/// die, one more for each level below the first, and no more than there
/// are tiles. A number below one means none.
pub open spec fn spawn_count(available: int, dice: int, map_depth: int) -> int {
    let wanted = dice + (map_depth - 1) - 3;
    if available <= wanted {
        available
    } else {
        wanted
    }
}

/// The number of monsters for a region: see `spawn_count`.
pub fn count_spawns(available: usize, dice: i32, map_depth: i32) -> (count: i32)
    requires
        available <= i32::MAX,
        1 <= dice <= MAX_MONSTERS + 3,
        i32::MIN + 8 <= map_depth <= i32::MAX - 8,
    ensures
        count == spawn_count(available as int, dice as int, map_depth as int),
{
    let wanted: i32 = dice + (map_depth - 1) - 3;
    if available as i32 <= wanted {
        available as i32
    } else {
        wanted
    }
}

/// The tile under the anchor of actor `a`.
pub open spec fn anchor_tile(world: &World, a: int) -> usize {
    crate::map::tile_of(
        world.map.width as int,
        world.positions@[a].x as int,
        world.positions@[a].y as int,
    )
}

/// Actor `a` is a monster of the table: a mook, or an archer.
pub open spec fn is_monster(world: &World, a: int) -> bool {
    let as_built = Actor {
        position: world.positions@[a],
        health: world.healths@[a],
        multi: world.multis@[a],
        moveset: world.movesets@[a],
        ai: world.ai_states@[a],
        viewshed: world.viewsheds@[a],
        facing: world.facings@[a],
        openable: world.openables@[a],
        npc: world.npcs@[a],
    };
    is_mook(as_built, world.anchor(a)) || is_archer(as_built, world.anchor(a))
}

/// Actor `a` is there, a monster of the table that has just been built,
/// with its anchor on a tile of `area`.
pub open spec fn joined_in(world: &World, area: Seq<usize>, a: int) -> bool {
    world.alive@[a] && area.contains(anchor_tile(world, a)) && is_monster(world, a)
}

/// What is drawn for one monster of a region: which of the tiles that are
/// left it is to stand on, and the number that selects its kind from the
/// table.
#[derive(Clone, Copy, Debug, PartialEq, Eq)]
pub struct SpawnDraw {
    pub tile: usize,
    pub kind: u32,
}

/// The tiles of `area` that are left once the first `n` of `draws` have
/// each taken theirs.
pub open spec fn tiles_left(area: Seq<usize>, draws: Seq<SpawnDraw>, n: int) -> Seq<usize>
    decreases n,
{
    if n <= 0 {
        area
    } else {
        tiles_left(area, draws, n - 1).remove(draws[n - 1].tile as int)
    }
}

/// Whether each of `draws` names one of the tiles that are left when its
/// turn comes.
pub open spec fn draws_fit(area: Seq<usize>, draws: Seq<SpawnDraw>) -> bool {
    &&& draws.len() <= area.len()
    &&& forall|n: int| 0 <= n < draws.len() ==> (#[trigger] draws[n]).tile < area.len() - n
}

/// The tile that draw `n` takes.
pub open spec fn drawn_tile(area: Seq<usize>, draws: Seq<SpawnDraw>, n: int) -> usize {
    tiles_left(area, draws, n)[draws[n].tile as int]
}

/// Whether `actor` is the monster that the number `kind` selects from the
/// table, at `point`: an archer for the thirty numbers from seventy on, a
/// mook for every other.
pub open spec fn is_drawn(actor: Actor, kind: int, point: Point) -> bool {
    if 70 <= kind < 100 {
        is_archer(actor, point)
    } else {
        is_mook(actor, point)
    }
}

/// The name that the number `kind` selects from the table of a room.
pub proof fn lemma_table_bands(table: Seq<(String, u32)>, kind: int)
    requires
        table.len() == 2,
        table[0].0@ == "mook"@,
        table[0].1 == 70,
        table[1].0@ == "archer"@,
        table[1].1 == 30,
        0 <= kind,
    ensures
        table[rolled(table, kind)].0@ == (if 70 <= kind < 100 {
            "archer"@
        } else {
            "mook"@
        }),
{
    reveal_with_fuel(share_sum, 3);
    assert(share_sum(table, 1) == 70);
    assert(share_sum(table, 2) == 100);
    if kind < 70 {
        assert(selects(table, kind, 0));
        assert(first_selected(table, kind, 0));
        lemma_rolled_first(table, kind, 0);
    } else if kind < 100 {
        assert(!selects(table, kind, 0));
        assert(selects(table, kind, 1));
        assert(first_selected(table, kind, 1));
        lemma_rolled_first(table, kind, 1);
    } else {
        assert forall|k: int| !first_selected(table, kind, k) by {
            if 0 <= k < 2 {
                assert(!selects(table, kind, k));
            }
        }
    }
}

/// What one draw makes of the world: the monster that `kind` selects is
/// built at the tile `map_idx` and joins where it fits. A tile that is none
/// of the map is passed over.
pub open spec fn spawns(pre: &World, post: &World, kind: int, map_idx: usize) -> bool {
    if map_idx < pre.map.tiles@.len() {
        exists|actor: Actor|
            is_drawn(actor, kind, crate::map::point_of(pre.map.width as int, map_idx as int))
                && #[trigger] joins(pre, post, actor, map_idx)
    } else {
        *post == *pre
    }
}

/// World `n` of the trace leads to the next by draw `n`.
pub open spec fn spawn_linked(
    trace: Seq<World>,
    area: Seq<usize>,
    draws: Seq<SpawnDraw>,
    n: int,
) -> bool {
    spawns(&trace[n], &trace[n + 1], draws[n].kind as int, drawn_tile(area, draws, n))
}

/// Every world of the trace but the last leads to the next by one draw, the
/// draws taken in order.
pub open spec fn spawn_passed(trace: Seq<World>, area: Seq<usize>, draws: Seq<SpawnDraw>) -> bool {
    forall|n: int| 0 <= n < trace.len() - 1 ==> #[trigger] spawn_linked(trace, area, draws, n)
}

/// `post` is what the draws make of `pre`, one after another.
pub open spec fn placed_all(
    pre: &World,
    post: &World,
    area: Seq<usize>,
    draws: Seq<SpawnDraw>,
) -> bool {
    exists|trace: Seq<World>|
        trace.len() == draws.len() + 1 && trace[0] == *pre && trace[draws.len() as int] == *post
            && #[trigger] spawn_passed(trace, area, draws)
}

/// Lets the monsters that were drawn for a region join the world, one
/// draw after another: each draw takes one of the tiles of `area` that are
/// left, and the monster that its number selects is built there and joins
/// where it fits. Nobody who was there is touched, and whoever joins is a
/// monster of the table on a tile of the region.
pub fn place_spawns(
    world: &mut World,
    area: &Vec<usize>,
    map_depth: i32,
    draws: &Vec<SpawnDraw>,
)
    requires
        old(world).inv(),
        draws_fit(area@, draws@),
    ensures
        final(world).inv(),
        final(world).map.same_ground(&old(world).map),
        final(world).player == old(world).player,
        final(world).dead == old(world).dead,
        final(world).len() <= old(world).len() + draws@.len(),
        final(world).extends(old(world)),
        forall|a: int|
            old(world).len() <= a < final(world).len() ==> #[trigger] joined_in(
                final(world),
                area@,
                a,
            ),
        placed_all(old(world), final(world), area@, draws@),
{
    let spawn_table = room_table(map_depth);
    let mut areas: Vec<usize> = Vec::new();
    let mut k: usize = 0;
    while k < area.len()
        invariant
            k <= area@.len(),
            areas@ == area@.take(k as int),
        decreases area@.len() - k,
    {
        areas.push(area[k]);
        assert(area@.take(k + 1) =~= area@.take(k as int).push(area@[k as int]));
        k = k + 1;
    }
    assert(area@.take(k as int) =~= area@);
    let ghost mut trace: Seq<World> = seq![*world];
    let mut done: usize = 0;
    assert forall|a: int| 0 <= a < old(world).len() implies #[trigger] world.same_actor(
        old(world),
        a,
    ) by {}
    assert forall|j: int| 0 <= j < areas@.len() implies area@.contains(#[trigger] areas@[j]) by {
        assert(area@[j] == areas@[j]);
    }
    while done < draws.len()
        invariant
            done <= draws@.len(),
            draws_fit(area@, draws@),
            areas@ == tiles_left(area@, draws@, done as int),
            areas@.len() == area@.len() - done,
            forall|j: int| 0 <= j < areas@.len() ==> area@.contains(#[trigger] areas@[j]),
            spawn_table@.len() == 2,
            spawn_table@[0].0@ == "mook"@,
            spawn_table@[0].1 == 70,
            spawn_table@[1].0@ == "archer"@,
            spawn_table@[1].1 == 30,
            world.inv(),
            world.map.same_ground(&old(world).map),
            world.player == old(world).player,
            world.dead == old(world).dead,
            world.len() <= old(world).len() + done,
            world.extends(old(world)),
            forall|a: int|
                old(world).len() <= a < world.len() ==> #[trigger] joined_in(world, area@, a),
            trace.len() == done + 1,
            trace[0] == *old(world),
            trace[done as int] == *world,
            spawn_passed(trace, area@, draws@),
        decreases draws@.len() - done,
    {
        let draw = draws[done];
        let array_index = draw.tile;
        let map_idx = areas[array_index];
        assert(area@.contains(areas@[array_index as int]));
        assert(map_idx == drawn_tile(area@, draws@, done as int));
        let name = roll(&spawn_table, draw.kind);
        let ghost rest = areas@;
        areas.remove(array_index);
        assert(areas@ == tiles_left(area@, draws@, done + 1));
        assert forall|j: int| 0 <= j < areas@.len() implies area@.contains(
            #[trigger] areas@[j],
        ) by {
            let from = if j < array_index {
                j
            } else {
                j + 1
            };
            assert(areas@[j] == rest[from]);
        }
        let ghost before = *world;
        if map_idx < world.map.tiles.len() {
            let point = world.map.index_to_point2d(map_idx);
            proof {
                lemma_table_bands(spawn_table@, draw.kind as int);
            }
            match build_from_name(&name, point) {
                Some(actor) => {
                    let ghost built = actor;
                    track_entity(world, actor, map_idx);
                    assert(point == crate::map::point_of(
                        before.map.width as int,
                        map_idx as int,
                    ));
                    assert(is_drawn(built, draw.kind as int, point));
                    assert(joins(&before, world, built, map_idx));
                },
                None => {},
            }
        }
        proof {
            assert(spawns(&before, world, draw.kind as int, map_idx));
            assert forall|a: int| 0 <= a < before.len() implies #[trigger] world.same_actor(
                &before,
                a,
            ) by {}
            assert forall|a: int| 0 <= a < old(world).len() implies #[trigger] world.same_actor(
                old(world),
                a,
            ) by {
                assert(before.same_actor(old(world), a));
                assert(world.same_actor(&before, a));
            }
            assert forall|a: int| old(world).len() <= a < world.len() implies #[trigger] joined_in(
                world,
                area@,
                a,
            ) by {
                if a < before.len() {
                    assert(joined_in(&before, area@, a));
                    assert(world.same_actor(&before, a));
                } else {
                    assert(anchor_tile(world, a) == map_idx);
                }
            }
            let longer = trace.push(*world);
            assert forall|n: int| 0 <= n < longer.len() - 1 implies #[trigger] spawn_linked(
                longer,
                area@,
                draws@,
                n,
            ) by {
                if n < done {
                    assert(spawn_linked(trace, area@, draws@, n));
                }
            }
            trace = longer;
        }
        done = done + 1;
    }
}

/// Whether `draws` can be what is drawn for a region of the level
/// `map_depth` after the die has shown `dice`: as many draws as the die
/// asks for, each for one of the tiles that are left, each with a number
/// below a hundred.
pub open spec fn rolled_for(
    area: Seq<usize>,
    map_depth: int,
    dice: int,
    draws: Seq<SpawnDraw>,
) -> bool {
    let wanted = spawn_count(area.len() as int, dice, map_depth);
    &&& 1 <= dice <= MAX_MONSTERS + 3
    &&& draws.len() == (if wanted < 0 {
        0
    } else {
        wanted
    })
    &&& draws_fit(area, draws)
    &&& forall|n: int| 0 <= n < draws.len() ==> (#[trigger] draws[n]).kind < 100
}

/// `post` is `pre` with the region `area` filled: with what some throw of
/// the die and some draws that can follow it make of `pre`.
pub open spec fn filled(pre: &World, post: &World, area: Seq<usize>, map_depth: int) -> bool {
    exists|dice: int, draws: Seq<SpawnDraw>| #[trigger]
        rolled_for(area, map_depth, dice, draws) && placed_all(pre, post, area, draws)
}

/// Fills a region with monsters: rolls for their number, then draws, for
/// each, one of the tiles of `area` that are left and a kind from the
/// table, and lets the monsters join the world as `place_spawns` does.
/// Whatever is drawn, the world stays in order, nobody who was there is
/// touched, and at most as many monsters join as the region has tiles, each
/// on a tile of the region. A region without tiles stays empty, and so does
/// every region of a level so far up that no throw of the die asks for a
/// monster.
pub fn spawn_region(
    world: &mut World,
    area: &Vec<usize>,
    map_depth: i32,
    rng: &mut rltk::RandomNumberGenerator,
)
    requires
        old(world).inv(),
        area@.len() < i32::MAX,
        i32::MIN + 8 <= map_depth <= i32::MAX - 8,
    ensures
        final(world).inv(),
        final(world).map.same_ground(&old(world).map),
        final(world).player == old(world).player,
        final(world).dead == old(world).dead,
        final(world).len() <= old(world).len() + area@.len(),
        final(world).extends(old(world)),
        forall|a: int|
            old(world).len() <= a < final(world).len() ==> #[trigger] joined_in(
                final(world),
                area@,
                a,
            ),
        filled(old(world), final(world), area@, map_depth as int),
        area@.len() == 0 || map_depth + MAX_MONSTERS <= 0 ==> *final(world) == *old(world),
{
    let dice = roll_dice(rng, 1, MAX_MONSTERS + 3);
    let num_spawns = count_spawns(area.len(), dice, map_depth);
    let mut draws: Vec<SpawnDraw> = Vec::new();
    let mut done: i32 = 0;
    while done < num_spawns
        invariant
            0 <= done,
            done == 0 || done <= num_spawns,
            num_spawns <= area@.len(),
            num_spawns == spawn_count(area@.len() as int, dice as int, map_depth as int),
            1 <= dice <= MAX_MONSTERS + 3,
            area@.len() < i32::MAX,
            draws@.len() == done,
            forall|n: int|
                0 <= n < draws@.len() ==> (#[trigger] draws@[n]).tile < area@.len() - n
                    && draws@[n].kind < 100,
        decreases num_spawns - done,
    {
        let left = area.len() - done as usize;
        let tile: usize = if left == 1 {
            0
        } else {
            (roll_dice(rng, 1, left as i32) - 1) as usize
        };
        let kind = random_below(rng, 100) as u32;
        draws.push(SpawnDraw { tile, kind });
        done = done + 1;
    }
    proof {
        assert(rolled_for(area@, map_depth as int, dice as int, draws@));
    }
    if draws.len() == 0 {
        proof {
            let trace = seq![*world];
            assert(spawn_passed(trace, area@, draws@));
            assert(placed_all(old(world), world, area@, draws@));
            assert forall|a: int| 0 <= a < old(world).len() implies #[trigger] world.same_actor(
                old(world),
                a,
            ) by {}
        }
        return ;
    }
    place_spawns(world, area, map_depth, &draws);
}

/// The tiles of a block of `across` columns and `down` rows whose north-west
/// corner is the tile in column `west` of row `north`: row by row from the
/// north, each row from the west.
pub open spec fn block_tiles(width: int, west: int, north: int, across: int, down: int) -> Seq<
    usize,
> {
    Seq::new(
        (down * across) as nat,
        |k: int| crate::map::tile_of(width, west + k % across, north + k / across),
    )
}

/// The tiles of the part of `room` that lies on a grid of `width` by
/// `height` tiles: row by row from the north, each row from the west.
pub open spec fn room_tiles(room: Rect, width: int, height: int) -> Seq<usize> {
    let west = if room.x1 < 0 {
        0
    } else {
        room.x1 as int
    };
    let east = if room.x2 > width - 1 {
        width - 1
    } else {
        room.x2 as int
    };
    let north = if room.y1 < 0 {
        0
    } else {
        room.y1 as int
    };
    let south = if room.y2 > height - 1 {
        height - 1
    } else {
        room.y2 as int
    };
    let across = east - west + 1;
    let down = south - north + 1;
    if across <= 0 || down <= 0 {
        Seq::empty()
    } else {
        block_tiles(width, west, north, across, down)
    }
}

/// The tiles of `room`, as far as the room lies on the map.
pub fn room_area(map: &TileMap, room: &Rect) -> (area: Vec<usize>)
    requires
        map.wf(),
    ensures
        area@ == room_tiles(*room, map.width as int, map.height as int),
        forall|k: int| 0 <= k < area@.len() ==> #[trigger] area@[k] < map.tiles@.len(),
{
    let mut area: Vec<usize> = Vec::new();
    let west: i32 = if room.x1 < 0 {
        0
    } else {
        room.x1
    };
    let east: i32 = if room.x2 > map.width - 1 {
        map.width - 1
    } else {
        room.x2
    };
    let north: i32 = if room.y1 < 0 {
        0
    } else {
        room.y1
    };
    let south: i32 = if room.y2 > map.height - 1 {
        map.height - 1
    } else {
        room.y2
    };
    if east < west || south < north {
        assert(area@ =~= room_tiles(*room, map.width as int, map.height as int));
        return area;
    }
    let ghost across = east - west + 1;
    let ghost down = south - north + 1;
    let ghost tiles = block_tiles(map.width as int, west as int, north as int, across, down);
    assert(tiles == room_tiles(*room, map.width as int, map.height as int));
    assert(tiles.len() == down * across) by (nonlinear_arith)
        requires
            tiles.len() == (down * across) as nat,
            down > 0,
            across > 0,
    ;
    let mut y: i32 = north;
    while y <= south
        invariant
            map.wf(),
            0 <= west <= east < map.width,
            0 <= north <= south < map.height,
            across == east - west + 1,
            down == south - north + 1,
            tiles == block_tiles(map.width as int, west as int, north as int, across, down),
            tiles.len() == down * across,
            north <= y <= south + 1,
            area@.len() == (y - north) * across,
            forall|k: int| 0 <= k < area@.len() ==> area@[k] == tiles[k],
            forall|k: int| 0 <= k < area@.len() ==> #[trigger] area@[k] < map.tiles@.len(),
        decreases south + 1 - y,
    {
        let mut x: i32 = west;
        while x <= east
            invariant
                map.wf(),
                0 <= west <= east < map.width,
                0 <= north <= south < map.height,
                across == east - west + 1,
                down == south - north + 1,
                tiles == block_tiles(map.width as int, west as int, north as int, across, down),
                tiles.len() == down * across,
                north <= y <= south,
                west <= x <= east + 1,
                area@.len() == (y - north) * across + (x - west),
                forall|k: int| 0 <= k < area@.len() ==> area@[k] == tiles[k],
                forall|k: int| 0 <= k < area@.len() ==> #[trigger] area@[k] < map.tiles@.len(),
            decreases east + 1 - x,
        {
            proof {
                let k = (y - north) * across + (x - west);
                vstd::arithmetic::div_mod::lemma_fundamental_div_mod_converse(
                    k,
                    across,
                    y - north,
                    x - west,
                );
                assert(k < down * across) by (nonlinear_arith)
                    requires
                        k == (y - north) * across + (x - west),
                        0 <= y - north < down,
                        0 <= x - west < across,
                ;
                assert(k % across == x - west && k / across == y - north);
                assert(tiles[k] == crate::map::tile_of(map.width as int, x as int, y as int));
            }
            let tile = map.get_index(x, y);
            let ghost filled = area@;
            area.push(tile);
            assert forall|k: int| 0 <= k < area@.len() implies area@[k] == tiles[k] by {
                if k < filled.len() {
                    assert(area@[k] == filled[k]);
                }
            }
            x = x + 1;
        }
        proof {
            assert((y + 1 - north) * across == (y - north) * across + across) by (nonlinear_arith);
        }
        y = y + 1;
    }
    assert(area@ =~= tiles);
    area
}

/// Actor `a` is a monster of the table that stands, alive, with its anchor
/// in one of the rooms of the level.
pub open spec fn housed(world: &World, a: int) -> bool {
    exists|r: int|
        0 <= r < world.map.rooms@.len() && #[trigger] joined_in(
            world,
            room_tiles(world.map.rooms@[r], world.map.width as int, world.map.height as int),
            a,
        )
}

/// World `r` of the trace leads to the next by the filling of room `r`. A
/// room with more tiles than can be rolled for is passed over.
pub open spec fn room_linked(trace: Seq<World>, r: int) -> bool {
    let pre = &trace[r];
    let area = room_tiles(pre.map.rooms@[r], pre.map.width as int, pre.map.height as int);
    if area.len() < i32::MAX {
        filled(pre, &trace[r + 1], area, pre.map.depth as int)
    } else {
        trace[r + 1] == trace[r]
    }
}

/// Every world of the trace but the last leads to the next by the filling
/// of one room, the rooms taken in the order in which the map holds them.
pub open spec fn rooms_passed(trace: Seq<World>) -> bool {
    forall|r: int| 0 <= r < trace.len() - 1 ==> #[trigger] room_linked(trace, r)
}

/// `post` is `pre` with every room filled, one after another.
pub open spec fn levelled(pre: &World, post: &World) -> bool {
    exists|trace: Seq<World>|
        trace.len() == pre.map.rooms@.len() + 1 && trace[0] == *pre && trace[pre.map.rooms@.len() as int]
            == *post && #[trigger] rooms_passed(trace)
}

/// Fills the level with monsters, room by room: each room of the map is a
/// region of its own, filled as `spawn_region` fills it. Whatever is drawn,
/// the world stays in order, nobody who was there is touched, and whoever
/// joins is a monster of the table in one of the rooms. A room with more
/// tiles than can be rolled for stays as it is, and so does a level without
/// rooms.
pub fn build_level(world: &mut World, rng: &mut rltk::RandomNumberGenerator)
    requires
        old(world).inv(),
        i32::MIN + 8 <= old(world).map.depth <= i32::MAX - 8,
    ensures
        final(world).inv(),
        final(world).map.same_ground(&old(world).map),
        final(world).player == old(world).player,
        final(world).dead == old(world).dead,
        final(world).extends(old(world)),
        forall|a: int| old(world).len() <= a < final(world).len() ==> #[trigger] housed(
            final(world),
            a,
        ),
        levelled(old(world), final(world)),
        old(world).map.rooms@.len() == 0 ==> *final(world) == *old(world),
{
    let ghost mut trace: Seq<World> = seq![*world];
    let depth = world.map.depth;
    let count = world.map.rooms.len();
    let mut r: usize = 0;
    assert forall|a: int| 0 <= a < old(world).len() implies #[trigger] world.same_actor(
        old(world),
        a,
    ) by {}
    while r < count
        invariant
            world.inv(),
            world.map.same_ground(&old(world).map),
            world.player == old(world).player,
            world.dead == old(world).dead,
            world.extends(old(world)),
            depth == old(world).map.depth,
            i32::MIN + 8 <= depth <= i32::MAX - 8,
            count == world.map.rooms@.len(),
            r <= count,
            forall|a: int| old(world).len() <= a < world.len() ==> #[trigger] housed(world, a),
            trace.len() == r + 1,
            trace[0] == *old(world),
            trace[r as int] == *world,
            rooms_passed(trace),
        decreases count - r,
    {
        let room = world.map.rooms[r];
        let area = room_area(&world.map, &room);
        let ghost before = *world;
        if area.len() < 0x7fff_ffff {
            spawn_region(world, &area, depth, rng);
        }
        proof {
            let longer = trace.push(*world);
            assert(room_linked(longer, r as int));
            assert forall|q: int| 0 <= q < longer.len() - 1 implies #[trigger] room_linked(
                longer,
                q,
            ) by {
                if q < r {
                    assert(room_linked(trace, q));
                }
            }
            trace = longer;
            assert forall|a: int| 0 <= a < old(world).len() implies #[trigger] world.same_actor(
                old(world),
                a,
            ) by {
                assert(before.same_actor(old(world), a));
                assert(world.same_actor(&before, a));
            }
            assert forall|a: int| old(world).len() <= a < world.len() implies #[trigger] housed(
                world,
                a,
            ) by {
                if a < before.len() {
                    assert(housed(&before, a));
                    let at = choose|at: int|
                        0 <= at < before.map.rooms@.len() && #[trigger] joined_in(
                            &before,
                            room_tiles(
                                before.map.rooms@[at],
                                before.map.width as int,
                                before.map.height as int,
                            ),
                            a,
                        );
                    assert(world.same_actor(&before, a));
                    assert(joined_in(
                        world,
                        room_tiles(
                            world.map.rooms@[at],
                            world.map.width as int,
                            world.map.height as int,
                        ),
                        a,
                    ));
                } else {
                    assert(joined_in(world, area@, a));
                    assert(joined_in(
                        world,
                        room_tiles(
                            world.map.rooms@[r as int],
                            world.map.width as int,
                            world.map.height as int,
                        ),
                        a,
                    ));
                }
            }
        }
        r = r + 1;
    }
}

} // verus!
