use vstd::prelude::*;
use std::collections::HashMap;
use crate::components::{footprint_cells, footprint_of, MultiTile};
use crate::geometry::{manhattan, manhattan_distance, Point, Rect};
use crate::random::random_below;

verus! {

broadcast use vstd::std_specs::hash::group_hash_axioms;

#[derive(Clone, Copy, Debug, PartialEq, Eq, Structural)]
pub enum TileType {
    Wall,
    Floor,
}

/// For whom exits are being looked for: the actor, which does not block
/// itself, and the offsets of its footprint.
pub struct SearchArgs {
    pub search_entity: Option<usize>,
    pub footprint: Vec<Point>,
}

/// The grid of a level with its occupancy indices. Tiles are numbered row by
/// row; `creature_map` and `item_map` tell which actor and which item stand on
/// a tile, and `blocked_tiles` tells where nobody else may step.
pub struct TileMap {
    pub tiles: Vec<TileType>,
    pub rooms: Vec<Rect>,
    pub width: i32,
    pub height: i32,
    pub depth: i32,
    pub item_map: HashMap<usize, usize>,
    pub creature_map: HashMap<usize, usize>,
    pub known_tiles: Vec<bool>,
    pub visible_tiles: Vec<bool>,
    pub blocked_tiles: Vec<bool>,
    pub level_exit: usize,
    pub search_args: SearchArgs,
}

/// Who stands where, and where nobody else may step: the part of a map that
/// placing, removing and moving actors change.
#[verifier::ext_equal]
pub struct Occupancy {
    pub creatures: Map<usize, usize>,
    pub blocked: Seq<bool>,
}

/// The number of the tile in column `x` and row `y` of a grid that is `width`
/// tiles wide.
pub open spec fn tile_of(width: int, x: int, y: int) -> usize {
    (y * width + x) as usize
}

/// The tiles under an actor: that of its anchor first, then that of each
/// offset of its footprint.
pub open spec fn footprint_tiles(width: int, anchor: Point, cells: Seq<Point>) -> Seq<usize> {
    seq![tile_of(width, anchor.x as int, anchor.y as int)] + cells.map_values(
        |c: Point| tile_of(width, anchor.x + c.x, anchor.y + c.y),
    )
}

/// `occ` after `actor` has taken `tiles`: each of them is indexed to the
/// actor and blocked, whatever it held before.
pub open spec fn occupied(occ: Occupancy, tiles: Seq<usize>, actor: usize) -> Occupancy {
    Occupancy {
        creatures: Map::new(
            |t: usize| occ.creatures.contains_key(t) || tiles.contains(t),
            |t: usize|
                if tiles.contains(t) {
                    actor
                } else {
                    occ.creatures[t]
                },
        ),
        blocked: Seq::new(occ.blocked.len(), |t: int| occ.blocked[t] || tiles.contains(t as usize)),
    }
}

/// `occ` after `tiles` have been given up: none of them is indexed any
/// longer, and each is blocked only if it is a wall.
pub open spec fn vacated(occ: Occupancy, tiles: Seq<usize>, ground: Seq<TileType>) -> Occupancy {
    Occupancy {
        creatures: Map::new(
            |t: usize| occ.creatures.contains_key(t) && !tiles.contains(t),
            |t: usize| occ.creatures[t],
        ),
        blocked: Seq::new(
            occ.blocked.len(),
            |t: int|
                if tiles.contains(t as usize) {
                    ground[t] == TileType::Wall
                } else {
                    occ.blocked[t]
                },
        ),
    }
}

/// The rule that ties the blocked bitmap to the occupancy index: a tile is
/// blocked exactly if it is a wall or somebody stands on it, and nobody
/// stands outside the grid.
pub open spec fn agrees(occ: Occupancy, ground: Seq<TileType>) -> bool {
    &&& occ.blocked.len() == ground.len()
    &&& forall|t: usize| occ.creatures.contains_key(t) ==> t < ground.len()
    &&& forall|t: int|
        0 <= t < ground.len() ==> (#[trigger] occ.blocked[t] <==> ground[t] == TileType::Wall
            || occ.creatures.contains_key(t as usize))
}

/// What placing `actor` at `tiles` makes of `occ`: nothing where the anchor,
/// the first of the tiles, is taken already.
pub open spec fn placed_on(occ: Occupancy, tiles: Seq<usize>, actor: usize) -> Occupancy {
    if occ.creatures.contains_key(tiles[0]) {
        occ
    } else {
        occupied(occ, tiles, actor)
    }
}

/// What removing the actor at `tiles` makes of `occ`: where somebody stands
/// on the anchor, all the tiles are given up, else the anchor alone.
pub open spec fn removed_from(occ: Occupancy, tiles: Seq<usize>, ground: Seq<TileType>) -> Occupancy {
    if occ.creatures.contains_key(tiles[0]) {
        vacated(occ, tiles, ground)
    } else {
        vacated(occ, seq![tiles[0]], ground)
    }
}

/// One element more of a sequence holds what one fewer held, and the
/// element that was added.
pub proof fn lemma_take_contains<T>(s: Seq<T>, k: int, t: T)
    requires
        0 <= k < s.len(),
    ensures
        s.take(k + 1).contains(t) <==> s.take(k).contains(t) || s[k] == t,
{
    let more = s.take(k + 1);
    let less = s.take(k);
    if more.contains(t) {
        let i = choose|i: int| 0 <= i < more.len() && more[i] == t;
        if i < k {
            assert(less[i] == t);
        }
    }
    if less.contains(t) {
        let i = choose|i: int| 0 <= i < less.len() && less[i] == t;
        assert(more[i] == t);
    }
    if s[k] == t {
        assert(more[k] == t);
    }
}

/// A sequence with one element pushed holds what it held, and the
/// element.
pub proof fn lemma_push_contains<T>(s: Seq<T>, x: T, t: T)
    ensures
        s.push(x).contains(t) <==> s.contains(t) || x == t,
{
    let more = s.push(x);
    if more.contains(t) {
        let i = choose|i: int| 0 <= i < more.len() && more[i] == t;
        if i < s.len() {
            assert(s[i] == t);
        }
    }
    if s.contains(t) {
        let i = choose|i: int| 0 <= i < s.len() && s[i] == t;
        assert(more[i] == t);
    }
    if x == t {
        assert(more[s.len() as int] == t);
    }
}

/// In a grid of `width` by `height`, the tile in column `x` of row `y` has a
/// number below `width * height`, and its column and row can be read back
/// from the number.
pub proof fn lemma_tile_in_grid(width: int, height: int, x: int, y: int)
    requires
        0 <= x < width,
        0 <= y < height,
    ensures
        0 <= y * width + x < width * height,
        0 <= y * width <= width * height - width,
        (y * width + x) % width == x,
        (y * width + x) / width == y,
{
    assert(0 <= y * width <= (height - 1) * width) by (nonlinear_arith)
        requires
            0 <= y <= height - 1,
            0 < width,
    ;
    assert((height - 1) * width == width * height - width) by (nonlinear_arith);
    vstd::arithmetic::div_mod::lemma_fundamental_div_mod_converse(y * width + x, width, y, x);
}

/// Taking tiles and giving tiles up both keep the blocked bitmap in step
/// with the occupancy index.
pub proof fn lemma_agreement_kept(
    occ: Occupancy,
    tiles: Seq<usize>,
    actor: usize,
    ground: Seq<TileType>,
)
    requires
        agrees(occ, ground),
        forall|k: int| 0 <= k < tiles.len() ==> tiles[k] < ground.len(),
    ensures
        agrees(occupied(occ, tiles, actor), ground),
        agrees(vacated(occ, tiles, ground), ground),
{
    let up = occupied(occ, tiles, actor);
    assert forall|t: usize| up.creatures.contains_key(t) implies t < ground.len() by {
        if tiles.contains(t) {
            let k = choose|k: int| 0 <= k < tiles.len() && tiles[k] == t;
        }
    }
    assert forall|t: int| 0 <= t < ground.len() implies (#[trigger] up.blocked[t] <==> ground[t]
        == TileType::Wall || up.creatures.contains_key(t as usize)) by {
        assert(occ.blocked[t] <==> ground[t] == TileType::Wall || occ.creatures.contains_key(
            t as usize,
        ));
    }
    let down = vacated(occ, tiles, ground);
    assert forall|t: int| 0 <= t < ground.len() implies (#[trigger] down.blocked[t] <==> ground[t]
        == TileType::Wall || down.creatures.contains_key(t as usize)) by {
        assert(occ.blocked[t] <==> ground[t] == TileType::Wall || occ.creatures.contains_key(
            t as usize,
        ));
    }
}

/// Removing an actor from the tiles it holds and placing it there again
/// gives back the occupancy and the blocked bitmap as they were.
pub proof fn lemma_remove_then_place_restores(
    occ: Occupancy,
    tiles: Seq<usize>,
    actor: usize,
    ground: Seq<TileType>,
)
    requires
        agrees(occ, ground),
        tiles.len() > 0,
        forall|k: int|
            0 <= k < tiles.len() ==> occ.creatures.contains_key(#[trigger] tiles[k])
                && occ.creatures[tiles[k]] == actor,
    ensures
        !removed_from(occ, tiles, ground).creatures.contains_key(tiles[0]),
        placed_on(removed_from(occ, tiles, ground), tiles, actor) == occ,
{
    let down = removed_from(occ, tiles, ground);
    assert(tiles.contains(tiles[0]));
    let back = placed_on(down, tiles, actor);
    assert(back.creatures =~= occ.creatures) by {
        assert forall|t: usize| back.creatures.contains_key(t) == occ.creatures.contains_key(
            t,
        ) by {
            if tiles.contains(t) {
                let k = choose|k: int| 0 <= k < tiles.len() && tiles[k] == t;
            }
        }
        assert forall|t: usize| back.creatures.contains_key(t) implies back.creatures[t]
            == occ.creatures[t] by {
            if tiles.contains(t) {
                let k = choose|k: int| 0 <= k < tiles.len() && tiles[k] == t;
            }
        }
    }
    assert(back.blocked =~= occ.blocked) by {
        assert forall|t: int| 0 <= t < occ.blocked.len() implies back.blocked[t]
            == occ.blocked[t] by {
            if tiles.contains(t as usize) {
                let k = choose|k: int| 0 <= k < tiles.len() && tiles[k] == t as usize;
                assert(occ.creatures.contains_key(tiles[k]));
            }
        }
    }
}

/// After a move, the actor is indexed on every tile of its new footprint,
/// and these tiles are blocked. Of the tiles that it has left none is
/// indexed any longer, and none is blocked that is no wall: no stale entry
/// stays behind. Whatever lies under neither footprint is as it was.
pub proof fn lemma_move_leaves_nothing_behind(
    occ: Occupancy,
    prev_tiles: Seq<usize>,
    next_tiles: Seq<usize>,
    actor: usize,
    ground: Seq<TileType>,
)
    ensures
        forall|k: int|
            0 <= k < next_tiles.len() ==> occupied(
                vacated(occ, prev_tiles, ground),
                next_tiles,
                actor,
            ).creatures.contains_key(#[trigger] next_tiles[k]) && occupied(
                vacated(occ, prev_tiles, ground),
                next_tiles,
                actor,
            ).creatures[next_tiles[k]] == actor,
        forall|k: int|
            0 <= k < next_tiles.len() && (#[trigger] next_tiles[k]) < occ.blocked.len() ==> occupied(
                vacated(occ, prev_tiles, ground),
                next_tiles,
                actor,
            ).blocked[next_tiles[k] as int],
        forall|k: int|
            0 <= k < prev_tiles.len() && !next_tiles.contains(#[trigger] prev_tiles[k])
                ==> !occupied(
                vacated(occ, prev_tiles, ground),
                next_tiles,
                actor,
            ).creatures.contains_key(prev_tiles[k]),
        forall|k: int|
            0 <= k < prev_tiles.len() && !next_tiles.contains(#[trigger] prev_tiles[k])
                && prev_tiles[k] < occ.blocked.len() ==> (occupied(
                vacated(occ, prev_tiles, ground),
                next_tiles,
                actor,
            ).blocked[prev_tiles[k] as int] <==> ground[prev_tiles[k] as int] == TileType::Wall),
        forall|t: usize|
            !prev_tiles.contains(t) && !next_tiles.contains(t) ==> (#[trigger] occupied(
                vacated(occ, prev_tiles, ground),
                next_tiles,
                actor,
            ).creatures.contains_key(t) <==> occ.creatures.contains_key(t)) && (
            occ.creatures.contains_key(t) ==> occupied(
                vacated(occ, prev_tiles, ground),
                next_tiles,
                actor,
            ).creatures[t] == occ.creatures[t]) && (t < occ.blocked.len() ==> occupied(
                vacated(occ, prev_tiles, ground),
                next_tiles,
                actor,
            ).blocked[t as int] == occ.blocked[t as int]),
{
    let after = occupied(vacated(occ, prev_tiles, ground), next_tiles, actor);
    assert forall|k: int| 0 <= k < next_tiles.len() implies after.creatures.contains_key(
        #[trigger] next_tiles[k],
    ) && after.creatures[next_tiles[k]] == actor by {
        assert(next_tiles.contains(next_tiles[k]));
    }
    assert forall|k: int|
        0 <= k < next_tiles.len() && (#[trigger] next_tiles[k])
            < occ.blocked.len() implies after.blocked[next_tiles[k] as int] by {
        assert(next_tiles.contains(next_tiles[k]));
    }
    assert forall|k: int|
        0 <= k < prev_tiles.len() && !next_tiles.contains(
            #[trigger] prev_tiles[k],
        ) implies !after.creatures.contains_key(prev_tiles[k]) by {
        assert(prev_tiles.contains(prev_tiles[k]));
    }
    assert forall|k: int|
        0 <= k < prev_tiles.len() && !next_tiles.contains(#[trigger] prev_tiles[k]) && prev_tiles[k]
            < occ.blocked.len() implies (after.blocked[prev_tiles[k] as int]
        <==> ground[prev_tiles[k] as int] == TileType::Wall) by {
        assert(prev_tiles.contains(prev_tiles[k]));
    }
}

/// The tile with the number `t`, as a point of a grid that is `width` wide.
pub open spec fn point_of(width: int, t: int) -> Point {
    Point { x: (t % width) as i32, y: (t / width) as i32 }
}

/// `ground` with floor on every tile of `area`.
pub open spec fn carved(ground: Seq<TileType>, width: int, area: spec_fn(Point) -> bool) -> Seq<
    TileType,
> {
    Seq::new(
        ground.len(),
        |t: int|
            if area(point_of(width, t)) {
                TileType::Floor
            } else {
                ground[t]
            },
    )
}

/// Whether the tile at `p` lies on the corridor from `start` to `end`: on
/// the row of `start` between the two columns, or in the column of `end`
/// between the two rows.
pub open spec fn on_corridor(start: Point, end: Point, p: Point) -> bool {
    ||| (p.y == start.y && ((start.x <= p.x <= end.x) || (end.x <= p.x <= start.x)))
    ||| (p.x == end.x && ((start.y <= p.y <= end.y) || (end.y <= p.y <= start.y)))
}

fn filled<T: Copy>(value: T, count: usize) -> (all: Vec<T>)
    ensures
        all@.len() == count,
        forall|k: int| 0 <= k < count ==> all@[k] == value,
{
    let mut all: Vec<T> = Vec::new();
    let mut k: usize = 0;
    while k < count
        invariant
            k <= count,
            all@.len() == k,
            forall|n: int| 0 <= n < k ==> all@[n] == value,
        decreases count - k,
    {
        all.push(value);
        k = k + 1;
    }
    all
}

impl TileMap {
    /// The sizes fit together: a positive width and height whose product
    /// fits an `i32`, and one entry per tile in each bitmap.
    pub open spec fn wf(&self) -> bool {
        &&& 0 < self.width
        &&& 0 < self.height
        &&& self.width * self.height <= i32::MAX
        &&& self.tiles@.len() == self.width * self.height
        &&& self.known_tiles@.len() == self.tiles@.len()
        &&& self.visible_tiles@.len() == self.tiles@.len()
        &&& self.blocked_tiles@.len() == self.tiles@.len()
    }

    /// Who stands where on the map, and where nobody else may step.
    pub open spec fn occupancy(&self) -> Occupancy {
        Occupancy { creatures: self.creature_map@, blocked: self.blocked_tiles@ }
    }

    /// The blocked bitmap and the occupancy index agree.
    pub open spec fn consistent(&self) -> bool {
        agrees(self.occupancy(), self.tiles@)
    }

    /// `other` differs from `self` at most in who stands where, in what is
    /// blocked, and in for whom exits are looked for.
    pub open spec fn same_ground(&self, other: &TileMap) -> bool {
        &&& self.tiles == other.tiles
        &&& self.rooms == other.rooms
        &&& self.width == other.width
        &&& self.height == other.height
        &&& self.depth == other.depth
        &&& self.item_map == other.item_map
        &&& self.known_tiles == other.known_tiles
        &&& self.visible_tiles == other.visible_tiles
        &&& self.level_exit == other.level_exit
    }

    /// Whether the tile in column `x` of row `y` is a tile of the grid.
    pub open spec fn in_bounds(&self, x: int, y: int) -> bool {
        0 <= x < self.width && 0 <= y < self.height
    }

    /// The anchor and every cell of the footprint lie on the grid.
    pub open spec fn holds(&self, anchor: Point, cells: Seq<Point>) -> bool {
        &&& self.in_bounds(anchor.x as int, anchor.y as int)
        &&& forall|k: int|
            0 <= k < cells.len() ==> self.in_bounds(
                anchor.x + (#[trigger] cells[k]).x,
                anchor.y + cells[k].y,
            )
    }

    /// The actor for whom exits are being looked for.
    pub open spec fn search_entity(&self) -> Option<usize> {
        self.search_args.search_entity
    }

    /// The footprint of the actor for whom exits are being looked for.
    pub open spec fn search_footprint(&self) -> Seq<Point> {
        self.search_args.footprint@
    }

    /// Whether `who` may stand on the tile in column `x` of row `y`: the
    /// tile is one of the grid and no wall, and it is not blocked, or
    /// blocked by `who` itself.
    pub open spec fn passable(&self, x: int, y: int, who: Option<usize>) -> bool {
        &&& 0 <= x < self.width
        &&& 0 <= y < self.height
        &&& {
            let t = tile_of(self.width as int, x, y);
            &&& self.tiles@[t as int] != TileType::Wall
            &&& {
                ||| !self.blocked_tiles@[t as int]
                ||| (who is Some && self.creature_map@.contains_key(t) && self.creature_map@[t]
                    == who->0)
            }
        }
    }

    /// Whether `who`, with a footprint of `cells`, may have its anchor on the
    /// tile in column `x` of row `y`: the anchor and every cell of the
    /// footprint must be passable for it.
    pub open spec fn exit_valid(&self, x: int, y: int, who: Option<usize>, cells: Seq<Point>) -> bool {
        &&& self.passable(x, y, who)
        &&& forall|k: int|
            0 <= k < cells.len() ==> self.passable(x + (#[trigger] cells[k]).x, y + cells[k].y, who)
    }

    /// The neighbour of `idx` to the west, east, north and south, in that
    /// order, each with a cost of one, as far as it is a valid exit.
    pub open spec fn exits_from(&self, idx: usize, who: Option<usize>, cells: Seq<Point>) -> Seq<
        (usize, u32),
    > {
        let x = idx as int % self.width as int;
        let y = idx as int / self.width as int;
        (if self.exit_valid(x - 1, y, who, cells) {
            seq![((idx - 1) as usize, 1u32)]
        } else {
            Seq::empty()
        }) + (if self.exit_valid(x + 1, y, who, cells) {
            seq![((idx + 1) as usize, 1u32)]
        } else {
            Seq::empty()
        }) + (if self.exit_valid(x, y - 1, who, cells) {
            seq![((idx - self.width) as usize, 1u32)]
        } else {
            Seq::empty()
        }) + (if self.exit_valid(x, y + 1, who, cells) {
            seq![((idx + self.width) as usize, 1u32)]
        } else {
            Seq::empty()
        })
    }

    /// A level of the given size that is all wall, with nobody on it.
    pub fn new(width: i32, height: i32, depth: i32) -> (map: TileMap)
        requires
            0 < width,
            0 < height,
            width * height <= i32::MAX,
        ensures
            map.wf(),
            map.consistent(),
            map.width == width,
            map.height == height,
            map.depth == depth,
            map.level_exit == 0,
            map.rooms@.len() == 0,
            map.creature_map@ == Map::<usize, usize>::empty(),
            map.item_map@ == Map::<usize, usize>::empty(),
            map.search_entity() is None,
            forall|t: int|
                0 <= t < width * height ==> map.tiles@[t] == TileType::Wall && map.blocked_tiles@[t]
                    && !map.known_tiles@[t] && !map.visible_tiles@[t],
    {
        assert(0 < width * height) by (nonlinear_arith)
            requires
                0 < width,
                0 < height,
        ;
        let dim: usize = (width as i64 * height as i64) as usize;
        TileMap {
            tiles: filled(TileType::Wall, dim),
            rooms: Vec::new(),
            width,
            height,
            depth,
            item_map: HashMap::new(),
            creature_map: HashMap::new(),
            known_tiles: filled(false, dim),
            visible_tiles: filled(false, dim),
            blocked_tiles: filled(true, dim),
            level_exit: 0,
            search_args: SearchArgs { search_entity: None, footprint: Vec::new() },
        }
    }

    /// The number of the tile in column `x` of row `y`.
    pub fn get_index(&self, x: i32, y: i32) -> (index: usize)
        requires
            self.wf(),
            self.in_bounds(x as int, y as int),
        ensures
            index == tile_of(self.width as int, x as int, y as int),
            index == y * self.width + x,
            index < self.tiles@.len(),
    {
        proof {
            lemma_tile_in_grid(self.width as int, self.height as int, x as int, y as int);
        }
        ((y * self.width) + x) as usize
    }

    /// The number of the tile at `pt`.
    pub fn point2d_to_index(&self, pt: Point) -> (index: usize)
        requires
            self.wf(),
            self.in_bounds(pt.x as int, pt.y as int),
        ensures
            index == tile_of(self.width as int, pt.x as int, pt.y as int),
            index < self.tiles@.len(),
    {
        self.get_index(pt.x, pt.y)
    }

    /// The tile with the number `idx`, as a point.
    pub fn index_to_point2d(&self, idx: usize) -> (pt: Point)
        requires
            self.wf(),
            idx < self.tiles@.len(),
        ensures
            pt.x == idx as int % self.width as int,
            pt.y == idx as int / self.width as int,
            self.in_bounds(pt.x as int, pt.y as int),
            tile_of(self.width as int, pt.x as int, pt.y as int) == idx,
    {
        let w: usize = self.width as usize;
        proof {
            let i = idx as int;
            let wi = self.width as int;
            vstd::arithmetic::div_mod::lemma_fundamental_div_mod(i, wi);
            vstd::arithmetic::div_mod::lemma_mod_pos_bound(i, wi);
            vstd::arithmetic::div_mod::lemma_div_pos_is_pos(i, wi);
            vstd::arithmetic::div_mod::lemma_multiply_divide_lt(i, wi, self.height as int);
            assert(wi * (i / wi) == (i / wi) * wi) by (nonlinear_arith);
        }
        Point { x: (idx % w) as i32, y: (idx / w) as i32 }
    }

    /// Whether the tile stops sight.
    pub fn is_opaque(&self, idx: usize) -> (opaque: bool)
        requires
            idx < self.tiles@.len(),
        ensures
            opaque == (self.tiles@[idx as int] == TileType::Wall),
    {
        self.tiles[idx] == TileType::Wall
    }

    /// The cost of a path between two tiles on an empty grid.
    pub fn get_pathing_distance(&self, idx1: usize, idx2: usize) -> (cost: u64)
        requires
            self.wf(),
            idx1 < self.tiles@.len(),
            idx2 < self.tiles@.len(),
        ensures
            cost == manhattan(
                Point {
                    x: (idx1 as int % self.width as int) as i32,
                    y: (idx1 as int / self.width as int) as i32,
                },
                Point {
                    x: (idx2 as int % self.width as int) as i32,
                    y: (idx2 as int / self.width as int) as i32,
                },
            ),
    {
        let here = self.index_to_point2d(idx1);
        let there = self.index_to_point2d(idx2);
        manhattan_distance(here, there)
    }

    /// Marks the walls, and nothing else, as blocked.
    pub fn set_blocked_tiles(&mut self)
        requires
            old(self).wf(),
        ensures
            final(self).wf(),
            final(self).same_ground(old(self)),
            final(self).creature_map == old(self).creature_map,
            final(self).search_args == old(self).search_args,
            forall|t: int|
                0 <= t < final(self).tiles@.len() ==> final(self).blocked_tiles@[t] == (old(self).tiles@[t] == TileType::Wall),
    {
        let mut index: usize = 0;
        while index < self.tiles.len()
            invariant
                self.wf(),
                self.same_ground(old(self)),
                self.creature_map == old(self).creature_map,
                self.search_args == old(self).search_args,
                index <= self.tiles@.len(),
                forall|t: int|
                    0 <= t < index ==> self.blocked_tiles@[t] == (self.tiles@[t]
                        == TileType::Wall),
            decreases self.tiles@.len() - index,
        {
            let is_blocked = self.tiles[index] == TileType::Wall;
            self.blocked_tiles.set(index, is_blocked);
            index = index + 1;
        }
    }

    fn is_tile_valid(&self, x: i64, y: i64) -> (valid: bool)
        requires
            self.wf(),
        ensures
            valid == self.passable(x as int, y as int, self.search_entity()),
    {
        if x < 0 || x >= self.width as i64 || y < 0 || y >= self.height as i64 {
            return false;
        }
        let index = self.get_index(x as i32, y as i32);
        if self.tiles[index] == TileType::Wall {
            return false;
        }
        if !self.blocked_tiles[index] {
            return true;
        }
        match self.search_args.search_entity {
            Some(search_entity) => match self.creature_map.get(&index) {
                Some(map_entity) => *map_entity == search_entity,
                None => false,
            },
            None => false,
        }
    }

    /// Whether the actor that exits are being looked for may step to the
    /// tile in column `x` of row `y`.
    pub fn is_exit_valid(&self, x: i32, y: i32) -> (valid: bool)
        requires
            self.wf(),
        ensures
            valid == self.exit_valid(
                x as int,
                y as int,
                self.search_entity(),
                self.search_footprint(),
            ),
    {
        if !self.is_tile_valid(x as i64, y as i64) {
            return false;
        }
        let mut k: usize = 0;
        while k < self.search_args.footprint.len()
            invariant
                self.wf(),
                k <= self.search_args.footprint@.len(),
                self.passable(x as int, y as int, self.search_entity()),
                forall|n: int|
                    0 <= n < k ==> self.passable(
                        x + (#[trigger] self.search_args.footprint@[n]).x,
                        y + self.search_args.footprint@[n].y,
                        self.search_entity(),
                    ),
            decreases self.search_args.footprint@.len() - k,
        {
            let cell = self.search_args.footprint[k];
            if !self.is_tile_valid(x as i64 + cell.x as i64, y as i64 + cell.y as i64) {
                return false;
            }
            k = k + 1;
        }
        true
    }

    /// Says for whom exits are looked for from now on.
    pub fn set_additional_args(&mut self, entity: usize, multi_component: Option<&MultiTile>)
        ensures
            final(self).wf() == old(self).wf(),
            final(self).same_ground(old(self)),
            final(self).creature_map == old(self).creature_map,
            final(self).blocked_tiles == old(self).blocked_tiles,
            final(self).search_entity() == Some(entity),
            final(self).search_footprint() == footprint_of(multi_component),
    {
        self.search_args.search_entity = Some(entity);
        self.search_args.footprint = footprint_cells(multi_component);
    }

    /// Whether `entity`, with the given footprint, may step to the tile in
    /// column `x` of row `y`. The map remembers for whom it was asked.
    pub fn is_exit_valid_for(
        &mut self,
        x: i32,
        y: i32,
        entity: usize,
        multi_component: Option<&MultiTile>,
    ) -> (valid: bool)
        requires
            old(self).wf(),
        ensures
            final(self).wf(),
            final(self).same_ground(old(self)),
            final(self).creature_map == old(self).creature_map,
            final(self).blocked_tiles == old(self).blocked_tiles,
            final(self).search_entity() == Some(entity),
            final(self).search_footprint() == footprint_of(multi_component),
            valid == old(self).exit_valid(
                x as int,
                y as int,
                Some(entity),
                footprint_of(multi_component),
            ),
    {
        self.set_additional_args(entity, multi_component);
        self.is_exit_valid(x, y)
    }

    /// The exits from tile `idx` for the actor that exits are being looked
    /// for: cardinal neighbours only, each at a cost of one.
    pub fn get_available_exits(&self, idx: usize) -> (exits: Vec<(usize, u32)>)
        requires
            self.wf(),
            idx < self.tiles@.len(),
        ensures
            exits@ == self.exits_from(idx, self.search_entity(), self.search_footprint()),
    {
        let mut exits: Vec<(usize, u32)> = Vec::new();
        let here = self.index_to_point2d(idx);
        let x: i32 = here.x;
        let y: i32 = here.y;
        let w: usize = self.width as usize;
        let ghost who = self.search_entity();
        let ghost cells = self.search_footprint();
        proof {
            lemma_tile_in_grid(self.width as int, self.height as int, x as int, y as int);
        }
        if self.is_exit_valid(x - 1, y) {
            exits.push((idx - 1, 1));
        }
        let ghost west = exits@;
        if self.is_exit_valid(x + 1, y) {
            exits.push((idx + 1, 1));
        }
        let ghost east = exits@;
        if self.is_exit_valid(x, y - 1) {
            assert(y * self.width >= self.width) by (nonlinear_arith)
                requires
                    y >= 1,
                    self.width > 0,
            ;
            exits.push((idx - w, 1));
        }
        let ghost north = exits@;
        if self.is_exit_valid(x, y + 1) {
            proof {
                lemma_tile_in_grid(self.width as int, self.height as int, x as int, y + 1);
            }
            exits.push((idx + w, 1));
        }
        proof {
            assert(west =~= (if self.exit_valid(x - 1, y as int, who, cells) {
                seq![((idx - 1) as usize, 1u32)]
            } else {
                Seq::empty()
            }));
            assert(east =~= west + (if self.exit_valid(x + 1, y as int, who, cells) {
                seq![((idx + 1) as usize, 1u32)]
            } else {
                Seq::empty()
            }));
            assert(north =~= east + (if self.exit_valid(x as int, y - 1, who, cells) {
                seq![((idx - self.width) as usize, 1u32)]
            } else {
                Seq::empty()
            }));
            assert(exits@ =~= north + (if self.exit_valid(x as int, y + 1, who, cells) {
                seq![((idx + self.width) as usize, 1u32)]
            } else {
                Seq::empty()
            }));
        }
        exits
    }

    /// The exits from tile `idx` for `entity` with the given footprint. The
    /// map remembers for whom it was asked.
    pub fn get_available_exits_for(
        &mut self,
        idx: usize,
        entity: usize,
        multi_component: Option<&MultiTile>,
    ) -> (exits: Vec<(usize, u32)>)
        requires
            old(self).wf(),
            idx < old(self).tiles@.len(),
        ensures
            final(self).wf(),
            final(self).same_ground(old(self)),
            final(self).creature_map == old(self).creature_map,
            final(self).blocked_tiles == old(self).blocked_tiles,
            final(self).search_entity() == Some(entity),
            final(self).search_footprint() == footprint_of(multi_component),
            exits@ == old(self).exits_from(idx, Some(entity), footprint_of(multi_component)),
    {
        self.set_additional_args(entity, multi_component);
        self.get_available_exits(idx)
    }

    /// Everything but the index of the items is what it is in `other`.
    pub open spec fn same_but_items(&self, other: &TileMap) -> bool {
        &&& self.tiles == other.tiles
        &&& self.rooms == other.rooms
        &&& self.width == other.width
        &&& self.height == other.height
        &&& self.depth == other.depth
        &&& self.creature_map == other.creature_map
        &&& self.known_tiles == other.known_tiles
        &&& self.visible_tiles == other.visible_tiles
        &&& self.blocked_tiles == other.blocked_tiles
        &&& self.level_exit == other.level_exit
        &&& self.search_args == other.search_args
    }

    /// Puts the item on the tile at `point`, unless an item lies there.
    pub fn track_item(&mut self, data: usize, point: Point) -> (placed: bool)
        requires
            old(self).wf(),
            old(self).in_bounds(point.x as int, point.y as int),
        ensures
            final(self).wf(),
            final(self).same_but_items(old(self)),
            placed == !old(self).item_map@.contains_key(
                tile_of(old(self).width as int, point.x as int, point.y as int),
            ),
            final(self).item_map@ == (if placed {
                old(self).item_map@.insert(
                    tile_of(old(self).width as int, point.x as int, point.y as int),
                    data,
                )
            } else {
                old(self).item_map@
            }),
    {
        let index = self.point2d_to_index(point);
        if self.item_map.get(&index).is_some() {
            false
        } else {
            self.item_map.insert(index, data);
            true
        }
    }

    /// Takes the item, if any, off the tile at `point` and returns it.
    pub fn untrack_item(&mut self, point: Point) -> (item: Option<usize>)
        requires
            old(self).wf(),
            old(self).in_bounds(point.x as int, point.y as int),
        ensures
            final(self).wf(),
            final(self).same_but_items(old(self)),
            item == (if old(self).item_map@.contains_key(
                tile_of(old(self).width as int, point.x as int, point.y as int),
            ) {
                Some(
                    old(self).item_map@[tile_of(
                        old(self).width as int,
                        point.x as int,
                        point.y as int,
                    )],
                )
            } else {
                None
            }),
            final(self).item_map@ == old(self).item_map@.remove(
                tile_of(old(self).width as int, point.x as int, point.y as int),
            ),
    {
        let index = self.point2d_to_index(point);
        self.item_map.remove(&index)
    }

    /// The numbers of the tiles under an actor with the given anchor and
    /// footprint.
    pub fn footprint_indices(&self, anchor: Point, cells: &Vec<Point>) -> (tiles: Vec<usize>)
        requires
            self.wf(),
            self.holds(anchor, cells@),
        ensures
            tiles@ == footprint_tiles(self.width as int, anchor, cells@),
            forall|k: int| 0 <= k < tiles@.len() ==> tiles@[k] < self.tiles@.len(),
    {
        let mut tiles: Vec<usize> = Vec::new();
        tiles.push(self.point2d_to_index(anchor));
        let mut k: usize = 0;
        while k < cells.len()
            invariant
                self.wf(),
                self.holds(anchor, cells@),
                k <= cells@.len(),
                tiles@.len() == k + 1,
                forall|n: int|
                    0 <= n < tiles@.len() ==> tiles@[n] == footprint_tiles(
                        self.width as int,
                        anchor,
                        cells@,
                    )[n] && tiles@[n] < self.tiles@.len(),
            decreases cells@.len() - k,
        {
            let cell = cells[k];
            assert(self.in_bounds(anchor.x + cells@[k as int].x, anchor.y + cells@[k as int].y));
            let index = self.get_index(anchor.x + cell.x, anchor.y + cell.y);
            tiles.push(index);
            k = k + 1;
        }
        assert(tiles@ =~= footprint_tiles(self.width as int, anchor, cells@));
        tiles
    }

    /// Indexes every one of `tiles` to `actor` and marks it blocked: the two
    /// are only ever set together.
    fn occupy(&mut self, tiles: &Vec<usize>, actor: usize)
        requires
            old(self).wf(),
            forall|k: int| 0 <= k < tiles@.len() ==> tiles@[k] < old(self).tiles@.len(),
        ensures
            final(self).wf(),
            final(self).same_ground(old(self)),
            final(self).search_args == old(self).search_args,
            final(self).occupancy() == occupied(old(self).occupancy(), tiles@, actor),
    {
        assert(self.occupancy() =~= occupied(old(self).occupancy(), tiles@.take(0), actor));
        let mut k: usize = 0;
        while k < tiles.len()
            invariant
                self.wf(),
                self.same_ground(old(self)),
                self.search_args == old(self).search_args,
                k <= tiles@.len(),
                forall|k: int| 0 <= k < tiles@.len() ==> tiles@[k] < self.tiles@.len(),
                self.occupancy() == occupied(old(self).occupancy(), tiles@.take(k as int), actor),
            decreases tiles@.len() - k,
        {
            let tile = tiles[k];
            let ghost before = self.occupancy();
            self.blocked_tiles.set(tile, true);
            self.creature_map.insert(tile, actor);
            proof {
                let start = old(self).occupancy();
                let want = occupied(start, tiles@.take(k + 1), actor);
                assert forall|t: usize| true implies (tiles@.take(k + 1).contains(t)
                    <==> tiles@.take(k as int).contains(t) || tile == t) by {
                    lemma_take_contains(tiles@, k as int, t);
                }
                assert(self.occupancy().creatures =~= want.creatures);
                assert(self.occupancy().blocked =~= want.blocked);
            }
            k = k + 1;
        }
        assert(tiles@.take(k as int) =~= tiles@);
    }

    /// Takes every one of `tiles` out of the index and leaves it blocked only
    /// if it is a wall.
    fn vacate(&mut self, tiles: &Vec<usize>)
        requires
            old(self).wf(),
            forall|k: int| 0 <= k < tiles@.len() ==> tiles@[k] < old(self).tiles@.len(),
        ensures
            final(self).wf(),
            final(self).same_ground(old(self)),
            final(self).search_args == old(self).search_args,
            final(self).occupancy() == vacated(old(self).occupancy(), tiles@, old(self).tiles@),
    {
        assert(self.occupancy() =~= vacated(
            old(self).occupancy(),
            tiles@.take(0),
            old(self).tiles@,
        ));
        let mut k: usize = 0;
        while k < tiles.len()
            invariant
                self.wf(),
                self.same_ground(old(self)),
                self.search_args == old(self).search_args,
                k <= tiles@.len(),
                forall|k: int| 0 <= k < tiles@.len() ==> tiles@[k] < self.tiles@.len(),
                self.occupancy() == vacated(
                    old(self).occupancy(),
                    tiles@.take(k as int),
                    old(self).tiles@,
                ),
            decreases tiles@.len() - k,
        {
            let tile = tiles[k];
            let is_wall = self.tiles[tile] == TileType::Wall;
            self.blocked_tiles.set(tile, is_wall);
            self.creature_map.remove(&tile);
            proof {
                let start = old(self).occupancy();
                let want = vacated(start, tiles@.take(k + 1), old(self).tiles@);
                assert forall|t: usize| true implies (tiles@.take(k + 1).contains(t)
                    <==> tiles@.take(k as int).contains(t) || tile == t) by {
                    lemma_take_contains(tiles@, k as int, t);
                }
                assert(self.occupancy().creatures =~= want.creatures);
                assert forall|t: int| 0 <= t < want.blocked.len() implies self.occupancy().blocked[t]
                    == want.blocked[t] by {
                    lemma_take_contains(tiles@, k as int, t as usize);
                }
                assert(self.occupancy().blocked =~= want.blocked);
            }
            k = k + 1;
        }
        assert(tiles@.take(k as int) =~= tiles@);
    }

    /// Places the actor `data` with its anchor at `point`. Fails, and changes
    /// nothing, where somebody stands on the anchor tile already; else the
    /// anchor and every cell of the footprint are indexed to the actor and
    /// blocked.
    pub fn track_creature(
        &mut self,
        data: usize,
        point: Point,
        multi_component: Option<&MultiTile>,
    ) -> (placed: bool)
        requires
            old(self).wf(),
            old(self).holds(point, footprint_of(multi_component)),
        ensures
            final(self).wf(),
            final(self).same_ground(old(self)),
            final(self).search_args == old(self).search_args,
            placed == !old(self).creature_map@.contains_key(
                tile_of(old(self).width as int, point.x as int, point.y as int),
            ),
            final(self).occupancy() == placed_on(
                old(self).occupancy(),
                footprint_tiles(old(self).width as int, point, footprint_of(multi_component)),
                data,
            ),
            old(self).consistent() ==> final(self).consistent(),
    {
        let index = self.point2d_to_index(point);
        if self.creature_map.get(&index).is_some() {
            false
        } else {
            let cells = footprint_cells(multi_component);
            let tiles = self.footprint_indices(point, &cells);
            proof {
                if old(self).consistent() {
                    lemma_agreement_kept(old(self).occupancy(), tiles@, data, old(self).tiles@);
                }
            }
            self.occupy(&tiles, data);
            true
        }
    }

    /// Removes whoever stands at `point` and returns it. Where somebody
    /// does, the anchor and every cell of the footprint are given up.
    pub fn untrack_creature(&mut self, point: Point, multi_component: Option<&MultiTile>) -> (entity:
        Option<usize>)
        requires
            old(self).wf(),
            old(self).holds(point, footprint_of(multi_component)),
        ensures
            final(self).wf(),
            final(self).same_ground(old(self)),
            final(self).search_args == old(self).search_args,
            entity == (if old(self).creature_map@.contains_key(
                tile_of(old(self).width as int, point.x as int, point.y as int),
            ) {
                Some(
                    old(self).creature_map@[tile_of(
                        old(self).width as int,
                        point.x as int,
                        point.y as int,
                    )],
                )
            } else {
                None
            }),
            final(self).occupancy() == removed_from(
                old(self).occupancy(),
                footprint_tiles(old(self).width as int, point, footprint_of(multi_component)),
                old(self).tiles@,
            ),
            old(self).consistent() ==> final(self).consistent(),
    {
        let index = self.point2d_to_index(point);
        let entity = match self.creature_map.get(&index) {
            Some(found) => Some(*found),
            None => None,
        };
        let tiles = if entity.is_some() {
            let cells = footprint_cells(multi_component);
            self.footprint_indices(point, &cells)
        } else {
            let mut only: Vec<usize> = Vec::new();
            only.push(index);
            assert(only@ =~= seq![index]);
            only
        };
        proof {
            if old(self).consistent() {
                lemma_agreement_kept(old(self).occupancy(), tiles@, 0, old(self).tiles@);
            }
        }
        self.vacate(&tiles);
        entity
    }

    /// What a move of `creature` from `prev` to `next` makes of the
    /// occupancy: nothing where `next` is no valid exit for it; else the old
    /// footprint is given up and the new one taken.
    pub open spec fn moved(
        &self,
        creature: usize,
        prev: Point,
        next: Point,
        cells: Seq<Point>,
    ) -> Occupancy {
        if self.exit_valid(next.x as int, next.y as int, Some(creature), cells) {
            occupied(
                vacated(
                    self.occupancy(),
                    footprint_tiles(self.width as int, prev, cells),
                    self.tiles@,
                ),
                footprint_tiles(self.width as int, next, cells),
                creature,
            )
        } else {
            self.occupancy()
        }
    }

    /// A valid exit lies on the grid, with every cell of the footprint.
    pub proof fn lemma_valid_exit_holds(&self, next: Point, who: Option<usize>, cells: Seq<Point>)
        requires
            self.exit_valid(next.x as int, next.y as int, who, cells),
        ensures
            self.holds(next, cells),
    {
        assert forall|k: int| 0 <= k < cells.len() implies self.in_bounds(
            next.x + (#[trigger] cells[k]).x,
            next.y + cells[k].y,
        ) by {
            assert(self.passable(next.x + cells[k].x, next.y + cells[k].y, who));
        }
    }

    /// Moves a creature on the map: gives up the tiles under it at `prev` and
    /// takes those at `next`, unless `next` is no valid exit for it, in which
    /// case nothing about who stands where changes. The position of the
    /// creature is the caller's to update.
    pub fn move_creature(
        &mut self,
        creature: usize,
        prev: Point,
        next: Point,
        multi_component: Option<&MultiTile>,
    ) -> (done: bool)
        requires
            old(self).wf(),
            old(self).holds(prev, footprint_of(multi_component)),
        ensures
            final(self).wf(),
            final(self).same_ground(old(self)),
            final(self).search_entity() == Some(creature),
            final(self).search_footprint() == footprint_of(multi_component),
            done == old(self).exit_valid(
                next.x as int,
                next.y as int,
                Some(creature),
                footprint_of(multi_component),
            ),
            final(self).occupancy() == old(self).moved(
                creature,
                prev,
                next,
                footprint_of(multi_component),
            ),
            !done ==> final(self).occupancy() == old(self).occupancy(),
            old(self).consistent() ==> final(self).consistent(),
    {
        if !self.is_exit_valid_for(next.x, next.y, creature, multi_component) {
            return false;
        }
        let cells = footprint_cells(multi_component);
        proof {
            old(self).lemma_valid_exit_holds(next, Some(creature), cells@);
        }
        let prev_tiles = self.footprint_indices(prev, &cells);
        let next_tiles = self.footprint_indices(next, &cells);
        self.vacate(&prev_tiles);
        proof {
            if old(self).consistent() {
                lemma_agreement_kept(old(self).occupancy(), prev_tiles@, creature, old(self).tiles@);
                lemma_agreement_kept(self.occupancy(), next_tiles@, creature, old(self).tiles@);
            }
        }
        self.occupy(&next_tiles, creature);
        true
    }

    /// Every exit from a tile of the grid is a tile of the grid.
    pub proof fn lemma_exits_on_grid(
        &self,
        idx: usize,
        who: Option<usize>,
        cells: Seq<Point>,
        pick: int,
    )
        requires
            self.wf(),
            idx < self.tiles@.len(),
            0 <= pick < self.exits_from(idx, who, cells).len(),
        ensures
            self.exits_from(idx, who, cells)[pick].0 < self.tiles@.len(),
    {
        let w = self.width as int;
        let x = idx as int % w;
        let y = idx as int / w;
        vstd::arithmetic::div_mod::lemma_fundamental_div_mod(idx as int, w);
        assert(w * y == y * w) by (nonlinear_arith);
        if self.exit_valid(x - 1, y, who, cells) {
            lemma_tile_in_grid(w, self.height as int, x - 1, y);
        }
        if self.exit_valid(x + 1, y, who, cells) {
            lemma_tile_in_grid(w, self.height as int, x + 1, y);
        }
        if self.exit_valid(x, y - 1, who, cells) {
            lemma_tile_in_grid(w, self.height as int, x, y - 1);
            assert((y - 1) * w == y * w - w) by (nonlinear_arith);
        }
        if self.exit_valid(x, y + 1, who, cells) {
            lemma_tile_in_grid(w, self.height as int, x, y + 1);
            assert((y + 1) * w == y * w + w) by (nonlinear_arith);
        }
    }

    /// On a map whose blocked bitmap agrees with its index, the tiles of a
    /// valid exit are free or held by the actor itself.
    pub proof fn lemma_exit_tiles_free(&self, at: Point, who: Option<usize>, cells: Seq<Point>)
        requires
            self.wf(),
            self.consistent(),
            self.exit_valid(at.x as int, at.y as int, who, cells),
        ensures
            forall|k: int|
                0 <= k < footprint_tiles(self.width as int, at, cells).len()
                    ==> !self.creature_map@.contains_key(
                    #[trigger] footprint_tiles(self.width as int, at, cells)[k],
                ) || (who is Some && self.creature_map@[footprint_tiles(
                    self.width as int,
                    at,
                    cells,
                )[k]] == who->0),
    {
        let tiles = footprint_tiles(self.width as int, at, cells);
        assert forall|k: int| 0 <= k < tiles.len() implies !self.creature_map@.contains_key(
            #[trigger] tiles[k],
        ) || (who is Some && self.creature_map@[tiles[k]] == who->0) by {
            let t = tiles[k];
            if k == 0 {
                assert(self.passable(at.x as int, at.y as int, who));
                lemma_tile_in_grid(self.width as int, self.height as int, at.x as int, at.y as int);
            } else {
                let c = cells[k - 1];
                assert(self.passable(at.x + c.x, at.y + c.y, who));
                lemma_tile_in_grid(self.width as int, self.height as int, at.x + c.x, at.y + c.y);
            }
            if self.creature_map@.contains_key(t) {
                assert(self.blocked_tiles@[t as int]);
            }
        }
    }

    /// Marks every one of `tiles` as blocked, without touching the index:
    /// for the pass that computes the bitmap anew from who stands where.
    pub fn block_tiles(&mut self, tiles: &Vec<usize>)
        requires
            old(self).wf(),
            forall|k: int| 0 <= k < tiles@.len() ==> tiles@[k] < old(self).tiles@.len(),
        ensures
            final(self).wf(),
            final(self).same_ground(old(self)),
            final(self).creature_map == old(self).creature_map,
            final(self).search_args == old(self).search_args,
            final(self).blocked_tiles@ == Seq::new(
                old(self).blocked_tiles@.len(),
                |t: int| old(self).blocked_tiles@[t] || tiles@.contains(t as usize),
            ),
    {
        let mut k: usize = 0;
        assert(self.blocked_tiles@ =~= Seq::new(
            old(self).blocked_tiles@.len(),
            |t: int| old(self).blocked_tiles@[t] || tiles@.take(0).contains(t as usize),
        ));
        while k < tiles.len()
            invariant
                self.wf(),
                self.same_ground(old(self)),
                self.creature_map == old(self).creature_map,
                self.search_args == old(self).search_args,
                k <= tiles@.len(),
                forall|k: int| 0 <= k < tiles@.len() ==> tiles@[k] < self.tiles@.len(),
                self.blocked_tiles@ == Seq::new(
                    old(self).blocked_tiles@.len(),
                    |t: int| old(self).blocked_tiles@[t] || tiles@.take(k as int).contains(t as usize),
                ),
            decreases tiles@.len() - k,
        {
            let tile = tiles[k];
            self.blocked_tiles.set(tile, true);
            proof {
                let want = Seq::new(
                    old(self).blocked_tiles@.len(),
                    |t: int|
                        old(self).blocked_tiles@[t] || tiles@.take(k + 1).contains(t as usize),
                );
                assert forall|t: int| 0 <= t < want.len() implies self.blocked_tiles@[t]
                    == want[t] by {
                    lemma_take_contains(tiles@, k as int, t as usize);
                }
                assert(self.blocked_tiles@ =~= want);
            }
            k = k + 1;
        }
        assert(tiles@.take(k as int) =~= tiles@);
    }

    /// Who stands on the tile at `p`: nobody where `p` lies off the grid.
    pub open spec fn occupant(&self, p: Point) -> Option<usize> {
        if self.in_bounds(p.x as int, p.y as int) && self.creature_map@.contains_key(
            tile_of(self.width as int, p.x as int, p.y as int),
        ) {
            Some(self.creature_map@[tile_of(self.width as int, p.x as int, p.y as int)])
        } else {
            None
        }
    }

    /// Who stands on the tile at `p`.
    pub fn creature_at(&self, p: Point) -> (who: Option<usize>)
        requires
            self.wf(),
        ensures
            who == self.occupant(p),
    {
        if p.x < 0 || p.x >= self.width || p.y < 0 || p.y >= self.height {
            return None;
        }
        let index = self.get_index(p.x, p.y);
        match self.creature_map.get(&index) {
            Some(found) => Some(*found),
            None => None,
        }
    }

    /// What a change of the footprint of `creature`, which stands at
    /// `anchor`, from `old_cells` to `new_cells` makes of the occupancy:
    /// nothing where the actor may not stand at `anchor` with the new
    /// footprint; else the old tiles are given up and the new ones taken.
    pub open spec fn reshaped(
        &self,
        creature: usize,
        anchor: Point,
        old_cells: Seq<Point>,
        new_cells: Seq<Point>,
    ) -> Occupancy {
        if self.exit_valid(anchor.x as int, anchor.y as int, Some(creature), new_cells) {
            occupied(
                vacated(
                    self.occupancy(),
                    footprint_tiles(self.width as int, anchor, old_cells),
                    self.tiles@,
                ),
                footprint_tiles(self.width as int, anchor, new_cells),
                creature,
            )
        } else {
            self.occupancy()
        }
    }

    /// Gives a creature that stays at `anchor` the footprint `cells` in
    /// place of the one it has, unless the creature may not stand there with
    /// it, in which case nothing about who stands where changes.
    pub fn reshape_creature(
        &mut self,
        creature: usize,
        anchor: Point,
        multi_component: Option<&MultiTile>,
        cells: Vec<Point>,
    ) -> (done: bool)
        requires
            old(self).wf(),
            old(self).holds(anchor, footprint_of(multi_component)),
        ensures
            final(self).wf(),
            final(self).same_ground(old(self)),
            final(self).search_entity() == Some(creature),
            final(self).search_footprint() == cells@,
            done == old(self).exit_valid(anchor.x as int, anchor.y as int, Some(creature), cells@),
            final(self).occupancy() == old(self).reshaped(
                creature,
                anchor,
                footprint_of(multi_component),
                cells@,
            ),
            old(self).consistent() ==> final(self).consistent(),
    {
        self.search_args.search_entity = Some(creature);
        self.search_args.footprint = cells;
        if !self.is_exit_valid(anchor.x, anchor.y) {
            return false;
        }
        let old_cells = footprint_cells(multi_component);
        proof {
            old(self).lemma_valid_exit_holds(anchor, Some(creature), cells@);
        }
        let prev_tiles = self.footprint_indices(anchor, &old_cells);
        let next_tiles = self.footprint_indices(anchor, &self.search_args.footprint);
        self.vacate(&prev_tiles);
        proof {
            if old(self).consistent() {
                lemma_agreement_kept(old(self).occupancy(), prev_tiles@, creature, old(self).tiles@);
                lemma_agreement_kept(self.occupancy(), next_tiles@, creature, old(self).tiles@);
            }
        }
        self.occupy(&next_tiles, creature);
        true
    }

    /// Everything but the tiles is what it is in `other`.
    pub open spec fn same_but_tiles(&self, other: &TileMap) -> bool {
        &&& self.rooms == other.rooms
        &&& self.width == other.width
        &&& self.height == other.height
        &&& self.depth == other.depth
        &&& self.item_map == other.item_map
        &&& self.creature_map == other.creature_map
        &&& self.known_tiles == other.known_tiles
        &&& self.visible_tiles == other.visible_tiles
        &&& self.blocked_tiles == other.blocked_tiles
        &&& self.level_exit == other.level_exit
        &&& self.search_args == other.search_args
    }

    /// Lays floor along row `y`, from column `x_lo` to column `x_hi`.
    fn carve_row(&mut self, y: i32, x_lo: i32, x_hi: i32)
        requires
            old(self).wf(),
            old(self).in_bounds(x_lo as int, y as int),
            old(self).in_bounds(x_hi as int, y as int),
        ensures
            final(self).wf(),
            final(self).same_but_tiles(old(self)),
            final(self).tiles@ == carved(
                old(self).tiles@,
                old(self).width as int,
                |p: Point| p.y == y && x_lo <= p.x <= x_hi,
            ),
    {
        let mut x: i32 = x_lo;
        assert(self.tiles@ =~= carved(
            old(self).tiles@,
            old(self).width as int,
            |p: Point| p.y == y && x_lo <= p.x < x,
        ));
        while x <= x_hi
            invariant
                self.wf(),
                self.same_but_tiles(old(self)),
                old(self).in_bounds(x_lo as int, y as int),
                old(self).in_bounds(x_hi as int, y as int),
                x_lo <= x,
                x <= x_hi + 1 || x == x_lo,
                self.tiles@ == carved(
                    old(self).tiles@,
                    old(self).width as int,
                    |p: Point| p.y == y && x_lo <= p.x < x,
                ),
            decreases x_hi + 1 - x,
        {
            let index = self.get_index(x, y);
            self.tiles.set(index, TileType::Floor);
            proof {
                let w = self.width as int;
                let want = carved(old(self).tiles@, w, |p: Point| p.y == y && x_lo <= p.x < x + 1);
                assert forall|t: int| 0 <= t < want.len() implies self.tiles@[t] == want[t] by {
                    lemma_tile_in_grid(w, self.height as int, x as int, y as int);
                    vstd::arithmetic::div_mod::lemma_fundamental_div_mod(t, w);
                    assert(w * (t / w) == (t / w) * w) by (nonlinear_arith);
                }
                assert(self.tiles@ =~= want);
            }
            x = x + 1;
        }
        assert(self.tiles@ =~= carved(
            old(self).tiles@,
            old(self).width as int,
            |p: Point| p.y == y && x_lo <= p.x <= x_hi,
        ));
    }

    /// Lays floor along column `x`, from row `y_lo` to row `y_hi`.
    fn carve_column(&mut self, x: i32, y_lo: i32, y_hi: i32)
        requires
            old(self).wf(),
            old(self).in_bounds(x as int, y_lo as int),
            old(self).in_bounds(x as int, y_hi as int),
        ensures
            final(self).wf(),
            final(self).same_but_tiles(old(self)),
            final(self).tiles@ == carved(
                old(self).tiles@,
                old(self).width as int,
                |p: Point| p.x == x && y_lo <= p.y <= y_hi,
            ),
    {
        let mut y: i32 = y_lo;
        assert(self.tiles@ =~= carved(
            old(self).tiles@,
            old(self).width as int,
            |p: Point| p.x == x && y_lo <= p.y < y,
        ));
        while y <= y_hi
            invariant
                self.wf(),
                self.same_but_tiles(old(self)),
                old(self).in_bounds(x as int, y_lo as int),
                old(self).in_bounds(x as int, y_hi as int),
                y_lo <= y,
                y <= y_hi + 1 || y == y_lo,
                self.tiles@ == carved(
                    old(self).tiles@,
                    old(self).width as int,
                    |p: Point| p.x == x && y_lo <= p.y < y,
                ),
            decreases y_hi + 1 - y,
        {
            let index = self.get_index(x, y);
            self.tiles.set(index, TileType::Floor);
            proof {
                let w = self.width as int;
                let want = carved(old(self).tiles@, w, |p: Point| p.x == x && y_lo <= p.y < y + 1);
                assert forall|t: int| 0 <= t < want.len() implies self.tiles@[t] == want[t] by {
                    lemma_tile_in_grid(w, self.height as int, x as int, y as int);
                    vstd::arithmetic::div_mod::lemma_fundamental_div_mod(t, w);
                    assert(w * (t / w) == (t / w) * w) by (nonlinear_arith);
                }
                assert(self.tiles@ =~= want);
            }
            y = y + 1;
        }
        assert(self.tiles@ =~= carved(
            old(self).tiles@,
            old(self).width as int,
            |p: Point| p.x == x && y_lo <= p.y <= y_hi,
        ));
    }

    /// Lays floor on every tile of `room`, edges included, and notes the
    /// room. What is blocked is not touched: it is computed once the whole
    /// level stands.
    pub fn build_room(&mut self, room: Rect)
        requires
            old(self).wf(),
            old(self).in_bounds(room.x1 as int, room.y1 as int),
            old(self).in_bounds(room.x2 as int, room.y2 as int),
        ensures
            final(self).wf(),
            final(self).width == old(self).width,
            final(self).height == old(self).height,
            final(self).depth == old(self).depth,
            final(self).item_map == old(self).item_map,
            final(self).creature_map == old(self).creature_map,
            final(self).known_tiles == old(self).known_tiles,
            final(self).visible_tiles == old(self).visible_tiles,
            final(self).blocked_tiles == old(self).blocked_tiles,
            final(self).level_exit == old(self).level_exit,
            final(self).search_args == old(self).search_args,
            final(self).rooms@ == old(self).rooms@.push(room),
            final(self).tiles@ == carved(
                old(self).tiles@,
                old(self).width as int,
                |p: Point| room.contains(p),
            ),
    {
        let mut y: i32 = room.y1;
        assert(self.tiles@ =~= carved(
            old(self).tiles@,
            old(self).width as int,
            |p: Point| room.x1 <= p.x <= room.x2 && room.y1 <= p.y < y,
        ));
        while y <= room.y2
            invariant
                self.wf(),
                self.same_but_tiles(old(self)),
                old(self).in_bounds(room.x1 as int, room.y1 as int),
                old(self).in_bounds(room.x2 as int, room.y2 as int),
                room.y1 <= y,
                y <= room.y2 + 1 || y == room.y1,
                self.tiles@ == carved(
                    old(self).tiles@,
                    old(self).width as int,
                    |p: Point| room.x1 <= p.x <= room.x2 && room.y1 <= p.y < y,
                ),
            decreases room.y2 + 1 - y,
        {
            let ghost before = self.tiles@;
            self.carve_row(y, room.x1, room.x2);
            assert(self.tiles@ =~= carved(
                old(self).tiles@,
                old(self).width as int,
                |p: Point| room.x1 <= p.x <= room.x2 && room.y1 <= p.y < y + 1,
            ));
            y = y + 1;
        }
        assert(self.tiles@ =~= carved(
            old(self).tiles@,
            old(self).width as int,
            |p: Point| room.contains(p),
        ));
        self.rooms.push(room);
    }

    /// Lays the floor of a corridor between two points: along the row of
    /// `start` to the column of `end`, and along the column of `end` to the
    /// row of `start`.
    pub fn build_hallway(&mut self, start: Point, end: Point)
        requires
            old(self).wf(),
            old(self).in_bounds(start.x as int, start.y as int),
            old(self).in_bounds(end.x as int, end.y as int),
        ensures
            final(self).wf(),
            final(self).same_but_tiles(old(self)),
            final(self).tiles@ == carved(
                old(self).tiles@,
                old(self).width as int,
                |p: Point| on_corridor(start, end, p),
            ),
    {
        if start.x > end.x {
            self.carve_row(start.y, end.x, start.x);
        } else {
            self.carve_row(start.y, start.x, end.x);
        }
        if start.y > end.y {
            self.carve_column(end.x, end.y, start.y);
        } else {
            self.carve_column(end.x, start.y, end.y);
        }
        assert(self.tiles@ =~= carved(
            old(self).tiles@,
            old(self).width as int,
            |p: Point| on_corridor(start, end, p),
        ));
    }
}

impl TileMap {
    /// Whether the sizes of the map fit together.
    pub fn is_well_formed(&self) -> (ok: bool)
        ensures
            ok == self.wf(),
    {
        if self.width <= 0 || self.height <= 0 {
            return false;
        }
        assert(0 < self.width * self.height <= 0x7fff_ffff * 0x7fff_ffff) by (nonlinear_arith)
            requires
                0 < self.width <= 0x7fff_ffff,
                0 < self.height <= 0x7fff_ffff,
        ;
        let area: i64 = self.width as i64 * self.height as i64;
        if area > i32::MAX as i64 {
            return false;
        }
        let count = area as usize;
        self.tiles.len() == count && self.known_tiles.len() == count && self.visible_tiles.len()
            == count && self.blocked_tiles.len() == count
    }

    /// The tiles with a number below `below` to which somebody is indexed.
    pub open spec fn indexed_below(&self, below: int) -> Set<usize> {
        Set::new(|t: usize| t < below && self.creature_map@.contains_key(t))
    }

    /// Whether nobody is indexed to a tile that the grid does not have.
    pub fn keys_on_grid(&self) -> (ok: bool)
        ensures
            ok == (forall|t: usize| self.creature_map@.contains_key(t) ==> t < self.tiles@.len()),
    {
        let mut count: usize = 0;
        let mut t: usize = 0;
        assert(self.indexed_below(0) =~= Set::<usize>::empty());
        while t < self.tiles.len()
            invariant
                t <= self.tiles@.len(),
                count <= t,
                self.indexed_below(t as int).finite(),
                count == self.indexed_below(t as int).len(),
            decreases self.tiles@.len() - t,
        {
            if self.creature_map.contains_key(&t) {
                assert(self.indexed_below(t + 1) =~= self.indexed_below(t as int).insert(t));
                count = count + 1;
            } else {
                assert(self.indexed_below(t + 1) =~= self.indexed_below(t as int));
            }
            t = t + 1;
        }
        proof {
            let found = self.indexed_below(self.tiles@.len() as int);
            let all = self.creature_map@.dom();
            assert(found.subset_of(all));
            if count == all.len() {
                vstd::set_lib::lemma_subset_equality(found, all);
                assert forall|k: usize| self.creature_map@.contains_key(k) implies k
                    < self.tiles@.len() by {
                    assert(all.contains(k));
                    assert(found.contains(k));
                }
            } else if forall|k: usize| self.creature_map@.contains_key(k) ==> k < self.tiles@.len() {
                assert(found =~= all);
            }
        }
        count == self.creature_map.len()
    }

    /// Whether the blocked bitmap agrees with the occupancy index.
    pub fn is_consistent(&self) -> (ok: bool)
        requires
            self.wf(),
        ensures
            ok == self.consistent(),
    {
        if !self.keys_on_grid() {
            proof {
                if self.consistent() {
                    assert forall|t: usize| self.creature_map@.contains_key(t) implies t
                        < self.tiles@.len() by {
                        assert(self.occupancy().creatures.contains_key(t));
                    }
                }
            }
            return false;
        }
        let mut t: usize = 0;
        while t < self.tiles.len()
            invariant
                self.wf(),
                t <= self.tiles@.len(),
                forall|u: int|
                    0 <= u < t ==> (#[trigger] self.blocked_tiles@[u] <==> self.tiles@[u]
                        == TileType::Wall || self.creature_map@.contains_key(u as usize)),
            decreases self.tiles@.len() - t,
        {
            let wall = self.tiles[t] == TileType::Wall;
            let taken = self.creature_map.contains_key(&t);
            if self.blocked_tiles[t] != (wall || taken) {
                assert(!(self.occupancy().blocked[t as int] <==> self.tiles@[t as int]
                    == TileType::Wall || self.occupancy().creatures.contains_key(t)));
                return false;
            }
            t = t + 1;
        }
        true
    }
}

pub const MAX_ROOMS: usize = 12;

pub const MIN_ROOM_WIDTH: i32 = 20;

pub const MAX_ROOM_WIDTH: i32 = 50;

pub const MIN_ROOM_HEIGHT: i32 = 20;

pub const MAX_ROOM_HEIGHT: i32 = 50;

/// Whether `room` is a room as the generator lays them: of a size between
/// the least and the largest, and clear of the border of a grid of `width`
/// by `height`.
pub open spec fn is_room(room: Rect, width: int, height: int) -> bool {
    &&& 1 <= room.x1
    &&& MIN_ROOM_WIDTH <= room.x2 - room.x1 < MAX_ROOM_WIDTH
    &&& room.x2 <= width - 2
    &&& 1 <= room.y1
    &&& MIN_ROOM_HEIGHT <= room.y2 - room.y1 < MAX_ROOM_HEIGHT
    &&& room.y2 <= height - 2
}

/// Whether `map` is a level of rooms: it has at least one room and at most
/// `MAX_ROOMS`, no two of which overlap; every tile of a room is floor; the
/// exit lies in the last room; nobody and nothing is on the map, and what is
/// blocked is the walls.
pub open spec fn is_level(map: &TileMap) -> bool {
    &&& map.wf()
    &&& map.consistent()
    &&& map.creature_map@ == Map::<usize, usize>::empty()
    &&& map.item_map@ == Map::<usize, usize>::empty()
    &&& 1 <= map.rooms@.len() <= MAX_ROOMS
    &&& forall|i: int|
        0 <= i < map.rooms@.len() ==> is_room(
            #[trigger] map.rooms@[i],
            map.width as int,
            map.height as int,
        )
    &&& forall|i: int, j: int|
        0 <= i < j < map.rooms@.len() ==> !(#[trigger] map.rooms@[i]).overlaps(
            #[trigger] map.rooms@[j],
        )
    &&& floored(map.tiles@, map.width as int, map.rooms@)
    &&& map.level_exit < map.tiles@.len()
    &&& map.rooms@.last().contains(point_of(map.width as int, map.level_exit as int))
}

/// Every tile of every one of `rooms` is floor.
pub open spec fn floored(ground: Seq<TileType>, width: int, rooms: Seq<Rect>) -> bool {
    forall|i: int, t: int|
        0 <= i < rooms.len() && 0 <= t < ground.len() && (#[trigger] rooms[i]).contains(
            point_of(width, t),
        ) ==> #[trigger] ground[t] == TileType::Floor
}

/// A level of rooms and corridors, laid out at random: up to `MAX_ROOMS`
/// rooms are tried, one that would overlap an earlier one is dropped, and
/// each room that stands is joined to the one before it by a corridor. The
/// exit is a tile of the last room.
pub fn build_rogue_map(
    width: i32,
    height: i32,
    depth: i32,
    rng: &mut rltk::RandomNumberGenerator,
) -> (map: TileMap)
    requires
        MAX_ROOM_WIDTH + 2 <= width,
        MAX_ROOM_HEIGHT + 2 <= height,
        width * height <= i32::MAX,
    ensures
        is_level(&map),
        map.width == width,
        map.height == height,
        map.depth == depth,
{
    let mut map = TileMap::new(width, height, depth);
    let mut tried: usize = 0;
    while tried < MAX_ROOMS
        invariant
            MAX_ROOM_WIDTH + 2 <= width,
            MAX_ROOM_HEIGHT + 2 <= height,
            tried <= MAX_ROOMS,
            map.wf(),
            map.width == width,
            map.height == height,
            map.depth == depth,
            map.level_exit == 0,
            map.creature_map@ == Map::<usize, usize>::empty(),
            map.item_map@ == Map::<usize, usize>::empty(),
            map.rooms@.len() <= tried,
            tried >= 1 ==> map.rooms@.len() >= 1,
            forall|i: int|
                0 <= i < map.rooms@.len() ==> is_room(
                    #[trigger] map.rooms@[i],
                    width as int,
                    height as int,
                ),
            forall|i: int, j: int|
                0 <= i < j < map.rooms@.len() ==> !(#[trigger] map.rooms@[i]).overlaps(
                    #[trigger] map.rooms@[j],
                ),
            floored(map.tiles@, width as int, map.rooms@),
        decreases MAX_ROOMS - tried,
    {
        tried = tried + 1;
        let w: i32 = MIN_ROOM_WIDTH + random_below(
            rng,
            (MAX_ROOM_WIDTH - MIN_ROOM_WIDTH) as usize,
        ) as i32;
        let h: i32 = MIN_ROOM_HEIGHT + random_below(
            rng,
            (MAX_ROOM_HEIGHT - MIN_ROOM_HEIGHT) as usize,
        ) as i32;
        let x: i32 = 1 + random_below(rng, (width - w - 2) as usize) as i32;
        let y: i32 = 1 + random_below(rng, (height - h - 2) as usize) as i32;
        let new_room = Rect::with_size(x, y, w, h);
        let mut quit = false;
        let mut k: usize = 0;
        while k < map.rooms.len()
            invariant
                k <= map.rooms@.len(),
                quit <==> exists|i: int| 0 <= i < k && (#[trigger] map.rooms@[i]).overlaps(new_room),
            decreases map.rooms@.len() - k,
        {
            if map.rooms[k].intersect(&new_room) {
                quit = true;
            }
            k = k + 1;
        }
        if quit {
            continue ;
        }
        let ghost before = map;
        map.build_room(new_room);
        proof {
            assert forall|i: int, t: int|
                0 <= i < map.rooms@.len() && 0 <= t < map.tiles@.len() && (
                #[trigger] map.rooms@[i]).contains(
                    point_of(width as int, t),
                ) implies #[trigger] map.tiles@[t] == TileType::Floor by {
                if i < before.rooms@.len() {
                    assert(before.rooms@[i].contains(point_of(width as int, t)));
                    assert(before.tiles@[t] == TileType::Floor);
                }
            }
            assert forall|i: int, j: int| 0 <= i < j < map.rooms@.len() implies !(
            #[trigger] map.rooms@[i]).overlaps(#[trigger] map.rooms@[j]) by {
                if j == before.rooms@.len() {
                    assert(!before.rooms@[i].overlaps(new_room));
                } else {
                    assert(!before.rooms@[i].overlaps(before.rooms@[j]));
                }
            }
        }
        if map.rooms.len() > 1 {
            let new_center = new_room.center();
            let prev_center = map.rooms[map.rooms.len() - 2].center();
            assert(is_room(map.rooms@[map.rooms@.len() - 2], width as int, height as int));
            let ghost roomy = map;
            if random_below(rng, 2) == 1 {
                map.build_hallway(prev_center, new_center);
            } else {
                map.build_hallway(new_center, prev_center);
            }
            proof {
                assert forall|i: int, t: int|
                    0 <= i < map.rooms@.len() && 0 <= t < map.tiles@.len() && (
                    #[trigger] map.rooms@[i]).contains(
                        point_of(width as int, t),
                    ) implies #[trigger] map.tiles@[t] == TileType::Floor by {
                    assert(roomy.rooms@[i].contains(point_of(width as int, t)));
                    assert(roomy.tiles@[t] == TileType::Floor);
                }
            }
        }
    }
    map.set_blocked_tiles();
    let exit_room = map.rooms.len() - 1;
    let room = map.rooms[exit_room];
    assert(is_room(map.rooms@[exit_room as int], width as int, height as int));
    let exit_x: i32 = room.x1 + random_below(rng, (room.x2 - room.x1) as usize) as i32;
    let exit_y: i32 = room.y1 + random_below(rng, (room.y2 - room.y1) as usize) as i32;
    map.level_exit = map.get_index(exit_x, exit_y);
    proof {
        lemma_tile_in_grid(width as int, height as int, exit_x as int, exit_y as int);
    }
    map
}

} // verus!
