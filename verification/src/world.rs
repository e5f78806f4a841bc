use vstd::prelude::*;
use crate::components::{
    footprint_cells, footprint_of, has_parts_distinct, parts_distinct, AiState, AttackIntent,
    CanActFlag, Health, MoveIntent, Moveset, MultiTile, PartMoveIntent, Position, Viewshed,
};
use crate::direction::Direction;
use crate::geometry::Point;
use crate::map::{footprint_tiles, occupied, vacated, Occupancy, TileMap, TileType};
use crate::range_type::range_in_reach;
use crate::sys_ai::status_on_grid;

verus! {

/// The widest and the highest that the grid of a world may be: every action
/// of the catalog must be able to reach its tiles from any tile of the grid
/// without leaving the coordinate type.
pub const GRID_LIMIT: i32 = 0x7fff_fff0;

/// What a new actor is made of.
pub struct Actor {
    pub position: Position,
    pub health: Option<Health>,
    pub multi: Option<MultiTile>,
    pub moveset: Option<Moveset>,
    pub ai: Option<AiState>,
    pub viewshed: Option<Viewshed>,
    pub facing: Option<Direction>,
    /// Whether the actor breaks open when it is walked into.
    pub openable: bool,
    /// What the actor is to the player, where it is there to talk to.
    pub npc: Option<NpcType>,
}

/// What somebody who is there to talk to does for the player.
#[derive(Clone, Copy, Debug, PartialEq, Eq, Structural)]
pub enum NpcType {
    Blacksmith,
    Shopkeeper,
    Handler,
}

/// What the attack pass tells the effects layer: a tile that an attack
/// swept over, or a tile on which it hit somebody.
#[derive(Clone, Copy, Debug, PartialEq, Eq, Structural)]
pub enum ParticleRequest {
    Background { loc: Point },
    Hit { loc: Point },
}

/// The state of the simulation: the map, and one column per kind of
/// component, each indexed by the actor's id. An actor keeps its id for as
/// long as the world lasts; `alive` tells whether it is still there.
pub struct World {
    pub map: TileMap,
    pub player: usize,
    /// Set once the player has died; the simulation is over then.
    pub dead: bool,
    pub alive: Vec<bool>,
    pub positions: Vec<Position>,
    pub healths: Vec<Option<Health>>,
    pub multis: Vec<Option<MultiTile>>,
    pub movesets: Vec<Option<Moveset>>,
    pub ai_states: Vec<Option<AiState>>,
    pub viewsheds: Vec<Option<Viewshed>>,
    pub can_act: Vec<Option<CanActFlag>>,
    pub move_intents: Vec<Option<MoveIntent>>,
    pub attack_intents: Vec<Option<AttackIntent>>,
    pub attacks_in_progress: Vec<bool>,
    pub facings: Vec<Option<Direction>>,
    pub part_moves: Vec<Option<PartMoveIntent>>,
    /// Whether the actor breaks open when it is walked into.
    pub openables: Vec<bool>,
    /// What the actor is to the player, where it is there to talk to.
    pub npcs: Vec<Option<NpcType>>,
    pub particles: Vec<ParticleRequest>,
}

/// Whether `creatures` is the index of the actors that are `alive`, where
/// actor `a` stands on the tiles `tiles_of[a]`: every such tile is indexed to
/// the actor, and every indexed tile is one of those of the actor it is
/// indexed to. It follows that no two actors claim one tile.
pub open spec fn indexes(
    creatures: Map<usize, usize>,
    alive: Seq<bool>,
    tiles_of: Seq<Seq<usize>>,
) -> bool {
    &&& forall|a: int, k: int|
        0 <= a < alive.len() && alive[a] && 0 <= k < tiles_of[a].len() ==> creatures.contains_key(
            #[trigger] tiles_of[a][k],
        ) && creatures[tiles_of[a][k]] == a
    &&& forall|t: usize| #[trigger]
        creatures.contains_key(t) ==> creatures[t] < alive.len() && alive[creatures[t] as int]
            && tiles_of[creatures[t] as int].contains(t)
}

/// An actor that gives up its tiles for others which nobody else holds
/// leaves the index in order.
pub proof fn lemma_retile_keeps_index(
    creatures: Map<usize, usize>,
    alive: Seq<bool>,
    tiles_of: Seq<Seq<usize>>,
    after: Seq<Seq<usize>>,
    actor: int,
    blocked: Seq<bool>,
    ground: Seq<TileType>,
)
    requires
        indexes(creatures, alive, tiles_of),
        tiles_of.len() == alive.len(),
        after.len() == alive.len(),
        0 <= actor < alive.len(),
        alive[actor],
        actor <= usize::MAX,
        forall|b: int| 0 <= b < alive.len() && b != actor ==> #[trigger] after[b] == tiles_of[b],
        forall|k: int|
            0 <= k < after[actor].len() ==> !creatures.contains_key(#[trigger] after[actor][k])
                || creatures[after[actor][k]] == actor,
    ensures
        indexes(
            occupied(
                vacated(Occupancy { creatures, blocked }, tiles_of[actor], ground),
                after[actor],
                actor as usize,
            ).creatures,
            alive,
            after,
        ),
{
    let old_tiles = tiles_of[actor];
    let new_tiles = after[actor];
    let post = occupied(
        vacated(Occupancy { creatures, blocked }, old_tiles, ground),
        new_tiles,
        actor as usize,
    ).creatures;
    assert forall|a: int, k: int|
        0 <= a < alive.len() && alive[a] && 0 <= k < after[a].len() implies post.contains_key(
        #[trigger] after[a][k],
    ) && post[after[a][k]] == a by {
        let t = after[a][k];
        if a == actor {
            assert(new_tiles.contains(t));
        } else {
            assert(tiles_of[a][k] == t);
            assert(creatures.contains_key(t) && creatures[t] == a);
            if old_tiles.contains(t) {
                let j = choose|j: int| 0 <= j < old_tiles.len() && old_tiles[j] == t;
                assert(creatures[tiles_of[actor][j]] == actor);
            }
            if new_tiles.contains(t) {
                let j = choose|j: int| 0 <= j < new_tiles.len() && new_tiles[j] == t;
                assert(creatures[after[actor][j]] == actor);
            }
        }
    }
    assert forall|t: usize| #[trigger] post.contains_key(t) implies post[t] < alive.len()
        && alive[post[t] as int] && after[post[t] as int].contains(t) by {
        if new_tiles.contains(t) {
        } else {
            assert(creatures.contains_key(t) && !old_tiles.contains(t));
            let b = creatures[t] as int;
            assert(tiles_of[b].contains(t));
        }
    }
}

/// An actor that leaves the world, and gives up its tiles, leaves the index
/// in order.
pub proof fn lemma_leave_keeps_index(
    creatures: Map<usize, usize>,
    alive: Seq<bool>,
    tiles_of: Seq<Seq<usize>>,
    actor: int,
    blocked: Seq<bool>,
    ground: Seq<TileType>,
)
    requires
        indexes(creatures, alive, tiles_of),
        tiles_of.len() == alive.len(),
        0 <= actor < alive.len(),
        alive[actor],
    ensures
        indexes(
            vacated(Occupancy { creatures, blocked }, tiles_of[actor], ground).creatures,
            alive.update(actor, false),
            tiles_of,
        ),
{
    let gone = tiles_of[actor];
    let post = vacated(Occupancy { creatures, blocked }, gone, ground).creatures;
    let left = alive.update(actor, false);
    assert forall|a: int, k: int|
        0 <= a < left.len() && left[a] && 0 <= k < tiles_of[a].len() implies post.contains_key(
        #[trigger] tiles_of[a][k],
    ) && post[tiles_of[a][k]] == a by {
        let t = tiles_of[a][k];
        assert(creatures.contains_key(t) && creatures[t] == a);
        if gone.contains(t) {
            let j = choose|j: int| 0 <= j < gone.len() && gone[j] == t;
            assert(creatures[tiles_of[actor][j]] == actor);
        }
    }
    assert forall|t: usize| #[trigger] post.contains_key(t) implies post[t] < left.len()
        && left[post[t] as int] && tiles_of[post[t] as int].contains(t) by {
        assert(creatures.contains_key(t));
        let b = creatures[t] as int;
        assert(tiles_of[b].contains(t));
    }
}

/// An actor that joins the world on tiles that nobody holds leaves the
/// index in order.
pub proof fn lemma_join_keeps_index(
    creatures: Map<usize, usize>,
    alive: Seq<bool>,
    tiles_of: Seq<Seq<usize>>,
    after: Seq<Seq<usize>>,
    blocked: Seq<bool>,
)
    requires
        indexes(creatures, alive, tiles_of),
        alive.len() <= usize::MAX,
        tiles_of.len() == alive.len(),
        after.len() == alive.len() + 1,
        forall|b: int| 0 <= b < alive.len() ==> #[trigger] after[b] == tiles_of[b],
        forall|k: int|
            0 <= k < after[alive.len() as int].len() ==> !creatures.contains_key(
                #[trigger] after[alive.len() as int][k],
            ),
    ensures
        indexes(
            occupied(
                Occupancy { creatures, blocked },
                after[alive.len() as int],
                alive.len() as usize,
            ).creatures,
            alive.push(true),
            after,
        ),
{
    let actor = alive.len() as int;
    let new_tiles = after[actor];
    let post = occupied(Occupancy { creatures, blocked }, new_tiles, actor as usize).creatures;
    let more = alive.push(true);
    assert forall|a: int, k: int|
        0 <= a < more.len() && more[a] && 0 <= k < after[a].len() implies post.contains_key(
        #[trigger] after[a][k],
    ) && post[after[a][k]] == a by {
        let t = after[a][k];
        if a == actor {
            assert(new_tiles.contains(t));
        } else {
            assert(tiles_of[a][k] == t);
            assert(creatures.contains_key(t) && creatures[t] == a);
            if new_tiles.contains(t) {
                let j = choose|j: int| 0 <= j < new_tiles.len() && new_tiles[j] == t;
                assert(!creatures.contains_key(after[actor][j]));
            }
        }
    }
    assert forall|t: usize| #[trigger] post.contains_key(t) implies post[t] < more.len()
        && more[post[t] as int] && after[post[t] as int].contains(t) by {
        if new_tiles.contains(t) {
        } else {
            let b = creatures[t] as int;
            assert(tiles_of[b].contains(t));
        }
    }
}

/// The offsets of a footprint that may or may not be there.
pub open spec fn cells_of(multi: Option<MultiTile>) -> Seq<Point> {
    match multi {
        Some(multi) => multi.footprint(),
        None => Seq::empty(),
    }
}

impl World {
    /// The number of actors that the world has ever held.
    pub open spec fn len(&self) -> int {
        self.alive@.len() as int
    }

    /// The anchor of actor `a`, as a point.
    pub open spec fn anchor(&self, a: int) -> Point {
        Point { x: self.positions@[a].x, y: self.positions@[a].y }
    }

    /// The offsets of the footprint of actor `a`.
    pub open spec fn cells(&self, a: int) -> Seq<Point> {
        cells_of(self.multis@[a])
    }

    /// The tiles under actor `a`.
    pub open spec fn tiles_of(&self, a: int) -> Seq<usize> {
        footprint_tiles(self.map.width as int, self.anchor(a), self.cells(a))
    }

    /// The tiles under each actor, by the actor's id.
    pub open spec fn all_tiles(&self) -> Seq<Seq<usize>> {
        Seq::new(self.alive@.len(), |a: int| self.tiles_of(a))
    }

    /// The columns are as long as one another, the map is in order, the
    /// player is there, every actor that is alive stands on the grid with
    /// all of its footprint, no part of a footprint holds an offset twice,
    /// and what actors remember and intend lies where it can be resolved.
    pub open spec fn wf(&self) -> bool {
        &&& self.map.wf()
        &&& self.map.width <= GRID_LIMIT
        &&& self.map.height <= GRID_LIMIT
        &&& self.positions@.len() == self.len()
        &&& self.healths@.len() == self.len()
        &&& self.multis@.len() == self.len()
        &&& self.movesets@.len() == self.len()
        &&& self.ai_states@.len() == self.len()
        &&& self.viewsheds@.len() == self.len()
        &&& self.can_act@.len() == self.len()
        &&& self.move_intents@.len() == self.len()
        &&& self.attack_intents@.len() == self.len()
        &&& self.attacks_in_progress@.len() == self.len()
        &&& self.facings@.len() == self.len()
        &&& self.part_moves@.len() == self.len()
        &&& self.openables@.len() == self.len()
        &&& self.npcs@.len() == self.len()
        &&& self.player < self.len()
        &&& self.alive@[self.player as int]
        &&& forall|a: int|
            0 <= a < self.len() && #[trigger] self.alive@[a] ==> self.map.holds(
                self.anchor(a),
                self.cells(a),
            )
        &&& forall|a: int|
            0 <= a < self.len() ==> (#[trigger] self.ai_states@[a] matches Some(state)
                ==> status_on_grid(state.status, &self.map))
        &&& forall|a: int|
            0 <= a < self.len() ==> (#[trigger] self.attack_intents@[a] matches Some(intent)
                ==> range_in_reach(crate::move_type::attack_shape(intent.main), intent.loc))
        &&& forall|a: int| 0 <= a < self.len() ==> parts_distinct(#[trigger] self.multis@[a])
    }

    /// The occupancy index of the map is the index of the actors that are
    /// alive.
    pub open spec fn indexed(&self) -> bool {
        indexes(self.map.creature_map@, self.alive@, self.all_tiles())
    }

    /// The world is in order, and its map tells the truth about it: the
    /// index holds the actors that are alive, and the blocked bitmap agrees
    /// with the index.
    pub open spec fn inv(&self) -> bool {
        &&& self.wf()
        &&& self.indexed()
        &&& self.map.consistent()
    }

    /// Some actor that is alive stands on tile `t`, with its anchor or with
    /// its footprint.
    pub open spec fn covered(&self, t: usize) -> bool {
        exists|a: int| 0 <= a < self.len() && self.alive@[a] && #[trigger] self.tiles_of(a).contains(t)
    }

    /// A tile is blocked exactly if it is a wall, or indexed to an actor, or
    /// under an actor.
    pub open spec fn blocked_where_occupied(&self) -> bool {
        forall|t: int|
            0 <= t < self.map.tiles@.len() ==> (#[trigger] self.map.blocked_tiles@[t]
                <==> self.map.tiles@[t] == TileType::Wall || self.map.creature_map@.contains_key(
                t as usize,
            ) || self.covered(t as usize))
    }

    /// In a world that is in order, the blocked bitmap tells where the
    /// walls and the actors are.
    pub proof fn lemma_blocked_where_occupied(&self)
        requires
            self.inv(),
        ensures
            self.blocked_where_occupied(),
    {
        assert forall|t: int| 0 <= t < self.map.tiles@.len() implies (
        #[trigger] self.map.blocked_tiles@[t] <==> self.map.tiles@[t] == TileType::Wall
            || self.map.creature_map@.contains_key(t as usize) || self.covered(t as usize)) by {
            if self.covered(t as usize) {
                let a = choose|a: int|
                    0 <= a < self.len() && self.alive@[a] && #[trigger] self.tiles_of(a).contains(
                        t as usize,
                    );
                let k = choose|k: int|
                    0 <= k < self.tiles_of(a).len() && self.tiles_of(a)[k] == t as usize;
                assert(self.map.creature_map@.contains_key(self.all_tiles()[a][k]));
            }
        }
    }

    /// Whether a new actor can join: the tile of its anchor and those of its
    /// footprint lie on the grid, are no walls and are free, what it
    /// remembers lies on the grid, and no part of its footprint holds an
    /// offset twice.
    pub open spec fn admits(&self, actor: &Actor) -> bool {
        &&& self.map.exit_valid(
            actor.position.x as int,
            actor.position.y as int,
            Some(self.alive.len()),
            cells_of(actor.multi),
        )
        &&& actor.ai matches Some(state) ==> status_on_grid(state.status, &self.map)
        &&& parts_distinct(actor.multi)
    }

    /// A world on `map` with the player as its only actor, or nothing where
    /// the player does not fit on the map.
    pub fn new(map: TileMap, player: Actor) -> (world: Option<World>)
        requires
            map.wf(),
            map.consistent(),
            map.width <= GRID_LIMIT,
            map.height <= GRID_LIMIT,
            map.creature_map@ == Map::<usize, usize>::empty(),
        ensures
            world matches Some(w) ==> w.inv() && w.len() == 1 && w.player == 0 && !w.dead
                && w.map.same_ground(&map) && w.positions@[0] == player.position && w.healths@[0]
                == player.health && w.multis@[0] == player.multi && w.movesets@[0]
                == player.moveset && w.ai_states@[0] == player.ai && w.viewsheds@[0]
                == player.viewshed && w.facings@[0] == player.facing && w.openables@[0]
                == player.openable && w.npcs@[0] == player.npc && w.can_act@[0] is None && w.move_intents@[0] is None
                && w.attack_intents@[0] is None && w.part_moves@[0] is None
                && !w.attacks_in_progress@[0] && w.particles@.len() == 0 && w.map.occupancy()
                == occupied(
                map.occupancy(),
                footprint_tiles(
                    map.width as int,
                    Point { x: player.position.x, y: player.position.y },
                    cells_of(player.multi),
                ),
                0,
            ),
            world is Some <==> map.exit_valid(
                player.position.x as int,
                player.position.y as int,
                Some(0usize),
                cells_of(player.multi),
            ) && (player.ai matches Some(state) ==> status_on_grid(state.status, &map))
                && parts_distinct(player.multi),
    {
        let mut map = map;
        let ghost start = map;
        if !has_parts_distinct(&player.multi) {
            return None;
        }
        let at = player.position.as_point();
        let multi = player.multi.as_ref();
        assert(footprint_of(multi) == cells_of(player.multi));
        if !map.is_exit_valid_for(at.x, at.y, 0, multi) {
            return None;
        }
        if !Self::remembers_on_grid(&player.ai, &map) {
            return None;
        }
        proof {
            start.lemma_valid_exit_holds(at, Some(0usize), cells_of(player.multi));
        }
        let placed = map.track_creature(0, at, multi);
        let mut world = World {
            map,
            player: 0,
            dead: false,
            alive: Vec::new(),
            positions: Vec::new(),
            healths: Vec::new(),
            multis: Vec::new(),
            movesets: Vec::new(),
            ai_states: Vec::new(),
            viewsheds: Vec::new(),
            can_act: Vec::new(),
            move_intents: Vec::new(),
            attack_intents: Vec::new(),
            attacks_in_progress: Vec::new(),
            facings: Vec::new(),
            part_moves: Vec::new(),
            openables: Vec::new(),
            npcs: Vec::new(),
            particles: Vec::new(),
        };
        world.alive.push(true);
        world.positions.push(player.position);
        world.healths.push(player.health);
        world.multis.push(player.multi);
        world.movesets.push(player.moveset);
        world.ai_states.push(player.ai);
        world.viewsheds.push(player.viewshed);
        world.can_act.push(None);
        world.move_intents.push(None);
        world.attack_intents.push(None);
        world.attacks_in_progress.push(false);
        world.facings.push(player.facing);
        world.part_moves.push(None);
        world.openables.push(player.openable);
        world.npcs.push(player.npc);
        proof {
            let none = Seq::<bool>::empty();
            let tiles = footprint_tiles(start.width as int, at, cells_of(player.multi));
            assert(indexes(start.creature_map@, none, Seq::<Seq<usize>>::empty()));
            assert(world.all_tiles() =~= Seq::<Seq<usize>>::empty().push(tiles));
            assert(world.alive@ =~= none.push(true));
            lemma_join_keeps_index(
                start.creature_map@,
                none,
                Seq::<Seq<usize>>::empty(),
                world.all_tiles(),
                start.blocked_tiles@,
            );
        }
        Some(world)
    }

    fn remembers_on_grid(ai: &Option<AiState>, map: &TileMap) -> (ok: bool)
        ensures
            ok == (*ai matches Some(state) ==> status_on_grid(state.status, map)),
    {
        match ai {
            Some(state) => match state.status {
                crate::sys_ai::Behavior::Chase { target_point } => 0 <= target_point.x
                    && target_point.x < map.width && 0 <= target_point.y && target_point.y
                    < map.height,
                crate::sys_ai::Behavior::Attack { attack, attack_loc } => {
                    crate::move_type::shape_in_reach(&attack, attack_loc)
                },
                _ => true,
            },
            None => true,
        }
    }

    /// Lets `actor` join the world and places it on the map. Where it does
    /// not fit, nothing changes. The new actor gets the next free id.
    pub fn spawn(&mut self, actor: Actor) -> (id: Option<usize>)
        requires
            old(self).inv(),
        ensures
            final(self).inv(),
            id is Some <==> old(self).admits(&actor),
            final(self).map.same_ground(&old(self).map),
            final(self).player == old(self).player,
            final(self).dead == old(self).dead,
            final(self).particles == old(self).particles,
            id is None ==> final(self).same_actors(old(self)) && final(self).map.occupancy() == old(
                self,
            ).map.occupancy(),
            id matches Some(a) ==> {
                &&& a == old(self).len()
                &&& final(self).alive@ == old(self).alive@.push(true)
                &&& final(self).positions@ == old(self).positions@.push(actor.position)
                &&& final(self).healths@ == old(self).healths@.push(actor.health)
                &&& final(self).multis@ == old(self).multis@.push(actor.multi)
                &&& final(self).movesets@ == old(self).movesets@.push(actor.moveset)
                &&& final(self).ai_states@ == old(self).ai_states@.push(actor.ai)
                &&& final(self).viewsheds@ == old(self).viewsheds@.push(actor.viewshed)
                &&& final(self).can_act@ == old(self).can_act@.push(None)
                &&& final(self).move_intents@ == old(self).move_intents@.push(None)
                &&& final(self).attack_intents@ == old(self).attack_intents@.push(None)
                &&& final(self).attacks_in_progress@ == old(self).attacks_in_progress@.push(false)
                &&& final(self).facings@ == old(self).facings@.push(actor.facing)
                &&& final(self).part_moves@ == old(self).part_moves@.push(None)
                &&& final(self).openables@ == old(self).openables@.push(actor.openable)
                &&& final(self).npcs@ == old(self).npcs@.push(actor.npc)
                &&& final(self).map.occupancy() == occupied(
                    old(self).map.occupancy(),
                    footprint_tiles(
                        old(self).map.width as int,
                        Point { x: actor.position.x, y: actor.position.y },
                        cells_of(actor.multi),
                    ),
                    a,
                )
            },
    {
        if !has_parts_distinct(&actor.multi) {
            return None;
        }
        let id = self.alive.len();
        let at = actor.position.as_point();
        let multi = actor.multi.as_ref();
        let ghost cells = cells_of(actor.multi);
        assert(footprint_of(multi) == cells);
        let ghost tiles = footprint_tiles(self.map.width as int, at, cells);
        if !self.map.is_exit_valid_for(at.x, at.y, id, multi) {
            proof {
                self.lemma_same_index(old(self));
            }
            return None;
        }
        if !Self::remembers_on_grid(&actor.ai, &self.map) {
            proof {
                self.lemma_same_index(old(self));
            }
            return None;
        }
        proof {
            old(self).map.lemma_valid_exit_holds(at, Some(id), cells);
            old(self).lemma_free_for_newcomer(at, cells);
        }
        let placed = self.map.track_creature(id, at, multi);
        self.alive.push(true);
        self.positions.push(actor.position);
        self.healths.push(actor.health);
        self.multis.push(actor.multi);
        self.movesets.push(actor.moveset);
        self.ai_states.push(actor.ai);
        self.viewsheds.push(actor.viewshed);
        self.can_act.push(None);
        self.move_intents.push(None);
        self.attack_intents.push(None);
        self.attacks_in_progress.push(false);
        self.facings.push(actor.facing);
        self.part_moves.push(None);
        self.openables.push(actor.openable);
        self.npcs.push(actor.npc);
        proof {
            assert(self.all_tiles() =~= old(self).all_tiles().push(tiles)) by {
                assert forall|b: int| 0 <= b < old(self).len() implies self.tiles_of(b) == old(
                    self,
                ).tiles_of(b) by {}
            }
            lemma_join_keeps_index(
                old(self).map.creature_map@,
                old(self).alive@,
                old(self).all_tiles(),
                self.all_tiles(),
                old(self).map.blocked_tiles@,
            );
            assert forall|a: int| 0 <= a < self.len() && #[trigger] self.alive@[a] implies self.map.holds(
                self.anchor(a),
                self.cells(a),
            ) by {
                if a < old(self).len() {
                    assert(old(self).alive@[a]);
                    assert(self.anchor(a) == old(self).anchor(a));
                    assert(self.cells(a) == old(self).cells(a));
                }
            }
            assert forall|a: int| 0 <= a < self.len() implies (
            #[trigger] self.ai_states@[a] matches Some(state) ==> status_on_grid(
                state.status,
                &self.map,
            )) by {
                if a < old(self).len() {
                    assert(self.ai_states@[a] == old(self).ai_states@[a]);
                }
            }
            assert forall|a: int| 0 <= a < self.len() implies (
            #[trigger] self.attack_intents@[a] matches Some(intent) ==> range_in_reach(
                crate::move_type::attack_shape(intent.main),
                intent.loc,
            )) by {
                if a < old(self).len() {
                    assert(self.attack_intents@[a] == old(self).attack_intents@[a]);
                }
            }
        }
        Some(id)
    }

    /// Every column of actors is what it is in `other`.
    pub open spec fn same_actors(&self, other: &World) -> bool {
        &&& self.alive == other.alive
        &&& self.positions == other.positions
        &&& self.healths == other.healths
        &&& self.multis == other.multis
        &&& self.movesets == other.movesets
        &&& self.ai_states == other.ai_states
        &&& self.viewsheds == other.viewsheds
        &&& self.can_act == other.can_act
        &&& self.move_intents == other.move_intents
        &&& self.attack_intents == other.attack_intents
        &&& self.attacks_in_progress == other.attacks_in_progress
        &&& self.facings == other.facings
        &&& self.part_moves == other.part_moves
        &&& self.openables == other.openables
        &&& self.npcs == other.npcs
    }

    /// Actor `a` is in this world what it is in `other`.
    pub open spec fn same_actor(&self, other: &World, a: int) -> bool {
        &&& self.alive@[a] == other.alive@[a]
        &&& self.positions@[a] == other.positions@[a]
        &&& self.healths@[a] == other.healths@[a]
        &&& self.multis@[a] == other.multis@[a]
        &&& self.movesets@[a] == other.movesets@[a]
        &&& self.ai_states@[a] == other.ai_states@[a]
        &&& self.viewsheds@[a] == other.viewsheds@[a]
        &&& self.can_act@[a] == other.can_act@[a]
        &&& self.move_intents@[a] == other.move_intents@[a]
        &&& self.attack_intents@[a] == other.attack_intents@[a]
        &&& self.attacks_in_progress@[a] == other.attacks_in_progress@[a]
        &&& self.facings@[a] == other.facings@[a]
        &&& self.part_moves@[a] == other.part_moves@[a]
        &&& self.openables@[a] == other.openables@[a]
        &&& self.npcs@[a] == other.npcs@[a]
    }

    /// Everybody of `other` is in this world what it is in `other`; whoever
    /// else is here has joined since.
    pub open spec fn extends(&self, other: &World) -> bool {
        &&& other.len() <= self.len()
        &&& forall|a: int| 0 <= a < other.len() ==> #[trigger] self.same_actor(other, a)
    }

    /// A world whose actors stand where they stood in `other`, on a map with
    /// the same ground and the same occupancy, is in order if `other` is.
    pub proof fn lemma_same_index(&self, other: &World)
        requires
            other.inv(),
            self.map.wf(),
            self.map.tiles == other.map.tiles,
            self.map.width == other.map.width,
            self.map.height == other.map.height,
            self.map.occupancy() == other.map.occupancy(),
            self.alive == other.alive,
            self.positions == other.positions,
            self.multis@.len() == other.multis@.len(),
            forall|a: int| 0 <= a < self.len() ==> #[trigger] self.cells(a) == other.cells(a),
            forall|a: int| 0 <= a < self.len() ==> parts_distinct(#[trigger] self.multis@[a]),
            self.ai_states == other.ai_states,
            forall|a: int|
                0 <= a < self.len() ==> (#[trigger] self.attack_intents@[a] matches Some(intent)
                    ==> range_in_reach(crate::move_type::attack_shape(intent.main), intent.loc)),
            self.player == other.player,
            self.healths@.len() == other.healths@.len(),
            self.movesets@.len() == other.movesets@.len(),
            self.viewsheds@.len() == other.viewsheds@.len(),
            self.can_act@.len() == other.can_act@.len(),
            self.move_intents@.len() == other.move_intents@.len(),
            self.attack_intents@.len() == other.attack_intents@.len(),
            self.attacks_in_progress@.len() == other.attacks_in_progress@.len(),
            self.facings@.len() == other.facings@.len(),
            self.part_moves@.len() == other.part_moves@.len(),
            self.openables@.len() == other.openables@.len(),
            self.npcs@.len() == other.npcs@.len(),
        ensures
            self.inv(),
    {
        assert(self.all_tiles() =~= other.all_tiles()) by {
            assert forall|a: int| 0 <= a < self.len() implies self.tiles_of(a) == other.tiles_of(
                a,
            ) by {
                assert(self.cells(a) == other.cells(a));
            }
        }
        assert forall|a: int| 0 <= a < self.len() && #[trigger] self.alive@[a] implies self.map.holds(
            self.anchor(a),
            self.cells(a),
        ) by {
            assert(other.map.holds(other.anchor(a), other.cells(a)));
            assert(self.cells(a) == other.cells(a));
        }
        assert forall|a: int| 0 <= a < self.len() implies (
        #[trigger] self.ai_states@[a] matches Some(state) ==> status_on_grid(
            state.status,
            &self.map,
        )) by {
            assert(other.ai_states@[a] matches Some(state) ==> status_on_grid(
                state.status,
                &other.map,
            ));
        }
    }

    /// Where the map of a world in order lets a newcomer stand, nobody
    /// stands yet.
    pub proof fn lemma_free_for_newcomer(&self, at: Point, cells: Seq<Point>)
        requires
            self.inv(),
            self.map.exit_valid(at.x as int, at.y as int, Some(self.alive.len()), cells),
        ensures
            forall|k: int|
                0 <= k < footprint_tiles(self.map.width as int, at, cells).len()
                    ==> !self.map.creature_map@.contains_key(
                    #[trigger] footprint_tiles(self.map.width as int, at, cells)[k],
                ),
    {
        let tiles = footprint_tiles(self.map.width as int, at, cells);
        self.map.lemma_exit_tiles_free(at, Some(self.alive.len()), cells);
        assert forall|k: int| 0 <= k < tiles.len() implies !self.map.creature_map@.contains_key(
            #[trigger] tiles[k],
        ) by {
            if self.map.creature_map@.contains_key(tiles[k]) {
                assert(self.map.creature_map@[tiles[k]] < self.alive@.len());
            }
        }
    }

    /// In a world in order no two actors claim one tile.
    pub proof fn lemma_no_shared_tile(&self, a: int, b: int, t: usize)
        requires
            self.inv(),
            0 <= a < self.len(),
            0 <= b < self.len(),
            self.alive@[a],
            self.alive@[b],
            self.tiles_of(a).contains(t),
            self.tiles_of(b).contains(t),
        ensures
            a == b,
    {
        self.lemma_len_fits();
        let i = choose|i: int| 0 <= i < self.tiles_of(a).len() && self.tiles_of(a)[i] == t;
        let j = choose|j: int| 0 <= j < self.tiles_of(b).len() && self.tiles_of(b)[j] == t;
        assert(self.map.creature_map@[self.all_tiles()[a][i]] == a);
        assert(self.map.creature_map@[self.all_tiles()[b][j]] == b);
    }

    /// The ids of the actors fit the type that holds them.
    pub proof fn lemma_len_fits(&self)
        ensures
            self.len() <= usize::MAX,
    {
        assert(self.alive@.len() == self.alive.len());
    }

    /// The tiles under an actor that is alive are tiles of the grid.
    pub proof fn lemma_tiles_on_grid(&self, a: int)
        requires
            self.wf(),
            0 <= a < self.len(),
            self.alive@[a],
        ensures
            forall|k: int|
                0 <= k < self.tiles_of(a).len() ==> #[trigger] self.tiles_of(a)[k]
                    < self.map.tiles@.len(),
    {
        let at = self.anchor(a);
        let cells = self.cells(a);
        assert(self.map.holds(at, cells));
        assert forall|k: int| 0 <= k < self.tiles_of(a).len() implies #[trigger] self.tiles_of(
            a,
        )[k] < self.map.tiles@.len() by {
            if k == 0 {
                crate::map::lemma_tile_in_grid(
                    self.map.width as int,
                    self.map.height as int,
                    at.x as int,
                    at.y as int,
                );
            } else {
                let c = cells[k - 1];
                crate::map::lemma_tile_in_grid(
                    self.map.width as int,
                    self.map.height as int,
                    at.x + c.x,
                    at.y + c.y,
                );
            }
        }
    }

    /// The trace of a pass over the actors starts at `self` and ends at
    /// `end`, with one world more than there are actors.
    pub open spec fn spans(&self, end: &World, trace: Seq<World>) -> bool {
        &&& trace.len() == self.len() + 1
        &&& trace[0] == *self
        &&& trace[self.len()] == *end
    }

    /// Whether the anchor and the footprint of actor `a` lie on the grid.
    fn actor_on_grid(&self, a: usize) -> (ok: bool)
        requires
            self.map.wf(),
            a < self.positions@.len(),
            a < self.multis@.len(),
        ensures
            ok == self.map.holds(self.anchor(a as int), self.cells(a as int)),
    {
        let at = self.positions[a];
        if at.x < 0 || at.x >= self.map.width || at.y < 0 || at.y >= self.map.height {
            return false;
        }
        let cells = footprint_cells(self.multis[a].as_ref());
        assert(cells@ == self.cells(a as int));
        let mut k: usize = 0;
        while k < cells.len()
            invariant
                k <= cells@.len(),
                cells@ == self.cells(a as int),
                at == self.positions@[a as int],
                forall|j: int|
                    0 <= j < k ==> self.map.in_bounds(at.x + (#[trigger] cells@[j]).x, at.y + cells@[j].y),
            decreases cells@.len() - k,
        {
            let x: i64 = at.x as i64 + cells[k].x as i64;
            let y: i64 = at.y as i64 + cells[k].y as i64;
            if x < 0 || x >= self.map.width as i64 || y < 0 || y >= self.map.height as i64 {
                assert(!self.map.in_bounds(at.x + cells@[k as int].x, at.y + cells@[k as int].y));
                return false;
            }
            k = k + 1;
        }
        true
    }

    /// Whether the world is well formed: see `wf`.
    pub fn is_well_formed(&self) -> (ok: bool)
        ensures
            ok == self.wf(),
    {
        if !self.map.is_well_formed() || self.map.width > GRID_LIMIT || self.map.height
            > GRID_LIMIT {
            return false;
        }
        let count = self.alive.len();
        if self.positions.len() != count || self.healths.len() != count || self.multis.len()
            != count || self.movesets.len() != count || self.ai_states.len() != count
            || self.viewsheds.len() != count || self.can_act.len() != count
            || self.move_intents.len() != count || self.attack_intents.len() != count
            || self.attacks_in_progress.len() != count || self.facings.len() != count
            || self.part_moves.len() != count || self.openables.len() != count
            || self.npcs.len() != count {
            return false;
        }
        if self.player >= count || !self.alive[self.player] {
            return false;
        }
        let mut a: usize = 0;
        while a < count
            invariant
                self.map.wf(),
                count == self.len(),
                self.positions@.len() == count,
                self.multis@.len() == count,
                self.ai_states@.len() == count,
                self.attack_intents@.len() == count,
                a <= count,
                forall|b: int|
                    0 <= b < a && #[trigger] self.alive@[b] ==> self.map.holds(
                        self.anchor(b),
                        self.cells(b),
                    ),
                forall|b: int|
                    0 <= b < a ==> (#[trigger] self.ai_states@[b] matches Some(state)
                        ==> status_on_grid(state.status, &self.map)),
                forall|b: int|
                    0 <= b < a ==> (#[trigger] self.attack_intents@[b] matches Some(intent)
                        ==> range_in_reach(crate::move_type::attack_shape(intent.main), intent.loc)),
                forall|b: int| 0 <= b < a ==> parts_distinct(#[trigger] self.multis@[b]),
            decreases count - a,
        {
            if self.alive[a] && !self.actor_on_grid(a) {
                return false;
            }
            if !Self::remembers_on_grid(&self.ai_states[a], &self.map) {
                return false;
            }
            if !has_parts_distinct(&self.multis[a]) {
                return false;
            }
            match self.attack_intents[a] {
                Some(intent) => {
                    if !crate::move_type::shape_in_reach(&intent.main, intent.loc) {
                        return false;
                    }
                },
                None => {},
            }
            a = a + 1;
        }
        true
    }

    /// Whether every tile under actor `a` is indexed to the actor.
    fn actor_is_indexed(&self, a: usize) -> (ok: bool)
        requires
            self.wf(),
            a < self.len(),
            self.alive@[a as int],
        ensures
            ok == (forall|k: int|
                0 <= k < self.tiles_of(a as int).len() ==> self.map.creature_map@.contains_key(
                    #[trigger] self.tiles_of(a as int)[k],
                ) && self.map.creature_map@[self.tiles_of(a as int)[k]] == a),
    {
        let cells = footprint_cells(self.multis[a].as_ref());
        assert(self.map.holds(self.anchor(a as int), self.cells(a as int)));
        let tiles = self.map.footprint_indices(self.positions[a].as_point(), &cells);
        assert(tiles@ == self.tiles_of(a as int));
        let mut k: usize = 0;
        while k < tiles.len()
            invariant
                k <= tiles@.len(),
                tiles@ == self.tiles_of(a as int),
                forall|j: int|
                    0 <= j < k ==> self.map.creature_map@.contains_key(#[trigger] tiles@[j])
                        && self.map.creature_map@[tiles@[j]] == a,
            decreases tiles@.len() - k,
        {
            let held = match self.map.creature_map.get(&tiles[k]) {
                Some(who) => *who == a,
                None => false,
            };
            if !held {
                return false;
            }
            k = k + 1;
        }
        true
    }

    /// Whether tile `t`, if somebody is indexed to it, is under that actor.
    fn tile_is_claimed(&self, t: usize) -> (ok: bool)
        requires
            self.wf(),
        ensures
            ok == (self.map.creature_map@.contains_key(t) ==> self.map.creature_map@[t]
                < self.alive@.len() && self.alive@[self.map.creature_map@[t] as int]
                && self.tiles_of(self.map.creature_map@[t] as int).contains(t)),
    {
        let who = match self.map.creature_map.get(&t) {
            Some(who) => *who,
            None => {
                return true;
            },
        };
        if who >= self.alive.len() || !self.alive[who] {
            return false;
        }
        let cells = footprint_cells(self.multis[who].as_ref());
        assert(self.map.holds(self.anchor(who as int), self.cells(who as int)));
        let tiles = self.map.footprint_indices(self.positions[who].as_point(), &cells);
        assert(tiles@ == self.tiles_of(who as int));
        let mut k: usize = 0;
        while k < tiles.len()
            invariant
                k <= tiles@.len(),
                tiles@ == self.tiles_of(who as int),
                self.map.creature_map@.contains_key(t),
                self.map.creature_map@[t] == who,
                who < self.alive@.len(),
                self.alive@[who as int],
                forall|j: int| 0 <= j < k ==> tiles@[j] != t,
            decreases tiles@.len() - k,
        {
            if tiles[k] == t {
                assert(self.tiles_of(who as int)[k as int] == t);
                assert(self.tiles_of(who as int).contains(t));
                assert(who == self.map.creature_map@[t]);
                return true;
            }
            k = k + 1;
        }
        false
    }

    /// Whether the occupancy index of the map is the index of the actors
    /// that are alive.
    pub fn is_indexed(&self) -> (ok: bool)
        requires
            self.wf(),
            forall|t: usize| self.map.creature_map@.contains_key(t) ==> t < self.map.tiles@.len(),
        ensures
            ok == self.indexed(),
    {
        let count = self.alive.len();
        let mut a: usize = 0;
        while a < count
            invariant
                self.wf(),
                count == self.len(),
                a <= count,
                forall|b: int, k: int|
                    0 <= b < a && self.alive@[b] && 0 <= k < self.all_tiles()[b].len()
                        ==> self.map.creature_map@.contains_key(#[trigger] self.all_tiles()[b][k])
                        && self.map.creature_map@[self.all_tiles()[b][k]] == b,
            decreases count - a,
        {
            if self.alive[a] {
                if !self.actor_is_indexed(a) {
                    proof {
                        let k = choose|k: int|
                            0 <= k < self.tiles_of(a as int).len() && !(
                            self.map.creature_map@.contains_key(
                                #[trigger] self.tiles_of(a as int)[k],
                            ) && self.map.creature_map@[self.tiles_of(a as int)[k]] == a);
                        assert(self.all_tiles()[a as int][k] == self.tiles_of(a as int)[k]);
                    }
                    return false;
                }
                assert forall|k: int| 0 <= k < self.all_tiles()[a as int].len()
                    implies self.map.creature_map@.contains_key(
                    #[trigger] self.all_tiles()[a as int][k],
                ) && self.map.creature_map@[self.all_tiles()[a as int][k]] == a by {
                    assert(self.all_tiles()[a as int][k] == self.tiles_of(a as int)[k]);
                }
            }
            a = a + 1;
        }
        let mut t: usize = 0;
        while t < self.map.tiles.len()
            invariant
                self.wf(),
                t <= self.map.tiles@.len(),
                forall|u: usize|
                    u < t && #[trigger] self.map.creature_map@.contains_key(u)
                        ==> self.map.creature_map@[u] < self.alive@.len()
                        && self.alive@[self.map.creature_map@[u] as int] && self.all_tiles()[self.map.creature_map@[u] as int].contains(
                    u,
                ),
            decreases self.map.tiles@.len() - t,
        {
            if !self.tile_is_claimed(t) {
                proof {
                    let who = self.map.creature_map@[t];
                    if who < self.alive@.len() {
                        assert(self.all_tiles()[who as int] == self.tiles_of(who as int));
                    }
                }
                return false;
            }
            proof {
                if self.map.creature_map@.contains_key(t) {
                    let who = self.map.creature_map@[t];
                    assert(self.all_tiles()[who as int] == self.tiles_of(who as int));
                }
            }
            t = t + 1;
        }
        true
    }

    /// Whether the world is in order: see `inv`.
    pub fn is_in_order(&self) -> (ok: bool)
        ensures
            ok == self.inv(),
    {
        if !self.is_well_formed() {
            return false;
        }
        if !self.map.is_consistent() {
            return false;
        }
        assert forall|t: usize| self.map.creature_map@.contains_key(t) implies t
            < self.map.tiles@.len() by {
            assert(self.map.occupancy().creatures.contains_key(t));
        }
        self.is_indexed()
    }

    /// The player of this world as it arrives on a new level at `at`: what
    /// it is made of is carried over, and what it sees must be computed anew.
    pub open spec fn carried_player(&self, at: Point) -> Actor {
        let me = self.player as int;
        Actor {
            position: Position { x: at.x, y: at.y },
            health: self.healths@[me],
            multi: self.multis@[me],
            moveset: self.movesets@[me],
            ai: self.ai_states@[me],
            viewshed: match self.viewsheds@[me] {
                Some(v) => Some(Viewshed { visible: v.visible, dirty: true, range: v.range }),
                None => None,
            },
            facing: self.facings@[me],
            openable: self.openables@[me],
            npc: self.npcs@[me],
        }
    }

    /// Whether the player of this world fits on `map` at `at`.
    pub open spec fn can_arrive(&self, map: &TileMap, at: Point) -> bool {
        &&& map.exit_valid(
            at.x as int,
            at.y as int,
            Some(0usize),
            cells_of(self.carried_player(at).multi),
        )
        &&& self.carried_player(at).ai matches Some(state) ==> status_on_grid(state.status, map)
    }

    /// The change to a new level: everybody but the player is left behind,
    /// the map is replaced as a whole, and the player arrives at `at`. Where
    /// the player does not fit there, nothing changes.
    pub fn change_level(&mut self, map: TileMap, at: Point) -> (done: bool)
        requires
            old(self).wf(),
            map.wf(),
            map.consistent(),
            map.width <= GRID_LIMIT,
            map.height <= GRID_LIMIT,
            map.creature_map@ == Map::<usize, usize>::empty(),
        ensures
            done == old(self).can_arrive(&map, at),
            !done ==> *final(self) == *old(self),
            done ==> {
                &&& final(self).inv()
                &&& final(self).len() == 1
                &&& final(self).player == 0
                &&& !final(self).dead
                &&& final(self).map.same_ground(&map)
                &&& final(self).positions@[0] == old(self).carried_player(at).position
                &&& final(self).healths@[0] == old(self).carried_player(at).health
                &&& final(self).multis@[0] == old(self).carried_player(at).multi
                &&& final(self).movesets@[0] == old(self).carried_player(at).moveset
                &&& final(self).ai_states@[0] == old(self).carried_player(at).ai
                &&& final(self).viewsheds@[0] == old(self).carried_player(at).viewshed
                &&& final(self).facings@[0] == old(self).carried_player(at).facing
                &&& final(self).openables@[0] == old(self).carried_player(at).openable
                &&& final(self).npcs@[0] == old(self).carried_player(at).npc
                &&& final(self).can_act@[0] is None
                &&& final(self).move_intents@[0] is None
                &&& final(self).attack_intents@[0] is None
                &&& final(self).part_moves@[0] is None
                &&& !final(self).attacks_in_progress@[0]
                &&& final(self).particles@.len() == 0
                &&& final(self).map.occupancy() == occupied(
                    map.occupancy(),
                    footprint_tiles(
                        map.width as int,
                        at,
                        cells_of(old(self).carried_player(at).multi),
                    ),
                    0,
                )
            },
    {
        let me = self.player;
        let mut map = map;
        let ghost fresh = map;
        let multi = self.multis[me].as_ref();
        assert(footprint_of(multi) == cells_of(self.carried_player(at).multi));
        if !map.is_exit_valid_for(at.x, at.y, 0, multi) {
            return false;
        }
        if !Self::remembers_on_grid(&self.ai_states[me], &map) {
            return false;
        }
        let mut multi: Option<MultiTile> = None;
        std::mem::swap(&mut multi, &mut self.multis[me]);
        let mut moveset: Option<Moveset> = None;
        std::mem::swap(&mut moveset, &mut self.movesets[me]);
        let mut viewshed: Option<Viewshed> = None;
        std::mem::swap(&mut viewshed, &mut self.viewsheds[me]);
        match &mut viewshed {
            Some(v) => {
                v.dirty = true;
            },
            None => {},
        }
        let player = Actor {
            position: Position { x: at.x, y: at.y },
            health: self.healths[me],
            multi,
            moveset,
            ai: self.ai_states[me],
            viewshed,
            facing: self.facings[me],
            openable: self.openables[me],
            npc: self.npcs[me],
        };
        assert(player == old(self).carried_player(at));
        proof {
            assert(map.occupancy() == fresh.occupancy());
        }
        match World::new(map, player) {
            Some(world) => {
                *self = world;
                true
            },
            None => false,
        }
    }
}

} // verus!
