use vstd::prelude::*;
use crate::components::{AttackIntent, Health, MultiTile};
use crate::geometry::Point;
use crate::monster_part::{lemma_offsets_by_cells, MonsterPart};
use crate::move_type::{
    attack_shape, attack_traits, each_attack_target, get_attack_traits, AttackTrait,
};
use crate::range_type::{range_in_reach, resolved};
use crate::world::{ParticleRequest, World};

verus! {

pub struct AttackSystem;

/// Whether the tile at `p` is a hit on actor `v` by `attacker`: `v` stands
/// there, and is not the attacker itself.
pub open spec fn strikes(world: &World, attacker: int, p: Point, v: int) -> bool {
    v != attacker && world.map.occupant(p) == Some(v as usize)
}

/// Whether an attack by `attacker` that affects `targets` hits actor `v`:
/// on one tile or on many makes no difference.
pub open spec fn hit(world: &World, attacker: int, targets: Seq<Point>, v: int) -> bool {
    exists|k: int| 0 <= k < targets.len() && strikes(world, attacker, #[trigger] targets[k], v)
}

/// Whether the attack hits actor `v` on the cell of its footprint at
/// offset `cell`.
pub open spec fn cell_struck(
    world: &World,
    attacker: int,
    targets: Seq<Point>,
    v: int,
    cell: Point,
) -> bool {
    exists|k: int|
        0 <= k < targets.len() && strikes(world, attacker, #[trigger] targets[k], v)
            && targets[k].x == world.anchor(v).x + cell.x && targets[k].y == world.anchor(v).y
            + cell.y
}

/// Whether the attack hits actor `v` on a cell that `part` owns.
pub open spec fn part_struck(
    world: &World,
    attacker: int,
    targets: Seq<Point>,
    v: int,
    part: MonsterPart,
) -> bool {
    exists|c: int|
        0 <= c < part.symbol_map@.len() && cell_struck(
            world,
            attacker,
            targets,
            v,
            (#[trigger] part.symbol_map@[c]).0,
        )
}

/// Part `p` is the first of `parts` that the attack hits.
pub open spec fn first_struck(
    world: &World,
    attacker: int,
    targets: Seq<Point>,
    v: int,
    parts: Seq<MonsterPart>,
    p: int,
) -> bool {
    &&& 0 <= p < parts.len()
    &&& part_struck(world, attacker, targets, v, parts[p])
    &&& forall|q: int| 0 <= q < p ==> !part_struck(world, attacker, targets, v, #[trigger] parts[q])
}

/// The health of a victim after one application of `amount`.
pub open spec fn hurt(health: Option<Health>, amount: int) -> Option<Health> {
    match health {
        Some(h) => Some(Health { current: (h.current - amount) as i32, max: h.max }),
        None => None,
    }
}

/// `after` is the footprint `before` of victim `v` once the attack has
/// landed: the first part that owns a cell that was hit has lost one point
/// of health, and nothing else has changed.
pub open spec fn chips(
    world: &World,
    attacker: int,
    targets: Seq<Point>,
    v: int,
    before: MultiTile,
    after: MultiTile,
) -> bool {
    &&& after.facing == before.facing
    &&& after.bounds == before.bounds
    &&& after.part_list@.len() == before.part_list@.len()
    &&& forall|p: int|
        0 <= p < before.part_list@.len() ==> {
            &&& (#[trigger] after.part_list@[p]).symbol_map == before.part_list@[p].symbol_map
            &&& after.part_list@[p].max_health == before.part_list@[p].max_health
            &&& after.part_list@[p].health == before.part_list@[p].health - (if first_struck(
                world,
                attacker,
                targets,
                v,
                before.part_list@,
                p,
            ) {
                1int
            } else {
                0int
            })
        }
}

/// `chips`, for a victim that may or may not have a footprint.
pub open spec fn chipped(
    world: &World,
    attacker: int,
    targets: Seq<Point>,
    v: int,
    before: Option<MultiTile>,
    after: Option<MultiTile>,
) -> bool {
    match (before, after) {
        (Some(b), Some(a)) => chips(world, attacker, targets, v, b, a),
        (None, None) => true,
        _ => false,
    }
}

/// Whether a hit is reported for the tile at `p`: somebody other than the
/// attacker stands there and has health to lose.
pub open spec fn reported(world: &World, attacker: int, p: Point) -> bool {
    match world.map.occupant(p) {
        Some(v) => v != attacker && v < world.len() && world.healths@[v as int] is Some,
        None => false,
    }
}

/// The tiles that an attack swept over, as requests to the effects layer.
pub open spec fn swept(targets: Seq<Point>) -> Seq<ParticleRequest> {
    Seq::new(targets.len(), |k: int| ParticleRequest::Background { loc: targets[k] })
}

/// The hits among the first `upto` of `targets`, in order, as requests to
/// the effects layer.
pub open spec fn struck(world: &World, attacker: int, targets: Seq<Point>, upto: int) -> Seq<
    ParticleRequest,
>
    decreases upto,
{
    if upto <= 0 {
        Seq::empty()
    } else if reported(world, attacker, targets[upto - 1]) {
        struck(world, attacker, targets, upto - 1).push(
            ParticleRequest::Hit { loc: targets[upto - 1] },
        )
    } else {
        struck(world, attacker, targets, upto - 1)
    }
}

/// What a damaging attack by `attacker` on `targets` makes of the world:
/// every actor that it hits and that has health loses `amount` once, however
/// many of its tiles were hit, and the first part of its footprint that owns
/// a tile that was hit loses one point. Every target tile is reported as
/// swept, every tile with a victim as hit.
pub open spec fn lands(
    pre: &World,
    post: &World,
    attacker: int,
    amount: int,
    targets: Seq<Point>,
) -> bool {
    &&& post.healths@.len() == pre.healths@.len()
    &&& post.multis@.len() == pre.multis@.len()
    &&& forall|v: int|
        0 <= v < pre.len() ==> #[trigger] post.healths@[v] == (if hit(pre, attacker, targets, v) {
            hurt(pre.healths@[v], amount)
        } else {
            pre.healths@[v]
        })
    &&& forall|v: int|
        0 <= v < pre.len() ==> if hit(pre, attacker, targets, v) && pre.healths@[v] is Some {
            chipped(pre, attacker, targets, v, pre.multis@[v], #[trigger] post.multis@[v])
        } else {
            post.multis@[v] == pre.multis@[v]
        }
    &&& post.particles@ == pre.particles@ + swept(targets) + struck(
        pre,
        attacker,
        targets,
        targets.len() as int,
    )
}

/// The amount of the damage that an action does, if it does any.
pub open spec fn damage_of(intent: AttackIntent) -> Option<int> {
    match attack_traits(intent.main)[0] {
        AttackTrait::Damage { amount } => Some(amount as int),
        _ => None,
    }
}

/// An attack that covers many tiles, all of them under one victim, takes
/// the amount from the health of the victim once, not once per tile, and
/// takes nothing from anybody else.
pub proof fn lemma_many_tiles_one_application(
    pre: &World,
    post: &World,
    attacker: int,
    amount: int,
    targets: Seq<Point>,
    victim: int,
)
    requires
        pre.healths@.len() == pre.len(),
        lands(pre, post, attacker, amount, targets),
        0 <= victim < pre.len(),
        pre.healths@[victim] is Some,
        targets.len() >= 1,
        forall|k: int| 0 <= k < targets.len() ==> strikes(pre, attacker, #[trigger] targets[k], victim),
        i32::MIN <= pre.healths@[victim]->0.current - amount <= i32::MAX,
    ensures
        post.healths@[victim] is Some,
        post.healths@[victim]->0.current == pre.healths@[victim]->0.current - amount,
        post.healths@[victim]->0.max == pre.healths@[victim]->0.max,
        forall|v: int| 0 <= v < pre.len() && v != victim ==> post.healths@[v] == pre.healths@[v],
{
    pre.lemma_len_fits();
    assert(strikes(pre, attacker, targets[0], victim));
    assert(hit(pre, attacker, targets, victim));
    assert forall|v: int| 0 <= v < pre.len() && v != victim implies post.healths@[v]
        == pre.healths@[v] by {
        if hit(pre, attacker, targets, v) {
            let k = choose|k: int|
                0 <= k < targets.len() && strikes(pre, attacker, #[trigger] targets[k], v);
            assert(strikes(pre, attacker, targets[k], victim));
        }
    }
}

/// An attack on tiles on which nobody stands takes no health from anybody,
/// damages no part, and reports no hit.
pub proof fn lemma_empty_tiles_no_harm(
    pre: &World,
    post: &World,
    attacker: int,
    amount: int,
    targets: Seq<Point>,
)
    requires
        pre.healths@.len() == pre.len(),
        pre.multis@.len() == pre.len(),
        lands(pre, post, attacker, amount, targets),
        forall|k: int| 0 <= k < targets.len() ==> pre.map.occupant(#[trigger] targets[k]) is None,
    ensures
        post.healths@ == pre.healths@,
        post.multis@ == pre.multis@,
        post.particles@ == pre.particles@ + swept(targets),
{
    assert forall|v: int| 0 <= v < pre.len() implies !hit(pre, attacker, targets, v) by {
        if hit(pre, attacker, targets, v) {
            let k = choose|k: int|
                0 <= k < targets.len() && strikes(pre, attacker, #[trigger] targets[k], v);
            assert(pre.map.occupant(targets[k]) is None);
        }
    }
    assert(post.healths@ =~= pre.healths@);
    assert(post.multis@ =~= pre.multis@);
    lemma_nobody_struck(pre, attacker, targets, targets.len() as int);
    assert(post.particles@ =~= pre.particles@ + swept(targets));
}

proof fn lemma_nobody_struck(world: &World, attacker: int, targets: Seq<Point>, upto: int)
    requires
        0 <= upto <= targets.len(),
        forall|k: int| 0 <= k < targets.len() ==> world.map.occupant(#[trigger] targets[k]) is None,
    ensures
        struck(world, attacker, targets, upto) == Seq::<ParticleRequest>::empty(),
    decreases upto,
{
    if upto > 0 {
        lemma_nobody_struck(world, attacker, targets, upto - 1);
        assert(world.map.occupant(targets[upto - 1]) is None);
    }
}

impl World {
    /// The health of part `p` of actor `v`.
    pub open spec fn part_health(&self, v: int, p: int) -> int {
        self.multis@[v]->0.part_list@[p].health as int
    }

    /// Whether every actor can be hit `hits` times more without its health,
    /// or that of a part, leaving the type that holds it: an action takes
    /// at most two points of health and one of a part.
    pub open spec fn can_take(&self, hits: int) -> bool {
        &&& forall|v: int|
            0 <= v < self.len() ==> (#[trigger] self.healths@[v] matches Some(h) ==> h.current - 2
                * hits >= i32::MIN)
        &&& forall|v: int, p: int|
            0 <= v < self.len() && self.multis@[v] is Some && 0 <= p
                < self.multis@[v]->0.part_list@.len() ==> #[trigger] self.part_health(v, p) - hits
                >= i32::MIN
    }
}

impl World {
    /// Whether every actor can take as many hits as there are actors, that
    /// is, whether a whole attack pass can run.
    pub fn has_headroom(&self) -> (ok: bool)
        requires
            self.wf(),
        ensures
            ok == self.can_take(self.len()),
    {
        let count = self.alive.len();
        let hits: i128 = count as i128;
        let floor: i128 = i32::MIN as i128;
        let mut v: usize = 0;
        while v < count
            invariant
                self.wf(),
                count == self.len(),
                hits == count,
                floor == i32::MIN,
                v <= count,
                forall|u: int|
                    0 <= u < v ==> (#[trigger] self.healths@[u] matches Some(h) ==> h.current - 2
                        * hits >= i32::MIN),
                forall|u: int, p: int|
                    0 <= u < v && self.multis@[u] is Some && 0 <= p
                        < self.multis@[u]->0.part_list@.len() ==> #[trigger] self.part_health(u, p)
                        - hits >= i32::MIN,
            decreases count - v,
        {
            match self.healths[v] {
                Some(health) => {
                    if (health.current as i128) - 2 * hits < floor {
                        return false;
                    }
                },
                None => {},
            }
            match &self.multis[v] {
                Some(multi) => {
                    let mut p: usize = 0;
                    while p < multi.part_list.len()
                        invariant
                            self.wf(),
                            v < self.len(),
                            self.multis@[v as int] == Some(*multi),
                            hits == self.len(),
                            0 <= hits <= usize::MAX,
                            floor == i32::MIN,
                            p <= multi.part_list@.len(),
                            forall|q: int|
                                0 <= q < p ==> #[trigger] self.part_health(v as int, q) - hits
                                    >= i32::MIN,
                        decreases multi.part_list@.len() - p,
                    {
                        if (multi.part_list[p].health as i128) - hits < floor {
                            assert(self.part_health(v as int, p as int) - hits < i32::MIN);
                            return false;
                        }
                        p = p + 1;
                    }
                },
                None => {},
            }
            v = v + 1;
        }
        true
    }
}

impl AttackSystem {
    /// What the attack pass makes of actor `a`. An intent that still winds
    /// up counts down by one, and the actor is marked as attacking. An
    /// intent whose windup is over lands and is removed, with the mark.
    /// Only an action that does damage changes anything else.
    pub open spec fn strikes_for(pre: &World, post: &World, a: int) -> bool {
        &&& post.player == pre.player
        &&& post.dead == pre.dead
        &&& post.alive == pre.alive
        &&& post.positions == pre.positions
        &&& post.movesets == pre.movesets
        &&& post.ai_states == pre.ai_states
        &&& post.viewsheds == pre.viewsheds
        &&& post.can_act == pre.can_act
        &&& post.move_intents == pre.move_intents
        &&& post.part_moves == pre.part_moves
        &&& post.openables == pre.openables
        &&& post.npcs == pre.npcs
        &&& post.facings == pre.facings
        &&& post.map == pre.map
        &&& if pre.alive@[a] && pre.attack_intents@[a] is Some {
            let intent = pre.attack_intents@[a]->0;
            if intent.delay > 0 {
                &&& post.attack_intents@ == pre.attack_intents@.update(
                    a,
                    Some(
                        AttackIntent {
                            main: intent.main,
                            modifier: intent.modifier,
                            loc: intent.loc,
                            delay: (intent.delay - 1) as i32,
                        },
                    ),
                )
                &&& post.attacks_in_progress@ == pre.attacks_in_progress@.update(a, true)
                &&& post.healths == pre.healths
                &&& post.multis == pre.multis
                &&& post.particles == pre.particles
            } else {
                &&& post.attack_intents@ == pre.attack_intents@.update(a, None)
                &&& post.attacks_in_progress@ == pre.attacks_in_progress@.update(a, false)
                &&& match damage_of(intent) {
                    Some(amount) => lands(
                        pre,
                        post,
                        a,
                        amount,
                        resolved(attack_shape(intent.main), intent.loc),
                    ),
                    None => post.healths == pre.healths && post.multis == pre.multis
                        && post.particles == pre.particles,
                }
            }
        } else {
            &&& post.attack_intents == pre.attack_intents
            &&& post.attacks_in_progress == pre.attacks_in_progress
            &&& post.healths == pre.healths
            &&& post.multis == pre.multis
            &&& post.particles == pre.particles
        }
    }

    /// World `i` of the trace leads to the next by the attack of actor `i`.
    pub open spec fn linked(trace: Seq<World>, i: int) -> bool {
        Self::strikes_for(&trace[i], &trace[i + 1], i)
    }

    /// Every world of the trace but the last leads to the next by the
    /// attack of one actor, the actors taken in the order of their ids.
    pub open spec fn passed(trace: Seq<World>) -> bool {
        forall|i: int| 0 <= i < trace.len() - 1 ==> #[trigger] Self::linked(trace, i)
    }

    /// The actors that the attack hits, each once, in the order in which
    /// the target tiles meet them.
    fn collect_victims(world: &World, a: usize, targets: &Vec<Point>) -> (victims: Vec<usize>)
        requires
            world.inv(),
            a < world.len(),
        ensures
            forall|i: int, j: int| 0 <= i < j < victims@.len() ==> victims@[i] != victims@[j],
            forall|j: int| 0 <= j < victims@.len() ==> victims@[j] < world.len(),
            forall|v: usize|
                v < world.len() ==> (victims@.contains(v) <==> hit(
                    world,
                    a as int,
                    targets@,
                    v as int,
                )),
    {
        let mut victims: Vec<usize> = Vec::new();
        let mut k: usize = 0;
        while k < targets.len()
            invariant
                world.inv(),
                a < world.len(),
                k <= targets@.len(),
                forall|i: int, j: int| 0 <= i < j < victims@.len() ==> victims@[i] != victims@[j],
                forall|j: int| 0 <= j < victims@.len() ==> victims@[j] < world.len(),
                forall|v: usize|
                    v < world.len() ==> (victims@.contains(v) <==> hit(
                        world,
                        a as int,
                        targets@.take(k as int),
                        v as int,
                    )),
            decreases targets@.len() - k,
        {
            let ghost before = victims@;
            let ghost seen = targets@.take(k as int);
            let ghost more = targets@.take(k + 1);
            let tile = targets[k];
            let found = world.map.creature_at(tile);
            proof {
                if found is Some {
                    assert(world.map.creature_map@.contains_key(
                        crate::map::tile_of(world.map.width as int, tile.x as int, tile.y as int),
                    ));
                }
                assert forall|v: usize| v < world.len() implies (hit(world, a as int, more, v as int)
                    <==> hit(world, a as int, seen, v as int) || strikes(
                    world,
                    a as int,
                    tile,
                    v as int,
                )) by {
                    if hit(world, a as int, more, v as int) {
                        let j = choose|j: int|
                            0 <= j < more.len() && strikes(
                                world,
                                a as int,
                                #[trigger] more[j],
                                v as int,
                            );
                        if j < k {
                            assert(strikes(world, a as int, seen[j], v as int));
                        }
                    }
                    if hit(world, a as int, seen, v as int) {
                        let j = choose|j: int|
                            0 <= j < seen.len() && strikes(
                                world,
                                a as int,
                                #[trigger] seen[j],
                                v as int,
                            );
                        assert(strikes(world, a as int, more[j], v as int));
                    }
                    if strikes(world, a as int, tile, v as int) {
                        assert(strikes(world, a as int, more[k as int], v as int));
                    }
                }
            }
            match found {
                Some(v) => {
                    if v != a && !Self::holds_id(&victims, v) {
                        victims.push(v);
                        proof {
                            assert forall|w: usize| true implies (victims@.contains(w)
                                <==> before.contains(w) || w == v) by {
                                crate::map::lemma_push_contains(before, v, w);
                            }
                        }
                    }
                },
                None => {},
            }
            proof {
                assert forall|v: usize| v < world.len() implies (victims@.contains(v) <==> hit(
                    world,
                    a as int,
                    more,
                    v as int,
                )) by {
                    assert(before.contains(v) <==> hit(world, a as int, seen, v as int));
                    assert(strikes(world, a as int, tile, v as int) <==> v != a && found == Some(
                        v,
                    ));
                    if victims@.len() > before.len() {
                        assert(victims@.contains(v) <==> before.contains(v) || v == found->0);
                    } else {
                        assert(victims@ == before);
                    }
                }
            }
            k = k + 1;
        }
        assert(targets@.take(k as int) =~= targets@);
        victims
    }

    fn holds_id(ids: &Vec<usize>, id: usize) -> (found: bool)
        ensures
            found == ids@.contains(id),
    {
        let mut k: usize = 0;
        while k < ids.len()
            invariant
                k <= ids@.len(),
                forall|j: int| 0 <= j < k ==> ids@[j] != id,
            decreases ids@.len() - k,
        {
            if ids[k] == id {
                return true;
            }
            k = k + 1;
        }
        false
    }

    fn is_cell_struck(world: &World, a: usize, targets: &Vec<Point>, v: usize, cell: Point) -> (found:
        bool)
        requires
            world.inv(),
            a < world.len(),
            v < world.len(),
        ensures
            found == cell_struck(world, a as int, targets@, v as int, cell),
    {
        let at = world.positions[v];
        let x: i64 = at.x as i64 + cell.x as i64;
        let y: i64 = at.y as i64 + cell.y as i64;
        let mut k: usize = 0;
        while k < targets.len()
            invariant
                world.inv(),
                k <= targets@.len(),
                v < world.len(),
                x == world.anchor(v as int).x + cell.x,
                y == world.anchor(v as int).y + cell.y,
                forall|j: int|
                    0 <= j < k ==> !(strikes(world, a as int, #[trigger] targets@[j], v as int)
                        && targets@[j].x == x && targets@[j].y == y),
            decreases targets@.len() - k,
        {
            let tile = targets[k];
            if tile.x as i64 == x && tile.y as i64 == y && v != a {
                match world.map.creature_at(tile) {
                    Some(w) => {
                        if w == v {
                            return true;
                        }
                    },
                    None => {},
                }
            }
            k = k + 1;
        }
        false
    }

    fn is_part_struck(
        world: &World,
        a: usize,
        targets: &Vec<Point>,
        v: usize,
        part: &MonsterPart,
    ) -> (found: bool)
        requires
            world.inv(),
            a < world.len(),
            v < world.len(),
        ensures
            found == part_struck(world, a as int, targets@, v as int, *part),
    {
        let mut c: usize = 0;
        while c < part.symbol_map.len()
            invariant
                world.inv(),
                a < world.len(),
                v < world.len(),
                c <= part.symbol_map@.len(),
                forall|j: int|
                    0 <= j < c ==> !cell_struck(
                        world,
                        a as int,
                        targets@,
                        v as int,
                        (#[trigger] part.symbol_map@[j]).0,
                    ),
            decreases part.symbol_map@.len() - c,
        {
            if Self::is_cell_struck(world, a, targets, v, part.symbol_map[c].0) {
                return true;
            }
            c = c + 1;
        }
        false
    }

    /// The first part of the footprint of actor `v` that owns a tile that
    /// was hit.
    fn first_struck_part(world: &World, a: usize, targets: &Vec<Point>, v: usize) -> (found:
        Option<usize>)
        requires
            world.inv(),
            a < world.len(),
            v < world.len(),
            world.multis@[v as int] is Some,
        ensures
            match found {
                Some(p) => first_struck(
                    world,
                    a as int,
                    targets@,
                    v as int,
                    world.multis@[v as int]->0.part_list@,
                    p as int,
                ),
                None => forall|q: int|
                    0 <= q < world.multis@[v as int]->0.part_list@.len() ==> !part_struck(
                        world,
                        a as int,
                        targets@,
                        v as int,
                        #[trigger] world.multis@[v as int]->0.part_list@[q],
                    ),
            },
    {
        match &world.multis[v] {
            Some(multi) => {
                let mut p: usize = 0;
                while p < multi.part_list.len()
                    invariant
                        world.inv(),
                        a < world.len(),
                        v < world.len(),
                        world.multis@[v as int] == Some(*multi),
                        p <= multi.part_list@.len(),
                        forall|q: int|
                            0 <= q < p ==> !part_struck(
                                world,
                                a as int,
                                targets@,
                                v as int,
                                #[trigger] multi.part_list@[q],
                            ),
                    decreases multi.part_list@.len() - p,
                {
                    if Self::is_part_struck(world, a, targets, v, &multi.part_list[p]) {
                        return Some(p);
                    }
                    p = p + 1;
                }
                None
            },
            None => None,
        }
    }

    /// Applies the damage of one attack to the victim `v`, once.
    fn wound(world: &mut World, a: usize, targets: &Vec<Point>, v: usize, amount: i32)
        requires
            old(world).inv(),
            a < old(world).len(),
            v < old(world).len(),
            0 <= amount <= 2,
            old(world).healths@[v as int] matches Some(h) ==> h.current - 2 >= i32::MIN,
            forall|p: int|
                old(world).multis@[v as int] is Some && 0 <= p < old(
                    world,
                ).multis@[v as int]->0.part_list@.len() ==> #[trigger] old(world).part_health(
                    v as int,
                    p,
                ) - 1 >= i32::MIN,
        ensures
            final(world).inv(),
            final(world).map == old(world).map,
            final(world).player == old(world).player,
            final(world).dead == old(world).dead,
            final(world).alive == old(world).alive,
            final(world).positions == old(world).positions,
            final(world).movesets == old(world).movesets,
            final(world).ai_states == old(world).ai_states,
            final(world).viewsheds == old(world).viewsheds,
            final(world).can_act == old(world).can_act,
            final(world).move_intents == old(world).move_intents,
            final(world).part_moves == old(world).part_moves,
            final(world).openables == old(world).openables,
            final(world).npcs == old(world).npcs,
            final(world).attack_intents == old(world).attack_intents,
            final(world).attacks_in_progress == old(world).attacks_in_progress,
            final(world).facings == old(world).facings,
            final(world).particles == old(world).particles,
            final(world).healths@ == old(world).healths@.update(
                v as int,
                hurt(old(world).healths@[v as int], amount as int),
            ),
            final(world).multis@.len() == old(world).multis@.len(),
            forall|u: int|
                0 <= u < old(world).len() && u != v ==> #[trigger] final(world).multis@[u] == old(
                    world,
                ).multis@[u],
            if old(world).healths@[v as int] is Some {
                chipped(
                    old(world),
                    a as int,
                    targets@,
                    v as int,
                    old(world).multis@[v as int],
                    final(world).multis@[v as int],
                )
            } else {
                final(world).multis@[v as int] == old(world).multis@[v as int]
            },
    {
        if world.healths[v].is_none() {
            assert(world.healths@ =~= old(world).healths@.update(
                v as int,
                hurt(old(world).healths@[v as int], amount as int),
            ));
            return ;
        }
        let struck = if world.multis[v].is_some() {
            Self::first_struck_part(world, a, targets, v)
        } else {
            None
        };
        match &mut world.healths[v] {
            Some(health) => {
                health.current = health.current - amount;
            },
            None => {},
        }
        assert(world.healths@ =~= old(world).healths@.update(
            v as int,
            hurt(old(world).healths@[v as int], amount as int),
        ));
        match struck {
            Some(p) => {
                assert(old(world).part_health(v as int, p as int) - 1 >= i32::MIN);
                match &mut world.multis[v] {
                    Some(multi) => {
                        let part = &mut multi.part_list[p];
                        part.health = part.health - 1;
                    },
                    None => {},
                }
            },
            None => {},
        }
        proof {
            if old(world).multis@[v as int] is Some {
                let before = old(world).multis@[v as int]->0;
                let after = world.multis@[v as int]->0;
                assert forall|p: int| 0 <= p < before.part_list@.len() implies {
                    &&& (#[trigger] after.part_list@[p]).symbol_map
                        == before.part_list@[p].symbol_map
                    &&& after.part_list@[p].max_health == before.part_list@[p].max_health
                    &&& after.part_list@[p].health == before.part_list@[p].health - (
                    if first_struck(old(world), a as int, targets@, v as int, before.part_list@, p) {
                        1int
                    } else {
                        0int
                    })
                } by {
                    match struck {
                        Some(hit_part) => {
                            if p < hit_part {
                                assert(!part_struck(
                                    old(world),
                                    a as int,
                                    targets@,
                                    v as int,
                                    before.part_list@[p],
                                ));
                            }
                            if p > hit_part {
                                assert(part_struck(
                                    old(world),
                                    a as int,
                                    targets@,
                                    v as int,
                                    before.part_list@[hit_part as int],
                                ));
                            }
                        },
                        None => {
                            assert(!part_struck(
                                old(world),
                                a as int,
                                targets@,
                                v as int,
                                before.part_list@[p],
                            ));
                        },
                    }
                }
                lemma_offsets_by_cells(after.part_list@, before.part_list@);
            }
            assert forall|u: int| 0 <= u < world.len() implies #[trigger] world.cells(u) == old(
                world,
            ).cells(u) by {
                if u != v {
                    assert(world.multis@[u] == old(world).multis@[u]);
                }
            }
            world.lemma_same_index(old(world));
        }
    }

    /// Lands a damaging attack of actor `a` on the tiles that its shape
    /// covers around `loc`.
    fn resolve_damage(world: &mut World, a: usize, intent: AttackIntent, amount: i32)
        requires
            old(world).inv(),
            a < old(world).len(),
            0 <= amount <= 2,
            old(world).can_take(1),
            range_in_reach(attack_shape(intent.main), intent.loc),
        ensures
            final(world).inv(),
            final(world).map == old(world).map,
            final(world).player == old(world).player,
            final(world).dead == old(world).dead,
            final(world).alive == old(world).alive,
            final(world).positions == old(world).positions,
            final(world).movesets == old(world).movesets,
            final(world).ai_states == old(world).ai_states,
            final(world).viewsheds == old(world).viewsheds,
            final(world).can_act == old(world).can_act,
            final(world).move_intents == old(world).move_intents,
            final(world).part_moves == old(world).part_moves,
            final(world).openables == old(world).openables,
            final(world).npcs == old(world).npcs,
            final(world).attack_intents == old(world).attack_intents,
            final(world).attacks_in_progress == old(world).attacks_in_progress,
            final(world).facings == old(world).facings,
            lands(
                old(world),
                final(world),
                a as int,
                amount as int,
                resolved(attack_shape(intent.main), intent.loc),
            ),
    {
        let targets = each_attack_target(&intent.main, intent.loc);
        let mut k: usize = 0;
        assert(world.particles@ =~= old(world).particles@ + swept(targets@).take(0));
        while k < targets.len()
            invariant
                k <= targets@.len(),
                old(world).inv(),
                world.inv(),
                world.map == old(world).map,
                world.player == old(world).player,
                world.dead == old(world).dead,
                world.same_actors(old(world)),
                world.particles@ == old(world).particles@ + swept(targets@).take(k as int),
            decreases targets@.len() - k,
        {
            world.particles.push(ParticleRequest::Background { loc: targets[k] });
            proof {
                assert(swept(targets@).take(k + 1) =~= swept(targets@).take(k as int).push(
                    ParticleRequest::Background { loc: targets@[k as int] },
                ));
                assert(world.particles@ =~= old(world).particles@ + swept(targets@).take(k + 1));
                world.lemma_same_index(old(world));
            }
            k = k + 1;
        }
        assert(swept(targets@).take(k as int) =~= swept(targets@));
        let victims = Self::collect_victims(world, a, &targets);
        let ghost dusted = world.particles@;
        let mut j: usize = 0;
        while j < victims.len()
            invariant
                j <= victims@.len(),
                a < old(world).len(),
                0 <= amount <= 2,
                old(world).inv(),
                old(world).can_take(1),
                world.inv(),
                world.map == old(world).map,
                world.player == old(world).player,
                world.dead == old(world).dead,
                world.alive == old(world).alive,
                world.positions == old(world).positions,
                world.movesets == old(world).movesets,
                world.ai_states == old(world).ai_states,
                world.viewsheds == old(world).viewsheds,
                world.can_act == old(world).can_act,
                world.move_intents == old(world).move_intents,
                world.part_moves == old(world).part_moves,
                world.openables == old(world).openables,
                world.npcs == old(world).npcs,
                world.attack_intents == old(world).attack_intents,
                world.attacks_in_progress == old(world).attacks_in_progress,
                world.facings == old(world).facings,
                world.particles@ == dusted,
                world.healths@.len() == old(world).healths@.len(),
                world.multis@.len() == old(world).multis@.len(),
                forall|i: int, j: int| 0 <= i < j < victims@.len() ==> victims@[i] != victims@[j],
                forall|j: int| 0 <= j < victims@.len() ==> victims@[j] < old(world).len(),
                forall|v: usize|
                    v < old(world).len() ==> #[trigger] world.healths@[v as int] == (
                    if victims@.take(j as int).contains(v) {
                        hurt(old(world).healths@[v as int], amount as int)
                    } else {
                        old(world).healths@[v as int]
                    }),
                forall|v: usize|
                    v < old(world).len() ==> if victims@.take(j as int).contains(v) && old(
                        world,
                    ).healths@[v as int] is Some {
                        chipped(
                            old(world),
                            a as int,
                            targets@,
                            v as int,
                            old(world).multis@[v as int],
                            #[trigger] world.multis@[v as int],
                        )
                    } else {
                        world.multis@[v as int] == old(world).multis@[v as int]
                    },
            decreases victims@.len() - j,
        {
            let v = victims[j];
            let ghost before = *world;
            proof {
                if victims@.take(j as int).contains(v) {
                    let i = choose|i: int| 0 <= i < j && victims@.take(j as int)[i] == v;
                    assert(victims@[i] == victims@[j as int]);
                }
                assert(world.healths@[v as int] == old(world).healths@[v as int]);
                assert(world.multis@[v as int] == old(world).multis@[v as int]);
                Self::lemma_headroom_kept(old(world), world, v as int);
            }
            Self::wound(world, a, &targets, v, amount);
            proof {
                assert forall|u: usize| true implies (victims@.take(j + 1).contains(u)
                    <==> victims@.take(j as int).contains(u) || u == v) by {
                    crate::map::lemma_take_contains(victims@, j as int, u);
                }
                assert forall|u: usize| u < old(world).len() implies #[trigger] world.healths@[u as int]
                    == (if victims@.take(j + 1).contains(u) {
                    hurt(old(world).healths@[u as int], amount as int)
                } else {
                    old(world).healths@[u as int]
                }) by {
                    assert(before.healths@[u as int] == (if victims@.take(j as int).contains(u) {
                        hurt(old(world).healths@[u as int], amount as int)
                    } else {
                        old(world).healths@[u as int]
                    }));
                }
                assert forall|u: usize| u < old(world).len() implies if victims@.take(
                    j + 1,
                ).contains(u) && old(world).healths@[u as int] is Some {
                    chipped(
                        old(world),
                        a as int,
                        targets@,
                        u as int,
                        old(world).multis@[u as int],
                        #[trigger] world.multis@[u as int],
                    )
                } else {
                    world.multis@[u as int] == old(world).multis@[u as int]
                } by {
                    if u == v {
                        if old(world).healths@[v as int] is Some {
                            Self::lemma_chipped_elsewhere(
                                &before,
                                old(world),
                                a as int,
                                targets@,
                                v as int,
                                old(world).multis@[v as int],
                                world.multis@[v as int],
                            );
                        }
                    } else {
                        assert(world.multis@[u as int] == before.multis@[u as int]);
                        assert(if victims@.take(j as int).contains(u) && old(
                            world,
                        ).healths@[u as int] is Some {
                            chipped(
                                old(world),
                                a as int,
                                targets@,
                                u as int,
                                old(world).multis@[u as int],
                                before.multis@[u as int],
                            )
                        } else {
                            before.multis@[u as int] == old(world).multis@[u as int]
                        });
                    }
                }
            }
            j = j + 1;
        }
        assert(victims@.take(j as int) =~= victims@);
        let ghost wounded = *world;
        proof {
            old(world).lemma_len_fits();
            assert forall|v: int| 0 <= v < old(world).len() implies (
            #[trigger] world.healths@[v] is Some) == (old(world).healths@[v] is Some) by {
                let u = v as usize;
                assert(world.healths@[u as int] == (if victims@.contains(u) {
                    hurt(old(world).healths@[u as int], amount as int)
                } else {
                    old(world).healths@[u as int]
                }));
            }
        }
        k = 0;
        while k < targets.len()
            invariant
                k <= targets@.len(),
                a < old(world).len(),
                old(world).inv(),
                world.inv(),
                world.map == old(world).map,
                world.player == old(world).player,
                world.dead == old(world).dead,
                world.alive == old(world).alive,
                world.positions == old(world).positions,
                world.healths == wounded.healths,
                world.multis == wounded.multis,
                world.movesets == old(world).movesets,
                world.ai_states == old(world).ai_states,
                world.viewsheds == old(world).viewsheds,
                world.can_act == old(world).can_act,
                world.move_intents == old(world).move_intents,
                world.part_moves == old(world).part_moves,
                world.openables == old(world).openables,
                world.npcs == old(world).npcs,
                world.attack_intents == old(world).attack_intents,
                world.attacks_in_progress == old(world).attacks_in_progress,
                world.facings == old(world).facings,
                forall|v: int|
                    0 <= v < old(world).len() ==> (#[trigger] world.healths@[v] is Some) == (old(
                        world,
                    ).healths@[v] is Some),
                world.particles@ == dusted + struck(old(world), a as int, targets@, k as int),
            decreases targets@.len() - k,
        {
            let tile = targets[k];
            let ghost before = *world;
            let told = match world.map.creature_at(tile) {
                Some(v) => {
                    assert(v < world.len()) by {
                        assert(world.map.creature_map@.contains_key(
                            crate::map::tile_of(
                                world.map.width as int,
                                tile.x as int,
                                tile.y as int,
                            ),
                        ));
                    }
                    v != a && world.healths[v].is_some()
                },
                None => false,
            };
            assert(told == reported(old(world), a as int, tile));
            if told {
                world.particles.push(ParticleRequest::Hit { loc: tile });
                proof {
                    world.lemma_same_index(&before);
                }
            }
            assert(world.particles@ =~= dusted + struck(old(world), a as int, targets@, k + 1));
            k = k + 1;
        }
        proof {
            old(world).lemma_len_fits();
            assert forall|v: int| 0 <= v < old(world).len() implies #[trigger] world.healths@[v] == (
            if hit(old(world), a as int, targets@, v) {
                hurt(old(world).healths@[v], amount as int)
            } else {
                old(world).healths@[v]
            }) by {
                assert(wounded.healths@[(v as usize) as int] == (if victims@.contains(v as usize) {
                    hurt(old(world).healths@[v], amount as int)
                } else {
                    old(world).healths@[v]
                }));
            }
            assert forall|v: int| 0 <= v < old(world).len() implies if hit(
                old(world),
                a as int,
                targets@,
                v,
            ) && old(world).healths@[v] is Some {
                chipped(
                    old(world),
                    a as int,
                    targets@,
                    v,
                    old(world).multis@[v],
                    #[trigger] world.multis@[v],
                )
            } else {
                world.multis@[v] == old(world).multis@[v]
            } by {
                let u = v as usize;
                assert(if victims@.contains(u) && old(world).healths@[u as int] is Some {
                    chipped(
                        old(world),
                        a as int,
                        targets@,
                        u as int,
                        old(world).multis@[u as int],
                        wounded.multis@[u as int],
                    )
                } else {
                    wounded.multis@[u as int] == old(world).multis@[u as int]
                });
            }
        }
    }

    /// An actor whose health and parts are what they were can take what it
    /// could take.
    proof fn lemma_headroom_kept(pre: &World, now: &World, v: int)
        requires
            pre.can_take(1),
            0 <= v < pre.len(),
            now.alive == pre.alive,
            now.healths@.len() == pre.len(),
            now.multis@.len() == pre.len(),
            now.healths@[v] == pre.healths@[v],
            now.multis@[v] == pre.multis@[v],
        ensures
            now.healths@[v] matches Some(h) ==> h.current - 2 >= i32::MIN,
            forall|p: int|
                now.multis@[v] is Some && 0 <= p < now.multis@[v]->0.part_list@.len()
                    ==> #[trigger] now.part_health(v, p) - 1 >= i32::MIN,
    {
        assert forall|p: int|
            now.multis@[v] is Some && 0 <= p < now.multis@[v]->0.part_list@.len()
            implies #[trigger] now.part_health(v, p) - 1 >= i32::MIN by {
            assert(pre.part_health(v, p) - 1 >= i32::MIN);
        }
    }

    /// Who is hit where depends on the map and on where the actors stand,
    /// not on their health.
    proof fn lemma_chipped_elsewhere(
        one: &World,
        other: &World,
        a: int,
        targets: Seq<Point>,
        v: int,
        before: Option<MultiTile>,
        after: Option<MultiTile>,
    )
        requires
            one.map == other.map,
            one.positions == other.positions,
            chipped(one, a, targets, v, before, after),
        ensures
            chipped(other, a, targets, v, before, after),
    {
    }

    /// After one attack, every actor can take one hit fewer than before.
    proof fn lemma_headroom_after(pre: &World, post: &World, a: int, hits: int)
        requires
            pre.inv(),
            0 <= a < pre.len(),
            Self::strikes_for(pre, post, a),
            hits >= 1,
            pre.can_take(hits),
        ensures
            post.can_take(hits - 1),
    {
        if pre.alive@[a] && pre.attack_intents@[a] is Some && pre.attack_intents@[a]->0.delay <= 0
            && damage_of(pre.attack_intents@[a]->0) is Some {
            let intent = pre.attack_intents@[a]->0;
            let amount = damage_of(intent)->0;
            let targets = resolved(attack_shape(intent.main), intent.loc);
            assert(0 <= amount <= 2);
            assert forall|v: int| 0 <= v < post.len() implies (
            #[trigger] post.healths@[v] matches Some(h) ==> h.current - 2 * (hits - 1)
                >= i32::MIN) by {
                assert(pre.healths@[v] matches Some(h) ==> h.current - 2 * hits >= i32::MIN);
            }
            assert forall|v: int, p: int|
                0 <= v < post.len() && post.multis@[v] is Some && 0 <= p
                    < post.multis@[v]->0.part_list@.len() implies #[trigger] post.part_health(v, p)
                - (hits - 1) >= i32::MIN by {
                if hit(pre, a, targets, v) && pre.healths@[v] is Some {
                    assert(chipped(pre, a, targets, v, pre.multis@[v], post.multis@[v]));
                    assert(pre.part_health(v, p) - hits >= i32::MIN);
                } else {
                    assert(post.multis@[v] == pre.multis@[v]);
                    assert(pre.part_health(v, p) - hits >= i32::MIN);
                }
            }
        } else {
            assert forall|v: int| 0 <= v < post.len() implies (
            #[trigger] post.healths@[v] matches Some(h) ==> h.current - 2 * (hits - 1)
                >= i32::MIN) by {
                assert(pre.healths@[v] matches Some(h) ==> h.current - 2 * hits >= i32::MIN);
            }
            assert forall|v: int, p: int|
                0 <= v < post.len() && post.multis@[v] is Some && 0 <= p
                    < post.multis@[v]->0.part_list@.len() implies #[trigger] post.part_health(v, p)
                - (hits - 1) >= i32::MIN by {
                assert(pre.part_health(v, p) - hits >= i32::MIN);
            }
        }
    }

    /// Counts down or lands the queued attack of actor `a`.
    pub fn step(&mut self, world: &mut World, a: usize)
        requires
            old(world).inv(),
            a < old(world).len(),
            old(world).can_take(1),
        ensures
            final(world).inv(),
            Self::strikes_for(old(world), final(world), a as int),
    {
        if !world.alive[a] {
            return ;
        }
        let intent = match world.attack_intents[a] {
            Some(intent) => intent,
            None => {
                return ;
            },
        };
        if intent.delay > 0 {
            let waiting = AttackIntent {
                main: intent.main,
                modifier: intent.modifier,
                loc: intent.loc,
                delay: intent.delay - 1,
            };
            world.attack_intents.set(a, Some(waiting));
            world.attacks_in_progress.set(a, true);
            proof {
                assert forall|b: int| 0 <= b < world.len() implies (
                #[trigger] world.attack_intents@[b] matches Some(i) ==> range_in_reach(
                    attack_shape(i.main),
                    i.loc,
                )) by {
                    assert(old(world).attack_intents@[b] matches Some(i) ==> range_in_reach(
                        attack_shape(i.main),
                        i.loc,
                    ));
                }
                world.lemma_same_index(old(world));
            }
            return ;
        }
        let trait_list = get_attack_traits(&intent.main);
        let ghost targets = resolved(attack_shape(intent.main), intent.loc);
        let mut t: usize = 0;
        while t < trait_list.len()
            invariant
                a < old(world).len(),
                old(world).inv(),
                old(world).can_take(1),
                old(world).alive@[a as int],
                old(world).attack_intents@[a as int] == Some(intent),
                trait_list@ == attack_traits(intent.main),
                trait_list@.len() == 1,
                targets == resolved(attack_shape(intent.main), intent.loc),
                t <= 1,
                world.inv(),
                t == 0 ==> *world == *old(world),
                t == 1 ==> {
                    &&& world.map == old(world).map
                    &&& world.player == old(world).player
                    &&& world.dead == old(world).dead
                    &&& world.alive == old(world).alive
                    &&& world.positions == old(world).positions
                    &&& world.movesets == old(world).movesets
                    &&& world.ai_states == old(world).ai_states
                    &&& world.viewsheds == old(world).viewsheds
                    &&& world.can_act == old(world).can_act
                    &&& world.move_intents == old(world).move_intents
                    &&& world.part_moves == old(world).part_moves
                    &&& world.openables == old(world).openables
                    &&& world.npcs == old(world).npcs
                    &&& world.attack_intents == old(world).attack_intents
                    &&& world.attacks_in_progress == old(world).attacks_in_progress
                    &&& world.facings == old(world).facings
                    &&& match damage_of(intent) {
                        Some(amount) => lands(old(world), world, a as int, amount, targets),
                        None => world.healths == old(world).healths && world.multis == old(
                            world,
                        ).multis && world.particles == old(world).particles,
                    }
                },
            decreases trait_list@.len() - t,
        {
            match trait_list[t] {
                AttackTrait::Damage { amount } => {
                    Self::resolve_damage(world, a, intent, amount);
                },
                _ => {},
            }
            t = t + 1;
        }
        let ghost ready = *world;
        world.attack_intents.set(a, None);
        world.attacks_in_progress.set(a, false);
        proof {
            assert forall|b: int| 0 <= b < world.len() implies (
            #[trigger] world.attack_intents@[b] matches Some(i) ==> range_in_reach(
                attack_shape(i.main),
                i.loc,
            )) by {
                assert(old(world).attack_intents@[b] matches Some(i) ==> range_in_reach(
                    attack_shape(i.main),
                    i.loc,
                ));
            }
            world.lemma_same_index(&ready);
        }
    }

    /// The attack pass: counts down or lands the queued attack of every
    /// actor, in the order of their ids.
    pub fn run(&mut self, world: &mut World)
        requires
            old(world).inv(),
            old(world).can_take(old(world).len()),
        ensures
            final(world).inv(),
            Self::ran(old(world), final(world)),
            final(world).map.same_ground(&old(world).map),
            final(world).can_take(0),
    {
        let ghost mut trace: Seq<World> = seq![*world];
        let count = world.alive.len();
        let mut a: usize = 0;
        while a < count
            invariant
                world.map.same_ground(&old(world).map),
                world.inv(),
                count == world.len(),
                count == old(world).len(),
                a <= count,
                world.can_take(count - a),
                trace.len() == a + 1,
                trace[0] == *old(world),
                trace[a as int] == *world,
                Self::passed(trace),
            decreases count - a,
        {
            let ghost before = *world;
            proof {
                Self::lemma_headroom_eases(world, count - a);
            }
            self.step(world, a);
            proof {
                Self::lemma_headroom_after(&before, world, a as int, count - a);
                let longer = trace.push(*world);
                assert forall|i: int| 0 <= i < longer.len() - 1 implies #[trigger] Self::linked(
                    longer,
                    i,
                ) by {
                    if i < a {
                        assert(Self::linked(trace, i));
                    }
                }
                trace = longer;
            }
            a = a + 1;
        }
        assert(old(world).spans(world, trace));
    }

    /// `post` is what the pass makes of `pre`: there is a trace of worlds
    /// from the one to the other, one step per actor.
    pub open spec fn ran(pre: &World, post: &World) -> bool {
        exists|trace: Seq<World>| pre.spans(post, trace) && #[trigger] Self::passed(trace)
    }

    /// An actor that can take many hits can take one.
    proof fn lemma_headroom_eases(world: &World, hits: int)
        requires
            hits >= 1,
            world.can_take(hits),
        ensures
            world.can_take(1),
    {
        assert forall|v: int| 0 <= v < world.len() implies (
        #[trigger] world.healths@[v] matches Some(h) ==> h.current - 2 * 1 >= i32::MIN) by {
            assert(world.healths@[v] matches Some(h) ==> h.current - 2 * hits >= i32::MIN);
        }
        assert forall|v: int, p: int|
            0 <= v < world.len() && world.multis@[v] is Some && 0 <= p
                < world.multis@[v]->0.part_list@.len() implies #[trigger] world.part_health(v, p)
            - 1 >= i32::MIN by {
            assert(world.part_health(v, p) - hits >= i32::MIN);
        }
    }

    /// Whether actor `e` is the only one with an attack queued, and that
    /// attack is ready to land.
    pub open spec fn attacks_alone(world: &World, e: int) -> bool {
        &&& 0 <= e < world.len()
        &&& world.attack_intents@.len() == world.len()
        &&& world.healths@.len() == world.len()
        &&& world.multis@.len() == world.len()
        &&& world.alive@[e]
        &&& world.attack_intents@[e] matches Some(intent) && intent.delay <= 0
        &&& forall|b: int|
            0 <= b < world.len() && b != e ==> #[trigger] world.attack_intents@[b] is None
    }

    /// Whether `w` holds what `pre` holds of all that an attack looks at
    /// or changes.
    spec fn untouched(pre: &World, w: &World) -> bool {
        &&& w.alive == pre.alive
        &&& w.map == pre.map
        &&& w.positions == pre.positions
        &&& w.healths@ == pre.healths@
        &&& w.multis@ == pre.multis@
        &&& w.particles@ == pre.particles@
        &&& w.attack_intents@ == pre.attack_intents@
    }

    proof fn lemma_before_the_attack(trace: Seq<World>, e: int, k: int)
        requires
            Self::passed(trace),
            0 <= k <= e < trace.len() - 1,
            trace[0].len() == trace.len() - 1,
            Self::attacks_alone(&trace[0], e),
        ensures
            Self::untouched(&trace[0], &trace[k]),
        decreases k,
    {
        if k > 0 {
            Self::lemma_before_the_attack(trace, e, k - 1);
            assert(Self::linked(trace, k - 1));
            assert(trace[0].attack_intents@[k - 1] is None);
        }
    }

    proof fn lemma_after_the_attack(trace: Seq<World>, e: int, k: int)
        requires
            Self::passed(trace),
            0 <= e < k < trace.len(),
            trace[0].len() == trace.len() - 1,
            Self::attacks_alone(&trace[0], e),
        ensures
            trace[k].alive == trace[0].alive,
            trace[k].healths@ == trace[e + 1].healths@,
            trace[k].multis@ == trace[e + 1].multis@,
            trace[k].particles@ == trace[e + 1].particles@,
            trace[k].attack_intents@ == trace[0].attack_intents@.update(e, None),
        decreases k,
    {
        Self::lemma_before_the_attack(trace, e, e);
        assert(Self::linked(trace, e));
        if k > e + 1 {
            Self::lemma_after_the_attack(trace, e, k - 1);
            assert(Self::linked(trace, k - 1));
            assert(trace[k - 1].attack_intents@[k - 1] is None);
        }
    }

    /// The whole pass, where one actor alone attacks with an action that
    /// does damage, and every tile that the action affects lies under one
    /// victim: the victim loses the amount once, however many tiles were
    /// hit, nobody else loses anything, and the attack is no longer queued.
    pub proof fn lemma_pass_applies_damage_once(
        pre: &World,
        post: &World,
        e: int,
        amount: int,
        victim: int,
    )
        requires
            Self::ran(pre, post),
            Self::attacks_alone(pre, e),
            damage_of(pre.attack_intents@[e]->0) == Some(amount),
            0 <= victim < pre.len(),
            pre.healths@[victim] is Some,
            resolved(
                attack_shape(pre.attack_intents@[e]->0.main),
                pre.attack_intents@[e]->0.loc,
            ).len() >= 1,
            forall|k: int|
                0 <= k < resolved(
                    attack_shape(pre.attack_intents@[e]->0.main),
                    pre.attack_intents@[e]->0.loc,
                ).len() ==> strikes(
                    pre,
                    e,
                    #[trigger] resolved(
                        attack_shape(pre.attack_intents@[e]->0.main),
                        pre.attack_intents@[e]->0.loc,
                    )[k],
                    victim,
                ),
            i32::MIN <= pre.healths@[victim]->0.current - amount <= i32::MAX,
        ensures
            post.healths@[victim] is Some,
            post.healths@[victim]->0.current == pre.healths@[victim]->0.current - amount,
            post.healths@[victim]->0.max == pre.healths@[victim]->0.max,
            forall|v: int| 0 <= v < pre.len() && v != victim ==> post.healths@[v] == pre.healths@[v],
            post.attack_intents@[e] is None,
    {
        let trace = choose|trace: Seq<World>| pre.spans(post, trace) && #[trigger] Self::passed(trace);
        let intent = pre.attack_intents@[e]->0;
        let targets = resolved(attack_shape(intent.main), intent.loc);
        Self::lemma_before_the_attack(trace, e, e);
        assert(Self::linked(trace, e));
        assert(lands(&trace[e], &trace[e + 1], e, amount, targets));
        assert forall|k: int| 0 <= k < targets.len() implies strikes(
            &trace[e],
            e,
            #[trigger] targets[k],
            victim,
        ) by {
            assert(strikes(pre, e, targets[k], victim));
        }
        lemma_many_tiles_one_application(&trace[e], &trace[e + 1], e, amount, targets, victim);
        Self::lemma_after_the_attack(trace, e, pre.len());
    }

    /// The whole pass, where one actor alone attacks and nobody stands on
    /// any tile that its action affects: nobody loses health, no part is
    /// damaged, and the attack is no longer queued.
    pub proof fn lemma_pass_spares_empty_tiles(pre: &World, post: &World, e: int)
        requires
            Self::ran(pre, post),
            Self::attacks_alone(pre, e),
            forall|k: int|
                0 <= k < resolved(
                    attack_shape(pre.attack_intents@[e]->0.main),
                    pre.attack_intents@[e]->0.loc,
                ).len() ==> pre.map.occupant(
                    #[trigger] resolved(
                        attack_shape(pre.attack_intents@[e]->0.main),
                        pre.attack_intents@[e]->0.loc,
                    )[k],
                ) is None,
        ensures
            post.healths@ == pre.healths@,
            post.multis@ == pre.multis@,
            post.attack_intents@[e] is None,
            post.alive == pre.alive,
    {
        let trace = choose|trace: Seq<World>| pre.spans(post, trace) && #[trigger] Self::passed(trace);
        let intent = pre.attack_intents@[e]->0;
        let targets = resolved(attack_shape(intent.main), intent.loc);
        Self::lemma_before_the_attack(trace, e, e);
        assert(Self::linked(trace, e));
        match damage_of(intent) {
            Some(amount) => {
                assert(lands(&trace[e], &trace[e + 1], e, amount, targets));
                assert forall|k: int| 0 <= k < targets.len() implies trace[e].map.occupant(
                    #[trigger] targets[k],
                ) is None by {
                    assert(pre.map.occupant(targets[k]) is None);
                }
                lemma_empty_tiles_no_harm(&trace[e], &trace[e + 1], e, amount, targets);
            },
            None => {},
        }
        Self::lemma_after_the_attack(trace, e, pre.len());
    }
}

} // verus!
