use vstd::prelude::*;
use crate::geometry::Point;
use crate::map::{tile_of, TileMap};
use crate::world::World;

verus! {

pub struct VisibilitySystem;

/// Those of `seen` that lie on the grid of `map`, in order.
pub open spec fn seen_on_grid(map: &TileMap, seen: Seq<Point>) -> Seq<Point> {
    seen.filter(|p: Point| map.in_bounds(p.x as int, p.y as int))
}

/// Whether one of `seen` is the tile with the number `t`.
pub open spec fn shows(map: &TileMap, seen: Seq<Point>, t: int) -> bool {
    exists|k: int|
        0 <= k < seen.len() && map.in_bounds((#[trigger] seen[k]).x as int, seen[k].y as int)
            && tile_of(map.width as int, seen[k].x as int, seen[k].y as int) == t
}

impl VisibilitySystem {
    /// Whether the field of view of actor `a` must be computed anew.
    pub fn needs_view(world: &World, a: usize) -> (dirty: bool)
        requires
            world.wf(),
            a < world.len(),
        ensures
            dirty == (world.alive@[a as int] && (world.viewsheds@[a as int] matches Some(v)
                && v.dirty)),
    {
        if !world.alive[a] {
            return false;
        }
        match &world.viewsheds[a] {
            Some(viewshed) => viewshed.dirty,
            None => false,
        }
    }

    /// What the visibility pass leaves alone: everything but what actors
    /// see, and what the map shows and knows.
    pub open spec fn kept(pre: &World, post: &World) -> bool {
        &&& post.player == pre.player
        &&& post.dead == pre.dead
        &&& post.alive == pre.alive
        &&& post.positions == pre.positions
        &&& post.healths == pre.healths
        &&& post.multis == pre.multis
        &&& post.movesets == pre.movesets
        &&& post.ai_states == pre.ai_states
        &&& post.can_act == pre.can_act
        &&& post.move_intents == pre.move_intents
        &&& post.attack_intents == pre.attack_intents
        &&& post.attacks_in_progress == pre.attacks_in_progress
        &&& post.facings == pre.facings
        &&& post.part_moves == pre.part_moves
        &&& post.openables == pre.openables
        &&& post.npcs == pre.npcs
        &&& post.particles == pre.particles
        &&& post.map.tiles == pre.map.tiles
        &&& post.map.rooms == pre.map.rooms
        &&& post.map.width == pre.map.width
        &&& post.map.height == pre.map.height
        &&& post.map.depth == pre.map.depth
        &&& post.map.item_map == pre.map.item_map
        &&& post.map.creature_map == pre.map.creature_map
        &&& post.map.blocked_tiles == pre.map.blocked_tiles
        &&& post.map.level_exit == pre.map.level_exit
        &&& post.map.search_args == pre.map.search_args
    }

    /// What the visibility pass makes of actor `a`, given the tiles `seen`
    /// that lie in its field of view: the actor sees those of them that lie
    /// on the grid. Where the actor is the player, the map shows exactly
    /// those tiles as visible, and knows them from now on.
    pub open spec fn sees(pre: &World, post: &World, a: int, seen: Seq<Point>) -> bool {
        &&& Self::kept(pre, post)
        &&& post.viewsheds@.len() == pre.viewsheds@.len()
        &&& forall|b: int|
            0 <= b < pre.len() && b != a ==> #[trigger] post.viewsheds@[b] == pre.viewsheds@[b]
        &&& match (pre.viewsheds@[a], post.viewsheds@[a]) {
            (Some(before), Some(after)) => after.visible@ == seen_on_grid(&pre.map, seen)
                && !after.dirty && after.range == before.range,
            (None, None) => true,
            _ => false,
        }
        &&& post.map.visible_tiles@.len() == pre.map.visible_tiles@.len()
        &&& post.map.known_tiles@.len() == pre.map.known_tiles@.len()
        &&& if a == pre.player && pre.viewsheds@[a] is Some {
            &&& forall|t: int|
                0 <= t < pre.map.tiles@.len() ==> #[trigger] post.map.visible_tiles@[t] == shows(
                    &pre.map,
                    seen,
                    t,
                )
            &&& forall|t: int|
                0 <= t < pre.map.tiles@.len() ==> #[trigger] post.map.known_tiles@[t] == (
                pre.map.known_tiles@[t] || shows(&pre.map, seen, t))
        } else {
            post.map.visible_tiles == pre.map.visible_tiles && post.map.known_tiles
                == pre.map.known_tiles
        }
    }

    /// Takes in the field of view of actor `a`.
    pub fn see(&mut self, world: &mut World, a: usize, seen: &Vec<Point>)
        requires
            old(world).inv(),
            a < old(world).len(),
        ensures
            final(world).inv(),
            Self::sees(old(world), final(world), a as int, seen@),
    {
        if world.viewsheds[a].is_none() {
            return ;
        }
        let mut visible: Vec<Point> = Vec::new();
        let mut k: usize = 0;
        assert(seen@.take(0) =~= Seq::<Point>::empty());
        while k < seen.len()
            invariant
                k <= seen@.len(),
                *world == *old(world),
                visible@ == seen_on_grid(&world.map, seen@.take(k as int)),
            decreases seen@.len() - k,
        {
            let p = seen[k];
            proof {
                let on_grid = |p: Point| world.map.in_bounds(p.x as int, p.y as int);
                assert(seen@.take(k + 1) =~= seen@.take(k as int).push(p));
                assert(seen@.take(k as int).push(p).drop_last() =~= seen@.take(k as int));
                reveal(Seq::filter);
            }
            if p.x >= 0 && p.x < world.map.width && p.y >= 0 && p.y < world.map.height {
                visible.push(p);
            }
            k = k + 1;
        }
        assert(seen@.take(k as int) =~= seen@);
        match &mut world.viewsheds[a] {
            Some(viewshed) => {
                viewshed.visible = visible;
                viewshed.dirty = false;
            },
            None => {},
        }
        let ghost looked = world.viewsheds;
        if a == world.player {
            let mut t: usize = 0;
            while t < world.map.visible_tiles.len()
                invariant
                    old(world).inv(),
                    world.map.wf(),
                    Self::kept(old(world), world),
                    world.viewsheds == looked,
                    world.map.known_tiles == old(world).map.known_tiles,
                    t <= world.map.visible_tiles@.len(),
                    forall|u: int| 0 <= u < t ==> !world.map.visible_tiles@[u],
                decreases world.map.visible_tiles@.len() - t,
            {
                world.map.visible_tiles.set(t, false);
                t = t + 1;
            }
            k = 0;
            while k < seen.len()
                invariant
                    old(world).inv(),
                    world.map.wf(),
                    Self::kept(old(world), world),
                    world.viewsheds == looked,
                    k <= seen@.len(),
                    forall|t: int|
                        0 <= t < world.map.tiles@.len() ==> #[trigger] world.map.visible_tiles@[t]
                            == shows(&old(world).map, seen@.take(k as int), t),
                    forall|t: int|
                        0 <= t < world.map.tiles@.len() ==> #[trigger] world.map.known_tiles@[t]
                            == (old(world).map.known_tiles@[t] || shows(
                            &old(world).map,
                            seen@.take(k as int),
                            t,
                        )),
                decreases seen@.len() - k,
            {
                let p = seen[k];
                let ghost before = world.map;
                if p.x >= 0 && p.x < world.map.width && p.y >= 0 && p.y < world.map.height {
                    let index = world.map.get_index(p.x, p.y);
                    world.map.visible_tiles.set(index, true);
                    world.map.known_tiles.set(index, true);
                }
                proof {
                    let shorter = seen@.take(k as int);
                    let longer = seen@.take(k + 1);
                    assert forall|t: int| 0 <= t < world.map.tiles@.len() implies (shows(
                        &old(world).map,
                        longer,
                        t,
                    ) <==> shows(&old(world).map, shorter, t) || (old(world).map.in_bounds(
                        p.x as int,
                        p.y as int,
                    ) && tile_of(old(world).map.width as int, p.x as int, p.y as int) == t)) by {
                        if shows(&old(world).map, longer, t) {
                            let j = choose|j: int|
                                0 <= j < longer.len() && old(world).map.in_bounds(
                                    (#[trigger] longer[j]).x as int,
                                    longer[j].y as int,
                                ) && tile_of(
                                    old(world).map.width as int,
                                    longer[j].x as int,
                                    longer[j].y as int,
                                ) == t;
                            if j < k {
                                assert(shorter[j] == longer[j]);
                            }
                        }
                        if shows(&old(world).map, shorter, t) {
                            let j = choose|j: int|
                                0 <= j < shorter.len() && old(world).map.in_bounds(
                                    (#[trigger] shorter[j]).x as int,
                                    shorter[j].y as int,
                                ) && tile_of(
                                    old(world).map.width as int,
                                    shorter[j].x as int,
                                    shorter[j].y as int,
                                ) == t;
                            assert(longer[j] == shorter[j]);
                        }
                        if old(world).map.in_bounds(p.x as int, p.y as int) {
                            assert(longer[k as int] == p);
                        }
                    }
                }
                k = k + 1;
            }
            assert(seen@.take(k as int) =~= seen@);
        }
        proof {
            world.lemma_same_index(old(world));
        }
    }
}

} // verus!
