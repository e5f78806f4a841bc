use vstd::prelude::*;
use crate::components::footprint_cells;
use crate::map::TileType;
use crate::world::World;

verus! {

pub struct MapIndexSystem;

impl MapIndexSystem {
    /// Some actor with an id below `below` that is alive stands on tile `t`.
    pub open spec fn covered_below(world: &World, t: usize, below: int) -> bool {
        exists|b: int|
            0 <= b < below && world.alive@[b] && #[trigger] world.tiles_of(b).contains(t)
    }

    /// `post` is `pre` with the blocked bitmap computed anew: a tile is
    /// blocked exactly if it is a wall or under an actor. Nothing else
    /// differs.
    pub open spec fn reindexed(pre: &World, post: &World) -> bool {
        &&& post.same_actors(pre)
        &&& post.player == pre.player
        &&& post.dead == pre.dead
        &&& post.particles == pre.particles
        &&& post.map.same_ground(&pre.map)
        &&& post.map.creature_map == pre.map.creature_map
        &&& post.map.search_args == pre.map.search_args
        &&& post.map.blocked_tiles@.len() == pre.map.tiles@.len()
        &&& forall|t: int|
            0 <= t < pre.map.tiles@.len() ==> (#[trigger] post.map.blocked_tiles@[t]
                <==> pre.map.tiles@[t] == TileType::Wall || pre.covered(t as usize))
    }

    /// The reindexing pass: computes the blocked bitmap anew, from the walls
    /// and from where the actors stand. Nothing else changes. Afterwards the
    /// bitmap agrees with the occupancy index, whatever it held before.
    pub fn run(&mut self, world: &mut World)
        requires
            old(world).wf(),
            old(world).indexed(),
        ensures
            final(world).inv(),
            final(world).blocked_where_occupied(),
            Self::reindexed(old(world), final(world)),
    {
        world.map.set_blocked_tiles();
        let count = world.alive.len();
        let mut a: usize = 0;
        while a < count
            invariant
                world.wf(),
                world.same_actors(old(world)),
                world.player == old(world).player,
                world.dead == old(world).dead,
                world.particles == old(world).particles,
                world.map.same_ground(&old(world).map),
                world.map.creature_map == old(world).map.creature_map,
                world.map.search_args == old(world).map.search_args,
                count == world.len(),
                a <= count,
                forall|t: int|
                    0 <= t < world.map.tiles@.len() ==> (#[trigger] world.map.blocked_tiles@[t]
                        <==> world.map.tiles@[t] == TileType::Wall || Self::covered_below(
                        world,
                        t as usize,
                        a as int,
                    )),
            decreases count - a,
        {
            let ghost before = *world;
            if world.alive[a] {
                let pos = world.positions[a].as_point();
                let cells = footprint_cells(world.multis[a].as_ref());
                assert(world.map.holds(world.anchor(a as int), world.cells(a as int)));
                let tiles = world.map.footprint_indices(pos, &cells);
                world.map.block_tiles(&tiles);
                assert(tiles@ == before.tiles_of(a as int));
            }
            proof {
                assert forall|b: int| 0 <= b < world.len() implies world.tiles_of(b)
                    == before.tiles_of(b) by {}
                assert forall|t: int| 0 <= t < world.map.tiles@.len() implies (
                #[trigger] world.map.blocked_tiles@[t] <==> world.map.tiles@[t] == TileType::Wall
                    || Self::covered_below(world, t as usize, a + 1)) by {
                    let tu = t as usize;
                    if Self::covered_below(world, tu, a + 1) {
                        let b = choose|b: int|
                            0 <= b < a + 1 && world.alive@[b] && #[trigger] world.tiles_of(
                                b,
                            ).contains(tu);
                        if b < a {
                            assert(before.tiles_of(b).contains(tu));
                            assert(Self::covered_below(&before, tu, a as int));
                        }
                    }
                    if Self::covered_below(&before, tu, a as int) {
                        let b = choose|b: int|
                            0 <= b < a && before.alive@[b] && #[trigger] before.tiles_of(
                                b,
                            ).contains(tu);
                        assert(world.tiles_of(b).contains(tu));
                    }
                    if world.alive@[a as int] && before.tiles_of(a as int).contains(tu) {
                        assert(world.tiles_of(a as int).contains(tu));
                    }
                }
                assert forall|b: int|
                    0 <= b < world.len() && #[trigger] world.alive@[b] implies world.map.holds(
                    world.anchor(b),
                    world.cells(b),
                ) by {
                    assert(before.map.holds(before.anchor(b), before.cells(b)));
                }
                assert forall|b: int| 0 <= b < world.len() implies (
                #[trigger] world.ai_states@[b] matches Some(state)
                    ==> crate::sys_ai::status_on_grid(state.status, &world.map)) by {
                    assert(before.ai_states@[b] matches Some(state)
                        ==> crate::sys_ai::status_on_grid(state.status, &before.map));
                }
            }
            a = a + 1;
        }
        proof {
            assert(world.all_tiles() =~= old(world).all_tiles());
            assert forall|b: int| 0 <= b < world.len() implies world.tiles_of(b) == old(
                world,
            ).tiles_of(b) by {}
            assert forall|t: usize| world.map.creature_map@.contains_key(t) implies t
                < world.map.tiles@.len() by {
                let b = world.map.creature_map@[t] as int;
                assert(world.all_tiles()[b].contains(t));
                world.lemma_tiles_on_grid(b);
            }
            assert forall|t: int| 0 <= t < world.map.tiles@.len() implies (
            #[trigger] world.map.blocked_tiles@[t] <==> world.map.tiles@[t] == TileType::Wall
                || world.map.creature_map@.contains_key(t as usize)) by {
                let tu = t as usize;
                if Self::covered_below(world, tu, count as int) {
                    let b = choose|b: int|
                        0 <= b < count && world.alive@[b] && #[trigger] world.tiles_of(b).contains(
                            tu,
                        );
                    let k = choose|k: int|
                        0 <= k < world.tiles_of(b).len() && world.tiles_of(b)[k] == tu;
                    assert(world.map.creature_map@.contains_key(world.all_tiles()[b][k]));
                }
                if world.map.creature_map@.contains_key(tu) {
                    let b = world.map.creature_map@[tu] as int;
                    assert(world.all_tiles()[b].contains(tu));
                    assert(world.tiles_of(b).contains(tu));
                }
            }
            world.lemma_blocked_where_occupied();
            assert forall|t: int| 0 <= t < world.map.tiles@.len() implies (
            #[trigger] world.map.blocked_tiles@[t] <==> old(world).map.tiles@[t] == TileType::Wall
                || old(world).covered(t as usize)) by {
                let tu = t as usize;
                if old(world).covered(tu) {
                    let b = choose|b: int|
                        0 <= b < old(world).len() && old(world).alive@[b] && #[trigger] old(
                            world,
                        ).tiles_of(b).contains(tu);
                    assert(world.tiles_of(b).contains(tu));
                    assert(Self::covered_below(world, tu, count as int));
                }
                if Self::covered_below(world, tu, count as int) {
                    let b = choose|b: int|
                        0 <= b < count && world.alive@[b] && #[trigger] world.tiles_of(b).contains(
                            tu,
                        );
                    assert(old(world).tiles_of(b).contains(tu));
                }
            }
        }
    }
}

} // verus!
