use vstd::prelude::*;
use crate::components::footprint_of;
use crate::map::vacated;
use crate::world::{lemma_leave_keeps_index, World};

verus! {

pub struct DeathSystem;

impl DeathSystem {
    /// Whether actor `a` has died: it is there, and its health has run out.
    pub open spec fn died(world: &World, a: int) -> bool {
        world.alive@[a] && (world.healths@[a] matches Some(h) && h.current <= 0)
    }

    /// What the death pass makes of actor `a`. Where the actor has died and
    /// is not the player, it gives up its tiles and leaves the world; where
    /// the player has died, the simulation is over, and the player stays
    /// where it is.
    pub open spec fn buries(pre: &World, post: &World, a: int) -> bool {
        &&& post.player == pre.player
        &&& post.positions == pre.positions
        &&& post.healths == pre.healths
        &&& post.multis == pre.multis
        &&& post.movesets == pre.movesets
        &&& post.ai_states == pre.ai_states
        &&& post.viewsheds == pre.viewsheds
        &&& post.can_act == pre.can_act
        &&& post.move_intents == pre.move_intents
        &&& post.part_moves == pre.part_moves
        &&& post.openables == pre.openables
        &&& post.npcs == pre.npcs
        &&& post.attack_intents == pre.attack_intents
        &&& post.attacks_in_progress == pre.attacks_in_progress
        &&& post.facings == pre.facings
        &&& post.particles == pre.particles
        &&& post.map.same_ground(&pre.map)
        &&& if Self::died(pre, a) && a != pre.player {
            &&& post.dead == pre.dead
            &&& post.alive@ == pre.alive@.update(a, false)
            &&& post.map.occupancy() == vacated(
                pre.map.occupancy(),
                pre.tiles_of(a),
                pre.map.tiles@,
            )
        } else {
            &&& post.dead == (pre.dead || Self::died(pre, a))
            &&& post.alive == pre.alive
            &&& post.map.occupancy() == pre.map.occupancy()
        }
    }

    /// World `i` of the trace leads to the next by the death pass over actor
    /// `i`.
    pub open spec fn linked(trace: Seq<World>, i: int) -> bool {
        Self::buries(&trace[i], &trace[i + 1], i)
    }

    /// Every world of the trace but the last leads to the next by the death
    /// pass over one actor, the actors taken in the order of their ids.
    pub open spec fn passed(trace: Seq<World>) -> bool {
        forall|i: int| 0 <= i < trace.len() - 1 ==> #[trigger] Self::linked(trace, i)
    }

    /// Removes actor `a` if it has died.
    pub fn step(&mut self, world: &mut World, a: usize)
        requires
            old(world).inv(),
            a < old(world).len(),
        ensures
            final(world).inv(),
            Self::buries(old(world), final(world), a as int),
    {
        if !world.alive[a] {
            return ;
        }
        let gone = match world.healths[a] {
            Some(health) => health.current <= 0,
            None => false,
        };
        if !gone {
            return ;
        }
        if a == world.player {
            world.dead = true;
            proof {
                world.lemma_same_index(old(world));
            }
            return ;
        }
        let pos = world.positions[a].as_point();
        let multi = world.multis[a].as_ref();
        let ghost cells = old(world).cells(a as int);
        assert(footprint_of(multi) == cells);
        assert(old(world).map.holds(old(world).anchor(a as int), cells));
        proof {
            assert(old(world).all_tiles()[a as int][0] == old(world).tiles_of(a as int)[0]);
        }
        let removed = world.map.untrack_creature(pos, multi);
        world.alive.set(a, false);
        proof {
            assert(world.all_tiles() =~= old(world).all_tiles());
            lemma_leave_keeps_index(
                old(world).map.creature_map@,
                old(world).alive@,
                old(world).all_tiles(),
                a as int,
                old(world).map.blocked_tiles@,
                old(world).map.tiles@,
            );
            assert forall|b: int|
                0 <= b < world.len() && #[trigger] world.alive@[b] implies world.map.holds(
                world.anchor(b),
                world.cells(b),
            ) by {
                assert(old(world).alive@[b]);
                assert(old(world).map.holds(old(world).anchor(b), old(world).cells(b)));
            }
            assert forall|b: int| 0 <= b < world.len() implies (
            #[trigger] world.ai_states@[b] matches Some(state) ==> crate::sys_ai::status_on_grid(
                state.status,
                &world.map,
            )) by {
                assert(old(world).ai_states@[b] matches Some(state)
                    ==> crate::sys_ai::status_on_grid(state.status, &old(world).map));
            }
        }
    }

    /// The death pass: removes every actor that has died, and ends the
    /// simulation where the player has.
    pub fn run(&mut self, world: &mut World)
        requires
            old(world).inv(),
        ensures
            final(world).inv(),
            Self::ran(old(world), final(world)),
            final(world).map.same_ground(&old(world).map),
    {
        let ghost mut trace: Seq<World> = seq![*world];
        let count = world.alive.len();
        let mut a: usize = 0;
        while a < count
            invariant
                world.map.same_ground(&old(world).map),
                world.inv(),
                count == world.len(),
                count == old(world).len(),
                a <= count,
                trace.len() == a + 1,
                trace[0] == *old(world),
                trace[a as int] == *world,
                Self::passed(trace),
            decreases count - a,
        {
            self.step(world, a);
            proof {
                let longer = trace.push(*world);
                assert forall|i: int| 0 <= i < longer.len() - 1 implies #[trigger] Self::linked(
                    longer,
                    i,
                ) by {
                    if i < a {
                        assert(Self::linked(trace, i));
                    }
                }
                trace = longer;
            }
            a = a + 1;
        }
        assert(old(world).spans(world, trace));
    }

    /// `post` is what the pass makes of `pre`: there is a trace of worlds
    /// from the one to the other, one step per actor.
    pub open spec fn ran(pre: &World, post: &World) -> bool {
        exists|trace: Seq<World>| pre.spans(post, trace) && #[trigger] Self::passed(trace)
    }
}

} // verus!
