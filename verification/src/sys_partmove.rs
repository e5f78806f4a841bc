use vstd::prelude::*;
use crate::components::footprint_of;
use crate::monster_part::{deltas_fit, parts_moved};
use crate::world::{lemma_retile_keeps_index, World};

verus! {

pub struct PartMoveSystem;

impl PartMoveSystem {
    /// Whether the queued shift of the parts of actor `a` can be carried
    /// out: the actor has a footprint to which the shift applies, and may
    /// stand where it stands with the footprint that the shift gives.
    pub open spec fn can_shift(world: &World, a: int) -> bool {
        &&& world.alive@[a]
        &&& world.part_moves@[a] is Some
        &&& world.multis@[a] is Some
        &&& deltas_fit(world.multis@[a]->0.part_list@, world.part_moves@[a]->0.part_delta@)
        &&& world.map.exit_valid(
            world.anchor(a).x as int,
            world.anchor(a).y as int,
            Some(a as usize),
            world.multis@[a]->0.moved_footprint(world.part_moves@[a]->0.part_delta@),
        )
    }

    /// What the part-move pass makes of actor `a`. The intent is used up
    /// either way. Where the shift can be carried out, every part moves by
    /// its offset, and the tiles of the actor are migrated with them, so
    /// that the map keeps telling where the actor is.
    pub open spec fn shifts(pre: &World, post: &World, a: int) -> bool {
        &&& post.player == pre.player
        &&& post.dead == pre.dead
        &&& post.alive == pre.alive
        &&& post.positions == pre.positions
        &&& post.healths == pre.healths
        &&& post.movesets == pre.movesets
        &&& post.ai_states == pre.ai_states
        &&& post.viewsheds == pre.viewsheds
        &&& post.can_act == pre.can_act
        &&& post.move_intents == pre.move_intents
        &&& post.attack_intents == pre.attack_intents
        &&& post.attacks_in_progress == pre.attacks_in_progress
        &&& post.facings == pre.facings
        &&& post.particles == pre.particles
        &&& post.openables == pre.openables
        &&& post.npcs == pre.npcs
        &&& post.map.same_ground(&pre.map)
        &&& post.part_moves@ == pre.part_moves@.update(a, None)
        &&& post.multis@.len() == pre.multis@.len()
        &&& forall|b: int|
            0 <= b < pre.len() && b != a ==> #[trigger] post.multis@[b] == pre.multis@[b]
        &&& if Self::can_shift(pre, a) {
            let deltas = pre.part_moves@[a]->0.part_delta@;
            let before = pre.multis@[a]->0;
            &&& post.multis@[a] is Some
            &&& post.multis@[a]->0.facing == before.facing
            &&& post.multis@[a]->0.bounds == before.bounds
            &&& parts_moved(before.part_list@, post.multis@[a]->0.part_list@, deltas)
            &&& post.map.occupancy() == pre.map.reshaped(
                a as usize,
                pre.anchor(a),
                before.footprint(),
                before.moved_footprint(deltas),
            )
        } else {
            &&& post.multis@[a] == pre.multis@[a]
            &&& post.map.occupancy() == pre.map.occupancy()
        }
    }

    /// World `i` of the trace leads to the next by the shift of the parts of
    /// actor `i`.
    pub open spec fn linked(trace: Seq<World>, i: int) -> bool {
        Self::shifts(&trace[i], &trace[i + 1], i)
    }

    /// Every world of the trace but the last leads to the next by the shift
    /// of the parts of one actor, the actors taken in the order of their ids.
    pub open spec fn passed(trace: Seq<World>) -> bool {
        forall|i: int| 0 <= i < trace.len() - 1 ==> #[trigger] Self::linked(trace, i)
    }

    /// Tries the queued shift of the parts of actor `a`.
    pub fn step(&mut self, world: &mut World, a: usize)
        requires
            old(world).inv(),
            a < old(world).len(),
        ensures
            final(world).inv(),
            Self::shifts(old(world), final(world), a as int),
    {
        let mut queued: Option<crate::components::PartMoveIntent> = None;
        std::mem::swap(&mut queued, &mut world.part_moves[a]);
        assert(world.part_moves@ =~= old(world).part_moves@.update(a as int, None));
        assert(queued == old(world).part_moves@[a as int]);
        proof {
            world.lemma_same_index(old(world));
        }
        let intent = match queued {
            Some(intent) => intent,
            None => {
                return ;
            },
        };
        if !world.alive[a] {
            return ;
        }
        let moved = match &world.multis[a] {
            Some(multi) => multi.moved_cells(&intent.part_delta),
            None => None,
        };
        let cells = match moved {
            Some(cells) => cells,
            None => {
                return ;
            },
        };
        let ghost new_cells = cells@;
        let ghost before = *world;
        let pos = world.positions[a].as_point();
        let multi = world.multis[a].as_ref();
        assert(footprint_of(multi) == old(world).cells(a as int));
        assert(before.map.holds(before.anchor(a as int), before.cells(a as int)));
        if !world.map.reshape_creature(a, pos, multi, cells) {
            proof {
                world.lemma_same_index(&before);
            }
            return ;
        }
        match &mut world.multis[a] {
            Some(multi) => {
                multi.shift_parts(&intent.part_delta);
            },
            None => {},
        }
        proof {
            assert(world.cells(a as int) == new_cells);
            before.map.lemma_valid_exit_holds(pos, Some(a), new_cells);
            before.map.lemma_exit_tiles_free(pos, Some(a), new_cells);
            assert(world.all_tiles() =~= before.all_tiles().update(
                a as int,
                world.tiles_of(a as int),
            )) by {
                assert forall|b: int| 0 <= b < world.len() && b != a implies world.tiles_of(b)
                    == before.tiles_of(b) by {
                    assert(world.multis@[b] == before.multis@[b]);
                }
            }
            lemma_retile_keeps_index(
                before.map.creature_map@,
                before.alive@,
                before.all_tiles(),
                world.all_tiles(),
                a as int,
                before.map.blocked_tiles@,
                before.map.tiles@,
            );
            assert forall|b: int|
                0 <= b < world.len() && #[trigger] world.alive@[b] implies world.map.holds(
                world.anchor(b),
                world.cells(b),
            ) by {
                if b != a {
                    assert(world.multis@[b] == before.multis@[b]);
                    assert(before.map.holds(before.anchor(b), before.cells(b)));
                }
            }
            assert forall|b: int| 0 <= b < world.len() implies (
            #[trigger] world.ai_states@[b] matches Some(state) ==> crate::sys_ai::status_on_grid(
                state.status,
                &world.map,
            )) by {
                assert(before.ai_states@[b] matches Some(state)
                    ==> crate::sys_ai::status_on_grid(state.status, &before.map));
            }
        }
    }

    /// The part-move pass: tries the queued shift of the parts of every
    /// actor, in the order of their ids, and leaves no shift queued.
    pub fn run(&mut self, world: &mut World)
        requires
            old(world).inv(),
        ensures
            final(world).inv(),
            Self::ran(old(world), final(world)),
            final(world).map.same_ground(&old(world).map),
    {
        let ghost mut trace: Seq<World> = seq![*world];
        let count = world.alive.len();
        let mut a: usize = 0;
        while a < count
            invariant
                world.map.same_ground(&old(world).map),
                world.inv(),
                count == world.len(),
                count == old(world).len(),
                a <= count,
                trace.len() == a + 1,
                trace[0] == *old(world),
                trace[a as int] == *world,
                Self::passed(trace),
            decreases count - a,
        {
            self.step(world, a);
            proof {
                let longer = trace.push(*world);
                assert forall|i: int| 0 <= i < longer.len() - 1 implies #[trigger] Self::linked(
                    longer,
                    i,
                ) by {
                    if i < a {
                        assert(Self::linked(trace, i));
                    }
                }
                trace = longer;
            }
            a = a + 1;
        }
        assert(old(world).spans(world, trace));
    }

    /// `post` is what the pass makes of `pre`: there is a trace of worlds
    /// from the one to the other, one step per actor.
    pub open spec fn ran(pre: &World, post: &World) -> bool {
        exists|trace: Seq<World>| pre.spans(post, trace) && #[trigger] Self::passed(trace)
    }
}

} // verus!
