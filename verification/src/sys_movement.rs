use vstd::prelude::*;
use crate::components::{footprint_of, Position, Viewshed};
use crate::direction::{direction_towards, Direction};
use crate::world::{lemma_retile_keeps_index, World};

verus! {

pub struct MovementSystem;

/// An actor that has a facing turns to where it steps; where the step
/// leads nowhere, or the actor has no facing, nothing changes.
pub open spec fn turned(facing: Option<Direction>, towards: Option<Direction>) -> Option<Direction> {
    match (facing, towards) {
        (Some(_), Some(d)) => Some(d),
        _ => facing,
    }
}

/// The viewshed of an actor that has moved must be computed anew.
pub open spec fn marked_dirty(viewshed: Option<Viewshed>) -> Option<Viewshed> {
    match viewshed {
        Some(v) => Some(Viewshed { visible: v.visible, dirty: true, range: v.range }),
        None => None,
    }
}

impl MovementSystem {
    /// What the movement pass makes of actor `a`: `post` is `pre` after the
    /// actor's queued step has been tried. The intent is used up either
    /// way. The actor turns to where it wanted to go; where the map lets it
    /// move, its tiles are migrated, its position follows, and its viewshed
    /// is marked dirty.
    pub open spec fn moves(pre: &World, post: &World, a: int) -> bool {
        &&& post.player == pre.player
        &&& post.dead == pre.dead
        &&& post.alive == pre.alive
        &&& post.healths == pre.healths
        &&& post.multis == pre.multis
        &&& post.movesets == pre.movesets
        &&& post.ai_states == pre.ai_states
        &&& post.can_act == pre.can_act
        &&& post.attack_intents == pre.attack_intents
        &&& post.attacks_in_progress == pre.attacks_in_progress
        &&& post.particles == pre.particles
        &&& post.map.same_ground(&pre.map)
        &&& post.move_intents@ == pre.move_intents@.update(a, None)
        &&& post.part_moves == pre.part_moves
        &&& post.openables == pre.openables
        &&& post.npcs == pre.npcs
        &&& if pre.alive@[a] && pre.move_intents@[a] is Some {
            let loc = pre.move_intents@[a]->0.loc;
            let done = pre.map.exit_valid(
                loc.x as int,
                loc.y as int,
                Some(a as usize),
                pre.cells(a),
            );
            &&& post.map.occupancy() == pre.map.moved(a as usize, pre.anchor(a), loc, pre.cells(a))
            &&& post.positions@ == (if done {
                pre.positions@.update(a, Position { x: loc.x, y: loc.y })
            } else {
                pre.positions@
            })
            &&& post.viewsheds@ == (if done {
                pre.viewsheds@.update(a, marked_dirty(pre.viewsheds@[a]))
            } else {
                pre.viewsheds@
            })
            &&& post.facings@ == pre.facings@.update(
                a,
                turned(pre.facings@[a], direction_towards(pre.anchor(a), loc)),
            )
        } else {
            &&& post.map.occupancy() == pre.map.occupancy()
            &&& post.positions == pre.positions
            &&& post.viewsheds == pre.viewsheds
            &&& post.facings == pre.facings
        }
    }

    /// Every world of the trace but the last leads to the next by the move
    /// of one actor, the actors taken in the order of their ids.
    pub open spec fn passed(trace: Seq<World>) -> bool {
        forall|i: int| 0 <= i < trace.len() - 1 ==> #[trigger] Self::linked(trace, i)
    }

    /// World `i` of the trace leads to the next by the move of actor `i`.
    pub open spec fn linked(trace: Seq<World>, i: int) -> bool {
        Self::moves(&trace[i], &trace[i + 1], i)
    }

    /// Tries the queued step of actor `a`.
    pub fn step(&mut self, world: &mut World, a: usize)
        requires
            old(world).inv(),
            a < old(world).len(),
        ensures
            final(world).inv(),
            Self::moves(old(world), final(world), a as int),
    {
        let intent = world.move_intents[a];
        world.move_intents.set(a, None);
        let movement = match intent {
            Some(movement) => movement,
            None => {
                proof {
                    world.lemma_same_index(old(world));
                }
                return ;
            },
        };
        if !world.alive[a] {
            proof {
                world.lemma_same_index(old(world));
            }
            return ;
        }
        let new_pos = movement.loc;
        let pos = world.positions[a].as_point();
        if world.facings[a].is_some() {
            match Direction::get_direction_towards(pos, new_pos) {
                Some(d) => {
                    world.facings.set(a, Some(d));
                },
                None => {},
            }
        }
        assert(world.facings@ =~= old(world).facings@.update(
            a as int,
            turned(old(world).facings@[a as int], direction_towards(pos, new_pos)),
        ));
        let multi = world.multis[a].as_ref();
        let ghost cells = old(world).cells(a as int);
        assert(footprint_of(multi) == cells);
        assert(old(world).map.holds(old(world).anchor(a as int), cells));
        if world.map.move_creature(a, pos, new_pos, multi) {
            world.positions.set(a, Position { x: new_pos.x, y: new_pos.y });
            match &mut world.viewsheds[a] {
                Some(viewshed) => {
                    viewshed.dirty = true;
                },
                None => {},
            }
            proof {
                assert(world.viewsheds@ =~= old(world).viewsheds@.update(
                    a as int,
                    marked_dirty(old(world).viewsheds@[a as int]),
                ));
                old(world).map.lemma_valid_exit_holds(new_pos, Some(a), cells);
                old(world).map.lemma_exit_tiles_free(new_pos, Some(a), cells);
                assert(world.all_tiles() =~= old(world).all_tiles().update(
                    a as int,
                    world.tiles_of(a as int),
                ));
                lemma_retile_keeps_index(
                    old(world).map.creature_map@,
                    old(world).alive@,
                    old(world).all_tiles(),
                    world.all_tiles(),
                    a as int,
                    old(world).map.blocked_tiles@,
                    old(world).map.tiles@,
                );
                assert forall|b: int|
                    0 <= b < world.len() && #[trigger] world.alive@[b] implies world.map.holds(
                    world.anchor(b),
                    world.cells(b),
                ) by {
                    if b != a {
                        assert(old(world).map.holds(old(world).anchor(b), old(world).cells(b)));
                    }
                }
                assert forall|b: int| 0 <= b < world.len() implies (
                #[trigger] world.ai_states@[b] matches Some(state)
                    ==> crate::sys_ai::status_on_grid(state.status, &world.map)) by {
                    assert(old(world).ai_states@[b] matches Some(state)
                        ==> crate::sys_ai::status_on_grid(state.status, &old(world).map));
                }
            }
        } else {
            proof {
                world.lemma_same_index(old(world));
            }
        }
    }

    /// The movement pass: tries the queued step of every actor, in the
    /// order of their ids, and leaves no step queued.
    pub fn run(&mut self, world: &mut World)
        requires
            old(world).inv(),
        ensures
            final(world).inv(),
            Self::ran(old(world), final(world)),
            final(world).map.same_ground(&old(world).map),
            final(world).healths == old(world).healths,
            final(world).multis == old(world).multis,
    {
        let ghost mut trace: Seq<World> = seq![*world];
        let count = world.alive.len();
        let mut a: usize = 0;
        while a < count
            invariant
                world.map.same_ground(&old(world).map),
                world.inv(),
                world.healths == old(world).healths,
                world.multis == old(world).multis,
                count == world.len(),
                count == old(world).len(),
                a <= count,
                trace.len() == a + 1,
                trace[0] == *old(world),
                trace[a as int] == *world,
                Self::passed(trace),
            decreases count - a,
        {
            let ghost before = *world;
            self.step(world, a);
            proof {
                let longer = trace.push(*world);
                assert forall|i: int| 0 <= i < longer.len() - 1 implies #[trigger] Self::linked(
                    longer,
                    i,
                ) by {
                    if i < a {
                        assert(Self::linked(trace, i));
                    }
                }
                trace = longer;
            }
            a = a + 1;
        }
        assert(old(world).spans(world, trace));
    }

    /// `post` is what the pass makes of `pre`: there is a trace of worlds
    /// from the one to the other, one step per actor.
    pub open spec fn ran(pre: &World, post: &World) -> bool {
        exists|trace: Seq<World>| pre.spans(post, trace) && #[trigger] Self::passed(trace)
    }
}

} // verus!
