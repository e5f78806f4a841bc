use vstd::prelude::*;
use crate::components::CanActFlag;
use crate::world::World;

verus! {

/// The turn gate: the pass that hands out leave to act. Leave is the only
/// admission to a turn; whoever takes a turn gives it back. The pass stands
/// behind the decisions in a tick: the leave that it hands out admits to
/// the decisions of the next tick. A round lasts from one turn of the
/// player to the next: the pass opens a round once the player has given its
/// leave back, and while the player still holds leave nobody is admitted.
pub struct TurnSystem;

impl TurnSystem {
    /// Whether actor `a` decides for itself: it is there and has a state, a
    /// viewshed and a moveset to decide with.
    pub open spec fn decides(world: &World, a: int) -> bool {
        &&& world.alive@[a]
        &&& world.ai_states@[a] is Some
        &&& world.viewsheds@[a] is Some
        &&& world.movesets@[a] is Some
    }

    /// Whether the round is over: the player holds no leave.
    pub open spec fn round_over(world: &World) -> bool {
        world.can_act@[world.player as int] is None
    }

    /// Whether actor `a` is given leave: the round is over, the actor is
    /// there and holds none, and it is the player or decides for itself.
    pub open spec fn admits(world: &World, a: int) -> bool {
        &&& Self::round_over(world)
        &&& world.alive@[a]
        &&& world.can_act@[a] is None
        &&& (a == world.player || Self::decides(world, a))
    }

    /// What is handed out: leave for a turn of the actor's own, in
    /// reaction to nobody.
    pub open spec fn leave() -> CanActFlag {
        CanActFlag { is_reaction: false, reaction_target: None }
    }

    /// Everything but the leave to act is in `post` what it is in `pre`.
    pub open spec fn kept(pre: &World, post: &World) -> bool {
        &&& post.map == pre.map
        &&& post.player == pre.player
        &&& post.dead == pre.dead
        &&& post.alive == pre.alive
        &&& post.positions == pre.positions
        &&& post.healths == pre.healths
        &&& post.multis == pre.multis
        &&& post.movesets == pre.movesets
        &&& post.ai_states == pre.ai_states
        &&& post.viewsheds == pre.viewsheds
        &&& post.move_intents == pre.move_intents
        &&& post.attack_intents == pre.attack_intents
        &&& post.attacks_in_progress == pre.attacks_in_progress
        &&& post.facings == pre.facings
        &&& post.part_moves == pre.part_moves
        &&& post.openables == pre.openables
        &&& post.npcs == pre.npcs
        &&& post.particles == pre.particles
        &&& post.can_act@.len() == pre.can_act@.len()
    }

    /// `post` is `pre` after the pass has come to the actors with an id
    /// below `below`: each of them that is given leave holds it, and whoever
    /// else held leave holds what it held.
    pub open spec fn opened_below(pre: &World, post: &World, below: int) -> bool {
        &&& Self::kept(pre, post)
        &&& forall|a: int|
            0 <= a < pre.len() ==> #[trigger] post.can_act@[a] == (if a < below && Self::admits(
                pre,
                a,
            ) {
                Some(Self::leave())
            } else {
                pre.can_act@[a]
            })
    }

    /// `post` is `pre` after the pass has come to everybody.
    pub open spec fn opened(pre: &World, post: &World) -> bool {
        Self::opened_below(pre, post, pre.len() as int)
    }

    /// The pass: where the player holds no leave, the player and every
    /// actor that decides for itself holds leave to act afterwards; where
    /// the player holds leave, nobody is given any. Leave that is held stays
    /// what it is, and nothing else changes.
    pub fn run(&mut self, world: &mut World)
        requires
            old(world).inv(),
        ensures
            final(world).inv(),
            Self::opened(old(world), final(world)),
    {
        let me = world.player;
        if world.can_act[me].is_some() {
            return ;
        }
        let count = world.alive.len();
        let mut a: usize = 0;
        while a < count
            invariant
                old(world).inv(),
                Self::round_over(old(world)),
                count == old(world).len(),
                a <= count,
                Self::opened_below(old(world), world, a as int),
            decreases count - a,
        {
            if world.alive[a] && world.can_act[a].is_none() && (a == world.player || (
            world.ai_states[a].is_some() && world.viewsheds[a].is_some()
                && world.movesets[a].is_some())) {
                world.can_act.set(a, Some(CanActFlag { is_reaction: false, reaction_target: None }));
            }
            a = a + 1;
        }
        proof {
            world.lemma_same_index(old(world));
        }
    }
}

} // verus!
