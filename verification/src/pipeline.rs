use vstd::prelude::*;
use crate::sys_ai::{AiSystem, NavigationPath};
use crate::sys_attack::AttackSystem;
use crate::sys_death::DeathSystem;
use crate::sys_mapindex::MapIndexSystem;
use crate::sys_movement::MovementSystem;
use crate::sys_partmove::PartMoveSystem;
use crate::sys_turn::TurnSystem;
use crate::world::World;

verus! {

/// What one tick makes of a world: the passes applied one after another, in
/// the one order in which they may run. Everybody who holds leave decides
/// before anybody moves; leave for the next decisions is handed out once the
/// decisions are made; steps are applied before attacks land; the blocked
/// bitmap is computed anew only after everything that moves has moved; the
/// dead are removed last, once every attack has landed.
pub open spec fn ticked(pre: &World, post: &World, paths: Seq<Option<NavigationPath>>) -> bool {
    exists|
        decided: World,
        admitted: World,
        moved: World,
        struck: World,
        shifted: World,
        indexed: World,
    |
        #![trigger AiSystem::ran(pre, &decided, paths), TurnSystem::opened(&decided, &admitted), MovementSystem::ran(&admitted, &moved), AttackSystem::ran(&moved, &struck), PartMoveSystem::ran(&struck, &shifted), MapIndexSystem::reindexed(&shifted, &indexed)]
        {
            &&& AiSystem::ran(pre, &decided, paths)
            &&& TurnSystem::opened(&decided, &admitted)
            &&& MovementSystem::ran(&admitted, &moved)
            &&& AttackSystem::ran(&moved, &struck)
            &&& PartMoveSystem::ran(&struck, &shifted)
            &&& MapIndexSystem::reindexed(&shifted, &indexed)
            &&& DeathSystem::ran(&indexed, post)
        }
}

/// One tick of the simulation, from the decisions of the actors to a world
/// in which their intents are resolved. `paths` holds, for each actor, the
/// path towards the tile that `AiSystem::path_goal` names for it; one that
/// is missing, or leads off the map, counts as one that was not found. After
/// every tick a tile is blocked exactly if it is a wall, or indexed to an
/// actor, or under an actor, and the ground is what it was.
pub fn run_systems(
    world: &mut World,
    paths: &Vec<Option<NavigationPath>>,
    rng: &mut rltk::RandomNumberGenerator,
)
    requires
        old(world).inv(),
        old(world).can_take(old(world).len()),
    ensures
        final(world).inv(),
        final(world).blocked_where_occupied(),
        final(world).map.same_ground(&old(world).map),
        ticked(old(world), final(world), paths@),
{
    let mut ai = AiSystem;
    ai.run(world, paths, rng);
    let ghost decided = *world;
    let mut turn = TurnSystem;
    turn.run(world);
    let ghost admitted = *world;
    let mut movement = MovementSystem;
    movement.run(world);
    let ghost moved = *world;
    proof {
        lemma_same_headroom(old(world), world);
    }
    let mut attack = AttackSystem;
    attack.run(world);
    let ghost struck = *world;
    let mut part_move = PartMoveSystem;
    part_move.run(world);
    let ghost shifted = *world;
    let mut map_index = MapIndexSystem;
    map_index.run(world);
    let ghost indexed = *world;
    let mut death = DeathSystem;
    death.run(world);
    proof {
        world.lemma_blocked_where_occupied();
        assert(AiSystem::ran(old(world), &decided, paths@));
        assert(TurnSystem::opened(&decided, &admitted));
        assert(MovementSystem::ran(&admitted, &moved));
        assert(AttackSystem::ran(&moved, &struck));
        assert(PartMoveSystem::ran(&struck, &shifted));
        assert(MapIndexSystem::reindexed(&shifted, &indexed));
        assert(DeathSystem::ran(&indexed, world));
    }
}

/// Actors whose health and parts are what they were can take what they
/// could take.
proof fn lemma_same_headroom(pre: &World, post: &World)
    requires
        pre.can_take(pre.len()),
        post.alive@.len() == pre.alive@.len(),
        post.healths == pre.healths,
        post.multis == pre.multis,
    ensures
        post.can_take(post.len()),
{
    assert forall|v: int, p: int|
        0 <= v < post.len() && post.multis@[v] is Some && 0 <= p
            < post.multis@[v]->0.part_list@.len() implies #[trigger] post.part_health(v, p)
        - post.len() >= i32::MIN by {
        assert(pre.part_health(v, p) - pre.len() >= i32::MIN);
    }
}

} // verus!
