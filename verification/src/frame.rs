use vstd::prelude::*;
use crate::components::{AttackIntent, Viewshed};
use crate::geometry::Point;
use crate::move_type::{
    attack_delay, attack_range, get_attack_intent, get_attack_range, lemma_attack_in_reach,
    AttackType,
};
use crate::player::{
    attack_queued, can_press, charged, cursor_can_follow, end_turn_cleanup, keyed, moved_cursor,
    player_input, queue_attack, ranged_target, selection, valid_target, Charge, Command, RunState,
    SelectionResult, Targeting,
};
use crate::range_type::{resolve_range_at, resolved};
use crate::sys_ai::AiSystem;
use crate::sys_turn::TurnSystem;
use crate::weapon::Weapon;
use crate::world::World;

verus! {

/// `post` is `pre` at the end of the turn of the player: nobody holds leave
/// to act any longer, and nothing else differs.
pub open spec fn turn_ended(pre: &World, post: &World) -> bool {
    &&& TurnSystem::kept(pre, post)
    &&& forall|a: int| 0 <= a < post.can_act@.len() ==> post.can_act@[a] is None
}

/// `post` is `mid` where the simulation does not run next, and `mid` at the
/// end of the turn of the player where it does.
pub open spec fn settled(mid: &World, post: &World, next: RunState) -> bool {
    if next == RunState::Running {
        turn_ended(mid, post)
    } else {
        *post == *mid
    }
}

/// A frame in which the player is asked for its move. The move is made as
/// `player_input` makes it; where the simulation runs next, the turn of the
/// player is over, and whoever holds leave to act gives it back.
pub fn await_input<W: Weapon>(
    world: &mut World,
    weapon: &mut W,
    charge: &mut Charge,
    command: Option<Command>,
) -> (next: RunState)
    requires
        old(world).inv(),
        old(world).can_act@[old(world).player as int] is Some,
        !old(charge).active ==> can_press(old(world), command),
    ensures
        final(world).inv(),
        old(charge).active ==> next == RunState::Running,
        !old(charge).active ==> *final(charge) == *old(charge),
        exists|mid: World| #[trigger]
            settled(&mid, final(world), next) && if old(charge).active {
                charged(old(world), &mid, old(weapon), final(weapon), *old(charge), *final(charge))
            } else {
                keyed(
                    old(world),
                    &mid,
                    old(weapon),
                    final(weapon),
                    command,
                    old(world).can_act@[old(world).player as int]->0.is_reaction,
                    next,
                )
            },
{
    let next = player_input(world, weapon, charge, command);
    let ghost mid = *world;
    if next == RunState::Running {
        end_turn_cleanup(world);
    }
    assert(settled(&mid, world, next));
    next
}

/// The intent that a confirmed choice queues: the action, aimed at the tile
/// that was chosen, or at the origin where the action needs no tile.
pub open spec fn chosen_intent(
    attack_type: AttackType,
    target: Option<Point>,
    modifier: Option<AttackType>,
) -> AttackIntent {
    AttackIntent {
        main: attack_type,
        modifier,
        loc: match target {
            Some(tile) => tile,
            None => Point { x: 0, y: 0 },
        },
        delay: attack_delay(attack_type) as i32,
    }
}

/// The state after a command while a target is chosen for `attack_type`.
pub open spec fn target_state(
    choice: SelectionResult,
    attack_type: AttackType,
    ignore_targetting: bool,
) -> RunState {
    match choice {
        SelectionResult::Canceled => RunState::AwaitingInput,
        SelectionResult::NoResponse => RunState::Targetting { attack_type, ignore_targetting },
        SelectionResult::Selected => RunState::Running,
    }
}

/// The tiles that the player sees; none where it has no eyes for any.
pub open spec fn seen_by_player(world: &World) -> Seq<Point> {
    match world.viewsheds@[world.player as int] {
        Some(viewshed) => viewshed.visible@,
        None => Seq::empty(),
    }
}

/// A frame in which the player chooses a target for `attack_type`, among
/// the tiles that the action reaches from where the player stands. A choice
/// that is confirmed queues the attack with the modifier at hand, uses the
/// modifier up and ends the turn of the player; one that is given up leads
/// back to the move; anything else moves the cursor at most.
pub fn choose_target(
    world: &mut World,
    state: &mut Targeting,
    modifier: &mut Option<AttackType>,
    attack_type: AttackType,
    ignore_targetting: bool,
    command: Option<Command>,
) -> (next: RunState)
    requires
        old(world).inv(),
        cursor_can_follow(*old(state), command),
    ensures
        final(world).inv(),
        ({
            let me = old(world).player as int;
            let choice = selection(
                valid_target(
                    old(state).cursor,
                    seen_by_player(old(world)),
                    resolved(attack_range(attack_type), old(world).anchor(me)),
                    ignore_targetting,
                ),
                old(state).cursor,
                ignore_targetting,
                command,
            );
            &&& next == target_state(choice.0, attack_type, ignore_targetting)
            &&& final(state).cursor == moved_cursor(*old(state), command)
            &&& final(state).tab_targets == old(state).tab_targets
            &&& final(state).tab_index == (if command == Some(Command::NextTarget) && old(
                state,
            ).tab_targets@.len() > 0 {
                (old(state).tab_index + 1) as usize
            } else {
                old(state).tab_index
            })
            &&& if choice.0 == SelectionResult::Selected {
                &&& *final(modifier) is None
                &&& exists|mid: World| #[trigger]
                    turn_ended(&mid, final(world)) && attack_queued(
                        old(world),
                        &mid,
                        Some(chosen_intent(attack_type, choice.1, *old(modifier))),
                    )
            } else {
                &&& *final(modifier) == *old(modifier)
                &&& *final(world) == *old(world)
            }
        }),
{
    let me = world.player;
    let from = world.positions[me].as_point();
    proof {
        assert(world.map.holds(world.anchor(me as int), world.cells(me as int)));
        lemma_attack_in_reach(attack_type, from);
    }
    let range_type = get_attack_range(&attack_type);
    let tiles_in_range = resolve_range_at(&range_type, from);
    let result = match &world.viewsheds[me] {
        Some(viewshed) => ranged_target(state, viewshed, &tiles_in_range, ignore_targetting, command),
        None => {
            let blind = Viewshed { visible: Vec::new(), dirty: false, range: 0 };
            ranged_target(state, &blind, &tiles_in_range, ignore_targetting, command)
        },
    };
    match result.0 {
        SelectionResult::Canceled => RunState::AwaitingInput,
        SelectionResult::NoResponse => RunState::Targetting { attack_type, ignore_targetting },
        SelectionResult::Selected => {
            let target = match result.1 {
                Some(tile) => tile,
                None => Point::zero(),
            };
            let intent = get_attack_intent(&attack_type, target, *modifier);
            assert(intent == chosen_intent(attack_type, result.1, *old(modifier)));
            queue_attack(world, Some(intent));
            let ghost mid = *world;
            *modifier = None;
            end_turn_cleanup(world);
            assert(turn_ended(&mid, world));
            RunState::Running
        },
    }
}

/// Whether somebody holds leave to decide for itself: its turn comes
/// before the player is asked again.
pub open spec fn somebody_decides(world: &World) -> bool {
    exists|a: int| 0 <= a < world.len() && #[trigger] AiSystem::takes_turn(world, a)
}

/// What the simulation does after a tick. Once the player is dead, nothing
/// follows. Else the player is asked for its move as soon as it holds leave
/// and nobody holds leave to decide before it; until then the simulation
/// runs on.
pub open spec fn tick_leads(world: &World) -> RunState {
    if world.dead {
        RunState::Dead
    } else if world.can_act@[world.player as int] is Some && !somebody_decides(world) {
        RunState::AwaitingInput
    } else {
        RunState::Running
    }
}

/// The state after a tick of the simulation: see `tick_leads`.
pub fn after_tick(world: &World) -> (next: RunState)
    requires
        world.wf(),
    ensures
        next == tick_leads(world),
{
    if world.dead {
        return RunState::Dead;
    }
    if world.can_act[world.player].is_none() {
        return RunState::Running;
    }
    let count = world.alive.len();
    let mut a: usize = 0;
    while a < count
        invariant
            world.wf(),
            !world.dead,
            world.can_act@[world.player as int] is Some,
            count == world.len(),
            a <= count,
            forall|b: int| 0 <= b < a ==> !#[trigger] AiSystem::takes_turn(world, b),
        decreases count - a,
    {
        if world.alive[a] && world.can_act[a].is_some() && world.ai_states[a].is_some()
            && world.viewsheds[a].is_some() && world.movesets[a].is_some() {
            assert(AiSystem::takes_turn(world, a as int));
            assert(somebody_decides(world));
            return RunState::Running;
        }
        a = a + 1;
    }
    RunState::AwaitingInput
}

} // verus!
