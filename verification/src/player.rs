use vstd::prelude::*;
use crate::components::{AttackIntent, Health, MoveIntent, Viewshed};
use crate::direction::{direction_delta, Direction};
use crate::geometry::Point;
use crate::map::{tile_of, TileType};
use crate::move_type::{get_attack_intent, shape_in_reach, AttackType};
use crate::range_type::contains_point;
use crate::sys_ai::intent_of;
use crate::weapon::{Weapon, WeaponButton};
use crate::quest::log::QuestLog;
use crate::world::{NpcType, World};

verus! {

/// What the simulation does next, or waits for.
#[derive(Clone, Copy, Debug, PartialEq, Eq, Structural)]
pub enum RunState {
    AwaitingInput,
    Targetting { attack_type: AttackType, ignore_targetting: bool },
    ViewEnemy { index: u32 },
    ViewCard,
    Running,
    GenerateMap,
    /// The player looks at what is for sale.
    Shop,
    /// The player looks through the quests on offer.
    MissionSelect { index: usize },
    Dead,
}

/// What the player made of a choice among targets.
#[derive(Clone, Copy, Debug, PartialEq, Eq, Structural)]
pub enum SelectionResult {
    Selected,
    Canceled,
    NoResponse,
}

/// What the player can tell the simulation with one press of a key.
#[derive(Clone, Copy, Debug, PartialEq, Eq, Structural)]
pub enum Command {
    Left,
    Right,
    Up,
    Down,
    /// Let the turn pass.
    Wait,
    /// Give up.
    Die,
    View,
    Light,
    Heavy,
    Special,
    Sheathe,
    Confirm,
    Cancel,
    NextTarget,
    /// Give up the quest at hand.
    Abandon,
}

/// A charge of the player: whether it is under way, where it leads, and how
/// many tiles it covers in a turn.
#[derive(Clone, Copy, Debug, PartialEq, Eq, Structural)]
pub struct Charge {
    pub active: bool,
    pub direction: Direction,
    pub speed: i32,
}

/// The most tiles that a charge covers in a turn.
pub const MAX_CHARGE_SPEED: i32 = 3;

/// The cursor of the player while a target is chosen, and the targets that
/// the cursor can jump to.
pub struct Targeting {
    pub cursor: Point,
    pub tab_targets: Vec<Point>,
    pub tab_index: usize,
}

/// `v`, or the nearer end of the range from `lo` to `hi` where `v` lies
/// outside.
pub open spec fn clamped(v: int, lo: int, hi: int) -> int {
    if v < lo {
        lo
    } else if v > hi {
        hi
    } else {
        v
    }
}

/// The tile that the player walks into with a step of `(dx, dy)`: the step
/// ends at the edge of the grid where it would lead beyond.
pub open spec fn bump_target(world: &World, dx: int, dy: int) -> Point {
    let at = world.anchor(world.player as int);
    Point {
        x: clamped(at.x + dx, 0, world.map.width - 1) as i32,
        y: clamped(at.y + dy, 0, world.map.height - 1) as i32,
    }
}

/// A health that has run out.
pub open spec fn spent(health: Option<Health>) -> Option<Health> {
    match health {
        Some(h) => Some(Health { current: 0, max: h.max }),
        None => None,
    }
}

/// What walking into somebody who is there to talk to leads to.
pub open spec fn talk(npc_type: NpcType) -> RunState {
    match npc_type {
        NpcType::Blacksmith => RunState::Shop,
        NpcType::Handler => RunState::MissionSelect { index: 0 },
        NpcType::Shopkeeper => RunState::Shop,
    }
}

/// What a step of the player by `(dx, dy)` makes of the world, and what the
/// simulation does next. Onto a free tile, the step is queued. Into
/// somebody, the player breaks it open if it can be, talks to it if it is
/// there to talk to, and else queues a punch at its tile. Into a wall, or
/// into a blocked tile on which nobody stands, nothing happens and the
/// player is asked again.
pub open spec fn bumps(pre: &World, post: &World, dx: int, dy: int, next: RunState) -> bool {
    let dest = bump_target(pre, dx, dy);
    let t = tile_of(pre.map.width as int, dest.x as int, dest.y as int);
    let me = pre.player as int;
    &&& post.map == pre.map
    &&& post.player == pre.player
    &&& post.dead == pre.dead
    &&& post.alive == pre.alive
    &&& post.positions == pre.positions
    &&& post.multis == pre.multis
    &&& post.movesets == pre.movesets
    &&& post.ai_states == pre.ai_states
    &&& post.viewsheds == pre.viewsheds
    &&& post.can_act == pre.can_act
    &&& post.attacks_in_progress == pre.attacks_in_progress
    &&& post.facings == pre.facings
    &&& post.part_moves == pre.part_moves
    &&& post.openables == pre.openables
    &&& post.npcs == pre.npcs
    &&& post.particles == pre.particles
    &&& if !pre.map.blocked_tiles@[t as int] {
        &&& next == RunState::Running
        &&& post.move_intents@ == pre.move_intents@.update(me, Some(MoveIntent { loc: dest }))
        &&& post.attack_intents@ == pre.attack_intents@
        &&& post.healths@ == pre.healths@
    } else if pre.map.tiles@[t as int] != TileType::Wall && pre.map.creature_map@.contains_key(t) {
        let other = pre.map.creature_map@[t] as int;
        &&& post.move_intents@ == pre.move_intents@
        &&& if pre.openables@[other] {
            &&& next == RunState::Running
            &&& post.healths@ == pre.healths@.update(other, spent(pre.healths@[other]))
            &&& post.attack_intents@ == pre.attack_intents@
        } else if pre.npcs@[other] is Some {
            &&& next == talk(pre.npcs@[other]->0)
            &&& post.healths@ == pre.healths@
            &&& post.attack_intents@ == pre.attack_intents@
        } else {
            &&& next == RunState::Running
            &&& post.healths@ == pre.healths@
            &&& post.attack_intents@ == pre.attack_intents@.update(
                me,
                Some(intent_of(AttackType::Punch, dest)),
            )
        }
    } else {
        &&& next == RunState::AwaitingInput
        &&& post.move_intents@ == pre.move_intents@
        &&& post.attack_intents@ == pre.attack_intents@
        &&& post.healths@ == pre.healths@
    }
}

fn clamp_step(at: i32, by: i32, size: i32) -> (to: i32)
    requires
        0 < size,
    ensures
        to == clamped(at + by, 0, size - 1),
{
    let wanted: i64 = at as i64 + by as i64;
    if wanted < 0 {
        0
    } else if wanted > size as i64 - 1 {
        size - 1
    } else {
        wanted as i32
    }
}

/// A step of the player by `(dx, dy)`.
pub fn try_move_player(world: &mut World, dx: i32, dy: i32) -> (next: RunState)
    requires
        old(world).inv(),
    ensures
        final(world).inv(),
        bumps(old(world), final(world), dx as int, dy as int, next),
{
    let me = world.player;
    let pos = world.positions[me];
    let new_x = clamp_step(pos.x, dx, world.map.width);
    let new_y = clamp_step(pos.y, dy, world.map.height);
    let dest = Point { x: new_x, y: new_y };
    let dest_index = world.map.get_index(new_x, new_y);
    if !world.map.blocked_tiles[dest_index] {
        world.move_intents.set(me, Some(MoveIntent { loc: dest }));
        proof {
            world.lemma_same_index(old(world));
        }
        return RunState::Running;
    }
    if world.map.tiles[dest_index] == TileType::Wall {
        return RunState::AwaitingInput;
    }
    let dest_ent = match world.map.creature_at(dest) {
        Some(dest_ent) => dest_ent,
        None => {
            return RunState::AwaitingInput;
        },
    };
    assert(dest_ent < world.len()) by {
        assert(world.map.creature_map@.contains_key(dest_index));
    }
    if world.openables[dest_ent] {
        match &mut world.healths[dest_ent] {
            Some(health) => {
                health.current = 0;
            },
            None => {},
        }
        assert(world.healths@ =~= old(world).healths@.update(
            dest_ent as int,
            spent(old(world).healths@[dest_ent as int]),
        ));
    } else {
        match world.npcs[dest_ent] {
            Some(npc_type) => {
                return match npc_type {
                    NpcType::Blacksmith => RunState::Shop,
                    NpcType::Handler => RunState::MissionSelect { index: 0 },
                    NpcType::Shopkeeper => RunState::Shop,
                };
            },
            None => {},
        }
        let attack = get_attack_intent(&AttackType::Punch, dest, None);
        world.attack_intents.set(me, Some(attack));
    }
    proof {
        assert forall|b: int| 0 <= b < world.len() implies (
        #[trigger] world.attack_intents@[b] matches Some(i) ==> crate::range_type::range_in_reach(
            crate::move_type::attack_shape(i.main),
            i.loc,
        )) by {
            assert(old(world).attack_intents@[b] matches Some(i)
                ==> crate::range_type::range_in_reach(
                crate::move_type::attack_shape(i.main),
                i.loc,
            ));
        }
        world.lemma_same_index(old(world));
    }
    RunState::Running
}

/// `post` is `pre` with `intent`, if there is one and it can be resolved,
/// queued as the attack of the player. Nothing else differs.
pub open spec fn attack_queued(pre: &World, post: &World, intent: Option<AttackIntent>) -> bool {
    &&& post.map == pre.map
    &&& post.player == pre.player
    &&& post.dead == pre.dead
    &&& post.alive == pre.alive
    &&& post.positions == pre.positions
    &&& post.healths == pre.healths
    &&& post.multis == pre.multis
    &&& post.movesets == pre.movesets
    &&& post.ai_states == pre.ai_states
    &&& post.viewsheds == pre.viewsheds
    &&& post.can_act == pre.can_act
    &&& post.move_intents == pre.move_intents
    &&& post.attacks_in_progress == pre.attacks_in_progress
    &&& post.facings == pre.facings
    &&& post.part_moves == pre.part_moves
    &&& post.openables == pre.openables
    &&& post.npcs == pre.npcs
    &&& post.particles == pre.particles
    &&& post.attack_intents@ == (match intent {
        Some(attack) => if crate::range_type::range_in_reach(
            crate::move_type::attack_shape(attack.main),
            attack.loc,
        ) {
            pre.attack_intents@.update(pre.player as int, Some(attack))
        } else {
            pre.attack_intents@
        },
        None => pre.attack_intents@,
    })
}

/// Queues `intent`, if there is one and it can be resolved, as the attack of
/// the player.
pub fn queue_attack(world: &mut World, intent: Option<AttackIntent>)
    requires
        old(world).inv(),
    ensures
        final(world).inv(),
        attack_queued(old(world), final(world), intent),
{
    match intent {
        Some(attack) => {
            if shape_in_reach(&attack.main, attack.loc) {
                let me = world.player;
                world.attack_intents.set(me, Some(attack));
                proof {
                    assert forall|b: int| 0 <= b < world.len() implies (
                    #[trigger] world.attack_intents@[b] matches Some(i)
                        ==> crate::range_type::range_in_reach(
                        crate::move_type::attack_shape(i.main),
                        i.loc,
                    )) by {
                        assert(old(world).attack_intents@[b] matches Some(i)
                            ==> crate::range_type::range_in_reach(
                            crate::move_type::attack_shape(i.main),
                            i.loc,
                        ));
                    }
                    world.lemma_same_index(old(world));
                }
            }
        },
        None => {},
    }
}

/// What a press of a button of the weapon makes of the world and of the
/// weapon. A press that the weapon accepts takes the turn: the weapon moves
/// on, and the attack that the press yields is queued for the player, aimed
/// from where the player stands and the way it faces. A press that the
/// weapon rejects changes nothing, and the player is asked again.
pub open spec fn pressed_for<W: Weapon>(
    pre: &World,
    post: &World,
    before: &W,
    after: &W,
    button: WeaponButton,
    next: RunState,
) -> bool {
    if before.accepts(button) {
        &&& next == RunState::Running
        &&& before.press_leads(button, after)
        &&& attack_queued(
            pre,
            post,
            before.queues(button, pre.anchor(pre.player as int), pre.facings@[pre.player as int]->0),
        )
    } else {
        &&& next == RunState::AwaitingInput
        &&& *after == *before
        &&& *post == *pre
    }
}

/// A press of a button of the weapon. The player must face some way to
/// aim.
pub fn weapon_attack<W: Weapon>(world: &mut World, weapon: &mut W, button: WeaponButton) -> (next:
    RunState)
    requires
        old(world).inv(),
        old(world).facings@[old(world).player as int] is Some,
    ensures
        final(world).inv(),
        pressed_for(old(world), final(world), old(weapon), final(weapon), button, next),
{
    if !weapon.can_activate(button) {
        return RunState::AwaitingInput;
    }
    let me = world.player;
    let from = world.positions[me].as_point();
    let facing = world.facings[me].unwrap();
    assert(world.map.holds(world.anchor(me as int), world.cells(me as int)));
    let intent = match button {
        WeaponButton::Light => weapon.light_attack(from, facing),
        WeaponButton::Heavy => weapon.heavy_attack(from, facing),
        WeaponButton::Special => weapon.special_attack(from, facing),
    };
    queue_attack(world, intent);
    RunState::Running
}

/// Where a charge from `at` in `direction` gets in at most `steps` steps:
/// it goes on for as long as the next tile is on the grid and not blocked.
pub open spec fn charge_end(world: &World, at: Point, direction: Direction, steps: int) -> Point
    decreases steps,
{
    if steps <= 0 || !charge_free(world, at, direction) {
        at
    } else {
        charge_end(world, at.shifted(direction_delta(direction)), direction, steps - 1)
    }
}

/// Whether a charge at `at` can go on: the next tile in `direction` is on
/// the grid and not blocked.
pub open spec fn charge_free(world: &World, at: Point, direction: Direction) -> bool {
    let x = at.x + direction_delta(direction).x;
    let y = at.y + direction_delta(direction).y;
    world.map.in_bounds(x, y) && !world.map.blocked_tiles@[tile_of(world.map.width as int, x, y) as int]
}

/// Whether a charge from `at` is stopped within `steps` steps.
pub open spec fn charge_stopped(world: &World, at: Point, direction: Direction, steps: int) -> bool
    decreases steps,
{
    if steps <= 0 {
        false
    } else if !charge_free(world, at, direction) {
        true
    } else {
        charge_stopped(world, at.shifted(direction_delta(direction)), direction, steps - 1)
    }
}

/// Whether a charge from `at` is stopped within `steps` steps by somebody
/// who stands in its way.
pub open spec fn charge_struck(world: &World, at: Point, direction: Direction, steps: int) -> bool
    decreases steps,
{
    if steps <= 0 {
        false
    } else if !charge_free(world, at, direction) {
        at.can_shift(direction_delta(direction)) && world.map.occupant(
            charge_obstacle(at, direction),
        ) is Some
    } else {
        charge_struck(world, at.shifted(direction_delta(direction)), direction, steps - 1)
    }
}

/// The attacks that are queued once `intent`, if there is one and it can
/// be resolved, is queued for the player.
pub open spec fn with_attack(world: &World, intent: Option<AttackIntent>) -> Seq<Option<AttackIntent>> {
    match intent {
        Some(attack) => if crate::range_type::range_in_reach(
            crate::move_type::attack_shape(attack.main),
            attack.loc,
        ) {
            world.attack_intents@.update(world.player as int, Some(attack))
        } else {
            world.attack_intents@
        },
        None => world.attack_intents@,
    }
}

/// The tile against which a charge that has got to `at` is stopped.
pub open spec fn charge_obstacle(at: Point, direction: Direction) -> Point {
    Point { x: (at.x + direction_delta(direction).x) as i32, y: (at.y + direction_delta(direction).y) as i32 }
}

/// What one turn of a charge makes of the world, the weapon and the
/// charge. The player runs in the direction of the charge, as many tiles as
/// the speed of the charge says, and a step to where it gets is queued. A
/// charge that meets no obstacle gathers speed, up to `MAX_CHARGE_SPEED`. A
/// charge that meets one is over; where the obstacle is somebody, the light
/// button of the weapon is pressed as well, from the tile at which the
/// charge has stopped and in its direction.
pub open spec fn charged<W: Weapon>(
    pre: &World,
    post: &World,
    before: &W,
    after: &W,
    was: Charge,
    is: Charge,
) -> bool {
    let start = pre.anchor(pre.player as int);
    let struck = charge_struck(pre, start, was.direction, was.speed as int);
    &&& is.direction == was.direction
    &&& is.active == (was.active && !charge_stopped(pre, start, was.direction, was.speed as int))
    &&& is.speed == (if struck || was.speed >= MAX_CHARGE_SPEED {
        was.speed
    } else {
        (was.speed + 1) as i32
    })
    &&& post.move_intents@ == pre.move_intents@.update(
        pre.player as int,
        Some(MoveIntent { loc: charge_end(pre, start, was.direction, was.speed as int) }),
    )
    &&& if struck && before.accepts(WeaponButton::Light) {
        &&& before.press_leads(WeaponButton::Light, after)
        &&& post.attack_intents@ == with_attack(
            pre,
            before.queues(
                WeaponButton::Light,
                charge_end(pre, start, was.direction, was.speed as int),
                was.direction,
            ),
        )
    } else {
        &&& *after == *before
        &&& post.attack_intents@ == pre.attack_intents@
    }
    &&& post.map == pre.map
    &&& post.player == pre.player
    &&& post.dead == pre.dead
    &&& post.alive == pre.alive
    &&& post.positions == pre.positions
    &&& post.healths == pre.healths
    &&& post.multis == pre.multis
    &&& post.movesets == pre.movesets
    &&& post.ai_states == pre.ai_states
    &&& post.viewsheds == pre.viewsheds
    &&& post.can_act == pre.can_act
    &&& post.attacks_in_progress == pre.attacks_in_progress
    &&& post.facings == pre.facings
    &&& post.part_moves == pre.part_moves
    &&& post.openables == pre.openables
    &&& post.npcs == pre.npcs
    &&& post.particles == pre.particles
}

/// One turn of a charge of the player.
pub fn handle_charging<W: Weapon>(world: &mut World, weapon: &mut W, charge: &mut Charge) -> (next:
    RunState)
    requires
        old(world).inv(),
    ensures
        final(world).inv(),
        next == RunState::Running,
        charged(old(world), final(world), old(weapon), final(weapon), *old(charge), *final(charge)),
{
    let me = world.player;
    let direction = charge.direction;
    let start = world.positions[me].as_point();
    let mut at = start;
    let mut stopped = false;
    let mut struck_somebody = false;
    let mut left: i32 = charge.speed;
    assert(world.map.holds(world.anchor(me as int), world.cells(me as int)));
    while left > 0 && !stopped
        invariant
            world.inv(),
            *world == *old(world),
            me == world.player,
            direction == old(charge).direction,
            start == old(world).anchor(me as int),
            world.map.in_bounds(at.x as int, at.y as int),
            left <= old(charge).speed,
            !stopped ==> charge_struck(old(world), start, direction, old(charge).speed as int)
                == charge_struck(old(world), at, direction, left as int),
            stopped ==> struck_somebody == charge_struck(
                old(world),
                start,
                direction,
                old(charge).speed as int,
            ),
            !stopped ==> charge_end(old(world), start, direction, old(charge).speed as int)
                == charge_end(old(world), at, direction, left as int),
            !stopped ==> charge_stopped(old(world), start, direction, old(charge).speed as int)
                == charge_stopped(old(world), at, direction, left as int),
            stopped ==> charge_end(old(world), start, direction, old(charge).speed as int) == at
                && charge_stopped(old(world), start, direction, old(charge).speed as int),
            struck_somebody ==> stopped,
        decreases left + (if stopped { 0int } else { 1int }),
    {
        let delta = direction.delta();
        let next_x: i64 = at.x as i64 + delta.x as i64;
        let next_y: i64 = at.y as i64 + delta.y as i64;
        let on_grid = 0 <= next_x && next_x < world.map.width as i64 && 0 <= next_y && next_y
            < world.map.height as i64;
        let mut free = false;
        if on_grid {
            let dest_index = world.map.get_index(next_x as i32, next_y as i32);
            free = !world.map.blocked_tiles[dest_index];
        }
        assert(free == charge_free(old(world), at, direction));
        if free {
            at = Point { x: next_x as i32, y: next_y as i32 };
            left = left - 1;
        } else {
            stopped = true;
            if on_grid {
                struck_somebody = world.map.creature_at(
                    Point { x: next_x as i32, y: next_y as i32 },
                ).is_some();
            }
        }
    }
    world.move_intents.set(me, Some(MoveIntent { loc: at }));
    proof {
        world.lemma_same_index(old(world));
    }
    if stopped {
        charge.active = false;
        if struck_somebody {
            let attack = weapon.light_attack(at, direction);
            queue_attack(world, attack);
            assert(world.attack_intents@ == with_attack(old(world), attack));
            return RunState::Running;
        }
    }
    if charge.speed < MAX_CHARGE_SPEED {
        charge.speed = charge.speed + 1;
    }
    RunState::Running
}

/// What a step of the player by `(dx, dy)` makes of the world and of the
/// weapon: nothing while the player may only react; else the step is taken,
/// and a step that takes the turn ends the combo of the weapon.
pub open spec fn stepped<W: Weapon>(
    pre: &World,
    post: &World,
    before: &W,
    after: &W,
    dx: int,
    dy: int,
    is_reaction: bool,
    next: RunState,
) -> bool {
    if is_reaction {
        next == RunState::AwaitingInput && *post == *pre && *after == *before
    } else {
        &&& bumps(pre, post, dx, dy, next)
        &&& if next != RunState::AwaitingInput {
            before.reset_leads(after)
        } else {
            *after == *before
        }
    }
}

/// What a command of the player makes of the world and of the weapon,
/// outside a charge, and what the simulation does next.
pub open spec fn keyed<W: Weapon>(
    pre: &World,
    post: &World,
    before: &W,
    after: &W,
    command: Option<Command>,
    is_reaction: bool,
    next: RunState,
) -> bool {
    match command {
        Some(Command::Wait) => next == RunState::Running && *post == *pre && before.reset_leads(
            after,
        ),
        Some(Command::Die) => next == RunState::Dead && *post == *pre && *after == *before,
        Some(Command::View) => next == (RunState::ViewEnemy { index: 0 }) && *post == *pre
            && *after == *before,
        Some(Command::Sheathe) => *post == *pre && (if before.sheathed() {
            next == RunState::AwaitingInput && *after == *before
        } else {
            next == RunState::Running && before.sheathe_leads(after)
        }),
        Some(c) => if step_of(c) is Some {
            stepped(
                pre,
                post,
                before,
                after,
                step_of(c)->0.x as int,
                step_of(c)->0.y as int,
                is_reaction,
                next,
            )
        } else if button_of(c) is Some {
            pressed_for(pre, post, before, after, button_of(c)->0, next)
        } else {
            next == RunState::AwaitingInput && *post == *pre && *after == *before
        },
        None => next == RunState::AwaitingInput && *post == *pre && *after == *before,
    }
}

/// Whether the player can follow the command: to press a button of the
/// weapon it must face some way.
pub open spec fn can_press(world: &World, command: Option<Command>) -> bool {
    command matches Some(c) ==> (button_of(c) is Some ==> world.facings@[world.player as int]
        is Some)
}

/// What a command of the player leads to, outside a charge.
pub fn handle_keys<W: Weapon>(
    world: &mut World,
    weapon: &mut W,
    command: Option<Command>,
    is_reaction: bool,
) -> (next: RunState)
    requires
        old(world).inv(),
        can_press(old(world), command),
    ensures
        final(world).inv(),
        keyed(old(world), final(world), old(weapon), final(weapon), command, is_reaction, next),
{
    match command {
        None => RunState::AwaitingInput,
        Some(command) => match command {
            Command::Left => step_player(world, weapon, -1, 0, is_reaction),
            Command::Right => step_player(world, weapon, 1, 0, is_reaction),
            Command::Up => step_player(world, weapon, 0, -1, is_reaction),
            Command::Down => step_player(world, weapon, 0, 1, is_reaction),
            Command::Wait => {
                weapon.reset();
                RunState::Running
            },
            Command::Die => RunState::Dead,
            Command::View => RunState::ViewEnemy { index: 0 },
            Command::Light => weapon_attack(world, weapon, WeaponButton::Light),
            Command::Heavy => weapon_attack(world, weapon, WeaponButton::Heavy),
            Command::Special => weapon_attack(world, weapon, WeaponButton::Special),
            Command::Sheathe => {
                if weapon.sheathe() {
                    RunState::Running
                } else {
                    RunState::AwaitingInput
                }
            },
            _ => RunState::AwaitingInput,
        },
    }
}

/// The step that a command stands for, if it stands for one.
pub open spec fn step_of(command: Command) -> Option<Point> {
    match command {
        Command::Left => Some(Point { x: -1i32, y: 0 }),
        Command::Right => Some(Point { x: 1, y: 0 }),
        Command::Up => Some(Point { x: 0, y: -1i32 }),
        Command::Down => Some(Point { x: 0, y: 1 }),
        _ => None,
    }
}

/// The button of the weapon that a command stands for, if it stands for
/// one.
pub open spec fn button_of(command: Command) -> Option<WeaponButton> {
    match command {
        Command::Light => Some(WeaponButton::Light),
        Command::Heavy => Some(WeaponButton::Heavy),
        Command::Special => Some(WeaponButton::Special),
        _ => None,
    }
}

fn step_player<W: Weapon>(world: &mut World, weapon: &mut W, dx: i32, dy: i32, is_reaction: bool) -> (next:
    RunState)
    requires
        old(world).inv(),
    ensures
        final(world).inv(),
        stepped(
            old(world),
            final(world),
            old(weapon),
            final(weapon),
            dx as int,
            dy as int,
            is_reaction,
            next,
        ),
{
    if is_reaction {
        return RunState::AwaitingInput;
    }
    let next_state = try_move_player(world, dx, dy);
    if next_state != RunState::AwaitingInput {
        weapon.reset();
    }
    next_state
}

/// What the player does with its turn: it goes on with a charge that is
/// under way, and else follows the command.
pub fn player_input<W: Weapon>(
    world: &mut World,
    weapon: &mut W,
    charge: &mut Charge,
    command: Option<Command>,
) -> (next: RunState)
    requires
        old(world).inv(),
        old(world).can_act@[old(world).player as int] is Some,
        !old(charge).active ==> can_press(old(world), command),
    ensures
        final(world).inv(),
        if old(charge).active {
            &&& next == RunState::Running
            &&& charged(
                old(world),
                final(world),
                old(weapon),
                final(weapon),
                *old(charge),
                *final(charge),
            )
        } else {
            &&& *final(charge) == *old(charge)
            &&& keyed(
                old(world),
                final(world),
                old(weapon),
                final(weapon),
                command,
                old(world).can_act@[old(world).player as int]->0.is_reaction,
                next,
            )
        },
{
    let is_reaction = match world.can_act[world.player] {
        Some(flag) => flag.is_reaction,
        None => false,
    };
    if charge.active {
        handle_charging(world, weapon, charge)
    } else {
        handle_keys(world, weapon, command, is_reaction)
    }
}

/// Ends the turn of the player: whoever holds leave to act gives it back,
/// and nobody may act until leave is handed out again. Nothing else
/// changes.
pub fn end_turn_cleanup(world: &mut World)
    requires
        old(world).inv(),
    ensures
        final(world).inv(),
        final(world).can_act@.len() == old(world).can_act@.len(),
        forall|a: int| 0 <= a < final(world).can_act@.len() ==> final(world).can_act@[a] is None,
        final(world).map == old(world).map,
        final(world).player == old(world).player,
        final(world).dead == old(world).dead,
        final(world).alive == old(world).alive,
        final(world).positions == old(world).positions,
        final(world).healths == old(world).healths,
        final(world).multis == old(world).multis,
        final(world).movesets == old(world).movesets,
        final(world).ai_states == old(world).ai_states,
        final(world).viewsheds == old(world).viewsheds,
        final(world).move_intents == old(world).move_intents,
        final(world).attack_intents == old(world).attack_intents,
        final(world).attacks_in_progress == old(world).attacks_in_progress,
        final(world).facings == old(world).facings,
        final(world).part_moves == old(world).part_moves,
        final(world).openables == old(world).openables,
        final(world).npcs == old(world).npcs,
        final(world).particles == old(world).particles,
{
    let mut a: usize = 0;
    while a < world.can_act.len()
        invariant
            old(world).inv(),
            a <= world.can_act@.len(),
            world.can_act@.len() == old(world).can_act@.len(),
            forall|b: int| 0 <= b < a ==> world.can_act@[b] is None,
            world.map == old(world).map,
            world.player == old(world).player,
            world.dead == old(world).dead,
            world.alive == old(world).alive,
            world.positions == old(world).positions,
            world.healths == old(world).healths,
            world.multis == old(world).multis,
            world.movesets == old(world).movesets,
            world.ai_states == old(world).ai_states,
            world.viewsheds == old(world).viewsheds,
            world.move_intents == old(world).move_intents,
            world.attack_intents == old(world).attack_intents,
            world.attacks_in_progress == old(world).attacks_in_progress,
            world.facings == old(world).facings,
            world.part_moves == old(world).part_moves,
            world.openables == old(world).openables,
            world.npcs == old(world).npcs,
            world.particles == old(world).particles,
        decreases world.can_act@.len() - a,
    {
        world.can_act.set(a, None);
        a = a + 1;
    }
    proof {
        world.lemma_same_index(old(world));
    }
}

/// Whether the cursor points at a tile that can be chosen: one that the
/// player sees and that the action reaches.
pub open spec fn valid_target(
    cursor: Point,
    viewshed: Seq<Point>,
    tiles_in_range: Seq<Point>,
    ignore_targetting: bool,
) -> bool {
    !ignore_targetting && viewshed.contains(cursor) && tiles_in_range.contains(cursor)
}

/// The cursor after a command, while a target is chosen.
pub open spec fn moved_cursor(state: Targeting, command: Option<Command>) -> Point {
    match command {
        Some(Command::Left) => Point { x: (state.cursor.x - 1) as i32, y: state.cursor.y },
        Some(Command::Right) => Point { x: (state.cursor.x + 1) as i32, y: state.cursor.y },
        Some(Command::Up) => Point { x: state.cursor.x, y: (state.cursor.y - 1) as i32 },
        Some(Command::Down) => Point { x: state.cursor.x, y: (state.cursor.y + 1) as i32 },
        Some(Command::NextTarget) => if state.tab_targets@.len() > 0 {
            state.tab_targets@[(state.tab_index + 1) % (state.tab_targets@.len() as int)]
        } else {
            state.cursor
        },
        _ => state.cursor,
    }
}

/// What a command makes of the choice of a target.
pub open spec fn selection(valid: bool, cursor: Point, ignore_targetting: bool, command: Option<
    Command,
>) -> (SelectionResult, Option<Point>) {
    match command {
        Some(Command::Cancel) => (SelectionResult::Canceled, None),
        Some(Command::View) => (SelectionResult::Canceled, None),
        Some(Command::Confirm) => if valid {
            (SelectionResult::Selected, Some(cursor))
        } else if ignore_targetting {
            (SelectionResult::Selected, None)
        } else {
            (SelectionResult::Canceled, None)
        },
        _ => (SelectionResult::NoResponse, None),
    }
}

/// Whether the cursor can follow the command without leaving the
/// coordinates that fit, and the count of jumps the type that holds it.
pub open spec fn cursor_can_follow(state: Targeting, command: Option<Command>) -> bool {
    match command {
        Some(Command::Left) => state.cursor.x > i32::MIN,
        Some(Command::Right) => state.cursor.x < i32::MAX,
        Some(Command::Up) => state.cursor.y > i32::MIN,
        Some(Command::Down) => state.cursor.y < i32::MAX,
        Some(Command::NextTarget) => state.tab_index < usize::MAX,
        _ => true,
    }
}

/// One command while the player chooses a target for an action that
/// reaches `tiles_in_range`: the choice is confirmed or given up, or the
/// cursor moves, by a step or to the next of the targets to jump to.
pub fn ranged_target(
    state: &mut Targeting,
    viewshed: &Viewshed,
    tiles_in_range: &Vec<Point>,
    ignore_targetting: bool,
    command: Option<Command>,
) -> (choice: (SelectionResult, Option<Point>))
    requires
        cursor_can_follow(*old(state), command),
    ensures
        choice == selection(
            valid_target(old(state).cursor, viewshed.visible@, tiles_in_range@, ignore_targetting),
            old(state).cursor,
            ignore_targetting,
            command,
        ),
        final(state).cursor == moved_cursor(*old(state), command),
        final(state).tab_targets == old(state).tab_targets,
        final(state).tab_index == (if command == Some(Command::NextTarget) && old(
            state,
        ).tab_targets@.len() > 0 {
            (old(state).tab_index + 1) as usize
        } else {
            old(state).tab_index
        }),
{
    let valid = !ignore_targetting && contains_point(&viewshed.visible, state.cursor)
        && contains_point(tiles_in_range, state.cursor);
    match command {
        None => {},
        Some(command) => match command {
            Command::Cancel => {
                return (SelectionResult::Canceled, None);
            },
            Command::Confirm => {
                if valid {
                    return (SelectionResult::Selected, Some(state.cursor));
                } else if ignore_targetting {
                    return (SelectionResult::Selected, None);
                } else {
                    return (SelectionResult::Canceled, None);
                }
            },
            Command::NextTarget => {
                let length = state.tab_targets.len();
                if length > 0 {
                    state.tab_index = state.tab_index + 1;
                    state.cursor = state.tab_targets[state.tab_index % length];
                }
            },
            Command::Left => {
                state.cursor.x = state.cursor.x - 1;
            },
            Command::Right => {
                state.cursor.x = state.cursor.x + 1;
            },
            Command::Up => {
                state.cursor.y = state.cursor.y - 1;
            },
            Command::Down => {
                state.cursor.y = state.cursor.y + 1;
            },
            Command::View => {
                return (SelectionResult::Canceled, None);
            },
            _ => {},
        },
    }
    (SelectionResult::NoResponse, None)
}

/// The entry that is viewed after a command, of a list whose last entry has
/// the number `max_index`: up and down go round the list.
pub open spec fn viewed(index: u32, max_index: u32, command: Option<Command>) -> RunState {
    match command {
        Some(Command::Cancel) => RunState::AwaitingInput,
        Some(Command::Up) => RunState::ViewEnemy {
            index: ((if index > 0 {
                index - 1
            } else {
                index + max_index
            }) % (max_index + 1)) as u32,
        },
        Some(Command::Down) => RunState::ViewEnemy {
            index: ((index + 1) % (max_index + 1)) as u32,
        },
        _ => RunState::ViewEnemy { index: (index as int % (max_index + 1)) as u32 },
    }
}

/// One command while the player looks through the list of what it sees.
pub fn view_input(index: u32, max_index: u32, command: Option<Command>) -> (next: RunState)
    requires
        index as int + max_index as int + 1 <= u32::MAX,
    ensures
        next == viewed(index, max_index, command),
{
    let mut new_index: u32 = index;
    match command {
        Some(Command::Cancel) => {
            return RunState::AwaitingInput;
        },
        Some(Command::Up) => {
            if new_index > 0 {
                new_index = new_index - 1;
            } else {
                new_index = new_index + max_index;
            }
        },
        Some(Command::Down) => {
            new_index = new_index + 1;
        },
        _ => {},
    }
    RunState::ViewEnemy { index: new_index % (max_index + 1) }
}

/// What the player does with the quest that it has taken.
#[derive(Clone, Copy, Debug, PartialEq, Eq, Structural)]
pub enum QuestPick {
    /// It keeps what it has.
    Keep,
    /// It gives it up.
    Drop,
    /// It takes the offer with this number in its place.
    Take { index: usize },
}

/// What a command makes of the choice among `offers` quests, of which the
/// one with the number `index` is marked: the mark goes round the offers, or
/// the marked offer is taken, or the quest at hand is given up, or the
/// player turns away.
pub open spec fn chosen_mission(index: usize, offers: usize, command: Option<Command>) -> (
    RunState,
    QuestPick,
) {
    match command {
        Some(Command::Cancel) => (RunState::Running, QuestPick::Keep),
        Some(Command::Confirm) => (RunState::Running, QuestPick::Take { index }),
        Some(Command::Up) => (
            RunState::MissionSelect {
                index: ((if index > 0 {
                    index - 1
                } else {
                    index + offers
                }) % (offers as int)) as usize,
            },
            QuestPick::Keep,
        ),
        Some(Command::Down) => (
            RunState::MissionSelect { index: ((index + 1) % (offers as int)) as usize },
            QuestPick::Keep,
        ),
        Some(Command::Abandon) => (
            RunState::MissionSelect { index: (index as int % (offers as int)) as usize },
            QuestPick::Drop,
        ),
        _ => (
            RunState::MissionSelect { index: (index as int % (offers as int)) as usize },
            QuestPick::Keep,
        ),
    }
}

/// One command while the player looks through the quests on offer.
pub fn mission_select_input(quests: &QuestLog, index: usize, command: Option<Command>) -> (choice:
    (RunState, QuestPick))
    requires
        index < quests.entries@.len(),
    ensures
        choice == chosen_mission(index, quests.entries@.len() as usize, command),
{
    let mut new_index: usize = index;
    let max_index: usize = quests.entries.len();
    let mut pick = QuestPick::Keep;
    match command {
        Some(Command::Up) => {
            if new_index > 0 {
                new_index = new_index - 1;
            } else {
                new_index = new_index + max_index;
            }
        },
        Some(Command::Down) => {
            new_index = new_index + 1;
        },
        Some(Command::Cancel) => {
            return (RunState::Running, QuestPick::Keep);
        },
        Some(Command::Confirm) => {
            return (RunState::Running, QuestPick::Take { index });
        },
        Some(Command::Abandon) => {
            pick = QuestPick::Drop;
        },
        _ => {},
    }
    (RunState::MissionSelect { index: new_index % max_index }, pick)
}

} // verus!
