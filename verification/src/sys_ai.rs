use vstd::prelude::*;
use crate::components::{
    footprint_of, AiState, AttackIntent, MoveIntent, Moveset, MultiTile, Position, Viewshed,
    WEIGHT_SCALE,
};
use crate::geometry::Point;
use crate::map::{tile_of, TileMap};
use crate::move_type::{
    attack_delay, attack_in_reach, attack_shape, attack_tile, get_attack_intent, is_attack_valid,
    lemma_attack_in_reach, lemma_attack_tile_in_range, AttackType,
};
use crate::random::random_below;
use crate::range_type::{contains_point, range_in_reach};
use crate::world::World;

verus! {

/// What an actor is up to between its turns.
#[derive(Clone, Copy, Debug, PartialEq, Eq)]
pub enum Behavior {
    Sleep,
    Wander,
    /// After the target, last seen at `target_point`.
    Chase { target_point: Point },
    /// About to carry out `attack`, aimed at `attack_loc`.
    Attack { attack: AttackType, attack_loc: Point },
    Flee,
}

/// What an actor queues at the end of its turn: nothing, one attack or one
/// step, never two of them.
#[derive(Clone, Copy, Debug, PartialEq, Eq)]
pub enum NextIntent {
    Idle,
    Attack { intent: AttackIntent },
    Move { intent: MoveIntent },
}

/// How far a turn got without a path: either it is decided, or the actor
/// wants to walk towards the tile `goal` and the decision waits for a path.
#[derive(Clone, Copy, Debug, PartialEq, Eq)]
pub enum AiStep {
    Done { intent: NextIntent },
    Seek { goal: usize },
}

/// A path as the pathfinder reports it: whether it found one, and the tiles
/// from the start to the goal, both included.
#[derive(Clone, Debug)]
pub struct NavigationPath {
    pub destination: usize,
    pub success: bool,
    pub steps: Vec<usize>,
}

pub struct AiSystem;

/// The weights of the first `n` moves, added up.
pub open spec fn weight_sum(moves: Seq<(AttackType, u32)>, n: int) -> int
    decreases n,
{
    if n <= 0 {
        0
    } else {
        weight_sum(moves, n - 1) + moves[n - 1].1
    }
}

/// Whether the draw `roll` lets move `k` be tried, and the move reaches the
/// target: the draw must lie below the weights added up to and including
/// that of move `k`.
pub open spec fn is_candidate(
    moves: Seq<(AttackType, u32)>,
    roll: int,
    from: Point,
    target: Point,
    k: int,
) -> bool {
    roll < weight_sum(moves, k + 1) && attack_tile(moves[k].0, from, target) is Some
}

/// Move `k` is the first of the moveset that the draw lets be tried and
/// that reaches the target.
pub open spec fn first_candidate(
    moves: Seq<(AttackType, u32)>,
    roll: int,
    from: Point,
    target: Point,
    k: int,
) -> bool {
    &&& 0 <= k < moves.len()
    &&& is_candidate(moves, roll, from, target, k)
    &&& forall|j: int| 0 <= j < k ==> !#[trigger] is_candidate(moves, roll, from, target, j)
}

/// The action that the draw `roll` selects against `target`, with the tile
/// to aim at: the first move in the list that the draw lets be tried and that
/// reaches the target. A move that the draw selects but that does not reach
/// falls through to the moves after it; the draw is not repeated.
#[verifier::opaque]
pub open spec fn chosen_attack(
    moves: Seq<(AttackType, u32)>,
    roll: int,
    from: Point,
    target: Point,
) -> Option<(AttackType, Point)> {
    if exists|k: int| first_candidate(moves, roll, from, target, k) {
        let first = choose|k: int| first_candidate(moves, roll, from, target, k);
        Some((moves[first].0, attack_tile(moves[first].0, from, target)->0))
    } else {
        None
    }
}

/// The action that is chosen is that of the first candidate.
pub proof fn lemma_chosen_attack_first(
    moves: Seq<(AttackType, u32)>,
    roll: int,
    from: Point,
    target: Point,
    k: int,
)
    requires
        first_candidate(moves, roll, from, target, k),
    ensures
        chosen_attack(moves, roll, from, target) == Some(
            (moves[k].0, attack_tile(moves[k].0, from, target)->0),
        ),
{
    reveal(chosen_attack);
    let first = choose|k: int| first_candidate(moves, roll, from, target, k);
    if first < k {
        assert(!is_candidate(moves, roll, from, target, first));
    }
    if k < first {
        assert(!is_candidate(moves, roll, from, target, k));
    }
}

/// The tile that a chosen action is aimed at lies in the range of the
/// action, so that the action can be resolved there.
pub proof fn lemma_chosen_attack_in_reach(
    moves: Seq<(AttackType, u32)>,
    roll: int,
    from: Point,
    target: Point,
)
    requires
        forall|k: int| 0 <= k < moves.len() ==> attack_in_reach((#[trigger] moves[k]).0, from),
    ensures
        chosen_attack(moves, roll, from, target) matches Some((attack, loc)) ==> range_in_reach(
            attack_shape(attack),
            loc,
        ),
{
    reveal(chosen_attack);
    if exists|k: int| first_candidate(moves, roll, from, target, k) {
        let first = choose|k: int| first_candidate(moves, roll, from, target, k);
        assert(attack_in_reach(moves[first].0, from));
        lemma_attack_tile_in_range(moves[first].0, from, target);
    }
}

/// An actor all of whose actions reach the target attacks whatever is
/// drawn, as long as the draw lies below the weights of its moveset added
/// up: no band of the draw leaves it without an action.
pub proof fn lemma_reaching_moves_engage(
    moves: Seq<(AttackType, u32)>,
    roll: int,
    from: Point,
    target: Point,
)
    requires
        0 <= roll < weight_sum(moves, moves.len() as int),
        forall|k: int|
            0 <= k < moves.len() ==> attack_tile((#[trigger] moves[k]).0, from, target) is Some,
    ensures
        chosen_attack(moves, roll, from, target) is Some,
{
    lemma_first_band(moves, roll, moves.len() as int);
    let k = choose|k: int| 0 <= k < moves.len() && #[trigger] in_band(moves, roll, k);
    assert(is_candidate(moves, roll, from, target, k));
    assert forall|j: int| 0 <= j < k implies !#[trigger] is_candidate(
        moves,
        roll,
        from,
        target,
        j,
    ) by {
        lemma_weights_grow(moves, j + 1, k);
    }
    lemma_chosen_attack_first(moves, roll, from, target, k);
}

/// A draw below the weights of the first `n` moves added up lies in the
/// band of one of them.
proof fn lemma_first_band(moves: Seq<(AttackType, u32)>, roll: int, n: int)
    requires
        0 <= n <= moves.len(),
        0 <= roll < weight_sum(moves, n),
    ensures
        exists|k: int| 0 <= k < n && #[trigger] in_band(moves, roll, k),
    decreases n,
{
    if roll < weight_sum(moves, n - 1) {
        lemma_first_band(moves, roll, n - 1);
    } else {
        assert(in_band(moves, roll, n - 1));
    }
}

/// Whether the draw lies in the band of move `k`: at or above the weights
/// before it added up, and below them with its own.
pub open spec fn in_band(moves: Seq<(AttackType, u32)>, roll: int, k: int) -> bool {
    weight_sum(moves, k) <= roll < weight_sum(moves, k + 1)
}

/// Adding up more weights gives no less.
proof fn lemma_weights_grow(moves: Seq<(AttackType, u32)>, fewer: int, more: int)
    requires
        0 <= fewer <= more,
    ensures
        weight_sum(moves, fewer) <= weight_sum(moves, more),
    decreases more - fewer,
{
    if fewer < more {
        lemma_weights_grow(moves, fewer, more - 1);
    }
}

/// Without a candidate no action is chosen.
pub proof fn lemma_chosen_attack_none(
    moves: Seq<(AttackType, u32)>,
    roll: int,
    from: Point,
    target: Point,
)
    requires
        forall|j: int| 0 <= j < moves.len() ==> !#[trigger] is_candidate(moves, roll, from, target, j),
    ensures
        chosen_attack(moves, roll, from, target) is None,
{
    reveal(chosen_attack);
}

/// The intent that the catalog makes of an action aimed at `loc`.
pub open spec fn intent_of(attack: AttackType, loc: Point) -> AttackIntent {
    AttackIntent { main: attack, modifier: None, loc, delay: attack_delay(attack) as i32 }
}

/// The state after a turn that started in `status`, and how far the turn
/// got. `sees` tells whether the actor sees the target, which stands at
/// `player`; `wander` is the exit drawn for a wandering actor, if it has one;
/// `roll` is the draw for the choice of an action; `width` is that of the
/// grid.
pub open spec fn decided(
    status: Behavior,
    sees: bool,
    pos: Point,
    player: Point,
    moves: Seq<(AttackType, u32)>,
    wander: Option<Point>,
    roll: int,
    width: int,
) -> (Behavior, AiStep) {
    match status {
        Behavior::Sleep => (Behavior::Sleep, AiStep::Done { intent: NextIntent::Idle }),
        Behavior::Flee => (Behavior::Flee, AiStep::Done { intent: NextIntent::Idle }),
        Behavior::Attack { attack, attack_loc } => (
            if sees {
                Behavior::Chase { target_point: player }
            } else {
                Behavior::Wander
            },
            AiStep::Done { intent: NextIntent::Attack { intent: intent_of(attack, attack_loc) } },
        ),
        Behavior::Wander => if sees {
            engaged(pos, player, moves, roll, width)
        } else {
            (
                Behavior::Wander,
                AiStep::Done {
                    intent: match wander {
                        Some(loc) => NextIntent::Move { intent: MoveIntent { loc } },
                        None => NextIntent::Idle,
                    },
                },
            )
        },
        Behavior::Chase { target_point } => if sees {
            engaged(pos, player, moves, roll, width)
        } else {
            (
                Behavior::Chase { target_point },
                AiStep::Seek { goal: tile_of(width, target_point.x as int, target_point.y as int) },
            )
        },
    }
}

/// The turn of an actor that sees its target: it remembers where the target
/// stands and attacks with the action that the draw selects, or, where none
/// reaches, wants to walk towards the target.
pub open spec fn engaged(
    pos: Point,
    player: Point,
    moves: Seq<(AttackType, u32)>,
    roll: int,
    width: int,
) -> (Behavior, AiStep) {
    (
        Behavior::Chase { target_point: player },
        match chosen_attack(moves, roll, pos, player) {
            Some((attack, loc)) => AiStep::Done {
                intent: NextIntent::Attack { intent: intent_of(attack, loc) },
            },
            None => AiStep::Seek { goal: tile_of(width, player.x as int, player.y as int) },
        },
    )
}

/// The exit that the draw `pick` selects among `exits`, as a point of a grid
/// that is `width` wide.
pub open spec fn wander_target(exits: Seq<(usize, u32)>, pick: int, width: int) -> Option<Point> {
    if exits.len() > 0 {
        Some(Point { x: (exits[pick].0 as int % width) as i32, y: (exits[pick].0 as int / width) as i32 })
    } else {
        None
    }
}

/// The exits that the actor `ent`, which stands at `pos` with a footprint of
/// `cells`, has on `map`.
pub open spec fn exits_at(map: &TileMap, ent: usize, pos: Point, cells: Seq<Point>) -> Seq<
    (usize, u32),
> {
    map.exits_from(tile_of(map.width as int, pos.x as int, pos.y as int), Some(ent), cells)
}

/// The turn of the actor `ent` on `map` where `pick` is drawn for its exit
/// and `roll` for its choice of an action.
pub open spec fn drawn_turn(
    map: &TileMap,
    ent: usize,
    pos: Point,
    cells: Seq<Point>,
    status: Behavior,
    sees: bool,
    player: Point,
    moves: Seq<(AttackType, u32)>,
    pick: int,
    roll: int,
) -> (Behavior, AiStep) {
    decided(
        status,
        sees,
        pos,
        player,
        moves,
        wander_target(exits_at(map, ent, pos, cells), pick, map.width as int),
        roll,
        map.width as int,
    )
}

/// What a path makes of a turn that waited for one: a step to the second
/// tile of a path that was found and is longer than one tile; else the actor
/// gives up and wanders. A path whose second tile is none of the `tiles`
/// tiles of the map counts as none.
pub open spec fn followed(
    status: Behavior,
    success: bool,
    steps: Seq<usize>,
    width: int,
    tiles: int,
) -> (Behavior, NextIntent) {
    if success && steps.len() > 1 && steps[1] < tiles {
        (
            status,
            NextIntent::Move {
                intent: MoveIntent {
                    loc: Point { x: (steps[1] as int % width) as i32, y: (steps[1] as int / width) as i32 },
                },
            },
        )
    } else {
        (Behavior::Wander, NextIntent::Idle)
    }
}

/// Whether a turn in `status` can be resolved on `map`: the tile that a
/// chase remembers lies on the grid, and the tiles that a prepared attack
/// affects have coordinates that fit.
pub open spec fn status_on_grid(status: Behavior, map: &TileMap) -> bool {
    &&& status matches Behavior::Chase { target_point } ==> map.in_bounds(
        target_point.x as int,
        target_point.y as int,
    )
    &&& status matches Behavior::Attack { attack, attack_loc } ==> range_in_reach(
        attack_shape(attack),
        attack_loc,
    )
}

/// Whether the attack that a step queues, if it queues one, can be
/// resolved.
pub open spec fn step_in_reach(step: AiStep) -> bool {
    step matches AiStep::Done { intent: NextIntent::Attack { intent } } ==> range_in_reach(
        attack_shape(intent.main),
        intent.loc,
    )
}

/// Whether the tile of the target is one of those that the actor sees.
pub fn can_see_target(viewshed: &Viewshed, target: Point) -> (sees: bool)
    ensures
        sees == viewshed.visible@.contains(target),
{
    contains_point(&viewshed.visible, target)
}

/// The action that the draw `roll` selects from the moveset against
/// `target`, with the tile to aim at.
pub fn select_attack(moveset: &Moveset, roll: u32, from: Point, target: Point) -> (choice: Option<
    (AttackType, Point),
>)
    requires
        forall|k: int|
            0 <= k < moveset.moves@.len() ==> attack_in_reach((#[trigger] moveset.moves@[k]).0, from),
    ensures
        choice == chosen_attack(moveset.moves@, roll as int, from, target),
{
    let ghost moves = moveset.moves@;
    let mut cumul_prob: u64 = 0;
    let mut k: usize = 0;
    while k < moveset.moves.len()
        invariant
            moves == moveset.moves@,
            k <= moves.len(),
            forall|k: int| 0 <= k < moves.len() ==> attack_in_reach((#[trigger] moves[k]).0, from),
            forall|j: int|
                0 <= j < k ==> !#[trigger] is_candidate(moves, roll as int, from, target, j),
            cumul_prob <= roll ==> cumul_prob == weight_sum(moves, k as int),
            cumul_prob > roll ==> weight_sum(moves, k as int) > roll,
            cumul_prob <= roll + u32::MAX,
        decreases moves.len() - k,
    {
        let potential_attack: AttackType = moveset.moves[k].0;
        let chance: u32 = moveset.moves[k].1;
        assert(weight_sum(moves, k + 1) == weight_sum(moves, k as int) + moves[k as int].1);
        if cumul_prob <= roll as u64 {
            cumul_prob = cumul_prob + chance as u64;
        }
        if cumul_prob > roll as u64 {
            match is_attack_valid(&potential_attack, from, target) {
                Some(attack_loc) => {
                    proof {
                        lemma_chosen_attack_first(moves, roll as int, from, target, k as int);
                    }
                    return Some((potential_attack, attack_loc));
                },
                None => {},
            }
        }
        k = k + 1;
    }
    proof {
        lemma_chosen_attack_none(moves, roll as int, from, target);
    }
    None
}

impl AiSystem {
    /// One turn of an actor, given what was drawn for it.
    pub fn decide(
        status: Behavior,
        sees: bool,
        pos: Point,
        player_point: Point,
        moveset: &Moveset,
        wander: Option<Point>,
        roll: u32,
        map: &TileMap,
    ) -> (turn: (Behavior, AiStep))
        requires
            map.wf(),
            map.in_bounds(player_point.x as int, player_point.y as int),
            status_on_grid(status, map),
            forall|k: int|
                0 <= k < moveset.moves@.len() ==> attack_in_reach(
                    (#[trigger] moveset.moves@[k]).0,
                    pos,
                ),
        ensures
            turn == decided(
                status,
                sees,
                pos,
                player_point,
                moveset.moves@,
                wander,
                roll as int,
                map.width as int,
            ),
            status_on_grid(turn.0, map),
            step_in_reach(turn.1),
            turn.1 matches AiStep::Seek { goal } ==> goal < map.tiles@.len(),
    {
        match status {
            Behavior::Sleep => (Behavior::Sleep, AiStep::Done { intent: NextIntent::Idle }),
            Behavior::Flee => (Behavior::Flee, AiStep::Done { intent: NextIntent::Idle }),
            Behavior::Attack { attack, attack_loc } => {
                let intent = get_attack_intent(&attack, attack_loc, None);
                let next = if sees {
                    Behavior::Chase { target_point: player_point }
                } else {
                    Behavior::Wander
                };
                (next, AiStep::Done { intent: NextIntent::Attack { intent } })
            },
            Behavior::Wander => {
                if sees {
                    Self::engage(pos, player_point, moveset, roll, map)
                } else {
                    let intent = match wander {
                        Some(loc) => NextIntent::Move { intent: MoveIntent { loc } },
                        None => NextIntent::Idle,
                    };
                    (Behavior::Wander, AiStep::Done { intent })
                }
            },
            Behavior::Chase { target_point } => {
                if sees {
                    Self::engage(pos, player_point, moveset, roll, map)
                } else {
                    let goal = map.point2d_to_index(target_point);
                    (Behavior::Chase { target_point }, AiStep::Seek { goal })
                }
            },
        }
    }

    fn engage(pos: Point, player_point: Point, moveset: &Moveset, roll: u32, map: &TileMap) -> (turn:
        (Behavior, AiStep))
        requires
            map.wf(),
            map.in_bounds(player_point.x as int, player_point.y as int),
            forall|k: int|
                0 <= k < moveset.moves@.len() ==> attack_in_reach(
                    (#[trigger] moveset.moves@[k]).0,
                    pos,
                ),
        ensures
            turn == engaged(pos, player_point, moveset.moves@, roll as int, map.width as int),
            step_in_reach(turn.1),
            turn.1 matches AiStep::Seek { goal } ==> goal < map.tiles@.len(),
    {
        let step = match select_attack(moveset, roll, pos, player_point) {
            Some((attack, attack_loc)) => {
                proof {
                    lemma_chosen_attack_in_reach(
                        moveset.moves@,
                        roll as int,
                        pos,
                        player_point,
                    );
                }
                let intent = get_attack_intent(&attack, attack_loc, None);
                AiStep::Done { intent: NextIntent::Attack { intent } }
            },
            None => AiStep::Seek { goal: map.point2d_to_index(player_point) },
        };
        (Behavior::Chase { target_point: player_point }, step)
    }

    /// One turn of the actor `ent`, as far as it can be decided without a
    /// path. Draws an exit for an actor that wanders, and the choice of an
    /// action for one that sees its target.
    pub fn next_step(
        &mut self,
        ent: usize,
        pos: &Position,
        state: &mut AiState,
        viewshed: &Viewshed,
        moveset: &Moveset,
        multi: Option<&MultiTile>,
        player_point: Point,
        map: &mut TileMap,
        rng: &mut rltk::RandomNumberGenerator,
    ) -> (step: AiStep)
        requires
            old(map).wf(),
            old(map).in_bounds(pos.x as int, pos.y as int),
            old(map).in_bounds(player_point.x as int, player_point.y as int),
            status_on_grid(old(state).status, old(map)),
            forall|k: int|
                0 <= k < moveset.moves@.len() ==> attack_in_reach(
                    (#[trigger] moveset.moves@[k]).0,
                    Point { x: pos.x, y: pos.y },
                ),
        ensures
            final(map).wf(),
            final(map).same_ground(old(map)),
            final(map).occupancy() == old(map).occupancy(),
            status_on_grid(final(state).status, final(map)),
            step_in_reach(step),
            step matches AiStep::Seek { goal } ==> goal < final(map).tiles@.len(),
            exists|pick: int, roll: int|
                0 <= roll < WEIGHT_SCALE && 0 <= pick && (exits_at(
                    old(map),
                    ent,
                    Point { x: pos.x, y: pos.y },
                    footprint_of(multi),
                ).len() > 0 ==> pick < exits_at(
                    old(map),
                    ent,
                    Point { x: pos.x, y: pos.y },
                    footprint_of(multi),
                ).len()) && (final(state).status, step) == #[trigger] drawn_turn(
                    old(map),
                    ent,
                    Point { x: pos.x, y: pos.y },
                    footprint_of(multi),
                    old(state).status,
                    viewshed.visible@.contains(player_point),
                    player_point,
                    moveset.moves@,
                    pick,
                    roll,
                ),
    {
        let curr_index = map.get_index(pos.x, pos.y);
        let sees = can_see_target(viewshed, player_point);
        let ghost exits = map.exits_from(curr_index, Some(ent), footprint_of(multi));
        let mut wander: Option<Point> = None;
        let mut roll: u32 = 0;
        let ghost mut pick: int = 0;
        match state.status {
            Behavior::Wander => {
                if sees {
                    roll = random_below(rng, WEIGHT_SCALE as usize) as u32;
                } else {
                    let found = map.get_available_exits_for(curr_index, ent, multi);
                    if found.len() > 0 {
                        let exit_index = random_below(rng, found.len());
                        let chosen_exit: usize = found[exit_index].0;
                        proof {
                            pick = exit_index as int;
                            old(map).lemma_exits_on_grid(
                                curr_index,
                                Some(ent),
                                footprint_of(multi),
                                pick,
                            );
                        }
                        wander = Some(map.index_to_point2d(chosen_exit));
                    }
                }
            },
            Behavior::Chase { .. } => {
                if sees {
                    roll = random_below(rng, WEIGHT_SCALE as usize) as u32;
                }
            },
            _ => {},
        }
        let turn = Self::decide(
            state.status,
            sees,
            pos.as_point(),
            player_point,
            moveset,
            wander,
            roll,
            map,
        );
        proof {
            assert(turn == drawn_turn(
                old(map),
                ent,
                Point { x: pos.x, y: pos.y },
                footprint_of(multi),
                old(state).status,
                sees,
                player_point,
                moveset.moves@,
                pick,
                roll as int,
            ));
        }
        state.status = turn.0;
        turn.1
    }

    /// The end of a turn that waited for a path: the actor steps along the
    /// path, or gives up the chase where there is none or it has arrived.
    pub fn follow_path(state: &mut AiState, path: &NavigationPath, map: &TileMap) -> (intent:
        NextIntent)
        requires
            map.wf(),
            status_on_grid(old(state).status, map),
        ensures
            (final(state).status, intent) == followed(
                old(state).status,
                path.success,
                path.steps@,
                map.width as int,
                map.tiles@.len() as int,
            ),
            status_on_grid(final(state).status, map),
    {
        if path.success && path.steps.len() > 1 && path.steps[1] < map.tiles.len() {
            let next_pos = map.index_to_point2d(path.steps[1]);
            NextIntent::Move { intent: MoveIntent { loc: next_pos } }
        } else {
            state.status = Behavior::Wander;
            NextIntent::Idle
        }
    }

    /// Whether actor `a` takes a turn of its own: it is there, may act, and
    /// has a state, a viewshed and a moveset to decide with.
    pub open spec fn takes_turn(world: &World, a: int) -> bool {
        &&& world.alive@[a]
        &&& world.can_act@[a] is Some
        &&& world.ai_states@[a] is Some
        &&& world.viewsheds@[a] is Some
        &&& world.movesets@[a] is Some
    }

    /// `post` is `pre` with the intent `intent` queued for actor `a`:
    /// nothing, one attack or one step, never two of them.
    pub open spec fn queued(pre: &World, post: &World, a: int, intent: NextIntent) -> bool {
        &&& post.attack_intents@ == (match intent {
            NextIntent::Attack { intent } => pre.attack_intents@.update(a, Some(intent)),
            _ => pre.attack_intents@,
        })
        &&& post.move_intents@ == (match intent {
            NextIntent::Move { intent } => pre.move_intents@.update(a, Some(intent)),
            _ => pre.move_intents@,
        })
    }

    /// Whatever the turn of an actor changes, it leaves this alone.
    pub open spec fn leaves_alone(pre: &World, post: &World) -> bool {
        &&& post.player == pre.player
        &&& post.dead == pre.dead
        &&& post.alive == pre.alive
        &&& post.positions == pre.positions
        &&& post.healths == pre.healths
        &&& post.multis == pre.multis
        &&& post.movesets == pre.movesets
        &&& post.viewsheds == pre.viewsheds
        &&& post.attacks_in_progress == pre.attacks_in_progress
        &&& post.facings == pre.facings
        &&& post.part_moves == pre.part_moves
        &&& post.openables == pre.openables
        &&& post.npcs == pre.npcs
        &&& post.particles == pre.particles
        &&& post.map.same_ground(&pre.map)
        &&& post.map.occupancy() == pre.map.occupancy()
        &&& post.ai_states@.len() == pre.ai_states@.len()
        &&& post.can_act@.len() == pre.can_act@.len()
    }

    /// What the first half of the turn of actor `a` makes of the world. An
    /// actor that takes no turn of its own is passed over. Else the actor
    /// decides, with some exit and some number drawn for it. A turn that is
    /// decided queues its one intent and uses up the actor's leave to act; a
    /// turn that waits for a path queues nothing yet.
    pub open spec fn begun(pre: &World, post: &World, a: int, step: Option<AiStep>) -> bool {
        &&& Self::leaves_alone(pre, post)
        &&& step is Some <==> Self::takes_turn(pre, a)
        &&& forall|b: int|
            0 <= b < pre.len() && b != a ==> #[trigger] post.ai_states@[b] == pre.ai_states@[b]
        &&& forall|b: int|
            0 <= b < pre.len() && b != a ==> #[trigger] post.can_act@[b] == pre.can_act@[b]
        &&& match step {
            None => post.ai_states@[a] == pre.ai_states@[a] && post.can_act@[a] == pre.can_act@[a]
                && Self::queued(pre, post, a, NextIntent::Idle),
            Some(turn) => {
                &&& post.ai_states@[a] is Some
                &&& exists|pick: int, roll: int|
                    0 <= roll < WEIGHT_SCALE && 0 <= pick && (exits_at(
                        &pre.map,
                        a as usize,
                        pre.anchor(a),
                        pre.cells(a),
                    ).len() > 0 ==> pick < exits_at(
                        &pre.map,
                        a as usize,
                        pre.anchor(a),
                        pre.cells(a),
                    ).len()) && (post.ai_states@[a]->0.status, turn) == #[trigger] drawn_turn(
                        &pre.map,
                        a as usize,
                        pre.anchor(a),
                        pre.cells(a),
                        pre.ai_states@[a]->0.status,
                        pre.viewsheds@[a]->0.visible@.contains(pre.anchor(pre.player as int)),
                        pre.anchor(pre.player as int),
                        pre.movesets@[a]->0.moves@,
                        pick,
                        roll,
                    )
                &&& match turn {
                    AiStep::Done { intent } => Self::queued(pre, post, a, intent)
                        && post.can_act@[a] is None,
                    AiStep::Seek { goal } => Self::queued(pre, post, a, NextIntent::Idle)
                        && post.can_act@[a] == pre.can_act@[a] && goal < post.map.tiles@.len(),
                }
            },
        }
    }

    /// The first half of the turn of actor `a`: all of it, unless the actor
    /// wants to walk towards a tile, in which case the turn waits for a path
    /// to that tile and `finish` ends it.
    pub fn begin(
        &mut self,
        world: &mut World,
        a: usize,
        rng: &mut rltk::RandomNumberGenerator,
    ) -> (step: Option<AiStep>)
        requires
            old(world).inv(),
            a < old(world).len(),
        ensures
            final(world).inv(),
            Self::begun(old(world), final(world), a as int, step),
    {
        if !world.alive[a] || world.can_act[a].is_none() {
            return None;
        }
        let mut state = match world.ai_states[a] {
            Some(state) => state,
            None => {
                return None;
            },
        };
        let player_point = world.positions[world.player].as_point();
        let pos = world.positions[a];
        assert(world.map.holds(world.anchor(a as int), world.cells(a as int)));
        assert(world.map.holds(
            world.anchor(world.player as int),
            world.cells(world.player as int),
        ));
        let step = match &world.viewsheds[a] {
            Some(viewshed) => match &world.movesets[a] {
                Some(moveset) => {
                    proof {
                        assert forall|k: int| 0 <= k < moveset.moves@.len() implies attack_in_reach(
                            (#[trigger] moveset.moves@[k]).0,
                            Point { x: pos.x, y: pos.y },
                        ) by {
                            lemma_attack_in_reach(moveset.moves@[k].0, Point { x: pos.x, y: pos.y });
                        }
                    }
                    self.next_step(
                        a,
                        &pos,
                        &mut state,
                        viewshed,
                        moveset,
                        world.multis[a].as_ref(),
                        player_point,
                        &mut world.map,
                        rng,
                    )
                },
                None => {
                    return None;
                },
            },
            None => {
                return None;
            },
        };
        world.ai_states.set(a, Some(state));
        match step {
            AiStep::Done { intent } => {
                Self::queue(world, a, intent);
                world.can_act.set(a, None);
            },
            AiStep::Seek { .. } => {},
        }
        proof {
            Self::lemma_turn_keeps_order(old(world), world, a as int);
            let pre = old(world);
            let (pick, roll) = choose|pick: int, roll: int|
                0 <= roll < WEIGHT_SCALE && 0 <= pick && (exits_at(
                    &pre.map,
                    a,
                    pre.anchor(a as int),
                    pre.cells(a as int),
                ).len() > 0 ==> pick < exits_at(
                    &pre.map,
                    a,
                    pre.anchor(a as int),
                    pre.cells(a as int),
                ).len()) && (state.status, step) == #[trigger] drawn_turn(
                    &pre.map,
                    a,
                    pre.anchor(a as int),
                    pre.cells(a as int),
                    pre.ai_states@[a as int]->0.status,
                    pre.viewsheds@[a as int]->0.visible@.contains(pre.anchor(pre.player as int)),
                    pre.anchor(pre.player as int),
                    pre.movesets@[a as int]->0.moves@,
                    pick,
                    roll,
                );
            assert((a as int) as usize == a);
            assert((world.ai_states@[a as int]->0.status, step) == drawn_turn(
                &pre.map,
                (a as int) as usize,
                pre.anchor(a as int),
                pre.cells(a as int),
                pre.ai_states@[a as int]->0.status,
                pre.viewsheds@[a as int]->0.visible@.contains(pre.anchor(pre.player as int)),
                pre.anchor(pre.player as int),
                pre.movesets@[a as int]->0.moves@,
                pick,
                roll,
            ));
        }
        Some(step)
    }

    fn queue(world: &mut World, a: usize, intent: NextIntent)
        requires
            a < old(world).attack_intents@.len(),
            a < old(world).move_intents@.len(),
        ensures
            Self::queued(old(world), final(world), a as int, intent),
            final(world).map == old(world).map,
            final(world).player == old(world).player,
            final(world).dead == old(world).dead,
            final(world).alive == old(world).alive,
            final(world).positions == old(world).positions,
            final(world).healths == old(world).healths,
            final(world).multis == old(world).multis,
            final(world).movesets == old(world).movesets,
            final(world).ai_states == old(world).ai_states,
            final(world).viewsheds == old(world).viewsheds,
            final(world).can_act == old(world).can_act,
            final(world).attacks_in_progress == old(world).attacks_in_progress,
            final(world).facings == old(world).facings,
            final(world).part_moves == old(world).part_moves,
            final(world).openables == old(world).openables,
            final(world).npcs == old(world).npcs,
            final(world).particles == old(world).particles,
    {
        match intent {
            NextIntent::Attack { intent } => {
                world.attack_intents.set(a, Some(intent));
            },
            NextIntent::Move { intent } => {
                world.move_intents.set(a, Some(intent));
            },
            NextIntent::Idle => {},
        }
    }

    /// A world that differs from one in order only in what actor `a`
    /// remembers, intends and may do, all of it resolvable, is in order.
    proof fn lemma_turn_keeps_order(pre: &World, post: &World, a: int)
        requires
            pre.inv(),
            0 <= a < pre.len(),
            Self::leaves_alone(pre, post),
            post.map.wf(),
            post.attack_intents@.len() == pre.attack_intents@.len(),
            post.move_intents@.len() == pre.move_intents@.len(),
            forall|b: int|
                0 <= b < pre.len() && b != a ==> post.ai_states@[b] == pre.ai_states@[b]
                    && post.attack_intents@[b] == pre.attack_intents@[b],
            post.ai_states@[a] matches Some(state) ==> status_on_grid(state.status, &post.map),
            post.attack_intents@[a] matches Some(intent) ==> range_in_reach(
                attack_shape(intent.main),
                intent.loc,
            ),
        ensures
            post.inv(),
    {
        assert(post.all_tiles() =~= pre.all_tiles());
        assert forall|b: int| 0 <= b < post.len() && #[trigger] post.alive@[b] implies post.map.holds(
            post.anchor(b),
            post.cells(b),
        ) by {
            assert(pre.map.holds(pre.anchor(b), pre.cells(b)));
        }
        assert forall|b: int| 0 <= b < post.len() implies (
        #[trigger] post.ai_states@[b] matches Some(state) ==> status_on_grid(
            state.status,
            &post.map,
        )) by {
            if b != a {
                assert(pre.ai_states@[b] matches Some(state) ==> status_on_grid(
                    state.status,
                    &pre.map,
                ));
            }
        }
        assert forall|b: int| 0 <= b < post.len() implies (
        #[trigger] post.attack_intents@[b] matches Some(intent) ==> range_in_reach(
            attack_shape(intent.main),
            intent.loc,
        )) by {
            if b != a {
                assert(pre.attack_intents@[b] matches Some(intent) ==> range_in_reach(
                    attack_shape(intent.main),
                    intent.loc,
                ));
            }
        }
    }

    /// What the second half of the turn of actor `a` makes of the world,
    /// given the path that the actor asked for: the actor steps along the
    /// path, or gives up the chase. Either way its leave to act is used up.
    pub open spec fn finished(pre: &World, post: &World, a: int, path: NavigationPath) -> bool {
        let end = followed(
            pre.ai_states@[a]->0.status,
            path.success,
            path.steps@,
            pre.map.width as int,
            pre.map.tiles@.len() as int,
        );
        &&& Self::leaves_alone(pre, post)
        &&& post.map == pre.map
        &&& post.attack_intents@ == pre.attack_intents@
        &&& post.can_act@ == pre.can_act@.update(a, None)
        &&& post.ai_states@ == pre.ai_states@.update(a, Some(AiState { status: end.0 }))
        &&& Self::queued(pre, post, a, end.1)
    }

    /// The second half of the turn of an actor that wanted to walk towards
    /// a tile.
    pub fn finish(&mut self, world: &mut World, a: usize, path: &NavigationPath)
        requires
            old(world).inv(),
            a < old(world).len(),
            Self::takes_turn(old(world), a as int),
        ensures
            final(world).inv(),
            Self::finished(old(world), final(world), a as int, *path),
    {
        let mut state = match world.ai_states[a] {
            Some(state) => state,
            None => {
                return ;
            },
        };
        let intent = Self::follow_path(&mut state, path, &world.map);
        world.ai_states.set(a, Some(state));
        Self::queue(world, a, intent);
        world.can_act.set(a, None);
        proof {
            Self::lemma_turn_keeps_order(old(world), world, a as int);
        }
    }

    /// The tile that actor `a` walks towards if its turn comes to that: the
    /// tile of the player where the actor sees the player, the tile that it
    /// remembers where it chases without seeing, and none else.
    pub open spec fn sought(world: &World, a: int) -> Option<usize> {
        let player = world.anchor(world.player as int);
        if !Self::takes_turn(world, a) {
            None
        } else if world.viewsheds@[a]->0.visible@.contains(player) {
            match world.ai_states@[a]->0.status {
                Behavior::Wander | Behavior::Chase { .. } => Some(
                    tile_of(world.map.width as int, player.x as int, player.y as int),
                ),
                _ => None,
            }
        } else {
            match world.ai_states@[a]->0.status {
                Behavior::Chase { target_point } => Some(
                    tile_of(world.map.width as int, target_point.x as int, target_point.y as int),
                ),
                _ => None,
            }
        }
    }

    /// The tile towards which a path must be at hand before actor `a` takes
    /// its turn, if any.
    pub fn path_goal(world: &World, a: usize) -> (goal: Option<usize>)
        requires
            world.inv(),
            a < world.len(),
        ensures
            goal == Self::sought(world, a as int),
            goal matches Some(tile) ==> tile < world.map.tiles@.len(),
    {
        if !world.alive[a] || world.can_act[a].is_none() || world.movesets[a].is_none() {
            return None;
        }
        let status = match world.ai_states[a] {
            Some(state) => state.status,
            None => {
                return None;
            },
        };
        let player = world.positions[world.player].as_point();
        assert(world.map.holds(
            world.anchor(world.player as int),
            world.cells(world.player as int),
        ));
        let sees = match &world.viewsheds[a] {
            Some(viewshed) => can_see_target(viewshed, player),
            None => {
                return None;
            },
        };
        match status {
            Behavior::Wander => if sees {
                Some(world.map.point2d_to_index(player))
            } else {
                None
            },
            Behavior::Chase { target_point } => if sees {
                Some(world.map.point2d_to_index(player))
            } else {
                Some(world.map.point2d_to_index(target_point))
            },
            _ => None,
        }
    }

    /// What the whole turn of actor `a` makes of the world, where `path` is
    /// the path towards the tile that the actor seeks, if it seeks one: the
    /// first half of the turn, and the second where the first waits for a
    /// path. A path that is missing counts as one that was not found.
    pub open spec fn turned(pre: &World, post: &World, a: int, path: Option<NavigationPath>) -> bool {
        exists|mid: World, step: Option<AiStep>| #[trigger]
            Self::begun(pre, &mid, a, step) && match step {
                Some(AiStep::Seek { goal }) => exists|given: NavigationPath| #[trigger]
                    Self::finished(&mid, post, a, given) && match path {
                        Some(p) => given == p,
                        None => !given.success,
                    },
                _ => *post == mid,
            }
    }

    /// The path that is at hand for actor `a`: the one that `paths` holds
    /// for it, and none where `paths` holds none for it.
    pub open spec fn path_for(paths: Seq<Option<NavigationPath>>, a: int) -> Option<
        NavigationPath,
    > {
        if 0 <= a < paths.len() {
            paths[a]
        } else {
            None
        }
    }

    /// World `i` of the trace leads to the next by the turn of actor `i`.
    pub open spec fn linked(trace: Seq<World>, paths: Seq<Option<NavigationPath>>, i: int) -> bool {
        Self::turned(&trace[i], &trace[i + 1], i, Self::path_for(paths, i))
    }

    /// Every world of the trace but the last leads to the next by the turn
    /// of one actor, the actors taken in the order of their ids.
    pub open spec fn passed(trace: Seq<World>, paths: Seq<Option<NavigationPath>>) -> bool {
        forall|i: int| 0 <= i < trace.len() - 1 ==> #[trigger] Self::linked(trace, paths, i)
    }

    /// `post` is what the pass makes of `pre`, given the paths of the
    /// actors.
    pub open spec fn ran(pre: &World, post: &World, paths: Seq<Option<NavigationPath>>) -> bool {
        exists|trace: Seq<World>| pre.spans(post, trace) && #[trigger] Self::passed(trace, paths)
    }

    /// The decision pass: every actor that may act and decides for itself
    /// takes its turn, in the order of the ids. `paths` holds, for each
    /// actor, the path towards the tile that `path_goal` names for it; a
    /// path that is missing, or leads off the map, counts as one that was
    /// not found. Nobody moves and nothing lands yet: the pass only queues
    /// intents.
    pub fn run(
        &mut self,
        world: &mut World,
        paths: &Vec<Option<NavigationPath>>,
        rng: &mut rltk::RandomNumberGenerator,
    )
        requires
            old(world).inv(),
        ensures
            final(world).inv(),
            Self::ran(old(world), final(world), paths@),
            final(world).map.same_ground(&old(world).map),
            final(world).healths == old(world).healths,
            final(world).multis == old(world).multis,
    {
        let ghost mut trace: Seq<World> = seq![*world];
        let count = world.alive.len();
        let mut a: usize = 0;
        while a < count
            invariant
                world.map.same_ground(&old(world).map),
                world.inv(),
                world.healths == old(world).healths,
                world.multis == old(world).multis,
                count == world.len(),
                count == old(world).len(),
                world.map.tiles@.len() == old(world).map.tiles@.len(),
                a <= count,
                trace.len() == a + 1,
                trace[0] == *old(world),
                trace[a as int] == *world,
                Self::passed(trace, paths@),
            decreases count - a,
        {
            let ghost before = *world;
            let step = self.begin(world, a, rng);
            let ghost mid = *world;
            let ghost mut given: Option<NavigationPath> = None;
            match step {
                Some(AiStep::Seek { goal }) => {
                    let at_hand = if a < paths.len() {
                        &paths[a]
                    } else {
                        &None
                    };
                    match at_hand {
                        Some(path) => {
                            self.finish(world, a, path);
                            proof {
                                given = Some(*path);
                            }
                        },
                        None => {
                            let none = NavigationPath {
                                destination: goal,
                                success: false,
                                steps: Vec::new(),
                            };
                            self.finish(world, a, &none);
                            proof {
                                given = Some(none);
                            }
                        },
                    }
                    assert(Self::finished(&mid, world, a as int, given->0));
                },
                _ => {},
            }
            proof {
                assert(Self::begun(&before, &mid, a as int, step));
                assert(Self::turned(&before, world, a as int, Self::path_for(paths@, a as int)));
                let longer = trace.push(*world);
                assert forall|i: int| 0 <= i < longer.len() - 1 implies #[trigger] Self::linked(
                    longer,
                    paths@,
                    i,
                ) by {
                    if i < a {
                        assert(Self::linked(trace, paths@, i));
                    }
                }
                trace = longer;
            }
            a = a + 1;
        }
        assert(old(world).spans(world, trace));
    }

    /// A turn never queues both a step and an attack for its actor: whatever
    /// is drawn, and whatever path is at hand, at most one of the two kinds
    /// of intent differs after the turn from what it was before.
    pub proof fn lemma_one_intent_per_turn(
        pre: &World,
        post: &World,
        a: int,
        path: Option<NavigationPath>,
    )
        requires
            Self::turned(pre, post, a, path),
        ensures
            post.move_intents@ == pre.move_intents@ || post.attack_intents@ == pre.attack_intents@,
    {
        let (mid, step) = choose|mid: World, step: Option<AiStep>| #[trigger]
            Self::begun(pre, &mid, a, step) && match step {
                Some(AiStep::Seek { goal }) => exists|given: NavigationPath| #[trigger]
                    Self::finished(&mid, post, a, given) && match path {
                        Some(p) => given == p,
                        None => !given.success,
                    },
                _ => *post == mid,
            };
        match step {
            Some(AiStep::Seek { goal }) => {
                let given = choose|given: NavigationPath| #[trigger]
                    Self::finished(&mid, post, a, given) && match path {
                        Some(p) => given == p,
                        None => !given.success,
                    };
                assert(post.attack_intents@ == mid.attack_intents@);
                assert(mid.attack_intents@ == pre.attack_intents@);
            },
            _ => {},
        }
    }

    /// Leave to act admits to one turn: an actor that takes its turn holds
    /// no leave afterwards, whatever it decided, and an actor that takes
    /// none, as one without leave, is passed over.
    pub proof fn lemma_leave_is_spent(
        pre: &World,
        post: &World,
        a: int,
        path: Option<NavigationPath>,
    )
        requires
            pre.wf(),
            0 <= a < pre.len(),
            Self::turned(pre, post, a, path),
        ensures
            Self::takes_turn(pre, a) ==> post.can_act@[a] is None,
            !Self::takes_turn(pre, a) ==> post.move_intents@ == pre.move_intents@
                && post.attack_intents@ == pre.attack_intents@ && post.ai_states@[a]
                == pre.ai_states@[a] && post.can_act@[a] == pre.can_act@[a],
    {
        let (mid, step) = choose|mid: World, step: Option<AiStep>| #[trigger]
            Self::begun(pre, &mid, a, step) && match step {
                Some(AiStep::Seek { goal }) => exists|given: NavigationPath| #[trigger]
                    Self::finished(&mid, post, a, given) && match path {
                        Some(p) => given == p,
                        None => !given.success,
                    },
                _ => *post == mid,
            };
        match step {
            Some(AiStep::Seek { goal }) => {
                let given = choose|given: NavigationPath| #[trigger]
                    Self::finished(&mid, post, a, given) && match path {
                        Some(p) => given == p,
                        None => !given.success,
                    };
                assert(mid.can_act@.len() == pre.can_act@.len());
                assert(post.can_act@ == mid.can_act@.update(a, None));
            },
            _ => {},
        }
    }

    /// A turn touches the intents of its own actor alone, and of these at
    /// most one kind.
    pub proof fn lemma_turn_is_the_actors_own(
        pre: &World,
        post: &World,
        a: int,
        path: Option<NavigationPath>,
    )
        requires
            Self::turned(pre, post, a, path),
            0 <= a < pre.move_intents@.len(),
            a < pre.attack_intents@.len(),
        ensures
            post.move_intents@.len() == pre.move_intents@.len(),
            post.attack_intents@.len() == pre.attack_intents@.len(),
            forall|b: int|
                0 <= b < pre.move_intents@.len() && b != a ==> post.move_intents@[b]
                    == pre.move_intents@[b],
            forall|b: int|
                0 <= b < pre.attack_intents@.len() && b != a ==> post.attack_intents@[b]
                    == pre.attack_intents@[b],
            post.move_intents@ == pre.move_intents@ || post.attack_intents@ == pre.attack_intents@,
    {
        let (mid, step) = choose|mid: World, step: Option<AiStep>| #[trigger]
            Self::begun(pre, &mid, a, step) && match step {
                Some(AiStep::Seek { goal }) => exists|given: NavigationPath| #[trigger]
                    Self::finished(&mid, post, a, given) && match path {
                        Some(p) => given == p,
                        None => !given.success,
                    },
                _ => *post == mid,
            };
        match step {
            Some(AiStep::Seek { goal }) => {
                let given = choose|given: NavigationPath| #[trigger]
                    Self::finished(&mid, post, a, given) && match path {
                        Some(p) => given == p,
                        None => !given.success,
                    };
                assert(mid.move_intents@ == pre.move_intents@);
                assert(mid.attack_intents@ == pre.attack_intents@);
                assert(post.attack_intents@ == mid.attack_intents@);
            },
            _ => {},
        }
    }

    proof fn lemma_intents_along(
        trace: Seq<World>,
        paths: Seq<Option<NavigationPath>>,
        e: int,
        k: int,
    )
        requires
            Self::passed(trace, paths),
            0 <= k < trace.len(),
            0 <= e < trace.len() - 1,
            trace[0].move_intents@.len() == trace.len() - 1,
            trace[0].attack_intents@.len() == trace.len() - 1,
            trace[0].move_intents@[e] is None,
            trace[0].attack_intents@[e] is None,
        ensures
            trace[k].move_intents@.len() == trace.len() - 1,
            trace[k].attack_intents@.len() == trace.len() - 1,
            k <= e ==> trace[k].move_intents@[e] is None && trace[k].attack_intents@[e] is None,
            !(trace[k].move_intents@[e] is Some && trace[k].attack_intents@[e] is Some),
        decreases k,
    {
        if k > 0 {
            Self::lemma_intents_along(trace, paths, e, k - 1);
            assert(Self::linked(trace, paths, k - 1));
            Self::lemma_turn_is_the_actors_own(
                &trace[k - 1],
                &trace[k],
                k - 1,
                Self::path_for(paths, k - 1),
            );
        }
    }

    /// The decision pass never leaves an actor with both a step and an
    /// attack queued that had neither before it: whatever is drawn for
    /// anybody, and whatever paths are at hand.
    pub proof fn lemma_one_intent_per_pass(
        pre: &World,
        post: &World,
        paths: Seq<Option<NavigationPath>>,
        e: int,
    )
        requires
            pre.wf(),
            Self::ran(pre, post, paths),
            0 <= e < pre.len(),
            pre.move_intents@[e] is None,
            pre.attack_intents@[e] is None,
        ensures
            !(post.move_intents@[e] is Some && post.attack_intents@[e] is Some),
    {
        let trace = choose|trace: Seq<World>|
            pre.spans(post, trace) && #[trigger] Self::passed(trace, paths);
        Self::lemma_intents_along(trace, paths, e, pre.len());
    }

    /// Whoever holds leave to decide after the turn of actor `a` is
    /// somebody else who held it before: a turn spends the leave of its
    /// actor and hands none out.
    pub proof fn lemma_turn_hands_out_no_leave(
        pre: &World,
        post: &World,
        a: int,
        path: Option<NavigationPath>,
        e: int,
    )
        requires
            Self::turned(pre, post, a, path),
            0 <= a < pre.can_act@.len(),
            0 <= e < pre.can_act@.len(),
            pre.ai_states@.len() == pre.can_act@.len(),
            pre.len() == pre.can_act@.len(),
        ensures
            post.can_act@.len() == pre.can_act@.len(),
            post.ai_states@.len() == pre.ai_states@.len(),
            post.len() == pre.len(),
            Self::takes_turn(post, e) ==> e != a && Self::takes_turn(pre, e),
    {
        let (mid, step) = choose|mid: World, step: Option<AiStep>| #[trigger]
            Self::begun(pre, &mid, a, step) && match step {
                Some(AiStep::Seek { goal }) => exists|given: NavigationPath| #[trigger]
                    Self::finished(&mid, post, a, given) && match path {
                        Some(p) => given == p,
                        None => !given.success,
                    },
                _ => *post == mid,
            };
        match step {
            Some(AiStep::Seek { goal }) => {
                let given = choose|given: NavigationPath| #[trigger]
                    Self::finished(&mid, post, a, given) && match path {
                        Some(p) => given == p,
                        None => !given.success,
                    };
                assert(mid.can_act@.len() == pre.can_act@.len());
                assert(post.can_act@ == mid.can_act@.update(a, None));
                if e != a {
                    assert(mid.can_act@[e] == pre.can_act@[e]);
                    assert(mid.ai_states@[e] == pre.ai_states@[e]);
                    assert(post.ai_states@[e] == mid.ai_states@[e]);
                }
            },
            _ => {
                if e != a {
                    assert(post.can_act@[e] == pre.can_act@[e]);
                    assert(post.ai_states@[e] == pre.ai_states@[e]);
                }
            },
        }
    }

    proof fn lemma_leave_along(
        trace: Seq<World>,
        paths: Seq<Option<NavigationPath>>,
        e: int,
        k: int,
    )
        requires
            Self::passed(trace, paths),
            0 <= k < trace.len(),
            0 <= e < trace.len() - 1,
            trace[0].can_act@.len() == trace.len() - 1,
            trace[0].ai_states@.len() == trace.len() - 1,
            trace[0].len() == trace.len() - 1,
        ensures
            trace[k].can_act@.len() == trace.len() - 1,
            trace[k].ai_states@.len() == trace.len() - 1,
            trace[k].len() == trace.len() - 1,
            k > e ==> !Self::takes_turn(&trace[k], e),
        decreases k,
    {
        if k > 0 {
            Self::lemma_leave_along(trace, paths, e, k - 1);
            assert(Self::linked(trace, paths, k - 1));
            Self::lemma_turn_hands_out_no_leave(
                &trace[k - 1],
                &trace[k],
                k - 1,
                Self::path_for(paths, k - 1),
                e,
            );
        }
    }

    /// After the decision pass nobody holds leave to decide: whoever held
    /// it has taken its turn and given it back.
    pub proof fn lemma_pass_spends_all_leave(
        pre: &World,
        post: &World,
        paths: Seq<Option<NavigationPath>>,
        e: int,
    )
        requires
            pre.wf(),
            Self::ran(pre, post, paths),
            0 <= e < pre.len(),
        ensures
            !Self::takes_turn(post, e),
    {
        let trace = choose|trace: Seq<World>|
            pre.spans(post, trace) && #[trigger] Self::passed(trace, paths);
        Self::lemma_leave_along(trace, paths, e, pre.len());
    }
}

} // verus!
