use vstd::prelude::*;
use vstd::arithmetic::div_mod::{lemma_div_pos_is_pos, lemma_mod_pos_bound, lemma_multiply_divide_lt};
use vstd::string::*;
use crate::components::AttackIntent;
use crate::geometry::Point;
use crate::range_type::{
    contains_point, lemma_square_holds, range_in_reach, resolve_range_at, resolved, square_side,
    square_tiles, RangeType,
};

verus! {

/// The kinds of action that an actor can take against a tile.
#[derive(Clone, Copy, Debug, PartialEq, Eq, Structural, Hash)]
pub enum AttackType {
    Sweep,
    Punch,
    Stun,
    Push,
    Dodge,
    Recover,
    Haymaker,
    Ranged,
}

#[derive(Clone, Copy, Debug, PartialEq, Eq, Structural)]
pub enum AttackTiming {
    Slow,
    Fast,
}

/// What an action does once it lands.
#[derive(Clone, Copy, Debug, PartialEq, Eq, Structural)]
pub enum AttackTrait {
    Damage { amount: i32 },
    Knockback { amount: i32 },
    Movement,
    Equipment,
    Heal { amount: i32 },
}

/// The tiles, relative to the actor, that an action can be aimed at.
pub open spec fn attack_range(attack_type: AttackType) -> RangeType {
    match attack_type {
        AttackType::Sweep => RangeType::Single,
        AttackType::Punch => RangeType::Square { size: 1 },
        AttackType::Stun => RangeType::Square { size: 1 },
        AttackType::Push => RangeType::Square { size: 1 },
        AttackType::Dodge => RangeType::Square { size: 2 },
        AttackType::Recover => RangeType::Single,
        AttackType::Haymaker => RangeType::Square { size: 1 },
        AttackType::Ranged => RangeType::Square { size: 3 },
    }
}

/// The tiles, relative to the tile aimed at, that an action affects.
pub open spec fn attack_shape(attack_type: AttackType) -> RangeType {
    match attack_type {
        AttackType::Sweep => RangeType::Square { size: 1 },
        _ => RangeType::Single,
    }
}

/// The power of an action.
pub open spec fn attack_power(attack_type: AttackType) -> int {
    match attack_type {
        AttackType::Sweep => 1,
        AttackType::Punch => 1,
        AttackType::Haymaker => 3,
        AttackType::Ranged => 1,
        _ => 0,
    }
}

/// What an action adds to the speed of the actor.
pub open spec fn attack_speed(attack_type: AttackType) -> int {
    match attack_type {
        AttackType::Punch => 1,
        AttackType::Stun => 2,
        AttackType::Dodge => 2,
        AttackType::Haymaker => -4,
        _ => 0,
    }
}

/// What an action adds to the guard of the actor.
pub open spec fn attack_guard(attack_type: AttackType) -> int {
    match attack_type {
        AttackType::Dodge => -2,
        AttackType::Haymaker => 2,
        AttackType::Ranged => -4,
        _ => 0,
    }
}

/// The number of ticks between queueing an action and its landing. No
/// action of the catalog winds up.
pub open spec fn attack_delay(attack_type: AttackType) -> int {
    0
}

/// The name of an action.
pub open spec fn attack_name(attack_type: AttackType) -> Seq<char> {
    match attack_type {
        AttackType::Sweep => "sweep"@,
        AttackType::Punch => "punch"@,
        AttackType::Stun => "stun"@,
        AttackType::Push => "push"@,
        AttackType::Dodge => "dodge"@,
        AttackType::Recover => "recover"@,
        AttackType::Haymaker => "haymaker"@,
        AttackType::Ranged => "shoot"@,
    }
}

/// What an action does once it lands.
pub open spec fn attack_traits(attack_type: AttackType) -> Seq<AttackTrait> {
    match attack_type {
        AttackType::Sweep => seq![AttackTrait::Damage { amount: 1 }],
        AttackType::Punch => seq![AttackTrait::Damage { amount: 1 }],
        AttackType::Stun => seq![AttackTrait::Damage { amount: 0 }],
        AttackType::Push => seq![AttackTrait::Knockback { amount: 2 }],
        AttackType::Dodge => seq![AttackTrait::Movement],
        AttackType::Recover => seq![AttackTrait::Heal { amount: 2 }],
        AttackType::Haymaker => seq![AttackTrait::Damage { amount: 2 }],
        AttackType::Ranged => seq![AttackTrait::Damage { amount: 1 }],
    }
}

/// Whether the action, aimed at `tile`, affects `target`.
pub open spec fn attack_covers(attack_type: AttackType, tile: Point, target: Point) -> bool {
    resolved(attack_shape(attack_type), tile).contains(target)
}

/// Whether the range of the action at `from`, and its shape at every tile of
/// that range, stay within the coordinates that fit.
pub open spec fn attack_in_reach(attack_type: AttackType, from: Point) -> bool {
    &&& range_in_reach(attack_range(attack_type), from)
    &&& forall|k: int|
        0 <= k < resolved(attack_range(attack_type), from).len() ==> range_in_reach(
            attack_shape(attack_type),
            #[trigger] resolved(attack_range(attack_type), from)[k],
        )
}

/// The first tile in the action's range at `from` from which the action
/// affects `target`, if there is one.
#[verifier::opaque]
pub open spec fn attack_tile(attack_type: AttackType, from: Point, target: Point) -> Option<
    Point,
> {
    let range = resolved(attack_range(attack_type), from);
    if exists|k: int| 0 <= k < range.len() && attack_covers(attack_type, #[trigger] range[k], target) {
        let first = choose|k: int|
            0 <= k < range.len() && attack_covers(attack_type, #[trigger] range[k], target)
                && forall|j: int|
                0 <= j < k ==> !attack_covers(attack_type, #[trigger] range[j], target);
        Some(range[first])
    } else {
        None
    }
}

/// `attack_tile` is `Some(range[k])` for the least `k` whose tile covers the
/// target.
pub proof fn lemma_attack_tile_first(attack_type: AttackType, from: Point, target: Point, k: int)
    requires
        0 <= k < resolved(attack_range(attack_type), from).len(),
        attack_covers(attack_type, resolved(attack_range(attack_type), from)[k], target),
        forall|j: int|
            0 <= j < k ==> !attack_covers(
                attack_type,
                #[trigger] resolved(attack_range(attack_type), from)[j],
                target,
            ),
    ensures
        attack_tile(attack_type, from, target) == Some(
            resolved(attack_range(attack_type), from)[k],
        ),
{
    reveal(attack_tile);
    let range = resolved(attack_range(attack_type), from);
    assert(attack_covers(attack_type, range[k], target));
    let first = choose|k: int|
        0 <= k < range.len() && attack_covers(attack_type, #[trigger] range[k], target)
            && forall|j: int|
            0 <= j < k ==> !attack_covers(attack_type, #[trigger] range[j], target);
    assert(first == k) by {
        if first < k {
            assert(!attack_covers(attack_type, range[first], target));
        }
        if k < first {
            assert(!attack_covers(attack_type, range[k], target));
        }
    }
}

/// `attack_tile` is `None` where no tile of the range covers the target.
pub proof fn lemma_attack_tile_none(attack_type: AttackType, from: Point, target: Point)
    requires
        forall|j: int|
            0 <= j < resolved(attack_range(attack_type), from).len() ==> !attack_covers(
                attack_type,
                #[trigger] resolved(attack_range(attack_type), from)[j],
                target,
            ),
    ensures
        attack_tile(attack_type, from, target) is None,
{
    reveal(attack_tile);
}

/// The tile that `attack_tile` gives lies in the range of the action, and
/// the action covers the target from there.
pub proof fn lemma_attack_tile_in_range(attack_type: AttackType, from: Point, target: Point)
    requires
        attack_in_reach(attack_type, from),
    ensures
        attack_tile(attack_type, from, target) matches Some(tile) ==> resolved(
            attack_range(attack_type),
            from,
        ).contains(tile) && attack_covers(attack_type, tile, target) && range_in_reach(
            attack_shape(attack_type),
            tile,
        ),
{
    reveal(attack_tile);
    let range = resolved(attack_range(attack_type), from);
    if exists|k: int| 0 <= k < range.len() && attack_covers(attack_type, #[trigger] range[k], target) {
        let first = choose|k: int|
            0 <= k < range.len() && attack_covers(attack_type, #[trigger] range[k], target)
                && forall|j: int|
                0 <= j < k ==> !attack_covers(attack_type, #[trigger] range[j], target);
        let k = choose|k: int|
            0 <= k < range.len() && attack_covers(attack_type, #[trigger] range[k], target);
        lemma_first_covering_tile(attack_type, range, target, k);
        assert(range_in_reach(attack_shape(attack_type), range[first]));
        assert(range.contains(range[first]));
    }
}

/// Where some tile of `range` covers the target, there is a first one.
proof fn lemma_first_covering_tile(attack_type: AttackType, range: Seq<Point>, target: Point, k: int)
    requires
        0 <= k < range.len(),
        attack_covers(attack_type, range[k], target),
    ensures
        exists|first: int|
            0 <= first < range.len() && attack_covers(attack_type, #[trigger] range[first], target)
                && forall|j: int|
                0 <= j < first ==> !attack_covers(attack_type, #[trigger] range[j], target),
    decreases k,
{
    if exists|j: int| 0 <= j < k && attack_covers(attack_type, #[trigger] range[j], target) {
        let j = choose|j: int| 0 <= j < k && attack_covers(attack_type, #[trigger] range[j], target);
        lemma_first_covering_tile(attack_type, range, target, j);
    } else {
        assert(forall|j: int| 0 <= j < k ==> !attack_covers(attack_type, #[trigger] range[j], target));
    }
}

/// Whether two tiles touch, by a side or by a corner, or are the same.
pub open spec fn adjacent(a: Point, b: Point) -> bool {
    -1 <= a.x - b.x <= 1 && -1 <= a.y - b.y <= 1
}

/// Every action of the catalog but the one that an actor takes on itself
/// reaches a target that stands next to the actor.
pub proof fn lemma_reaches_adjacent(attack_type: AttackType, from: Point, target: Point)
    requires
        attack_type != AttackType::Recover,
        adjacent(from, target),
        attack_in_reach(attack_type, from),
    ensures
        attack_tile(attack_type, from, target) is Some,
{
    let range = resolved(attack_range(attack_type), from);
    match attack_range(attack_type) {
        RangeType::Square { size } => {
            lemma_square_holds(from, size as int, target);
            let k = choose|k: int| 0 <= k < range.len() && range[k] == target;
            assert(resolved(attack_shape(attack_type), range[k])[0] == target);
            lemma_first_covering_tile(attack_type, range, target, k);
        },
        _ => {
            assert(range[0] == from);
            lemma_square_holds(from, 1, target);
            lemma_first_covering_tile(attack_type, range, target, 0);
        },
    }
    let first = choose|first: int|
        0 <= first < range.len() && attack_covers(attack_type, #[trigger] range[first], target)
            && forall|j: int|
            0 <= j < first ==> !attack_covers(attack_type, #[trigger] range[j], target);
    lemma_attack_tile_first(attack_type, from, target, first);
}

/// Whether the shape of the action fits around the tile at `loc`.
pub fn shape_in_reach(attack_type: &AttackType, loc: Point) -> (fits: bool)
    ensures
        fits == range_in_reach(attack_shape(*attack_type), loc),
{
    match attack_type {
        AttackType::Sweep => loc.x > i32::MIN && loc.x < i32::MAX && loc.y > i32::MIN && loc.y
            < i32::MAX,
        _ => true,
    }
}

/// Every tile of a square lies within `size` columns and rows of its centre.
pub proof fn lemma_square_tile_bounds(center: Point, size: int, k: int)
    requires
        0 <= size,
        i32::MIN <= center.x - size,
        center.x + size <= i32::MAX,
        i32::MIN <= center.y - size,
        center.y + size <= i32::MAX,
        0 <= k < square_tiles(center, size).len(),
    ensures
        center.x - size <= square_tiles(center, size)[k].x <= center.x + size,
        center.y - size <= square_tiles(center, size)[k].y <= center.y + size,
{
    let side = square_side(size);
    lemma_div_pos_is_pos(k, side);
    lemma_mod_pos_bound(k, side);
    lemma_multiply_divide_lt(k, side, side);
}

/// An actor that stands at least four tiles away from the limits of the
/// coordinate type can aim every action of the catalog.
pub proof fn lemma_attack_in_reach(attack_type: AttackType, from: Point)
    requires
        i32::MIN + 4 <= from.x <= i32::MAX - 4,
        i32::MIN + 4 <= from.y <= i32::MAX - 4,
    ensures
        attack_in_reach(attack_type, from),
{
    let range = resolved(attack_range(attack_type), from);
    assert forall|k: int| 0 <= k < range.len() implies range_in_reach(
        attack_shape(attack_type),
        #[trigger] range[k],
    ) by {
        match attack_range(attack_type) {
            RangeType::Square { size } => {
                lemma_square_tile_bounds(from, size as int, k);
            },
            _ => {},
        }
    }
}

/// Checks whether the action can be carried out from `from_point` against
/// `target`, and returns the tile to aim at.
pub fn is_attack_valid(attack_type: &AttackType, from_point: Point, target: Point) -> (tile:
    Option<Point>)
    requires
        attack_in_reach(*attack_type, from_point),
    ensures
        tile == attack_tile(*attack_type, from_point, target),
{
    let range_type = get_attack_range(attack_type);
    let shape = get_attack_shape(attack_type);
    let range = resolve_range_at(&range_type, from_point);
    let mut k: usize = 0;
    while k < range.len()
        invariant
            0 <= k <= range@.len(),
            range@ == resolved(attack_range(*attack_type), from_point),
            shape == attack_shape(*attack_type),
            attack_in_reach(*attack_type, from_point),
            forall|j: int| 0 <= j < k ==> !attack_covers(*attack_type, #[trigger] range@[j], target),
        decreases range@.len() - k,
    {
        let tile = range[k];
        let affected_tiles = resolve_range_at(&shape, tile);
        if contains_point(&affected_tiles, target) {
            proof {
                lemma_attack_tile_first(*attack_type, from_point, target, k as int);
            }
            return Some(tile);
        }
        k = k + 1;
    }
    proof {
        lemma_attack_tile_none(*attack_type, from_point, target);
    }
    None
}

/// All the tiles that the action affects when it is aimed at `from_point`.
pub fn each_attack_target(attack_type: &AttackType, from_point: Point) -> (targets: Vec<Point>)
    requires
        range_in_reach(attack_shape(*attack_type), from_point),
    ensures
        targets@ == resolved(attack_shape(*attack_type), from_point),
{
    let shape = get_attack_shape(attack_type);
    resolve_range_at(&shape, from_point)
}

/// Turns an action aimed at `loc` into the intent that the attack pass
/// resolves.
pub fn get_attack_intent(
    attack_type: &AttackType,
    loc: Point,
    attack_modifier: Option<AttackType>,
) -> (intent: AttackIntent)
    ensures
        intent.main == *attack_type,
        intent.modifier == attack_modifier,
        intent.loc == loc,
        intent.delay == attack_delay(*attack_type),
{
    AttackIntent {
        main: *attack_type,
        modifier: attack_modifier,
        loc,
        delay: get_attack_delay(attack_type),
    }
}

/// The tiles, relative to the actor, that the action can be aimed at.
pub fn get_attack_range(attack_type: &AttackType) -> (range: RangeType)
    ensures
        range == attack_range(*attack_type),
{
    match attack_type {
        AttackType::Sweep => RangeType::Single,
        AttackType::Punch => RangeType::Square { size: 1 },
        AttackType::Stun => RangeType::Square { size: 1 },
        AttackType::Push => RangeType::Square { size: 1 },
        AttackType::Dodge => RangeType::Square { size: 2 },
        AttackType::Recover => RangeType::Single,
        AttackType::Haymaker => RangeType::Square { size: 1 },
        AttackType::Ranged => RangeType::Square { size: 3 },
    }
}

/// The power of the action.
pub fn get_attack_power(attack_type: &AttackType) -> (power: i32)
    ensures
        power == attack_power(*attack_type),
{
    match attack_type {
        AttackType::Sweep => 1,
        AttackType::Punch => 1,
        AttackType::Stun => 0,
        AttackType::Push => 0,
        AttackType::Dodge => 0,
        AttackType::Recover => 0,
        AttackType::Haymaker => 3,
        AttackType::Ranged => 1,
    }
}

/// The tiles, relative to the tile aimed at, that the action affects.
pub fn get_attack_shape(attack_type: &AttackType) -> (shape: RangeType)
    ensures
        shape == attack_shape(*attack_type),
{
    match attack_type {
        AttackType::Sweep => RangeType::Square { size: 1 },
        AttackType::Punch => RangeType::Single,
        AttackType::Stun => RangeType::Single,
        AttackType::Push => RangeType::Single,
        AttackType::Dodge => RangeType::Single,
        AttackType::Recover => RangeType::Single,
        AttackType::Haymaker => RangeType::Single,
        AttackType::Ranged => RangeType::Single,
    }
}

/// What the action adds to the speed of the actor.
pub fn get_attack_speed(attack_type: &AttackType) -> (speed: i32)
    ensures
        speed == attack_speed(*attack_type),
{
    match attack_type {
        AttackType::Sweep => 0,
        AttackType::Punch => 1,
        AttackType::Stun => 2,
        AttackType::Push => 0,
        AttackType::Dodge => 2,
        AttackType::Recover => 0,
        AttackType::Haymaker => -4,
        AttackType::Ranged => 0,
    }
}

/// What the action adds to the guard of the actor.
pub fn get_attack_guard(attack_type: &AttackType) -> (guard: i32)
    ensures
        guard == attack_guard(*attack_type),
{
    match attack_type {
        AttackType::Sweep => 0,
        AttackType::Punch => 0,
        AttackType::Stun => 0,
        AttackType::Push => 0,
        AttackType::Dodge => -2,
        AttackType::Recover => 0,
        AttackType::Haymaker => 2,
        AttackType::Ranged => -4,
    }
}

/// The number of ticks between queueing the action and its landing.
pub fn get_attack_delay(attack_type: &AttackType) -> (delay: i32)
    ensures
        delay == attack_delay(*attack_type),
{
    0
}

/// The name of the action.
pub fn get_attack_name(attack_type: &AttackType) -> (name: String)
    ensures
        name@ == attack_name(*attack_type),
{
    let name = match attack_type {
        AttackType::Sweep => "sweep",
        AttackType::Punch => "punch",
        AttackType::Stun => "stun",
        AttackType::Push => "push",
        AttackType::Dodge => "dodge",
        AttackType::Recover => "recover",
        AttackType::Haymaker => "haymaker",
        AttackType::Ranged => "shoot",
    };
    String::from_str(name)
}

/// What the action does once it lands.
pub fn get_attack_traits(attack_type: &AttackType) -> (traits: Vec<AttackTrait>)
    ensures
        traits@ == attack_traits(*attack_type),
{
    let mut traits: Vec<AttackTrait> = Vec::new();
    let only = match attack_type {
        AttackType::Sweep => AttackTrait::Damage { amount: 1 },
        AttackType::Punch => AttackTrait::Damage { amount: 1 },
        AttackType::Stun => AttackTrait::Damage { amount: 0 },
        AttackType::Push => AttackTrait::Knockback { amount: 2 },
        AttackType::Dodge => AttackTrait::Movement,
        AttackType::Recover => AttackTrait::Heal { amount: 2 },
        AttackType::Haymaker => AttackTrait::Damage { amount: 2 },
        AttackType::Ranged => AttackTrait::Damage { amount: 1 },
    };
    traits.push(only);
    assert(traits@ =~= attack_traits(*attack_type));
    traits
}

} // verus!
