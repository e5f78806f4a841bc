use vstd::prelude::*;
use crate::geometry::Point;

verus! {

/// One of the four cardinal directions. North is towards smaller `y`.
#[derive(Clone, Copy, Debug, PartialEq, Eq, Structural, Hash)]
pub enum Direction {
    N,
    E,
    S,
    W,
}

/// The gap between two numbers.
pub open spec fn abs_diff(a: int, b: int) -> int {
    if a >= b {
        a - b
    } else {
        b - a
    }
}

/// The direction in which `goal` mostly lies, seen from `from`: along the
/// x axis where the horizontal gap is strictly the larger one, else along the
/// y axis, and none where the vertical gap is zero too.
pub open spec fn direction_towards(from: Point, goal: Point) -> Option<Direction> {
    if abs_diff(goal.x as int, from.x as int) > abs_diff(goal.y as int, from.y as int) {
        if goal.x > from.x {
            Some(Direction::E)
        } else {
            Some(Direction::W)
        }
    } else if goal.y > from.y {
        Some(Direction::S)
    } else if goal.y < from.y {
        Some(Direction::N)
    } else {
        None
    }
}

/// The unit step that `direction` stands for.
pub open spec fn direction_delta(direction: Direction) -> Point {
    match direction {
        Direction::N => Point { x: 0, y: -1i32 },
        Direction::E => Point { x: 1, y: 0 },
        Direction::S => Point { x: 0, y: 1 },
        Direction::W => Point { x: -1i32, y: 0 },
    }
}

impl Direction {
    /// The direction in which `goal` mostly lies, seen from `from`.
    pub fn get_direction_towards(from: Point, goal: Point) -> (d: Option<Direction>)
        ensures
            d == direction_towards(from, goal),
    {
        let dx: i64 = goal.x as i64 - from.x as i64;
        let dy: i64 = goal.y as i64 - from.y as i64;
        let adx: i64 = if dx >= 0 { dx } else { -dx };
        let ady: i64 = if dy >= 0 { dy } else { -dy };
        if adx > ady {
            if dx > 0 {
                Some(Direction::E)
            } else {
                Some(Direction::W)
            }
        } else if dy > 0 {
            Some(Direction::S)
        } else if dy < 0 {
            Some(Direction::N)
        } else {
            None
        }
    }

    /// The unit step that the direction stands for.
    pub fn delta(self) -> (p: Point)
        ensures
            p == direction_delta(self),
    {
        match self {
            Direction::N => Point { x: 0, y: -1 },
            Direction::E => Point { x: 1, y: 0 },
            Direction::S => Point { x: 0, y: 1 },
            Direction::W => Point { x: -1, y: 0 },
        }
    }

    /// The tile one step from `from` in `direction`.
    pub fn point_in_direction(from: Point, direction: Direction) -> (p: Point)
        requires
            from.can_shift(direction_delta(direction)),
        ensures
            p == from.shifted(direction_delta(direction)),
    {
        from.shift(direction.delta())
    }
}

} // verus!
