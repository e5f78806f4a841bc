use vstd::prelude::*;

verus! {

/// A tile coordinate on the grid. `x` grows to the east, `y` to the south.
#[derive(Clone, Copy, Debug, PartialEq, Eq, Structural, Hash)]
pub struct Point {
    pub x: i32,
    pub y: i32,
}

impl Point {
    /// The point in column `x` and row `y`.
    pub fn new(x: i32, y: i32) -> (p: Point)
        ensures
            p == (Point { x, y }),
    {
        Point { x, y }
    }

    /// The point in column zero and row zero.
    pub fn zero() -> (p: Point)
        ensures
            p == (Point { x: 0, y: 0 }),
    {
        Point { x: 0, y: 0 }
    }

    /// Whether `self` moved by `delta` is still a point, that is, whether both
    /// sums fit the coordinate type.
    pub open spec fn can_shift(self, delta: Point) -> bool {
        &&& i32::MIN <= self.x + delta.x <= i32::MAX
        &&& i32::MIN <= self.y + delta.y <= i32::MAX
    }

    /// `self` moved by `delta`, coordinate by coordinate.
    pub open spec fn shifted(self, delta: Point) -> Point {
        Point { x: (self.x + delta.x) as i32, y: (self.y + delta.y) as i32 }
    }

    /// The point moved by `delta`.
    pub fn shift(self, delta: Point) -> (p: Point)
        requires
            self.can_shift(delta),
        ensures
            p == self.shifted(delta),
    {
        Point { x: self.x + delta.x, y: self.y + delta.y }
    }

    /// Like `shift`, but `None` where a sum leaves the coordinate type.
    pub fn checked_shift(self, delta: Point) -> (p: Option<Point>)
        ensures
            self.can_shift(delta) ==> p == Some(self.shifted(delta)),
            !self.can_shift(delta) ==> p is None,
    {
        match (self.x.checked_add(delta.x), self.y.checked_add(delta.y)) {
            (Some(x), Some(y)) => Some(Point { x, y }),
            _ => None,
        }
    }
}

/// The Manhattan distance between two points: the number of cardinal steps
/// from one to the other on an empty grid.
pub open spec fn manhattan(a: Point, b: Point) -> int {
    (if a.x >= b.x { a.x - b.x } else { b.x - a.x })
        + (if a.y >= b.y { a.y - b.y } else { b.y - a.y })
}

/// The number of cardinal steps from `a` to `b` on an empty grid.
pub fn manhattan_distance(a: Point, b: Point) -> (d: u64)
    ensures
        d == manhattan(a, b),
{
    let ax: i64 = a.x as i64;
    let ay: i64 = a.y as i64;
    let bx: i64 = b.x as i64;
    let by: i64 = b.y as i64;
    let dx: i64 = if ax >= bx { ax - bx } else { bx - ax };
    let dy: i64 = if ay >= by { ay - by } else { by - ay };
    (dx + dy) as u64
}

/// An axis-aligned rectangle of tiles, corners included.
#[derive(Clone, Copy, Debug, PartialEq, Eq, Structural, Hash)]
pub struct Rect {
    pub x1: i32,
    pub x2: i32,
    pub y1: i32,
    pub y2: i32,
}

/// Half of `sum`, rounded towards zero.
pub open spec fn half(sum: int) -> int {
    if sum >= 0 {
        sum / 2
    } else {
        -((-sum) / 2)
    }
}

impl Rect {
    /// Whether the tile at `p` lies in the rectangle, its edges included.
    pub open spec fn contains(self, p: Point) -> bool {
        self.x1 <= p.x <= self.x2 && self.y1 <= p.y <= self.y2
    }

    /// Whether the two rectangles share a tile, edges included.
    pub open spec fn overlaps(self, other: Rect) -> bool {
        self.x1 <= other.x2 && self.x2 >= other.x1 && self.y1 <= other.y2 && self.y2 >= other.y1
    }

    /// The tile in the middle of the rectangle, rounded towards zero.
    pub open spec fn middle(self) -> Point {
        Point { x: half(self.x1 + self.x2) as i32, y: half(self.y1 + self.y2) as i32 }
    }

    /// The rectangle with its first corner at `(x, y)` that reaches `w`
    /// columns to the east and `h` rows to the south.
    pub fn with_size(x: i32, y: i32, w: i32, h: i32) -> (rect: Rect)
        requires
            i32::MIN <= x + w <= i32::MAX,
            i32::MIN <= y + h <= i32::MAX,
        ensures
            rect == (Rect { x1: x, x2: (x + w) as i32, y1: y, y2: (y + h) as i32 }),
    {
        Rect { x1: x, x2: x + w, y1: y, y2: y + h }
    }

    /// Whether the two rectangles share a tile, edges included.
    pub fn intersect(&self, other: &Rect) -> (shared: bool)
        ensures
            shared == self.overlaps(*other),
    {
        self.x1 <= other.x2 && self.x2 >= other.x1 && self.y1 <= other.y2 && self.y2 >= other.y1
    }

    /// The tile in the middle of the rectangle.
    pub fn center(&self) -> (p: Point)
        ensures
            p == self.middle(),
    {
        let sum_x: i64 = self.x1 as i64 + self.x2 as i64;
        let sum_y: i64 = self.y1 as i64 + self.y2 as i64;
        Point { x: (sum_x / 2) as i32, y: (sum_y / 2) as i32 }
    }

    /// Whether the tile at `p` lies in the rectangle, its edges included.
    pub fn has(&self, p: Point) -> (b: bool)
        ensures
            b == self.contains(p),
    {
        self.x1 <= p.x && p.x <= self.x2 && self.y1 <= p.y && p.y <= self.y2
    }
}

} // verus!
