use vstd::prelude::*;
use vstd::arithmetic::div_mod::lemma_fundamental_div_mod_converse;
use crate::geometry::Point;

verus! {

/// The shape of a set of tiles, relative to the tile it is resolved at.
#[derive(Clone, Debug, PartialEq)]
pub enum RangeType {
    /// No tile at all.
    Empty,
    /// The centre tile alone.
    Single,
    /// Every tile at most `size` columns and `size` rows away from the centre.
    Square { size: i32 },
    /// The rasterised line from the centre to `dest`, `dest` included.
    Path { dest: Point },
    /// The centre moved by each of the given `(dx, dy)` offsets, in order.
    Custom { offsets: Vec<(i32, i32)> },
}

/// The largest absolute coordinate that a line may start or end at.
pub const LINE_LIMIT: i32 = 0x10_0000;

/// The points that `rltk`'s Bresenham iterator yields on its way from
/// `(x0, y0)` to `(x1, y1)`, as `(x, y)` pairs in the order it yields them.
pub uninterp spec fn bresenham_line(x0: int, y0: int, x1: int, y1: int) -> Seq<(int, int)>;

/// A point as a pair of its coordinates.
pub open spec fn coordinates(p: Point) -> (int, int) {
    (p.x as int, p.y as int)
}

/// The point with the given pair of coordinates.
pub open spec fn point_at(q: (int, int)) -> Point {
    Point { x: q.0 as i32, y: q.1 as i32 }
}

/// Whether both ends of a line lie within `LINE_LIMIT` of the origin.
pub open spec fn line_in_reach(start: Point, end: Point) -> bool {
    &&& -LINE_LIMIT <= start.x <= LINE_LIMIT
    &&& -LINE_LIMIT <= start.y <= LINE_LIMIT
    &&& -LINE_LIMIT <= end.x <= LINE_LIMIT
    &&& -LINE_LIMIT <= end.y <= LINE_LIMIT
}

/// The tiles of the line from `start` towards `end`, `end` left out.
pub open spec fn line_tiles(start: Point, end: Point) -> Seq<Point> {
    bresenham_line(start.x as int, start.y as int, end.x as int, end.y as int).map_values(
        |q: (int, int)| point_at(q),
    )
}

/// The side of the square of the given `size`, in tiles; zero for a negative
/// size, which holds no tile.
pub open spec fn square_side(size: int) -> int {
    if size < 0 {
        0
    } else {
        2 * size + 1
    }
}

/// The tiles of a square, column by column from the west, each column from
/// the north.
pub open spec fn square_tiles(center: Point, size: int) -> Seq<Point> {
    let side = square_side(size);
    Seq::new(
        (side * side) as nat,
        |k: int|
            Point {
                x: (center.x - size + k / side) as i32,
                y: (center.y - size + k % side) as i32,
            },
    )
}

/// The centre moved by each of `offsets`, in order.
pub open spec fn custom_tiles(center: Point, offsets: Seq<(i32, i32)>) -> Seq<Point> {
    Seq::new(
        offsets.len(),
        |k: int| center.shifted(Point { x: offsets[k].0, y: offsets[k].1 }),
    )
}

/// The tiles that `range` covers when it is resolved at `center`, in the order
/// in which they are visited.
pub open spec fn resolved(range: RangeType, center: Point) -> Seq<Point> {
    match range {
        RangeType::Empty => Seq::empty(),
        RangeType::Single => seq![center],
        RangeType::Square { size } => square_tiles(center, size as int),
        RangeType::Path { dest } => line_tiles(center, dest).push(dest),
        RangeType::Custom { offsets } => custom_tiles(center, offsets@),
    }
}

/// Whether every tile of `range` at `center` has coordinates that fit, and,
/// for a path, whether its ends lie within `LINE_LIMIT`.
pub open spec fn range_in_reach(range: RangeType, center: Point) -> bool {
    match range {
        RangeType::Empty => true,
        RangeType::Single => true,
        RangeType::Square { size } => size < 0 || {
            &&& i32::MIN <= center.x - size
            &&& center.x + size <= i32::MAX
            &&& i32::MIN <= center.y - size
            &&& center.y + size <= i32::MAX
        },
        RangeType::Path { dest } => line_in_reach(center, dest),
        RangeType::Custom { offsets } => forall|k: int|
            0 <= k < offsets@.len() ==> center.can_shift(
                Point { x: (#[trigger] offsets@[k]).0, y: offsets@[k].1 },
            ),
    }
}

/// Runs `rltk::Bresenham::new(start, end)` to its end and returns what it
/// yielded. The contract names that sequence `bresenham_line`; nothing else is
/// claimed of it. The ends are kept within `LINE_LIMIT`, where none of the
/// iterator's sums can leave `i32`.
#[verifier::external_body]
fn bresenham(start: Point, end: Point) -> (line: Vec<Point>)
    requires
        line_in_reach(start, end),
    ensures
        line@.map_values(|p: Point| coordinates(p)) == bresenham_line(
            start.x as int,
            start.y as int,
            end.x as int,
            end.y as int,
        ),
{
    let from = rltk::Point::new(start.x, start.y);
    let to = rltk::Point::new(end.x, end.y);
    rltk::Bresenham::new(from, to).map(|p| Point::new(p.x, p.y)).collect()
}

fn resolve_square(center: Point, size: i32) -> (targets: Vec<Point>)
    requires
        range_in_reach(RangeType::Square { size }, center),
    ensures
        targets@ == square_tiles(center, size as int),
{
    let mut targets: Vec<Point> = Vec::new();
    if size < 0 {
        assert(targets@ =~= square_tiles(center, size as int));
        return targets;
    }
    let side: i64 = 2 * (size as i64) + 1;
    let lo_x: i64 = center.x as i64 - size as i64;
    let lo_y: i64 = center.y as i64 - size as i64;
    let mut i: i64 = 0;
    while i < side
        invariant
            0 <= size,
            side == 2 * size + 1,
            lo_x == center.x - size,
            lo_y == center.y - size,
            range_in_reach(RangeType::Square { size }, center),
            0 <= i <= side,
            targets@.len() == i * side,
            forall|k: int|
                0 <= k < targets@.len() ==> targets@[k] == square_tiles(center, size as int)[k],
        decreases side - i,
    {
        let mut j: i64 = 0;
        while j < side
            invariant
                0 <= size,
                side == 2 * size + 1,
                lo_x == center.x - size,
                lo_y == center.y - size,
                range_in_reach(RangeType::Square { size }, center),
                0 <= i < side,
                0 <= j <= side,
                targets@.len() == i * side + j,
                forall|k: int|
                    0 <= k < targets@.len() ==> targets@[k] == square_tiles(
                        center,
                        size as int,
                    )[k],
            decreases side - j,
        {
            proof {
                let k = i * side + j;
                lemma_fundamental_div_mod_converse(k as int, side as int, i as int, j as int);
                assert(k < side * side) by (nonlinear_arith)
                    requires
                        k == i * side + j,
                        0 <= i < side,
                        0 <= j < side,
                ;
            }
            targets.push(Point { x: (lo_x + i) as i32, y: (lo_y + j) as i32 });
            j = j + 1;
        }
        proof {
            assert((i + 1) * side == i * side + side) by (nonlinear_arith);
        }
        i = i + 1;
    }
    assert(targets@ =~= square_tiles(center, size as int));
    targets
}

fn resolve_custom(center: Point, offsets: &Vec<(i32, i32)>) -> (targets: Vec<Point>)
    requires
        forall|k: int|
            0 <= k < offsets@.len() ==> center.can_shift(
                Point { x: (#[trigger] offsets@[k]).0, y: offsets@[k].1 },
            ),
    ensures
        targets@ == custom_tiles(center, offsets@),
{
    let mut targets: Vec<Point> = Vec::new();
    let mut k: usize = 0;
    while k < offsets.len()
        invariant
            0 <= k <= offsets@.len(),
            forall|k: int|
                0 <= k < offsets@.len() ==> center.can_shift(
                    Point { x: (#[trigger] offsets@[k]).0, y: offsets@[k].1 },
                ),
            targets@.len() == k,
            forall|n: int| 0 <= n < k ==> targets@[n] == custom_tiles(center, offsets@)[n],
        decreases offsets@.len() - k,
    {
        let offset = offsets[k];
        targets.push(center.shift(Point { x: offset.0, y: offset.1 }));
        k = k + 1;
    }
    assert(targets@ =~= custom_tiles(center, offsets@));
    targets
}

/// The tiles that `range` covers when it is anchored at `center`.
pub fn resolve_range_at(range: &RangeType, center: Point) -> (targets: Vec<Point>)
    requires
        range_in_reach(*range, center),
    ensures
        targets@ == resolved(*range, center),
{
    match range {
        RangeType::Empty => Vec::new(),
        RangeType::Single => {
            let mut targets: Vec<Point> = Vec::new();
            targets.push(center);
            assert(targets@ =~= seq![center]);
            targets
        },
        RangeType::Square { size } => resolve_square(center, *size),
        RangeType::Path { dest } => {
            let mut targets = bresenham(center, *dest);
            proof {
                let pairs = targets@.map_values(|p: Point| coordinates(p));
                assert(targets@ =~= line_tiles(center, *dest)) by {
                    assert forall|k: int| 0 <= k < targets@.len() implies targets@[k]
                        == line_tiles(center, *dest)[k] by {
                        assert(pairs[k] == coordinates(targets@[k]));
                    }
                }
            }
            targets.push(*dest);
            targets
        },
        RangeType::Custom { offsets } => resolve_custom(center, offsets),
    }
}

/// Whether `tiles` holds `target`.
pub fn contains_point(tiles: &Vec<Point>, target: Point) -> (found: bool)
    ensures
        found == tiles@.contains(target),
{
    let mut k: usize = 0;
    while k < tiles.len()
        invariant
            0 <= k <= tiles@.len(),
            forall|n: int| 0 <= n < k ==> tiles@[n] != target,
        decreases tiles@.len() - k,
    {
        if tiles[k] == target {
            return true;
        }
        k = k + 1;
    }
    false
}

/// A square holds every tile that lies within `size` columns and rows of
/// its centre.
pub proof fn lemma_square_holds(center: Point, size: int, p: Point)
    requires
        0 <= size,
        center.x - size <= p.x <= center.x + size,
        center.y - size <= p.y <= center.y + size,
    ensures
        square_tiles(center, size).contains(p),
{
    let side = square_side(size);
    let i = p.x - (center.x - size);
    let j = p.y - (center.y - size);
    let k = i * side + j;
    lemma_fundamental_div_mod_converse(k, side, i, j);
    assert(0 <= k < side * side) by (nonlinear_arith)
        requires
            k == i * side + j,
            0 <= i < side,
            0 <= j < side,
    ;
    assert(square_tiles(center, size)[k] == p);
}

} // verus!
