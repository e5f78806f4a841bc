use vstd::prelude::*;
use crate::geometry::Point;

verus! {

pub const VIEW_W: i32 = 79;

pub const VIEW_H: i32 = 50;

pub const MAP_W: i32 = 120;

pub const MAP_H: i32 = 120;

/// The easternmost column at which the view can begin.
pub const MAX_X: i32 = 41;

/// The southernmost row at which the view can begin.
pub const MAX_Y: i32 = 70;

/// The larger of two numbers.
pub open spec fn larger(a: int, b: int) -> int {
    if a < b {
        b
    } else {
        a
    }
}

/// The larger of two numbers.
pub fn const_max(a: i32, b: i32) -> (m: i32)
    ensures
        m == larger(a as int, b as int),
{
    if a < b {
        b
    } else {
        a
    }
}

/// The view does not reach beyond the map.
pub proof fn lemma_view_limits()
    ensures
        MAX_X == larger(MAP_W - VIEW_W, 0),
        MAX_Y == larger(MAP_H - VIEW_H, 0),
{
}

/// The part of the map that is shown: `VIEW_W` columns and `VIEW_H` rows
/// from `origin`.
#[derive(Clone, Copy, Debug, PartialEq, Eq, Structural)]
pub struct Camera {
    pub origin: Point,
}

/// The column, or row, at which a view of `view` tiles begins that is
/// centred on `center` as far as the map allows: never before the first
/// tile, never later than `limit`.
pub open spec fn view_start(center: int, view: int, limit: int) -> int {
    let wanted = center - view / 2;
    if wanted < 0 {
        0
    } else if wanted > limit {
        limit
    } else {
        wanted
    }
}

fn start_of_view(center: i32, view: i32, limit: i32) -> (start: i32)
    requires
        0 < view,
        0 <= limit,
    ensures
        start == view_start(center as int, view as int, limit as int),
{
    let wanted: i64 = center as i64 - (view / 2) as i64;
    if wanted < 0 {
        0
    } else if wanted > limit as i64 {
        limit
    } else {
        wanted as i32
    }
}

impl Camera {
    /// Centres the view on `center`, as far as the map allows.
    pub fn update(&mut self, center: Point)
        ensures
            final(self).origin.x == view_start(center.x as int, VIEW_W as int, MAX_X as int),
            final(self).origin.y == view_start(center.y as int, VIEW_H as int, MAX_Y as int),
    {
        let origin_x = start_of_view(center.x, VIEW_W, MAX_X);
        let origin_y = start_of_view(center.y, VIEW_H, MAX_Y);
        self.origin = Point { x: origin_x, y: origin_y };
    }

    /// Whether the tile at `point` lies in the view.
    pub open spec fn shows(&self, point: Point) -> bool {
        &&& self.origin.x <= point.x < self.origin.x + VIEW_W
        &&& self.origin.y <= point.y < self.origin.y + VIEW_H
    }

    /// Whether the tile at `point` lies in the view.
    pub fn on_screen(&self, point: Point) -> (shown: bool)
        ensures
            shown == self.shows(point),
    {
        point.x >= self.origin.x && point.y >= self.origin.y && (point.x as i64) < self.origin.x as i64
            + VIEW_W as i64 && (point.y as i64) < self.origin.y as i64 + VIEW_H as i64
    }

    /// Whether the view lies on the map.
    pub open spec fn on_map(&self) -> bool {
        0 <= self.origin.x <= MAX_X && 0 <= self.origin.y <= MAX_Y
    }

    /// A walk over the tiles that are shown, row by row.
    pub fn iter(&self) -> (walk: CameraIterator)
        requires
            self.on_map(),
        ensures
            walk.wf(),
            walk.initial == self.origin,
            walk.seen() == 0,
    {
        CameraIterator::new(self.origin)
    }
}

/// A walk over the tiles of a view, row by row, each row from the west.
pub struct CameraIterator {
    pub initial: Point,
    pub x: i32,
    pub y: i32,
}

impl CameraIterator {
    /// The walk stands on a tile of the view, or before its first, or after
    /// its last.
    pub open spec fn wf(&self) -> bool {
        &&& 0 <= self.initial.x <= MAX_X
        &&& 0 <= self.initial.y <= MAX_Y
        &&& self.initial.x - 1 <= self.x < self.initial.x + VIEW_W
        &&& self.initial.y <= self.y <= self.initial.y + VIEW_H
        &&& self.x == self.initial.x - 1 ==> self.y == self.initial.y
    }

    /// The number of tiles that the walk has handed out.
    pub open spec fn seen(&self) -> int {
        if self.y >= self.initial.y + VIEW_H {
            VIEW_W * VIEW_H
        } else {
            (self.y - self.initial.y) * VIEW_W + (self.x - self.initial.x) + 1
        }
    }

    /// The number of the `k`-th tile of a view that begins at `initial`.
    pub open spec fn tile(initial: Point, k: int) -> int {
        (initial.y + k / (VIEW_W as int)) * MAP_W + initial.x + k % (VIEW_W as int)
    }

    /// A walk over the view that begins at `initial`, before its first tile.
    pub fn new(initial: Point) -> (walk: CameraIterator)
        requires
            0 <= initial.x <= MAX_X,
            0 <= initial.y <= MAX_Y,
        ensures
            walk.wf(),
            walk.initial == initial,
            walk.seen() == 0,
    {
        CameraIterator { initial, x: initial.x - 1, y: initial.y }
    }

    /// The number, on a map that is `MAP_W` wide, of the tile that the walk
    /// stands on.
    pub fn get_index(&self) -> (index: usize)
        requires
            self.wf(),
            self.initial.x <= self.x,
            self.y < self.initial.y + VIEW_H,
        ensures
            index == self.y * MAP_W + self.x,
    {
        ((self.y * MAP_W) + self.x) as usize
    }

    /// The next tile of the walk, or nothing once every tile of the view has
    /// been handed out.
    pub fn next(&mut self) -> (index: Option<usize>)
        requires
            old(self).wf(),
        ensures
            final(self).wf(),
            final(self).initial == old(self).initial,
            old(self).seen() < VIEW_W * VIEW_H ==> index == Some(
                Self::tile(old(self).initial, old(self).seen()) as usize,
            ) && final(self).seen() == old(self).seen() + 1,
            old(self).seen() >= VIEW_W * VIEW_H ==> index is None && final(self).seen()
                == VIEW_W * VIEW_H,
    {
        if self.y >= self.initial.y + VIEW_H {
            return None;
        }
        let ghost k = self.seen();
        if self.x + 1 < self.initial.x + VIEW_W {
            self.x = self.x + 1;
            proof {
                vstd::arithmetic::div_mod::lemma_fundamental_div_mod_converse(
                    k,
                    VIEW_W as int,
                    (self.y - self.initial.y) as int,
                    (self.x - self.initial.x) as int,
                );
            }
            return Some(self.get_index());
        }
        self.x = self.initial.x;
        self.y = self.y + 1;
        if self.y < self.initial.y + VIEW_H {
            proof {
                vstd::arithmetic::div_mod::lemma_fundamental_div_mod_converse(
                    k,
                    VIEW_W as int,
                    (self.y - self.initial.y) as int,
                    0,
                );
            }
            return Some(self.get_index());
        }
        None
    }
}

} // verus!
