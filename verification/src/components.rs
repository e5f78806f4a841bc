use vstd::prelude::*;
use crate::direction::Direction;
use crate::geometry::{Point, Rect};
use crate::monster_part::{
    deltas_fit, lemma_moved_offsets, lemma_shift_keeps_distinct, moved_offsets,
    moved_part_offsets, part_can_shift, parts_moved, parts_offsets, MonsterPart,
};
use crate::move_type::AttackType;
use crate::sys_ai::Behavior;

verus! {

/// The anchor tile of an actor. It is the one source of truth for where the
/// actor stands.
#[derive(Clone, Copy, Debug, PartialEq, Eq, Structural)]
pub struct Position {
    pub x: i32,
    pub y: i32,
}

impl Position {
    /// The anchor as a point.
    pub fn as_point(&self) -> (p: Point)
        ensures
            p == (Point { x: self.x, y: self.y }),
    {
        Point { x: self.x, y: self.y }
    }
}

/// The tiles that an actor sees.
#[derive(Clone, Debug)]
pub struct Viewshed {
    pub visible: Vec<Point>,
    pub dirty: bool,
    pub range: i32,
}

/// The turn-eligibility flag: an actor that holds one may decide this turn.
#[derive(Clone, Copy, Debug, PartialEq, Eq)]
pub struct CanActFlag {
    pub is_reaction: bool,
    pub reaction_target: Option<usize>,
}

#[derive(Clone, Copy, Debug, PartialEq, Eq, Structural)]
pub struct Health {
    pub current: i32,
    pub max: i32,
}

/// A queued attack: the action, an optional modifier, the tile it is aimed
/// at, and the number of ticks that must still pass before it lands.
#[derive(Clone, Copy, Debug, PartialEq, Eq)]
pub struct AttackIntent {
    pub main: AttackType,
    pub modifier: Option<AttackType>,
    pub loc: Point,
    pub delay: i32,
}

/// A queued step to the tile `loc`.
#[derive(Clone, Copy, Debug, PartialEq, Eq, Structural)]
pub struct MoveIntent {
    pub loc: Point,
}

/// A queued shift of the parts of a footprint: part `i` moves by the `i`-th
/// of the offsets, and a part for which there is none stays.
#[derive(Clone, Debug, PartialEq, Eq)]
pub struct PartMoveIntent {
    pub part_delta: Vec<Point>,
}

/// The number that the weights of a moveset are shares of: a weight of 25 is
/// a quarter.
pub const WEIGHT_SCALE: u32 = 100;

/// The actions that an actor may choose, each with its weight in shares of
/// `WEIGHT_SCALE`.
#[derive(Clone, Debug)]
pub struct Moveset {
    pub moves: Vec<(AttackType, u32)>,
}

#[derive(Clone, Copy, Debug, PartialEq, Eq)]
pub struct AiState {
    pub status: Behavior,
}

/// The footprint of an actor that spans several tiles: its parts, which way
/// it faces, and the box that holds all of its offsets.
#[derive(Clone, Debug)]
pub struct MultiTile {
    pub part_list: Vec<MonsterPart>,
    pub facing: Direction,
    pub bounds: Rect,
}

impl MultiTile {
    /// The offsets of all parts, in order. The anchor is not among them
    /// unless a part names it.
    pub open spec fn footprint(&self) -> Seq<Point> {
        parts_offsets(self.part_list@)
    }

    /// No part holds an offset twice: each part maps its offsets to their
    /// glyphs.
    pub open spec fn distinct_parts(&self) -> bool {
        forall|p: int|
            0 <= p < self.part_list@.len() ==> (#[trigger] self.part_list@[p]).distinct_offsets()
    }

    /// Whether no part holds an offset twice.
    pub fn has_distinct_parts(&self) -> (ok: bool)
        ensures
            ok == self.distinct_parts(),
    {
        let mut p: usize = 0;
        while p < self.part_list.len()
            invariant
                p <= self.part_list@.len(),
                forall|q: int| 0 <= q < p ==> (#[trigger] self.part_list@[q]).distinct_offsets(),
            decreases self.part_list@.len() - p,
        {
            if !self.part_list[p].has_distinct_offsets() {
                return false;
            }
            p = p + 1;
        }
        true
    }

    /// The offsets of all parts, in order.
    pub fn offsets(&self) -> (cells: Vec<Point>)
        ensures
            cells@ == self.footprint(),
    {
        let mut cells: Vec<Point> = Vec::new();
        let mut p: usize = 0;
        while p < self.part_list.len()
            invariant
                0 <= p <= self.part_list@.len(),
                cells@ == parts_offsets(self.part_list@.take(p as int)),
            decreases self.part_list@.len() - p,
        {
            let part = &self.part_list[p];
            let ghost before = cells@;
            let mut c: usize = 0;
            while c < part.symbol_map.len()
                invariant
                    0 <= c <= part.symbol_map@.len(),
                    cells@ == before + part.offsets().take(c as int),
                decreases part.symbol_map@.len() - c,
            {
                cells.push(part.symbol_map[c].0);
                assert(part.offsets().take(c + 1) =~= part.offsets().take(c as int).push(
                    part.symbol_map@[c as int].0,
                ));
                c = c + 1;
            }
            proof {
                assert(part.offsets().take(c as int) =~= part.offsets());
                assert(self.part_list@.take(p + 1).drop_last() =~= self.part_list@.take(p as int));
                assert(self.part_list@.take(p + 1).last() == *part);
            }
            p = p + 1;
        }
        assert(self.part_list@.take(p as int) =~= self.part_list@);
        cells
    }
}

impl MultiTile {
    /// The footprint once `deltas` have been applied to the parts.
    pub open spec fn moved_footprint(&self, deltas: Seq<Point>) -> Seq<Point> {
        moved_offsets(self.part_list@, deltas, self.part_list@.len() as int)
    }

    /// The footprint that a shift of the parts by `deltas` would give, or
    /// nothing where the shift cannot be applied.
    pub fn moved_cells(&self, deltas: &Vec<Point>) -> (cells: Option<Vec<Point>>)
        ensures
            cells is Some <==> deltas_fit(self.part_list@, deltas@),
            cells matches Some(moved) ==> moved@ == self.moved_footprint(deltas@),
    {
        if deltas.len() > self.part_list.len() {
            return None;
        }
        let mut cells: Vec<Point> = Vec::new();
        let mut p: usize = 0;
        while p < self.part_list.len()
            invariant
                deltas@.len() <= self.part_list@.len(),
                p <= self.part_list@.len(),
                cells@ == moved_offsets(self.part_list@, deltas@, p as int),
                forall|i: int|
                    0 <= i < p && i < deltas@.len() ==> part_can_shift(
                        #[trigger] self.part_list@[i],
                        deltas@[i],
                    ),
            decreases self.part_list@.len() - p,
        {
            let part = &self.part_list[p];
            let ghost before = cells@;
            let ghost want = moved_part_offsets(self.part_list@, deltas@, p as int);
            let mut c: usize = 0;
            while c < part.symbol_map.len()
                invariant
                    p < self.part_list@.len(),
                    *part == self.part_list@[p as int],
                    want == moved_part_offsets(self.part_list@, deltas@, p as int),
                    c <= part.symbol_map@.len(),
                    cells@ == before + want.take(c as int),
                    p < deltas@.len() ==> forall|j: int|
                        0 <= j < c ==> (#[trigger] part.symbol_map@[j]).0.can_shift(
                            deltas@[p as int],
                        ),
                decreases part.symbol_map@.len() - c,
            {
                let offset = part.symbol_map[c].0;
                let moved = if p < deltas.len() {
                    match offset.checked_shift(deltas[p]) {
                        Some(moved) => moved,
                        None => {
                            return None;
                        },
                    }
                } else {
                    offset
                };
                cells.push(moved);
                assert(want.take(c + 1) =~= want.take(c as int).push(moved));
                c = c + 1;
            }
            assert(want.take(c as int) =~= want);
            p = p + 1;
        }
        Some(cells)
    }

    /// Moves part `i` by the `i`-th of `deltas`.
    pub fn shift_parts(&mut self, deltas: &Vec<Point>)
        requires
            deltas_fit(old(self).part_list@, deltas@),
        ensures
            final(self).facing == old(self).facing,
            final(self).bounds == old(self).bounds,
            parts_moved(old(self).part_list@, final(self).part_list@, deltas@),
            final(self).footprint() == old(self).moved_footprint(deltas@),
            forall|i: int|
                0 <= i < old(self).part_list@.len() && (#[trigger] old(
                    self,
                ).part_list@[i]).distinct_offsets() ==> final(self).part_list@[i].distinct_offsets(),
    {
        let mut p: usize = 0;
        while p < deltas.len()
            invariant
                deltas_fit(old(self).part_list@, deltas@),
                p <= deltas@.len(),
                self.facing == old(self).facing,
                self.bounds == old(self).bounds,
                self.part_list@.len() == old(self).part_list@.len(),
                forall|i: int|
                    p <= i < self.part_list@.len() ==> #[trigger] self.part_list@[i] == old(
                        self,
                    ).part_list@[i],
                forall|i: int|
                    0 <= i < p ==> {
                        &&& (#[trigger] self.part_list@[i]).health == old(self).part_list@[i].health
                        &&& self.part_list@[i].max_health == old(self).part_list@[i].max_health
                        &&& self.part_list@[i].symbol_map@.len() == old(
                            self,
                        ).part_list@[i].symbol_map@.len()
                        &&& forall|c: int|
                            0 <= c < self.part_list@[i].symbol_map@.len()
                                ==> #[trigger] self.part_list@[i].symbol_map@[c] == (
                                old(self).part_list@[i].symbol_map@[c].0.shifted(deltas@[i]),
                                old(self).part_list@[i].symbol_map@[c].1,
                            )
                    },
            decreases deltas@.len() - p,
        {
            let delta = deltas[p];
            let ghost start = self.part_list@[p as int];
            assert(part_can_shift(old(self).part_list@[p as int], deltas@[p as int]));
            let part = &mut self.part_list[p];
            let mut c: usize = 0;
            while c < part.symbol_map.len()
                invariant
                    part_can_shift(start, delta),
                    c <= part.symbol_map@.len(),
                    part.health == start.health,
                    part.max_health == start.max_health,
                    part.symbol_map@.len() == start.symbol_map@.len(),
                    forall|j: int|
                        c <= j < part.symbol_map@.len() ==> #[trigger] part.symbol_map@[j]
                            == start.symbol_map@[j],
                    forall|j: int|
                        0 <= j < c ==> #[trigger] part.symbol_map@[j] == (
                            start.symbol_map@[j].0.shifted(delta),
                            start.symbol_map@[j].1,
                        ),
                decreases part.symbol_map@.len() - c,
            {
                let cell = part.symbol_map[c];
                assert(start.symbol_map@[c as int].0.can_shift(delta));
                part.symbol_map.set(c, (cell.0.shift(delta), cell.1));
                c = c + 1;
            }
            p = p + 1;
        }
        proof {
            let before = old(self).part_list@;
            let after = self.part_list@;
            assert forall|i: int| 0 <= i < before.len() implies {
                &&& (#[trigger] after[i]).health == before[i].health
                &&& after[i].max_health == before[i].max_health
                &&& after[i].symbol_map@.len() == before[i].symbol_map@.len()
                &&& after[i].offsets() == moved_part_offsets(before, deltas@, i)
                &&& forall|c: int|
                    0 <= c < before[i].symbol_map@.len() ==> (
                    #[trigger] after[i].symbol_map@[c]).1 == before[i].symbol_map@[c].1
            } by {
                if i < deltas@.len() {
                    assert(after[i].offsets() =~= moved_part_offsets(before, deltas@, i));
                } else {
                    assert(after[i] == before[i]);
                }
            }
            lemma_moved_offsets(before, after, deltas@, before.len() as int);
            assert(after.take(before.len() as int) =~= after);
            assert forall|i: int|
                0 <= i < before.len() && (#[trigger] before[i]).distinct_offsets()
                implies after[i].distinct_offsets() by {
                if i < deltas@.len() {
                    lemma_shift_keeps_distinct(before[i], after[i], deltas@[i]);
                }
            }
        }
    }
}

/// The footprint of an actor that may or may not span several tiles.
pub open spec fn footprint_of(multi: Option<&MultiTile>) -> Seq<Point> {
    match multi {
        Some(multi) => multi.footprint(),
        None => Seq::empty(),
    }
}

/// The offsets of the footprint of an actor that may or may not span
/// several tiles.
pub fn footprint_cells(multi: Option<&MultiTile>) -> (cells: Vec<Point>)
    ensures
        cells@ == footprint_of(multi),
{
    match multi {
        Some(multi) => multi.offsets(),
        None => Vec::new(),
    }
}

/// Whether the footprint, if there is one, holds no offset twice in a part.
pub open spec fn parts_distinct(multi: Option<MultiTile>) -> bool {
    multi matches Some(m) ==> m.distinct_parts()
}

/// Whether the footprint, if there is one, holds no offset twice in a part.
pub fn has_parts_distinct(multi: &Option<MultiTile>) -> (ok: bool)
    ensures
        ok == parts_distinct(*multi),
{
    match multi {
        Some(m) => m.has_distinct_parts(),
        None => true,
    }
}

} // verus!
