use vstd::prelude::*;
use crate::geometry::Point;

verus! {

/// One part of a creature that spans several tiles: the tiles it owns, each
/// as an offset from the creature's anchor with the glyph drawn there, and the
/// part's own health.
#[derive(Clone, Debug)]
pub struct MonsterPart {
    pub symbol_map: Vec<(Point, u16)>,
    pub health: i32,
    pub max_health: i32,
}

impl MonsterPart {
    /// The offsets that the part owns, in order.
    pub open spec fn offsets(&self) -> Seq<Point> {
        self.symbol_map@.map_values(|cell: (Point, u16)| cell.0)
    }

    /// No offset occurs twice in the part.
    pub open spec fn distinct_offsets(&self) -> bool {
        forall|i: int, j: int|
            0 <= i < j < self.symbol_map@.len() ==> (#[trigger] self.symbol_map@[i]).0 != (
            #[trigger] self.symbol_map@[j]).0
    }

    /// Whether no offset occurs twice in the part.
    pub fn has_distinct_offsets(&self) -> (ok: bool)
        ensures
            ok == self.distinct_offsets(),
    {
        let count = self.symbol_map.len();
        let mut j: usize = 0;
        while j < count
            invariant
                count == self.symbol_map@.len(),
                j <= count,
                forall|a: int, b: int|
                    0 <= a < b < j ==> (#[trigger] self.symbol_map@[a]).0 != (
                    #[trigger] self.symbol_map@[b]).0,
            decreases count - j,
        {
            let mut i: usize = 0;
            while i < j
                invariant
                    count == self.symbol_map@.len(),
                    j < count,
                    i <= j,
                    forall|a: int|
                        0 <= a < i ==> (#[trigger] self.symbol_map@[a]).0 != self.symbol_map@[j as int].0,
                decreases j - i,
            {
                let one = self.symbol_map[i].0;
                let other = self.symbol_map[j].0;
                if one.x == other.x && one.y == other.y {
                    assert(self.symbol_map@[i as int].0 == self.symbol_map@[j as int].0);
                    return false;
                }
                i = i + 1;
            }
            j = j + 1;
        }
        true
    }
}

/// The offsets of all of `parts`, part after part.
pub open spec fn parts_offsets(parts: Seq<MonsterPart>) -> Seq<Point>
    decreases parts.len(),
{
    if parts.len() == 0 {
        Seq::empty()
    } else {
        parts_offsets(parts.drop_last()) + parts.last().offsets()
    }
}

/// The offsets of a list of parts depend on the cells of the parts alone,
/// not on their health.
pub proof fn lemma_offsets_by_cells(one: Seq<MonsterPart>, other: Seq<MonsterPart>)
    requires
        one.len() == other.len(),
        forall|p: int| 0 <= p < one.len() ==> (#[trigger] one[p]).symbol_map@ == other[p].symbol_map@,
    ensures
        parts_offsets(one) == parts_offsets(other),
    decreases one.len(),
{
    if one.len() > 0 {
        assert(one.last().symbol_map@ == other.last().symbol_map@);
        assert forall|p: int| 0 <= p < one.drop_last().len() implies (
        #[trigger] one.drop_last()[p]).symbol_map@ == other.drop_last()[p].symbol_map@ by {
            assert(one[p].symbol_map@ == other[p].symbol_map@);
        }
        lemma_offsets_by_cells(one.drop_last(), other.drop_last());
    }
}

/// Whether every offset of `part` can move by `delta` without leaving the
/// coordinate type.
pub open spec fn part_can_shift(part: MonsterPart, delta: Point) -> bool {
    forall|c: int|
        0 <= c < part.symbol_map@.len() ==> (#[trigger] part.symbol_map@[c]).0.can_shift(delta)
}

/// Whether `deltas` can be applied to `parts`: there is a part for each of
/// them, and each part can move by its own.
pub open spec fn deltas_fit(parts: Seq<MonsterPart>, deltas: Seq<Point>) -> bool {
    &&& deltas.len() <= parts.len()
    &&& forall|i: int| 0 <= i < deltas.len() ==> part_can_shift(#[trigger] parts[i], deltas[i])
}

/// The offsets of part `i` of `parts` once `deltas` have been applied.
pub open spec fn moved_part_offsets(parts: Seq<MonsterPart>, deltas: Seq<Point>, i: int) -> Seq<
    Point,
> {
    if i < deltas.len() {
        parts[i].offsets().map_values(|o: Point| o.shifted(deltas[i]))
    } else {
        parts[i].offsets()
    }
}

/// The offsets of the first `upto` of `parts`, part after part, once
/// `deltas` have been applied.
pub open spec fn moved_offsets(parts: Seq<MonsterPart>, deltas: Seq<Point>, upto: int) -> Seq<
    Point,
>
    decreases upto,
{
    if upto <= 0 {
        Seq::empty()
    } else {
        moved_offsets(parts, deltas, upto - 1) + moved_part_offsets(parts, deltas, upto - 1)
    }
}

/// `after` is `before` with `deltas` applied: part `i` has every offset
/// moved by the `i`-th of `deltas`, and nothing else has changed.
pub open spec fn parts_moved(
    before: Seq<MonsterPart>,
    after: Seq<MonsterPart>,
    deltas: Seq<Point>,
) -> bool {
    &&& after.len() == before.len()
    &&& forall|i: int|
        0 <= i < before.len() ==> {
            &&& (#[trigger] after[i]).health == before[i].health
            &&& after[i].max_health == before[i].max_health
            &&& after[i].symbol_map@.len() == before[i].symbol_map@.len()
            &&& after[i].offsets() == moved_part_offsets(before, deltas, i)
            &&& forall|c: int|
                0 <= c < before[i].symbol_map@.len() ==> (#[trigger] after[i].symbol_map@[c]).1
                    == before[i].symbol_map@[c].1
        }
}

/// The offsets of parts that have moved are the moved offsets of the parts.
pub proof fn lemma_moved_offsets(
    before: Seq<MonsterPart>,
    after: Seq<MonsterPart>,
    deltas: Seq<Point>,
    upto: int,
)
    requires
        parts_moved(before, after, deltas),
        0 <= upto <= before.len(),
    ensures
        parts_offsets(after.take(upto)) == moved_offsets(before, deltas, upto),
    decreases upto,
{
    if upto > 0 {
        lemma_moved_offsets(before, after, deltas, upto - 1);
        assert(after.take(upto).drop_last() =~= after.take(upto - 1));
        assert(after.take(upto).last() == after[upto - 1]);
    }
}

/// A shift keeps the offsets of a part apart from one another.
pub proof fn lemma_shift_keeps_distinct(before: MonsterPart, after: MonsterPart, delta: Point)
    requires
        before.distinct_offsets(),
        part_can_shift(before, delta),
        after.symbol_map@.len() == before.symbol_map@.len(),
        after.offsets() == before.offsets().map_values(|o: Point| o.shifted(delta)),
    ensures
        after.distinct_offsets(),
{
    assert forall|i: int, j: int| 0 <= i < j < after.symbol_map@.len() implies (
    #[trigger] after.symbol_map@[i]).0 != (#[trigger] after.symbol_map@[j]).0 by {
        assert(after.offsets()[i] == before.offsets()[i].shifted(delta));
        assert(after.offsets()[j] == before.offsets()[j].shifted(delta));
        assert(before.symbol_map@[i].0 != before.symbol_map@[j].0);
        assert(before.symbol_map@[i].0.can_shift(delta));
        assert(before.symbol_map@[j].0.can_shift(delta));
    }
}

} // verus!
