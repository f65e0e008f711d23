use vstd::prelude::*;

use crate::vec2::Vec2;

verus! {

/// The mathematical contents of an association list of cells: entries are
/// read from left to right, so a later entry for a key overrides an earlier
/// one, exactly as `Map::insert` does.
pub open spec fn map_of(s: Seq<(Vec2, i64)>) -> Map<(int, int), int>
    decreases s.len(),
{
    if s.len() == 0 {
        Map::empty()
    } else {
        map_of(s.drop_last()).insert(s.last().0@, s.last().1 as int)
    }
}

/// A sparse mapping from grid coordinates to cell values, the memory of a
/// spiral traversal.  It grows by one entry per visited cell and is viewed
/// as a `Map` from coordinate pairs to values.
pub struct Grid {
    cells: Vec<(Vec2, i64)>,
}

impl View for Grid {
    type V = Map<(int, int), int>;

    closed spec fn view(&self) -> Map<(int, int), int> {
        map_of(self.cells@)
    }
}

impl Grid {
    /// The number of entries recorded so far (one per `insert`).
    pub closed spec fn spec_len(&self) -> nat {
        self.cells@.len()
    }

    /// An empty grid: no cell has been visited.
    pub fn new() -> (g: Grid)
        ensures
            g@ == Map::<(int, int), int>::empty(),
            g.spec_len() == 0,
    {
        Grid { cells: Vec::new() }
    }

    /// How many entries have been recorded.
    pub fn len(&self) -> (n: usize)
        ensures
            n == self.spec_len(),
    {
        self.cells.len()
    }

    /// Record the value of a cell; an existing value for the same
    /// coordinate is superseded.
    pub fn insert(&mut self, p: Vec2, v: i64)
        ensures
            final(self)@ == old(self)@.insert(p@, v as int),
            final(self).spec_len() == old(self).spec_len() + 1,
    {
        self.cells.push((p, v));
        proof {
            assert(self.cells@.drop_last() =~= old(self).cells@);
        }
    }

    /// Look a coordinate up: `Some` with the recorded value where the cell
    /// was visited, `None` where it was not.
    pub fn lookup(&self, p: Vec2) -> (r: Option<i64>)
        ensures
            match r {
                Some(v) => self@.contains_key(p@) && self@[p@] == v as int,
                None => !self@.contains_key(p@),
            },
    {
        let mut i: usize = self.cells.len();
        proof {
            assert(self.cells@.take(i as int) =~= self.cells@);
        }
        while i > 0
            invariant
                i <= self.cells@.len(),
                map_of(self.cells@).contains_key(p@) == map_of(
                    self.cells@.take(i as int),
                ).contains_key(p@),
                map_of(self.cells@).contains_key(p@) ==> map_of(self.cells@)[p@] == map_of(
                    self.cells@.take(i as int),
                )[p@],
            decreases i,
        {
            i = i - 1;
            let (q, v) = self.cells[i];
            proof {
                assert(self.cells@.take(i as int + 1).drop_last() =~= self.cells@.take(i as int));
                assert(self.cells@.take(i as int + 1).last() == (q, v));
            }
            if q == p {
                return Some(v);
            }
        }
        proof {
            assert(self.cells@.take(0) =~= Seq::<(Vec2, i64)>::empty());
        }
        None
    }

    /// Whether a coordinate has been visited.
    pub fn contains(&self, p: Vec2) -> (r: bool)
        ensures
            r == self@.contains_key(p@),
    {
        self.lookup(p).is_some()
    }
}

} // verus!
