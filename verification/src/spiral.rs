use vstd::prelude::*;

use crate::cursor::Cursor;
use crate::cursor::CursorModel;
use crate::cursor::cursor_init;
use crate::cursor::cursor_step;
use crate::cursor::is_unit;
use crate::grid::Grid;
use crate::vec2::Vec2;
use crate::vec2::abs_of;
use crate::vec2::spec_add;
use crate::vec2::spec_sub;

verus! {

/// The value stored in a grid at a coordinate, with unvisited cells read
/// as zero.
pub open spec fn grid_value(m: Map<(int, int), int>, p: (int, int)) -> int {
    if m.contains_key(p) {
        m[p]
    } else {
        0
    }
}

/// The sum of the grid's values at a sequence of coordinates, unvisited
/// cells counting as zero.
pub open spec fn sum_at(m: Map<(int, int), int>, ps: Seq<(int, int)>) -> int
    decreases ps.len(),
{
    if ps.len() == 0 {
        0
    } else {
        sum_at(m, ps.drop_last()) + grid_value(m, ps.last())
    }
}

/// The four cells whose stored values make up a freshly reached cell's
/// value: the cells adjacent to the previous position along the path,
/// which are exactly the already-filled neighbors.
pub open spec fn neighbor_points(c: CursorModel) -> Seq<(int, int)> {
    seq![
        spec_add(c.pos, c.inward),
        spec_add(spec_add(c.pos, c.inward), c.around),
        spec_sub(spec_add(c.pos, c.inward), c.around),
        spec_sub(c.pos, c.around),
    ]
}

/// The full state of a spiral-sum run: the cursor, the grid of filled
/// cells, and the value written most recently.
pub ghost struct SpiralState {
    pub cursor: CursorModel,
    pub grid: Map<(int, int), int>,
    pub val: int,
}

/// The starting state: only the origin is filled, with value 1.
pub open spec fn spiral_init() -> SpiralState {
    SpiralState {
        cursor: cursor_init(),
        grid: Map::empty().insert((0int, 0int), 1),
        val: 1,
    }
}

/// One step of the spiral-sum run: the cursor advances over the current
/// grid, the new cell's value is the sum of its already-filled neighbors,
/// and the grid records it.
pub open spec fn spiral_step(s: SpiralState) -> SpiralState {
    let c = cursor_step(s.cursor, s.grid);
    let v = sum_at(s.grid, neighbor_points(c));
    SpiralState { cursor: c, grid: s.grid.insert(c.pos, v), val: v }
}

/// The state of the spiral-sum run after `k` steps.
pub open spec fn state_at(k: nat) -> SpiralState
    decreases k,
{
    if k == 0 {
        spiral_init()
    } else {
        spiral_step(state_at((k - 1) as nat))
    }
}

/// The spiral-sum sequence: the value written at step `k` (the seeded 1 at
/// step 0, then 1, 2, 4, 5, 10, ...).
pub open spec fn spiral_val(k: nat) -> int {
    state_at(k).val
}

/// The coordinates a sequence of cells stands at.
pub open spec fn views_of(ps: Seq<Vec2>) -> Seq<(int, int)> {
    ps.map_values(|v: Vec2| v@)
}

/// A sum over cells of a grid whose values are all at least zero is at
/// least zero.
proof fn lemma_sum_nonneg(m: Map<(int, int), int>, ps: Seq<(int, int)>)
    requires
        forall|p: (int, int)| m.contains_key(p) ==> 0 <= #[trigger] m[p],
    ensures
        0 <= sum_at(m, ps),
    decreases ps.len(),
{
    if ps.len() > 0 {
        lemma_sum_nonneg(m, ps.drop_last());
    }
}

/// Over a grid of nonnegative values, the sum over a prefix of cells is
/// bounded by the sum over all of them.
proof fn lemma_sum_take_le(m: Map<(int, int), int>, ps: Seq<(int, int)>, j: int)
    requires
        0 <= j <= ps.len(),
        forall|p: (int, int)| m.contains_key(p) ==> 0 <= #[trigger] m[p],
    ensures
        sum_at(m, ps.take(j)) <= sum_at(m, ps),
    decreases ps.len() - j,
{
    if j == ps.len() {
        assert(ps.take(j) =~= ps);
    } else {
        lemma_sum_take_le(m, ps, j + 1);
        assert(ps.take(j + 1).drop_last() =~= ps.take(j));
    }
}

/// A sum over `n` cells of a grid whose values all lie in `[0, b]` is at
/// most `n * b`.
proof fn lemma_sum_bounded(m: Map<(int, int), int>, ps: Seq<(int, int)>, b: int)
    requires
        0 <= b,
        forall|p: (int, int)| m.contains_key(p) ==> 0 <= #[trigger] m[p] <= b,
    ensures
        sum_at(m, ps) <= ps.len() * b,
    decreases ps.len(),
{
    if ps.len() == 0 {
        assert(0 * b == 0) by (nonlinear_arith);
    } else {
        lemma_sum_bounded(m, ps.drop_last(), b);
        assert((ps.len() - 1) * b + b == ps.len() * b) by (nonlinear_arith);
    }
}

/// The sum of the grid's values at the given coordinates, an unvisited
/// coordinate contributing zero.
pub fn sum_cells(grid: &Grid, ps: &[Vec2]) -> (total: i64)
    requires
        forall|p: (int, int)| grid@.contains_key(p) ==> 0 <= #[trigger] grid@[p],
        sum_at(grid@, views_of(ps@)) <= i64::MAX,
    ensures
        0 <= total,
        total as int == sum_at(grid@, views_of(ps@)),
{
    let mut total: i64 = 0;
    let mut i: usize = 0;
    proof {
        assert(views_of(ps@).take(0) =~= Seq::<(int, int)>::empty());
    }
    while i < ps.len()
        invariant
            i <= ps@.len(),
            0 <= total,
            total as int == sum_at(grid@, views_of(ps@).take(i as int)),
            forall|p: (int, int)| grid@.contains_key(p) ==> 0 <= #[trigger] grid@[p],
            sum_at(grid@, views_of(ps@)) <= i64::MAX,
        decreases ps@.len() - i,
    {
        let v: i64 = match grid.lookup(ps[i]) {
            Some(v) => v,
            None => 0,
        };
        proof {
            assert(v as int == grid_value(grid@, ps@[i as int]@));
            assert(views_of(ps@)[i as int] == ps@[i as int]@);
            assert(views_of(ps@).take(i as int + 1).drop_last() =~= views_of(ps@).take(i as int));
            assert(views_of(ps@).take(i as int + 1).last() == views_of(ps@)[i as int]);
            assert(total as int + v as int == sum_at(grid@, views_of(ps@).take(i as int + 1)));
            lemma_sum_nonneg(grid@, views_of(ps@).take(i as int + 1));
            lemma_sum_take_le(grid@, views_of(ps@), i as int + 1);
        }
        total = total + v;
        i = i + 1;
    }
    proof {
        assert(views_of(ps@).take(ps@.len() as int) =~= views_of(ps@));
    }
    total
}

/// Whether the spiral-sum sequence ever exceeds `target`.  This holds for
/// every target, since each ring's values exceed the previous ring's
/// maximum, so the sequence grows without bound; that growth argument is
/// geometric and is not derived from the step model here, so functions
/// that walk the sequence ask for it explicitly and draw their
/// termination measure from it.
pub open spec fn reaches_past(target: int) -> bool {
    exists|k: nat| #[trigger] spiral_val(k) > target
}

/// The first value of the spiral-sum sequence that strictly exceeds the
/// target.  A target below the seeded 1 is answered by the seed itself.
/// The bound on `target` keeps a sum of four filled cells, each at most
/// the target while the run continues, within the value type.
pub fn sum_to_target(target: i64) -> (r: i64)
    requires
        4 * target <= i64::MAX,
        reaches_past(target as int),
    ensures
        r > target,
        exists|k: nat|
            r as int == #[trigger] spiral_val(k) && spiral_val(k) > target && (forall|j: nat|
                j < k ==> spiral_val(j) <= target),
{
    let mut grid = Grid::new();
    grid.insert(Vec2::new(0, 0), 1);
    let mut cursor = Cursor::new();
    let mut val: i64 = 1;
    let ghost mut steps: nat = 0;
    let ghost fuel: nat = choose|k: nat| #[trigger] spiral_val(k) > target as int;
    proof {
        assert(grid@ =~= spiral_init().grid);
        assert(state_at(0) == spiral_init());
        assert(spiral_val(fuel) > target as int);
    }
    while val <= target
        invariant
            4 * target <= i64::MAX,
            spiral_val(fuel) > target as int,
            cursor@ == state_at(steps).cursor,
            grid@ == state_at(steps).grid,
            grid.spec_len() == steps + 1,
            val as int == spiral_val(steps),
            0 <= val,
            forall|j: nat| j < steps ==> #[trigger] spiral_val(j) <= target,
            forall|p: (int, int)|
                grid@.contains_key(p) ==> 0 <= #[trigger] grid@[p] && (grid@[p] <= target
                    || grid@[p] == val as int),
            is_unit(cursor@.around),
            is_unit(cursor@.inward),
            abs_of(cursor@.pos.0) <= steps,
            abs_of(cursor@.pos.1) <= steps,
        decreases fuel - steps,
    {
        proof {
            assert(steps <= fuel);
        }
        let glen = grid.len();
        proof {
            assert(glen as nat == steps + 1);
            assert(steps + 1 <= usize::MAX);
            assert(spiral_val(steps) <= target);
        }
        cursor.next(&grid);
        proof {
            assert(cursor@ == state_at(steps + 1).cursor);
        }
        let p1 = cursor.pos.add(cursor.inward);
        let p2 = p1.add(cursor.around);
        let p3 = p1.sub(cursor.around);
        let p4 = cursor.pos.sub(cursor.around);
        let pts: [Vec2; 4] = [p1, p2, p3, p4];
        proof {
            assert(views_of(pts@) =~= neighbor_points(state_at(steps + 1).cursor));
            lemma_sum_bounded(grid@, views_of(pts@), target as int);
        }
        val = sum_cells(&grid, pts.as_slice());
        proof {
            assert(val as int == spiral_val(steps + 1));
        }
        grid.insert(cursor.pos, val);
        proof {
            assert(grid@ =~= state_at(steps + 1).grid);
            steps = steps + 1;
        }
    }
    proof {
        assert(val as int == spiral_val(steps) && spiral_val(steps) > target && (forall|j: nat|
            j < steps ==> spiral_val(j) <= target));
    }
    val
}

/// After any number of steps, every filled cell holds a nonnegative
/// value, the cursor stands on a filled cell holding the value written
/// last, and that value is at least the seeded 1.
proof fn lemma_state_invariant(k: nat)
    ensures
        forall|p: (int, int)|
            state_at(k).grid.contains_key(p) ==> 0 <= #[trigger] state_at(k).grid[p],
        state_at(k).grid.contains_key(state_at(k).cursor.pos),
        state_at(k).grid[state_at(k).cursor.pos] == state_at(k).val,
        1 <= state_at(k).val,
    decreases k,
{
    if k == 0 {
        assert(state_at(0).grid.contains_key((0int, 0int)));
    } else {
        let j = (k - 1) as nat;
        lemma_state_invariant(j);
        let s = state_at(j);
        let c = cursor_step(s.cursor, s.grid);
        let ps = neighbor_points(c);
        assert(state_at(k) == spiral_step(s));
        assert(ps.last() == spec_sub(c.pos, c.around));
        assert(spec_sub(c.pos, c.around) == s.cursor.pos);
        lemma_sum_nonneg(s.grid, ps.drop_last());
        assert(state_at(k).val == sum_at(s.grid, ps.drop_last()) + grid_value(
            s.grid,
            s.cursor.pos,
        ));
    }
}

/// Law: the spiral-sum sequence never decreases, and every entry is at
/// least the seeded 1 — each new cell's sum includes the value written
/// just before it, and all filled cells are nonnegative.  (This is the
/// provable half of the run's termination argument; that the sequence
/// also grows without bound is a geometric fact not derived from the
/// step model here.)
pub proof fn lemma_spiral_val_monotone(k: nat)
    ensures
        spiral_val(k) <= spiral_val(k + 1),
        1 <= spiral_val(k),
{
    lemma_state_invariant(k);
    let s = state_at(k);
    let c = cursor_step(s.cursor, s.grid);
    let ps = neighbor_points(c);
    assert(state_at(k + 1) == spiral_step(s));
    assert(ps.last() == spec_sub(c.pos, c.around));
    assert(spec_sub(c.pos, c.around) == s.cursor.pos);
    lemma_sum_nonneg(s.grid, ps.drop_last());
    assert(spiral_val(k + 1) == sum_at(s.grid, ps.drop_last()) + grid_value(
        s.grid,
        s.cursor.pos,
    ));
}

/// Law: the run's result is determined by the target alone — any two
/// values that are a spiral-sum entry exceeding the target, with every
/// earlier entry at or below it, coincide.
pub proof fn lemma_sum_to_target_unique(target: int, r1: int, r2: int)
    requires
        exists|k: nat|
            r1 == #[trigger] spiral_val(k) && spiral_val(k) > target && (forall|j: nat|
                j < k ==> spiral_val(j) <= target),
        exists|k: nat|
            r2 == #[trigger] spiral_val(k) && spiral_val(k) > target && (forall|j: nat|
                j < k ==> spiral_val(j) <= target),
    ensures
        r1 == r2,
{
    let k1: nat = choose|k: nat|
        r1 == #[trigger] spiral_val(k) && spiral_val(k) > target && (forall|j: nat|
            j < k ==> spiral_val(j) <= target);
    let k2: nat = choose|k: nat|
        r2 == #[trigger] spiral_val(k) && spiral_val(k) > target && (forall|j: nat|
            j < k ==> spiral_val(j) <= target);
    if k1 < k2 {
        assert(spiral_val(k1) <= target);
    }
    if k2 < k1 {
        assert(spiral_val(k2) <= target);
    }
}

} // verus!
