use vstd::prelude::*;

use crate::grid::Grid;
use crate::vec2::Vec2;
use crate::vec2::abs_of;
use crate::vec2::spec_add;
use crate::vec2::spec_rot_ccw;

verus! {

/// The mathematical state of a spiral cursor: its position, its current
/// movement direction (`around`), and the direction that points at the
/// previous ring (`inward`).
pub ghost struct CursorModel {
    pub pos: (int, int),
    pub around: (int, int),
    pub inward: (int, int),
}

/// The state a cursor starts in: at the origin, about to move right on its
/// first step (the turn rule fires immediately and swings `around` from
/// `(0, -1)` to `inward`'s `(1, 0)`).
pub open spec fn cursor_init() -> CursorModel {
    CursorModel { pos: (0int, 0int), around: (0int, -1int), inward: (1int, 0int) }
}

/// One advance of the cursor over a grid of visited cells.  The cursor
/// turns exactly when the cell ahead in the inward direction has not been
/// visited; on a turn `around` becomes the old `inward` and `inward` swings
/// a quarter turn counterclockwise.  The position then moves one step in
/// the (possibly new) `around` direction.
pub open spec fn cursor_step(c: CursorModel, grid: Map<(int, int), int>) -> CursorModel {
    let turn = !grid.contains_key(spec_add(c.pos, c.inward));
    let around = if turn {
        c.inward
    } else {
        c.around
    };
    let inward = if turn {
        spec_rot_ccw(around)
    } else {
        c.inward
    };
    CursorModel { pos: spec_add(c.pos, around), around, inward }
}

/// A coordinate magnitude no realizable walk can approach: positions move
/// by unit steps, one per recorded cell, so they stay below the address
/// space's cell count, far under this bound.
pub const COORD_BOUND: i128 = 0x4000_0000_0000_0000_0000_0000_0000_0000;

/// Whether a vector is one of the four axis-aligned unit vectors, the only
/// directions a cursor ever moves in.
pub open spec fn is_unit(v: (int, int)) -> bool {
    ||| (v.0 == 0 && (v.1 == 1 || v.1 == -1))
    ||| (v.1 == 0 && (v.0 == 1 || v.0 == -1))
}

/// The traversal engine: walks the spiral outward one cell at a time,
/// turning whenever the cell on its inward side has not been visited yet.
pub struct Cursor {
    pub pos: Vec2,
    pub around: Vec2,
    pub inward: Vec2,
}

impl View for Cursor {
    type V = CursorModel;

    open spec fn view(&self) -> CursorModel {
        CursorModel { pos: self.pos@, around: self.around@, inward: self.inward@ }
    }
}

impl Cursor {
    /// A cursor at the origin, in the starting orientation.
    pub fn new() -> (c: Cursor)
        ensures
            c@ == cursor_init(),
    {
        Cursor {
            pos: Vec2::new(0, 0),
            around: Vec2::new(0, -1),
            inward: Vec2::new(1, 0),
        }
    }

    /// Advance one cell: test the turn condition against the grid, turn if
    /// the inward cell is unvisited, then step in the `around` direction.
    pub fn next(&mut self, grid: &Grid)
        requires
            is_unit(old(self)@.around),
            is_unit(old(self)@.inward),
            abs_of(old(self)@.pos.0) < COORD_BOUND as int,
            abs_of(old(self)@.pos.1) < COORD_BOUND as int,
        ensures
            final(self)@ == cursor_step(old(self)@, grid@),
            is_unit(final(self)@.around),
            is_unit(final(self)@.inward),
            abs_of(final(self)@.pos.0) <= abs_of(old(self)@.pos.0) + 1,
            abs_of(final(self)@.pos.1) <= abs_of(old(self)@.pos.1) + 1,
    {
        let ahead = self.pos.add(self.inward);
        if !grid.contains(ahead) {
            self.around = self.inward;
            self.inward = self.around.rota();
        }
        self.pos = self.pos.add(self.around);
    }
}

} // verus!
