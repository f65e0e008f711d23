use vstd::prelude::*;

verus! {

/// A two-dimensional integer vector: the coordinate type of the spiral grid.
///
/// Equality is structural (both components equal).  The coordinate type is
/// wide enough that a walk of any realizable length stays far away from its
/// bounds.
#[derive(Clone, Copy, Debug, PartialEq, Eq, Structural)]
pub struct Vec2 {
    pub x: i128,
    pub y: i128,
}

impl View for Vec2 {
    type V = (int, int);

    open spec fn view(&self) -> (int, int) {
        (self.x as int, self.y as int)
    }
}

/// The absolute value of an integer.
pub open spec fn abs_of(x: int) -> int {
    if x < 0 {
        -x
    } else {
        x
    }
}

/// Component-wise sum of two integer pairs.
pub open spec fn spec_add(a: (int, int), b: (int, int)) -> (int, int) {
    (a.0 + b.0, a.1 + b.1)
}

/// Component-wise difference of two integer pairs.
pub open spec fn spec_sub(a: (int, int), b: (int, int)) -> (int, int) {
    (a.0 - b.0, a.1 - b.1)
}

/// Component-wise negation of an integer pair.
pub open spec fn spec_neg(a: (int, int)) -> (int, int) {
    (-a.0, -a.1)
}

/// Counterclockwise quarter turn: `(x, y)` becomes `(-y, x)`.
pub open spec fn spec_rot_ccw(v: (int, int)) -> (int, int) {
    (-v.1, v.0)
}

/// Clockwise quarter turn: `(x, y)` becomes `(y, -x)`.
pub open spec fn spec_rot_cw(v: (int, int)) -> (int, int) {
    (v.1, -v.0)
}

impl Vec2 {
    pub fn new(x: i128, y: i128) -> (r: Vec2)
        ensures
            r@ == (x as int, y as int),
    {
        Vec2 { x, y }
    }

    /// Component-wise addition.
    pub fn add(self, other: Vec2) -> (r: Vec2)
        requires
            i128::MIN <= self@.0 + other@.0 <= i128::MAX,
            i128::MIN <= self@.1 + other@.1 <= i128::MAX,
        ensures
            r@ == spec_add(self@, other@),
    {
        Vec2 { x: self.x + other.x, y: self.y + other.y }
    }

    /// Component-wise subtraction.
    pub fn sub(self, other: Vec2) -> (r: Vec2)
        requires
            i128::MIN <= self@.0 - other@.0 <= i128::MAX,
            i128::MIN <= self@.1 - other@.1 <= i128::MAX,
        ensures
            r@ == spec_sub(self@, other@),
    {
        Vec2 { x: self.x - other.x, y: self.y - other.y }
    }

    /// Component-wise negation.
    pub fn neg(self) -> (r: Vec2)
        requires
            self@.0 != i128::MIN,
            self@.1 != i128::MIN,
        ensures
            r@ == spec_neg(self@),
    {
        Vec2 { x: -self.x, y: -self.y }
    }

    /// Counterclockwise quarter turn.
    pub fn rota(&self) -> (r: Vec2)
        requires
            self@.0 != i128::MIN,
            self@.1 != i128::MIN,
        ensures
            r@ == spec_rot_ccw(self@),
    {
        Vec2 { x: -self.y, y: self.x }
    }

    /// Clockwise quarter turn.
    pub fn rota_cw(&self) -> (r: Vec2)
        requires
            self@.0 != i128::MIN,
            self@.1 != i128::MIN,
        ensures
            r@ == spec_rot_cw(self@),
    {
        Vec2 { x: self.y, y: -self.x }
    }
}

} // verus!
