use vstd::prelude::*;

use crate::vec2::abs_of;

verus! {

/// Whether cell `n` of the spiral lies on ring `r`: ring 0 is the single
/// center cell, and ring `r >= 1` holds the cells strictly between the
/// squares of the two adjacent odd side lengths `2r - 1` and `2r + 1`.
pub open spec fn is_ring_of(n: int, r: int) -> bool {
    &&& 0 <= r
    &&& (r == 0 || (2 * r - 1) * (2 * r - 1) < n)
    &&& n <= (2 * r + 1) * (2 * r + 1)
}

/// The ring that cell `n` lies on.
pub open spec fn spiral_ring(n: int) -> int {
    choose|r: int| is_ring_of(n, r)
}

/// Every cell number `n >= 1` lies on some ring.
pub proof fn lemma_ring_exists(n: int)
    requires
        n >= 1,
    ensures
        exists|r: int| is_ring_of(n, r),
    decreases n,
{
    if n == 1 {
        assert((2 * 0 + 1) * (2 * 0 + 1) == 1) by (nonlinear_arith);
        assert(is_ring_of(1, 0));
    } else {
        lemma_ring_exists(n - 1);
        let r0: int = choose|r: int| #[trigger] is_ring_of(n - 1, r);
        if n <= (2 * r0 + 1) * (2 * r0 + 1) {
            assert(is_ring_of(n, r0));
        } else {
            let r1: int = r0 + 1;
            assert(n == (2 * r0 + 1) * (2 * r0 + 1) + 1);
            assert(n <= (2 * r1 + 1) * (2 * r1 + 1)) by (nonlinear_arith)
                requires
                    n == (2 * r0 + 1) * (2 * r0 + 1) + 1,
                    r1 == r0 + 1,
                    r0 >= 0,
            ;
            assert(is_ring_of(n, r1));
        }
    }
}

/// A cell lies on at most one ring.
pub proof fn lemma_ring_unique(n: int, r1: int, r2: int)
    requires
        n >= 1,
        is_ring_of(n, r1),
        is_ring_of(n, r2),
    ensures
        r1 == r2,
{
    if r1 < r2 {
        assert((2 * r1 + 1) * (2 * r1 + 1) <= (2 * r2 - 1) * (2 * r2 - 1)) by (nonlinear_arith)
            requires
                0 <= r1,
                r1 < r2,
        ;
    }
    if r2 < r1 {
        assert((2 * r2 + 1) * (2 * r2 + 1) <= (2 * r1 - 1) * (2 * r1 - 1)) by (nonlinear_arith)
            requires
                0 <= r2,
                r2 < r1,
        ;
    }
}

/// `spiral_ring(n)` is the ring of `n`, for every cell number `n >= 1`.
pub proof fn lemma_spiral_ring(n: int)
    requires
        n >= 1,
    ensures
        is_ring_of(n, spiral_ring(n)),
    decreases n,
{
    lemma_ring_exists(n);
}

/// The Manhattan distance from cell `n` back to the center: the ring index
/// (steps outward), plus the lateral offset of `n` from the nearest side
/// midpoint of its ring.  `diff` counts steps along the ring from `n` back
/// to the ring's last cell; each side is `2r` cells long with its midpoint
/// `r` cells from either corner.
pub open spec fn spiral_dist(n: int) -> int {
    let r = spiral_ring(n);
    if r == 0 {
        0
    } else {
        let side = 2 * r + 1;
        let diff = side * side - n;
        r + abs_of(diff % (2 * r) - r)
    }
}

/// Whether `k * k < n`, for a factor small enough that the square cannot
/// overflow.
fn square_lt(k: i128, n: i128) -> (b: bool)
    requires
        0 <= k <= 0x7fff_ffff_ffff_ffff,
    ensures
        b == (k * k < n),
{
    proof {
        assert(k * k <= 0x7fff_ffff_ffff_ffff * 0x7fff_ffff_ffff_ffff) by (nonlinear_arith)
            requires
                0 <= k <= 0x7fff_ffff_ffff_ffff,
        ;
    }
    k * k < n
}

/// The index of the ring that cell `num` lies on, found as the ceiling of
/// the square root of `num`, halved.
pub fn find_ring(num: i64) -> (r: i64)
    requires
        num >= 1,
    ensures
        0 <= r,
        is_ring_of(num as int, r as int),
        r as int == spiral_ring(num as int),
{
    let n: i128 = num as i128;
    let mut k: i128 = 0;
    while square_lt(k, n)
        invariant
            n == num as int,
            num >= 1,
            0 <= k <= n,
            k == 0 || (k - 1) * (k - 1) < n,
        decreases n - k,
    {
        proof {
            assert(k < n) by (nonlinear_arith)
                requires
                    0 <= k,
                    k * k < n,
                    n >= 1,
            ;
        }
        k = k + 1;
    }
    assert(k >= 1);
    let r: i128 = k / 2;
    proof {
        let ri: int = r as int;
        let ki: int = k as int;
        if ki % 2 == 0 {
            assert(ki == 2 * ri);
            assert(is_ring_of(num as int, ri)) by (nonlinear_arith)
                requires
                    ki == 2 * ri,
                    ki >= 1,
                    (ki - 1) * (ki - 1) < num as int,
                    num as int <= ki * ki,
            ;
        } else {
            assert(ki == 2 * ri + 1);
            assert(is_ring_of(num as int, ri)) by (nonlinear_arith)
                requires
                    ki == 2 * ri + 1,
                    ki >= 1,
                    num >= 1,
                    (ki - 1) * (ki - 1) < num as int,
                    num as int <= ki * ki,
            ;
        }
        lemma_spiral_ring(num as int);
        lemma_ring_unique(num as int, ri, spiral_ring(num as int));
    }
    r as i64
}

/// The Manhattan distance from cell `num` to the center cell, computed in
/// closed form from the cell's ring.
pub fn manhattan_distance(num: i64) -> (d: i64)
    requires
        num >= 1,
    ensures
        0 <= d,
        d as int == spiral_dist(num as int),
{
    let ring64 = find_ring(num);
    if ring64 == 0 {
        return 0;
    }
    let ring: i128 = ring64 as i128;
    proof {
        assert(2 * ring < 0x1_0000_0000) by (nonlinear_arith)
            requires
                ring >= 1,
                (2 * ring as int - 1) * (2 * ring as int - 1) < num as int,
                num as int <= i64::MAX,
        ;
    }
    let side: i128 = 2 * ring + 1;
    proof {
        assert(side * side <= 0x1_0000_0001 * 0x1_0000_0001) by (nonlinear_arith)
            requires
                1 <= side <= 0x1_0000_0001,
        ;
        assert(num as int <= side as int * side as int);
    }
    let diff: i128 = side * side - (num as i128);
    let m: i128 = diff % (2 * ring);
    let off: i128 = if m < ring {
        ring - m
    } else {
        m - ring
    };
    let d: i128 = ring + off;
    proof {
        assert(0 <= m < 2 * ring);
        assert(off as int == abs_of(m as int - ring as int));
        assert(d as int == spiral_dist(num as int));
    }
    d as i64
}

/// Law: the distance computation is a pure function of its input — any two
/// results obtained for the same cell number coincide.
pub proof fn lemma_manhattan_distance_unique(n: int, d1: int, d2: int)
    requires
        d1 == spiral_dist(n),
        d2 == spiral_dist(n),
    ensures
        d1 == d2,
{
}

} // verus!
