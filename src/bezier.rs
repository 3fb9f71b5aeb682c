//! Cubic Bezier easing curves from (0, 0) to (1, 1), in fixed point.
use vstd::prelude::*;
use crate::ONE;

verus! {

/// A cubic Bezier curve from (0, 0) to (`ONE`, `ONE`) with two inner
/// control points.
#[derive(Clone, Copy, Debug)]
pub struct Bezier {
    pub p1: (i32, i32),
    pub p2: (i32, i32),
}

/// One coordinate of the curve at parameter `t` (in `0..=ONE`):
/// `3 c1 (1-t)^2 t + 3 c2 (1-t) t^2 + t^3`, rounded down.
pub open spec fn coordinate(c1: int, c2: int, t: int) -> int {
    let mt = ONE - t;
    (3 * c1 * mt * mt * t + 3 * c2 * mt * t * t + ONE * t * t * t) / (ONE * ONE * ONE)
}

/// `ONE * ONE * ONE`, the scale of a cubic term.
const CUBE: i128 = 1_000_000_000_000_000_000;

fn coordinate_exec(c1: i32, c2: i32, t: i64) -> (r: i64)
    requires
        0 <= t <= ONE,
    ensures
        r == coordinate(c1 as int, c2 as int, t as int),
{
    let t = t as i128;
    let mt: i128 = ONE as i128 - t;
    let (c1, c2) = (c1 as i128, c2 as i128);
    proof {
        assert(0 <= mt * mt <= ONE * ONE) by (nonlinear_arith)
            requires 0 <= mt <= ONE;
        assert(0 <= mt * t <= ONE * ONE) by (nonlinear_arith)
            requires 0 <= mt <= ONE, 0 <= t <= ONE;
        assert(0 <= t * t <= ONE * ONE) by (nonlinear_arith)
            requires 0 <= t <= ONE;
        assert(0 <= mt * mt * t <= ONE * ONE * ONE) by (nonlinear_arith)
            requires 0 <= mt <= ONE, 0 <= t <= ONE;
        assert(0 <= mt * t * t <= ONE * ONE * ONE) by (nonlinear_arith)
            requires 0 <= mt <= ONE, 0 <= t <= ONE;
        assert(0 <= t * t * t <= ONE * ONE * ONE) by (nonlinear_arith)
            requires 0 <= t <= ONE;
        assert(-0x8000_0000 * CUBE <= c1 * (mt * mt * t) <= 0x8000_0000 * CUBE) by (nonlinear_arith)
            requires -0x8000_0000 <= c1 <= 0x8000_0000, 0 <= mt * mt * t <= CUBE;
        assert(-0x8000_0000 * CUBE <= c2 * (mt * t * t) <= 0x8000_0000 * CUBE) by (nonlinear_arith)
            requires -0x8000_0000 <= c2 <= 0x8000_0000, 0 <= mt * t * t <= CUBE;
        assert(3 * c1 * mt * mt * t == 3 * (c1 * (mt * mt * t))) by (nonlinear_arith);
        assert(3 * c2 * mt * t * t == 3 * (c2 * (mt * t * t))) by (nonlinear_arith);
        assert(ONE * t * t * t == ONE * (t * t * t)) by (nonlinear_arith);
    }
    let a: i128 = 3 * (c1 * (mt * mt * t));
    let b: i128 = 3 * (c2 * (mt * t * t));
    let c: i128 = (ONE as i128) * (t * t * t);
    let sum: i128 = a + b + c;
    let q = crate::arith::floor_div(sum, CUBE);
    proof {
        assert(-0x8000_0000 * 6 <= q <= 0x8000_0000 * 6 + ONE) by (nonlinear_arith)
            requires
                q == sum / CUBE,
                CUBE == 1_000_000_000_000_000_000,
                -0x8000_0000 * 6 * CUBE <= sum <= (0x8000_0000 * 6 + ONE) * CUBE;
    }
    q as i64
}

impl Bezier {
    /// The curve with inner control points `p1` and `p2`.
    pub fn new(p1: (i32, i32), p2: (i32, i32)) -> (r: Bezier)
        ensures
            r == (Bezier { p1, p2 }),
    {
        Bezier { p1, p2 }
    }

    /// The point of the curve at parameter `t`, for `t` in `0..=ONE`.
    pub fn point(&self, t: i64) -> (r: (i64, i64))
        requires
            0 <= t <= ONE,
        ensures
            r.0 == coordinate(self.p1.0 as int, self.p2.0 as int, t as int),
            r.1 == coordinate(self.p1.1 as int, self.p2.1 as int, t as int),
    {
        (coordinate_exec(self.p1.0, self.p2.0, t), coordinate_exec(self.p1.1, self.p2.1, t))
    }

    /// `n` points of the curve at evenly spaced parameters from 0 to `ONE`
    /// (each rounded down).
    pub fn get_n_points(&self, n: usize) -> (r: Vec<(i64, i64)>)
        requires
            2 <= n <= 1_000_000,
        ensures
            r@.len() == n,
            forall|i: int|
                0 <= i < n ==> {
                    let t = i * ONE / (n - 1);
                    &&& (#[trigger] r@[i]).0 == coordinate(self.p1.0 as int, self.p2.0 as int, t)
                    &&& r@[i].1 == coordinate(self.p1.1 as int, self.p2.1 as int, t)
                },
    {
        let mut points: Vec<(i64, i64)> = Vec::with_capacity(n);
        let mut i: usize = 0;
        while i < n
            invariant
                2 <= n <= 1_000_000,
                i <= n,
                points@.len() == i,
                forall|j: int|
                    0 <= j < i ==> {
                        let t = j * ONE / (n - 1);
                        &&& (#[trigger] points@[j]).0 == coordinate(self.p1.0 as int, self.p2.0 as int, t)
                        &&& points@[j].1 == coordinate(self.p1.1 as int, self.p2.1 as int, t)
                    },
            decreases n - i,
        {
            proof {
                let d = n - 1;
                assert(0 <= i * ONE <= 1_000_000 * ONE) by (nonlinear_arith)
                    requires 0 <= i <= 1_000_000;
                assert(i * ONE / d <= d * ONE / d) by (nonlinear_arith)
                    requires i * ONE <= d * ONE, 0 < d, i <= d;
                assert(d * ONE / d == ONE) by (nonlinear_arith)
                    requires 0 < d;
                assert(0 <= i * ONE / d) by (nonlinear_arith)
                    requires 0 <= i * ONE, 0 < d;
            }
            let t = ((i as i64) * ONE) / ((n - 1) as i64);
            points.push(self.point(t));
            i = i + 1;
        }
        points
    }
}

} // verus!
