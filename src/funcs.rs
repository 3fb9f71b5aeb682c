//! Parametric membership shapes over fixed-point numbers.
//!
//! Every shape maps a crisp fixed-point value to a degree in `0..=ONE`
//! (`ONE` standing for the truth value 1). All shapes are total: the linear
//! and quadratic pieces are only evaluated strictly inside their support, so
//! no parameter choice leads to a division by zero.
use vstd::prelude::*;
use crate::ONE;

verus! {

/// Bound on the arguments that shapes are evaluated at internally.
pub const WIDE: i128 = 0x10_0000_0000_0000_0000_0000_0000;

/// The largest value that a raised bell term is allowed to reach; any power
/// at or above it already yields degree 0.
pub const BELL_CAP: i128 = 1_000_000_000_000;

/// A membership function, as a tagged shape with its fixed-point parameters.
#[derive(Clone, Copy, Debug, PartialEq, Eq, Structural)]
pub enum Shape {
    /// 0 outside `[a, b]`, rising linearly to 1 at `p`, then falling.
    Tri { a: i32, p: i32, b: i32 },
    /// Left shoulder: 1 below `a`, falling linearly to 0 at `b`.
    Cliff { a: i32, b: i32 },
    /// Right shoulder: 0 below `a`, rising linearly to 1 at `b`.
    Mount { a: i32, b: i32 },
    /// Quadratic-spline descending shoulder from `a` to `b`.
    Z { a: i32, b: i32 },
    /// Quadratic-spline ascending shoulder from `a` to `b`.
    S { a: i32, b: i32 },
    /// Generalized bell `1 / (1 + |(x - center) / width|^(2 slope))`.
    Bell { width: i32, slope: u8, center: i32 },
}

/// `ONE * num / den`, rounded down.
pub open spec fn ratio(num: int, den: int) -> int {
    num * ONE / den
}

/// Quadratic spline piece `2 (d / w)^2` in fixed point, rounded down.
pub open spec fn spline(d: int, w: int) -> int {
    2 * d * d * ONE / (w * w)
}

/// Quadratic spline piece `2 (d / w)^2` in fixed point, rounded up, so that
/// it is 0 only where `d` is.
pub open spec fn spline_up(d: int, w: int) -> int {
    (2 * d * d * ONE + w * w - 1) / (w * w)
}

pub open spec fn abs(v: int) -> int {
    if v < 0 { -v } else { v }
}

/// `t^k` in fixed point (each product rounded down), held at `BELL_CAP`.
pub open spec fn bell_pow(t: int, k: nat) -> int
    decreases k,
{
    if k == 0 {
        ONE as int
    } else {
        let p = bell_pow(t, (k - 1) as nat) * t / (ONE as int);
        if p > BELL_CAP { BELL_CAP as int } else { p }
    }
}

/// Degree of the generalized bell at `x`.
pub open spec fn bell_degree(a: int, b: int, c: int, x: int) -> int {
    if a == 0 {
        if x == c { ONE as int } else { 0 }
    } else {
        let t0 = ratio(abs(x - c), abs(a));
        let t = if t0 > BELL_CAP { BELL_CAP as int } else { t0 };
        (ONE * ONE) as int / (ONE + bell_pow(t, (2 * b) as nat))
    }
}

/// The degree of membership of `x` in `s`, with `ONE` for full membership.
pub open spec fn degree(s: Shape, x: int) -> int {
    match s {
        Shape::Tri { a, p, b } => if x < a {
            0
        } else if x < p {
            ratio(x - a, p - a)
        } else if x < b {
            ratio(b - x, b - p)
        } else {
            0
        },
        Shape::Cliff { a, b } => if x < a {
            ONE as int
        } else if x < b {
            ratio(b - x, b - a)
        } else {
            0
        },
        Shape::Mount { a, b } => if x < a {
            0
        } else if x < b {
            ratio(x - a, b - a)
        } else {
            ONE as int
        },
        Shape::Z { a, b } => if x < a {
            ONE as int
        } else if 2 * x < a + b {
            ONE - spline(x - a, b - a)
        } else if x < b {
            spline_up(b - x, b - a)
        } else {
            0
        },
        Shape::S { a, b } => if x < a {
            0
        } else if 2 * x < a + b {
            spline(x - a, b - a)
        } else if x < b {
            ONE - spline_up(b - x, b - a)
        } else {
            ONE as int
        },
        Shape::Bell { width, slope, center } => bell_degree(width as int, slope as int, center as int, x),
    }
}

proof fn lemma_ratio_bounds(num: int, den: int)
    requires
        0 <= num <= den,
        0 < den,
    ensures
        0 <= ratio(num, den) <= ONE,
{
    assert(0 <= num * ONE <= den * ONE) by (nonlinear_arith)
        requires 0 <= num <= den;
    assert(num * ONE / den <= den * ONE / den) by (nonlinear_arith)
        requires num * ONE <= den * ONE, 0 < den;
    assert(den * ONE / den == ONE) by (nonlinear_arith)
        requires 0 < den;
    assert(0 <= num * ONE / den) by (nonlinear_arith)
        requires 0 <= num * ONE, 0 < den;
}

/// The rising half of a spline stays below one half.
proof fn lemma_spline_bounds(d: int, w: int)
    requires
        0 <= 2 * d < w,
    ensures
        0 <= spline(d, w) < ONE / 2,
{
    assert(0 < w * w) by (nonlinear_arith)
        requires 0 < w;
    assert(4 * (d * d) < w * w) by (nonlinear_arith)
        requires 0 <= 2 * d < w;
    assert(0 <= 2 * d * d * ONE < (ONE / 2) * (w * w)) by (nonlinear_arith)
        requires 4 * (d * d) < w * w, 0 <= d;
    assert(2 * d * d * ONE / (w * w) < ONE / 2) by (nonlinear_arith)
        requires 2 * d * d * ONE < (ONE / 2) * (w * w), 0 < w * w;
    assert(0 <= 2 * d * d * ONE / (w * w)) by (nonlinear_arith)
        requires 0 <= 2 * d * d * ONE, 0 < w * w;
}

/// The falling half of a spline, rounded up, stays above 0 and at most one
/// half.
proof fn lemma_spline_up_bounds(d: int, w: int)
    requires
        0 < 2 * d <= w,
    ensures
        0 < spline_up(d, w) <= ONE / 2,
{
    let q = w * w;
    assert(0 < q) by (nonlinear_arith)
        requires 0 < w, q == w * w;
    assert(4 * (d * d) <= q) by (nonlinear_arith)
        requires 0 < 2 * d <= w, q == w * w;
    assert(1 <= 2 * d * d * ONE <= (ONE / 2) * q) by (nonlinear_arith)
        requires 4 * (d * d) <= q, 0 < d;
    assert((2 * d * d * ONE + q - 1) / q <= ONE / 2) by (nonlinear_arith)
        requires 2 * d * d * ONE <= (ONE / 2) * q, 0 < q;
    assert((2 * d * d * ONE + q - 1) / q >= 1) by (nonlinear_arith)
        requires 1 <= 2 * d * d * ONE, 0 < q;
}

proof fn lemma_bell_pow_bounds(t: int, k: nat)
    requires
        0 <= t,
    ensures
        0 <= bell_pow(t, k),
    decreases k,
{
    if k > 0 {
        lemma_bell_pow_bounds(t, (k - 1) as nat);
        let q = bell_pow(t, (k - 1) as nat);
        assert(0 <= q * t / (ONE as int)) by (nonlinear_arith)
            requires 0 <= q, 0 <= t;
    }
}

/// The Z-curve is 1 before `a`, strictly between one half and 1 on the
/// first half of `[a, b)`, strictly between 0 and one half (inclusive) on the
/// second half, and 0 from `b` on; the S-curve is its complement.
pub proof fn lemma_spline_halves(a: i32, b: i32, x: int)
    ensures
        ({
            let z = degree(Shape::Z { a, b }, x);
            let s = degree(Shape::S { a, b }, x);
            &&& s == ONE - z
            &&& x < a ==> z == ONE
            &&& a <= x && 2 * x < a + b ==> ONE / 2 < z <= ONE
            &&& 2 * x >= a + b && x < b ==> 0 < z <= ONE / 2
            &&& x >= a && x >= b ==> z == 0
            &&& a <= x && 2 * x < a + b ==> 0 <= s < ONE / 2
            &&& 2 * x >= a + b && x < b ==> ONE / 2 <= s < ONE
        }),
{
    if a <= x && 2 * x < a + b {
        lemma_spline_bounds(x - a, b - a);
    } else if a <= x && x < b {
        lemma_spline_up_bounds(b - x, b - a);
    }
}

/// Every shape yields a degree between 0 and `ONE`, for every input.
pub proof fn lemma_degree_bounded(s: Shape, x: int)
    ensures
        0 <= degree(s, x) <= ONE,
{
    match s {
        Shape::Tri { a, p, b } => {
            if a <= x < p {
                lemma_ratio_bounds(x - a, p - a);
            } else if a <= x && p <= x < b {
                lemma_ratio_bounds(b - x, b - p);
            }
        },
        Shape::Cliff { a, b } => {
            if a <= x < b {
                lemma_ratio_bounds(b - x, b - a);
            }
        },
        Shape::Mount { a, b } => {
            if a <= x < b {
                lemma_ratio_bounds(x - a, b - a);
            }
        },
        Shape::Z { a, b } => {
            lemma_spline_halves(a, b, x);
        },
        Shape::S { a, b } => {
            lemma_spline_halves(a, b, x);
        },
        Shape::Bell { width: a, slope: b, center: c } => {
            if a != 0 {
                let t0 = ratio(abs(x - c), abs(a as int));
                assert(0 <= t0) by (nonlinear_arith)
                    requires t0 == abs(x - c) * ONE / abs(a as int), abs(a as int) > 0;
                let t = if t0 > BELL_CAP { BELL_CAP as int } else { t0 };
                lemma_bell_pow_bounds(t, (2 * b) as nat);
                let q = ONE + bell_pow(t, (2 * b) as nat);
                assert((ONE * ONE) as int / q <= ONE) by (nonlinear_arith)
                    requires q >= ONE, ONE > 0;
                assert((ONE * ONE) as int / q >= 0) by (nonlinear_arith)
                    requires q >= ONE;
            }
        },
    }
}

/// `ONE * num / den` for `0 <= num <= den`.
fn ratio_exec(num: i128, den: i128) -> (r: i64)
    requires
        0 <= num <= den,
        0 < den <= 0x1_0000_0000_0000_0000,
    ensures
        r == ratio(num as int, den as int),
        0 <= r <= ONE,
{
    proof {
        lemma_ratio_bounds(num as int, den as int);
        assert(num * (ONE as int) <= 0x1_0000_0000_0000_0000 * 1_000_000) by (nonlinear_arith)
            requires 0 <= num <= 0x1_0000_0000_0000_0000;
    }
    (num * (ONE as i128) / den) as i64
}

/// `2 (d / w)^2` in fixed point, rounded down, for `0 <= 2d < w`.
fn spline_exec(d: i128, w: i128) -> (r: i64)
    requires
        0 <= 2 * d < w <= 0x2_0000_0000,
    ensures
        r == spline(d as int, w as int),
        0 <= r < ONE / 2,
{
    proof {
        lemma_spline_bounds(d as int, w as int);
        assert(0 <= d * d <= 0x4_0000_0000_0000_0000) by (nonlinear_arith)
            requires 0 <= 2 * d < w <= 0x2_0000_0000;
        assert(0 < w * w <= 0x4_0000_0000_0000_0000) by (nonlinear_arith)
            requires 0 < w <= 0x2_0000_0000;
        assert(2 * d * d * ONE == (d * d) * (2 * ONE)) by (nonlinear_arith);
    }
    let sq: i128 = d * d;
    (sq * (2 * ONE as i128) / (w * w)) as i64
}

/// `2 (d / w)^2` in fixed point, rounded up, for `0 < 2d <= w`.
fn spline_up_exec(d: i128, w: i128) -> (r: i64)
    requires
        0 < 2 * d <= w <= 0x2_0000_0000,
    ensures
        r == spline_up(d as int, w as int),
        0 < r <= ONE / 2,
{
    proof {
        lemma_spline_up_bounds(d as int, w as int);
        assert(0 <= d * d <= 0x4_0000_0000_0000_0000) by (nonlinear_arith)
            requires 0 < 2 * d <= w <= 0x2_0000_0000;
        assert(0 < w * w <= 0x4_0000_0000_0000_0000) by (nonlinear_arith)
            requires 0 < w <= 0x2_0000_0000;
        assert(2 * d * d * ONE == (d * d) * (2 * ONE)) by (nonlinear_arith);
    }
    let sq: i128 = d * d;
    let q: i128 = w * w;
    ((sq * (2 * ONE as i128) + q - 1) / q) as i64
}

/// `t^(2b)` in fixed point, held at `BELL_CAP`.
fn bell_pow_exec(t: i128, n: u32) -> (r: i128)
    requires
        0 <= t <= BELL_CAP,
    ensures
        r == bell_pow(t as int, n as nat),
        0 <= r <= BELL_CAP,
{
    let mut p: i128 = ONE as i128;
    let mut k: u32 = 0;
    while k < n
        invariant
            0 <= t <= BELL_CAP,
            k <= n,
            p == bell_pow(t as int, k as nat),
            0 <= p <= BELL_CAP,
        decreases n - k,
    {
        proof {
            assert(0 <= p * t <= BELL_CAP * BELL_CAP) by (nonlinear_arith)
                requires 0 <= p <= BELL_CAP, 0 <= t <= BELL_CAP;
            assert(0 <= p * t / (ONE as int)) by (nonlinear_arith)
                requires 0 <= p * t;
        }
        let q: i128 = p * t / (ONE as i128);
        p = if q > BELL_CAP { BELL_CAP } else { q };
        k = k + 1;
    }
    p
}

impl Shape {
    /// The degree of membership of `x`, between 0 and `ONE`.
    pub fn eval(&self, x: i64) -> (r: i64)
        ensures
            r == degree(*self, x as int),
            0 <= r <= ONE,
    {
        self.eval_wide(x as i128)
    }

    /// `eval` over a wider argument range.
    pub(crate) fn eval_wide(&self, x: i128) -> (r: i64)
        requires
            -WIDE <= x <= WIDE,
        ensures
            r == degree(*self, x as int),
            0 <= r <= ONE,
    {
        proof {
            lemma_degree_bounded(*self, x as int);
        }
        match *self {
            Shape::Tri { a, p, b } => {
                let (a, p, b) = (a as i128, p as i128, b as i128);
                if x < a {
                    0
                } else if x < p {
                    ratio_exec(x - a, p - a)
                } else if x < b {
                    ratio_exec(b - x, b - p)
                } else {
                    0
                }
            },
            Shape::Cliff { a, b } => {
                let (a, b) = (a as i128, b as i128);
                if x < a {
                    ONE
                } else if x < b {
                    ratio_exec(b - x, b - a)
                } else {
                    0
                }
            },
            Shape::Mount { a, b } => {
                let (a, b) = (a as i128, b as i128);
                if x < a {
                    0
                } else if x < b {
                    ratio_exec(x - a, b - a)
                } else {
                    ONE
                }
            },
            Shape::Z { a, b } => {
                let (a, b) = (a as i128, b as i128);
                if x < a {
                    ONE
                } else if 2 * x < a + b {
                    ONE - spline_exec(x - a, b - a)
                } else if x < b {
                    spline_up_exec(b - x, b - a)
                } else {
                    0
                }
            },
            Shape::S { a, b } => {
                let (a, b) = (a as i128, b as i128);
                if x < a {
                    0
                } else if 2 * x < a + b {
                    spline_exec(x - a, b - a)
                } else if x < b {
                    ONE - spline_up_exec(b - x, b - a)
                } else {
                    ONE
                }
            },
            Shape::Bell { width: a, slope: b, center: c } => {
                let (a, c) = (a as i128, c as i128);
                if a == 0 {
                    if x == c { ONE } else { 0 }
                } else {
                    let d: i128 = if x < c { c - x } else { x - c };
                    let w: i128 = if a < 0 { -a } else { a };
                    let t0 = ratio_wide(d, w);
                    let t: i128 = if t0 > BELL_CAP { BELL_CAP } else { t0 };
                    let q = bell_pow_exec(t, 2 * (b as u32));
                    ((ONE as i128) * (ONE as i128) / ((ONE as i128) + q)) as i64
                }
            },
        }
    }
}

/// `ONE * num / den` for any non-negative `num` up to twice `WIDE`.
fn ratio_wide(num: i128, den: i128) -> (r: i128)
    requires
        0 <= num <= 2 * WIDE,
        0 < den,
    ensures
        r == ratio(num as int, den as int),
        0 <= r,
{
    proof {
        assert(0 <= num * (ONE as int) <= 2 * WIDE * 1_000_000) by (nonlinear_arith)
            requires 0 <= num <= 2 * WIDE;
        assert(0 <= num * (ONE as int) / (den as int)) by (nonlinear_arith)
            requires 0 <= num * (ONE as int), 0 < den;
    }
    num * (ONE as i128) / den
}

/// Triangle with feet at `a` and `b` and its peak at `p`.
pub fn tri(a: i32, p: i32, b: i32) -> (r: Shape)
    ensures
        r == (Shape::Tri { a, p, b }),
{
    Shape::Tri { a, p, b }
}

/// Left shoulder: full membership below `a`, none from `b` on.
pub fn cliff(a: i32, b: i32) -> (r: Shape)
    ensures
        r == (Shape::Cliff { a, b }),
{
    Shape::Cliff { a, b }
}

/// Right shoulder: no membership below `a`, full from `b` on.
pub fn mount(a: i32, b: i32) -> (r: Shape)
    ensures
        r == (Shape::Mount { a, b }),
{
    Shape::Mount { a, b }
}

/// Smooth descending shoulder between `a` and `b`.
pub fn zmf(a: i32, b: i32) -> (r: Shape)
    ensures
        r == (Shape::Z { a, b }),
{
    Shape::Z { a, b }
}

/// Smooth ascending shoulder between `a` and `b`.
pub fn smf(a: i32, b: i32) -> (r: Shape)
    ensures
        r == (Shape::S { a, b }),
{
    Shape::S { a, b }
}

/// Generalized bell of half-width `a`, slope `b` and center `c`.
pub fn gbell(a: i32, b: u8, c: i32) -> (r: Shape)
    ensures
        r == (Shape::Bell { width: a, slope: b, center: c }),
{
    Shape::Bell { width: a, slope: b, center: c }
}

/// A Z-curve and an S-curve over the same `[a, b]` cross at the midpoint,
/// where both have degree one half.
pub proof fn lemma_crossover(a: i32, b: i32)
    requires
        a < b,
        (b - a) % 2 == 0,
    ensures
        degree(Shape::Z { a, b }, (a + b) / 2) == ONE / 2,
        degree(Shape::S { a, b }, (a + b) / 2) == ONE / 2,
{
    let h = (b - a) / 2;
    let m = (a + b) / 2;
    assert(b - m == h && b - a == 2 * h);
    let q = (2 * h) * (2 * h);
    assert(2 * h * h * ONE == (ONE / 2) * q) by (nonlinear_arith)
        requires q == (2 * h) * (2 * h);
    assert(0 < q) by (nonlinear_arith)
        requires q == (2 * h) * (2 * h), h > 0;
    assert(((ONE / 2) * q + q - 1) / q == ONE / 2) by (nonlinear_arith)
        requires 0 < q;
    assert(spline_up(h, 2 * h) == ONE / 2);
}

} // verus!
