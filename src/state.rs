//! Planar rigid-body state and its explicit update by a rate of change.
use vstd::prelude::*;
use crate::ONE;
use crate::arith::floor_div;

verus! {

/// Bound on the magnitude of every state and rate component; the simulated
/// world saturates there.
pub const LIMIT: i64 = 0x100_0000_0000;

/// Longest time step, in fixed-point seconds, that a state update takes.
pub const MAX_DT: i64 = 0x100_0000;

/// A point or vector in the plane, in fixed point.
#[derive(Clone, Copy, Debug, PartialEq, Eq, Structural)]
pub struct Point {
    pub x: i64,
    pub y: i64,
}

/// Position, velocity, angular rate and heading of the drone.
#[derive(Clone, Copy, Debug, PartialEq, Eq, Structural)]
pub struct State {
    pub p: Point,
    pub v: Point,
    pub w: i64,
    pub th: i64,
}

/// Rate of change of a state: velocity, acceleration, angular rate and
/// angular acceleration.
#[derive(Clone, Copy, Debug, PartialEq, Eq, Structural)]
pub struct Deriv {
    pub v: Point,
    pub vdot: Point,
    pub w: i64,
    pub wdot: i64,
}

/// `v` held within `-LIMIT..=LIMIT`.
pub open spec fn sat(v: int) -> int {
    if v < -LIMIT {
        -LIMIT as int
    } else if v > LIMIT {
        LIMIT as int
    } else {
        v
    }
}

/// `x` advanced at rate `k` for `dt`, each product rounded down.
pub open spec fn step(x: int, k: int, dt: int) -> int {
    sat(x + k * dt / (ONE as int))
}

pub open spec fn bounded(v: int) -> bool {
    -LIMIT <= v <= LIMIT
}

impl Point {
    pub open spec fn bounded(self) -> bool {
        bounded(self.x as int) && bounded(self.y as int)
    }
}

impl State {
    pub open spec fn bounded(self) -> bool {
        self.p.bounded() && self.v.bounded() && bounded(self.w as int) && bounded(self.th as int)
    }

    /// The state advanced by the rate `k` for `dt`.
    pub open spec fn after_spec(self, k: Deriv, dt: int) -> State {
        State {
            p: Point { x: step(self.p.x as int, k.v.x as int, dt) as i64, y: step(self.p.y as int, k.v.y as int, dt) as i64 },
            v: Point { x: step(self.v.x as int, k.vdot.x as int, dt) as i64, y: step(self.v.y as int, k.vdot.y as int, dt) as i64 },
            w: step(self.w as int, k.wdot as int, dt) as i64,
            th: step(self.th as int, k.w as int, dt) as i64,
        }
    }
}

impl Deriv {
    pub open spec fn bounded(self) -> bool {
        self.v.bounded() && self.vdot.bounded() && bounded(self.w as int) && bounded(self.wdot as int)
    }
}

/// `x` advanced at rate `k` for `dt`.
fn step_exec(x: i64, k: i64, dt: i64) -> (r: i64)
    requires
        bounded(x as int),
        bounded(k as int),
        0 <= dt <= MAX_DT,
    ensures
        r == step(x as int, k as int, dt as int),
        bounded(r as int),
{
    proof {
        assert(-0x100_0000_0000 * 0x100_0000 <= k * dt <= 0x100_0000_0000 * 0x100_0000) by (nonlinear_arith)
            requires -0x100_0000_0000 <= k <= 0x100_0000_0000, 0 <= dt <= 0x100_0000;
    }
    let d = floor_div((k as i128) * (dt as i128), ONE as i128);
    proof {
        assert(-0x100_0000_0000 * 0x100_0000 <= d <= 0x100_0000_0000 * 0x100_0000) by (nonlinear_arith)
            requires
                d == (k * dt) / (ONE as int),
                -0x100_0000_0000 * 0x100_0000 <= k * dt <= 0x100_0000_0000 * 0x100_0000;
    }
    let v = x as i128 + d;
    if v < -(LIMIT as i128) {
        -LIMIT
    } else if v > LIMIT as i128 {
        LIMIT
    } else {
        v as i64
    }
}

impl Default for State {
    /// The resting state at the drone's start position.
    fn default() -> (r: State)
        ensures
            r == (State { p: Point { x: 5_750_000, y: 0 }, v: Point { x: 0, y: 0 }, w: 0, th: 0 }),
    {
        State::from(Point { x: 5_750_000, y: 0 }, Point { x: 0, y: 0 }, 0, 0)
    }
}

impl State {
    /// A state from its position, velocity, heading and angular rate.
    pub fn from(x: Point, v: Point, th: i64, w: i64) -> (r: State)
        ensures
            r == (State { p: x, v, w, th }),
    {
        State { p: x, v, w, th }
    }

    /// Advances the state in place by the rate `k` for `dt`.
    pub fn update(&mut self, k: Deriv, dt: i64)
        requires
            old(self).bounded(),
            k.bounded(),
            0 <= dt <= MAX_DT,
        ensures
            *final(self) == old(self).after_spec(k, dt as int),
            final(self).bounded(),
    {
        self.w = step_exec(self.w, k.wdot, dt);
        self.th = step_exec(self.th, k.w, dt);
        self.v = Point { x: step_exec(self.v.x, k.vdot.x, dt), y: step_exec(self.v.y, k.vdot.y, dt) };
        self.p = Point { x: step_exec(self.p.x, k.v.x, dt), y: step_exec(self.p.y, k.v.y, dt) };
    }

    /// The state advanced by the rate `k` for `dt`.
    pub fn after(&self, k: Deriv, dt: i64) -> (r: State)
        requires
            self.bounded(),
            k.bounded(),
            0 <= dt <= MAX_DT,
        ensures
            r == self.after_spec(k, dt as int),
            r.bounded(),
    {
        let mut s = *self;
        s.update(k, dt);
        s
    }

    /// Position, velocity, heading and angular rate.
    pub fn unpack(&self) -> (r: (Point, Point, i64, i64))
        ensures
            r == (self.p, self.v, self.th, self.w),
    {
        (self.p, self.v, self.th, self.w)
    }
}

} // verus!
