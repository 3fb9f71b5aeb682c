//! The two-rotor drone: thrust from the controllers, rigid-body dynamics
//! and their fourth-order Runge-Kutta integration with sub-stepping.
use vstd::prelude::*;
use vstd::arithmetic::div_mod::lemma_fundamental_div_mod;
use crate::{FuzzyError, ONE};
use crate::arith::floor_div;
use crate::mamdani::{configured_for, lemma_configured_infers, Mamdani};
use crate::rules::InputType;
use crate::state::{bounded, sat, Deriv, Point, State, LIMIT, MAX_DT};

verus! {

/// Mass of each rotor.
pub const ROTOR_MASS: i64 = 4_000_000;

/// Mass of the body.
pub const BODY_MASS: i64 = 2_000_000;

/// Total mass: both rotors and the body.
pub const TOTAL_MASS: i64 = 10_000_000;

/// Rotational inertia term: both rotors and a twelfth of the body.
pub const INERTIA: i64 = 8_166_666;

/// Distance from the center to each rotor.
pub const ARM: i64 = 1_500_000;

/// Vertical gravitational acceleration (negative: downwards).
pub const GRAVITY: i64 = -9_806_650;

/// Thrust of a rotor under manual control, per unit of total mass.
pub const MANUAL_GAIN: i64 = 12;

/// Number of sub-steps of a frame unless frames are slow.
pub const DEFAULT_STEPS: u32 = 5;

/// Frames longer than this (0.02 s) are split into more sub-steps.
pub const SLOW_FRAME: i64 = 20_000;

/// The quantities that the altitude controller is given, in order.
pub open spec fn altitude_quantities() -> Seq<InputType> {
    seq![InputType::Y, InputType::Vy]
}

/// The quantities that the attitude controller is given, in order.
pub open spec fn attitude_quantities() -> Seq<InputType> {
    seq![InputType::X, InputType::Vx, InputType::Th, InputType::W]
}

/// `v` held within `-ONE..=ONE`.
pub open spec fn unit(v: int) -> int {
    if v < -ONE {
        -ONE as int
    } else if v > ONE {
        ONE as int
    } else {
        v
    }
}

/// Rate of change of `s` under thrusts `tl` and `tr`, where `trig` is the
/// sine and cosine of the heading.
pub open spec fn derivative(tl: int, tr: int, s: State, trig: (i64, i64)) -> Deriv {
    let t = tl + tr;
    Deriv {
        v: s.v,
        vdot: Point {
            x: sat(-(t * unit(trig.0 as int)) / (TOTAL_MASS as int)) as i64,
            y: sat(t * unit(trig.1 as int) / (TOTAL_MASS as int) + GRAVITY) as i64,
        },
        w: s.w,
        wdot: sat((tr - tl) * ONE * ONE / (ARM * INERTIA)) as i64,
    }
}

/// `(a + 2b + 2c + d) / 6`.
pub open spec fn blend(a: i64, b: i64, c: i64, d: i64) -> i64 {
    ((a + 2 * b + 2 * c + d) / 6) as i64
}

/// Runge-Kutta weighting of four rates.
pub open spec fn blend_all(k1: Deriv, k2: Deriv, k3: Deriv, k4: Deriv) -> Deriv {
    Deriv {
        v: Point { x: blend(k1.v.x, k2.v.x, k3.v.x, k4.v.x), y: blend(k1.v.y, k2.v.y, k3.v.y, k4.v.y) },
        vdot: Point {
            x: blend(k1.vdot.x, k2.vdot.x, k3.vdot.x, k4.vdot.x),
            y: blend(k1.vdot.y, k2.vdot.y, k3.vdot.y, k4.vdot.y),
        },
        w: blend(k1.w, k2.w, k3.w, k4.w),
        wdot: blend(k1.wdot, k2.wdot, k3.wdot, k4.wdot),
    }
}

/// The four intermediate states of a Runge-Kutta step of length `h` and
/// their rates, given the sine and cosine `tv[i]` of the `i`-th state's
/// heading.
pub open spec fn stages(tl: int, tr: int, s: State, h: int, tv: Seq<(i64, i64)>) -> Seq<(State, Deriv)> {
    let k1 = derivative(tl, tr, s, tv[0]);
    let s2 = s.after_spec(k1, h / 2);
    let k2 = derivative(tl, tr, s2, tv[1]);
    let s3 = s.after_spec(k2, h / 2);
    let k3 = derivative(tl, tr, s3, tv[2]);
    let s4 = s.after_spec(k3, h);
    let k4 = derivative(tl, tr, s4, tv[3]);
    seq![(s, k1), (s2, k2), (s3, k3), (s4, k4)]
}

/// The state after one Runge-Kutta step of length `h`.
pub open spec fn rk4(tl: int, tr: int, s: State, h: int, tv: Seq<(i64, i64)>) -> State {
    let st = stages(tl, tr, s, h, tv);
    s.after_spec(blend_all(st[0].1, st[1].1, st[2].1, st[3].1), h)
}

/// `tv` holds what `trig` returned for the heading of each stage.
pub open spec fn trig_of_stages<F: Fn(i64) -> (i64, i64)>(
    trig: F,
    tl: int,
    tr: int,
    s: State,
    h: int,
    tv: Seq<(i64, i64)>,
) -> bool {
    &&& tv.len() == 4
    &&& forall|i: int| 0 <= i < 4 ==> trig.ensures((stages(tl, tr, s, h, tv)[i].0.th,), #[trigger] tv[i])
}

/// Rotor thrusts from the controllers' amplitude and difference outputs.
pub open spec fn thrust(amp: int, diff: int) -> (int, int) {
    let l = if amp - diff > 0 { amp - diff } else { 0 };
    let r = if amp + diff > 0 { amp + diff } else { 0 };
    (sat(TOTAL_MASS * l / (ONE as int)), sat(TOTAL_MASS * r / (ONE as int)))
}

/// Thrust of a rotor under manual control.
pub open spec fn manual_thrust(on: bool) -> int {
    if on { TOTAL_MASS * MANUAL_GAIN } else { 0 }
}

/// Number of sub-steps of a frame of length `dt`: the base number, or
/// `round(60 * steps * dt)` for a frame longer than `SLOW_FRAME`.
pub open spec fn sub_step_count(dt: int, steps: int) -> int {
    if dt > SLOW_FRAME { (steps * 60 * dt + ONE / 2) / (ONE as int) } else { steps }
}

/// Length of sub-step `i` of the `n` that split a frame of length `dt`:
/// sub-step `i` starts at `dt * i / n`, rounded down.
pub open spec fn sub_step_len(dt: int, n: int, i: int) -> int {
    dt * (i + 1) / n - dt * i / n
}

/// Time covered by the first `k` sub-steps.
pub open spec fn elapsed(dt: int, n: int, k: nat) -> int
    decreases k,
{
    if k == 0 { 0 } else { elapsed(dt, n, (k - 1) as nat) + sub_step_len(dt, n, k - 1) }
}

/// The sub-steps of a frame add up to the whole frame.
pub proof fn lemma_sub_steps_cover(dt: int, n: int, k: nat)
    requires
        n >= 1,
    ensures
        elapsed(dt, n, k) == dt * k / n,
        k == n ==> elapsed(dt, n, k) == dt,
    decreases k,
{
    if k > 0 {
        lemma_sub_steps_cover(dt, n, (k - 1) as nat);
    } else {
        assert(dt * 0 / n == 0) by (nonlinear_arith)
            requires n >= 1;
    }
    if k == n {
        assert(dt * n / n == dt) by (nonlinear_arith)
            requires n >= 1;
    }
}

/// `v` held within `-LIMIT..=LIMIT`.
fn sat_exec(v: i128) -> (r: i64)
    ensures
        r == sat(v as int),
{
    if v < -(LIMIT as i128) {
        -LIMIT
    } else if v > LIMIT as i128 {
        LIMIT
    } else {
        v as i64
    }
}

/// `v` held within `-ONE..=ONE`.
fn unit_exec(v: i64) -> (r: i64)
    ensures
        r == unit(v as int),
{
    if v < -ONE {
        -ONE
    } else if v > ONE {
        ONE
    } else {
        v
    }
}

/// Rate of change of `s` under thrusts `tl` and `tr`, with `trig` the sine
/// and cosine of the heading.
pub fn state_derivative(tl: i64, tr: i64, s: &State, trig: (i64, i64)) -> (r: Deriv)
    requires
        0 <= tl <= LIMIT,
        0 <= tr <= LIMIT,
        s.bounded(),
    ensures
        r == derivative(tl as int, tr as int, *s, trig),
        r.bounded(),
{
    let t: i128 = tl as i128 + tr as i128;
    let sn = unit_exec(trig.0) as i128;
    let cs = unit_exec(trig.1) as i128;
    proof {
        assert(-0x200_0000_0000 * 1_000_000 <= t * sn <= 0x200_0000_0000 * 1_000_000) by (nonlinear_arith)
            requires 0 <= t <= 0x200_0000_0000, -1_000_000 <= sn <= 1_000_000;
        assert(-0x200_0000_0000 * 1_000_000 <= t * cs <= 0x200_0000_0000 * 1_000_000) by (nonlinear_arith)
            requires 0 <= t <= 0x200_0000_0000, -1_000_000 <= cs <= 1_000_000;
        assert(-0x100_0000_0000 * 1_000_000 * 1_000_000 <= (tr - tl) * ONE * ONE <= 0x100_0000_0000 * 1_000_000 * 1_000_000)
            by (nonlinear_arith)
            requires -0x100_0000_0000 <= tr - tl <= 0x100_0000_0000;
    }
    assert(ARM * INERTIA == 12_249_999_000_000) by (nonlinear_arith);
    let ax = floor_div(-(t * sn), TOTAL_MASS as i128);
    let ay = floor_div(t * cs, TOTAL_MASS as i128);
    let aw = floor_div(
        (tr as i128 - tl as i128) * (ONE as i128) * (ONE as i128),
        (ARM as i128) * (INERTIA as i128),
    );
    proof {
        assert(-0x200_0000_0000 * 1_000_000 <= ax <= 0x200_0000_0000 * 1_000_000) by (nonlinear_arith)
            requires
                ax == (-(t * sn)) / (TOTAL_MASS as int),
                -0x200_0000_0000 * 1_000_000 <= -(t * sn) <= 0x200_0000_0000 * 1_000_000;
        assert(-0x200_0000_0000 * 1_000_000 <= ay <= 0x200_0000_0000 * 1_000_000) by (nonlinear_arith)
            requires
                ay == (t * cs) / (TOTAL_MASS as int),
                -0x200_0000_0000 * 1_000_000 <= t * cs <= 0x200_0000_0000 * 1_000_000;
    }
    Deriv {
        v: s.v,
        vdot: Point { x: sat_exec(ax), y: sat_exec(ay + GRAVITY as i128) },
        w: s.w,
        wdot: sat_exec(aw),
    }
}

/// `(a + 2b + 2c + d) / 6`, rounded down.
fn blend_exec(a: i64, b: i64, c: i64, d: i64) -> (r: i64)
    requires
        bounded(a as int),
        bounded(b as int),
        bounded(c as int),
        bounded(d as int),
    ensures
        r == blend(a, b, c, d),
        bounded(r as int),
{
    let sum: i128 = a as i128 + 2 * (b as i128) + 2 * (c as i128) + d as i128;
    let q = floor_div(sum, 6);
    proof {
        assert(-LIMIT <= q <= LIMIT) by (nonlinear_arith)
            requires q == sum / 6, -6 * LIMIT <= sum <= 6 * LIMIT;
    }
    q as i64
}

fn blend_all_exec(k1: &Deriv, k2: &Deriv, k3: &Deriv, k4: &Deriv) -> (r: Deriv)
    requires
        k1.bounded(),
        k2.bounded(),
        k3.bounded(),
        k4.bounded(),
    ensures
        r == blend_all(*k1, *k2, *k3, *k4),
        r.bounded(),
{
    Deriv {
        v: Point {
            x: blend_exec(k1.v.x, k2.v.x, k3.v.x, k4.v.x),
            y: blend_exec(k1.v.y, k2.v.y, k3.v.y, k4.v.y),
        },
        vdot: Point {
            x: blend_exec(k1.vdot.x, k2.vdot.x, k3.vdot.x, k4.vdot.x),
            y: blend_exec(k1.vdot.y, k2.vdot.y, k3.vdot.y, k4.vdot.y),
        },
        w: blend_exec(k1.w, k2.w, k3.w, k4.w),
        wdot: blend_exec(k1.wdot, k2.wdot, k3.wdot, k4.wdot),
    }
}

/// One Runge-Kutta step of length `h` from `s` under thrusts `tl` and
/// `tr`; `trig` gives the sine and cosine of a heading.
pub fn advance<F: Fn(i64) -> (i64, i64)>(tl: i64, tr: i64, s: &State, h: i64, trig: &F) -> (r: State)
    requires
        0 <= tl <= LIMIT,
        0 <= tr <= LIMIT,
        s.bounded(),
        0 <= h <= MAX_DT,
        forall|t: i64| trig.requires((t,)),
    ensures
        exists|tv: Seq<(i64, i64)>|
            trig_of_stages(*trig, tl as int, tr as int, *s, h as int, tv) && r == rk4(
                tl as int,
                tr as int,
                *s,
                h as int,
                tv,
            ),
        r.bounded(),
{
    let t1 = trig(s.th);
    let k1 = state_derivative(tl, tr, s, t1);
    let s2 = s.after(k1, h / 2);
    let t2 = trig(s2.th);
    let k2 = state_derivative(tl, tr, &s2, t2);
    let s3 = s.after(k2, h / 2);
    let t3 = trig(s3.th);
    let k3 = state_derivative(tl, tr, &s3, t3);
    let s4 = s.after(k3, h);
    let t4 = trig(s4.th);
    let k4 = state_derivative(tl, tr, &s4, t4);
    let k = blend_all_exec(&k1, &k2, &k3, &k4);
    let r = s.after(k, h);
    proof {
        let tv = seq![t1, t2, t3, t4];
        let st = stages(tl as int, tr as int, *s, h as int, tv);
        assert(st[0].1 == k1 && st[1].0 == s2 && st[1].1 == k2);
        assert(st[2].0 == s3 && st[2].1 == k3 && st[3].0 == s4 && st[3].1 == k4);
        assert(trig_of_stages(*trig, tl as int, tr as int, *s, h as int, tv));
        assert(r == rk4(tl as int, tr as int, *s, h as int, tv));
    }
    r
}

/// Rotor thrusts from the controllers' amplitude and difference outputs.
fn thrust_exec(amp: i64, diff: i64) -> (r: (i64, i64))
    ensures
        r.0 == thrust(amp as int, diff as int).0,
        r.1 == thrust(amp as int, diff as int).1,
        0 <= r.0 <= LIMIT,
        0 <= r.1 <= LIMIT,
{
    let l: i128 = if amp as i128 - diff as i128 > 0 { amp as i128 - diff as i128 } else { 0 };
    let r: i128 = if amp as i128 + diff as i128 > 0 { amp as i128 + diff as i128 } else { 0 };
    proof {
        assert(0 <= TOTAL_MASS * l <= 10_000_000 * 0x2_0000_0000_0000_0000) by (nonlinear_arith)
            requires 0 <= l <= 0x2_0000_0000_0000_0000;
        assert(0 <= TOTAL_MASS * r <= 10_000_000 * 0x2_0000_0000_0000_0000) by (nonlinear_arith)
            requires 0 <= r <= 0x2_0000_0000_0000_0000;
        assert(0 <= TOTAL_MASS * l / (ONE as int)) by (nonlinear_arith)
            requires 0 <= TOTAL_MASS * l;
        assert(0 <= TOTAL_MASS * r / (ONE as int)) by (nonlinear_arith)
            requires 0 <= TOTAL_MASS * r;
    }
    (sat_exec((TOTAL_MASS as i128) * l / (ONE as i128)), sat_exec((TOTAL_MASS as i128) * r / (ONE as i128)))
}

/// Number of sub-steps of a frame of length `dt`.
fn sub_step_count_exec(dt: i64, steps: u32) -> (r: u64)
    requires
        0 <= dt <= MAX_DT,
        1 <= steps,
    ensures
        r == sub_step_count(dt as int, steps as int),
        1 <= r,
{
    if dt > SLOW_FRAME {
        proof {
            assert(steps * 60 * dt <= 0xFFFF_FFFF * 60 * 0x100_0000) by (nonlinear_arith)
                requires 1 <= steps <= 0xFFFF_FFFF, 0 <= dt <= 0x100_0000;
            assert(steps * 60 * dt >= 60 * 20_001) by (nonlinear_arith)
                requires 1 <= steps, dt >= 20_001;
        }
        ((steps as u64) * 60 * (dt as u64) + (ONE as u64) / 2) / (ONE as u64)
    } else {
        steps as u64
    }
}

/// Length of sub-step `i` of the `n` that split a frame of length `dt`.
fn sub_step_len_exec(dt: i64, n: u64, i: u64) -> (r: i64)
    requires
        0 <= dt <= MAX_DT,
        1 <= n,
        i < n,
    ensures
        r == sub_step_len(dt as int, n as int, i as int),
        0 <= r <= dt,
{
    proof {
        assert((dt as int) * (i as int + 1) <= 0x100_0000 * 0x1_0000_0000_0000_0000) by (nonlinear_arith)
            requires 0 <= dt <= 0x100_0000, 0 <= i < 0xFFFF_FFFF_FFFF_FFFF;
        assert(0 <= (dt as int) * (i as int) <= (dt as int) * (i as int + 1)) by (nonlinear_arith)
            requires 0 <= dt, 0 <= i;
    }
    let lo_num: u128 = (dt as u128) * (i as u128);
    let hi_num: u128 = (dt as u128) * (i as u128 + 1);
    let lo = lo_num / (n as u128);
    let hi = hi_num / (n as u128);
    proof {
        let (d, nn, ii) = (dt as int, n as int, i as int);
        lemma_fundamental_div_mod(d * ii, nn);
        lemma_fundamental_div_mod(d * (ii + 1), nn);
        let (q0, r0) = (d * ii / nn, d * ii % nn);
        let (q1, r1) = (d * (ii + 1) / nn, d * (ii + 1) % nn);
        assert(nn * (q1 - q0) == d + r0 - r1) by (nonlinear_arith)
            requires d * ii == nn * q0 + r0, d * (ii + 1) == nn * q1 + r1;
        assert(0 <= q1 - q0 <= d) by (nonlinear_arith)
            requires nn * (q1 - q0) == d + r0 - r1, 0 <= r0 < nn, 0 <= r1 < nn, nn >= 1, d >= 0;
    }
    (hi - lo) as i64
}

/// The drone: its state, the thrust of its two rotors and the point that
/// the controllers steer it to.
pub struct Drone {
    enable: bool,
    state: State,
    steps: u32,
    tl: i64,
    tr: i64,
    point: Point,
}

/// The content of a drone.
pub struct DroneModel {
    /// Whether the controllers fly the drone (else manual thrust does).
    pub enable: bool,
    pub state: State,
    /// Base number of sub-steps of a frame.
    pub steps: int,
    /// Thrust of the left rotor.
    pub tl: int,
    /// Thrust of the right rotor.
    pub tr: int,
    /// The setpoint.
    pub point: Point,
}

impl DroneModel {
    pub open spec fn wf(self) -> bool {
        &&& self.state.bounded()
        &&& 1 <= self.steps
        &&& 0 <= self.tl <= LIMIT
        &&& 0 <= self.tr <= LIMIT
        &&& self.point.bounded()
    }

    /// Measurements for the altitude controller: vertical error and speed.
    pub open spec fn altitude_inputs(self) -> Seq<(InputType, i64)> {
        seq![(InputType::Y, (self.state.p.y - self.point.y) as i64), (InputType::Vy, self.state.v.y)]
    }

    /// Measurements for the attitude controller: horizontal error and
    /// speed, heading and angular rate.
    pub open spec fn lateral_inputs(self) -> Seq<(InputType, i64)> {
        seq![
            (InputType::X, (self.state.p.x - self.point.x) as i64),
            (InputType::Vx, self.state.v.x),
            (InputType::Th, self.state.th),
            (InputType::W, self.state.w),
        ]
    }

    /// Rotor thrusts for the next sub-step: from the two controllers when
    /// enabled, else from the manual override (none: no thrust).
    pub open spec fn thrusts(self, c1: Mamdani, c2: Mamdani, manual: Option<(bool, bool)>) -> Result<(int, int), FuzzyError> {
        if self.enable {
            match c1.infer_spec(self.altitude_inputs()) {
                Err(e) => Err(e),
                Ok(amp) => match c2.infer_spec(self.lateral_inputs()) {
                    Err(e) => Err(e),
                    Ok(diff) => Ok(thrust(amp, diff)),
                },
            }
        } else {
            match manual {
                Some((l, r)) => Ok((manual_thrust(l), manual_thrust(r))),
                None => Ok((0, 0)),
            }
        }
    }

    /// `b` follows `a` by one sub-step of length `h`.
    #[verifier::opaque]
    pub open spec fn substep<F: Fn(i64) -> (i64, i64)>(
        self,
        b: DroneModel,
        c1: Mamdani,
        c2: Mamdani,
        manual: Option<(bool, bool)>,
        h: int,
        trig: F,
    ) -> bool {
        match self.thrusts(c1, c2, manual) {
            Ok((tl, tr)) => exists|tv: Seq<(i64, i64)>|
                trig_of_stages(trig, tl, tr, self.state, h, tv) && b == (DroneModel {
                    tl,
                    tr,
                    state: rk4(tl, tr, self.state, h, tv),
                    ..self
                }),
            Err(_) => false,
        }
    }
}

impl View for Drone {
    type V = DroneModel;

    closed spec fn view(&self) -> DroneModel {
        DroneModel {
            enable: self.enable,
            state: self.state,
            steps: self.steps as int,
            tl: self.tl as int,
            tr: self.tr as int,
            point: self.point,
        }
    }
}

impl Drone {
    #[verifier::type_invariant]
    spec fn inv(self) -> bool {
        self@.wf()
    }

    /// A drone at rest at its start position, flown by the controllers
    /// towards that position, with `DEFAULT_STEPS` sub-steps per frame.
    pub fn new() -> (r: Drone)
        ensures
            r@ == (DroneModel {
                enable: true,
                state: State { p: Point { x: 5_750_000, y: 0 }, v: Point { x: 0, y: 0 }, w: 0, th: 0 },
                steps: DEFAULT_STEPS as int,
                tl: 0,
                tr: 0,
                point: Point { x: 5_750_000, y: 0 },
            }),
    {
        Drone {
            enable: true,
            state: State::from(Point { x: 5_750_000, y: 0 }, Point { x: 0, y: 0 }, 0, 0),
            steps: DEFAULT_STEPS,
            tl: 0,
            tr: 0,
            point: Point { x: 5_750_000, y: 0 },
        }
    }

    /// Rate of change of `state` under the drone's current thrusts, with
    /// `trig` the sine and cosine of the state's heading.
    pub fn process_state(&self, state: &State, trig: (i64, i64)) -> (r: Deriv)
        requires
            state.bounded(),
        ensures
            r == derivative(self@.tl, self@.tr, *state, trig),
    {
        proof {
            use_type_invariant(self);
        }
        state_derivative(self.tl, self.tr, state, trig)
    }
}

impl Drone {
    /// Thrusts for the next sub-step, from the controllers when enabled and
    /// else from the manual override.
    fn next_thrusts(&self, c1: &Mamdani, c2: &Mamdani, manual: Option<(bool, bool)>) -> (r: Result<(i64, i64), FuzzyError>)
        ensures
            match self@.thrusts(*c1, *c2, manual) {
                Ok(t) => r matches Ok(q) && q.0 == t.0 && q.1 == t.1 && 0 <= q.0 <= LIMIT && 0 <= q.1 <= LIMIT,
                Err(e) => r == Err::<(i64, i64), FuzzyError>(e),
            },
    {
        proof {
            use_type_invariant(self);
        }
        if self.enable {
            let ey = self.state.p.y - self.point.y;
            let alt = vec![
                (InputType::Y, ey),
                (InputType::Vy, self.state.v.y),
            ];
            assert(alt@ =~= self@.altitude_inputs());
            let amp = match c1.infer(alt.as_slice()) {
                Ok(a) => a,
                Err(e) => return Err(e),
            };
            let ex = self.state.p.x - self.point.x;
            let lat = vec![
                (InputType::X, ex),
                (InputType::Vx, self.state.v.x),
                (InputType::Th, self.state.th),
                (InputType::W, self.state.w),
            ];
            assert(lat@ =~= self@.lateral_inputs());
            let diff = match c2.infer(lat.as_slice()) {
                Ok(d) => d,
                Err(e) => return Err(e),
            };
            Ok(thrust_exec(amp, diff))
        } else {
            let g: i64 = TOTAL_MASS * MANUAL_GAIN;
            match manual {
                Some((l, r)) => Ok((if l { g } else { 0 }, if r { g } else { 0 })),
                None => Ok((0, 0)),
            }
        }
    }

    /// Advances the drone by one frame of length `dt`. A new `setpoint`
    /// replaces the point that the controllers steer to (held within the
    /// world's bounds). The frame is split into the base number of
    /// sub-steps, or into `round(60 * steps * dt)` of them when the frame is
    /// longer than 0.02 s, whose lengths add up to `dt`
    /// (`lemma_sub_steps_cover`); each sub-step takes fresh thrusts from the
    /// current state and integrates one Runge-Kutta step. `trig` gives the
    /// sine and cosine of a heading. Fails with the controllers' error when
    /// an inference fails.
    pub fn update<F: Fn(i64) -> (i64, i64)>(
        &mut self,
        controller: &Mamdani,
        controller2: &Mamdani,
        dt: i64,
        setpoint: Option<Point>,
        manual: Option<(bool, bool)>,
        trig: &F,
    ) -> (r: Result<(), FuzzyError>)
        requires
            0 <= dt <= MAX_DT,
            forall|t: i64| trig.requires((t,)),
        ensures
            configured_for(*controller, altitude_quantities()) && configured_for(*controller2, attitude_quantities())
                ==> r is Ok,
            ({
                let start = DroneModel {
                    point: match setpoint {
                        Some(p) => Point { x: sat(p.x as int) as i64, y: sat(p.y as int) as i64 },
                        None => old(self)@.point,
                    },
                    ..old(self)@
                };
                let n = sub_step_count(dt as int, old(self)@.steps);
                match r {
                    Ok(_) => exists|hist: Seq<DroneModel>|
                        {
                            &&& hist.len() == n + 1
                            &&& hist[0] == start
                            &&& hist[n] == final(self)@
                            &&& forall|i: int|
                                0 <= i < n ==> #[trigger] hist[i].substep(
                                    hist[i + 1],
                                    *controller,
                                    *controller2,
                                    manual,
                                    sub_step_len(dt as int, n, i),
                                    *trig,
                                )
                        },
                    Err(e) => exists|hist: Seq<DroneModel>|
                        {
                            &&& 1 <= hist.len() <= n
                            &&& hist[0] == start
                            &&& forall|i: int|
                                0 <= i < hist.len() - 1 ==> #[trigger] hist[i].substep(
                                    hist[i + 1],
                                    *controller,
                                    *controller2,
                                    manual,
                                    sub_step_len(dt as int, n, i),
                                    *trig,
                                )
                            &&& hist.last().thrusts(*controller, *controller2, manual) == Err::<(int, int), FuzzyError>(e)
                        },
                }
            }),
    {
        proof {
            use_type_invariant(&*self);
        }
        if let Some(p) = setpoint {
            self.point = Point { x: sat_exec(p.x as i128), y: sat_exec(p.y as i128) };
        }
        let n = sub_step_count_exec(dt, self.steps);
        let ghost start = self@;
        let ghost mut hist: Seq<DroneModel> = seq![self@];
        let mut i: u64 = 0;
        while i < n
            invariant
                0 <= dt <= MAX_DT,
                1 <= n,
                forall|t: i64| trig.requires((t,)),
                i <= n,
                hist.len() == i + 1,
                hist[0] == start,
                n == sub_step_count(dt as int, old(self)@.steps),
                start == (DroneModel {
                    point: match setpoint {
                        Some(p) => Point { x: sat(p.x as int) as i64, y: sat(p.y as int) as i64 },
                        None => old(self)@.point,
                    },
                    ..old(self)@
                }),
                hist[i as int] == self@,
                forall|j: int|
                    0 <= j < i ==> #[trigger] hist[j].substep(
                        hist[j + 1],
                        *controller,
                        *controller2,
                        manual,
                        sub_step_len(dt as int, n as int, j),
                        *trig,
                    ),
            decreases n - i,
        {
            proof {
                use_type_invariant(&*self);
            }
            let (tl, tr) = match self.next_thrusts(controller, controller2, manual) {
                Ok(t) => t,
                Err(e) => {
                    assert(hist.last().thrusts(*controller, *controller2, manual) == Err::<(int, int), FuzzyError>(e));
                    proof {
                        if configured_for(*controller, altitude_quantities()) && configured_for(
                            *controller2,
                            attitude_quantities(),
                        ) {
                            lemma_thrusts_available(self@, *controller, *controller2, manual);
                        }
                    }
                    return Err(e);
                },
            };
            let h = sub_step_len_exec(dt, n, i);
            let next = advance(tl, tr, &self.state, h, trig);
            let ghost before = self@;
            self.tl = tl;
            self.tr = tr;
            self.state = next;
            proof {
                assert(before.substep(self@, *controller, *controller2, manual, h as int, *trig)) by {
                    reveal(DroneModel::substep);
                }
                hist = hist.push(self@);
            }
            i = i + 1;
        }
        assert(hist[n as int] == self@);
        Ok(())
    }
}

impl Drone {
    /// The drone's state.
    pub fn state(&self) -> (r: State)
        ensures
            r == self@.state,
    {
        self.state
    }

    /// Whether the controllers fly the drone.
    pub fn enable(&self) -> (r: bool)
        ensures
            r == self@.enable,
    {
        self.enable
    }

    /// Hands the drone to the controllers (`true`) or to manual thrust.
    pub fn set_enable(&mut self, enable: bool)
        ensures
            final(self)@ == (DroneModel { enable, ..old(self)@ }),
    {
        proof {
            use_type_invariant(&*self);
        }
        self.enable = enable;
    }

    /// Base number of sub-steps of a frame.
    pub fn steps(&self) -> (r: u32)
        ensures
            r == self@.steps,
    {
        self.steps
    }

    /// Sets the base number of sub-steps of a frame.
    pub fn set_steps(&mut self, steps: u32)
        requires
            1 <= steps,
        ensures
            final(self)@ == (DroneModel { steps: steps as int, ..old(self)@ }),
    {
        proof {
            use_type_invariant(&*self);
        }
        self.steps = steps;
    }

    /// Thrusts of the left and right rotor in the last sub-step.
    pub fn thrusts(&self) -> (r: (i64, i64))
        ensures
            r.0 == self@.tl,
            r.1 == self@.tr,
    {
        (self.tl, self.tr)
    }

    /// The point that the controllers steer to.
    pub fn point(&self) -> (r: Point)
        ensures
            r == self@.point,
    {
        self.point
    }
}

/// Controllers configured for the drone's measurements, in the order in
/// which the drone hands them over, always yield thrusts.
pub proof fn lemma_thrusts_available(d: DroneModel, c1: Mamdani, c2: Mamdani, manual: Option<(bool, bool)>)
    requires
        configured_for(c1, altitude_quantities()),
        configured_for(c2, attitude_quantities()),
    ensures
        d.thrusts(c1, c2, manual) is Ok,
{
    if d.enable {
        lemma_configured_infers(c1, altitude_quantities(), d.altitude_inputs());
        lemma_configured_infers(c2, attitude_quantities(), d.lateral_inputs());
    }
}

/// Equal thrusts produce no angular acceleration; level (heading 0, whose
/// sine is 0 and cosine 1) they produce no horizontal acceleration and a
/// vertical acceleration of total thrust over total mass plus gravity.
pub proof fn lemma_symmetric_thrust(t: int, s: State)
    requires
        0 <= t <= LIMIT,
    ensures
        derivative(t, t, s, (0, ONE)).wdot == 0,
        derivative(t, t, s, (0, ONE)).vdot.x == 0,
        derivative(t, t, s, (0, ONE)).vdot.y == (t + t) * ONE / (TOTAL_MASS as int) + GRAVITY,
{
    let trig: (i64, i64) = (0, ONE);
    assert(unit(trig.0 as int) == 0);
    assert(t * 0 == 0);
    assert(-(t * unit(trig.0 as int)) / (TOTAL_MASS as int) == 0);
    assert(sat(0) == 0);
    let q = (t + t) * ONE / (TOTAL_MASS as int);
    assert(0 <= q <= 0x200_0000_0000) by (nonlinear_arith)
        requires q == (t + t) * ONE / 10_000_000, 0 <= t <= 0x100_0000_0000;
}

/// Without thrust the dynamics do not depend on the heading: a
/// Runge-Kutta step is the same whatever sines and cosines it is given,
/// keeps the horizontal velocity and the angular rate, and adds gravity
/// times the step to the vertical velocity (rounded down).
pub proof fn lemma_free_fall(s: State, h: int, tv1: Seq<(i64, i64)>, tv2: Seq<(i64, i64)>)
    requires
        s.bounded(),
        0 <= h <= MAX_DT,
    ensures
        rk4(0, 0, s, h, tv1) == rk4(0, 0, s, h, tv2),
        rk4(0, 0, s, h, tv1).v.x == s.v.x,
        rk4(0, 0, s, h, tv1).w == s.w,
        rk4(0, 0, s, h, tv1).v.y == sat(s.v.y + GRAVITY * h / (ONE as int)),
{
    assert(0 * ONE * ONE / (ARM * INERTIA) == 0);
    let st1 = stages(0, 0, s, h, tv1);
    let st2 = stages(0, 0, s, h, tv2);
    assert(st1[0].1 == st2[0].1);
    assert(st1 =~= st2);
    let k = blend_all(st1[0].1, st1[1].1, st1[2].1, st1[3].1);
    assert(k.vdot.y == GRAVITY);
    assert(k.vdot.x == 0);
    assert(k.wdot == 0);
    assert(0 * h == 0);
    assert(s.v.x + 0 * h / (ONE as int) == s.v.x);
    assert(s.w + 0 * h / (ONE as int) == s.w);
}

/// Average vertical speed gain of a thrustless Runge-Kutta step of length
/// `h`: the weighted speeds gained at the half and full step, that is
/// gravity times half the step, up to rounding.
pub open spec fn fall_drift(h: int) -> int {
    (4 * (GRAVITY * (h / 2) / (ONE as int)) + GRAVITY * h / (ONE as int)) / 6
}

/// Without thrust, while the vertical speed stays within the world's
/// bounds, a Runge-Kutta step moves the drone vertically at its speed plus
/// `fall_drift(h)`, the discrete form of `y + v h + g h^2 / 2`.
pub proof fn lemma_free_fall_position(s: State, h: int, tv: Seq<(i64, i64)>)
    requires
        s.bounded(),
        0 <= h <= MAX_DT,
        -LIMIT <= s.v.y + GRAVITY * h / (ONE as int),
    ensures
        rk4(0, 0, s, h, tv).p.y == sat(s.p.y + (s.v.y + fall_drift(h)) * h / (ONE as int)),
{
    let g = GRAVITY as int;
    let a = g * (h / 2) / (ONE as int);
    let b = g * h / (ONE as int);
    assert(b <= a <= 0) by (nonlinear_arith)
        requires g < 0, 0 <= h, a == g * (h / 2) / 1_000_000, b == g * h / 1_000_000;
    assert(0 * ONE * ONE / (ARM * INERTIA) == 0);
    let st = stages(0, 0, s, h, tv);
    assert forall|c: (i64, i64)| 0 * unit(c.1 as int) == 0 by {}
    assert(st[0].1.vdot.y == GRAVITY);
    assert(st[1].0.v.y == s.v.y + a);
    assert(st[1].1.vdot.y == GRAVITY);
    assert(st[2].0.v.y == s.v.y + a);
    assert(st[2].1.vdot.y == GRAVITY);
    assert(st[3].0.v.y == s.v.y + b);
    let v = s.v.y as int;
    assert((v + 2 * (v + a) + 2 * (v + a) + (v + b)) / 6 == v + (4 * a + b) / 6) by (nonlinear_arith);
    let k = blend_all(st[0].1, st[1].1, st[2].1, st[3].1);
    assert(k.v.y == v + fall_drift(h));
}

} // verus!
