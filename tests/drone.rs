use fuzzy_drone::controllers::{altitude_controller, attitude_controller};
use fuzzy_drone::drone::{advance, state_derivative, Drone, GRAVITY, TOTAL_MASS};
use fuzzy_drone::state::{Deriv, Point, State};
use fuzzy_drone::ONE;

fn trig(th: i64) -> (i64, i64) {
    let t = th as f64 / ONE as f64;
    ((t.sin() * ONE as f64).round() as i64, (t.cos() * ONE as f64).round() as i64)
}

fn at_rest(y: i64) -> State {
    State::from(Point { x: 0, y }, Point { x: 0, y: 0 }, 0, 0)
}

#[test]
fn symmetric_thrust_level() {
    let s = at_rest(0);
    let d = state_derivative(5 * ONE, 5 * ONE, &s, trig(0));
    assert_eq!(TOTAL_MASS, 10 * ONE);
    assert_eq!(d.wdot, 0);
    assert_eq!(d.vdot.x, 0);
    assert_eq!(d.vdot.y, (10 * ONE) * ONE / TOTAL_MASS + GRAVITY);
    assert_eq!(d.vdot.y, ONE - 9_806_650);
}

#[test]
fn unequal_thrust_turns() {
    let s = at_rest(0);
    let d = state_derivative(0, 12_249_999, &s, trig(0));
    // (Tr - Tl) / (arm * inertia) = 12.249999 / (1.5 * 8.166666)
    assert_eq!(d.wdot, ONE);
    let d2 = state_derivative(12_249_999, 0, &s, trig(0));
    assert_eq!(d2.wdot, -ONE);
}

#[test]
fn tilted_thrust_pushes_sideways() {
    let s = State::from(Point { x: 0, y: 0 }, Point { x: 0, y: 0 }, 1_570_796, 0);
    let d = state_derivative(5 * ONE, 5 * ONE, &s, trig(s.th));
    assert_eq!(d.vdot.x, -ONE);
    assert_eq!(d.vdot.y, GRAVITY);
}

fn fall(steps: i64, y0: i64) -> i64 {
    let mut s = at_rest(y0);
    let h = ONE / steps;
    for _ in 0..steps {
        s = advance(0, 0, &s, h, &trig);
    }
    s.p.y
}

#[test]
fn free_fall_matches_closed_form() {
    let y0 = 100 * ONE;
    let exact = y0 - 4_903_325;
    let e5 = (fall(5, y0) - exact).abs();
    let e100 = (fall(100, y0) - exact).abs();
    assert_eq!(e5, 0);
    // Only rounding remains, one unit per step at most.
    assert!(e100 <= 100);
}

#[test]
fn free_fall_velocity() {
    let s = advance(0, 0, &at_rest(0), ONE / 4, &trig);
    assert_eq!(s.v.y, GRAVITY / 4 - 1);
    assert_eq!(s.v.x, 0);
    assert_eq!(s.th, 0);
}

#[test]
fn state_update_and_after() {
    let s = State::default();
    assert_eq!(s.unpack(), (Point { x: 5_750_000, y: 0 }, Point { x: 0, y: 0 }, 0, 0));
    let k = Deriv { v: Point { x: ONE, y: -ONE }, vdot: Point { x: 2 * ONE, y: 0 }, w: ONE, wdot: -ONE };
    let a = s.after(k, ONE / 2);
    assert_eq!(a.p, Point { x: 6_250_000, y: -500_000 });
    assert_eq!(a.v, Point { x: ONE, y: 0 });
    assert_eq!(a.th, 500_000);
    assert_eq!(a.w, -500_000);
    let mut b = s;
    b.update(k, ONE / 2);
    assert_eq!(a, b);
}

#[test]
fn new_drone_defaults() {
    let d = Drone::new();
    assert!(d.enable());
    assert_eq!(d.steps(), 5);
    assert_eq!(d.thrusts(), (0, 0));
    assert_eq!(d.state(), State::default());
    assert_eq!(d.point(), Point { x: 5_750_000, y: 0 });
}

#[test]
fn disabled_drone_without_override_falls() {
    let alt = altitude_controller();
    let att = attitude_controller();
    let mut d = Drone::new();
    d.set_enable(false);
    d.update(&alt, &att, 10_000, None, None, &trig).unwrap();
    assert_eq!(d.thrusts(), (0, 0));
    assert!(d.state().v.y < 0);
    assert!(d.state().p.y < 0);
}

#[test]
fn manual_override_thrusts_when_disabled() {
    let alt = altitude_controller();
    let att = attitude_controller();
    let mut d = Drone::new();
    d.set_enable(false);
    d.update(&alt, &att, 10_000, None, Some((true, false)), &trig).unwrap();
    assert_eq!(d.thrusts(), (120 * ONE, 0));
    assert!(d.state().w < 0);
}

#[test]
fn controllers_lift_a_drone_below_its_setpoint() {
    let alt = altitude_controller();
    let att = attitude_controller();
    let mut d = Drone::new();
    d.update(&alt, &att, 16_000, Some(Point { x: 5_750_000, y: 3 * ONE }), None, &trig).unwrap();
    assert_eq!(d.point(), Point { x: 5_750_000, y: 3 * ONE });
    let (tl, tr) = d.thrusts();
    assert!(tl > 0 && tr > 0);
    assert!(d.state().v.y > 0);
}

#[test]
fn slow_frames_take_more_sub_steps() {
    let alt = altitude_controller();
    let att = attitude_controller();
    let mut a = Drone::new();
    let mut b = Drone::new();
    a.set_enable(false);
    b.set_enable(false);
    b.set_steps(1);
    // A 0.1 s frame: 30 sub-steps with the default base of 5, 6 with a base of 1.
    a.update(&alt, &att, 100_000, None, None, &trig).unwrap();
    b.update(&alt, &att, 100_000, None, None, &trig).unwrap();
    // Each sub-step adds gravity times its length, rounded down; the
    // lengths (3_333 or 3_334, and 16_666 or 16_667 µs) add up to 0.1 s.
    let gain = |dt: i64, n: i64| -> i64 {
        (0..n).map(|i| (GRAVITY * (dt * (i + 1) / n - dt * i / n)).div_euclid(ONE)).sum()
    };
    assert_eq!(a.state().v.y, gain(100_000, 30));
    assert_eq!(b.state().v.y, gain(100_000, 6));
    assert_eq!(a.state().v.y, -980_680);
    assert_eq!(b.state().v.y, -980_668);
}

#[test]
fn misconfigured_controller_fails_the_frame() {
    let alt = altitude_controller();
    let att = attitude_controller();
    let mut d = Drone::new();
    // The attitude controller has no vertical variables.
    assert_eq!(
        d.update(&att, &alt, 10_000, None, None, &trig),
        Err(fuzzy_drone::FuzzyError::UnknownInput)
    );
}

#[test]
fn many_base_sub_steps_are_accepted() {
    let alt = altitude_controller();
    let att = attitude_controller();
    let mut d = Drone::new();
    d.set_enable(false);
    d.set_steps(1_000);
    assert_eq!(d.steps(), 1_000);
    d.update(&alt, &att, 10_000, None, None, &trig).unwrap();
    // 1000 sub-steps of 10 µs each: gravity adds -99 units apiece.
    assert_eq!(d.state().v.y, 1_000 * (GRAVITY * 10).div_euclid(ONE));
}

#[test]
fn thrustless_step_moves_at_speed_plus_drift() {
    let s = State::from(Point { x: 0, y: 0 }, Point { x: 0, y: -ONE }, 0, 0);
    let h = ONE / 4;
    let a = (GRAVITY * (h / 2)).div_euclid(ONE);
    let b = (GRAVITY * h).div_euclid(ONE);
    let drift = (4 * a + b).div_euclid(6);
    let r = advance(0, 0, &s, h, &trig);
    assert_eq!(r.p.y, ((-ONE + drift) * h).div_euclid(ONE));
    assert_eq!(r.p.y, -556_458);
    assert_eq!(r.v.y, -ONE + b);
}
