use fuzzy_drone::bezier::Bezier;
use fuzzy_drone::pid::PID;
use fuzzy_drone::ONE;

#[test]
fn pid_first_output_has_no_derivative() {
    let mut p = PID::new(2 * ONE, ONE, ONE);
    // 2 * 0.5 + 1 * (0.5 * 0.1) + 1 * 0
    assert_eq!(p.output(ONE / 2, ONE / 10), 1_050_000);
}

#[test]
fn pid_accumulates_and_differentiates() {
    let mut p = PID::new(ONE, ONE / 2, ONE / 10);
    p.output(ONE, ONE / 10);
    // integral 0.1 + 0.05 = 0.15; derivative (0.5 - 1) / 0.1 = -5
    // 0.5 + 0.5 * 0.15 + 0.1 * -5 = 0.075
    assert_eq!(p.output(ONE / 2, ONE / 10), 75_000);
}

#[test]
fn bezier_ends_at_corners() {
    let b = Bezier::new((420_000, 0), (580_000, ONE as i32));
    assert_eq!(b.point(0), (0, 0));
    assert_eq!(b.point(ONE), (ONE, ONE));
    // Symmetric easing passes through the middle.
    assert_eq!(b.point(ONE / 2), (ONE / 2, ONE / 2));
}

#[test]
fn bezier_straight_line() {
    let b = Bezier::new((333_333, 333_333), (666_667, 666_667));
    let pts = b.get_n_points(5);
    assert_eq!(pts.len(), 5);
    assert_eq!(pts[0], (0, 0));
    assert_eq!(pts[2], (500_000, 500_000));
    assert_eq!(pts[4], (ONE, ONE));
    assert!((pts[1].0 - 250_000).abs() <= 1);
}
