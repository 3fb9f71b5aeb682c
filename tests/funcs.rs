use fuzzy_drone::funcs::{cliff, gbell, mount, smf, tri, zmf, Shape};
use fuzzy_drone::ONE;

const HALF: i64 = ONE / 2;

#[test]
fn tri_ramps_up_and_down() {
    let f = tri(0, 500_000, 1_000_000);
    assert_eq!(f.eval(-1), 0);
    assert_eq!(f.eval(0), 0);
    assert_eq!(f.eval(250_000), HALF);
    assert_eq!(f.eval(500_000), ONE);
    assert_eq!(f.eval(750_000), HALF);
    assert_eq!(f.eval(1_000_000), 0);
    assert_eq!(f.eval(2_000_000), 0);
}

#[test]
fn tri_with_peak_at_foot_is_a_step() {
    let f = tri(0, 0, 1_000_000);
    assert_eq!(f.eval(-1), 0);
    assert_eq!(f.eval(0), ONE);
    assert_eq!(f.eval(500_000), HALF);
}

#[test]
fn cliff_and_mount_are_shoulders() {
    let c = cliff(200_000, 600_000);
    assert_eq!(c.eval(0), ONE);
    assert_eq!(c.eval(400_000), HALF);
    assert_eq!(c.eval(600_000), 0);
    let m = mount(200_000, 600_000);
    assert_eq!(m.eval(0), 0);
    assert_eq!(m.eval(300_000), 250_000);
    assert_eq!(m.eval(600_000), ONE);
    assert_eq!(m.eval(i64::MAX), ONE);
}

#[test]
fn zero_width_shoulders_are_steps() {
    let c = cliff(300_000, 300_000);
    assert_eq!(c.eval(299_999), ONE);
    assert_eq!(c.eval(300_000), 0);
    let z = zmf(300_000, 300_000);
    assert_eq!(z.eval(299_999), ONE);
    assert_eq!(z.eval(300_000), 0);
    let s = smf(300_000, 300_000);
    assert_eq!(s.eval(299_999), 0);
    assert_eq!(s.eval(300_000), ONE);
}

#[test]
fn splines_follow_quadratic_pieces() {
    let z = zmf(0, 1_000_000);
    let s = smf(0, 1_000_000);
    // 2 * 0.25^2 = 0.125
    assert_eq!(s.eval(250_000), 125_000);
    assert_eq!(z.eval(250_000), 875_000);
    assert_eq!(s.eval(750_000), 875_000);
    assert_eq!(z.eval(750_000), 125_000);
    assert_eq!(z.eval(-5), ONE);
    assert_eq!(s.eval(1_000_001), ONE);
}

#[test]
fn z_and_s_cross_at_one_half() {
    assert_eq!(zmf(0, 1_000_000).eval(500_000), HALF);
    assert_eq!(smf(0, 1_000_000).eval(500_000), HALF);
    assert_eq!(zmf(-300, 700).eval(200), HALF);
    assert_eq!(smf(-300, 700).eval(200), HALF);
}

#[test]
fn bell_values() {
    let b = gbell(200_000, 3, 500_000);
    assert_eq!(b.eval(500_000), ONE);
    // |t| = 1 at one width from the center: 1 / (1 + 1) = 0.5
    assert_eq!(b.eval(700_000), HALF);
    assert_eq!(b.eval(300_000), HALF);
    // |t| = 2: 1 / (1 + 64)
    assert_eq!(b.eval(900_000), ONE / 65);
    assert_eq!(b.eval(i64::MAX), 0);
    assert_eq!(b.eval(i64::MIN), 0);
}

#[test]
fn bell_of_zero_width_is_a_spike() {
    let b = gbell(0, 3, 100);
    assert_eq!(b.eval(100), ONE);
    assert_eq!(b.eval(101), 0);
    assert_eq!(b.eval(99), 0);
}

#[test]
fn bell_of_slope_zero_is_one_half() {
    let b = gbell(10, 0, 0);
    assert_eq!(b.eval(123_456), HALF);
}

#[test]
fn degrees_stay_between_zero_and_one() {
    let shapes = [
        tri(-100, 50, 400),
        tri(300, 100, -50),
        cliff(5, -5),
        mount(-7, 7),
        zmf(10, 3_000),
        smf(-2_000_000_000, 2_000_000_000),
        gbell(-7, 2, 0),
        gbell(1, 255, 3),
        Shape::Tri { a: i32::MIN, p: 0, b: i32::MAX },
    ];
    let xs = [i64::MIN, -2_000_000_001, -1000, -7, 0, 1, 49, 2_999, 1_000_000, 2_000_000_000, i64::MAX];
    for s in shapes.iter() {
        for &x in xs.iter() {
            let d = s.eval(x);
            assert!(0 <= d && d <= ONE, "{:?} at {} gave {}", s, x, d);
        }
    }
}

#[test]
fn spline_tails_stay_open_until_the_end() {
    let z = zmf(0, 1_000_000);
    let s = smf(0, 1_000_000);
    // 2 * (1e-6)^2 is far below one millionth, yet the tail is not reached.
    assert_eq!(z.eval(999_999), 1);
    assert_eq!(s.eval(999_999), ONE - 1);
    assert_eq!(z.eval(1_000_000), 0);
    assert_eq!(s.eval(1_000_000), ONE);
    for x in [0, 1, 250_000, 499_999, 500_000, 500_001, 900_000, 999_000, 999_999] {
        let (zv, sv) = (z.eval(x), s.eval(x));
        assert_eq!(zv + sv, ONE);
        if x < 500_000 {
            assert!(HALF < zv && zv <= ONE);
            assert!(0 <= sv && sv < HALF);
        } else {
            assert!(0 < zv && zv <= HALF);
            assert!(HALF <= sv && sv < ONE);
        }
    }
}
