use fuzzy_drone::funcs::{gbell, mount, smf, tri, zmf};
use fuzzy_drone::fuzzy::Fuzzy;
use fuzzy_drone::rules::{Amp, Inputs, Outputs, Y};
use fuzzy_drone::{FuzzyError, ONE};

const HALF: i64 = ONE / 2;

fn y_variable() -> Fuzzy<Inputs> {
    Fuzzy::new(
        "Y".to_string(),
        vec![(Inputs::Y(Y::N), zmf(0, 1_000_000)), (Inputs::Y(Y::P), smf(0, 1_000_000))],
        -7 * ONE,
        7 * ONE,
    )
    .unwrap()
}

fn amp_variable() -> Fuzzy<Outputs> {
    Fuzzy::new(
        "Amp".to_string(),
        vec![
            (Outputs::Amp(Amp::S), tri(0, 250_000, 500_000)),
            (Outputs::Amp(Amp::L), tri(500_000, 750_000, 1_000_000)),
        ],
        0,
        10 * ONE,
    )
    .unwrap()
}

#[test]
fn fuzzify_at_crossover_gives_equal_halves() {
    let y = y_variable();
    assert_eq!(y.fuzzify(0), vec![(Inputs::Y(Y::N), HALF), (Inputs::Y(Y::P), HALF)]);
}

#[test]
fn fuzzify_in_range() {
    let y = y_variable();
    // 3.5 normalizes to 0.75
    assert_eq!(y.fuzzify(3_500_000), vec![(Inputs::Y(Y::N), 125_000), (Inputs::Y(Y::P), 875_000)]);
}

#[test]
fn fuzzify_at_boundaries() {
    let y = y_variable();
    assert_eq!(y.fuzzify(-7 * ONE), vec![(Inputs::Y(Y::N), ONE), (Inputs::Y(Y::P), 0)]);
    assert_eq!(y.fuzzify(7 * ONE), vec![(Inputs::Y(Y::N), 0), (Inputs::Y(Y::P), ONE)]);
}

#[test]
fn fuzzify_out_of_range_unclamped_and_clamped() {
    let v = Fuzzy::new("T".to_string(), vec![(Inputs::Y(Y::P), tri(0, 500_000, 1_000_000))], 0, ONE).unwrap();
    // 1.2 lies beyond the triangle's support, and also beyond the range.
    assert_eq!(v.fuzzify(1_200_000), vec![(Inputs::Y(Y::P), 0)]);
    let m = Fuzzy::new("M".to_string(), vec![(Inputs::Y(Y::P), mount(1_000_000, 2_000_000))], 0, ONE).unwrap();
    assert_eq!(m.fuzzify(1_500_000), vec![(Inputs::Y(Y::P), HALF)]);
    let mut c = m;
    c.set_clamp(true);
    assert!(c.clamp());
    // Clamped to the end of the range, which the shoulder has not left yet.
    assert_eq!(c.fuzzify(1_500_000), vec![(Inputs::Y(Y::P), 0)]);
    assert_eq!(c.fuzzify(i64::MIN), vec![(Inputs::Y(Y::P), 0)]);
}

#[test]
fn fuzzify_extreme_inputs() {
    let y = y_variable();
    assert_eq!(y.fuzzify(i64::MAX), vec![(Inputs::Y(Y::N), 0), (Inputs::Y(Y::P), ONE)]);
    assert_eq!(y.fuzzify(i64::MIN), vec![(Inputs::Y(Y::N), ONE), (Inputs::Y(Y::P), 0)]);
}

#[test]
fn new_rejects_empty_range_and_duplicate_labels() {
    let e = Fuzzy::new("E".to_string(), vec![(Inputs::Y(Y::P), smf(0, 1))], 5, 5);
    assert_eq!(e.err(), Some(FuzzyError::EmptyRange));
    let d = Fuzzy::new(
        "D".to_string(),
        vec![(Inputs::Y(Y::P), smf(0, 1)), (Inputs::Y(Y::N), zmf(0, 1)), (Inputs::Y(Y::P), zmf(0, 1))],
        0,
        ONE,
    );
    assert_eq!(d.err(), Some(FuzzyError::DuplicateLabel));
}

#[test]
fn defuzzify_single_full_triangle_gives_its_peak() {
    let a = amp_variable();
    let cuts = vec![(Outputs::Amp(Amp::S), 0), (Outputs::Amp(Amp::L), ONE)];
    // A triangle around 0.75 of the range 0..10; the hundred samples are
    // not quite symmetric about its peak.
    assert_eq!(a.defuzzify(&cuts), Ok(7_499_484));
}

#[test]
fn defuzzify_label_count_mismatch() {
    let a = amp_variable();
    let cuts = vec![(Outputs::Amp(Amp::S), ONE)];
    assert_eq!(a.defuzzify(&cuts), Err(FuzzyError::LabelCountMismatch));
    assert_eq!(a.defuzzify(&cuts), Err(FuzzyError::LabelCountMismatch));
    let three = vec![(Outputs::Amp(Amp::S), 1), (Outputs::Amp(Amp::L), 1), (Outputs::Amp(Amp::Z), 1)];
    assert_eq!(a.defuzzify(&three), Err(FuzzyError::LabelCountMismatch));
}

#[test]
fn defuzzify_unknown_label() {
    let a = amp_variable();
    let cuts = vec![(Outputs::Amp(Amp::S), ONE), (Outputs::Amp(Amp::Z), ONE)];
    assert_eq!(a.defuzzify(&cuts), Err(FuzzyError::UnknownLabel));
}

#[test]
fn defuzzify_all_zero_gives_midpoint() {
    let a = amp_variable();
    let cuts = vec![(Outputs::Amp(Amp::S), 0), (Outputs::Amp(Amp::L), 0)];
    assert_eq!(a.defuzzify(&cuts), Ok(5 * ONE));
}

#[test]
fn defuzzify_is_repeatable_and_ignores_cut_order() {
    let a = amp_variable();
    let c1 = vec![(Outputs::Amp(Amp::S), 300_000), (Outputs::Amp(Amp::L), 800_000)];
    let c2 = vec![(Outputs::Amp(Amp::L), 800_000), (Outputs::Amp(Amp::S), 300_000)];
    let r1 = a.defuzzify(&c1);
    let r2 = a.defuzzify(&c1);
    let r3 = a.defuzzify(&c2);
    assert!(r1.is_ok());
    assert_eq!(r1, r2);
    assert_eq!(r1, r3);
    assert_eq!(r1, Ok(5_765_484));
}

#[test]
fn defuzzify_resolution_changes_sampling() {
    let mut a = Fuzzy::new("B".to_string(), vec![(Outputs::Amp(Amp::L), gbell(100_000, 2, 1_000_000))], 0, ONE).unwrap();
    assert_eq!(a.resolution(), 100);
    a.set_resolution(2);
    // Samples at 0, of height 1 / (1 + 10^4), and at 1, of height 1.
    let cuts = vec![(Outputs::Amp(Amp::L), ONE)];
    assert_eq!(a.defuzzify(&cuts), Ok(999_901));
    assert_eq!(a.range(), (0, ONE));
    assert_eq!(a.name(), "B");
}
