use fuzzy_drone::controllers::{altitude_controller, attitude_controller};
use fuzzy_drone::funcs::{gbell, smf, zmf};
use fuzzy_drone::fuzzy::Fuzzy;
use fuzzy_drone::mamdani::Mamdani;
use fuzzy_drone::rules::{Amp, InputType, Inputs, Outputs, Vy, Y};
use fuzzy_drone::{FuzzyError, ONE};

fn scenario() -> Mamdani {
    let y = Fuzzy::new(
        "Y".to_string(),
        vec![(Inputs::Y(Y::N), zmf(0, 1_000_000)), (Inputs::Y(Y::P), smf(0, 1_000_000))],
        -7 * ONE,
        7 * ONE,
    )
    .unwrap();
    let out = Fuzzy::new(
        "Amp".to_string(),
        vec![
            (Outputs::Amp(Amp::L), gbell(200_000, 3, 1_000_000)),
            (Outputs::Amp(Amp::S), gbell(200_000, 3, 500_000)),
        ],
        0,
        10 * ONE,
    )
    .unwrap();
    Mamdani {
        rules: vec![
            (Inputs::Y(Y::P).rule(), Outputs::Amp(Amp::L)),
            (Inputs::Y(Y::N).rule(), Outputs::Amp(Amp::S)),
        ],
        inputs: vec![(InputType::Y, y)],
        output: out,
    }
}

#[test]
fn scenario_fuzzifies_zero_to_halves() {
    let m = scenario();
    assert_eq!(
        m.fuzzify(&[(InputType::Y, 0)]),
        Ok(vec![(Inputs::Y(Y::N), ONE / 2), (Inputs::Y(Y::P), ONE / 2)])
    );
}

#[test]
fn scenario_infers_between_the_centers() {
    let m = scenario();
    let mid = m.infer(&[(InputType::Y, 0)]).unwrap();
    assert_eq!(mid, 6_165_623);
    assert!(5 * ONE < mid && mid < 10 * ONE);
}

#[test]
fn scenario_leans_to_the_stronger_label() {
    let m = scenario();
    let high = m.infer(&[(InputType::Y, 3_500_000)]).unwrap();
    let low = m.infer(&[(InputType::Y, -3_500_000)]).unwrap();
    assert_eq!(high, 7_720_546);
    assert_eq!(low, 5_215_514);
    // Closer to the large center (10) than to the small one (5), and back.
    assert!(10 * ONE - high < high - 5 * ONE);
    assert!(low - 5 * ONE < 10 * ONE - low);
}

#[test]
fn rules_sharing_a_label_aggregate_by_maximum() {
    let mut m = scenario();
    // Y+ is 0.875 at 3.5; its complement is 0.125.
    m.rules = vec![
        (Inputs::Y(Y::P).not(), Outputs::Amp(Amp::L)),
        (Inputs::Y(Y::P).and(Inputs::Y(Y::P).rule()), Outputs::Amp(Amp::L)),
    ];
    let r = m.infer(&[(InputType::Y, 3_500_000)]).unwrap();
    // Small has no rule and gets cut 0; Large gets max(0.125, 0.875).
    let mut only = scenario();
    only.rules = vec![(Inputs::Y(Y::P).rule(), Outputs::Amp(Amp::L))];
    assert_eq!(r, only.infer(&[(InputType::Y, 3_500_000)]).unwrap());
}

#[test]
fn no_rule_fires_gives_midpoint() {
    let mut m = scenario();
    m.rules = vec![];
    assert_eq!(m.infer(&[(InputType::Y, 1)]), Ok(5 * ONE));
}

#[test]
fn unknown_input_is_reported() {
    let m = scenario();
    assert_eq!(m.fuzzify(&[(InputType::X, 0)]), Err(FuzzyError::UnknownInput));
    assert_eq!(m.infer(&[(InputType::Y, 0), (InputType::Th, 0)]), Err(FuzzyError::UnknownInput));
}

#[test]
fn unknown_atom_is_reported_by_infer() {
    let mut m = scenario();
    m.rules.push((Inputs::Vy(Vy::P).rule(), Outputs::Amp(Amp::S)));
    assert_eq!(m.infer(&[(InputType::Y, 0)]), Err(FuzzyError::UnknownAtom));
}

#[test]
fn rule_for_missing_output_label_is_reported() {
    let mut m = scenario();
    m.rules.push((Inputs::Y(Y::P).rule(), Outputs::Amp(Amp::Z)));
    assert_eq!(m.infer(&[(InputType::Y, 0)]), Err(FuzzyError::UnknownLabel));
}

#[test]
fn drone_controllers_infer_within_their_ranges() {
    let alt = altitude_controller();
    let att = attitude_controller();
    let a = alt.infer(&[(InputType::Y, -2 * ONE), (InputType::Vy, 0)]).unwrap();
    assert!(0 <= a && a <= 10 * ONE);
    let d = att
        .infer(&[(InputType::X, 0), (InputType::Vx, 0), (InputType::Th, 0), (InputType::W, 0)])
        .unwrap();
    assert!(-10 * ONE <= d && d <= 10 * ONE);
    // Below the setpoint and falling: more thrust than when above and rising.
    let above = alt.infer(&[(InputType::Y, 2 * ONE), (InputType::Vy, ONE)]).unwrap();
    assert!(a > above);
}

#[test]
fn duplicate_quantity_is_reported() {
    let mut m = scenario();
    let again = scenario().inputs.pop().unwrap();
    m.inputs.push(again);
    assert_eq!(m.fuzzify(&[(InputType::Y, 0)]), Err(FuzzyError::DuplicateInput));
    assert_eq!(m.infer(&[(InputType::Y, 0)]), Err(FuzzyError::DuplicateInput));
}
