use fuzzy_drone::rules::{Amp, Diff, InputType, Inputs, Outputs, Rule, Th, Vy, X, Y};
use fuzzy_drone::FuzzyError;

fn table() -> Vec<(Inputs, i64)> {
    vec![(Inputs::Y(Y::N), 300_000), (Inputs::Vy(Vy::P), 700_000)]
}

#[test]
fn and_takes_the_minimum() {
    let a = Inputs::Y(Y::N);
    let b = Inputs::Vy(Vy::P);
    assert_eq!(a.and(b.rule()).resolve(&table()), Ok(300_000));
    assert_eq!(b.rule().and(a.rule()).resolve(&table()), Ok(300_000));
}

#[test]
fn or_takes_the_maximum() {
    let a = Inputs::Y(Y::N);
    let b = Inputs::Vy(Vy::P);
    assert_eq!(a.or(b.rule()).resolve(&table()), Ok(700_000));
}

#[test]
fn not_takes_the_complement() {
    let a = Inputs::Y(Y::N);
    assert_eq!(a.not().resolve(&table()), Ok(700_000));
    assert_eq!(a.rule().not().not().resolve(&table()), Ok(300_000));
}

#[test]
fn nested_rule_evaluates_as_a_tree() {
    let a = Inputs::Y(Y::N);
    let b = Inputs::Vy(Vy::P);
    // (a AND b) OR NOT a = max(min(0.3, 0.7), 0.7)
    let r = a.and(b.rule()).or(a.not());
    assert_eq!(r.resolve(&table()), Ok(700_000));
    // NOT (a OR b) AND b = min(0.3, 0.7)
    let r2 = a.or(b.rule()).not().and(b.rule());
    assert_eq!(r2.resolve(&table()), Ok(300_000));
}

#[test]
fn unknown_atom_is_reported() {
    let r = Inputs::Y(Y::N).and(Inputs::X(X::Z).rule());
    assert_eq!(r.resolve(&table()), Err(FuzzyError::UnknownAtom));
    assert_eq!(Inputs::Th(Th::P).not().resolve(&table()), Err(FuzzyError::UnknownAtom));
}

#[test]
fn first_entry_of_a_label_wins() {
    let t = vec![(Inputs::Y(Y::P), 100_000), (Inputs::Y(Y::P), 900_000)];
    assert_eq!(Inputs::Y(Y::P).rule().resolve(&t), Ok(100_000));
}

#[test]
fn rule_from_input_and_clone() {
    let r: Rule = Inputs::Y(Y::P).into();
    let c = r.clone();
    assert_eq!(c.resolve(&vec![(Inputs::Y(Y::P), 42)]), Ok(42));
}

#[test]
fn label_names() {
    assert_eq!(Inputs::Y(Y::N).name(), "Y-");
    assert_eq!(Inputs::Th(Th::Z).name(), "Th0");
    assert_eq!(Inputs::Vy(Vy::P).name(), "Vy+");
    assert_eq!(Outputs::Amp(Amp::Z).name(), "None");
    assert_eq!(Outputs::Amp(Amp::L).name(), "Large");
    assert_eq!(Outputs::Diff(Diff::PM).name(), "PM");
    assert_eq!(InputType::Vx.name(), "Vx");
}
