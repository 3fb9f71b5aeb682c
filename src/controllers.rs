//! The drone's two controllers: collective thrust from the vertical error,
//! and thrust difference from the horizontal error and the attitude.
use vstd::prelude::*;
use crate::ONE;
use crate::funcs::{gbell, smf, zmf, Shape};
use crate::fuzzy::{Fuzzy, FuzzyModel, DEFAULT_RESOLUTION};
use crate::drone::{altitude_quantities, attitude_quantities};
use crate::mamdani::{configured_for, input_labels, Mamdani};
use crate::rules::{lemma_uses_only_widen, uses_only, Amp, Diff, InputType, Inputs, Outputs, Rule, Th, Vx, Vy, W, X, Y};

verus! {

/// The rule made of one atom.
pub open spec fn atom(i: Inputs) -> Rule {
    Rule::Input(i)
}

/// `a AND b`.
pub open spec fn both(a: Rule, b: Rule) -> Rule {
    Rule::And(Box::new(a), Box::new(b))
}

/// `a OR b`.
pub open spec fn either(a: Rule, b: Rule) -> Rule {
    Rule::Or(Box::new(a), Box::new(b))
}

/// The heading label of row `i / 3` and the position label of column
/// `i % 3` of the attitude rule table, each in the order negative, zero,
/// positive, together with the horizontal velocity label `v`.
pub open spec fn cell_rule(v: Inputs, i: int) -> Rule {
    let th = if i / 3 == 0 {
        Inputs::Th(Th::N)
    } else if i / 3 == 1 {
        Inputs::Th(Th::Z)
    } else {
        Inputs::Th(Th::P)
    };
    let x = if i % 3 == 0 {
        Inputs::X(X::N)
    } else if i % 3 == 1 {
        Inputs::X(X::Z)
    } else {
        Inputs::X(X::P)
    };
    both(both(atom(v), atom(th)), atom(x))
}

/// A variable over `start..end` with the given functions, sampled
/// `DEFAULT_RESOLUTION` times and not clamping.
pub open spec fn variable<V>(functions: Seq<(V, Shape)>, start: int, end: int) -> FuzzyModel<V> {
    FuzzyModel { functions, start, end, resolution: DEFAULT_RESOLUTION as nat, clamp: false }
}

/// The altitude rules: rising above the setpoint asks for no thrust, being
/// on the way to it for small thrust, falling below it for large thrust.
pub open spec fn altitude_rules() -> Seq<(Rule, Outputs)> {
    let (yn, yp) = (Inputs::Y(Y::N), Inputs::Y(Y::P));
    let (vyn, vyp) = (Inputs::Vy(Vy::N), Inputs::Vy(Vy::P));
    seq![
        (both(atom(yp), atom(vyp)), Outputs::Amp(Amp::Z)),
        (either(both(atom(yp), atom(vyn)), both(atom(yn), atom(vyp))), Outputs::Amp(Amp::S)),
        (both(atom(yn), atom(vyn)), Outputs::Amp(Amp::L)),
    ]
}

/// The attitude rules, over the cells of the rule tables for positive and
/// negative horizontal velocity and the angular rate.
pub open spec fn attitude_rules() -> Seq<(Rule, Outputs)> {
    let (p, n) = (Inputs::Vx(Vx::P), Inputs::Vx(Vx::N));
    let c = |v: Inputs, i: int| cell_rule(v, i);
    seq![
        (either(c(n, 6), c(n, 3)), Outputs::Diff(Diff::NL)),
        (either(either(either(c(n, 8), c(p, 6)), c(p, 7)), c(n, 7)), Outputs::Diff(Diff::NM)),
        (either(either(either(c(p, 3), c(p, 8)), c(n, 4)), atom(Inputs::W(W::P))), Outputs::Diff(Diff::NS)),
        (both(atom(Inputs::X(X::Z)), atom(Inputs::Th(Th::Z))), Outputs::Diff(Diff::Z)),
        (either(either(either(c(p, 4), c(n, 5)), c(n, 0)), atom(Inputs::W(W::N))), Outputs::Diff(Diff::PS)),
        (either(either(either(c(p, 0), c(p, 1)), c(n, 2)), c(n, 1)), Outputs::Diff(Diff::PM)),
        (either(c(p, 5), c(p, 2)), Outputs::Diff(Diff::PL)),
    ]
}

/// The attitude condition of cell `i` of the rule table for horizontal
/// velocity label `v`.
fn cell(v: Inputs, i: usize) -> (r: Rule)
    requires
        i < 9,
    ensures
        r == cell_rule(v, i as int),
{
    let th = if i / 3 == 0 {
        Inputs::Th(Th::N)
    } else if i / 3 == 1 {
        Inputs::Th(Th::Z)
    } else {
        Inputs::Th(Th::P)
    };
    let x = if i % 3 == 0 {
        Inputs::X(X::N)
    } else if i % 3 == 1 {
        Inputs::X(X::Z)
    } else {
        Inputs::X(X::P)
    };
    v.and(th.rule()).and(x.rule())
}

/// The altitude controller: collective thrust amplitude from the vertical
/// position error and the vertical velocity.
pub fn altitude_controller() -> (r: Mamdani)
    ensures
        r.rules@ == altitude_rules(),
        r.inputs@.len() == 2,
        r.inputs@[0].0 == InputType::Y,
        r.inputs@[0].1@ == variable(
            seq![(Inputs::Y(Y::N), Shape::Z { a: 0, b: 1_000_000 }), (Inputs::Y(Y::P), Shape::S { a: 0, b: 1_000_000 })],
            -7 * ONE,
            7 * ONE,
        ),
        r.inputs@[1].0 == InputType::Vy,
        r.inputs@[1].1@ == variable(
            seq![
                (Inputs::Vy(Vy::N), Shape::Z { a: 250_000, b: 750_000 }),
                (Inputs::Vy(Vy::P), Shape::S { a: 250_000, b: 750_000 }),
            ],
            -8 * ONE,
            8 * ONE,
        ),
        r.output@ == variable(
            seq![
                (Outputs::Amp(Amp::Z), Shape::Bell { width: 300_000, slope: 3, center: 0 }),
                (Outputs::Amp(Amp::S), Shape::Bell { width: 200_000, slope: 3, center: 500_000 }),
                (Outputs::Amp(Amp::L), Shape::Bell { width: 200_000, slope: 3, center: 1_000_000 }),
            ],
            0,
            10 * ONE,
        ),
        configured_for(r, altitude_quantities()),
{
    let (yn, yp) = (Inputs::Y(Y::N), Inputs::Y(Y::P));
    let (vyn, vyp) = (Inputs::Vy(Vy::N), Inputs::Vy(Vy::P));
    let y = Fuzzy::new(InputType::Y.name(), vec![(yn, zmf(0, 1_000_000)), (yp, smf(0, 1_000_000))], -7 * ONE, 7 * ONE)
        .unwrap();
    let vy = Fuzzy::new(
        InputType::Vy.name(),
        vec![(vyn, zmf(250_000, 750_000)), (vyp, smf(250_000, 750_000))],
        -8 * ONE,
        8 * ONE,
    ).unwrap();
    let output = Fuzzy::new(
        "Amp".to_owned(),
        vec![
            (Outputs::Amp(Amp::Z), gbell(300_000, 3, 0)),
            (Outputs::Amp(Amp::S), gbell(200_000, 3, 500_000)),
            (Outputs::Amp(Amp::L), gbell(200_000, 3, 1_000_000)),
        ],
        0,
        10 * ONE,
    ).unwrap();
    let slow = yp.and(vyn.rule()).or(yn.and(vyp.rule()));
    let r = Mamdani {
        rules: vec![
            (yp.and(vyp.rule()), Outputs::Amp(Amp::Z)),
            (slow, Outputs::Amp(Amp::S)),
            (yn.and(vyn.rule()), Outputs::Amp(Amp::L)),
        ],
        inputs: vec![(InputType::Y, y), (InputType::Vy, vy)],
        output,
    };
    proof {
        assert(r.rules@ =~= altitude_rules());
        let labels = set![yn, yp, vyn, vyp];
        assert(r.inputs@[0].1@.functions[0].0 == yn);
        assert(r.inputs@[0].1@.functions[1].0 == yp);
        assert(r.inputs@[1].1@.functions[0].0 == vyn);
        assert(r.inputs@[1].1@.functions[1].0 == vyp);
        assert(labels.subset_of(input_labels(r)));
        assert forall|k: int| 0 <= k < r.rules@.len() implies uses_only(#[trigger] r.rules@[k].0, input_labels(r)) by {
            lemma_uses_only_widen(r.rules@[k].0, labels, input_labels(r));
        }
        assert(r.output@.functions[0].0 == Outputs::Amp(Amp::Z));
        assert(r.output@.functions[1].0 == Outputs::Amp(Amp::S));
        assert(r.output@.functions[2].0 == Outputs::Amp(Amp::L));
    }
    r
}

/// The attitude controller: thrust difference between the rotors from the
/// horizontal position error, the horizontal velocity, the heading and the
/// angular rate.
pub fn attitude_controller() -> (r: Mamdani)
    ensures
        r.rules@ == attitude_rules(),
        r.inputs@.len() == 4,
        r.inputs@[0].0 == InputType::X,
        r.inputs@[0].1@ == variable(
            seq![
                (Inputs::X(X::N), Shape::Z { a: 0, b: 900_000 }),
                (Inputs::X(X::Z), Shape::Bell { width: 200_000, slope: 1, center: 500_000 }),
                (Inputs::X(X::P), Shape::S { a: 100_000, b: 1_000_000 }),
            ],
            -10 * ONE,
            10 * ONE,
        ),
        r.inputs@[1].0 == InputType::Vx,
        r.inputs@[1].1@ == variable(
            seq![(Inputs::Vx(Vx::N), Shape::Z { a: 0, b: 1_000_000 }), (Inputs::Vx(Vx::P), Shape::S { a: 0, b: 1_000_000 })],
            -4 * ONE,
            4 * ONE,
        ),
        r.inputs@[2].0 == InputType::Th,
        r.inputs@[2].1@ == variable(
            seq![
                (Inputs::Th(Th::N), Shape::Z { a: 0, b: 900_000 }),
                (Inputs::Th(Th::Z), Shape::Bell { width: 150_000, slope: 2, center: 500_000 }),
                (Inputs::Th(Th::P), Shape::S { a: 100_000, b: 1_000_000 }),
            ],
            -500_000,
            500_000,
        ),
        r.inputs@[3].0 == InputType::W,
        r.inputs@[3].1@ == variable(
            seq![(Inputs::W(W::N), Shape::Z { a: 0, b: 1_000_000 }), (Inputs::W(W::P), Shape::S { a: 0, b: 1_000_000 })],
            -600_000,
            600_000,
        ),
        r.output@ == variable(
            seq![
                (Outputs::Diff(Diff::NL), Shape::Bell { width: 100_000, slope: 3, center: 0 }),
                (Outputs::Diff(Diff::NM), Shape::Bell { width: 100_000, slope: 3, center: 300_000 }),
                (Outputs::Diff(Diff::NS), Shape::Bell { width: 80_000, slope: 3, center: 400_000 }),
                (Outputs::Diff(Diff::Z), Shape::Bell { width: 20_000, slope: 3, center: 500_000 }),
                (Outputs::Diff(Diff::PS), Shape::Bell { width: 80_000, slope: 3, center: 600_000 }),
                (Outputs::Diff(Diff::PM), Shape::Bell { width: 100_000, slope: 3, center: 700_000 }),
                (Outputs::Diff(Diff::PL), Shape::Bell { width: 100_000, slope: 3, center: 1_000_000 }),
            ],
            -10 * ONE,
            10 * ONE,
        ),
        configured_for(r, attitude_quantities()),
{
    let (xn, xz, xp) = (Inputs::X(X::N), Inputs::X(X::Z), Inputs::X(X::P));
    let (vxn, vxp) = (Inputs::Vx(Vx::N), Inputs::Vx(Vx::P));
    let (thn, thz, thp) = (Inputs::Th(Th::N), Inputs::Th(Th::Z), Inputs::Th(Th::P));
    let (wn, wp) = (Inputs::W(W::N), Inputs::W(W::P));
    let x = Fuzzy::new(
        InputType::X.name(),
        vec![(xn, zmf(0, 900_000)), (xz, gbell(200_000, 1, 500_000)), (xp, smf(100_000, 1_000_000))],
        -10 * ONE,
        10 * ONE,
    ).unwrap();
    let vx = Fuzzy::new(InputType::Vx.name(), vec![(vxn, zmf(0, 1_000_000)), (vxp, smf(0, 1_000_000))], -4 * ONE, 4 * ONE)
        .unwrap();
    let th = Fuzzy::new(
        InputType::Th.name(),
        vec![(thn, zmf(0, 900_000)), (thz, gbell(150_000, 2, 500_000)), (thp, smf(100_000, 1_000_000))],
        -500_000,
        500_000,
    ).unwrap();
    let w = Fuzzy::new(InputType::W.name(), vec![(wn, zmf(0, 1_000_000)), (wp, smf(0, 1_000_000))], -600_000, 600_000)
        .unwrap();
    let output = Fuzzy::new(
        "Diff".to_owned(),
        vec![
            (Outputs::Diff(Diff::NL), gbell(100_000, 3, 0)),
            (Outputs::Diff(Diff::NM), gbell(100_000, 3, 300_000)),
            (Outputs::Diff(Diff::NS), gbell(80_000, 3, 400_000)),
            (Outputs::Diff(Diff::Z), gbell(20_000, 3, 500_000)),
            (Outputs::Diff(Diff::PS), gbell(80_000, 3, 600_000)),
            (Outputs::Diff(Diff::PM), gbell(100_000, 3, 700_000)),
            (Outputs::Diff(Diff::PL), gbell(100_000, 3, 1_000_000)),
        ],
        -10 * ONE,
        10 * ONE,
    ).unwrap();
    let (p, n) = (vxp, vxn);
    let rules = vec![
        (cell(n, 6).or(cell(n, 3)), Outputs::Diff(Diff::NL)),
        (cell(n, 8).or(cell(p, 6)).or(cell(p, 7)).or(cell(n, 7)), Outputs::Diff(Diff::NM)),
        (cell(p, 3).or(cell(p, 8)).or(cell(n, 4)).or(wp.rule()), Outputs::Diff(Diff::NS)),
        (xz.and(thz.rule()), Outputs::Diff(Diff::Z)),
        (cell(p, 4).or(cell(n, 5)).or(cell(n, 0)).or(wn.rule()), Outputs::Diff(Diff::PS)),
        (cell(p, 0).or(cell(p, 1)).or(cell(n, 2)).or(cell(n, 1)), Outputs::Diff(Diff::PM)),
        (cell(p, 5).or(cell(p, 2)), Outputs::Diff(Diff::PL)),
    ];
    let r = Mamdani {
        rules,
        inputs: vec![(InputType::X, x), (InputType::Vx, vx), (InputType::Th, th), (InputType::W, w)],
        output,
    };
    proof {
        assert(r.rules@ =~= attitude_rules());
        let labels = set![xn, xz, xp, vxn, vxp, thn, thz, thp, wn, wp];
        assert(r.inputs@[0].1@.functions[0].0 == xn);
        assert(r.inputs@[0].1@.functions[1].0 == xz);
        assert(r.inputs@[0].1@.functions[2].0 == xp);
        assert(r.inputs@[1].1@.functions[0].0 == vxn);
        assert(r.inputs@[1].1@.functions[1].0 == vxp);
        assert(r.inputs@[2].1@.functions[0].0 == thn);
        assert(r.inputs@[2].1@.functions[1].0 == thz);
        assert(r.inputs@[2].1@.functions[2].0 == thp);
        assert(r.inputs@[3].1@.functions[0].0 == wn);
        assert(r.inputs@[3].1@.functions[1].0 == wp);
        assert(labels.subset_of(input_labels(r)));
        assert forall|v: Inputs, i: int| 0 <= i < 9 && labels.contains(v) implies #[trigger] uses_only(
            cell_rule(v, i),
            labels,
        ) by {
            reveal_with_fuel(uses_only, 3);
        }
        assert forall|k: int| 0 <= k < r.rules@.len() implies uses_only(#[trigger] r.rules@[k].0, input_labels(r)) by {
            assert(uses_only(r.rules@[k].0, labels));
            lemma_uses_only_widen(r.rules@[k].0, labels, input_labels(r));
        }
        assert(r.output@.functions[0].0 == Outputs::Diff(Diff::NL));
        assert(r.output@.functions[1].0 == Outputs::Diff(Diff::NM));
        assert(r.output@.functions[2].0 == Outputs::Diff(Diff::NS));
        assert(r.output@.functions[3].0 == Outputs::Diff(Diff::Z));
        assert(r.output@.functions[4].0 == Outputs::Diff(Diff::PS));
        assert(r.output@.functions[5].0 == Outputs::Diff(Diff::PM));
        assert(r.output@.functions[6].0 == Outputs::Diff(Diff::PL));
    }
    r
}

} // verus!
