//! Linguistic labels and the rule algebra over them.
//!
//! A rule is a tree of atoms combined with AND, OR and NOT, evaluated with
//! Zadeh semantics (minimum, maximum, complement) against a table of
//! fuzzified degrees.
use vstd::prelude::*;
use crate::{FuzzyError, Label, ONE};
use crate::table::{find, lookup};

verus! {

/// The measured quantities that feed the controllers.
#[derive(Clone, Copy, Debug, PartialEq, Eq, Hash, Structural)]
pub enum InputType {
    X,
    Y,
    W,
    Vy,
    Vx,
    Th,
}

/// One label of one input variable.
#[derive(Clone, Copy, Debug, PartialEq, Eq, Hash, Structural)]
pub enum Inputs {
    Y(Y),
    Vy(Vy),
    Vx(Vx),
    X(X),
    Th(Th),
    W(W),
}

/// One label of one output variable.
#[derive(Clone, Copy, Debug, PartialEq, Eq, Hash, Structural)]
pub enum Outputs {
    Amp(Amp),
    Diff(Diff),
}

/// Labels of the collective thrust amplitude.
#[derive(Clone, Copy, Debug, PartialEq, Eq, Hash, Structural)]
pub enum Amp {
    Z,
    S,
    L,
}

/// Labels of the thrust difference between the two rotors.
#[derive(Clone, Copy, Debug, PartialEq, Eq, Hash, Structural)]
pub enum Diff {
    NL,
    NM,
    NS,
    Z,
    PS,
    PM,
    PL,
}

/// Labels of the horizontal position error.
#[derive(Clone, Copy, Debug, PartialEq, Eq, Hash, Structural)]
pub enum X {
    N,
    Z,
    P,
}

/// Labels of the vertical position error.
#[derive(Clone, Copy, Debug, PartialEq, Eq, Hash, Structural)]
pub enum Y {
    N,
    P,
}

/// Labels of the vertical velocity.
#[derive(Clone, Copy, Debug, PartialEq, Eq, Hash, Structural)]
pub enum Vy {
    N,
    P,
}

/// Labels of the horizontal velocity.
#[derive(Clone, Copy, Debug, PartialEq, Eq, Hash, Structural)]
pub enum Vx {
    N,
    P,
}

/// Labels of the heading.
#[derive(Clone, Copy, Debug, PartialEq, Eq, Hash, Structural)]
pub enum Th {
    N,
    Z,
    P,
}

/// Labels of the angular rate.
#[derive(Clone, Copy, Debug, PartialEq, Eq, Hash, Structural)]
pub enum W {
    N,
    P,
}

impl Label for Inputs {
    fn same(&self, other: &Self) -> (r: bool) {
        *self == *other
    }
}

impl Label for Outputs {
    fn same(&self, other: &Self) -> (r: bool) {
        *self == *other
    }
}

/// A rule condition: a tree over input atoms.
#[derive(Debug)]
pub enum Rule {
    Input(Inputs),
    And(Box<Rule>, Box<Rule>),
    Or(Box<Rule>, Box<Rule>),
    Not(Box<Rule>),
}

pub open spec fn min(a: int, b: int) -> int {
    if a <= b { a } else { b }
}

pub open spec fn max(a: int, b: int) -> int {
    if a >= b { a } else { b }
}

/// The truth value of `rule` against `table`, or `None` when an atom of the
/// rule has no entry in it.
pub open spec fn eval(rule: Rule, table: Seq<(Inputs, i64)>) -> Option<int>
    decreases rule,
{
    match rule {
        Rule::Input(i) => match lookup(table, i) {
            Some(v) => Some(v as int),
            None => None,
        },
        Rule::And(l, r) => match (eval(*l, table), eval(*r, table)) {
            (Some(a), Some(b)) => Some(min(a, b)),
            _ => None,
        },
        Rule::Or(l, r) => match (eval(*l, table), eval(*r, table)) {
            (Some(a), Some(b)) => Some(max(a, b)),
            _ => None,
        },
        Rule::Not(l) => match eval(*l, table) {
            Some(a) => Some(ONE - a),
            None => None,
        },
    }
}

/// Every atom of `rule` is one of `labels`.
pub open spec fn uses_only(rule: Rule, labels: Set<Inputs>) -> bool
    decreases rule,
{
    match rule {
        Rule::Input(i) => labels.contains(i),
        Rule::And(l, r) => uses_only(*l, labels) && uses_only(*r, labels),
        Rule::Or(l, r) => uses_only(*l, labels) && uses_only(*r, labels),
        Rule::Not(l) => uses_only(*l, labels),
    }
}

/// A rule that names only labels of a set names only labels of any
/// superset.
pub proof fn lemma_uses_only_widen(rule: Rule, a: Set<Inputs>, b: Set<Inputs>)
    requires
        uses_only(rule, a),
        a.subset_of(b),
    ensures
        uses_only(rule, b),
    decreases rule,
{
    match rule {
        Rule::Input(_) => {},
        Rule::And(l, r) => {
            lemma_uses_only_widen(*l, a, b);
            lemma_uses_only_widen(*r, a, b);
        },
        Rule::Or(l, r) => {
            lemma_uses_only_widen(*l, a, b);
            lemma_uses_only_widen(*r, a, b);
        },
        Rule::Not(l) => {
            lemma_uses_only_widen(*l, a, b);
        },
    }
}

/// The labels that have an entry in `table`.
pub open spec fn keys<K>(table: Seq<(K, i64)>) -> Set<K> {
    Set::new(|k: K| exists|j: int| 0 <= j < table.len() && #[trigger] table[j].0 == k)
}

/// A rule all of whose atoms have an entry in the table has a truth value.
pub proof fn lemma_eval_defined(rule: Rule, table: Seq<(Inputs, i64)>)
    requires
        uses_only(rule, keys(table)),
    ensures
        eval(rule, table) is Some,
    decreases rule,
{
    match rule {
        Rule::Input(i) => {
            let j = choose|j: int| 0 <= j < table.len() && #[trigger] table[j].0 == i;
            crate::table::lemma_lookup_some(table, j);
        },
        Rule::And(l, r) => {
            lemma_eval_defined(*l, table);
            lemma_eval_defined(*r, table);
        },
        Rule::Or(l, r) => {
            lemma_eval_defined(*l, table);
            lemma_eval_defined(*r, table);
        },
        Rule::Not(l) => {
            lemma_eval_defined(*l, table);
        },
    }
}

/// Every degree of the table lies between 0 and `ONE`.
pub open spec fn degrees_in_range<K>(table: Seq<(K, i64)>) -> bool {
    forall|j: int| 0 <= j < table.len() ==> 0 <= #[trigger] table[j].1 <= ONE
}

impl Clone for Rule {
    fn clone(&self) -> (r: Rule)
        ensures
            r == *self,
        decreases self,
    {
        match self {
            Rule::Input(i) => Rule::Input(*i),
            Rule::And(l, r) => Rule::And(Box::new((**l).clone()), Box::new((**r).clone())),
            Rule::Or(l, r) => Rule::Or(Box::new((**l).clone()), Box::new((**r).clone())),
            Rule::Not(l) => Rule::Not(Box::new((**l).clone())),
        }
    }
}

impl From<Inputs> for Rule {
    /// The rule made of one atom.
    fn from(i: Inputs) -> (r: Rule) {
        Rule::Input(i)
    }
}

impl vstd::std_specs::convert::FromSpecImpl<Inputs> for Rule {
    open spec fn obeys_from_spec() -> bool {
        true
    }

    open spec fn from_spec(i: Inputs) -> Rule {
        Rule::Input(i)
    }
}

impl Rule {
    /// Conjunction: the smaller of the two truth values.
    pub fn and(self, rhs: Rule) -> (r: Rule)
        ensures
            r == Rule::And(Box::new(self), Box::new(rhs)),
            forall|s: Set<Inputs>| #[trigger] uses_only(r, s) == (uses_only(self, s) && uses_only(rhs, s)),
    {
        Rule::And(Box::new(self), Box::new(rhs))
    }

    /// Disjunction: the larger of the two truth values.
    pub fn or(self, rhs: Rule) -> (r: Rule)
        ensures
            r == Rule::Or(Box::new(self), Box::new(rhs)),
            forall|s: Set<Inputs>| #[trigger] uses_only(r, s) == (uses_only(self, s) && uses_only(rhs, s)),
    {
        Rule::Or(Box::new(self), Box::new(rhs))
    }

    /// Complement: `ONE` minus the truth value.
    pub fn not(self) -> (r: Rule)
        ensures
            r == Rule::Not(Box::new(self)),
    {
        Rule::Not(Box::new(self))
    }

    /// Evaluates the rule against a table of fuzzified degrees; fails with
    /// `UnknownAtom` when one of its atoms has no entry.
    pub fn resolve(&self, table: &Vec<(Inputs, i64)>) -> (r: Result<i64, FuzzyError>)
        requires
            degrees_in_range(table@),
        ensures
            match eval(*self, table@) {
                Some(v) => r == Ok::<i64, FuzzyError>(v as i64) && 0 <= v <= ONE,
                None => r == Err::<i64, FuzzyError>(FuzzyError::UnknownAtom),
            },
        decreases self,
    {
        match self {
            Rule::Input(i) => match find(table, i) {
                Some(v) => {
                    proof {
                        crate::table::lemma_lookup_entry(table@, *i);
                        let j = choose|j: int| 0 <= j < table@.len() && #[trigger] table@[j] == (*i, v);
                        assert(0 <= table@[j].1 <= ONE);
                    }
                    Ok(v)
                },
                None => Err(FuzzyError::UnknownAtom),
            },
            Rule::And(l, r) => {
                let a = l.resolve(table);
                let b = r.resolve(table);
                match (a, b) {
                    (Ok(a), Ok(b)) => Ok(if a <= b { a } else { b }),
                    _ => Err(FuzzyError::UnknownAtom),
                }
            },
            Rule::Or(l, r) => {
                let a = l.resolve(table);
                let b = r.resolve(table);
                match (a, b) {
                    (Ok(a), Ok(b)) => Ok(if a >= b { a } else { b }),
                    _ => Err(FuzzyError::UnknownAtom),
                }
            },
            Rule::Not(l) => match l.resolve(table) {
                Ok(a) => Ok(ONE - a),
                Err(e) => Err(e),
            },
        }
    }
}

impl Inputs {
    /// The rule made of this atom alone.
    pub fn rule(self) -> (r: Rule)
        ensures
            r == Rule::Input(self),
            forall|s: Set<Inputs>| #[trigger] uses_only(r, s) == s.contains(self),
    {
        Rule::Input(self)
    }

    /// Conjunction of this atom with a rule.
    pub fn and(self, rhs: Rule) -> (r: Rule)
        ensures
            r == Rule::And(Box::new(Rule::Input(self)), Box::new(rhs)),
            forall|s: Set<Inputs>| #[trigger] uses_only(r, s) == (s.contains(self) && uses_only(rhs, s)),
    {
        let r = Rule::And(Box::new(Rule::Input(self)), Box::new(rhs));
        assert forall|s: Set<Inputs>| #[trigger] uses_only(r, s) == (s.contains(self) && uses_only(rhs, s)) by {
            assert(uses_only(Rule::Input(self), s) == s.contains(self));
        }
        r
    }

    /// Disjunction of this atom with a rule.
    pub fn or(self, rhs: Rule) -> (r: Rule)
        ensures
            r == Rule::Or(Box::new(Rule::Input(self)), Box::new(rhs)),
            forall|s: Set<Inputs>| #[trigger] uses_only(r, s) == (s.contains(self) && uses_only(rhs, s)),
    {
        let r = Rule::Or(Box::new(Rule::Input(self)), Box::new(rhs));
        assert forall|s: Set<Inputs>| #[trigger] uses_only(r, s) == (s.contains(self) && uses_only(rhs, s)) by {
            assert(uses_only(Rule::Input(self), s) == s.contains(self));
        }
        r
    }

    /// Complement of this atom.
    pub fn not(self) -> (r: Rule)
        ensures
            r == Rule::Not(Box::new(Rule::Input(self))),
    {
        Rule::Not(Box::new(Rule::Input(self)))
    }
}

impl X {
    pub open spec fn name_spec(self) -> Seq<char> {
        match self {
            X::N => "X-"@,
            X::Z => "X0"@,
            X::P => "X+"@,
        }
    }

    /// The label's display name.
    pub fn name(&self) -> (r: String)
        ensures
            r@ == self.name_spec(),
    {
        match self {
            X::N => "X-".to_owned(),
            X::Z => "X0".to_owned(),
            X::P => "X+".to_owned(),
        }
    }
}

impl Y {
    pub open spec fn name_spec(self) -> Seq<char> {
        match self {
            Y::N => "Y-"@,
            Y::P => "Y+"@,
        }
    }

    /// The label's display name.
    pub fn name(&self) -> (r: String)
        ensures
            r@ == self.name_spec(),
    {
        match self {
            Y::N => "Y-".to_owned(),
            Y::P => "Y+".to_owned(),
        }
    }
}

impl Vy {
    pub open spec fn name_spec(self) -> Seq<char> {
        match self {
            Vy::N => "Vy-"@,
            Vy::P => "Vy+"@,
        }
    }

    /// The label's display name.
    pub fn name(&self) -> (r: String)
        ensures
            r@ == self.name_spec(),
    {
        match self {
            Vy::N => "Vy-".to_owned(),
            Vy::P => "Vy+".to_owned(),
        }
    }
}

impl Vx {
    pub open spec fn name_spec(self) -> Seq<char> {
        match self {
            Vx::N => "Vx-"@,
            Vx::P => "Vx+"@,
        }
    }

    /// The label's display name.
    pub fn name(&self) -> (r: String)
        ensures
            r@ == self.name_spec(),
    {
        match self {
            Vx::N => "Vx-".to_owned(),
            Vx::P => "Vx+".to_owned(),
        }
    }
}

impl Th {
    pub open spec fn name_spec(self) -> Seq<char> {
        match self {
            Th::N => "Th-"@,
            Th::Z => "Th0"@,
            Th::P => "Th+"@,
        }
    }

    /// The label's display name.
    pub fn name(&self) -> (r: String)
        ensures
            r@ == self.name_spec(),
    {
        match self {
            Th::N => "Th-".to_owned(),
            Th::Z => "Th0".to_owned(),
            Th::P => "Th+".to_owned(),
        }
    }
}

impl W {
    pub open spec fn name_spec(self) -> Seq<char> {
        match self {
            W::N => "W-"@,
            W::P => "W+"@,
        }
    }

    /// The label's display name.
    pub fn name(&self) -> (r: String)
        ensures
            r@ == self.name_spec(),
    {
        match self {
            W::N => "W-".to_owned(),
            W::P => "W+".to_owned(),
        }
    }
}

impl Amp {
    pub open spec fn name_spec(self) -> Seq<char> {
        match self {
            Amp::Z => "None"@,
            Amp::S => "Small"@,
            Amp::L => "Large"@,
        }
    }

    /// The label's display name.
    pub fn name(&self) -> (r: String)
        ensures
            r@ == self.name_spec(),
    {
        match self {
            Amp::Z => "None".to_owned(),
            Amp::S => "Small".to_owned(),
            Amp::L => "Large".to_owned(),
        }
    }
}

impl Diff {
    pub open spec fn name_spec(self) -> Seq<char> {
        match self {
            Diff::NL => "NL"@,
            Diff::NM => "NM"@,
            Diff::NS => "NS"@,
            Diff::Z => "Z"@,
            Diff::PS => "PS"@,
            Diff::PM => "PM"@,
            Diff::PL => "PL"@,
        }
    }

    /// The label's display name.
    pub fn name(&self) -> (r: String)
        ensures
            r@ == self.name_spec(),
    {
        match self {
            Diff::NL => "NL".to_owned(),
            Diff::NM => "NM".to_owned(),
            Diff::NS => "NS".to_owned(),
            Diff::Z => "Z".to_owned(),
            Diff::PS => "PS".to_owned(),
            Diff::PM => "PM".to_owned(),
            Diff::PL => "PL".to_owned(),
        }
    }
}

impl InputType {
    pub open spec fn name_spec(self) -> Seq<char> {
        match self {
            InputType::X => "X"@,
            InputType::Y => "Y"@,
            InputType::W => "W"@,
            InputType::Vy => "Vy"@,
            InputType::Vx => "Vx"@,
            InputType::Th => "Th"@,
        }
    }

    /// The label's display name.
    pub fn name(&self) -> (r: String)
        ensures
            r@ == self.name_spec(),
    {
        match self {
            InputType::X => "X".to_owned(),
            InputType::Y => "Y".to_owned(),
            InputType::W => "W".to_owned(),
            InputType::Vy => "Vy".to_owned(),
            InputType::Vx => "Vx".to_owned(),
            InputType::Th => "Th".to_owned(),
        }
    }
}

impl Inputs {
    pub open spec fn name_spec(self) -> Seq<char> {
        match self {
            Inputs::Y(l) => l.name_spec(),
            Inputs::Vy(l) => l.name_spec(),
            Inputs::Vx(l) => l.name_spec(),
            Inputs::X(l) => l.name_spec(),
            Inputs::Th(l) => l.name_spec(),
            Inputs::W(l) => l.name_spec(),
        }
    }

    /// The display name of the label.
    pub fn name(&self) -> (r: String)
        ensures
            r@ == self.name_spec(),
    {
        match self {
            Inputs::Y(l) => l.name(),
            Inputs::Vy(l) => l.name(),
            Inputs::Vx(l) => l.name(),
            Inputs::X(l) => l.name(),
            Inputs::Th(l) => l.name(),
            Inputs::W(l) => l.name(),
        }
    }
}

impl Outputs {
    pub open spec fn name_spec(self) -> Seq<char> {
        match self {
            Outputs::Amp(l) => l.name_spec(),
            Outputs::Diff(l) => l.name_spec(),
        }
    }

    /// The display name of the label.
    pub fn name(&self) -> (r: String)
        ensures
            r@ == self.name_spec(),
    {
        match self {
            Outputs::Amp(l) => l.name(),
            Outputs::Diff(l) => l.name(),
        }
    }
}

} // verus!
