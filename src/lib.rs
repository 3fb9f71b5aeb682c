//! A planar two-rotor drone stabilized by Mamdani fuzzy controllers.
//!
//! Membership shapes, the rule algebra, fuzzy variables, inference and the
//! Runge-Kutta integration of the drone's dynamics all work in fixed point:
//! an `i64` counts millionths, so `ONE` stands for 1.
pub mod arith;
pub mod bezier;
pub mod controllers;
pub mod drone;
pub mod funcs;
pub mod fuzzy;
pub mod mamdani;
pub mod pid;
pub mod rules;
pub mod state;
pub mod table;

use vstd::prelude::*;

verus! {

/// Fixed-point scale: the integer `ONE` stands for the real number 1.
pub const ONE: i64 = 1_000_000;

/// Configuration faults of a fuzzy controller.
#[derive(Clone, Copy, Debug, PartialEq, Eq, Structural)]
pub enum FuzzyError {
    /// A rule names an atom that the fuzzified inputs do not hold.
    UnknownAtom,
    /// The alpha-cuts handed to a defuzzification are not one per label.
    LabelCountMismatch,
    /// A label of the variable has no alpha-cut, or a rule targets a label
    /// that the output variable lacks.
    UnknownLabel,
    /// Two membership functions of one variable share a label.
    DuplicateLabel,
    /// The variable's range is empty.
    EmptyRange,
    /// A measurement names a variable that the controller lacks.
    UnknownInput,
    /// Two input variables of a controller measure the same quantity.
    DuplicateInput,
}

/// A label type of a fuzzy variable.
pub trait Label: Copy {
    /// Whether two labels are the same.
    fn same(&self, other: &Self) -> (r: bool)
        ensures
            r == (*self == *other);
}

} // verus!
