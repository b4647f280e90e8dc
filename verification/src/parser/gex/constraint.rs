//! What a range may ask of the values it hands out.
use crate::decimal::Decimal;
use vstd::prelude::*;

verus! {

/// A condition on the values of a range, applied after a value is drawn.
#[derive(Debug, Clone)]
pub enum Constraint {
    /// The value is brought down to the nearest multiple of the divisor.
    /// Several divisors are given as their least common multiple.
    MultipleOf(Decimal),
    /// The value is a multiple of none of these.
    NotMultipleOf(Vec<Decimal>),
}

/// A constraint as contracts speak of it.
pub enum ConstraintView {
    MultipleOf(Decimal),
    NotMultipleOf(Seq<Decimal>),
}

impl View for Constraint {
    type V = ConstraintView;

    open spec fn view(&self) -> ConstraintView {
        match self {
            Constraint::MultipleOf(d) => ConstraintView::MultipleOf(*d),
            Constraint::NotMultipleOf(items) => ConstraintView::NotMultipleOf(items@),
        }
    }
}

/// The views of a sequence of constraints.
pub open spec fn constraint_views(constraints: Seq<Constraint>) -> Seq<ConstraintView> {
    constraints.map_values(|c: Constraint| c@)
}

} // verus!
