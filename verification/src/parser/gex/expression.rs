//! The shapes an expression can take.
use super::{Gex, GexView};
use crate::decimal::Decimal;
use vstd::prelude::*;

verus! {

/// The kind of an expression, with what it is made of.
#[derive(Debug)]
pub enum Expression {
    /// A number, which stands for itself.
    Number(Decimal),
    /// A range between two expressions. The flags tell whether the lower and
    /// the upper end are open, that is, left out of the range.
    Range(Box<Gex>, Box<Gex>, bool, bool),
    /// A list of expressions, of which one is picked.
    Select(Vec<Gex>),
    /// A range whose constraints have been worked out beforehand: the last
    /// field lists, in rising order, every value that meets them.
    PrecalculatedRange(Box<Gex>, Box<Gex>, bool, bool, Vec<Decimal>),
}

/// The kind of an expression as contracts speak of it.
pub enum ExpressionView {
    Number(Decimal),
    Range(Box<GexView>, Box<GexView>, bool, bool),
    Select(Seq<GexView>),
    PrecalculatedRange(Box<GexView>, Box<GexView>, bool, bool, Seq<Decimal>),
}

} // verus!
