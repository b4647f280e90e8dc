//! The expression tree as contracts speak of it: what its constructors
//! build and what makes it well formed.
use super::constraint::ConstraintView;
use super::expression::ExpressionView;
use super::{Gex, GexView};
use crate::decimal::{floor_units, Decimal};
use vstd::prelude::*;

verus! {

/// Whether `d` has no fractional part.
pub open spec fn is_whole(d: Decimal) -> bool {
    floor_units(d@) == d@
}

/// Whether one of the constraints is a `MultipleOf`.
pub open spec fn has_multiple_of(constraints: Seq<ConstraintView>) -> bool {
    exists|i: int| 0 <= i < constraints.len() && #[trigger] constraints[i] is MultipleOf
}

/// The float mode of a node once `added` is attached to it: a `MultipleOf`
/// with a fraction turns it on, one with a whole divisor turns it off unless
/// an earlier divisor had a fraction, and anything else leaves it alone.
pub open spec fn float_mode_after(
    constraints: Seq<ConstraintView>,
    float_mode: bool,
    added: ConstraintView,
) -> bool {
    match added {
        ConstraintView::MultipleOf(d) => if is_whole(d) {
            has_multiple_of(constraints) && float_mode
        } else {
            true
        },
        ConstraintView::NotMultipleOf(_) => float_mode,
    }
}

/// The smallest lower bound among the first `upto` entries; of equal ones,
/// the first.
pub open spec fn least_bound(items: Seq<GexView>, upto: int) -> Decimal
    decreases upto,
{
    if upto <= 1 {
        items[0].min_bound
    } else {
        let so_far = least_bound(items, upto - 1);
        if so_far@ > items[upto - 1].min_bound@ {
            items[upto - 1].min_bound
        } else {
            so_far
        }
    }
}

/// The largest upper bound among the first `upto` entries; of equal ones,
/// the first.
pub open spec fn greatest_bound(items: Seq<GexView>, upto: int) -> Decimal
    decreases upto,
{
    if upto <= 1 {
        items[0].max_bound
    } else {
        let so_far = greatest_bound(items, upto - 1);
        if so_far@ < items[upto - 1].max_bound@ {
            items[upto - 1].max_bound
        } else {
            so_far
        }
    }
}

/// Whether one of the first `upto` entries is in float mode.
pub open spec fn any_float_mode(items: Seq<GexView>, upto: int) -> bool
    decreases upto,
{
    if upto <= 0 {
        false
    } else {
        any_float_mode(items, upto - 1) || items[upto - 1].float_mode
    }
}

/// Whether the values rise strictly from each entry to the next.
pub open spec fn strictly_increasing(values: Seq<Decimal>) -> bool {
    forall|i: int, j: int| 0 <= i < j < values.len() ==> values[i]@ < values[j]@
}

/// Whether every table of values worked out beforehand, in this node and
/// below it, is non-empty and rises strictly.
pub open spec fn well_formed(g: GexView) -> bool
    decreases g,
{
    match g.kind {
        ExpressionView::Number(_) => true,
        ExpressionView::Range(x, y, _, _) => well_formed(*x) && well_formed(*y),
        ExpressionView::Select(items) => forall|i: int|
            0 <= i < items.len() ==> well_formed(#[trigger] items[i]),
        ExpressionView::PrecalculatedRange(x, y, _, _, values) => {
            &&& well_formed(*x)
            &&& well_formed(*y)
            &&& values.len() > 0
            &&& strictly_increasing(values)
        },
    }
}

/// Whether `g` is a range between two numbers, so that its values can be
/// worked out beforehand.
pub open spec fn has_fixed_ends(g: GexView) -> bool {
    g.kind matches ExpressionView::Range(x, y, _, _) && x.kind is Number && y.kind is Number
}

/// The views of the entries of a selection.
pub open spec fn tree_views(items: Seq<Gex>) -> Seq<GexView> {
    Seq::new(items.len(), |i: int| items[i]@)
}

/// The view of the expression that stands for the number `num`.
pub open spec fn number_view(num: Decimal) -> GexView {
    GexView {
        kind: ExpressionView::Number(num),
        min_bound: num,
        max_bound: num,
        constraints: Seq::empty(),
        float_mode: true,
    }
}

/// The view of the range from `x` to `y`, without constraints.
pub open spec fn range_view(x: GexView, y: GexView, x_open: bool, y_open: bool) -> GexView {
    GexView {
        kind: ExpressionView::Range(Box::new(x), Box::new(y), x_open, y_open),
        min_bound: x.min_bound,
        max_bound: y.max_bound,
        constraints: Seq::empty(),
        float_mode: true,
    }
}

/// The view of the selection of one of `items`.
pub open spec fn select_view(items: Seq<GexView>) -> GexView {
    GexView {
        kind: ExpressionView::Select(items),
        min_bound: least_bound(items, items.len() as int),
        max_bound: greatest_bound(items, items.len() as int),
        constraints: Seq::empty(),
        float_mode: any_float_mode(items, items.len() as int),
    }
}

/// The view of `orig` with its constraints worked out beforehand as
/// `values`: the ends of `orig` where it is a range, else the first and the
/// last of `values`, both closed.
pub open spec fn precalc_view(orig: GexView, values: Seq<Decimal>) -> GexView {
    GexView {
        kind: match orig.kind {
            ExpressionView::Range(x, y, x_open, y_open) => ExpressionView::PrecalculatedRange(
                x,
                y,
                x_open,
                y_open,
                values,
            ),
            _ => ExpressionView::PrecalculatedRange(
                Box::new(number_view(values[0])),
                Box::new(number_view(values[values.len() - 1])),
                false,
                false,
                values,
            ),
        },
        min_bound: values[0],
        max_bound: values[values.len() - 1],
        constraints: Seq::empty(),
        float_mode: orig.float_mode,
    }
}

/// The view of `g` once `added` is attached to it.
pub open spec fn with_constraint(g: GexView, added: ConstraintView) -> GexView {
    GexView {
        constraints: g.constraints.push(added),
        float_mode: float_mode_after(g.constraints, g.float_mode, added),
        ..g
    }
}

} // verus!
