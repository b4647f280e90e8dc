//! What holds of every evaluation.
use super::constraint::ConstraintView;
use super::expression::ExpressionView;
use super::{
    attempt_outcome, attempts_allowed, blacklisted, constrained, divides, first_whole,
    first_within, is_whole, last_whole, low_bits, nudged, picked, produces, range_yields,
    raw_sample, run_end, run_ends_on, settled, table_yields, whole_sample, within, GexView,
};
use crate::decimal::{unit, Decimal, MAX_MANTISSA};
use crate::rng_functions::{
    lemma_scaled_in_range, lemma_scaled_runs, lower, sample_between, scaled, upper, SamplingError,
};
use vstd::prelude::*;

verus! {

/// A number evaluates to itself and to nothing else.
pub proof fn lemma_number_produces_itself(g: GexView, max_attempts: usize, n: Decimal, v: Decimal)
    requires
        g.kind == ExpressionView::Number(n),
    ensures
        produces(g, max_attempts, v) <==> v == n,
{
}

/// A settled value belongs to the range: it lies between the ends and on
/// no end that is open.
pub proof fn lemma_settled_within(raw: Decimal, x: Decimal, y: Decimal, x_open: bool, y_open: bool)
    ensures
        settled(raw, x, y, x_open, y_open) matches Some(v) ==> within(v, x, y, x_open, y_open),
{
    if !within(raw, x, y, x_open, y_open) {
        lemma_nudged_within(raw, x, y, x_open, y_open, 3);
    }
}

/// A value moved by a step belongs to the range.
pub proof fn lemma_nudged_within(
    raw: Decimal,
    x: Decimal,
    y: Decimal,
    x_open: bool,
    y_open: bool,
    k: nat,
)
    ensures
        nudged(raw, x, y, x_open, y_open, k) matches Some(v) ==> within(v, x, y, x_open, y_open),
    decreases 29 - k,
{
    if k <= 28 {
        lemma_nudged_within(raw, x, y, x_open, y_open, k + 1);
    }
}

/// Every value can be settled in a range with two different ends of which
/// one is closed, and in a range with two closed ends.
pub proof fn lemma_settled_where_an_end_is_closed(
    raw: Decimal,
    x: Decimal,
    y: Decimal,
    x_open: bool,
    y_open: bool,
)
    requires
        !x_open || !y_open,
        x@ != y@ || (!x_open && !y_open),
    ensures
        settled(raw, x, y, x_open, y_open) is Some,
{
}

/// An integer drawn from a range belongs to it, and is whole.
pub proof fn lemma_whole_sample_within(
    x: Decimal,
    y: Decimal,
    x_open: bool,
    y_open: bool,
    base: u128,
)
    requires
        -MAX_MANTISSA * unit() <= x@ <= MAX_MANTISSA * unit(),
        -MAX_MANTISSA * unit() <= y@ <= MAX_MANTISSA * unit(),
    ensures
        whole_sample(x, y, x_open, y_open, base) matches Ok(v) ==> within(v, x, y, x_open, y_open)
            && is_whole(v),
{
    let first = first_whole(x, y, x_open, y_open);
    let last = last_whole(x, y, x_open, y_open);
    if first <= last {
        lemma_scaled_in_range(base as int, u128::MAX as int, 0, last - first + 1);
        let n = first + scaled(base as int, u128::MAX as int, 0, last - first + 1);
        Decimal::lemma_whole_bounds(lower(x, y)@, upper(x, y)@, first, last, n);
        Decimal::lemma_whole_value(n);
    }
}

/// Every integer that belongs to a range is drawn from it: the `k`-th of
/// them, counted from the smallest, for the raw value `k` times the length
/// of a run.
pub proof fn lemma_whole_sample_reaches(
    x: Decimal,
    y: Decimal,
    x_open: bool,
    y_open: bool,
    k: int,
)
    requires
        0 <= k <= last_whole(x, y, x_open, y_open) - first_whole(x, y, x_open, y_open),
        last_whole(x, y, x_open, y_open) - first_whole(x, y, x_open, y_open) < u128::MAX,
        Decimal::holds(first_whole(x, y, x_open, y_open) + k, 0),
    ensures
        ({
            let count = last_whole(x, y, x_open, y_open) - first_whole(x, y, x_open, y_open) + 1;
            let base = k * (u128::MAX as int / count);
            &&& 0 <= base <= u128::MAX
            &&& whole_sample(x, y, x_open, y_open, base as u128) == Ok::<Decimal, SamplingError>(
                Decimal::of(first_whole(x, y, x_open, y_open) + k, 0),
            )
        }),
{
    let count = last_whole(x, y, x_open, y_open) - first_whole(x, y, x_open, y_open) + 1;
    lemma_scaled_runs(0, u128::MAX as int, 0, count, k);
}

/// In float mode every value drawn belongs to the range, open ends left
/// out; without constraints every attempt is accepted and gives it as it
/// was drawn.
pub proof fn lemma_plain_attempt_within(
    x: Decimal,
    y: Decimal,
    x_open: bool,
    y_open: bool,
    base: u128,
)
    ensures
        attempt_outcome(true, Seq::empty(), x, y, x_open, y_open, base) matches Ok(outcome) ==> {
            &&& !outcome.1
            &&& within(outcome.0, x, y, x_open, y_open)
        },
{
    if let Some(raw) = sample_between(low_bits(base), x, y) {
        lemma_settled_within(raw, x, y, x_open, y_open);
    }
}

/// A range between two numbers, in float mode and without constraints,
/// gives only values that belong to it: between the two, and on neither
/// where it is open.
pub proof fn lemma_plain_range_within(
    g: GexView,
    max_attempts: usize,
    a: Decimal,
    b: Decimal,
    v: Decimal,
)
    requires
        g.kind matches ExpressionView::Range(x, y, _, _) && x.kind == ExpressionView::Number(a)
            && y.kind == ExpressionView::Number(b),
        g.constraints.len() == 0,
        g.float_mode,
        produces(g, max_attempts, v),
    ensures
        within(v, a, b, g.kind->Range_2, g.kind->Range_3),
{
    let x_open = g.kind->Range_2;
    let y_open = g.kind->Range_3;
    let (p, q) = choose|p: Decimal, q: Decimal|
        produces(*g.kind->Range_0, max_attempts, p) && produces(*g.kind->Range_1, max_attempts, q)
            && #[trigger] range_yields(
            g.float_mode,
            g.constraints,
            p,
            q,
            x_open,
            y_open,
            max_attempts,
            v,
        );
    assert(p == a && q == b);
    assert(g.constraints =~= Seq::empty());
    let draws = choose|draws: Seq<u128>| #[trigger]
        run_ends_on(g.float_mode, g.constraints, a, b, x_open, y_open, max_attempts, draws, v);
    lemma_plain_attempt_within(a, b, x_open, y_open, draws.last());
}

/// A selection among numbers gives one of them.
pub proof fn lemma_selection_gives_a_member(g: GexView, max_attempts: usize, v: Decimal)
    requires
        g.kind is Select,
        forall|i: int| 0 <= i < g.kind->Select_0.len() ==> (#[trigger] g.kind->Select_0[i]).kind is Number,
        produces(g, max_attempts, v),
    ensures
        exists|i: int|
            0 <= i < g.kind->Select_0.len() && (#[trigger] g.kind->Select_0[i]).kind
                == ExpressionView::Number(v),
{
    let items = g.kind->Select_0;
    let i = choose|i: int| 0 <= i < items.len() && produces(#[trigger] items[i], max_attempts, v);
    assert(items[i].kind is Number);
}

/// A range whose last constraint is a `NotMultipleOf` hands out a multiple
/// of one of its entries only after as many attempts as it is allowed, all
/// of them rejected: short of that, the value is a multiple of none.
pub proof fn lemma_blacklist_holds_unless_attempts_run_out(
    float_mode: bool,
    constraints: Seq<ConstraintView>,
    x: Decimal,
    y: Decimal,
    x_open: bool,
    y_open: bool,
    max_attempts: usize,
    draws: Seq<u128>,
    v: Decimal,
    i: int,
)
    requires
        constraints.len() > 0,
        constraints.last() is NotMultipleOf,
        0 <= i < constraints.last()->NotMultipleOf_0.len(),
        run_ends_on(float_mode, constraints, x, y, x_open, y_open, max_attempts, draws, v),
        draws.len() < attempts_allowed(max_attempts),
    ensures
        divides(v, constraints.last()->NotMultipleOf_0[i]) == Ok::<bool, SamplingError>(false),
{
    let raw = raw_sample(float_mode, x, y, x_open, y_open, draws.last())->Ok_0;
    lemma_accepted_passes_last_blacklist(constraints, 0, raw, i);
}

/// A range between two numbers whose last constraint is a `NotMultipleOf`
/// gives a multiple of none of its entries, or a value on which a run of
/// as many attempts as are allowed ended, all of them rejected.
pub proof fn lemma_range_meets_its_blacklist_or_runs_out(
    g: GexView,
    max_attempts: usize,
    a: Decimal,
    b: Decimal,
    v: Decimal,
)
    requires
        g.kind matches ExpressionView::Range(x, y, _, _) && x.kind == ExpressionView::Number(a)
            && y.kind == ExpressionView::Number(b),
        g.constraints.len() > 0,
        g.constraints.last() is NotMultipleOf,
        produces(g, max_attempts, v),
    ensures
        (forall|i: int|
            0 <= i < g.constraints.last()->NotMultipleOf_0.len() ==> divides(
                v,
                #[trigger] g.constraints.last()->NotMultipleOf_0[i],
            ) == Ok::<bool, SamplingError>(false)) || (exists|draws: Seq<u128>|
            #[trigger] run_ends_on(
                g.float_mode,
                g.constraints,
                a,
                b,
                g.kind->Range_2,
                g.kind->Range_3,
                max_attempts,
                draws,
                v,
            ) && draws.len() == attempts_allowed(max_attempts)),
{
    let x_open = g.kind->Range_2;
    let y_open = g.kind->Range_3;
    let (p, q) = choose|p: Decimal, q: Decimal|
        produces(*g.kind->Range_0, max_attempts, p) && produces(*g.kind->Range_1, max_attempts, q)
            && #[trigger] range_yields(
            g.float_mode,
            g.constraints,
            p,
            q,
            x_open,
            y_open,
            max_attempts,
            v,
        );
    assert(p == a && q == b);
    let draws = choose|draws: Seq<u128>| #[trigger]
        run_ends_on(g.float_mode, g.constraints, a, b, x_open, y_open, max_attempts, draws, v);
    if draws.len() < attempts_allowed(max_attempts) {
        assert forall|i: int| 0 <= i < g.constraints.last()->NotMultipleOf_0.len() implies divides(
            v,
            #[trigger] g.constraints.last()->NotMultipleOf_0[i],
        ) == Ok::<bool, SamplingError>(false) by {
            lemma_blacklist_holds_unless_attempts_run_out(
                g.float_mode,
                g.constraints,
                a,
                b,
                x_open,
                y_open,
                max_attempts,
                draws,
                v,
                i,
            );
        }
    }
}

/// Where no entry from `from` on divides `v`, none does.
pub proof fn lemma_not_blacklisted(v: Decimal, items: Seq<Decimal>, from: int, i: int)
    requires
        0 <= from <= i < items.len(),
        blacklisted(v, items, from) == Ok::<bool, SamplingError>(false),
    ensures
        divides(v, items[i]) == Ok::<bool, SamplingError>(false),
    decreases items.len() - from,
{
    if from < i {
        lemma_not_blacklisted(v, items, from + 1, i);
    }
}

/// Where the last constraint is a `NotMultipleOf`, an accepted value is a
/// multiple of none of its entries.
pub proof fn lemma_accepted_passes_last_blacklist(
    constraints: Seq<ConstraintView>,
    from: int,
    v: Decimal,
    i: int,
)
    requires
        0 <= from < constraints.len(),
        constraints.last() is NotMultipleOf,
        0 <= i < constraints.last()->NotMultipleOf_0.len(),
        constrained(constraints, from, v) matches Ok(outcome) && !outcome.1,
    ensures
        constrained(constraints, from, v) matches Ok(outcome) && divides(
            outcome.0,
            constraints.last()->NotMultipleOf_0[i],
        ) == Ok::<bool, SamplingError>(false),
    decreases constraints.len() - from,
{
    let items = constraints.last()->NotMultipleOf_0;
    if from == constraints.len() - 1 {
        lemma_not_blacklisted(v, items, 0, i);
    } else {
        match constraints[from] {
            ConstraintView::MultipleOf(d) => {
                let w = super::floored_to(v, d)->Ok_0;
                lemma_accepted_passes_last_blacklist(constraints, from + 1, w, i);
            },
            ConstraintView::NotMultipleOf(_) => {
                lemma_accepted_passes_last_blacklist(constraints, from + 1, v, i);
            },
        }
    }
}

/// What a table hands out is one of its values, and one that belongs to the
/// range between the ends.
pub proof fn lemma_table_gives_a_value_within(
    table: Seq<Decimal>,
    x: Decimal,
    y: Decimal,
    x_open: bool,
    y_open: bool,
    v: Decimal,
)
    requires
        table.len() <= usize::MAX,
        table_yields(table, x, y, x_open, y_open, v),
    ensures
        table.contains(v),
        within(v, x, y, x_open, y_open),
{
    let base = choose|base: usize| #[trigger] picked(table, x, y, x_open, y_open, base) == Some(v);
    let first = first_within(table, x, y, x_open, y_open, 0);
    let end = run_end(table, x, y, x_open, y_open, first);
    lemma_first_within_bounds(table, x, y, x_open, y_open, 0);
    lemma_run_is_within(table, x, y, x_open, y_open, first);
    lemma_scaled_in_range(base as int, usize::MAX as int, first, end);
    let index = scaled(base as int, usize::MAX as int, first, end);
    assert(table[index] == v);
}

/// The first value that belongs to the range is found at or after the
/// start, within the table or at its end.
pub proof fn lemma_first_within_bounds(
    table: Seq<Decimal>,
    x: Decimal,
    y: Decimal,
    x_open: bool,
    y_open: bool,
    from: int,
)
    requires
        0 <= from <= table.len(),
    ensures
        from <= first_within(table, x, y, x_open, y_open, from) <= table.len(),
        forall|k: int|
            from <= k < first_within(table, x, y, x_open, y_open, from) ==> !within(
                #[trigger] table[k],
                x,
                y,
                x_open,
                y_open,
            ),
    decreases table.len() - from,
{
    if from < table.len() && !within(table[from], x, y, x_open, y_open) {
        lemma_first_within_bounds(table, x, y, x_open, y_open, from + 1);
    }
}

/// Every value of a run belongs to the range, and the run ends within the
/// table, on a value that does not or at its end.
pub proof fn lemma_run_is_within(
    table: Seq<Decimal>,
    x: Decimal,
    y: Decimal,
    x_open: bool,
    y_open: bool,
    from: int,
)
    requires
        0 <= from <= table.len(),
    ensures
        from <= run_end(table, x, y, x_open, y_open, from) <= table.len(),
        forall|k: int|
            from <= k < run_end(table, x, y, x_open, y_open, from) ==> within(
                #[trigger] table[k],
                x,
                y,
                x_open,
                y_open,
            ),
        run_end(table, x, y, x_open, y_open, from) < table.len() ==> !within(
            table[run_end(table, x, y, x_open, y_open, from)],
            x,
            y,
            x_open,
            y_open,
        ),
    decreases table.len() - from,
{
    if from < table.len() && within(table[from], x, y, x_open, y_open) {
        lemma_run_is_within(table, x, y, x_open, y_open, from + 1);
    }
}

} // verus!
