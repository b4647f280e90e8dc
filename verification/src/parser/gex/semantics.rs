//! What evaluation can give: the value of one attempt for one raw random
//! value, and the values that an expression can hand out.
use super::constraint::ConstraintView;
use super::expression::ExpressionView;
use super::GexView;
use crate::decimal::{
    ceil_int, decimal_difference, decimal_product, decimal_quotient,
    decimal_remainder, decimal_sum, floor_int, Decimal,
};
use crate::rng_functions::{lower, sample_between, scaled, upper, SamplingError};
use vstd::prelude::*;

verus! {

/// Whether `v` belongs to the range between `x` and `y`: it lies between
/// the two and on neither open end.
pub open spec fn within(v: Decimal, x: Decimal, y: Decimal, x_open: bool, y_open: bool) -> bool {
    &&& lower(x, y)@ <= v@ <= upper(x, y)@
    &&& !(x_open && v@ == x@)
    &&& !(y_open && v@ == y@)
}

/// `candidate` where there is one and it belongs to the range.
pub open spec fn admitted(
    candidate: Option<Decimal>,
    x: Decimal,
    y: Decimal,
    x_open: bool,
    y_open: bool,
) -> Option<Decimal> {
    match candidate {
        Some(c) => if within(c, x, y, x_open, y_open) {
            Some(c)
        } else {
            None
        },
        None => None,
    }
}

/// The step of `10^-k`: one thousandth for `k` = 3, the finest step that a
/// decimal can tell apart for `k` = 28.
pub open spec fn step(k: nat) -> Decimal {
    Decimal::of(1, k)
}

/// `raw` moved by one step into the range: the first that belongs to it of
/// `raw` plus and `raw` minus the step of `10^-k`, then of the same with
/// the next finer step, down to the finest.
pub open spec fn nudged(
    raw: Decimal,
    x: Decimal,
    y: Decimal,
    x_open: bool,
    y_open: bool,
    k: nat,
) -> Option<Decimal>
    decreases 29 - k,
{
    if k > 28 {
        None
    } else {
        match admitted(decimal_sum(raw, step(k)), x, y, x_open, y_open) {
            Some(up) => Some(up),
            None => match admitted(decimal_difference(raw, step(k)), x, y, x_open, y_open) {
                Some(down) => Some(down),
                None => nudged(raw, x, y, x_open, y_open, k + 1),
            },
        }
    }
}

/// `raw` moved off an open end: `raw` itself where it belongs to the range;
/// else `raw` moved into the range by epsilon or, where that steps too
/// far, by the next finer step that fits; else an end of the range that
/// belongs to it. `None` where none of these belongs to the range.
pub open spec fn settled(raw: Decimal, x: Decimal, y: Decimal, x_open: bool, y_open: bool) -> Option<
    Decimal,
> {
    if within(raw, x, y, x_open, y_open) {
        Some(raw)
    } else {
        match nudged(raw, x, y, x_open, y_open, 3) {
            Some(moved) => Some(moved),
            None => if within(x, x, y, x_open, y_open) {
                Some(x)
            } else if within(y, x, y, x_open, y_open) {
                Some(y)
            } else {
                None
            },
        }
    }
}

/// Whether the point `v` is an end that the range leaves out.
pub open spec fn left_out(v: int, x: Decimal, y: Decimal, x_open: bool, y_open: bool) -> bool {
    (x_open && x@ == v) || (y_open && y@ == v)
}

/// The smallest integer that belongs to the range.
pub open spec fn first_whole(x: Decimal, y: Decimal, x_open: bool, y_open: bool) -> int {
    let low = lower(x, y)@;
    if left_out(low, x, y, x_open, y_open) {
        floor_int(low) + 1
    } else {
        ceil_int(low)
    }
}

/// The largest integer that belongs to the range.
pub open spec fn last_whole(x: Decimal, y: Decimal, x_open: bool, y_open: bool) -> int {
    let high = upper(x, y)@;
    if left_out(high, x, y, x_open, y_open) {
        ceil_int(high) - 1
    } else {
        floor_int(high)
    }
}

/// The integer of the range on which the raw value `base` lands: the
/// integers that belong to the range, from the smallest to the largest,
/// each take a run of raw values of the same length, and what is left over
/// goes to the largest. A range without an integer gives `EmptyRange`.
pub open spec fn whole_sample(x: Decimal, y: Decimal, x_open: bool, y_open: bool, base: u128) -> Result<
    Decimal,
    SamplingError,
> {
    let first = first_whole(x, y, x_open, y_open);
    let last = last_whole(x, y, x_open, y_open);
    if first > last {
        Err(SamplingError::EmptyRange)
    } else {
        let n = first + scaled(base as int, u128::MAX as int, 0, last - first + 1);
        if Decimal::holds(n, 0) {
            Ok(Decimal::of(n, 0))
        } else {
            Err(SamplingError::Overflow)
        }
    }
}

/// The low 64 bits of a raw value.
pub open spec fn low_bits(base: u128) -> u64 {
    (base % 0x1_0000_0000_0000_0000) as u64
}

/// The value drawn for the raw value `base`, before any constraint: in
/// float mode a value between the ends, moved off an open end; otherwise
/// one of the integers that belong to the range.
pub open spec fn raw_sample(
    float_mode: bool,
    x: Decimal,
    y: Decimal,
    x_open: bool,
    y_open: bool,
    base: u128,
) -> Result<Decimal, SamplingError> {
    if float_mode {
        match sample_between(low_bits(base), x, y) {
            Some(raw) => match settled(raw, x, y, x_open, y_open) {
                Some(v) => Ok(v),
                None => Err(SamplingError::EmptyRange),
            },
            None => Err(SamplingError::Overflow),
        }
    } else {
        whole_sample(x, y, x_open, y_open, base)
    }
}

/// `v` brought down to a multiple of `d`: the floor of `v / d`, times `d`.
pub open spec fn floored_to(v: Decimal, d: Decimal) -> Result<Decimal, SamplingError> {
    if d@ == 0 {
        Err(SamplingError::DivisionByZero)
    } else {
        match decimal_quotient(v, d) {
            None => Err(SamplingError::Overflow),
            Some(q) => match decimal_product(q.floored(), d) {
                None => Err(SamplingError::Overflow),
                Some(w) => Ok(w),
            },
        }
    }
}

/// Whether `v` leaves no remainder on division by `d`.
pub open spec fn divides(v: Decimal, d: Decimal) -> Result<bool, SamplingError> {
    if d@ == 0 {
        Err(SamplingError::DivisionByZero)
    } else {
        match decimal_remainder(v, d) {
            None => Err(SamplingError::Overflow),
            Some(r) => Ok(r@ == 0),
        }
    }
}

/// Whether `v` is a multiple of one of `items` from the index `from` on.
/// The first entry that cannot be divided by ends the search with its error.
pub open spec fn blacklisted(v: Decimal, items: Seq<Decimal>, from: int) -> Result<
    bool,
    SamplingError,
>
    decreases items.len() - from,
{
    if from < 0 || from >= items.len() {
        Ok(false)
    } else {
        match divides(v, items[from]) {
            Err(e) => Err(e),
            Ok(true) => Ok(true),
            Ok(false) => blacklisted(v, items, from + 1),
        }
    }
}

/// The constraints from the index `from` on, applied in order to `v`: the
/// value they make of it, and whether one of them rejects it. A rejected
/// value is handed back as it was when it was rejected.
pub open spec fn constrained(constraints: Seq<ConstraintView>, from: int, v: Decimal) -> Result<
    (Decimal, bool),
    SamplingError,
>
    decreases constraints.len() - from,
{
    if from < 0 || from >= constraints.len() {
        Ok((v, false))
    } else {
        match constraints[from] {
            ConstraintView::MultipleOf(d) => match floored_to(v, d) {
                Err(e) => Err(e),
                Ok(w) => constrained(constraints, from + 1, w),
            },
            ConstraintView::NotMultipleOf(items) => match blacklisted(v, items, 0) {
                Err(e) => Err(e),
                Ok(true) => Ok((v, true)),
                Ok(false) => constrained(constraints, from + 1, v),
            },
        }
    }
}

/// One attempt at a value of a range, for the raw value `base`: the value
/// drawn, with the constraints applied, and whether they reject it.
pub open spec fn attempt_outcome(
    float_mode: bool,
    constraints: Seq<ConstraintView>,
    x: Decimal,
    y: Decimal,
    x_open: bool,
    y_open: bool,
    base: u128,
) -> Result<(Decimal, bool), SamplingError> {
    match raw_sample(float_mode, x, y, x_open, y_open, base) {
        Err(e) => Err(e),
        Ok(raw) => constrained(constraints, 0, raw),
    }
}

/// The number of attempts a range makes where it is allowed `max_attempts`:
/// never fewer than one.
pub open spec fn attempts_allowed(max_attempts: usize) -> int {
    if max_attempts == 0 {
        1
    } else {
        max_attempts as int
    }
}

/// Whether the attempt for the raw value `base` gives a value that the
/// constraints reject.
pub open spec fn is_rejected(
    float_mode: bool,
    constraints: Seq<ConstraintView>,
    x: Decimal,
    y: Decimal,
    x_open: bool,
    y_open: bool,
    base: u128,
) -> bool {
    attempt_outcome(float_mode, constraints, x, y, x_open, y_open, base) matches Ok(outcome)
        && outcome.1
}

/// Whether a run of attempts with the raw values `draws`, one after the
/// other, ends on `v`: every attempt but the last is rejected, the last one
/// gives `v`, and it is the last because it is accepted or because no more
/// than `max_attempts` are allowed.
pub open spec fn run_ends_on(
    float_mode: bool,
    constraints: Seq<ConstraintView>,
    x: Decimal,
    y: Decimal,
    x_open: bool,
    y_open: bool,
    max_attempts: usize,
    draws: Seq<u128>,
    v: Decimal,
) -> bool {
    &&& 0 < draws.len() <= attempts_allowed(max_attempts)
    &&& forall|i: int|
        0 <= i < draws.len() - 1 ==> #[trigger] is_rejected(
            float_mode,
            constraints,
            x,
            y,
            x_open,
            y_open,
            draws[i],
        )
    &&& attempt_outcome(float_mode, constraints, x, y, x_open, y_open, draws.last()) matches Ok(
        outcome,
    ) && outcome.0 == v && (outcome.1 ==> draws.len() == attempts_allowed(max_attempts))
}

/// Whether a range with these ends can hand out `v`: some run of attempts
/// ends on it.
pub open spec fn range_yields(
    float_mode: bool,
    constraints: Seq<ConstraintView>,
    x: Decimal,
    y: Decimal,
    x_open: bool,
    y_open: bool,
    max_attempts: usize,
    v: Decimal,
) -> bool {
    exists|draws: Seq<u128>| #[trigger]
        run_ends_on(float_mode, constraints, x, y, x_open, y_open, max_attempts, draws, v)
}

/// Whether a run of attempts with the raw values `draws`, one after the
/// other, ends on the error `e`: every attempt but the last is rejected and
/// the last one fails with `e`.
pub open spec fn run_fails_with(
    float_mode: bool,
    constraints: Seq<ConstraintView>,
    x: Decimal,
    y: Decimal,
    x_open: bool,
    y_open: bool,
    max_attempts: usize,
    draws: Seq<u128>,
    e: SamplingError,
) -> bool {
    &&& 0 < draws.len() <= attempts_allowed(max_attempts)
    &&& forall|i: int|
        0 <= i < draws.len() - 1 ==> #[trigger] is_rejected(
            float_mode,
            constraints,
            x,
            y,
            x_open,
            y_open,
            draws[i],
        )
    &&& attempt_outcome(float_mode, constraints, x, y, x_open, y_open, draws.last()) == Err::<
        (Decimal, bool),
        SamplingError,
    >(e)
}

/// Whether the arithmetic of a range with these ends can fail with `e`:
/// some run of attempts ends on that error.
pub open spec fn range_fails(
    float_mode: bool,
    constraints: Seq<ConstraintView>,
    x: Decimal,
    y: Decimal,
    x_open: bool,
    y_open: bool,
    max_attempts: usize,
    e: SamplingError,
) -> bool {
    exists|draws: Seq<u128>| #[trigger]
        run_fails_with(float_mode, constraints, x, y, x_open, y_open, max_attempts, draws, e)
}

/// The first index from `from` on whose value belongs to the range; the
/// length of the table where there is none.
pub open spec fn first_within(
    table: Seq<Decimal>,
    x: Decimal,
    y: Decimal,
    x_open: bool,
    y_open: bool,
    from: int,
) -> int
    decreases table.len() - from,
{
    if from < 0 || from >= table.len() {
        table.len() as int
    } else if within(table[from], x, y, x_open, y_open) {
        from
    } else {
        first_within(table, x, y, x_open, y_open, from + 1)
    }
}

/// The first index from `from` on whose value does not belong to the range;
/// the length of the table where there is none.
pub open spec fn run_end(
    table: Seq<Decimal>,
    x: Decimal,
    y: Decimal,
    x_open: bool,
    y_open: bool,
    from: int,
) -> int
    decreases table.len() - from,
{
    if 0 <= from < table.len() && within(table[from], x, y, x_open, y_open) {
        run_end(table, x, y, x_open, y_open, from + 1)
    } else {
        from
    }
}

/// Where the run of values starts from which a table hands out: at its
/// first value that belongs to the range.
pub open spec fn run_start(table: Seq<Decimal>, x: Decimal, y: Decimal, x_open: bool, y_open: bool) -> int {
    first_within(table, x, y, x_open, y_open, 0)
}

/// Where that run stops: at the first value behind its start that does not
/// belong to the range.
pub open spec fn run_stop(table: Seq<Decimal>, x: Decimal, y: Decimal, x_open: bool, y_open: bool) -> int {
    run_end(table, x, y, x_open, y_open, run_start(table, x, y, x_open, y_open))
}

/// The value of the table on which the raw value `base` lands: one of the
/// run of values that belong to the range, each as likely as the others.
pub open spec fn picked(
    table: Seq<Decimal>,
    x: Decimal,
    y: Decimal,
    x_open: bool,
    y_open: bool,
    base: usize,
) -> Option<Decimal> {
    let first = run_start(table, x, y, x_open, y_open);
    let end = run_stop(table, x, y, x_open, y_open);
    if first < end {
        Some(table[scaled(base as int, usize::MAX as int, first, end)])
    } else {
        None
    }
}

/// Whether a table can hand out `v` between these ends.
pub open spec fn table_yields(
    table: Seq<Decimal>,
    x: Decimal,
    y: Decimal,
    x_open: bool,
    y_open: bool,
    v: Decimal,
) -> bool {
    exists|base: usize| #[trigger] picked(table, x, y, x_open, y_open, base) == Some(v)
}

/// Whether evaluating `g` can give `v`, where a range makes at most
/// `max_attempts` attempts.
pub open spec fn produces(g: GexView, max_attempts: usize, v: Decimal) -> bool
    decreases g,
{
    match g.kind {
        ExpressionView::Number(n) => v == n,
        ExpressionView::Range(x, y, x_open, y_open) => exists|a: Decimal, b: Decimal|
            produces(*x, max_attempts, a) && produces(*y, max_attempts, b)
                && #[trigger] range_yields(
                g.float_mode,
                g.constraints,
                a,
                b,
                x_open,
                y_open,
                max_attempts,
                v,
            ),
        ExpressionView::Select(items) => exists|i: int|
            0 <= i < items.len() && produces(#[trigger] items[i], max_attempts, v),
        ExpressionView::PrecalculatedRange(x, y, x_open, y_open, table) => exists|
            a: Decimal,
            b: Decimal,
        |
            produces(*x, max_attempts, a) && produces(*y, max_attempts, b)
                && #[trigger] table_yields(table, a, b, x_open, y_open, v),
    }
}

/// Whether the draw of a range with these ends can fail with `e`: for want
/// of random bytes, or with the error on which a run of attempts ends.
pub open spec fn range_breaks(
    float_mode: bool,
    constraints: Seq<ConstraintView>,
    x: Decimal,
    y: Decimal,
    x_open: bool,
    y_open: bool,
    max_attempts: usize,
    e: SamplingError,
) -> bool {
    e == SamplingError::Entropy || range_fails(
        float_mode,
        constraints,
        x,
        y,
        x_open,
        y_open,
        max_attempts,
        e,
    )
}

/// Whether picking from a table between these ends can fail with `e`:
/// with `EmptyRange` where no value of its run belongs to the range, for
/// want of random bytes where the run holds more than one.
pub open spec fn table_fails(
    table: Seq<Decimal>,
    x: Decimal,
    y: Decimal,
    x_open: bool,
    y_open: bool,
    e: SamplingError,
) -> bool {
    let held = run_stop(table, x, y, x_open, y_open) - run_start(table, x, y, x_open, y_open);
    (held <= 0 && e == SamplingError::EmptyRange) || (held > 1 && e == SamplingError::Entropy)
}

/// Whether evaluating `g` can fail with `e`. A number never fails. A range
/// fails where an end does, for want of random bytes, or where a run of
/// attempts between two values of its ends ends on `e`. A selection fails
/// where an entry does, with `EmptyRange` where it has no entry, and for
/// want of random bytes where it has more than one. A table fails where an
/// end does or where picking between two values of its ends does.
pub open spec fn fails(g: GexView, max_attempts: usize, e: SamplingError) -> bool
    decreases g,
{
    match g.kind {
        ExpressionView::Number(_) => false,
        ExpressionView::Range(x, y, x_open, y_open) => {
            ||| fails(*x, max_attempts, e)
            ||| fails(*y, max_attempts, e)
            ||| exists|a: Decimal, b: Decimal|
                produces(*x, max_attempts, a) && produces(*y, max_attempts, b)
                    && #[trigger] range_breaks(
                    g.float_mode,
                    g.constraints,
                    a,
                    b,
                    x_open,
                    y_open,
                    max_attempts,
                    e,
                )
        },
        ExpressionView::Select(items) => {
            ||| exists|i: int| 0 <= i < items.len() && fails(#[trigger] items[i], max_attempts, e)
            ||| items.len() == 0 && e == SamplingError::EmptyRange
            ||| items.len() > 1 && e == SamplingError::Entropy
        },
        ExpressionView::PrecalculatedRange(x, y, x_open, y_open, table) => {
            ||| fails(*x, max_attempts, e)
            ||| fails(*y, max_attempts, e)
            ||| exists|a: Decimal, b: Decimal|
                produces(*x, max_attempts, a) && produces(*y, max_attempts, b)
                    && #[trigger] table_fails(table, a, b, x_open, y_open, e)
        },
    }
}

/// The result of evaluating `g` where no random value decides it: a number
/// gives itself, a selection without an entry and a table without a value
/// between its ends give `EmptyRange`, a selection of one entry gives what
/// that entry gives, and a table with one value between its ends gives that
/// value. `None` where a random value is drawn.
pub open spec fn foreseen(g: GexView) -> Option<Result<Decimal, SamplingError>>
    decreases g,
{
    match g.kind {
        ExpressionView::Number(n) => Some(Ok(n)),
        ExpressionView::Range(_, _, _, _) => None,
        ExpressionView::Select(items) => if items.len() == 0 {
            Some(Err(SamplingError::EmptyRange))
        } else if items.len() == 1 {
            foreseen(items[0])
        } else {
            None
        },
        ExpressionView::PrecalculatedRange(x, y, x_open, y_open, table) => match (
            foreseen(*x),
            foreseen(*y),
        ) {
            (Some(Err(e)), _) => Some(Err(e)),
            (Some(Ok(_)), Some(Err(e))) => Some(Err(e)),
            (Some(Ok(a)), Some(Ok(b))) => {
                let first = run_start(table, a, b, x_open, y_open);
                let held = run_stop(table, a, b, x_open, y_open) - first;
                if held <= 0 {
                    Some(Err(SamplingError::EmptyRange))
                } else if held == 1 {
                    Some(Ok(table[first]))
                } else {
                    None
                }
            },
            _ => None,
        },
    }
}

/// A range fails where one of its ends does.
pub proof fn lemma_range_fails_on_end(g: GexView, max_attempts: usize, e: SamplingError)
    requires
        g.kind matches ExpressionView::Range(x, y, _, _) && (fails(*x, max_attempts, e) || fails(
            *y,
            max_attempts,
            e,
        )),
    ensures
        fails(g, max_attempts, e),
{
}

/// A range fails where its draw between two values of its ends does.
pub proof fn lemma_range_fails_on_draw(
    g: GexView,
    max_attempts: usize,
    a: Decimal,
    b: Decimal,
    e: SamplingError,
)
    requires
        g.kind matches ExpressionView::Range(x, y, x_open, y_open) && produces(*x, max_attempts, a)
            && produces(*y, max_attempts, b) && range_breaks(
            g.float_mode,
            g.constraints,
            a,
            b,
            x_open,
            y_open,
            max_attempts,
            e,
        ),
    ensures
        fails(g, max_attempts, e),
{
}

/// A selection fails where one of its entries does.
pub proof fn lemma_select_fails_on_entry(g: GexView, max_attempts: usize, i: int, e: SamplingError)
    requires
        g.kind matches ExpressionView::Select(items) && 0 <= i < items.len() && fails(
            items[i],
            max_attempts,
            e,
        ),
    ensures
        fails(g, max_attempts, e),
{
}

/// A table fails where one of its ends does.
pub proof fn lemma_table_fails_on_end(g: GexView, max_attempts: usize, e: SamplingError)
    requires
        g.kind matches ExpressionView::PrecalculatedRange(x, y, _, _, _) && (fails(
            *x,
            max_attempts,
            e,
        ) || fails(*y, max_attempts, e)),
    ensures
        fails(g, max_attempts, e),
{
}

/// A table fails where picking between two values of its ends does.
pub proof fn lemma_table_fails_on_pick(
    g: GexView,
    max_attempts: usize,
    a: Decimal,
    b: Decimal,
    e: SamplingError,
)
    requires
        g.kind matches ExpressionView::PrecalculatedRange(x, y, x_open, y_open, table) && produces(
            *x,
            max_attempts,
            a,
        ) && produces(*y, max_attempts, b) && table_fails(table, a, b, x_open, y_open, e),
    ensures
        fails(g, max_attempts, e),
{
}

/// A range can give what a run of attempts between two values of its ends
/// gives.
pub proof fn lemma_range_produces(g: GexView, max_attempts: usize, a: Decimal, b: Decimal, v: Decimal)
    requires
        g.kind matches ExpressionView::Range(x, y, x_open, y_open) && produces(*x, max_attempts, a)
            && produces(*y, max_attempts, b) && range_yields(
            g.float_mode,
            g.constraints,
            a,
            b,
            x_open,
            y_open,
            max_attempts,
            v,
        ),
    ensures
        produces(g, max_attempts, v),
{
}

/// A selection can give what one of its entries gives.
pub proof fn lemma_select_produces(g: GexView, max_attempts: usize, i: int, v: Decimal)
    requires
        g.kind matches ExpressionView::Select(items) && 0 <= i < items.len() && produces(
            items[i],
            max_attempts,
            v,
        ),
    ensures
        produces(g, max_attempts, v),
{
}

/// A table can give what it hands out between two values of its ends.
pub proof fn lemma_table_produces(g: GexView, max_attempts: usize, a: Decimal, b: Decimal, v: Decimal)
    requires
        g.kind matches ExpressionView::PrecalculatedRange(x, y, x_open, y_open, table) && produces(
            *x,
            max_attempts,
            a,
        ) && produces(*y, max_attempts, b) && table_yields(table, a, b, x_open, y_open, v),
    ensures
        produces(g, max_attempts, v),
{
}

} // verus!
