//! The steps of an evaluation that need no random value of their own.
use super::constraint::{constraint_views, Constraint};
use super::model::{has_multiple_of, is_whole};
use super::semantics::{
    admitted, blacklisted, divides, first_whole, first_within, floored_to, last_whole, nudged,
    picked, raw_sample, run_end, run_start, run_stop, settled, whole_sample, within,
};
use crate::decimal::{
    checked_add, checked_div, checked_mul, checked_rem, checked_sub, compare, decimal_product,
    floor_units, Decimal, MAX_SCALE,
};
use crate::rng_functions::{scale_decimal, scale_u128, scale_usize, SamplingError};
use vstd::prelude::*;

verus! {

/// Whether `d` has no fractional part.
pub(crate) fn whole(d: Decimal) -> (r: bool)
    ensures
        r == is_whole(d),
{
    compare(d.floor(), d) == 0
}

/// Whether one of the constraints is a `MultipleOf`.
pub(crate) fn includes_multiple_of(constraints: &Vec<Constraint>) -> (r: bool)
    ensures
        r == has_multiple_of(constraint_views(constraints@)),
{
    let mut i: usize = 0;
    while i < constraints.len()
        invariant
            i <= constraints.len(),
            forall|k: int| 0 <= k < i ==> !(#[trigger] constraint_views(constraints@)[k] is MultipleOf),
        decreases constraints.len() - i,
    {
        if let Constraint::MultipleOf(_) = &constraints[i] {
            assert(constraint_views(constraints@)[i as int] is MultipleOf);
            return true;
        }
        i += 1;
    }
    false
}

/// Whether `v` belongs to the range between `x` and `y`.
pub fn lies_within(v: Decimal, x: Decimal, y: Decimal, x_open: bool, y_open: bool) -> (r: bool)
    ensures
        r == within(v, x, y, x_open, y_open),
{
    let low = x.min(y);
    let high = x.max(y);
    compare(v, low) >= 0 && compare(v, high) <= 0 && !(x_open && compare(v, x) == 0) && !(y_open
        && compare(v, y) == 0)
}

/// `candidate` where there is one and it belongs to the range.
fn keep_if_within(
    candidate: Option<Decimal>,
    x: Decimal,
    y: Decimal,
    x_open: bool,
    y_open: bool,
) -> (r: Option<Decimal>)
    ensures
        r == admitted(candidate, x, y, x_open, y_open),
{
    match candidate {
        Some(c) => if lies_within(c, x, y, x_open, y_open) {
            Some(c)
        } else {
            None
        },
        None => None,
    }
}

/// Moves `raw` off an open end and into the range: by epsilon, one
/// thousandth, or where that steps too far by the next finer step that
/// fits; failing that, onto an end that belongs to the range. `None` where
/// none of these belongs to the range.
pub fn settle(raw: Decimal, x: Decimal, y: Decimal, x_open: bool, y_open: bool) -> (r: Option<
    Decimal,
>)
    ensures
        r == settled(raw, x, y, x_open, y_open),
        r matches Some(v) ==> within(v, x, y, x_open, y_open),
{
    if lies_within(raw, x, y, x_open, y_open) {
        return Some(raw);
    }
    let mut k: u32 = 3;
    while k <= MAX_SCALE
        invariant
            3 <= k <= MAX_SCALE + 1,
            !within(raw, x, y, x_open, y_open),
            nudged(raw, x, y, x_open, y_open, 3) == nudged(raw, x, y, x_open, y_open, k as nat),
        decreases MAX_SCALE + 1 - k,
    {
        if let Some(step) = Decimal::new(1, k) {
            if let Some(up) = keep_if_within(checked_add(raw, step), x, y, x_open, y_open) {
                return Some(up);
            }
            if let Some(down) = keep_if_within(checked_sub(raw, step), x, y, x_open, y_open) {
                return Some(down);
            }
        }
        k += 1;
    }
    if lies_within(x, x, y, x_open, y_open) {
        Some(x)
    } else if lies_within(y, x, y, x_open, y_open) {
        Some(y)
    } else {
        None
    }
}

/// The integer of the range between `x` and `y` on which the raw value
/// `rand_base` lands.
pub fn draw_whole(x: Decimal, y: Decimal, x_open: bool, y_open: bool, rand_base: u128) -> (r: Result<
    Decimal,
    SamplingError,
>)
    ensures
        r == whole_sample(x, y, x_open, y_open, rand_base),
        r matches Ok(v) ==> within(v, x, y, x_open, y_open) && is_whole(v),
        r matches Err(e) ==> e == SamplingError::EmptyRange && first_whole(x, y, x_open, y_open)
            > last_whole(x, y, x_open, y_open),
{
    let low = x.min(y);
    let high = x.max(y);
    let low_out = (x_open && compare(x, low) == 0) || (y_open && compare(y, low) == 0);
    let high_out = (x_open && compare(x, high) == 0) || (y_open && compare(y, high) == 0);
    let first: i128 = if low_out {
        low.floor_integer() + 1
    } else {
        low.ceil_integer()
    };
    let last: i128 = if high_out {
        high.ceil_integer() - 1
    } else {
        high.floor_integer()
    };
    if first > last {
        return Err(SamplingError::EmptyRange);
    }
    let count: u128 = (last - first + 1) as u128;
    let offset = scale_u128(rand_base, count);
    let n: i128 = first + offset as i128;
    proof {
        Decimal::lemma_whole_bounds(low@, high@, first as int, last as int, n as int);
        Decimal::lemma_whole_value(n as int);
    }
    match Decimal::new(n, 0) {
        Some(v) => Ok(v),
        None => Err(SamplingError::Overflow),
    }
}

/// The value drawn for the raw value `rand_base`, before any constraint.
pub(crate) fn draw(
    float_mode: bool,
    x: Decimal,
    y: Decimal,
    x_open: bool,
    y_open: bool,
    rand_base: u128,
) -> (r: Result<Decimal, SamplingError>)
    ensures
        r == raw_sample(float_mode, x, y, x_open, y_open, rand_base),
{
    if float_mode {
        let low: u64 = (rand_base % 0x1_0000_0000_0000_0000) as u64;
        match scale_decimal(low, x, y) {
            Some(raw) => match settle(raw, x, y, x_open, y_open) {
                Some(v) => Ok(v),
                None => Err(SamplingError::EmptyRange),
            },
            None => Err(SamplingError::Overflow),
        }
    } else {
        draw_whole(x, y, x_open, y_open, rand_base)
    }
}

/// `v` brought down to a multiple of `d`.
pub fn floor_to_multiple(v: Decimal, d: Decimal) -> (r: Result<Decimal, SamplingError>)
    ensures
        r == floored_to(v, d),
        r matches Ok(w) ==> exists|q: Decimal| is_whole(q) && #[trigger] decimal_product(q, d) == Some(w),
{
    if d.is_zero() {
        return Err(SamplingError::DivisionByZero);
    }
    let quotient = match checked_div(v, d) {
        Some(quotient) => quotient,
        None => return Err(SamplingError::Overflow),
    };
    let count = quotient.floor();
    assert(is_whole(count)) by {
        let u = quotient@;
        assert(floor_units(floor_units(u)) == floor_units(u));
    }
    match checked_mul(count, d) {
        Some(w) => Ok(w),
        None => Err(SamplingError::Overflow),
    }
}

/// Whether `v` leaves no remainder on division by `d`.
pub fn is_multiple(v: Decimal, d: Decimal) -> (r: Result<bool, SamplingError>)
    ensures
        r == divides(v, d),
{
    if d.is_zero() {
        return Err(SamplingError::DivisionByZero);
    }
    match checked_rem(v, d) {
        Some(rem) => Ok(rem.is_zero()),
        None => Err(SamplingError::Overflow),
    }
}

/// Whether `v` is a multiple of one of `items`.
pub fn is_blacklisted(v: Decimal, items: &Vec<Decimal>) -> (r: Result<bool, SamplingError>)
    ensures
        r == blacklisted(v, items@, 0),
{
    let mut i: usize = 0;
    while i < items.len()
        invariant
            i <= items.len(),
            blacklisted(v, items@, 0) == blacklisted(v, items@, i as int),
        decreases items.len() - i,
    {
        match is_multiple(v, items[i]) {
            Err(e) => return Err(e),
            Ok(true) => return Ok(true),
            Ok(false) => {},
        }
        i += 1;
    }
    Ok(false)
}

/// The run of values of `possible_vals` from which a value is handed out:
/// from its first value that belongs to the range between `x` and `y` up
/// to, and not including, the next that does not.
pub fn run_within(
    x: Decimal,
    y: Decimal,
    x_open: bool,
    y_open: bool,
    possible_vals: &Vec<Decimal>,
) -> (r: (usize, usize))
    ensures
        r.0 == run_start(possible_vals@, x, y, x_open, y_open),
        r.1 == run_stop(possible_vals@, x, y, x_open, y_open),
        r.0 <= r.1 <= possible_vals@.len(),
        forall|k: int| r.0 <= k < r.1 ==> within(#[trigger] possible_vals@[k], x, y, x_open, y_open),
{
    let ghost table = possible_vals@;
    let mut min_index: usize = 0;
    while min_index < possible_vals.len() && !lies_within(
        possible_vals[min_index],
        x,
        y,
        x_open,
        y_open,
    )
        invariant
            min_index <= possible_vals.len(),
            table == possible_vals@,
            first_within(table, x, y, x_open, y_open, 0) == first_within(
                table,
                x,
                y,
                x_open,
                y_open,
                min_index as int,
            ),
        decreases possible_vals.len() - min_index,
    {
        min_index += 1;
    }
    let mut max_index: usize = min_index;
    while max_index < possible_vals.len() && lies_within(
        possible_vals[max_index],
        x,
        y,
        x_open,
        y_open,
    )
        invariant
            min_index <= max_index <= possible_vals.len(),
            table == possible_vals@,
            run_end(table, x, y, x_open, y_open, min_index as int) == run_end(
                table,
                x,
                y,
                x_open,
                y_open,
                max_index as int,
            ),
            forall|k: int| min_index <= k < max_index ==> within(#[trigger] table[k], x, y, x_open, y_open),
        decreases possible_vals.len() - max_index,
    {
        max_index += 1;
    }
    (min_index, max_index)
}

/// The value of `possible_vals` on which the raw value `rand_base` lands,
/// among those that belong to the range between `x` and `y`; `None` where
/// none does.
pub fn pick_precalculated(
    x: Decimal,
    y: Decimal,
    x_open: bool,
    y_open: bool,
    possible_vals: &Vec<Decimal>,
    rand_base: usize,
) -> (r: Option<Decimal>)
    ensures
        r == picked(possible_vals@, x, y, x_open, y_open, rand_base),
        r matches Some(v) ==> within(v, x, y, x_open, y_open) && possible_vals@.contains(v),
{
    let (min_index, max_index) = run_within(x, y, x_open, y_open, possible_vals);
    if min_index < max_index {
        let index = scale_usize(rand_base, min_index, max_index);
        Some(possible_vals[index])
    } else {
        None
    }
}

} // verus!
