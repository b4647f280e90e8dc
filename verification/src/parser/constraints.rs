//! The arithmetic behind constraints: common multiples, and the values of a
//! constrained range worked out beforehand.
use super::gex::{
    blacklisted, floor_to_multiple, floored_to, has_fixed_ends, is_blacklisted, precalc_view,
    strictly_increasing, well_formed, Gex, GexView,
};
use super::parse_error::{CompilerError, CompilerErrorView};
use crate::decimal::{
    checked_add, checked_div, checked_mul, checked_rem, checked_sub, compare, decimal_difference,
    decimal_product, decimal_quotient, decimal_remainder, decimal_sum, magnitude, Decimal,
};
use crate::rng_functions::{lower, upper};
use vstd::prelude::*;
use vstd::slice::slice_subrange;

verus! {

/// The memory, in bytes, that the values worked out beforehand for one range
/// may take unless the caller says otherwise.
pub const PRECALC_MEMORY_BUDGET: i64 = 1_048_576;

/// The bytes that one such value is counted as.
pub const PRECALC_BYTES_PER_VALUE: i64 = 16;

/// Euclid's algorithm on `bigger` and `smaller`: the last remainder that is
/// not zero. `None` where a remainder cannot be taken or is not smaller in
/// magnitude than what it was taken by.
pub open spec fn euclid(bigger: Decimal, smaller: Decimal) -> Option<Decimal>
    decreases magnitude(smaller@),
{
    if smaller@ == 0 {
        Some(bigger)
    } else {
        match decimal_remainder(bigger, smaller) {
            None => None,
            Some(rem) => if magnitude(rem@) < magnitude(smaller@) {
                euclid(smaller, rem)
            } else {
                None
            },
        }
    }
}

/// The greatest common divisor of `x` and `y`, by Euclid's algorithm from
/// the larger of the two.
pub open spec fn gcd_of(x: Decimal, y: Decimal) -> Option<Decimal> {
    euclid(upper(x, y), lower(x, y))
}

/// The least common multiple of `x` and `y`: their product, divided by
/// their greatest common divisor.
pub open spec fn lcm_of_pair(x: Decimal, y: Decimal) -> Option<Decimal> {
    match (gcd_of(x, y), decimal_product(x, y)) {
        (Some(gcd), Some(product)) => decimal_quotient(product, gcd),
        _ => None,
    }
}

/// The least common multiple of `numbers`: that of the least common
/// multiples of its two halves. Of one number it is the number itself, of
/// none there is none.
pub open spec fn lcm_of(numbers: Seq<Decimal>) -> Option<Decimal>
    decreases numbers.len(),
{
    if numbers.len() == 0 {
        None
    } else if numbers.len() == 1 {
        Some(numbers[0])
    } else {
        let half = numbers.len() as int / 2;
        match (lcm_of(numbers.subrange(0, half)), lcm_of(numbers.subrange(half, numbers.len() as int))) {
            (Some(x), Some(y)) => lcm_of_pair(x, y),
            _ => None,
        }
    }
}

/// The bytes that the multiples of `multiple_of` in a range of the width
/// `range` are counted as.
pub open spec fn max_constraint_size(multiple_of: Decimal, range: Decimal) -> Option<Decimal> {
    match decimal_quotient(range, multiple_of) {
        Some(count) => decimal_product(count, Decimal::of(PRECALC_BYTES_PER_VALUE as int, 0)),
        None => None,
    }
}

/// How far `current` is from having passed `end`.
pub open spec fn steps_left(current: Decimal, end: Decimal) -> int {
    if current@ > end@ {
        0
    } else {
        end@ - current@ + 1
    }
}

/// The multiples of `step` from `current` up to `end` that are a multiple
/// of none of `blacklist`, behind `found`. `None` where a remainder cannot
/// be taken or a step does not lead upward.
pub open spec fn enumerated(
    current: Decimal,
    end: Decimal,
    step: Decimal,
    blacklist: Seq<Decimal>,
    found: Seq<Decimal>,
) -> Option<Seq<Decimal>>
    decreases steps_left(current, end),
{
    if current@ > end@ {
        Some(found)
    } else {
        match blacklisted(current, blacklist, 0) {
            Err(_) => None,
            Ok(rejected) => {
                let kept = if rejected {
                    found
                } else {
                    found.push(current)
                };
                match decimal_sum(current, step) {
                    None => None,
                    Some(next) => if next@ > current@ {
                        enumerated(next, end, step, blacklist, kept)
                    } else {
                        None
                    },
                }
            },
        }
    }
}

/// The values of a range from `start` to `end` that are multiples of
/// `multiple_of` and of none of `not_multiple_of`, where they are worked
/// out beforehand: `None` where the estimate of their size is over
/// `budget` bytes, the divisor is not above zero or the arithmetic fails.
pub open spec fn precalculated_values(
    multiple_of: Decimal,
    not_multiple_of: Seq<Decimal>,
    start: Decimal,
    end: Decimal,
    budget: i64,
) -> Option<Seq<Decimal>> {
    if multiple_of@ <= 0 {
        None
    } else {
        match decimal_difference(end, start) {
            None => None,
            Some(width) => match max_constraint_size(multiple_of, width) {
                None => None,
                Some(size) => if size@ > Decimal::of(budget as int, 0)@ {
                    None
                } else {
                    match floored_to(start, multiple_of) {
                        Err(_) => None,
                        Ok(first) => enumerated(
                            first,
                            end,
                            multiple_of,
                            not_multiple_of,
                            Seq::empty(),
                        ),
                    }
                },
            },
        }
    }
}

/// The range `orig` with its two constraints worked out beforehand:
/// `Ok(None)` where they are not, because an end is no number or there are
/// no values worked out; an error where no value is left.
pub open spec fn precalculated(
    orig: GexView,
    multiple_of: Decimal,
    not_multiple_of: Seq<Decimal>,
    budget: i64,
) -> Result<Option<GexView>, CompilerErrorView> {
    if !has_fixed_ends(orig) {
        Ok(None)
    } else {
        match precalculated_values(
            multiple_of,
            not_multiple_of,
            orig.min_bound,
            orig.max_bound,
            budget,
        ) {
            None => Ok(None),
            Some(values) => if values.len() == 0 {
                Err(CompilerErrorView::UnsatisfiableConstraint)
            } else {
                Ok(Some(precalc_view(orig, values)))
            },
        }
    }
}

/// The greatest common divisor of `x` and `y`.
pub fn greatest_common_denominator(x: Decimal, y: Decimal) -> (r: Option<Decimal>)
    ensures
        r == gcd_of(x, y),
{
    let mut bigger = x.max(y);
    let mut smaller = x.min(y);
    while !smaller.is_zero()
        invariant
            euclid(bigger, smaller) == gcd_of(x, y),
        decreases magnitude(smaller@),
    {
        let rem = match checked_rem(bigger, smaller) {
            Some(rem) => rem,
            None => return None,
        };
        if compare(rem.abs(), smaller.abs()) >= 0 {
            return None;
        }
        bigger = smaller;
        smaller = rem;
    }
    Some(bigger)
}

/// The least common multiple of `numbers`.
pub fn least_common_multiple(numbers: &[Decimal]) -> (r: Option<Decimal>)
    ensures
        r == lcm_of(numbers@),
    decreases numbers@.len(),
{
    if numbers.len() == 0 {
        return None;
    }
    if numbers.len() == 1 {
        return Some(numbers[0]);
    }
    let half_len = numbers.len() / 2;
    let x = match least_common_multiple(slice_subrange(numbers, 0, half_len)) {
        Some(x) => x,
        None => return None,
    };
    let y = match least_common_multiple(slice_subrange(numbers, half_len, numbers.len())) {
        Some(y) => y,
        None => return None,
    };
    let gcd = match greatest_common_denominator(x, y) {
        Some(gcd) => gcd,
        None => return None,
    };
    match checked_mul(x, y) {
        Some(product) => checked_div(product, gcd),
        None => None,
    }
}

/// The bytes that the multiples of `multiple_of` in a range of the width
/// `range` are counted as.
pub fn calc_max_constraint_size(multiple_of: Decimal, range: Decimal) -> (r: Option<Decimal>)
    ensures
        r == max_constraint_size(multiple_of, range),
{
    match checked_div(range, multiple_of) {
        Some(count) => checked_mul(count, Decimal::from_i64(PRECALC_BYTES_PER_VALUE)),
        None => None,
    }
}

/// The values that a range from `start` to `end` can hand out under the two
/// constraints, in rising order; `None` where they are not worked out.
pub fn precalculate_values(
    multiple_of: Decimal,
    not_multiple_of: &Vec<Decimal>,
    start: Decimal,
    end: Decimal,
    budget: i64,
) -> (r: Option<Vec<Decimal>>)
    ensures
        r is Some <==> precalculated_values(multiple_of, not_multiple_of@, start, end, budget)
            is Some,
        r matches Some(values) ==> {
            &&& precalculated_values(multiple_of, not_multiple_of@, start, end, budget) == Some(
                values@,
            )
            &&& strictly_increasing(values@)
            &&& forall|i: int|
                0 <= i < values@.len() ==> blacklisted(#[trigger] values@[i], not_multiple_of@, 0)
                    == Ok::<bool, crate::rng_functions::SamplingError>(false)
        },
{
    if compare(multiple_of, Decimal::from_i64(0)) <= 0 {
        return None;
    }
    let width = match checked_sub(end, start) {
        Some(width) => width,
        None => return None,
    };
    let max_byte_count = match calc_max_constraint_size(multiple_of, width) {
        Some(max_byte_count) => max_byte_count,
        None => return None,
    };
    if compare(max_byte_count, Decimal::from_i64(budget)) > 0 {
        return None;
    }
    let first = match floor_to_multiple(start, multiple_of) {
        Ok(first) => first,
        Err(_) => return None,
    };
    let mut possible_value: Vec<Decimal> = Vec::new();
    let mut current = first;
    let ghost all = enumerated(first, end, multiple_of, not_multiple_of@, Seq::empty());
    while compare(current, end) <= 0
        invariant
            all == precalculated_values(multiple_of, not_multiple_of@, start, end, budget),
            all == enumerated(current, end, multiple_of, not_multiple_of@, possible_value@),
            strictly_increasing(possible_value@),
            forall|i: int| 0 <= i < possible_value@.len() ==> (#[trigger] possible_value@[i])@ < current@,
            forall|i: int|
                0 <= i < possible_value@.len() ==> blacklisted(
                    #[trigger] possible_value@[i],
                    not_multiple_of@,
                    0,
                ) == Ok::<bool, crate::rng_functions::SamplingError>(false),
        decreases steps_left(current, end),
    {
        match is_blacklisted(current, not_multiple_of) {
            Err(_) => return None,
            Ok(is_mult) => {
                if !is_mult {
                    possible_value.push(current);
                }
            },
        }
        let next = match checked_add(current, multiple_of) {
            Some(next) => next,
            None => return None,
        };
        if compare(next, current) <= 0 {
            return None;
        }
        current = next;
    }
    Some(possible_value)
}

/// The range `orig` with its two constraints worked out beforehand.
/// `Ok(None)` hands `orig` back untouched.
pub fn precalculate_constraint(
    orig: Gex,
    multiple_of: Decimal,
    not_multiple_of: &Vec<Decimal>,
    budget: i64,
) -> (r: Result<Result<Gex, Gex>, CompilerError>)
    ensures
        match precalculated(orig@, multiple_of, not_multiple_of@, budget) {
            Err(e) => r matches Err(err) && err@ == e,
            Ok(Some(g)) => r matches Ok(Ok(done)) && done@ == g,
            Ok(None) => r matches Ok(Err(same)) && same@ == orig@,
        },
        well_formed(orig@) ==> (r matches Ok(Ok(done)) ==> well_formed(done@)),
{
    if !orig.has_number_ends() {
        return Ok(Err(orig));
    }
    match precalculate_values(
        multiple_of,
        not_multiple_of,
        orig.min_number(),
        orig.max_number(),
        budget,
    ) {
        None => Ok(Err(orig)),
        Some(values) => {
            if values.len() == 0 {
                Err(CompilerError::UnsatisfiableConstraint)
            } else {
                Ok(Ok(Gex::from_precalc(orig, values)))
            }
        },
    }
}

} // verus!
