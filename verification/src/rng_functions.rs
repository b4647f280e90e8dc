//! From raw random integers to values spread evenly over a range.
use crate::decimal::{
    checked_add, checked_div, checked_mul, checked_sub, compare, decimal_difference,
    decimal_product, decimal_quotient, decimal_sum, Decimal,
};
use crate::rng_traits::{EntropyError, Randomizable};
use vstd::prelude::*;

verus! {

/// Where a raw value `base`, drawn from `0..=top`, lands in `min..max`: the
/// raw values are cut into `max - min` runs of equal length, one for each
/// value of the range, and what is left over at the top goes to the last
/// value. An empty range gives `min`.
pub open spec fn scaled(base: int, top: int, min: int, max: int) -> int {
    if max <= min {
        min
    } else {
        let range = max - min;
        let step = base / (top / range);
        if step < range {
            min + step
        } else {
            max - 1
        }
    }
}

/// Every raw value lands inside the range, the upper end left out.
pub proof fn lemma_scaled_in_range(base: int, top: int, min: int, max: int)
    requires
        0 <= base <= top,
        min < max,
        max - min <= top,
    ensures
        min <= scaled(base, top, min, max) < max,
{
    let range = max - min;
    assert(top / range >= 1) by (nonlinear_arith)
        requires
            0 < range <= top,
    ;
    let unit = top / range;
    assert(base / unit >= 0) by (nonlinear_arith)
        requires
            base >= 0,
            unit >= 1,
    ;
}

/// A larger raw value never lands below a smaller one.
pub proof fn lemma_scaled_monotonic(lower: int, upper: int, top: int, min: int, max: int)
    requires
        0 <= lower <= upper <= top,
        min < max,
        max - min <= top,
    ensures
        scaled(lower, top, min, max) <= scaled(upper, top, min, max),
{
    let range = max - min;
    assert(top / range >= 1) by (nonlinear_arith)
        requires
            0 < range <= top,
    ;
    let unit = top / range;
    assert(lower / unit <= upper / unit) by (nonlinear_arith)
        requires
            lower <= upper,
            unit >= 1,
    ;
}

/// The raw value 0 lands on the lower end, and the raw values reach the last
/// value of the range.
pub proof fn lemma_scaled_ends(top: int, min: int, max: int)
    requires
        min < max,
        max - min <= top,
    ensures
        scaled(0, top, min, max) == min,
        scaled(top, top, min, max) == max - 1,
{
    let range = max - min;
    assert(top / range >= 1) by (nonlinear_arith)
        requires
            0 < range <= top,
    ;
    let unit = top / range;
    assert(0int / unit == 0) by (nonlinear_arith)
        requires
            unit >= 1,
    ;
    assert(top / unit >= range - 1) by (nonlinear_arith)
        requires
            unit == top / range,
            unit >= 1,
            0 < range <= top,
    {
        assert(unit * range <= top);
        assert((unit * (range - 1)) / unit == range - 1);
        assert(unit * (range - 1) <= top);
    }
}

/// Every value of the range is reached, and every value but the last by a
/// run of exactly `top / (max - min)` raw values: the `k`-th value by those
/// from `k` times that length up to, and not including, `k + 1` times it.
pub proof fn lemma_scaled_runs(base: int, top: int, min: int, max: int, k: int)
    requires
        0 <= base <= top,
        min < max,
        max - min <= top,
        0 <= k < max - min,
    ensures
        k * (top / (max - min)) <= top,
        scaled(k * (top / (max - min)), top, min, max) == min + k,
        k < max - min - 1 ==> (scaled(base, top, min, max) == min + k <==> k * (top / (max - min))
            <= base < (k + 1) * (top / (max - min))),
{
    let range = max - min;
    let unit = top / range;
    assert(unit >= 1 && unit * range <= top) by (nonlinear_arith)
        requires
            0 < range <= top,
            unit == top / range,
    ;
    assert(k * unit <= top && (k * unit) / unit == k) by (nonlinear_arith)
        requires
            0 <= k < range,
            unit >= 1,
            unit * range <= top,
    ;
    assert((base / unit == k) <==> (k * unit <= base < (k + 1) * unit)) by (nonlinear_arith)
        requires
            0 <= base,
            unit >= 1,
            0 <= k,
    ;
}

/// The last value of the range takes what is left over: the raw values
/// from the end of the last full run on. Its run is longer than the others
/// by fewer raw values than the range has values.
pub proof fn lemma_scaled_last_run(base: int, top: int, min: int, max: int)
    requires
        0 <= base <= top,
        min < max,
        max - min <= top,
    ensures
        scaled(base, top, min, max) == max - 1 <==> (max - min - 1) * (top / (max - min)) <= base,
        top + 1 - (max - min - 1) * (top / (max - min)) <= top / (max - min) + (max - min),
{
    let range = max - min;
    let unit = top / range;
    assert(unit >= 1 && unit * range <= top < unit * range + range) by (nonlinear_arith)
        requires
            0 < range <= top,
            unit == top / range,
    ;
    assert((base / unit >= range - 1) <==> ((range - 1) * unit <= base)) by (nonlinear_arith)
        requires
            0 <= base,
            unit >= 1,
            range >= 1,
    ;
    assert((range - 1) * unit == unit * range - unit) by (nonlinear_arith);
}

/// The value of `min..max` on which the raw value `rand_base` lands.
pub fn scale_usize(rand_base: usize, min: usize, max: usize) -> (r: usize)
    ensures
        r == scaled(rand_base as int, usize::MAX as int, min as int, max as int),
        min < max ==> min <= r < max,
{
    if max <= min {
        return min;
    }
    let range = max - min;
    proof {
        lemma_scaled_in_range(rand_base as int, usize::MAX as int, min as int, max as int);
        assert(usize::MAX as int / range as int >= 1) by (nonlinear_arith)
            requires
                0 < range <= usize::MAX,
        ;
    }
    let proportion_unit = usize::MAX / range;
    let proportional_rand = rand_base / proportion_unit;
    if proportional_rand < range {
        min + proportional_rand
    } else {
        max - 1
    }
}

/// The value of `min..max` on which the raw value `rand_base` lands.
pub fn scale_i64(rand_base: u128, min: i64, max: i64) -> (r: i64)
    ensures
        r == scaled(rand_base as int, u128::MAX as int, min as int, max as int),
        min < max ==> min <= r < max,
{
    if max <= min {
        return min;
    }
    let range: u128 = (max as i128 - min as i128) as u128;
    proof {
        lemma_scaled_in_range(rand_base as int, u128::MAX as int, min as int, max as int);
        assert(u128::MAX as int / range as int >= 1) by (nonlinear_arith)
            requires
                0 < range <= u128::MAX,
        ;
    }
    let proportion_unit = u128::MAX / range;
    let proportional_rand = rand_base / proportion_unit;
    if proportional_rand < range {
        (min as i128 + proportional_rand as i128) as i64
    } else {
        max - 1
    }
}

/// Which of `count` values, counted from zero, the raw value `rand_base`
/// lands on.
pub fn scale_u128(rand_base: u128, count: u128) -> (r: u128)
    ensures
        r == scaled(rand_base as int, u128::MAX as int, 0, count as int),
        count > 0 ==> r < count,
{
    if count == 0 {
        return 0;
    }
    proof {
        lemma_scaled_in_range(rand_base as int, u128::MAX as int, 0, count as int);
        assert(u128::MAX as int / count as int >= 1) by (nonlinear_arith)
            requires
                0 < count <= u128::MAX,
        ;
    }
    let proportion_unit = u128::MAX / count;
    let proportional_rand = rand_base / proportion_unit;
    if proportional_rand < count {
        proportional_rand
    } else {
        count - 1
    }
}

/// A range of one value gives that value, whatever the raw value.
pub proof fn lemma_scaled_single(base: int, top: int, min: int)
    requires
        0 <= base <= top,
        1 <= top,
    ensures
        scaled(base, top, min, min + 1) == min,
{
    lemma_scaled_in_range(base, top, min, min + 1);
}

/// A random value of `min..max`, the upper end left out; `min` where the
/// range is empty. A range that holds no value or one gives `min` without
/// asking for random bytes, so it cannot fail.
pub fn random_usize(min: usize, max: usize) -> (r: Result<usize, EntropyError>)
    ensures
        max <= min || max - min == 1 ==> r == Ok::<usize, EntropyError>(min),
        r matches Ok(v) ==> {
            &&& exists|base: usize| v == scaled(base as int, usize::MAX as int, min as int, max as int)
            &&& min < max ==> min <= v < max
            &&& max <= min ==> v == min
        },
{
    if max <= min || max - min == 1 {
        proof {
            if max > min {
                lemma_scaled_single(0, usize::MAX as int, min as int);
            }
            assert(min == scaled(0usize as int, usize::MAX as int, min as int, max as int));
        }
        return Ok(min);
    }
    match usize::random() {
        Ok(rand_base) => Ok(scale_usize(rand_base, min, max)),
        Err(e) => Err(e),
    }
}

/// A random value of `min..max`, the upper end left out; `min` where the
/// range is empty. A range that holds no value or one gives `min` without
/// asking for random bytes, so it cannot fail.
pub fn random_i64(min: i64, max: i64) -> (r: Result<i64, EntropyError>)
    ensures
        max <= min || max - min == 1 ==> r == Ok::<i64, EntropyError>(min),
        r matches Ok(v) ==> {
            &&& exists|base: u128| v == scaled(base as int, u128::MAX as int, min as int, max as int)
            &&& min < max ==> min <= v < max
            &&& max <= min ==> v == min
        },
{
    if max <= min || max as i128 - min as i128 == 1 {
        proof {
            if max > min {
                lemma_scaled_single(0, u128::MAX as int, min as int);
            }
            assert(min == scaled(0u128 as int, u128::MAX as int, min as int, max as int));
        }
        return Ok(min);
    }
    match u128::random() {
        Ok(rand_base) => Ok(scale_i64(rand_base, min, max)),
        Err(e) => Err(e),
    }
}

/// Why no value could be drawn.
#[derive(Clone, Copy, Debug, PartialEq, Eq, Structural)]
pub enum SamplingError {
    /// The operating system handed out no random bytes.
    Entropy,
    /// A step of the arithmetic left what a decimal can hold.
    Overflow,
    /// A constraint names zero as a divisor.
    DivisionByZero,
    /// Nothing to choose from: a range without a value, a table without a
    /// value between the ends, or a selection without an entry.
    EmptyRange,
}

/// The numerically smaller of two bounds.
pub open spec fn lower(a: Decimal, b: Decimal) -> Decimal {
    if a@ > b@ {
        b
    } else {
        a
    }
}

/// The numerically larger of two bounds.
pub open spec fn upper(a: Decimal, b: Decimal) -> Decimal {
    if a@ < b@ {
        b
    } else {
        a
    }
}

/// The part of the whole that the raw value `base` stands for: `base`
/// divided by the largest raw value.
pub open spec fn proportion(base: u64) -> Option<Decimal> {
    decimal_quotient(Decimal::of(base as int, 0), Decimal::of(u64::MAX as int, 0))
}

/// `min` plus that part of the way from `min` to `max`, as the decimal
/// arithmetic gives it.
pub open spec fn spread(base: u64, min: Decimal, max: Decimal) -> Option<Decimal> {
    match (decimal_difference(max, min), proportion(base)) {
        (Some(range), Some(part)) => match decimal_product(range, part) {
            Some(offset) => decimal_sum(min, offset),
            None => None,
        },
        _ => None,
    }
}

/// `v`, or the bound it went past.
pub open spec fn clamped(v: Decimal, a: Decimal, b: Decimal) -> Decimal {
    if v@ < lower(a, b)@ {
        lower(a, b)
    } else if v@ > upper(a, b)@ {
        upper(a, b)
    } else {
        v
    }
}

/// Where the raw value `base` lands between `min` and `max`, both ends
/// included; `None` where the arithmetic overflows.
pub open spec fn sample_between(base: u64, min: Decimal, max: Decimal) -> Option<Decimal> {
    match spread(base, min, max) {
        Some(v) => Some(clamped(v, min, max)),
        None => None,
    }
}

/// Whatever the arithmetic gives, a sample never leaves its bounds.
pub proof fn lemma_sample_between_bounds(base: u64, min: Decimal, max: Decimal)
    ensures
        sample_between(base, min, max) matches Some(v) ==> lower(min, max)@ <= v@ <= upper(
            min,
            max,
        )@,
{
}

/// Where the raw value `rand_base` lands between `min` and `max`.
pub fn scale_decimal(rand_base: u64, min: Decimal, max: Decimal) -> (r: Option<Decimal>)
    ensures
        r == sample_between(rand_base, min, max),
        r matches Some(v) ==> lower(min, max)@ <= v@ <= upper(min, max)@,
{
    let range = match checked_sub(max, min) {
        Some(range) => range,
        None => return None,
    };
    let part = match checked_div(Decimal::from_u64(rand_base), Decimal::from_u64(u64::MAX)) {
        Some(part) => part,
        None => return None,
    };
    let offset = match checked_mul(range, part) {
        Some(offset) => offset,
        None => return None,
    };
    let value = match checked_add(min, offset) {
        Some(value) => value,
        None => return None,
    };
    let low = min.min(max);
    let high = min.max(max);
    if compare(value, low) < 0 {
        Some(low)
    } else if compare(value, high) > 0 {
        Some(high)
    } else {
        Some(value)
    }
}

/// A random value between `min` and `max`, both ends included.
pub fn random_decimal(min: Decimal, max: Decimal) -> (r: Result<Decimal, SamplingError>)
    ensures
        r matches Ok(v) ==> {
            &&& exists|base: u64| sample_between(base, min, max) == Some(v)
            &&& lower(min, max)@ <= v@ <= upper(min, max)@
        },
        r matches Err(e) ==> e == SamplingError::Entropy || e == SamplingError::Overflow,
{
    match u64::random() {
        Ok(rand_base) => match scale_decimal(rand_base, min, max) {
            Some(v) => Ok(v),
            None => Err(SamplingError::Overflow),
        },
        Err(_) => Err(SamplingError::Entropy),
    }
}

} // verus!
