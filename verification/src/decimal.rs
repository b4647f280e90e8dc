//! Fixed-precision decimal numbers: a signed 96-bit mantissa and a scale
//! between 0 and 28, standing for `mantissa / 10^scale`.
//!
//! The arithmetic itself is done by the `rust_decimal` crate. Its results are
//! rounded where they do not fit, so the contracts here name them rather than
//! restate them; what is stated exactly is the numeric order, the floor and
//! the values built from integers.
use std::cmp::Ordering;
use vstd::prelude::*;
use vstd::std_specs::cmp::{PartialEqSpecImpl, PartialOrdSpecImpl};

verus! {

/// Largest magnitude of a mantissa: `2^96 - 1`.
pub const MAX_MANTISSA: i128 = 79_228_162_514_264_337_593_543_950_335;

/// Largest scale: the number of digits that may follow the decimal point.
pub const MAX_SCALE: u32 = 28;

/// `10^28`: how many smallest steps make up one.
pub open spec fn unit() -> int {
    10_000_000_000_000_000_000_000_000_000
}

/// `10^n`.
pub open spec fn pow10(n: nat) -> int
    decreases n,
{
    if n == 0 {
        1
    } else {
        10 * pow10((n - 1) as nat)
    }
}

/// A decimal number `mantissa / 10^scale`. The mantissa lies within
/// `MAX_MANTISSA` of zero and the scale is at most `MAX_SCALE`, always: no
/// other value can be built.
#[derive(Clone, Copy, Debug)]
pub struct Decimal {
    mantissa: i128,
    scale: u32,
}

impl View for Decimal {
    type V = int;

    /// The number counted in steps of `10^-28`, the finest a `Decimal` can
    /// tell apart. Two decimals are numerically equal exactly when their
    /// views are.
    closed spec fn view(&self) -> int {
        self.mantissa * pow10((MAX_SCALE - self.scale) as nat)
    }
}

impl Decimal {
    #[verifier::type_invariant]
    spec fn in_range(self) -> bool {
        &&& -MAX_MANTISSA <= self.mantissa <= MAX_MANTISSA
        &&& self.scale <= MAX_SCALE
    }

    /// The decimal `mantissa / 10^scale`.
    pub closed spec fn of(mantissa: int, scale: nat) -> Decimal {
        Decimal { mantissa: mantissa as i128, scale: scale as u32 }
    }

    /// Whether a decimal can hold `mantissa / 10^scale` as it stands.
    pub open spec fn holds(mantissa: int, scale: nat) -> bool {
        -MAX_MANTISSA <= mantissa <= MAX_MANTISSA && scale <= MAX_SCALE
    }

    /// The value of `mantissa / 10^scale` in steps of `10^-28`.
    pub proof fn lemma_of_value(mantissa: int, scale: nat)
        requires
            Self::holds(mantissa, scale),
        ensures
            Self::of(mantissa, scale)@ == mantissa * pow10((MAX_SCALE - scale) as nat),
            Self::of(mantissa, scale).spec_scale() == scale,
    {
    }

    /// An integer between the smallest and the largest integer of a span
    /// can be held, and lies within the span.
    pub proof fn lemma_whole_bounds(low: int, high: int, first: int, last: int, n: int)
        requires
            -MAX_MANTISSA * unit() <= low <= high <= MAX_MANTISSA * unit(),
            first == ceil_int(low) || first == floor_int(low) + 1,
            last == floor_int(high) || last == ceil_int(high) - 1,
            first <= n <= last,
        ensures
            Self::holds(n, 0),
            low <= n * unit() <= high,
            first == floor_int(low) + 1 ==> low < n * unit(),
            last == ceil_int(high) - 1 ==> n * unit() < high,
    {
    }

    /// No number lies further from zero than the largest mantissa.
    proof fn lemma_value_bounds(self)
        requires
            self.in_range(),
        ensures
            -MAX_MANTISSA * unit() <= self@ <= MAX_MANTISSA * unit(),
    {
        lemma_pow10_rises((MAX_SCALE - self.scale) as nat, MAX_SCALE as nat);
        lemma_pow10_positive((MAX_SCALE - self.scale) as nat);
        lemma_pow10_unit();
        let p = pow10((MAX_SCALE - self.scale) as nat);
        let m = self.mantissa as int;
        let top = MAX_MANTISSA as int;
        let u = unit();
        assert(-top * u <= m * p <= top * u) by (nonlinear_arith)
            requires
                -top <= m <= top,
                0 < p <= u,
                top >= 0,
        ;
    }

    /// A whole number counts `10^28` steps for each one.
    pub proof fn lemma_whole_value(n: int)
        requires
            Self::holds(n, 0),
        ensures
            Self::of(n, 0)@ == n * unit(),
    {
        lemma_pow10_unit();
    }

    /// The decimal `mantissa / 10^scale`, where the pair is one that a
    /// `Decimal` can hold.
    pub fn new(mantissa: i128, scale: u32) -> (r: Option<Decimal>)
        ensures
            r is Some <==> Self::holds(mantissa as int, scale as nat),
            r is Some ==> r == Some(Self::of(mantissa as int, scale as nat)),
    {
        if scale <= MAX_SCALE && -MAX_MANTISSA <= mantissa && mantissa <= MAX_MANTISSA {
            Some(Decimal { mantissa, scale })
        } else {
            None
        }
    }

    /// The integer `n` as a decimal.
    pub fn from_i64(n: i64) -> (r: Decimal)
        ensures
            r == Self::of(n as int, 0),
            r@ == n * unit(),
    {
        proof {
            lemma_pow10_unit();
        }
        Decimal { mantissa: n as i128, scale: 0 }
    }

    /// The integer `n` as a decimal.
    pub fn from_u64(n: u64) -> (r: Decimal)
        ensures
            r == Self::of(n as int, 0),
            r@ == n * unit(),
    {
        proof {
            lemma_pow10_unit();
        }
        Decimal { mantissa: n as i128, scale: 0 }
    }

    /// One thousandth.
    pub fn thousandth() -> (r: Decimal)
        ensures
            r == Self::of(1, 3),
    {
        Decimal { mantissa: 1, scale: 3 }
    }

    /// The number that `text` spells out, as `rust_decimal` reads it: an
    /// optional sign, digits, and a fraction if there is one. `None` where
    /// the text spells no number or one that a decimal cannot hold exactly.
    pub fn parse(text: &str) -> (r: Option<Decimal>)
        ensures
            r == decimal_from_text(text@),
    {
        match from_str_exact(text) {
            Ok(d) => Some(d),
            Err(_) => None,
        }
    }

    /// The integer of which the number is the `10^scale`-th part.
    pub fn mantissa(&self) -> (m: i128)
        ensures
            Self::holds(m as int, self.scale() as nat),
            *self == Self::of(m as int, self.scale() as nat),
    {
        proof {
            use_type_invariant(self);
        }
        self.mantissa
    }

    /// The number of digits behind the decimal point.
    #[verifier::when_used_as_spec(spec_scale)]
    pub fn scale(&self) -> (s: u32)
        ensures
            s == self.spec_scale(),
            s <= MAX_SCALE,
    {
        proof {
            use_type_invariant(self);
        }
        self.scale
    }

    /// The number of digits behind the decimal point.
    pub closed spec fn spec_scale(&self) -> u32 {
        self.scale
    }

    /// Whether the number is zero.
    pub fn is_zero(&self) -> (r: bool)
        ensures
            r == (self@ == 0),
    {
        proof {
            use_type_invariant(self);
            lemma_pow10_positive((MAX_SCALE - self.scale) as nat);
            let p = pow10((MAX_SCALE - self.scale) as nat);
            let m = self.mantissa as int;
            assert((m * p == 0) == (m == 0)) by (nonlinear_arith)
                requires
                    p > 0,
            ;
        }
        self.mantissa == 0
    }

    /// The number without its sign.
    pub fn abs(&self) -> (r: Decimal)
        ensures
            r@ == magnitude(self@),
    {
        proof {
            use_type_invariant(self);
            lemma_pow10_positive((MAX_SCALE - self.scale) as nat);
            let p = pow10((MAX_SCALE - self.scale) as nat);
            let m = self.mantissa as int;
            assert((m < 0 ==> m * p <= 0 && (-m) * p == -(m * p)) && (m >= 0 ==> m * p >= 0))
                by (nonlinear_arith)
                requires
                    p > 0,
            ;
        }
        if self.mantissa < 0 {
            Decimal { mantissa: -self.mantissa, scale: self.scale }
        } else {
            *self
        }
    }

    /// The largest integer that is no larger than the number: the number
    /// itself where it has no digits behind the point, else that integer
    /// without digits behind the point.
    pub closed spec fn floored(self) -> Decimal {
        if self.scale == 0 {
            self
        } else {
            Decimal { mantissa: floor_int(self@) as i128, scale: 0 }
        }
    }

    /// The floor of a number counts a whole number of ones, the largest
    /// that is no more than the number.
    pub proof fn lemma_floored_value(self)
        requires
            self.is_held(),
        ensures
            self.floored()@ == floor_units(self@),
            self.floored().is_held(),
    {
        lemma_pow10_unit();
        self.lemma_value_bounds();
        if self.scale != 0 {
            lemma_quotient_bounds(self@, MAX_MANTISSA as int, unit());
        }
    }

    /// Whether mantissa and scale are such as a decimal holds. Every
    /// `Decimal` that the library hands out is.
    pub closed spec fn is_held(self) -> bool {
        self.in_range()
    }

    /// The largest integer that is no larger than the number.
    pub fn floor(&self) -> (r: Decimal)
        ensures
            r == self.floored(),
            r@ == floor_units(self@),
    {
        proof {
            use_type_invariant(self);
            self.lemma_floored_value();
        }
        floor_of(*self)
    }

    /// The largest integer that is no larger than the number, as an
    /// integer.
    pub fn floor_integer(&self) -> (n: i128)
        ensures
            n == floor_int(self@),
            -MAX_MANTISSA - 1 <= n <= MAX_MANTISSA,
            -MAX_MANTISSA * unit() <= self@ <= MAX_MANTISSA * unit(),
    {
        let (magnitude, rest) = self.split();
        let n = if self.mantissa >= 0 {
            magnitude
        } else if rest {
            -magnitude - 1
        } else {
            -magnitude
        };
        proof {
            use_type_invariant(self);
            self.lemma_value_bounds();
            self.lemma_sign();
            lemma_quotient_between(self@, n as int, unit());
        }
        n
    }

    /// The smallest integer that is no smaller than the number, as an
    /// integer.
    pub fn ceil_integer(&self) -> (n: i128)
        ensures
            n == ceil_int(self@),
            -MAX_MANTISSA <= n <= MAX_MANTISSA + 1,
            -MAX_MANTISSA * unit() <= self@ <= MAX_MANTISSA * unit(),
    {
        let (magnitude, rest) = self.split();
        let n = if self.mantissa < 0 {
            -magnitude
        } else if rest {
            magnitude + 1
        } else {
            magnitude
        };
        proof {
            use_type_invariant(self);
            self.lemma_value_bounds();
            self.lemma_sign();
            lemma_quotient_between(-self@, -n as int, unit());
        }
        n
    }

    /// The number has the sign of its mantissa.
    proof fn lemma_sign(self)
        ensures
            self.mantissa >= 0 ==> self@ >= 0,
            self.mantissa < 0 ==> self@ < 0,
    {
        lemma_pow10_positive((MAX_SCALE - self.scale) as nat);
        let p = pow10((MAX_SCALE - self.scale) as nat);
        let m = self.mantissa as int;
        assert((m >= 0 ==> m * p >= 0) && (m < 0 ==> m * p < 0)) by (nonlinear_arith)
            requires
                p > 0,
        ;
    }

    /// The whole part of the number without its sign, and whether a
    /// fraction is left beside it.
    fn split(&self) -> (r: (i128, bool))
        ensures
            0 <= r.0 <= MAX_MANTISSA,
            r.1 ==> r.0 * unit() < magnitude(self@) < (r.0 + 1) * unit(),
            !r.1 ==> r.0 * unit() == magnitude(self@),
    {
        proof {
            use_type_invariant(self);
        }
        let mut power: i128 = 1;
        let mut i: u32 = 0;
        while i < self.scale
            invariant
                i <= self.scale <= MAX_SCALE,
                power == pow10(i as nat),
                1 <= power <= unit(),
            decreases self.scale - i,
        {
            proof {
                lemma_pow10_rises((i + 1) as nat, MAX_SCALE as nat);
                lemma_pow10_unit();
            }
            power = power * 10;
            i += 1;
        }
        let whole: i128 = if self.mantissa < 0 {
            -self.mantissa
        } else {
            self.mantissa
        };
        let quotient = whole / power;
        let rest = whole % power;
        proof {
            let c = pow10((MAX_SCALE - self.scale) as nat);
            lemma_pow10_positive((MAX_SCALE - self.scale) as nat);
            lemma_pow10_sum(self.scale as nat, (MAX_SCALE - self.scale) as nat);
            lemma_pow10_unit();
            let m = self.mantissa as int;
            let w = whole as int;
            let p = power as int;
            let q = quotient as int;
            let r = rest as int;
            assert(magnitude(m * c) == w * c) by (nonlinear_arith)
                requires
                    c > 0,
                    w == magnitude(m),
            ;
            assert(w == q * p + r && 0 <= r < p && 0 <= q <= w) by (nonlinear_arith)
                requires
                    q == w / p,
                    r == w % p,
                    p >= 1,
                    w >= 0,
            ;
            assert(w * c == q * (p * c) + r * c && 0 <= r * c && (r > 0 ==> 0 < r * c) && r * c < p
                * c) by (nonlinear_arith)
                requires
                    w == q * p + r,
                    0 <= r < p,
                    c > 0,
            ;
        }
        (quotient, rest != 0)
    }

    /// The smaller of two numbers; of two equal ones, the first.
    pub fn min(self, other: Decimal) -> (r: Decimal)
        ensures
            r == (if self@ > other@ {
                other
            } else {
                self
            }),
    {
        if compare(self, other) > 0 {
            other
        } else {
            self
        }
    }

    /// The larger of two numbers; of two equal ones, the first.
    pub fn max(self, other: Decimal) -> (r: Decimal)
        ensures
            r == (if self@ < other@ {
                other
            } else {
                self
            }),
    {
        if compare(self, other) < 0 {
            other
        } else {
            self
        }
    }
}

/// The largest integer `n` with `n` ones no more than `v` steps.
pub open spec fn floor_int(v: int) -> int {
    v / unit()
}

/// The smallest integer `n` with `n` ones no less than `v` steps.
pub open spec fn ceil_int(v: int) -> int {
    -((-v) / unit())
}

/// `v` without its sign.
pub open spec fn magnitude(v: int) -> int {
    if v < 0 {
        -v
    } else {
        v
    }
}

impl PartialEq for Decimal {
    /// Numeric equality: `1.0` equals `1`.
    fn eq(&self, other: &Self) -> (r: bool) {
        compare(*self, *other) == 0
    }
}

impl PartialEqSpecImpl for Decimal {
    open spec fn obeys_eq_spec() -> bool {
        true
    }

    open spec fn eq_spec(&self, other: &Self) -> bool {
        self@ == other@
    }
}

impl PartialOrd for Decimal {
    /// The numeric order, which is total.
    fn partial_cmp(&self, other: &Self) -> (r: Option<Ordering>) {
        let c = compare(*self, *other);
        if c < 0 {
            Some(Ordering::Less)
        } else if c == 0 {
            Some(Ordering::Equal)
        } else {
            Some(Ordering::Greater)
        }
    }
}

impl PartialOrdSpecImpl for Decimal {
    open spec fn obeys_partial_cmp_spec() -> bool {
        true
    }

    open spec fn partial_cmp_spec(&self, other: &Self) -> Option<Ordering> {
        if self@ < other@ {
            Some(Ordering::Less)
        } else if self@ == other@ {
            Some(Ordering::Equal)
        } else {
            Some(Ordering::Greater)
        }
    }
}

/// Powers of ten are positive.
pub proof fn lemma_pow10_positive(n: nat)
    ensures
        pow10(n) > 0,
    decreases n,
{
    if n > 0 {
        lemma_pow10_positive((n - 1) as nat);
    }
}

/// What `rust_decimal` parses out of a number's text, if it parses.
pub uninterp spec fn decimal_from_text(text: Seq<char>) -> Option<Decimal>;

/// The sum that `rust_decimal` gives, if it can be held.
pub uninterp spec fn decimal_sum(a: Decimal, b: Decimal) -> Option<Decimal>;

/// The difference that `rust_decimal` gives, if it can be held.
pub uninterp spec fn decimal_difference(a: Decimal, b: Decimal) -> Option<Decimal>;

/// The product that `rust_decimal` gives, if it can be held.
pub uninterp spec fn decimal_product(a: Decimal, b: Decimal) -> Option<Decimal>;

/// The quotient that `rust_decimal` gives, if there is one and it can be held.
pub uninterp spec fn decimal_quotient(a: Decimal, b: Decimal) -> Option<Decimal>;

/// The remainder that `rust_decimal` gives, if there is one.
pub uninterp spec fn decimal_remainder(a: Decimal, b: Decimal) -> Option<Decimal>;

/// The largest whole number of units that is no larger than `v`.
pub open spec fn floor_units(v: int) -> int {
    (v / unit()) * unit()
}

/// -1, 0 or 1 as `a` is below, equal to or above `b`.
pub open spec fn order(a: int, b: int) -> int {
    if a < b {
        -1
    } else if a == b {
        0
    } else {
        1
    }
}

#[verifier::external_type_specification]
#[verifier::external_body]
pub struct ExDecimalError(rust_decimal::Error);

// Each function below hands its arguments to `rust_decimal` by
// `Decimal::from_i128_with_scale`, which takes every mantissa and scale that
// a `Decimal` of this module can hold, and reads the result back by
// `mantissa` and `scale`.

/// `rust_decimal::Decimal::from_str_exact`: the parsed number, named by
/// `decimal_from_text`, or the crate's error where the text is no number or
/// needs more digits than a decimal holds.
#[verifier::external_body]
pub(crate) fn from_str_exact(text: &str) -> (r: Result<Decimal, rust_decimal::Error>)
    ensures
        r is Ok <==> decimal_from_text(text@) is Some,
        r matches Ok(d) ==> decimal_from_text(text@) == Some(d),
{
    match rust_decimal::Decimal::from_str_exact(text) {
        Ok(d) => Ok(Decimal { mantissa: d.mantissa(), scale: d.scale() }),
        Err(e) => Err(e),
    }
}

/// `rust_decimal::Decimal::checked_add`: the sum named by `decimal_sum`,
/// `None` on overflow.
#[verifier::external_body]
pub(crate) fn checked_add(a: Decimal, b: Decimal) -> (r: Option<Decimal>)
    ensures
        r == decimal_sum(a, b),
{
    let x = rust_decimal::Decimal::from_i128_with_scale(a.mantissa, a.scale);
    let y = rust_decimal::Decimal::from_i128_with_scale(b.mantissa, b.scale);
    match x.checked_add(y) {
        Some(d) => Some(Decimal { mantissa: d.mantissa(), scale: d.scale() }),
        None => None,
    }
}

/// `rust_decimal::Decimal::checked_sub`: the difference named by
/// `decimal_difference`, `None` on overflow.
#[verifier::external_body]
pub(crate) fn checked_sub(a: Decimal, b: Decimal) -> (r: Option<Decimal>)
    ensures
        r == decimal_difference(a, b),
{
    let x = rust_decimal::Decimal::from_i128_with_scale(a.mantissa, a.scale);
    let y = rust_decimal::Decimal::from_i128_with_scale(b.mantissa, b.scale);
    match x.checked_sub(y) {
        Some(d) => Some(Decimal { mantissa: d.mantissa(), scale: d.scale() }),
        None => None,
    }
}

/// `rust_decimal::Decimal::checked_mul`: the product named by
/// `decimal_product`, `None` on overflow.
#[verifier::external_body]
pub(crate) fn checked_mul(a: Decimal, b: Decimal) -> (r: Option<Decimal>)
    ensures
        r == decimal_product(a, b),
{
    let x = rust_decimal::Decimal::from_i128_with_scale(a.mantissa, a.scale);
    let y = rust_decimal::Decimal::from_i128_with_scale(b.mantissa, b.scale);
    match x.checked_mul(y) {
        Some(d) => Some(Decimal { mantissa: d.mantissa(), scale: d.scale() }),
        None => None,
    }
}

/// `rust_decimal::Decimal::checked_div`: the quotient named by
/// `decimal_quotient`, `None` on overflow or where `b` is zero.
#[verifier::external_body]
pub(crate) fn checked_div(a: Decimal, b: Decimal) -> (r: Option<Decimal>)
    ensures
        r == decimal_quotient(a, b),
{
    let x = rust_decimal::Decimal::from_i128_with_scale(a.mantissa, a.scale);
    let y = rust_decimal::Decimal::from_i128_with_scale(b.mantissa, b.scale);
    match x.checked_div(y) {
        Some(d) => Some(Decimal { mantissa: d.mantissa(), scale: d.scale() }),
        None => None,
    }
}

/// `rust_decimal::Decimal::checked_rem`: the remainder named by
/// `decimal_remainder`, `None` on overflow or where `b` is zero.
#[verifier::external_body]
pub(crate) fn checked_rem(a: Decimal, b: Decimal) -> (r: Option<Decimal>)
    ensures
        r == decimal_remainder(a, b),
{
    let x = rust_decimal::Decimal::from_i128_with_scale(a.mantissa, a.scale);
    let y = rust_decimal::Decimal::from_i128_with_scale(b.mantissa, b.scale);
    match x.checked_rem(y) {
        Some(d) => Some(Decimal { mantissa: d.mantissa(), scale: d.scale() }),
        None => None,
    }
}

/// `rust_decimal::Decimal::floor`: the largest integer that is no larger
/// than `a`. A number without digits behind the point comes back as it
/// is; any other as that integer with no digits behind the point.
#[verifier::external_body]
pub(crate) fn floor_of(a: Decimal) -> (r: Decimal)
    ensures
        r == a.floored(),
{
    let d = rust_decimal::Decimal::from_i128_with_scale(a.mantissa, a.scale).floor();
    Decimal { mantissa: d.mantissa(), scale: d.scale() }
}

/// `Ord::cmp` of `rust_decimal::Decimal`: the numeric order of the two
/// values, whatever their scales.
#[verifier::external_body]
pub(crate) fn compare(a: Decimal, b: Decimal) -> (r: i8)
    ensures
        r == order(a@, b@),
{
    let x = rust_decimal::Decimal::from_i128_with_scale(a.mantissa, a.scale);
    let y = rust_decimal::Decimal::from_i128_with_scale(b.mantissa, b.scale);
    match x.cmp(&y) {
        Ordering::Less => -1,
        Ordering::Equal => 0,
        Ordering::Greater => 1,
    }
}

/// A value between two neighbouring multiples of `u` has the lower one's
/// factor as its quotient.
pub proof fn lemma_quotient_between(v: int, n: int, u: int)
    by (nonlinear_arith)
    requires
        u > 0,
        n * u <= v < (n + 1) * u,
    ensures
        v / u == n,
{
}

/// The quotient of a value within `top` times `u` of zero lies within
/// `top` of zero.
pub proof fn lemma_quotient_bounds(v: int, top: int, u: int)
    by (nonlinear_arith)
    requires
        u > 0,
        top >= 0,
        -top * u <= v <= top * u,
    ensures
        -top <= v / u <= top,
{
}

/// A larger exponent gives no smaller power of ten.
pub proof fn lemma_pow10_rises(a: nat, b: nat)
    requires
        a <= b,
    ensures
        pow10(a) <= pow10(b),
    decreases b,
{
    if a < b {
        lemma_pow10_rises(a, (b - 1) as nat);
        lemma_pow10_positive((b - 1) as nat);
    }
}

/// Powers of ten multiply by adding their exponents.
pub proof fn lemma_pow10_sum(a: nat, b: nat)
    ensures
        pow10(a) * pow10(b) == pow10(a + b),
    decreases a,
{
    if a > 0 {
        lemma_pow10_sum((a - 1) as nat, b);
        let x = pow10((a - 1) as nat);
        let y = pow10(b);
        assert((10 * x) * y == 10 * (x * y)) by (nonlinear_arith);
    }
}

proof fn lemma_pow10_unit()
    ensures
        pow10(28) == unit(),
{
    reveal_with_fuel(pow10, 29);
}

} // verus!
