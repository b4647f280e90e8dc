//! The expression tree and its evaluation.
use crate::decimal::Decimal;
use crate::rng_functions::{random_usize, scaled, SamplingError};
use crate::rng_traits::Randomizable;
use constraint::{constraint_views, Constraint, ConstraintView};
use expression::{Expression, ExpressionView};
use sampling::{draw, includes_multiple_of, whole};
use vstd::prelude::*;

pub mod constraint;
pub mod expression;
pub mod laws;
pub mod model;
pub mod sampling;
pub mod semantics;

pub use model::{
    any_float_mode, float_mode_after, greatest_bound, has_fixed_ends, has_multiple_of, is_whole,
    least_bound, number_view, precalc_view, range_view, select_view, strictly_increasing,
    tree_views, well_formed, with_constraint,
};
pub use sampling::{
    draw_whole, floor_to_multiple, is_blacklisted, is_multiple, lies_within, pick_precalculated,
    run_within, settle,
};
pub use semantics::{
    admitted, attempt_outcome, attempts_allowed, blacklisted, constrained, divides, fails,
    first_whole, first_within, floored_to, foreseen, is_rejected, last_whole, left_out,
    lemma_range_fails_on_draw, lemma_range_fails_on_end, lemma_range_produces,
    lemma_select_fails_on_entry, lemma_select_produces, lemma_table_fails_on_end,
    lemma_table_fails_on_pick, lemma_table_produces, low_bits, nudged, picked, produces,
    range_breaks, range_fails, range_yields, raw_sample, run_end, run_ends_on, run_fails_with,
    run_start, run_stop, settled, step, table_fails, table_yields, whole_sample, within,
};

verus! {

/// A Grand Expression: a number, a range with its constraints, or a
/// selection from a list. The ends of a range and the entries of a selection
/// are expressions themselves, evaluated first.
#[derive(Debug)]
pub struct Gex {
    expression_type: Expression,
    min_number: Decimal,
    max_number: Decimal,
    dynamic_constraints: Vec<Constraint>,
    float_mode: bool,
}

/// An expression as contracts speak of it.
pub struct GexView {
    pub kind: ExpressionView,
    pub min_bound: Decimal,
    pub max_bound: Decimal,
    pub constraints: Seq<ConstraintView>,
    pub float_mode: bool,
}

/// The view of a tree.
pub closed spec fn tree_view(g: Gex) -> GexView
    decreases g,
{
    GexView {
        kind: kind_view(g.expression_type),
        min_bound: g.min_number,
        max_bound: g.max_number,
        constraints: constraint_views(g.dynamic_constraints@),
        float_mode: g.float_mode,
    }
}

/// The view of a tree's kind.
pub closed spec fn kind_view(e: Expression) -> ExpressionView
    decreases e,
{
    match e {
        Expression::Number(n) => ExpressionView::Number(n),
        Expression::Range(x, y, x_open, y_open) => ExpressionView::Range(
            Box::new(tree_view(*x)),
            Box::new(tree_view(*y)),
            x_open,
            y_open,
        ),
        Expression::Select(items) => ExpressionView::Select(
            Seq::new(
                items@.len(),
                |i: int|
                    if 0 <= i < items@.len() {
                        tree_view(items@[i])
                    } else {
                        arbitrary()
                    },
            ),
        ),
        Expression::PrecalculatedRange(x, y, x_open, y_open, values) => {
            ExpressionView::PrecalculatedRange(
                Box::new(tree_view(*x)),
                Box::new(tree_view(*y)),
                x_open,
                y_open,
                values@,
            )
        },
    }
}

impl View for Gex {
    type V = GexView;

    open spec fn view(&self) -> GexView {
        tree_view(*self)
    }
}

impl View for Expression {
    type V = ExpressionView;

    open spec fn view(&self) -> ExpressionView {
        kind_view(*self)
    }
}

/// The attempts that a range makes at most: after so many that a
/// `NotMultipleOf` rejected, it hands out the last value as it is.
pub const MAX_RANGE_HELL_REROLLS: usize = 1000;

impl Gex {
    /// The expression that stands for the number `num`.
    pub fn from_num(num: Decimal) -> (r: Gex)
        ensures
            r@ == number_view(num),
            well_formed(r@),
    {
        let r = Gex {
            expression_type: Expression::Number(num),
            min_number: num,
            max_number: num,
            dynamic_constraints: Vec::new(),
            float_mode: true,
        };
        assert(r@.constraints =~= Seq::empty());
        r
    }

    /// The range from `x` to `y`, without constraints. An end that is open
    /// does not belong to the range.
    pub fn from_range(x: Gex, y: Gex, x_open: bool, y_open: bool) -> (r: Gex)
        ensures
            r@ == range_view(x@, y@, x_open, y_open),
            well_formed(x@) && well_formed(y@) ==> well_formed(r@),
    {
        let min_number = x.min_number;
        let max_number = y.max_number;
        let r = Gex {
            expression_type: Expression::Range(Box::new(x), Box::new(y), x_open, y_open),
            min_number,
            max_number,
            dynamic_constraints: Vec::new(),
            float_mode: true,
        };
        assert(r@.constraints =~= Seq::empty());
        r
    }

    /// The selection of one of `objects`. Its bounds are the smallest lower
    /// and the largest upper bound among them, and it is in float mode where
    /// one of them is.
    pub fn from_select(objects: Vec<Gex>) -> (r: Gex)
        requires
            objects@.len() > 0,
        ensures
            r@ == select_view(tree_views(objects@)),
            (forall|i: int| 0 <= i < objects@.len() ==> well_formed(#[trigger] objects@[i]@))
                ==> well_formed(r@),
    {
        let ghost views = tree_views(objects@);
        let mut min_number = objects[0].min_number;
        let mut max_number = objects[0].max_number;
        let mut float_mode = objects[0].float_mode;
        let mut i: usize = 1;
        proof {
            reveal_with_fuel(any_float_mode, 2);
        }
        while i < objects.len()
            invariant
                1 <= i <= objects.len(),
                views == tree_views(objects@),
                min_number == least_bound(views, i as int),
                max_number == greatest_bound(views, i as int),
                float_mode == any_float_mode(views, i as int),
            decreases objects.len() - i,
        {
            min_number = min_number.min(objects[i].min_number);
            max_number = max_number.max(objects[i].max_number);
            float_mode = float_mode || objects[i].float_mode;
            i += 1;
        }
        let r = Gex {
            expression_type: Expression::Select(objects),
            min_number,
            max_number,
            dynamic_constraints: Vec::new(),
            float_mode,
        };
        assert(r@.constraints =~= Seq::empty());
        assert(r@.kind->Select_0 =~= views);
        r
    }

    /// The range `orig` with its constraints worked out beforehand: `values`
    /// lists what it can hand out. Where `orig` is no range, the ends are
    /// the first and the last of `values`, both closed.
    pub fn from_precalc(orig: Gex, values: Vec<Decimal>) -> (r: Gex)
        requires
            values@.len() > 0,
            strictly_increasing(values@),
        ensures
            r@ == precalc_view(orig@, values@),
            well_formed(orig@) ==> well_formed(r@),
    {
        let min = values[0];
        let max = values[values.len() - 1];
        let float_mode = orig.float_mode;
        let expression_type = match orig.expression_type {
            Expression::Range(x, y, x_open, y_open) => Expression::PrecalculatedRange(
                x,
                y,
                x_open,
                y_open,
                values,
            ),
            _ => Expression::PrecalculatedRange(
                Box::new(Gex::from_num(min)),
                Box::new(Gex::from_num(max)),
                false,
                false,
                values,
            ),
        };
        let r = Gex {
            expression_type,
            min_number: min,
            max_number: max,
            dynamic_constraints: Vec::new(),
            float_mode,
        };
        assert(r@.constraints =~= Seq::empty());
        r
    }

    /// A copy of the expression and of all below it.
    pub fn duplicate(&self) -> (r: Gex)
        ensures
            r@ == self@,
        decreases self,
    {
        let expression_type = duplicate_kind(&self.expression_type);
        let mut dynamic_constraints: Vec<Constraint> = Vec::new();
        let mut i: usize = 0;
        while i < self.dynamic_constraints.len()
            invariant
                i <= self.dynamic_constraints.len(),
                dynamic_constraints.len() == i,
                forall|k: int|
                    0 <= k < i ==> (#[trigger] dynamic_constraints@[k])@
                        == self.dynamic_constraints@[k]@,
            decreases self.dynamic_constraints.len() - i,
        {
            let copy = match &self.dynamic_constraints[i] {
                Constraint::MultipleOf(d) => Constraint::MultipleOf(*d),
                Constraint::NotMultipleOf(items) => Constraint::NotMultipleOf(copy_of(items)),
            };
            dynamic_constraints.push(copy);
            i += 1;
        }
        assert(constraint_views(dynamic_constraints@) =~= constraint_views(
            self.dynamic_constraints@,
        ));
        Gex {
            expression_type,
            min_number: self.min_number,
            max_number: self.max_number,
            dynamic_constraints,
            float_mode: self.float_mode,
        }
    }

    /// The smallest value the expression is expected to hand out.
    pub fn min_number(&self) -> (r: Decimal)
        ensures
            r == self@.min_bound,
    {
        self.min_number
    }

    /// The largest value the expression is expected to hand out.
    pub fn max_number(&self) -> (r: Decimal)
        ensures
            r == self@.max_bound,
    {
        self.max_number
    }

    /// What kind of expression this is, with its parts.
    pub fn expression(&self) -> (r: &Expression)
        ensures
            r@ == self@.kind,
    {
        &self.expression_type
    }

    /// The constraints, in the order in which they were attached.
    pub fn constraints(&self) -> (r: &Vec<Constraint>)
        ensures
            constraint_views(r@) == self@.constraints,
    {
        &self.dynamic_constraints
    }

    /// Whether the expression may hand out values with a fraction.
    pub fn float_mode(&self) -> (r: bool)
        ensures
            r == self@.float_mode,
    {
        self.float_mode
    }

    /// Whether this is a range between two numbers.
    pub fn has_number_ends(&self) -> (r: bool)
        ensures
            r == has_fixed_ends(self@),
    {
        match &self.expression_type {
            Expression::Range(x, y, x_open, y_open) => {
                assert(self@.kind == ExpressionView::Range(
                    Box::new(x@),
                    Box::new(y@),
                    *x_open,
                    *y_open,
                ));
                let x_is_number = match x.expression() {
                    Expression::Number(_) => true,
                    _ => false,
                };
                let y_is_number = match y.expression() {
                    Expression::Number(_) => true,
                    _ => false,
                };
                x_is_number && y_is_number
            },
            _ => false,
        }
    }

    /// Attaches `constraint` behind those already there.
    pub fn add_constraint(&mut self, constraint: Constraint)
        ensures
            final(self)@ == with_constraint(old(self)@, constraint@),
            well_formed(old(self)@) ==> well_formed(final(self)@),
    {
        if let Constraint::MultipleOf(value) = &constraint {
            if whole(*value) {
                let had_one = includes_multiple_of(&self.dynamic_constraints);
                self.float_mode = had_one && self.float_mode;
            } else {
                self.float_mode = true;
            }
        }
        self.dynamic_constraints.push(constraint);
        assert(final(self)@.constraints =~= old(self)@.constraints.push(constraint@));
    }

    /// A value of the expression, drawn at random.
    ///
    /// A number gives itself. A range evaluates its two ends and draws a
    /// value that belongs to the range between them: in float mode any
    /// decimal, kept off an open end; otherwise one of its integers. The
    /// constraints are then applied in order, and after
    /// `MAX_RANGE_HELL_REROLLS` attempts that a `NotMultipleOf` rejected the
    /// last value is handed out as it is. A selection evaluates every entry
    /// and picks one; a table picks one of its values between the ends.
    ///
    /// Where nothing is drawn the result is fixed beforehand; an error says
    /// what failed: the random bytes, the arithmetic, or a range, table or
    /// selection that holds nothing to choose from.
    pub fn generate(&self) -> (r: Result<Decimal, SamplingError>)
        ensures
            r matches Ok(v) ==> produces(self@, MAX_RANGE_HELL_REROLLS, v),
            r matches Err(e) ==> fails(self@, MAX_RANGE_HELL_REROLLS, e),
            foreseen(self@) matches Some(known) ==> r == known,
    {
        self.generate_within(MAX_RANGE_HELL_REROLLS)
    }

    /// A value of the expression, where a range makes at most `max_attempts`
    /// attempts (and never fewer than one).
    pub fn generate_within(&self, max_attempts: usize) -> (r: Result<Decimal, SamplingError>)
        ensures
            r matches Ok(v) ==> produces(self@, max_attempts, v),
            r matches Err(e) ==> fails(self@, max_attempts, e),
            foreseen(self@) matches Some(known) ==> r == known,
        decreases self,
    {
        match &self.expression_type {
            Expression::Number(out) => Ok(*out),
            Expression::Range(gex_x, gex_y, x_open, y_open) => {
                let x = match gex_x.generate_within(max_attempts) {
                    Ok(x) => x,
                    Err(e) => {
                        proof {
                            lemma_range_fails_on_end(self@, max_attempts, e);
                        }
                        return Err(e);
                    },
                };
                let y = match gex_y.generate_within(max_attempts) {
                    Ok(y) => y,
                    Err(e) => {
                        proof {
                            lemma_range_fails_on_end(self@, max_attempts, e);
                        }
                        return Err(e);
                    },
                };
                let r = self.eval_range(x, y, *x_open, *y_open, max_attempts);
                proof {
                    match r {
                        Ok(v) => lemma_range_produces(self@, max_attempts, x, y, v),
                        Err(e) => lemma_range_fails_on_draw(self@, max_attempts, x, y, e),
                    }
                }
                r
            },
            Expression::Select(items) => {
                let mut options: Vec<Decimal> = Vec::new();
                let mut i: usize = 0;
                assert(self@.kind->Select_0 =~= tree_views(items@));
                while i < items.len()
                    invariant
                        i <= items.len(),
                        options.len() == i,
                        self.expression_type == Expression::Select(*items),
                        self@.kind == ExpressionView::Select(tree_views(items@)),
                        forall|k: int|
                            0 <= k < i ==> produces(items@[k]@, max_attempts, #[trigger] options@[k]),
                        forall|k: int|
                            0 <= k < i ==> (foreseen(items@[k]@) matches Some(known) ==> known
                                == Ok::<Decimal, SamplingError>(#[trigger] options@[k])),
                    decreases items.len() - i,
                {
                    match items[i].generate_within(max_attempts) {
                        Ok(v) => options.push(v),
                        Err(e) => {
                            proof {
                                lemma_select_fails_on_entry(self@, max_attempts, i as int, e);
                            }
                            return Err(e);
                        },
                    }
                    i += 1;
                }
                match Self::eval_select(options) {
                    Ok(v) => {
                        proof {
                            let k = choose|k: int| 0 <= k < options@.len() && options@[k] == v;
                            assert(produces(tree_views(items@)[k], max_attempts, v));
                            lemma_select_produces(self@, max_attempts, k, v);
                        }
                        Ok(v)
                    },
                    Err(e) => Err(e),
                }
            },
            Expression::PrecalculatedRange(gex_x, gex_y, x_open, y_open, possible_vals) => {
                let x = match gex_x.generate_within(max_attempts) {
                    Ok(x) => x,
                    Err(e) => {
                        proof {
                            lemma_table_fails_on_end(self@, max_attempts, e);
                        }
                        return Err(e);
                    },
                };
                let y = match gex_y.generate_within(max_attempts) {
                    Ok(y) => y,
                    Err(e) => {
                        proof {
                            lemma_table_fails_on_end(self@, max_attempts, e);
                        }
                        return Err(e);
                    },
                };
                let r = Self::eval_precalculated(x, y, *x_open, *y_open, possible_vals);
                proof {
                    match r {
                        Ok(v) => lemma_table_produces(self@, max_attempts, x, y, v),
                        Err(e) => lemma_table_fails_on_pick(self@, max_attempts, x, y, e),
                    }
                }
                r
            },
        }
    }

    /// One attempt at a value between `x` and `y` for the raw value
    /// `rand_base`: the value with the constraints applied, and whether a
    /// `NotMultipleOf` rejects it. In float mode the low 64 bits of the raw
    /// value decide, otherwise all of it.
    pub fn attempt(&self, x: Decimal, y: Decimal, x_open: bool, y_open: bool, rand_base: u128) -> (r:
        Result<(Decimal, bool), SamplingError>)
        ensures
            r == attempt_outcome(
                self@.float_mode,
                self@.constraints,
                x,
                y,
                x_open,
                y_open,
                rand_base,
            ),
    {
        let raw = match draw(self.float_mode, x, y, x_open, y_open, rand_base) {
            Ok(raw) => raw,
            Err(e) => return Err(e),
        };
        let ghost constraints = constraint_views(self.dynamic_constraints@);
        let mut number = raw;
        let mut i: usize = 0;
        while i < self.dynamic_constraints.len()
            invariant
                i <= self.dynamic_constraints.len(),
                constraints == constraint_views(self.dynamic_constraints@),
                constraints == self@.constraints,
                raw_sample(self@.float_mode, x, y, x_open, y_open, rand_base) == Ok::<
                    Decimal,
                    SamplingError,
                >(raw),
                constrained(constraints, 0, raw) == constrained(constraints, i as int, number),
            decreases self.dynamic_constraints.len() - i,
        {
            match &self.dynamic_constraints[i] {
                Constraint::MultipleOf(mult_of) => {
                    number = match floor_to_multiple(number, *mult_of) {
                        Ok(floored) => floored,
                        Err(e) => return Err(e),
                    };
                },
                Constraint::NotMultipleOf(items) => {
                    match is_blacklisted(number, items) {
                        Err(e) => return Err(e),
                        Ok(true) => return Ok((number, true)),
                        Ok(false) => {},
                    }
                },
            }
            i += 1;
        }
        Ok((number, false))
    }

    /// A value of the range between `x` and `y`, or the reason why there is
    /// none: no random bytes, or the error on which a run of attempts ended.
    fn eval_range(&self, x: Decimal, y: Decimal, x_open: bool, y_open: bool, max_attempts: usize) -> (r:
        Result<Decimal, SamplingError>)
        ensures
            r matches Ok(v) ==> range_yields(
                self@.float_mode,
                self@.constraints,
                x,
                y,
                x_open,
                y_open,
                max_attempts,
                v,
            ),
            r matches Err(e) ==> range_breaks(
                self@.float_mode,
                self@.constraints,
                x,
                y,
                x_open,
                y_open,
                max_attempts,
                e,
            ),
    {
        self.eval_range_hell(x, y, x_open, y_open, max_attempts)
    }

    /// Draws until an attempt is not rejected or `max_attempts` have been
    /// made (one, where none is allowed), and hands out the value of the
    /// last one. An attempt that fails ends the run with its error.
    fn eval_range_hell(
        &self,
        x: Decimal,
        y: Decimal,
        x_open: bool,
        y_open: bool,
        max_attempts: usize,
    ) -> (r: Result<Decimal, SamplingError>)
        ensures
            r matches Ok(v) ==> range_yields(
                self@.float_mode,
                self@.constraints,
                x,
                y,
                x_open,
                y_open,
                max_attempts,
                v,
            ),
            r matches Err(e) ==> range_breaks(
                self@.float_mode,
                self@.constraints,
                x,
                y,
                x_open,
                y_open,
                max_attempts,
                e,
            ),
    {
        let mut iteration_n: usize = 0;
        let ghost mut draws: Seq<u128> = Seq::empty();
        loop
            invariant
                iteration_n == 0 || iteration_n < max_attempts,
                draws.len() == iteration_n,
                forall|i: int|
                    0 <= i < draws.len() ==> #[trigger] is_rejected(
                        self@.float_mode,
                        self@.constraints,
                        x,
                        y,
                        x_open,
                        y_open,
                        draws[i],
                    ),
            decreases max_attempts - iteration_n,
        {
            let rand_base = match u128::random() {
                Ok(rand_base) => rand_base,
                Err(_) => return Err(SamplingError::Entropy),
            };
            match self.attempt(x, y, x_open, y_open, rand_base) {
                Err(e) => {
                    assert(run_fails_with(
                        self@.float_mode,
                        self@.constraints,
                        x,
                        y,
                        x_open,
                        y_open,
                        max_attempts,
                        draws.push(rand_base),
                        e,
                    ));
                    return Err(e);
                },
                Ok((number, rejected)) => {
                    proof {
                        draws = draws.push(rand_base);
                    }
                    if !rejected || iteration_n + 1 >= max_attempts {
                        assert(run_ends_on(
                            self@.float_mode,
                            self@.constraints,
                            x,
                            y,
                            x_open,
                            y_open,
                            max_attempts,
                            draws,
                            number,
                        ));
                        return Ok(number);
                    }
                    iteration_n += 1;
                },
            }
        }
    }

    /// One of `options`, each as likely as the others. No option is an
    /// error, a single one is handed out as it is, and a choice among
    /// several needs random bytes.
    fn eval_select(options: Vec<Decimal>) -> (r: Result<Decimal, SamplingError>)
        ensures
            options@.len() == 0 ==> r == Err::<Decimal, SamplingError>(SamplingError::EmptyRange),
            options@.len() == 1 ==> r == Ok::<Decimal, SamplingError>(options@[0]),
            r matches Ok(v) ==> exists|k: int| 0 <= k < options@.len() && options@[k] == v,
            r matches Err(e) ==> (options@.len() == 0 && e == SamplingError::EmptyRange) || (
            options@.len() > 1 && e == SamplingError::Entropy),
    {
        let random_index = match random_usize(0, options.len()) {
            Ok(random_index) => random_index,
            Err(_) => return Err(SamplingError::Entropy),
        };
        if random_index < options.len() {
            Ok(options[random_index])
        } else {
            Err(SamplingError::EmptyRange)
        }
    }

    /// One of the values of `possible_vals` that belong to the range
    /// between `x` and `y`, each of the run as likely as the others. No such
    /// value is an error, a single one is handed out as it is, and a choice
    /// among several needs random bytes.
    fn eval_precalculated(
        x: Decimal,
        y: Decimal,
        x_open: bool,
        y_open: bool,
        possible_vals: &Vec<Decimal>,
    ) -> (r: Result<Decimal, SamplingError>)
        ensures
            run_start(possible_vals@, x, y, x_open, y_open) >= run_stop(
                possible_vals@,
                x,
                y,
                x_open,
                y_open,
            ) ==> r == Err::<Decimal, SamplingError>(SamplingError::EmptyRange),
            run_stop(possible_vals@, x, y, x_open, y_open) - run_start(
                possible_vals@,
                x,
                y,
                x_open,
                y_open,
            ) == 1 ==> r == Ok::<Decimal, SamplingError>(
                possible_vals@[run_start(possible_vals@, x, y, x_open, y_open)],
            ),
            r matches Ok(v) ==> table_yields(possible_vals@, x, y, x_open, y_open, v),
            r matches Err(e) ==> table_fails(possible_vals@, x, y, x_open, y_open, e),
            r matches Err(e) ==> (e == SamplingError::EmptyRange && run_start(
                possible_vals@,
                x,
                y,
                x_open,
                y_open,
            ) >= run_stop(possible_vals@, x, y, x_open, y_open)) || (e == SamplingError::Entropy
                && run_stop(possible_vals@, x, y, x_open, y_open) - run_start(
                possible_vals@,
                x,
                y,
                x_open,
                y_open,
            ) > 1),
    {
        let (min_index, max_index) = run_within(x, y, x_open, y_open, possible_vals);
        if min_index >= max_index {
            return Err(SamplingError::EmptyRange);
        }
        match random_usize(min_index, max_index) {
            Ok(index) => {
                proof {
                    let base = choose|base: usize|
                        index == scaled(
                            base as int,
                            usize::MAX as int,
                            min_index as int,
                            max_index as int,
                        );
                    assert(picked(possible_vals@, x, y, x_open, y_open, base) == Some(
                        possible_vals@[index as int],
                    ));
                }
                Ok(possible_vals[index])
            },
            Err(_) => Err(SamplingError::Entropy),
        }
    }
}

/// A copy of a list of numbers.
fn copy_of(values: &Vec<Decimal>) -> (r: Vec<Decimal>)
    ensures
        r@ == values@,
{
    let mut r: Vec<Decimal> = Vec::new();
    let mut i: usize = 0;
    while i < values.len()
        invariant
            i <= values.len(),
            r@ == values@.take(i as int),
        decreases values.len() - i,
    {
        r.push(values[i]);
        assert(r@ =~= values@.take(i + 1));
        i += 1;
    }
    assert(r@ =~= values@);
    r
}

/// A copy of the kind of an expression and of all below it.
fn duplicate_kind(e: &Expression) -> (r: Expression)
    ensures
        r@ == e@,
    decreases e,
{
    match e {
        Expression::Number(n) => Expression::Number(*n),
        Expression::Range(x, y, x_open, y_open) => Expression::Range(
            Box::new(x.duplicate()),
            Box::new(y.duplicate()),
            *x_open,
            *y_open,
        ),
        Expression::Select(items) => {
            let mut copies: Vec<Gex> = Vec::new();
            let mut i: usize = 0;
            while i < items.len()
                invariant
                    i <= items.len(),
                    copies.len() == i,
                    *e == Expression::Select(*items),
                    forall|k: int| 0 <= k < i ==> (#[trigger] copies@[k])@ == items@[k]@,
                decreases items.len() - i,
            {
                assert(decreases_to!(e => e->Select_0@[i as int]));
                copies.push(items[i].duplicate());
                i += 1;
            }
            assert(kind_view(Expression::Select(copies))->Select_0 =~= kind_view(*e)->Select_0);
            Expression::Select(copies)
        },
        Expression::PrecalculatedRange(x, y, x_open, y_open, values) => {
            Expression::PrecalculatedRange(
                Box::new(x.duplicate()),
                Box::new(y.duplicate()),
                *x_open,
                *y_open,
                copy_of(values),
            )
        },
    }
}

impl Clone for Expression {
    fn clone(&self) -> (r: Self)
        ensures
            r@ == self@,
    {
        duplicate_kind(self)
    }
}

impl Clone for Gex {
    fn clone(&self) -> (r: Self)
        ensures
            r@ == self@,
    {
        self.duplicate()
    }
}

} // verus!
