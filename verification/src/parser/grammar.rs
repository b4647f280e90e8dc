//! The grammar, as functions from tokens to what they mean.
//!
//! ```text
//! expression        := term (range-op term? constraint-suffix?)?
//!                    | range-op term? constraint-suffix?
//! term              := number | '(' expression ')' | '[' selection-list ']'
//! selection-list    := expression (',' expression)*
//! constraint-suffix := ('|' constraint-clause)+
//! constraint-clause := '!'? '*' number (',' number)*
//! ```
//!
//! A range without a lower end starts at the smallest 64-bit integer, one
//! without an upper end stops at the largest.
use super::constraints::{lcm_of, precalculated};
use super::gex::constraint::ConstraintView;
use super::gex::{number_view, range_view, select_view, with_constraint, GexView};
use super::parse_error::CompilerErrorView;
use super::token::TokenView;
use super::token_type::TokenType;
use crate::decimal::{decimal_from_text, Decimal};
use vstd::prelude::*;

verus! {

/// What parsing from some index on came to: the expression or the error,
/// and the index of the first token that was not taken (or, on an error,
/// of the token at fault).
pub struct Parsed {
    pub result: Result<GexView, CompilerErrorView>,
    pub next: int,
}

/// The divisors gathered from a constraint suffix: the least common
/// multiple of the last `*` clause and the entries of the last `!*` clause.
pub struct Clauses {
    pub multiple_of: Option<Decimal>,
    pub not_multiple_of: Option<Seq<Decimal>>,
}

/// What reading a list of numbers came to.
pub struct NumberList {
    pub result: Result<Seq<Decimal>, CompilerErrorView>,
    pub next: int,
}

/// What reading a constraint suffix came to.
pub struct ParsedClauses {
    pub result: Result<Clauses, CompilerErrorView>,
    pub next: int,
}

/// Whether `kind` is one of the four range operators.
pub open spec fn is_range_kind(kind: TokenType) -> bool {
    kind == TokenType::RangeCC || kind == TokenType::RangeOO || kind == TokenType::RangeCO || kind
        == TokenType::RangeOC
}

/// Whether the range operator `kind` leaves the lower end out.
pub open spec fn opens_lower(kind: TokenType) -> bool {
    kind == TokenType::RangeOO || kind == TokenType::RangeOC
}

/// Whether the range operator `kind` leaves the upper end out.
pub open spec fn opens_upper(kind: TokenType) -> bool {
    kind == TokenType::RangeOO || kind == TokenType::RangeCO
}

/// Whether a term can start with a token of this kind.
pub open spec fn starts_term(kind: TokenType) -> bool {
    kind == TokenType::Number || kind == TokenType::LParen || kind == TokenType::LBrack
}

/// The kinds of token with which an expression can start.
pub open spec fn expression_starts() -> Seq<TokenType> {
    seq![
        TokenType::Number,
        TokenType::RangeCC,
        TokenType::RangeCO,
        TokenType::RangeOC,
        TokenType::RangeOO,
        TokenType::LBrack,
        TokenType::LParen,
    ]
}

/// The lower end of a range that names none.
pub open spec fn default_lower() -> Decimal {
    Decimal::of(i64::MIN as int, 0)
}

/// The upper end of a range that names none.
pub open spec fn default_upper() -> Decimal {
    Decimal::of(i64::MAX as int, 0)
}

/// The error for the token at `index`, where one of `expected` should have
/// stood. Past the end of the tokens the last token is named.
pub open spec fn unexpected(t: Seq<TokenView>, index: int, expected: Seq<TokenType>) -> CompilerErrorView {
    if 0 <= index < t.len() {
        CompilerErrorView::UnexpectedToken(expected, t[index].kind, t[index].line, t[index].column)
    } else if t.len() > 0 {
        CompilerErrorView::UnexpectedToken(
            expected,
            t.last().kind,
            t.last().line,
            t.last().column,
        )
    } else {
        CompilerErrorView::NoExpressions
    }
}

/// The index, from `i` on and before `end`, of the closing token that
/// brings the count of open brackets from `depth` down to zero; `end` where
/// there is none.
pub open spec fn matching_close(
    t: Seq<TokenView>,
    i: int,
    end: int,
    depth: int,
    open: TokenType,
    close: TokenType,
) -> int
    decreases end - i,
{
    if i < 0 || i >= end || i >= t.len() || depth <= 0 {
        end
    } else if t[i].kind == close {
        if depth == 1 {
            i
        } else {
            matching_close(t, i + 1, end, depth - 1, open, close)
        }
    } else if t[i].kind == open {
        matching_close(t, i + 1, end, depth + 1, open, close)
    } else {
        matching_close(t, i + 1, end, depth, open, close)
    }
}

/// Where the bracket that opens at `index` closes; `index` itself where no
/// bracket of the kind `open` stands there, `end` where it never closes.
pub open spec fn closing(
    t: Seq<TokenView>,
    index: int,
    end: int,
    open: TokenType,
    close: TokenType,
) -> int {
    if 0 <= index < t.len() && t[index].kind == open {
        matching_close(t, index + 1, end, 1, open, close)
    } else {
        index
    }
}

/// The number that the token at `index` spells out.
pub open spec fn number_at(t: Seq<TokenView>, index: int) -> Result<Decimal, CompilerErrorView> {
    match decimal_from_text(t[index].text) {
        Some(n) => Ok(n),
        None => Err(CompilerErrorView::InvalidNumber(t[index].line, t[index].column)),
    }
}

/// The numbers of a list that starts at `index`, behind `found`. The list
/// ends at `end` or before a `|`.
pub open spec fn number_list(t: Seq<TokenView>, index: int, end: int, found: Seq<Decimal>) -> NumberList
    decreases end - index,
{
    if index < 0 || index >= end || index >= t.len() || t[index].kind != TokenType::Number {
        NumberList { result: Err(unexpected(t, index, seq![TokenType::Number])), next: index }
    } else {
        match number_at(t, index) {
            Err(e) => NumberList { result: Err(e), next: index },
            Ok(n) => {
                let after = index + 1;
                if after >= end || after >= t.len() {
                    NumberList { result: Ok(found.push(n)), next: after }
                } else if t[after].kind == TokenType::Comma {
                    number_list(t, after + 1, end, found.push(n))
                } else if t[after].kind == TokenType::Constraint {
                    NumberList { result: Ok(found.push(n)), next: after }
                } else {
                    NumberList {
                        result: Err(
                            unexpected(t, after, seq![TokenType::Comma, TokenType::Constraint]),
                        ),
                        next: after,
                    }
                }
            },
        }
    }
}

/// The clauses from the `|` at `index` on, up to `end`, on top of what was
/// `got` before. A later clause of a kind replaces an earlier one.
pub open spec fn clauses(t: Seq<TokenView>, index: int, end: int, got: Clauses) -> ParsedClauses
    decreases end - index,
{
    if index < 0 || index >= end || index >= t.len() {
        ParsedClauses { result: Ok(got), next: index }
    } else {
        let negated = index + 1 < end && index + 1 < t.len() && t[index + 1].kind == TokenType::Not;
        let marker = if negated {
            index + 2
        } else {
            index + 1
        };
        if !(marker < end && marker < t.len() && t[marker].kind == TokenType::CMultOf) {
            ParsedClauses {
                result: Err(
                    unexpected(
                        t,
                        marker,
                        if negated {
                            seq![TokenType::CMultOf]
                        } else {
                            seq![TokenType::Not, TokenType::CMultOf]
                        },
                    ),
                ),
                next: marker,
            }
        } else {
            let list = number_list(t, marker + 1, end, Seq::empty());
            match list.result {
                Err(e) => ParsedClauses { result: Err(e), next: list.next },
                Ok(entries) => if list.next <= index || list.next > end {
                    ParsedClauses { result: Ok(got), next: list.next }
                } else if negated {
                    clauses(t, list.next, end, Clauses { not_multiple_of: Some(entries), ..got })
                } else {
                    match lcm_of(entries) {
                        None => ParsedClauses {
                            result: Err(CompilerErrorView::UnsatisfiableConstraint),
                            next: list.next,
                        },
                        Some(lcm) => clauses(
                            t,
                            list.next,
                            end,
                            Clauses { multiple_of: Some(lcm), ..got },
                        ),
                    }
                },
            }
        }
    }
}

/// The range `base` with the divisors `got` attached: worked out beforehand
/// where both kinds are there and that can be done, as constraints else.
pub open spec fn attached(base: GexView, got: Clauses, budget: i64) -> Result<
    GexView,
    CompilerErrorView,
> {
    match (got.multiple_of, got.not_multiple_of) {
        (Some(d), Some(banned)) => match precalculated(base, d, banned, budget) {
            Err(e) => Err(e),
            Ok(Some(g)) => Ok(g),
            Ok(None) => Ok(
                with_constraint(
                    with_constraint(base, ConstraintView::MultipleOf(d)),
                    ConstraintView::NotMultipleOf(banned),
                ),
            ),
        },
        (Some(d), None) => Ok(with_constraint(base, ConstraintView::MultipleOf(d))),
        (None, Some(banned)) => Ok(with_constraint(base, ConstraintView::NotMultipleOf(banned))),
        (None, None) => Ok(base),
    }
}

/// The range `base` with the constraint suffix that starts at `index`.
pub open spec fn constraint_suffix(
    base: GexView,
    t: Seq<TokenView>,
    index: int,
    end: int,
    budget: i64,
) -> Parsed {
    let read = clauses(t, index, end, Clauses { multiple_of: None, not_multiple_of: None });
    match read.result {
        Err(e) => Parsed { result: Err(e), next: read.next },
        Ok(got) => Parsed { result: attached(base, got, budget), next: read.next },
    }
}

/// The term that starts at `index`: a number, or what stands between a pair
/// of brackets.
pub open spec fn term(t: Seq<TokenView>, index: int, end: int, budget: i64) -> Parsed
    decreases end - index, 1int,
{
    if index < 0 || index >= end || end > t.len() {
        Parsed { result: Err(CompilerErrorView::NoExpressions), next: index }
    } else if t[index].kind == TokenType::Number {
        match number_at(t, index) {
            Ok(n) => Parsed { result: Ok(number_view(n)), next: index + 1 },
            Err(e) => Parsed { result: Err(e), next: index },
        }
    } else if t[index].kind == TokenType::LParen {
        let close = closing(t, index, end, TokenType::LParen, TokenType::RParen);
        if close >= end || close <= index {
            Parsed {
                result: Err(
                    CompilerErrorView::UnexpectedToken(
                        seq![TokenType::RParen],
                        t[index].kind,
                        t[index].line,
                        t[index].column,
                    ),
                ),
                next: index,
            }
        } else {
            let inner = expression(t, index + 1, close, budget);
            match inner.result {
                Err(e) => inner,
                Ok(g) => if inner.next < close {
                    Parsed {
                        result: Err(unexpected(t, inner.next, seq![TokenType::RParen])),
                        next: inner.next,
                    }
                } else {
                    Parsed { result: Ok(g), next: close + 1 }
                },
            }
        }
    } else if t[index].kind == TokenType::LBrack {
        let close = closing(t, index, end, TokenType::LBrack, TokenType::RBrack);
        if close >= end || close <= index {
            Parsed {
                result: Err(
                    CompilerErrorView::UnexpectedToken(
                        seq![TokenType::RBrack],
                        t[index].kind,
                        t[index].line,
                        t[index].column,
                    ),
                ),
                next: index,
            }
        } else {
            let inner = selection(t, index + 1, close, Seq::empty(), budget);
            match inner.result {
                Err(e) => inner,
                Ok(g) => Parsed { result: Ok(g), next: close + 1 },
            }
        }
    } else {
        Parsed { result: Err(unexpected(t, index, expression_starts())), next: index }
    }
}

/// The range whose operator stands at `index` and whose lower end is `x`.
pub open spec fn range(x: GexView, t: Seq<TokenView>, index: int, end: int, budget: i64) -> Parsed
    decreases end - index, 2int,
{
    if index < 0 || index >= end || end > t.len() {
        Parsed { result: Err(CompilerErrorView::NoExpressions), next: index }
    } else {
        let x_open = opens_lower(t[index].kind);
        let y_open = opens_upper(t[index].kind);
        let after = index + 1;
        let upper = if after < end && starts_term(t[after].kind) {
            term(t, after, end, budget)
        } else {
            Parsed { result: Ok(number_view(default_upper())), next: after }
        };
        match upper.result {
            Err(e) => upper,
            Ok(y) => {
                let base = range_view(x, y, x_open, y_open);
                if 0 <= upper.next < end && t[upper.next].kind == TokenType::Constraint {
                    constraint_suffix(base, t, upper.next, end, budget)
                } else {
                    Parsed { result: Ok(base), next: upper.next }
                }
            },
        }
    }
}

/// The expression that starts at `index`: a term, or a range from a term or
/// from the default lower end.
pub open spec fn expression(t: Seq<TokenView>, index: int, end: int, budget: i64) -> Parsed
    decreases end - index, 3int,
{
    if index < 0 || index >= end || end > t.len() {
        Parsed { result: Err(CompilerErrorView::NoExpressions), next: index }
    } else if is_range_kind(t[index].kind) {
        range(number_view(default_lower()), t, index, end, budget)
    } else if starts_term(t[index].kind) {
        let first = term(t, index, end, budget);
        match first.result {
            Err(e) => first,
            Ok(g) => if index <= first.next < end && is_range_kind(t[first.next].kind) {
                range(g, t, first.next, end, budget)
            } else {
                first
            },
        }
    } else {
        Parsed { result: Err(unexpected(t, index, expression_starts())), next: index }
    }
}

/// The selection whose entries start at `index`, behind those `found`
/// already. Entries are parted by commas.
pub open spec fn selection(
    t: Seq<TokenView>,
    index: int,
    end: int,
    found: Seq<GexView>,
    budget: i64,
) -> Parsed
    decreases end - index, 4int,
{
    let entry = expression(t, index, end, budget);
    match entry.result {
        Err(e) => entry,
        Ok(g) => if entry.next >= end || entry.next < index {
            Parsed { result: Ok(select_view(found.push(g))), next: end }
        } else if t[entry.next].kind == TokenType::Comma {
            selection(t, entry.next + 1, end, found.push(g), budget)
        } else {
            Parsed {
                result: Err(unexpected(t, entry.next, seq![TokenType::Comma])),
                next: entry.next,
            }
        },
    }
}

/// What the tokens `t` mean as a program: one expression that takes them
/// all. Values worked out beforehand may take `budget` bytes for each range.
pub open spec fn program(t: Seq<TokenView>, budget: i64) -> Result<GexView, CompilerErrorView> {
    let whole = expression(t, 0, t.len() as int, budget);
    match whole.result {
        Err(e) => Err(e),
        Ok(g) => if whole.next < t.len() {
            Err(unexpected(t, whole.next, Seq::empty()))
        } else {
            Ok(g)
        },
    }
}

/// Without tokens there is no program.
pub proof fn lemma_empty_program(budget: i64)
    ensures
        program(Seq::empty(), budget) == Err::<GexView, CompilerErrorView>(
            CompilerErrorView::NoExpressions,
        ),
{
}

/// Tokens left over behind a complete expression are refused: the first of
/// them is reported as unexpected, with nothing expected in its place.
pub proof fn lemma_leftover_is_refused(t: Seq<TokenView>, budget: i64)
    requires
        expression(t, 0, t.len() as int, budget).result is Ok,
        0 <= expression(t, 0, t.len() as int, budget).next < t.len(),
    ensures
        program(t, budget) == Err::<GexView, CompilerErrorView>(
            CompilerErrorView::UnexpectedToken(
                Seq::empty(),
                t[expression(t, 0, t.len() as int, budget).next].kind,
                t[expression(t, 0, t.len() as int, budget).next].line,
                t[expression(t, 0, t.len() as int, budget).next].column,
            ),
        ),
{
}

/// An expression that is read takes at least one token and stops within
/// its bounds.
pub proof fn lemma_expression_advances(t: Seq<TokenView>, index: int, end: int, budget: i64)
    requires
        0 <= index <= end <= t.len(),
        expression(t, index, end, budget).result is Ok,
    ensures
        index < expression(t, index, end, budget).next <= end,
    decreases end - index, 3int,
{
    if is_range_kind(t[index].kind) {
        lemma_range_advances(number_view(default_lower()), t, index, end, budget);
    } else {
        lemma_term_advances(t, index, end, budget);
        let first = term(t, index, end, budget);
        if index <= first.next < end && is_range_kind(t[first.next].kind) {
            lemma_range_advances(first.result->Ok_0, t, first.next, end, budget);
        }
    }
}

/// A term that is read takes at least one token and stops within its
/// bounds.
pub proof fn lemma_term_advances(t: Seq<TokenView>, index: int, end: int, budget: i64)
    requires
        0 <= index < end <= t.len(),
        term(t, index, end, budget).result is Ok,
    ensures
        index < term(t, index, end, budget).next <= end,
    decreases end - index, 1int,
{
}

/// A range that is read takes at least its operator and stops within its
/// bounds.
pub proof fn lemma_range_advances(x: GexView, t: Seq<TokenView>, index: int, end: int, budget: i64)
    requires
        0 <= index < end <= t.len(),
        range(x, t, index, end, budget).result is Ok,
    ensures
        index < range(x, t, index, end, budget).next <= end,
    decreases end - index, 2int,
{
    let after = index + 1;
    let upper = if after < end && starts_term(t[after].kind) {
        term(t, after, end, budget)
    } else {
        Parsed { result: Ok(number_view(default_upper())), next: after }
    };
    if after < end && starts_term(t[after].kind) {
        lemma_term_advances(t, after, end, budget);
    }
    if 0 <= upper.next < end && t[upper.next].kind == TokenType::Constraint {
        lemma_clauses_advance(
            t,
            upper.next,
            end,
            Clauses { multiple_of: None, not_multiple_of: None },
        );
    }
}

/// Clauses that are read stop within their bounds, and behind the `|` that
/// they start at.
pub proof fn lemma_clauses_advance(t: Seq<TokenView>, index: int, end: int, got: Clauses)
    requires
        0 <= index < end <= t.len(),
        clauses(t, index, end, got).result is Ok,
    ensures
        index < clauses(t, index, end, got).next <= end,
    decreases end - index,
{
    let negated = index + 1 < end && index + 1 < t.len() && t[index + 1].kind == TokenType::Not;
    let marker = if negated {
        index + 2
    } else {
        index + 1
    };
    lemma_number_list_advances(t, marker + 1, end, Seq::empty());
    let list = number_list(t, marker + 1, end, Seq::empty());
    let entries = list.result->Ok_0;
    if list.next < end {
        if negated {
            lemma_clauses_advance(
                t,
                list.next,
                end,
                Clauses { not_multiple_of: Some(entries), ..got },
            );
        } else {
            lemma_clauses_advance(
                t,
                list.next,
                end,
                Clauses { multiple_of: Some(lcm_of(entries)->Some_0), ..got },
            );
        }
    }
}

/// A list of numbers that is read takes at least one token and stops
/// within its bounds, at its end or at a `|`.
pub proof fn lemma_number_list_advances(t: Seq<TokenView>, index: int, end: int, found: Seq<Decimal>)
    requires
        0 <= index <= end <= t.len(),
        number_list(t, index, end, found).result is Ok,
    ensures
        index < number_list(t, index, end, found).next <= end,
        number_list(t, index, end, found).next < end ==> t[number_list(
            t,
            index,
            end,
            found,
        ).next].kind == TokenType::Constraint,
    decreases end - index,
{
    let n = number_at(t, index)->Ok_0;
    let after = index + 1;
    if after < end && t[after].kind == TokenType::Comma {
        lemma_number_list_advances(t, after + 1, end, found.push(n));
    }
}

} // verus!
