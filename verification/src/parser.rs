//! From source text to an expression tree.
use crate::decimal::Decimal;
use constraints::{least_common_multiple, precalculate_constraint, PRECALC_MEMORY_BUDGET};
use gex::constraint::Constraint;
use gex::{tree_views, well_formed, Gex, GexView};
use grammar::{
    attached, clauses, closing, constraint_suffix, expression, expression_starts, is_range_kind,
    matching_close, number_at, number_list, program, range, selection, starts_term, term,
    unexpected, Clauses, Parsed,
};
use lexer::{lex, tokenize};
use parse_error::{CompilerError, CompilerErrorView};
use token::{token_views, Token};
use token_type::TokenType;
use vstd::prelude::*;

pub mod constraints;
pub mod gex;
pub mod grammar;
pub mod lexer;
pub mod parse_error;
pub mod token;
pub mod token_type;

verus! {

/// A result of the parser as contracts speak of it.
pub open spec fn result_view(r: Result<Gex, CompilerError>) -> Result<GexView, CompilerErrorView> {
    match r {
        Ok(g) => Ok(g@),
        Err(e) => Err(e@),
    }
}

/// A result of the parser with the index at which it stopped.
pub open spec fn parsed_view(r: (Result<Gex, CompilerError>, usize)) -> Parsed {
    Parsed { result: result_view(r.0), next: r.1 as int }
}

/// Compiles `source` into an expression: the tokens of the text, read as
/// one expression that takes them all.
pub fn parse(source: &str) -> (r: Result<Gex, CompilerError>)
    ensures
        result_view(r) == program(lex(source@), PRECALC_MEMORY_BUDGET),
        r matches Ok(g) ==> well_formed(g@),
{
    parse_with_budget(source, PRECALC_MEMORY_BUDGET)
}

/// Compiles `source` as `parse` does, with `budget` bytes for the values
/// that a range works out beforehand. A budget below zero keeps every
/// constraint for the time of evaluation.
pub fn parse_with_budget(source: &str, budget: i64) -> (r: Result<Gex, CompilerError>)
    ensures
        result_view(r) == program(lex(source@), budget),
        r matches Ok(g) ==> well_formed(g@),
{
    let tokens = tokenize(source);
    parse_tokens(&tokens, budget)
}

/// Reads `tokens` as one expression that takes them all.
pub fn parse_tokens(tokens: &Vec<Token>, budget: i64) -> (r: Result<Gex, CompilerError>)
    ensures
        result_view(r) == program(token_views(tokens@), budget),
        r matches Ok(g) ==> well_formed(g@),
{
    proof {
        lemma_token_views(tokens@);
    }
    let (res, index) = parse_expression(tokens, 0, tokens.len(), budget);
    match res {
        Err(e) => Err(e),
        Ok(gex) => {
            if index < tokens.len() {
                Err(unexpected_token(tokens, index, no_kind()))
            } else {
                Ok(gex)
            }
        },
    }
}

/// The error for the token at `index`, where one of `expected` should have
/// stood.
fn unexpected_token(tokens: &Vec<Token>, index: usize, expected: Vec<TokenType>) -> (r: CompilerError)
    ensures
        r@ == unexpected(token_views(tokens@), index as int, expected@),
{
    proof {
        lemma_token_views(tokens@);
    }
    if index < tokens.len() {
        CompilerError::UnexpectedToken(
            expected,
            tokens[index].token_type,
            tokens[index].line,
            tokens[index].column,
        )
    } else if tokens.len() > 0 {
        let last = &tokens[tokens.len() - 1];
        CompilerError::UnexpectedToken(expected, last.token_type, last.line, last.column)
    } else {
        CompilerError::NoExpressions
    }
}

/// The number that the token at `index` spells out.
fn parse_number(tokens: &Vec<Token>, index: usize) -> (r: Result<Decimal, CompilerError>)
    requires
        index < tokens.len(),
    ensures
        match number_at(token_views(tokens@), index as int) {
            Ok(n) => r == Ok::<Decimal, CompilerError>(n),
            Err(e) => r matches Err(err) && err@ == e,
        },
{
    proof {
        lemma_token_views(tokens@);
    }
    match Decimal::parse(tokens[index].content.as_str()) {
        Some(n) => Ok(n),
        None => Err(CompilerError::InvalidNumber(tokens[index].line, tokens[index].column)),
    }
}

/// Whether `kind` is one of the four range operators.
fn is_range(kind: TokenType) -> (r: bool)
    ensures
        r == is_range_kind(kind),
{
    kind == TokenType::RangeCC || kind == TokenType::RangeOO || kind == TokenType::RangeCO || kind
        == TokenType::RangeOC
}

/// Whether a term can start with a token of this kind.
fn is_term_start(kind: TokenType) -> (r: bool)
    ensures
        r == starts_term(kind),
{
    kind == TokenType::Number || kind == TokenType::LParen || kind == TokenType::LBrack
}

/// A list of one kind of token.
fn one_kind(a: TokenType) -> (r: Vec<TokenType>)
    ensures
        r@ == seq![a],
{
    let r = vec![a];
    assert(r@ =~= seq![a]);
    r
}

/// A list of two kinds of token.
fn two_kinds(a: TokenType, b: TokenType) -> (r: Vec<TokenType>)
    ensures
        r@ == seq![a, b],
{
    let r = vec![a, b];
    assert(r@ =~= seq![a, b]);
    r
}

/// No kind of token.
fn no_kind() -> (r: Vec<TokenType>)
    ensures
        r@ == Seq::<TokenType>::empty(),
{
    Vec::new()
}

/// The view of a list of tokens holds the view of each.
pub proof fn lemma_token_views(tokens: Seq<Token>)
    ensures
        token_views(tokens).len() == tokens.len(),
        forall|i: int| 0 <= i < tokens.len() ==> #[trigger] token_views(tokens)[i] == tokens[i]@,
{
}

/// The kinds of token with which an expression can start.
fn expression_start_kinds() -> (r: Vec<TokenType>)
    ensures
        r@ == expression_starts(),
{
    let r = vec![
        TokenType::Number,
        TokenType::RangeCC,
        TokenType::RangeCO,
        TokenType::RangeOC,
        TokenType::RangeOO,
        TokenType::LBrack,
        TokenType::LParen,
    ];
    assert(r@ =~= expression_starts());
    r
}

/// The expression that starts at `index` and ends before `end`.
fn parse_expression(tokens: &Vec<Token>, index: usize, end: usize, budget: i64) -> (r: (
    Result<Gex, CompilerError>,
    usize,
))
    requires
        index <= end <= tokens.len(),
    ensures
        parsed_view(r) == expression(token_views(tokens@), index as int, end as int, budget),
        r.0 is Ok ==> index < r.1 <= end,
        r.0 matches Ok(g) ==> well_formed(g@),
    decreases end - index, 3int,
{
    proof {
        lemma_token_views(tokens@);
    }
    if index >= end {
        return (Err(CompilerError::NoExpressions), index);
    }
    let kind = tokens[index].token_type;
    if is_range(kind) {
        let x = Gex::from_num(Decimal::from_i64(i64::MIN));
        parse_range(x, tokens, index, end, budget)
    } else if is_term_start(kind) {
        let (res, next) = parse_term(tokens, index, end, budget);
        match res {
            Err(e) => (Err(e), next),
            Ok(gex) => {
                if next < end && is_range(tokens[next].token_type) {
                    parse_range(gex, tokens, next, end, budget)
                } else {
                    (Ok(gex), next)
                }
            },
        }
    } else {
        (Err(unexpected_token(tokens, index, expression_start_kinds())), index)
    }
}

/// The term that starts at `index`: a number, a sub-expression in round
/// brackets or a selection in square ones.
fn parse_term(tokens: &Vec<Token>, index: usize, end: usize, budget: i64) -> (r: (
    Result<Gex, CompilerError>,
    usize,
))
    requires
        index < end <= tokens.len(),
    ensures
        parsed_view(r) == term(token_views(tokens@), index as int, end as int, budget),
        r.0 is Ok ==> index < r.1 <= end,
        r.0 matches Ok(g) ==> well_formed(g@),
    decreases end - index, 1int,
{
    proof {
        lemma_token_views(tokens@);
    }
    let kind = tokens[index].token_type;
    if kind == TokenType::Number {
        match parse_number(tokens, index) {
            Ok(x_num) => (Ok(Gex::from_num(x_num)), index + 1),
            Err(e) => (Err(e), index),
        }
    } else if kind == TokenType::LParen {
        let subex_end_index = find_subexpression_end(tokens, index, end);
        if subex_end_index >= end || subex_end_index <= index {
            return (
                Err(
                    CompilerError::UnexpectedToken(
                        one_kind(TokenType::RParen),
                        kind,
                        tokens[index].line,
                        tokens[index].column,
                    ),
                ),
                index,
            );
        }
        let (res, next) = parse_expression(tokens, index + 1, subex_end_index, budget);
        match res {
            Err(e) => (Err(e), next),
            Ok(gex) => {
                if next < subex_end_index {
                    (Err(unexpected_token(tokens, next, one_kind(TokenType::RParen))), next)
                } else {
                    (Ok(gex), subex_end_index + 1)
                }
            },
        }
    } else if kind == TokenType::LBrack {
        let subex_end_index = find_selection_end(tokens, index, end);
        if subex_end_index >= end || subex_end_index <= index {
            return (
                Err(
                    CompilerError::UnexpectedToken(
                        one_kind(TokenType::RBrack),
                        kind,
                        tokens[index].line,
                        tokens[index].column,
                    ),
                ),
                index,
            );
        }
        let (res, next) = parse_selection(tokens, index + 1, subex_end_index, budget);
        match res {
            Err(e) => (Err(e), next),
            Ok(gex) => (Ok(gex), subex_end_index + 1),
        }
    } else {
        (Err(unexpected_token(tokens, index, expression_start_kinds())), index)
    }
}

/// The selection whose entries stand from `index` up to `end`.
fn parse_selection(tokens: &Vec<Token>, index: usize, end: usize, budget: i64) -> (r: (
    Result<Gex, CompilerError>,
    usize,
))
    requires
        index <= end <= tokens.len(),
    ensures
        parsed_view(r) == selection(
            token_views(tokens@),
            index as int,
            end as int,
            Seq::empty(),
            budget,
        ),
        r.0 is Ok ==> r.1 == end,
        r.0 matches Ok(g) ==> well_formed(g@),
    decreases end - index, 4int,
{
    let ghost t = token_views(tokens@);
    proof {
        lemma_token_views(tokens@);
    }
    let mut entries: Vec<Gex> = Vec::new();
    let mut i = index;
    assert(tree_views(entries@) =~= Seq::empty());
    loop
        invariant
            index <= i <= end <= tokens.len(),
            t == token_views(tokens@),
            t.len() == tokens@.len(),
            forall|k: int| 0 <= k < tokens@.len() ==> #[trigger] t[k] == tokens@[k]@,
            selection(t, index as int, end as int, Seq::empty(), budget) == selection(
                t,
                i as int,
                end as int,
                tree_views(entries@),
                budget,
            ),
            forall|k: int| 0 <= k < entries@.len() ==> well_formed(#[trigger] entries@[k]@),
        decreases end - i,
    {
        let (res, next) = parse_expression(tokens, i, end, budget);
        match res {
            Err(e) => {
                return (Err(e), next);
            },
            Ok(gex) => {
                let ghost before = tree_views(entries@);
                let ghost entry = gex@;
                entries.push(gex);
                assert(tree_views(entries@) =~= before.push(entry));
                if next >= end {
                    return (Ok(Gex::from_select(entries)), end);
                }
                if tokens[next].token_type == TokenType::Comma {
                    i = next + 1;
                } else {
                    return (Err(unexpected_token(tokens, next, one_kind(TokenType::Comma))), next);
                }
            },
        }
    }
}

/// The range whose operator stands at `index` and whose lower end is `x`.
fn parse_range(x: Gex, tokens: &Vec<Token>, index: usize, end: usize, budget: i64) -> (r: (
    Result<Gex, CompilerError>,
    usize,
))
    requires
        index < end <= tokens.len(),
        is_range_kind(tokens@[index as int].token_type),
        well_formed(x@),
    ensures
        parsed_view(r) == range(x@, token_views(tokens@), index as int, end as int, budget),
        r.0 is Ok ==> index < r.1 <= end,
        r.0 matches Ok(g) ==> well_formed(g@),
    decreases end - index, 2int,
{
    proof {
        lemma_token_views(tokens@);
    }
    let kind = tokens[index].token_type;
    let x_open = kind == TokenType::RangeOO || kind == TokenType::RangeOC;
    let y_open = kind == TokenType::RangeOO || kind == TokenType::RangeCO;
    let after = index + 1;
    let (res, next) = if after < end && is_term_start(tokens[after].token_type) {
        parse_term(tokens, after, end, budget)
    } else {
        (Ok(Gex::from_num(Decimal::from_i64(i64::MAX))), after)
    };
    match res {
        Err(e) => (Err(e), next),
        Ok(y) => {
            let base = Gex::from_range(x, y, x_open, y_open);
            if next < end && tokens[next].token_type == TokenType::Constraint {
                parse_constraints(base, tokens, next, end, budget)
            } else {
                (Ok(base), next)
            }
        },
    }
}

/// The numbers of a list that starts at `index`.
fn read_numbers(tokens: &Vec<Token>, index: usize, end: usize) -> (r: (
    Result<Vec<Decimal>, CompilerError>,
    usize,
))
    requires
        index <= end <= tokens.len(),
    ensures
        r.1 == number_list(token_views(tokens@), index as int, end as int, Seq::empty()).next,
        match number_list(token_views(tokens@), index as int, end as int, Seq::empty()).result {
            Ok(entries) => r.0 matches Ok(numbers) && numbers@ == entries,
            Err(e) => r.0 matches Err(err) && err@ == e,
        },
        r.0 is Ok ==> index < r.1 <= end,
{
    let ghost t = token_views(tokens@);
    proof {
        lemma_token_views(tokens@);
    }
    let mut entries: Vec<Decimal> = Vec::new();
    let mut i = index;
    loop
        invariant
            index <= i <= end <= tokens.len(),
            t == token_views(tokens@),
            t.len() == tokens@.len(),
            forall|k: int| 0 <= k < tokens@.len() ==> #[trigger] t[k] == tokens@[k]@,
            number_list(t, index as int, end as int, Seq::empty()) == number_list(
                t,
                i as int,
                end as int,
                entries@,
            ),
        decreases end - i,
    {
        if i >= end || tokens[i].token_type != TokenType::Number {
            return (Err(unexpected_token(tokens, i, one_kind(TokenType::Number))), i);
        }
        match parse_number(tokens, i) {
            Err(e) => {
                return (Err(e), i);
            },
            Ok(number) => {
                entries.push(number);
            },
        }
        let after = i + 1;
        if after >= end {
            return (Ok(entries), after);
        }
        let kind = tokens[after].token_type;
        if kind == TokenType::Comma {
            i = after + 1;
        } else if kind == TokenType::Constraint {
            return (Ok(entries), after);
        } else {
            return (
                Err(
                    unexpected_token(
                        tokens,
                        after,
                        two_kinds(TokenType::Comma, TokenType::Constraint),
                    ),
                ),
                after,
            );
        }
    }
}

/// The entries of a `!*` clause as contracts speak of them.
pub open spec fn entries_view(entries: Option<Vec<Decimal>>) -> Option<Seq<Decimal>> {
    match entries {
        Some(v) => Some(v@),
        None => None,
    }
}

/// The range `gex` with the constraints that start at the `|` at `index`.
/// Where there are both a `*` and a `!*` clause and both ends of the range
/// are numbers, the values are worked out beforehand if they fit the budget.
fn parse_constraints(gex: Gex, tokens: &Vec<Token>, index: usize, end: usize, budget: i64) -> (r: (
    Result<Gex, CompilerError>,
    usize,
))
    requires
        index < end <= tokens.len(),
        well_formed(gex@),
    ensures
        parsed_view(r) == constraint_suffix(
            gex@,
            token_views(tokens@),
            index as int,
            end as int,
            budget,
        ),
        r.0 is Ok ==> index < r.1 <= end,
        r.0 matches Ok(g) ==> well_formed(g@),
{
    let ghost t = token_views(tokens@);
    proof {
        lemma_token_views(tokens@);
    }
    let ghost start = Clauses { multiple_of: None, not_multiple_of: None };
    let mut c_mult_of: Option<Decimal> = None;
    let mut c_not_mult_of: Option<Vec<Decimal>> = None;
    let mut i = index;
    while i < end
        invariant
            index <= i <= end <= tokens.len(),
            start == (Clauses { multiple_of: None, not_multiple_of: None }),
            t == token_views(tokens@),
            t.len() == tokens@.len(),
            forall|k: int| 0 <= k < tokens@.len() ==> #[trigger] t[k] == tokens@[k]@,
            clauses(t, index as int, end as int, start) == clauses(
                t,
                i as int,
                end as int,
                Clauses { multiple_of: c_mult_of, not_multiple_of: entries_view(c_not_mult_of) },
            ),
        decreases end - i,
    {
        let negated = i + 1 < end && tokens[i + 1].token_type == TokenType::Not;
        let marker = if negated {
            i + 2
        } else {
            i + 1
        };
        if !(marker < end && tokens[marker].token_type == TokenType::CMultOf) {
            let expected = if negated {
                one_kind(TokenType::CMultOf)
            } else {
                two_kinds(TokenType::Not, TokenType::CMultOf)
            };
            return (Err(unexpected_token(tokens, marker, expected)), marker);
        }
        let (res, next) = read_numbers(tokens, marker + 1, end);
        match res {
            Err(e) => {
                return (Err(e), next);
            },
            Ok(entries) => {
                if negated {
                    c_not_mult_of = Some(entries);
                } else {
                    match least_common_multiple(entries.as_slice()) {
                        None => {
                            return (Err(CompilerError::UnsatisfiableConstraint), next);
                        },
                        Some(lcm) => {
                            c_mult_of = Some(lcm);
                        },
                    }
                }
            },
        }
        i = next;
    }
    (attach_constraints(gex, c_mult_of, c_not_mult_of, budget), i)
}

/// The range `gex` with the divisors attached.
fn attach_constraints(
    gex: Gex,
    c_mult_of: Option<Decimal>,
    c_not_mult_of: Option<Vec<Decimal>>,
    budget: i64,
) -> (r: Result<Gex, CompilerError>)
    requires
        well_formed(gex@),
    ensures
        result_view(r) == attached(
            gex@,
            Clauses { multiple_of: c_mult_of, not_multiple_of: entries_view(c_not_mult_of) },
            budget,
        ),
        r matches Ok(g) ==> well_formed(g@),
{
    let mut gex = gex;
    match (c_mult_of, c_not_mult_of) {
        (Some(mult_of), Some(not_mult_of)) => {
            match precalculate_constraint(gex, mult_of, &not_mult_of, budget) {
                Err(e) => Err(e),
                Ok(Ok(done)) => Ok(done),
                Ok(Err(same)) => {
                    let mut same = same;
                    same.add_constraint(Constraint::MultipleOf(mult_of));
                    same.add_constraint(Constraint::NotMultipleOf(not_mult_of));
                    Ok(same)
                },
            }
        },
        (Some(mult_of), None) => {
            gex.add_constraint(Constraint::MultipleOf(mult_of));
            Ok(gex)
        },
        (None, Some(not_mult_of)) => {
            gex.add_constraint(Constraint::NotMultipleOf(not_mult_of));
            Ok(gex)
        },
        (None, None) => Ok(gex),
    }
}

/// The index of the closing token that matches the opening one at `index`,
/// counting nested pairs; `index` where no opening token stands there,
/// `end` where the pair never closes.
fn find_close(tokens: &Vec<Token>, index: usize, end: usize, open: TokenType, close: TokenType) -> (r:
    usize)
    requires
        index < end <= tokens.len(),
        open != close,
    ensures
        r == closing(token_views(tokens@), index as int, end as int, open, close),
        index <= r <= end,
        tokens@[index as int].token_type == open ==> index < r,
{
    proof {
        lemma_token_views(tokens@);
    }
    if tokens[index].token_type != open {
        return index;
    }
    let ghost t = token_views(tokens@);
    let mut counter: usize = 1;
    let mut i = index + 1;
    while i < end
        invariant
            index < i <= end <= tokens.len(),
            1 <= counter <= i - index,
            t[index as int].kind == open,
            t == token_views(tokens@),
            t.len() == tokens@.len(),
            forall|k: int| 0 <= k < tokens@.len() ==> #[trigger] t[k] == tokens@[k]@,
            matching_close(t, index + 1, end as int, 1, open, close) == matching_close(
                t,
                i as int,
                end as int,
                counter as int,
                open,
                close,
            ),
        decreases end - i,
    {
        let kind = tokens[i].token_type;
        if kind == close {
            if counter == 1 {
                return i;
            }
            counter -= 1;
        } else if kind == open {
            counter += 1;
        }
        i += 1;
    }
    end
}

/// Where the round bracket that opens at `index` closes.
pub fn find_subexpression_end(tokens: &Vec<Token>, index: usize, end: usize) -> (r: usize)
    requires
        index < end <= tokens.len(),
    ensures
        r == closing(
            token_views(tokens@),
            index as int,
            end as int,
            TokenType::LParen,
            TokenType::RParen,
        ),
        index <= r <= end,
{
    find_close(tokens, index, end, TokenType::LParen, TokenType::RParen)
}

/// Where the square bracket that opens at `index` closes.
pub fn find_selection_end(tokens: &Vec<Token>, index: usize, end: usize) -> (r: usize)
    requires
        index < end <= tokens.len(),
    ensures
        r == closing(
            token_views(tokens@),
            index as int,
            end as int,
            TokenType::LBrack,
            TokenType::RBrack,
        ),
        index <= r <= end,
{
    find_close(tokens, index, end, TokenType::LBrack, TokenType::RBrack)
}

} // verus!
