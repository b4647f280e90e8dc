use grand::decimal::Decimal;
use grand::parser::constraints::{
    calc_max_constraint_size, greatest_common_denominator, least_common_multiple,
    precalculate_values,
};
use grand::parser::gex::constraint::Constraint;
use grand::parser::gex::expression::Expression;
use grand::parser::lexer::tokenize;
use grand::parser::token_type::TokenType;
use grand::parser::constraints::PRECALC_MEMORY_BUDGET;
use grand::parser::{
    find_selection_end, find_subexpression_end, parse, parse_tokens, parse_with_budget,
};
use grand::{compile_raw, compile_raw_with_budget, CompilerError, Gex};

fn whole(n: i64) -> Decimal {
    Decimal::from_i64(n)
}

fn dec(text: &str) -> Decimal {
    Decimal::parse(text).unwrap()
}

fn number_of(gex: &Gex) -> Decimal {
    match gex.expression() {
        Expression::Number(n) => *n,
        other => panic!("not a number: {:?}", other),
    }
}

#[test]
fn a_closed_range() {
    let gex = parse("0..10").unwrap();
    match gex.expression() {
        Expression::Range(x, y, x_open, y_open) => {
            assert_eq!(number_of(x), whole(0));
            assert_eq!(number_of(y), whole(10));
            assert!(!*x_open);
            assert!(!*y_open);
        }
        other => panic!("not a range: {:?}", other),
    }
    assert!(gex.constraints().is_empty());
    assert_eq!(gex.min_number(), whole(0));
    assert_eq!(gex.max_number(), whole(10));
    assert!(gex.float_mode());
}

#[test]
fn an_open_range() {
    let gex = parse("0,,10").unwrap();
    match gex.expression() {
        Expression::Range(x, y, x_open, y_open) => {
            assert_eq!(number_of(x), whole(0));
            assert_eq!(number_of(y), whole(10));
            assert!(*x_open);
            assert!(*y_open);
        }
        other => panic!("not a range: {:?}", other),
    }
}

#[test]
fn half_open_ranges() {
    match parse("-10,.10").unwrap().expression() {
        Expression::Range(x, y, x_open, y_open) => {
            assert_eq!(number_of(x), whole(-10));
            assert_eq!(number_of(y), whole(10));
            assert!(*x_open);
            assert!(!*y_open);
        }
        other => panic!("not a range: {:?}", other),
    }
    match parse("1.,2").unwrap().expression() {
        Expression::Range(_, _, x_open, y_open) => {
            assert!(!*x_open);
            assert!(*y_open);
        }
        other => panic!("not a range: {:?}", other),
    }
}

#[test]
fn a_range_with_a_multiple_of_constraint() {
    let gex = parse("0..100|*2").unwrap();
    assert!(matches!(gex.expression(), Expression::Range(_, _, false, false)));
    assert_eq!(gex.constraints().len(), 1);
    match &gex.constraints()[0] {
        Constraint::MultipleOf(d) => assert_eq!(*d, whole(2)),
        other => panic!("not a multiple-of: {:?}", other),
    }
    assert!(!gex.float_mode());
}

#[test]
fn a_range_with_a_not_multiple_of_constraint() {
    let gex = parse("0..100|!*2,3,5").unwrap();
    assert!(matches!(gex.expression(), Expression::Range(_, _, false, false)));
    assert_eq!(gex.constraints().len(), 1);
    match &gex.constraints()[0] {
        Constraint::NotMultipleOf(items) => assert_eq!(*items, vec![whole(2), whole(3), whole(5)]),
        other => panic!("not a not-multiple-of: {:?}", other),
    }
    assert!(gex.float_mode());
}

#[test]
fn several_divisors_become_their_least_common_multiple() {
    let gex = parse("0..100|*2,3,5").unwrap();
    match &gex.constraints()[0] {
        Constraint::MultipleOf(d) => assert_eq!(*d, whole(30)),
        other => panic!("not a multiple-of: {:?}", other),
    }
}

#[test]
fn a_fractional_divisor_keeps_float_mode() {
    let gex = parse("-10.5..0.5|*0.25").unwrap();
    match &gex.constraints()[0] {
        Constraint::MultipleOf(d) => assert_eq!(*d, dec("0.25")),
        other => panic!("not a multiple-of: {:?}", other),
    }
    assert!(gex.float_mode());
    assert_eq!(gex.min_number(), dec("-10.5"));
    assert_eq!(gex.max_number(), dec("0.5"));
}

#[test]
fn trailing_tokens_are_refused() {
    match parse("0..10 )") {
        Err(CompilerError::UnexpectedToken(expected, found, line, column)) => {
            assert!(expected.is_empty());
            assert_eq!(found, TokenType::RParen);
            assert_eq!(line, 0);
            assert_eq!(column, 7);
        }
        other => panic!("{:?}", other),
    }
    assert!(matches!(
        parse("0..10 5"),
        Err(CompilerError::UnexpectedToken(_, TokenType::Number, 0, 7))
    ));
    assert!(matches!(
        parse("1 2"),
        Err(CompilerError::UnexpectedToken(_, TokenType::Number, 0, 3))
    ));
    assert!(matches!(
        parse("0..10..20"),
        Err(CompilerError::UnexpectedToken(_, TokenType::RangeCC, 0, 6))
    ));
}

#[test]
fn an_empty_program_is_refused() {
    assert!(matches!(parse(""), Err(CompilerError::NoExpressions)));
    assert!(matches!(parse("nothing at all"), Err(CompilerError::NoExpressions)));
    assert!(matches!(compile_raw(""), Err(CompilerError::NoExpressions)));
    assert!(matches!(parse("()"), Err(CompilerError::NoExpressions)));
    assert!(matches!(parse("[]"), Err(CompilerError::NoExpressions)));
    assert!(matches!(parse("[1,]"), Err(CompilerError::NoExpressions)));
}

#[test]
fn a_token_that_starts_no_expression_is_refused() {
    match parse("|*2") {
        Err(CompilerError::UnexpectedToken(expected, found, line, column)) => {
            assert_eq!(
                expected,
                vec![
                    TokenType::Number,
                    TokenType::RangeCC,
                    TokenType::RangeCO,
                    TokenType::RangeOC,
                    TokenType::RangeOO,
                    TokenType::LBrack,
                    TokenType::LParen,
                ]
            );
            assert_eq!(found, TokenType::Constraint);
            assert_eq!((line, column), (0, 1));
        }
        other => panic!("{:?}", other),
    }
    assert!(matches!(
        parse("[1, )]"),
        Err(CompilerError::UnexpectedToken(_, TokenType::RParen, 0, 5))
    ));
}

#[test]
fn unbalanced_brackets_are_refused() {
    match parse("(0..10") {
        Err(CompilerError::UnexpectedToken(expected, found, line, column)) => {
            assert_eq!(expected, vec![TokenType::RParen]);
            assert_eq!(found, TokenType::LParen);
            assert_eq!((line, column), (0, 1));
        }
        other => panic!("{:?}", other),
    }
    match parse("[1, 2") {
        Err(CompilerError::UnexpectedToken(expected, found, _, _)) => {
            assert_eq!(expected, vec![TokenType::RBrack]);
            assert_eq!(found, TokenType::LBrack);
        }
        other => panic!("{:?}", other),
    }
    assert!(matches!(
        parse("((1)"),
        Err(CompilerError::UnexpectedToken(_, TokenType::LParen, 0, 1))
    ));
}

#[test]
fn a_faulty_constraint_is_refused() {
    match parse("0..10|2") {
        Err(CompilerError::UnexpectedToken(expected, found, _, column)) => {
            assert_eq!(expected, vec![TokenType::Not, TokenType::CMultOf]);
            assert_eq!(found, TokenType::Number);
            assert_eq!(column, 7);
        }
        other => panic!("{:?}", other),
    }
    match parse("0..10|!2") {
        Err(CompilerError::UnexpectedToken(expected, found, _, _)) => {
            assert_eq!(expected, vec![TokenType::CMultOf]);
            assert_eq!(found, TokenType::Number);
        }
        other => panic!("{:?}", other),
    }
    match parse("0..10|*") {
        Err(CompilerError::UnexpectedToken(expected, found, _, column)) => {
            assert_eq!(expected, vec![TokenType::Number]);
            assert_eq!(found, TokenType::CMultOf);
            assert_eq!(column, 7);
        }
        other => panic!("{:?}", other),
    }
    match parse("0..10|*2 3") {
        Err(CompilerError::UnexpectedToken(expected, found, _, _)) => {
            assert_eq!(expected, vec![TokenType::Comma, TokenType::Constraint]);
            assert_eq!(found, TokenType::Number);
        }
        other => panic!("{:?}", other),
    }
    match parse("0..10|*2,") {
        Err(CompilerError::UnexpectedToken(expected, found, _, _)) => {
            assert_eq!(expected, vec![TokenType::Number]);
            assert_eq!(found, TokenType::Comma);
        }
        other => panic!("{:?}", other),
    }
}

#[test]
fn a_number_that_cannot_be_held_is_refused() {
    assert!(matches!(parse("-"), Err(CompilerError::InvalidNumber(0, 1))));
    assert!(matches!(parse("0..+"), Err(CompilerError::InvalidNumber(0, 4))));
    assert!(matches!(
        parse("1..100000000000000000000000000000"),
        Err(CompilerError::InvalidNumber(0, 4))
    ));
    assert!(matches!(parse("0..10|*-"), Err(CompilerError::InvalidNumber(0, 8))));
}

#[test]
fn constraints_that_leave_nothing_are_refused() {
    assert!(matches!(parse("0..10|*2|!*1"), Err(CompilerError::UnsatisfiableConstraint)));
    assert!(matches!(parse("1..5|*7|!*2"), Err(CompilerError::UnsatisfiableConstraint)));
    assert!(matches!(parse("0..10|*0,0"), Err(CompilerError::UnsatisfiableConstraint)));
}

#[test]
fn open_ended_ranges_take_the_default_ends() {
    let gex = parse("0..").unwrap();
    match gex.expression() {
        Expression::Range(x, y, _, _) => {
            assert_eq!(number_of(x), whole(0));
            assert_eq!(number_of(y), whole(i64::MAX));
        }
        other => panic!("not a range: {:?}", other),
    }
    let gex = parse("..0").unwrap();
    match gex.expression() {
        Expression::Range(x, y, _, _) => {
            assert_eq!(number_of(x), whole(i64::MIN));
            assert_eq!(number_of(y), whole(0));
        }
        other => panic!("not a range: {:?}", other),
    }
    let gex = parse("..").unwrap();
    assert_eq!(gex.min_number(), whole(i64::MIN));
    assert_eq!(gex.max_number(), whole(i64::MAX));
    let gex = parse("..|*2").unwrap();
    assert_eq!(gex.constraints().len(), 1);
}

#[test]
fn a_literal() {
    let gex = parse("42").unwrap();
    assert_eq!(number_of(&gex), whole(42));
    assert_eq!(gex.min_number(), whole(42));
    assert_eq!(gex.max_number(), whole(42));
    let gex = parse("(((-1.5)))").unwrap();
    assert_eq!(number_of(&gex), dec("-1.5"));
}

#[test]
fn a_selection() {
    let gex = parse("[1, 2, 3]").unwrap();
    match gex.expression() {
        Expression::Select(items) => {
            assert_eq!(items.len(), 3);
            assert_eq!(number_of(&items[0]), whole(1));
            assert_eq!(number_of(&items[1]), whole(2));
            assert_eq!(number_of(&items[2]), whole(3));
        }
        other => panic!("not a selection: {:?}", other),
    }
    assert_eq!(gex.min_number(), whole(1));
    assert_eq!(gex.max_number(), whole(3));
    assert!(gex.float_mode());
}

#[test]
fn a_selection_of_expressions() {
    let gex = parse("[5..6, (0..10|*2), [7, -3]]").unwrap();
    match gex.expression() {
        Expression::Select(items) => {
            assert_eq!(items.len(), 3);
            assert!(matches!(items[0].expression(), Expression::Range(..)));
            assert!(matches!(items[1].expression(), Expression::Range(..)));
            assert_eq!(items[1].constraints().len(), 1);
            assert!(matches!(items[2].expression(), Expression::Select(_)));
        }
        other => panic!("not a selection: {:?}", other),
    }
    assert_eq!(gex.min_number(), whole(-3));
    assert_eq!(gex.max_number(), whole(10));
}

#[test]
fn ranges_between_sub_expressions() {
    let gex = parse("(0..10),,(20.,50|*2)").unwrap();
    match gex.expression() {
        Expression::Range(x, y, x_open, y_open) => {
            assert!(*x_open && *y_open);
            assert!(matches!(x.expression(), Expression::Range(_, _, false, false)));
            assert!(matches!(y.expression(), Expression::Range(_, _, false, true)));
            assert_eq!(y.constraints().len(), 1);
        }
        other => panic!("not a range: {:?}", other),
    }
    assert_eq!(gex.min_number(), whole(0));
    assert_eq!(gex.max_number(), whole(50));
    let gex = parse("(0..10),,(20.,50|*2)|*3,5").unwrap();
    match &gex.constraints()[0] {
        Constraint::MultipleOf(d) => assert_eq!(*d, whole(15)),
        other => panic!("not a multiple-of: {:?}", other),
    }
    let gex = parse("0..[10, 20]").unwrap();
    assert_eq!(gex.max_number(), whole(20));
}

#[test]
fn both_constraints_on_fixed_ends_are_worked_out_beforehand() {
    let gex = parse("0..30|*2|!*3").unwrap();
    match gex.expression() {
        Expression::PrecalculatedRange(x, y, x_open, y_open, values) => {
            assert_eq!(number_of(x), whole(0));
            assert_eq!(number_of(y), whole(30));
            assert!(!*x_open && !*y_open);
            let expected: Vec<Decimal> =
                [2, 4, 8, 10, 14, 16, 20, 22, 26, 28].iter().map(|n| whole(*n)).collect();
            assert_eq!(*values, expected);
        }
        other => panic!("not worked out: {:?}", other),
    }
    assert!(gex.constraints().is_empty());
    assert_eq!(gex.min_number(), whole(2));
    assert_eq!(gex.max_number(), whole(28));
}

#[test]
fn the_order_of_the_two_constraints_does_not_matter() {
    let gex = parse("-100..100|!*2|*1").unwrap();
    match gex.expression() {
        Expression::PrecalculatedRange(_, _, _, _, values) => {
            assert_eq!(values.len(), 100);
            assert_eq!(values[0], whole(-99));
            assert_eq!(values[99], whole(99));
        }
        other => panic!("not worked out: {:?}", other),
    }
}

#[test]
fn ends_that_are_no_numbers_keep_the_constraints() {
    let gex = parse("(0..5)..30|*2|!*3").unwrap();
    assert!(matches!(gex.expression(), Expression::Range(..)));
    assert_eq!(gex.constraints().len(), 2);
    assert!(matches!(gex.constraints()[0], Constraint::MultipleOf(_)));
    assert!(matches!(gex.constraints()[1], Constraint::NotMultipleOf(_)));
}

#[test]
fn a_range_over_the_budget_keeps_the_constraints() {
    let gex = parse("0..65537|*1|!*2").unwrap();
    assert!(matches!(gex.expression(), Expression::Range(..)));
    assert_eq!(gex.constraints().len(), 2);
    let gex = parse("0..65536|*1|!*2").unwrap();
    match gex.expression() {
        Expression::PrecalculatedRange(_, _, _, _, values) => assert_eq!(values.len(), 32768),
        other => panic!("not worked out: {:?}", other),
    }
    let gex = parse("..|*2|!*3").unwrap();
    assert!(matches!(gex.expression(), Expression::Range(..)));
}

#[test]
fn the_budget_decides_between_the_two_paths() {
    assert_eq!(PRECALC_MEMORY_BUDGET, 1_048_576);
    let within = parse_with_budget("0..30|*2|!*3", 240).unwrap();
    assert!(matches!(within.expression(), Expression::PrecalculatedRange(..)));
    let over = parse_with_budget("0..30|*2|!*3", 239).unwrap();
    assert!(matches!(over.expression(), Expression::Range(..)));
    assert_eq!(over.constraints().len(), 2);
    let never = compile_raw_with_budget("0..30|*2|!*3", -1).unwrap();
    assert!(matches!(never.expression(), Expression::Range(..)));
    let always = compile_raw_with_budget("0..65537|*1|!*2", i64::MAX).unwrap();
    assert!(matches!(always.expression(), Expression::PrecalculatedRange(..)));
}

#[test]
fn the_budget_counts_sixteen_bytes_for_each_value() {
    assert_eq!(calc_max_constraint_size(whole(2), whole(100)), Some(whole(800)));
    assert_eq!(calc_max_constraint_size(dec("0.5"), whole(1)), Some(whole(32)));
    assert_eq!(calc_max_constraint_size(whole(0), whole(1)), None);
}

#[test]
fn values_worked_out_beforehand() {
    let budget = PRECALC_MEMORY_BUDGET;
    let values = precalculate_values(whole(5), &vec![whole(2)], whole(-7), whole(20), budget).unwrap();
    assert_eq!(values, vec![whole(-5), whole(5), whole(15)]);
    let values = precalculate_values(dec("0.5"), &vec![whole(1)], whole(0), whole(2), budget).unwrap();
    assert_eq!(values, vec![dec("0.5"), dec("1.5")]);
    assert_eq!(precalculate_values(whole(0), &vec![whole(2)], whole(0), whole(10), budget), None);
    assert_eq!(precalculate_values(whole(-1), &vec![whole(2)], whole(0), whole(10), budget), None);
    assert_eq!(precalculate_values(whole(1), &vec![whole(0)], whole(0), whole(10), budget), None);
    assert_eq!(
        precalculate_values(whole(2), &vec![whole(3)], whole(10), whole(0), budget),
        Some(vec![])
    );
    assert_eq!(precalculate_values(whole(5), &vec![whole(2)], whole(0), whole(20), 63), None);
    assert_eq!(
        precalculate_values(whole(5), &vec![whole(2)], whole(0), whole(20), 64),
        Some(vec![whole(5), whole(15)])
    );
}

#[test]
fn gcd_of_twelve_and_eighteen() {
    assert_eq!(greatest_common_denominator(whole(12), whole(18)), Some(whole(6)));
    assert_eq!(greatest_common_denominator(whole(18), whole(12)), Some(whole(6)));
    assert_eq!(greatest_common_denominator(whole(7), whole(0)), Some(whole(7)));
    assert_eq!(greatest_common_denominator(dec("0.5"), dec("0.75")), Some(dec("0.25")));
}

#[test]
fn lcm_of_two_three_and_five() {
    assert_eq!(least_common_multiple(&[whole(2), whole(3), whole(5)]), Some(whole(30)));
    assert_eq!(least_common_multiple(&[whole(4), whole(6)]), Some(whole(12)));
    assert_eq!(least_common_multiple(&[whole(7)]), Some(whole(7)));
    assert_eq!(least_common_multiple(&[whole(2), whole(3), whole(4), whole(5), whole(6)]), Some(whole(60)));
    assert_eq!(least_common_multiple(&[]), None);
    assert_eq!(least_common_multiple(&[whole(0), whole(0)]), None);
}

#[test]
fn brackets_are_matched_by_counting() {
    let tokens = tokenize("((1)(2)) 3 [[4],[5]]");
    assert_eq!(find_subexpression_end(&tokens, 0, tokens.len()), 7);
    assert_eq!(find_subexpression_end(&tokens, 1, tokens.len()), 3);
    assert_eq!(find_subexpression_end(&tokens, 2, tokens.len()), 2);
    assert_eq!(find_subexpression_end(&tokens, 0, 7), 7);
    assert_eq!(find_selection_end(&tokens, 9, tokens.len()), 17);
    assert_eq!(find_selection_end(&tokens, 10, tokens.len()), 12);
    assert_eq!(find_selection_end(&tokens, 0, tokens.len()), 0);
}

#[test]
fn parse_tokens_reads_what_tokenize_gives() {
    let tokens = tokenize("[1, 2]");
    let gex = parse_tokens(&tokens, PRECALC_MEMORY_BUDGET).unwrap();
    assert!(matches!(gex.expression(), Expression::Select(_)));
    assert!(matches!(
        parse_tokens(&Vec::new(), PRECALC_MEMORY_BUDGET),
        Err(CompilerError::NoExpressions)
    ));
}

#[test]
fn annotations_do_not_change_the_program() {
    let gex = parse("between 0 .. and 100 | only * 2").unwrap();
    assert!(matches!(gex.expression(), Expression::Range(_, _, false, false)));
    assert_eq!(gex.constraints().len(), 1);
}
