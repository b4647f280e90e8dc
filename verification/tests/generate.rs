use grand::decimal::{Decimal, MAX_MANTISSA};
use grand::parser::gex::constraint::Constraint;
use grand::parser::gex::expression::Expression;
use grand::parser::gex::{
    draw_whole, floor_to_multiple, is_blacklisted, is_multiple, lies_within, pick_precalculated,
    run_within, settle, MAX_RANGE_HELL_REROLLS,
};
use grand::parser::parse;
use grand::{compile_raw, compile_raw_with_budget, Gex, SamplingError};

fn whole(n: i64) -> Decimal {
    Decimal::from_i64(n)
}

fn dec(text: &str) -> Decimal {
    Decimal::parse(text).unwrap()
}

fn range(low: i64, high: i64, x_open: bool, y_open: bool) -> Gex {
    Gex::from_range(Gex::from_num(whole(low)), Gex::from_num(whole(high)), x_open, y_open)
}

#[test]
fn a_literal_gives_itself() {
    for text in ["42", "-10.5", "0", "0.001", "(7)"] {
        let gex = compile_raw(text).unwrap();
        for _ in 0..20 {
            assert_eq!(gex.generate().unwrap(), dec(text.trim_matches(|c| c == '(' || c == ')')));
        }
    }
    assert_eq!(Gex::from_num(dec("3.25")).generate(), Ok(dec("3.25")));
}

#[test]
fn a_closed_range_keeps_to_its_ends() {
    let gex = compile_raw("0..10").unwrap();
    for _ in 0..2000 {
        let v = gex.generate().unwrap();
        assert!(whole(0) <= v && v <= whole(10));
    }
    let gex = compile_raw("-10.5..0.5").unwrap();
    for _ in 0..2000 {
        let v = gex.generate().unwrap();
        assert!(dec("-10.5") <= v && v <= dec("0.5"));
    }
}

#[test]
fn an_open_range_leaves_its_ends_out() {
    let gex = compile_raw("0,,10").unwrap();
    for _ in 0..2000 {
        let v = gex.generate().unwrap();
        assert!(whole(0) < v && v < whole(10));
    }
}

#[test]
fn a_value_on_an_open_end_is_moved_by_epsilon() {
    assert_eq!(settle(whole(0), whole(0), whole(10), true, true), Some(dec("0.001")));
    assert_eq!(settle(whole(10), whole(0), whole(10), true, true), Some(dec("9.999")));
    assert_eq!(settle(whole(0), whole(0), whole(10), false, true), Some(whole(0)));
    assert_eq!(settle(whole(10), whole(0), whole(10), true, false), Some(whole(10)));
    assert_eq!(settle(whole(5), whole(0), whole(10), true, true), Some(whole(5)));
}

#[test]
fn a_step_that_crosses_the_other_end_is_shortened() {
    let low = dec("1");
    let high = dec("1.0005");
    assert_eq!(settle(low, low, high, true, true), Some(dec("1.0001")));
    assert_eq!(settle(high, low, high, true, true), Some(dec("1.0004")));
    assert_eq!(settle(low, low, dec("1.001"), true, false), Some(dec("1.001")));
    assert_eq!(settle(low, low, dec("1.001"), true, true), Some(dec("1.0001")));
    assert_eq!(settle(whole(0), whole(0), dec("0.0005"), true, false), Some(dec("0.0001")));
    assert_eq!(
        settle(whole(0), whole(0), dec("0.000000000000000000000000002"), true, true),
        Some(dec("0.000000000000000000000000001"))
    );
}

#[test]
fn a_range_without_a_value_settles_nothing() {
    let low = dec("1");
    let next = dec("1.0000000000000000000000000001");
    assert_eq!(settle(low, low, low, true, true), None);
    assert_eq!(settle(low, low, low, true, false), None);
    assert_eq!(settle(low, low, next, true, true), None);
    assert_eq!(settle(low, low, next, true, false), Some(next));
    assert_eq!(settle(next, low, next, false, true), Some(low));
    assert_eq!(settle(low, low, low, false, false), Some(low));
    let gex = Gex::from_range(Gex::from_num(low), Gex::from_num(low), true, true);
    assert_eq!(gex.generate(), Err(SamplingError::EmptyRange));
    let gex = compile_raw("5,.5").unwrap();
    assert_eq!(gex.generate(), Err(SamplingError::EmptyRange));
}

#[test]
fn a_narrow_half_open_range_keeps_off_its_open_end() {
    let gex = compile_raw("0,.0.0005").unwrap();
    assert_eq!(
        gex.attempt(whole(0), dec("0.0005"), true, false, 0),
        Ok((dec("0.0001"), false))
    );
    for _ in 0..500 {
        let v = gex.generate().unwrap();
        assert!(whole(0) < v && v <= dec("0.0005"));
    }
}

#[test]
fn whole_values_are_drawn_from_the_integers_of_the_range() {
    assert_eq!(draw_whole(whole(0), whole(10), false, false, 0), Ok(whole(0)));
    assert_eq!(draw_whole(whole(0), whole(10), false, false, u128::MAX), Ok(whole(10)));
    assert_eq!(draw_whole(whole(0), whole(10), true, true, 0), Ok(whole(1)));
    assert_eq!(draw_whole(whole(0), whole(10), true, true, u128::MAX), Ok(whole(9)));
    assert_eq!(draw_whole(dec("0.5"), dec("10.5"), false, false, 0), Ok(whole(1)));
    assert_eq!(draw_whole(dec("0.5"), dec("10.5"), true, true, u128::MAX), Ok(whole(10)));
    assert_eq!(draw_whole(dec("-2.5"), dec("-0.5"), false, false, 0), Ok(whole(-2)));
    assert_eq!(draw_whole(dec("-2.5"), dec("-0.5"), false, false, u128::MAX), Ok(whole(-1)));
    assert_eq!(draw_whole(whole(10), whole(0), true, false, 0), Ok(whole(0)));
    assert_eq!(draw_whole(whole(10), whole(0), true, false, u128::MAX), Ok(whole(9)));
    let run = u128::MAX / 11;
    assert_eq!(draw_whole(whole(0), whole(10), false, false, run - 1), Ok(whole(0)));
    assert_eq!(draw_whole(whole(0), whole(10), false, false, run), Ok(whole(1)));
    assert_eq!(draw_whole(whole(0), whole(10), false, false, run * 10), Ok(whole(10)));
    assert_eq!(draw_whole(whole(3), whole(3), false, false, 12345), Ok(whole(3)));
    assert_eq!(
        draw_whole(whole(i64::MIN), whole(i64::MAX), false, false, u128::MAX),
        Ok(whole(i64::MAX))
    );
}

#[test]
fn a_range_without_an_integer_gives_none() {
    assert_eq!(draw_whole(whole(0), whole(1), true, true, 7), Err(SamplingError::EmptyRange));
    assert_eq!(
        draw_whole(dec("0.2"), dec("0.8"), false, false, 7),
        Err(SamplingError::EmptyRange)
    );
    assert_eq!(draw_whole(whole(3), whole(3), true, false, 7), Err(SamplingError::EmptyRange));
    let gex = compile_raw("0,,1|*1").unwrap();
    assert_eq!(gex.generate(), Err(SamplingError::EmptyRange));
}

#[test]
fn a_closed_upper_end_is_as_likely_as_any_integer() {
    let gex = compile_raw("0..3|*1").unwrap();
    let mut counts = [0u32; 4];
    for _ in 0..4000 {
        let v = gex.generate().unwrap();
        let at = [whole(0), whole(1), whole(2), whole(3)].iter().position(|n| *n == v).unwrap();
        counts[at] += 1;
    }
    for count in counts {
        assert!(count > 800 && count < 1200, "{:?}", counts);
    }
}

#[test]
fn belonging_to_a_range() {
    assert!(lies_within(whole(0), whole(0), whole(10), false, false));
    assert!(lies_within(whole(10), whole(0), whole(10), false, false));
    assert!(!lies_within(whole(0), whole(0), whole(10), true, false));
    assert!(!lies_within(whole(10), whole(0), whole(10), false, true));
    assert!(!lies_within(whole(11), whole(0), whole(10), false, false));
    assert!(!lies_within(whole(-1), whole(0), whole(10), false, false));
    assert!(lies_within(whole(5), whole(10), whole(0), false, false));
}

#[test]
fn a_multiple_of_constraint_gives_multiples() {
    let gex = compile_raw("0..100|*2").unwrap();
    for _ in 0..2000 {
        let v = gex.generate().unwrap();
        assert_eq!(is_multiple(v, whole(2)), Ok(true));
        assert!(whole(0) <= v && v <= whole(100));
    }
    let gex = compile_raw("-10.5..0.5|*0.25").unwrap();
    for _ in 0..2000 {
        let v = gex.generate().unwrap();
        assert_eq!(is_multiple(v, dec("0.25")), Ok(true));
    }
}

#[test]
fn flooring_to_a_multiple() {
    assert_eq!(floor_to_multiple(dec("7.5"), whole(2)), Ok(whole(6)));
    assert_eq!(floor_to_multiple(dec("-7.5"), whole(2)), Ok(whole(-8)));
    assert_eq!(floor_to_multiple(dec("1.3"), dec("0.25")), Ok(dec("1.25")));
    assert_eq!(floor_to_multiple(whole(6), whole(3)), Ok(whole(6)));
    assert_eq!(floor_to_multiple(whole(6), whole(0)), Err(SamplingError::DivisionByZero));
}

#[test]
fn multiples_and_blacklists() {
    assert_eq!(is_multiple(whole(6), whole(3)), Ok(true));
    assert_eq!(is_multiple(whole(7), whole(3)), Ok(false));
    assert_eq!(is_multiple(dec("1.5"), dec("0.5")), Ok(true));
    assert_eq!(is_multiple(whole(1), whole(0)), Err(SamplingError::DivisionByZero));
    assert_eq!(is_blacklisted(whole(7), &vec![whole(2), whole(3), whole(5)]), Ok(false));
    assert_eq!(is_blacklisted(whole(9), &vec![whole(2), whole(3), whole(5)]), Ok(true));
    assert_eq!(is_blacklisted(whole(9), &vec![]), Ok(false));
    assert_eq!(is_blacklisted(whole(9), &vec![whole(3), whole(0)]), Ok(true));
    assert_eq!(is_blacklisted(whole(9), &vec![whole(0), whole(3)]), Err(SamplingError::DivisionByZero));
}

fn odd_numbers_by_rejection() -> Gex {
    let mut gex = range(-100, 100, false, false);
    gex.add_constraint(Constraint::MultipleOf(whole(1)));
    gex.add_constraint(Constraint::NotMultipleOf(vec![whole(2)]));
    gex
}

#[test]
fn a_not_multiple_of_constraint_rejects_multiples() {
    let gex = odd_numbers_by_rejection();
    assert!(matches!(gex.expression(), Expression::Range(..)));
    let mut violations = 0;
    for _ in 0..10000 {
        let v = gex.generate().unwrap();
        if is_multiple(v, whole(2)) != Ok(false) {
            violations += 1;
        }
        assert_eq!(is_multiple(v, whole(1)), Ok(true));
    }
    assert_eq!(violations, 0);
}

#[test]
fn after_the_last_attempt_the_rejected_value_is_handed_out() {
    let mut gex = range(4, 4, false, false);
    gex.add_constraint(Constraint::NotMultipleOf(vec![whole(2)]));
    assert_eq!(gex.generate_within(5), Ok(whole(4)));
    assert_eq!(gex.generate_within(0), Ok(whole(4)));
    assert_eq!(gex.generate(), Ok(whole(4)));
    assert_eq!(MAX_RANGE_HELL_REROLLS, 1000);
}

#[test]
fn one_attempt_tells_whether_it_was_rejected() {
    let gex = odd_numbers_by_rejection();
    assert_eq!(gex.attempt(whole(-100), whole(100), false, false, 0), Ok((whole(-100), true)));
    assert_eq!(gex.attempt(whole(-99), whole(100), false, false, 0), Ok((whole(-99), false)));
    assert_eq!(gex.attempt(whole(0), whole(9), false, false, u128::MAX), Ok((whole(9), false)));
    let plain = range(0, 10, true, true);
    assert_eq!(plain.attempt(whole(0), whole(10), true, true, 0), Ok((dec("0.001"), false)));
    assert_eq!(
        plain.attempt(whole(0), whole(10), true, true, u64::MAX as u128),
        Ok((dec("9.999"), false))
    );
    assert_eq!(plain.attempt(whole(0), whole(10), true, true, 1 << 64), Ok((dec("0.001"), false)));
}

#[test]
fn whole_divisors_move_open_ends_inward_by_one() {
    let mut gex = range(0, 10, true, true);
    gex.add_constraint(Constraint::MultipleOf(whole(1)));
    assert!(!gex.float_mode());
    assert_eq!(gex.attempt(whole(0), whole(10), true, true, 0), Ok((whole(1), false)));
    assert_eq!(gex.attempt(whole(0), whole(10), true, true, u128::MAX), Ok((whole(9), false)));
    for _ in 0..2000 {
        let v = gex.generate().unwrap();
        assert!(whole(1) <= v && v <= whole(9));
        assert_eq!(v.floor(), v);
    }
}

#[test]
fn float_mode_follows_the_divisors() {
    let mut gex = range(0, 10, false, false);
    assert!(gex.float_mode());
    gex.add_constraint(Constraint::NotMultipleOf(vec![whole(3)]));
    assert!(gex.float_mode());
    gex.add_constraint(Constraint::MultipleOf(whole(2)));
    assert!(!gex.float_mode());
    gex.add_constraint(Constraint::MultipleOf(whole(4)));
    assert!(!gex.float_mode());
    gex.add_constraint(Constraint::MultipleOf(dec("0.5")));
    assert!(gex.float_mode());
    gex.add_constraint(Constraint::MultipleOf(whole(2)));
    assert!(gex.float_mode());
    assert_eq!(gex.constraints().len(), 5);
    let integral = Gex::from_select(vec![compile_raw("0..10|*2").unwrap(), compile_raw("0..4|*1").unwrap()]);
    assert!(!integral.float_mode());
    let mixed = Gex::from_select(vec![compile_raw("0..10|*2").unwrap(), compile_raw("5").unwrap()]);
    assert!(mixed.float_mode());
}

#[test]
fn both_paths_give_the_same_values() {
    let worked_out = compile_raw_with_budget("0..30|*2|!*3", i64::MAX).unwrap();
    let table: Vec<Decimal> = match worked_out.expression() {
        Expression::PrecalculatedRange(_, _, _, _, values) => values.clone(),
        other => panic!("not worked out: {:?}", other),
    };
    let by_rejection = compile_raw_with_budget("0..30|*2|!*3", 0).unwrap();
    assert!(matches!(by_rejection.expression(), Expression::Range(..)));
    let mut seen_worked_out = vec![false; table.len()];
    let mut seen_by_rejection = vec![false; table.len()];
    for _ in 0..3000 {
        let v = worked_out.generate().unwrap();
        let at = table.iter().position(|t| *t == v).expect("not in the table");
        seen_worked_out[at] = true;
        let v = by_rejection.generate().unwrap();
        let at = table.iter().position(|t| *t == v).expect("not in the table");
        seen_by_rejection[at] = true;
    }
    assert!(seen_worked_out.iter().all(|s| *s));
    assert!(seen_by_rejection.iter().all(|s| *s));
}

#[test]
fn a_copy_is_the_same_expression() {
    let gex = parse("[1, (0..10|*2), 0..30|*2|!*3]").unwrap();
    let copy = gex.clone();
    assert_eq!(format!("{:?}", copy), format!("{:?}", gex));
    let copy = gex.duplicate();
    assert_eq!(format!("{:?}", copy.expression().clone()), format!("{:?}", gex.expression()));
}

#[test]
fn a_selection_gives_its_members_evenly() {
    let gex = compile_raw("[1,2,3]").unwrap();
    let mut counts = [0u32; 3];
    let trials = 6000;
    for _ in 0..trials {
        let v = gex.generate().unwrap();
        if v == whole(1) {
            counts[0] += 1;
        } else if v == whole(2) {
            counts[1] += 1;
        } else if v == whole(3) {
            counts[2] += 1;
        } else {
            panic!("{:?} is no member", v);
        }
    }
    let expected = trials as f64 / 3.0;
    let chi_square: f64 =
        counts.iter().map(|c| (*c as f64 - expected) * (*c as f64 - expected) / expected).sum();
    assert!(chi_square < 30.0, "chi-square {} for {:?}", chi_square, counts);
}

#[test]
fn a_selection_of_ranges() {
    let gex = compile_raw("[0..1, 10..11]").unwrap();
    for _ in 0..500 {
        let v = gex.generate().unwrap();
        assert!((whole(0) <= v && v <= whole(1)) || (whole(10) <= v && v <= whole(11)));
    }
}

#[test]
fn picking_from_a_table() {
    let table = vec![whole(2), whole(4), whole(8), whole(10)];
    assert_eq!(pick_precalculated(whole(0), whole(10), false, false, &table, 0), Some(whole(2)));
    assert_eq!(pick_precalculated(whole(0), whole(10), false, false, &table, usize::MAX), Some(whole(10)));
    assert_eq!(pick_precalculated(whole(2), whole(10), true, true, &table, 0), Some(whole(4)));
    assert_eq!(pick_precalculated(whole(2), whole(10), true, true, &table, usize::MAX), Some(whole(8)));
    assert_eq!(pick_precalculated(whole(3), whole(9), false, false, &table, usize::MAX / 2), Some(whole(8)));
    assert_eq!(pick_precalculated(whole(5), whole(7), false, false, &table, 0), None);
    assert_eq!(pick_precalculated(whole(0), whole(10), false, false, &vec![], 0), None);
}

#[test]
fn the_run_of_a_table_within_the_ends() {
    let table = vec![whole(2), whole(4), whole(8), whole(10)];
    assert_eq!(run_within(whole(0), whole(10), false, false, &table), (0, 4));
    assert_eq!(run_within(whole(2), whole(10), true, true, &table), (1, 3));
    assert_eq!(run_within(whole(3), whole(9), false, false, &table), (1, 3));
    assert_eq!(run_within(whole(5), whole(7), false, false, &table), (4, 4));
    assert_eq!(run_within(whole(8), whole(8), false, false, &table), (2, 3));
    assert_eq!(run_within(whole(0), whole(10), false, false, &vec![]), (0, 0));
    let unsorted = vec![whole(4), whole(40), whole(5)];
    assert_eq!(run_within(whole(0), whole(10), false, false, &unsorted), (0, 1));
}

#[test]
fn a_table_with_one_value_within_the_ends_gives_it() {
    let gex = Gex::from_precalc(range(3, 5, false, false), vec![whole(2), whole(4), whole(8)]);
    for _ in 0..100 {
        assert_eq!(gex.generate(), Ok(whole(4)));
    }
    let single = compile_raw("[7]").unwrap();
    for _ in 0..100 {
        assert_eq!(single.generate(), Ok(whole(7)));
    }
}

#[test]
fn a_failing_attempt_ends_the_run() {
    let mut gex = range(0, 10, false, false);
    gex.add_constraint(Constraint::NotMultipleOf(vec![whole(1), whole(0)]));
    gex.add_constraint(Constraint::MultipleOf(whole(0)));
    assert_eq!(gex.attempt(whole(0), whole(10), false, false, 0), Ok((whole(0), true)));
    let mut gex = range(1, 1, false, false);
    gex.add_constraint(Constraint::NotMultipleOf(vec![whole(2), whole(0)]));
    assert_eq!(
        gex.attempt(whole(1), whole(1), false, false, 0),
        Err(SamplingError::DivisionByZero)
    );
    assert_eq!(gex.generate(), Err(SamplingError::DivisionByZero));
}

#[test]
fn a_table_outside_the_ends_gives_nothing() {
    let gex = Gex::from_precalc(range(0, 1, false, false), vec![whole(5)]);
    assert_eq!(gex.generate(), Err(SamplingError::EmptyRange));
    assert_eq!(gex.min_number(), whole(5));
    assert_eq!(gex.max_number(), whole(5));
}

#[test]
fn a_table_without_a_range_takes_its_own_ends() {
    let gex = Gex::from_precalc(Gex::from_num(whole(0)), vec![whole(3), whole(5), whole(9)]);
    match gex.expression() {
        Expression::PrecalculatedRange(x, y, x_open, y_open, values) => {
            assert!(matches!(x.expression(), Expression::Number(n) if *n == whole(3)));
            assert!(matches!(y.expression(), Expression::Number(n) if *n == whole(9)));
            assert!(!*x_open && !*y_open);
            assert_eq!(values.len(), 3);
        }
        other => panic!("not worked out: {:?}", other),
    }
    for _ in 0..200 {
        let v = gex.generate().unwrap();
        assert!(v == whole(3) || v == whole(5) || v == whole(9));
    }
}

#[test]
fn a_zero_divisor_is_an_error() {
    let mut gex = range(0, 10, false, false);
    gex.add_constraint(Constraint::MultipleOf(whole(0)));
    assert_eq!(gex.generate(), Err(SamplingError::DivisionByZero));
    let mut gex = range(0, 10, false, false);
    gex.add_constraint(Constraint::NotMultipleOf(vec![whole(0)]));
    assert_eq!(gex.generate(), Err(SamplingError::DivisionByZero));
}

#[test]
fn a_range_too_wide_for_the_arithmetic_is_an_error() {
    let top = Decimal::new(MAX_MANTISSA, 0).unwrap();
    let bottom = Decimal::new(-MAX_MANTISSA, 0).unwrap();
    let gex = Gex::from_range(Gex::from_num(bottom), Gex::from_num(top), false, false);
    assert_eq!(gex.generate(), Err(SamplingError::Overflow));
}

#[test]
fn the_widest_default_range_can_be_sampled() {
    let gex = compile_raw("..").unwrap();
    for _ in 0..200 {
        let v = gex.generate().unwrap();
        assert!(whole(i64::MIN) <= v && v <= whole(i64::MAX));
    }
    let gex = compile_raw("0..").unwrap();
    assert!(gex.generate().unwrap() >= whole(0));
    let gex = compile_raw("..0").unwrap();
    assert!(gex.generate().unwrap() <= whole(0));
}

#[test]
fn ends_that_are_expressions_are_evaluated_first() {
    let gex = compile_raw("(0..10),,(20.,50|*2)|*3,5").unwrap();
    for _ in 0..500 {
        let v = gex.generate().unwrap();
        assert_eq!(is_multiple(v, whole(15)), Ok(true));
        assert!(whole(0) <= v && v <= whole(50));
    }
}

#[test]
fn odd_numbers() {
    let gex = compile_raw("-100..100|*1|!*2").unwrap();
    for _ in 0..2000 {
        let v = gex.generate().unwrap();
        assert_eq!(is_multiple(v, whole(2)), Ok(false));
        assert_eq!(v.floor(), v);
        assert!(whole(-100) <= v && v <= whole(100));
    }
}
