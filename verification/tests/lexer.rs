use grand::parser::lexer::tokenize;
use grand::parser::token_type::TokenType;

fn kinds(source: &str) -> Vec<TokenType> {
    tokenize(source).iter().map(|t| t.token_type).collect()
}

fn texts(source: &str) -> Vec<String> {
    tokenize(source).iter().map(|t| t.content.clone()).collect()
}

#[test]
fn closed_range_has_three_tokens() {
    let tokens = tokenize("0..10");
    assert_eq!(tokens.len(), 3);
    assert_eq!(tokens[0].token_type, TokenType::Number);
    assert_eq!(tokens[0].content, "0");
    assert_eq!(tokens[1].token_type, TokenType::RangeCC);
    assert_eq!(tokens[1].content, "..");
    assert_eq!(tokens[2].token_type, TokenType::Number);
    assert_eq!(tokens[2].content, "10");
}

#[test]
fn the_four_range_operators() {
    assert_eq!(kinds("1..2"), vec![TokenType::Number, TokenType::RangeCC, TokenType::Number]);
    assert_eq!(kinds("1.,2"), vec![TokenType::Number, TokenType::RangeCO, TokenType::Number]);
    assert_eq!(kinds("1,.2"), vec![TokenType::Number, TokenType::RangeOC, TokenType::Number]);
    assert_eq!(kinds("1,,2"), vec![TokenType::Number, TokenType::RangeOO, TokenType::Number]);
    assert_eq!(texts("1,.2"), vec!["1", ",.", "2"]);
}

#[test]
fn single_character_tokens() {
    assert_eq!(
        kinds("![]()|*"),
        vec![
            TokenType::Not,
            TokenType::LBrack,
            TokenType::RBrack,
            TokenType::LParen,
            TokenType::RParen,
            TokenType::Constraint,
            TokenType::CMultOf,
        ]
    );
}

#[test]
fn a_lone_comma_separates() {
    assert_eq!(
        kinds("[1, 2]"),
        vec![
            TokenType::LBrack,
            TokenType::Number,
            TokenType::Comma,
            TokenType::Number,
            TokenType::RBrack,
        ]
    );
}

#[test]
fn a_lone_point_is_passed_over() {
    assert_eq!(kinds("1 . 2"), vec![TokenType::Number, TokenType::Number]);
}

#[test]
fn numbers_take_a_sign_and_one_fraction() {
    assert_eq!(texts("-10.5..0.5"), vec!["-10.5", "..", "0.5"]);
    assert_eq!(texts("+3"), vec!["+3"]);
    assert_eq!(texts("1.2.3"), vec!["1.2", "3"]);
    assert_eq!(texts("-.5"), vec!["-.5"]);
    assert_eq!(texts("7."), vec!["7"]);
}

#[test]
fn a_number_before_a_range_operator_keeps_its_digits_only() {
    assert_eq!(texts("0..10|*0.25"), vec!["0", "..", "10", "|", "*", "0.25"]);
}

#[test]
fn letters_and_spaces_are_passed_over() {
    assert_eq!(
        kinds("from 0 .. to 10 please"),
        vec![TokenType::Number, TokenType::RangeCC, TokenType::Number]
    );
    assert!(tokenize("no tokens here").is_empty());
    assert!(tokenize("").is_empty());
}

#[test]
fn no_token_is_ignored() {
    for t in tokenize("a 1 b .. c 2 . d | * e ! [ ] ( ) , \n 5") {
        assert_ne!(t.token_type, TokenType::Ignored);
    }
}

#[test]
fn lines_count_from_zero_and_columns_from_one() {
    let tokens = tokenize("12..3\n  4");
    assert_eq!((tokens[0].line, tokens[0].column), (0, 1));
    assert_eq!((tokens[1].line, tokens[1].column), (0, 3));
    assert_eq!((tokens[2].line, tokens[2].column), (0, 5));
    assert_eq!((tokens[3].line, tokens[3].column), (1, 3));
}

#[test]
fn the_end_of_the_text_ends_an_operator() {
    assert_eq!(kinds("1,"), vec![TokenType::Number, TokenType::Comma]);
    assert_eq!(kinds("1."), vec![TokenType::Number]);
    assert_eq!(kinds("1.."), vec![TokenType::Number, TokenType::RangeCC]);
}
