//! What can go wrong while an expression is compiled.
use super::token_type::TokenType;
use vstd::prelude::*;

verus! {

/// Why a text is no Grand Expression. Only the first fault is reported.
#[derive(Debug, Clone)]
pub enum CompilerError {
    /// A token stands where the language has no place for it. The fields
    /// are the kinds of token that could have stood there, the kind that
    /// does, and its line and column. At the end of the text the last token
    /// is named.
    UnexpectedToken(Vec<TokenType>, TokenType, usize, usize),
    /// There is no expression where one is needed: the text, a pair of
    /// brackets or an entry of a list is empty.
    NoExpressions,
    /// The constraints of a range leave it no value, or their divisors have
    /// no common multiple that a decimal can hold.
    UnsatisfiableConstraint,
    /// The number at this line and column cannot be held exactly.
    InvalidNumber(usize, usize),
}

/// A compiler error as contracts speak of it.
pub enum CompilerErrorView {
    UnexpectedToken(Seq<TokenType>, TokenType, usize, usize),
    NoExpressions,
    UnsatisfiableConstraint,
    InvalidNumber(usize, usize),
}

impl View for CompilerError {
    type V = CompilerErrorView;

    open spec fn view(&self) -> CompilerErrorView {
        match self {
            CompilerError::UnexpectedToken(expected, found, line, column) => {
                CompilerErrorView::UnexpectedToken(expected@, *found, *line, *column)
            },
            CompilerError::NoExpressions => CompilerErrorView::NoExpressions,
            CompilerError::UnsatisfiableConstraint => CompilerErrorView::UnsatisfiableConstraint,
            CompilerError::InvalidNumber(line, column) => CompilerErrorView::InvalidNumber(
                *line,
                *column,
            ),
        }
    }
}

/// The text of the digit `d`.
pub open spec fn digit_text(d: int) -> Seq<char> {
    if d == 0 {
        "0"@
    } else if d == 1 {
        "1"@
    } else if d == 2 {
        "2"@
    } else if d == 3 {
        "3"@
    } else if d == 4 {
        "4"@
    } else if d == 5 {
        "5"@
    } else if d == 6 {
        "6"@
    } else if d == 7 {
        "7"@
    } else if d == 8 {
        "8"@
    } else {
        "9"@
    }
}

/// The number `n` in decimal digits.
pub open spec fn number_text(n: int) -> Seq<char>
    decreases n,
{
    if n < 10 {
        digit_text(n)
    } else {
        number_text(n / 10) + digit_text(n % 10)
    }
}

/// The name of a kind of token.
pub open spec fn kind_text(kind: TokenType) -> Seq<char> {
    match kind {
        TokenType::Number => "Number"@,
        TokenType::RangeCC => "RangeCC"@,
        TokenType::RangeOO => "RangeOO"@,
        TokenType::RangeCO => "RangeCO"@,
        TokenType::RangeOC => "RangeOC"@,
        TokenType::Comma => "Comma"@,
        TokenType::Not => "Not"@,
        TokenType::LBrack => "LBrack"@,
        TokenType::RBrack => "RBrack"@,
        TokenType::LParen => "LParen"@,
        TokenType::RParen => "RParen"@,
        TokenType::Constraint => "Constraint"@,
        TokenType::CMultOf => "CMultOf"@,
        TokenType::Ignored => "Ignored"@,
    }
}

/// The names of the first `upto` of `kinds`, parted by commas.
pub open spec fn kinds_text(kinds: Seq<TokenType>, upto: int) -> Seq<char>
    decreases upto,
{
    if upto <= 0 {
        Seq::empty()
    } else if upto == 1 {
        kind_text(kinds[0])
    } else {
        kinds_text(kinds, upto - 1) + ", "@ + kind_text(kinds[upto - 1])
    }
}

/// What an error says of itself.
pub open spec fn message_text(error: CompilerErrorView) -> Seq<char> {
    match error {
        CompilerErrorView::UnexpectedToken(expected, found, line, column) => {
            "Unexpected Token in line "@ + number_text(line as int) + ", column "@ + number_text(
                column as int,
            ) + ". Expected one of ["@ + kinds_text(expected, expected.len() as int) + "], found "@
                + kind_text(found)
        },
        CompilerErrorView::NoExpressions => "No expressions or sub-expressions in program"@,
        CompilerErrorView::UnsatisfiableConstraint => {
            "Incompatible constraints detected, check your constraints"@
        },
        CompilerErrorView::InvalidNumber(line, column) => {
            "Invalid number in line "@ + number_text(line as int) + ", column "@ + number_text(
                column as int,
            )
        },
    }
}

/// The text of the digit `d`.
fn digit_str(d: usize) -> (r: &'static str)
    requires
        d < 10,
    ensures
        r@ == digit_text(d as int),
{
    if d == 0 {
        "0"
    } else if d == 1 {
        "1"
    } else if d == 2 {
        "2"
    } else if d == 3 {
        "3"
    } else if d == 4 {
        "4"
    } else if d == 5 {
        "5"
    } else if d == 6 {
        "6"
    } else if d == 7 {
        "7"
    } else if d == 8 {
        "8"
    } else {
        "9"
    }
}

/// The number `n` in decimal digits.
pub fn number_string(n: usize) -> (r: String)
    ensures
        r@ == number_text(n as int),
    decreases n,
{
    if n < 10 {
        digit_str(n).to_owned()
    } else {
        let mut r = number_string(n / 10);
        r.append(digit_str(n % 10));
        r
    }
}

/// The name of a kind of token.
pub fn kind_name(kind: TokenType) -> (r: &'static str)
    ensures
        r@ == kind_text(kind),
{
    match kind {
        TokenType::Number => "Number",
        TokenType::RangeCC => "RangeCC",
        TokenType::RangeOO => "RangeOO",
        TokenType::RangeCO => "RangeCO",
        TokenType::RangeOC => "RangeOC",
        TokenType::Comma => "Comma",
        TokenType::Not => "Not",
        TokenType::LBrack => "LBrack",
        TokenType::RBrack => "RBrack",
        TokenType::LParen => "LParen",
        TokenType::RParen => "RParen",
        TokenType::Constraint => "Constraint",
        TokenType::CMultOf => "CMultOf",
        TokenType::Ignored => "Ignored",
    }
}

impl CompilerError {
    /// What the error says of itself: for a token out of place its line
    /// and column, the kinds of token that could have stood there and the
    /// kind that does.
    pub fn message(&self) -> (r: String)
        ensures
            r@ == message_text(self@),
    {
        match self {
            CompilerError::UnexpectedToken(valid_tokens, actual_token, line, column) => {
                let mut r = "Unexpected Token in line ".to_owned();
                r.append(number_string(*line).as_str());
                r.append(", column ");
                r.append(number_string(*column).as_str());
                r.append(". Expected one of [");
                let ghost head = r@;
                let mut i: usize = 0;
                while i < valid_tokens.len()
                    invariant
                        i <= valid_tokens.len(),
                        r@ == head + kinds_text(valid_tokens@, i as int),
                    decreases valid_tokens.len() - i,
                {
                    if i > 0 {
                        r.append(", ");
                    }
                    r.append(kind_name(valid_tokens[i]));
                    i += 1;
                }
                r.append("], found ");
                r.append(kind_name(*actual_token));
                r
            },
            CompilerError::NoExpressions => "No expressions or sub-expressions in program".to_owned(),
            CompilerError::UnsatisfiableConstraint => {
                "Incompatible constraints detected, check your constraints".to_owned()
            },
            CompilerError::InvalidNumber(line, column) => {
                let mut r = "Invalid number in line ".to_owned();
                r.append(number_string(*line).as_str());
                r.append(", column ");
                r.append(number_string(*column).as_str());
                r
            },
        }
    }
}

} // verus!
