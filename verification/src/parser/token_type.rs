//! The kinds of token.
use vstd::prelude::*;

verus! {

/// What a token is. `Ignored` stands for text that means nothing to the
/// language; the lexer never hands such a token out.
#[derive(Clone, Copy, Debug, PartialEq, Eq, Structural)]
pub enum TokenType {
    /// A number, with an optional sign and fraction.
    Number,
    /// `..`: both ends belong to the range.
    RangeCC,
    /// `,,`: neither end belongs to the range.
    RangeOO,
    /// `.,`: the lower end belongs to the range, the upper does not.
    RangeCO,
    /// `,.`: the upper end belongs to the range, the lower does not.
    RangeOC,
    /// `,` between the entries of a list.
    Comma,
    /// `!` before a constraint.
    Not,
    /// `[`
    LBrack,
    /// `]`
    RBrack,
    /// `(`
    LParen,
    /// `)`
    RParen,
    /// `|` before a constraint.
    Constraint,
    /// `*`: the value is a multiple of what follows.
    CMultOf,
    /// Anything else.
    Ignored,
}

} // verus!
