//! Tokens and their mathematical view.
use super::token_type::TokenType;
use vstd::prelude::*;

verus! {

/// One token of the source: its kind, its text and where it starts. Lines
/// count from 0, columns from 1.
#[derive(Debug, Clone)]
pub struct Token {
    pub token_type: TokenType,
    pub content: String,
    pub line: usize,
    pub column: usize,
}

/// A token as contracts speak of it.
pub struct TokenView {
    pub kind: TokenType,
    pub text: Seq<char>,
    pub line: usize,
    pub column: usize,
}

impl View for Token {
    type V = TokenView;

    open spec fn view(&self) -> TokenView {
        TokenView {
            kind: self.token_type,
            text: self.content@,
            line: self.line,
            column: self.column,
        }
    }
}

/// The views of a sequence of tokens.
pub open spec fn token_views(tokens: Seq<Token>) -> Seq<TokenView> {
    tokens.map_values(|t: Token| t@)
}

} // verus!
