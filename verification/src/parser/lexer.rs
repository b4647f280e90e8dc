//! The lexer: one pass over the characters, left to right.
use super::token::{token_views, Token, TokenView};
use super::token_type::TokenType;
use vstd::prelude::*;

verus! {

/// The character at `i`, or NUL past either end: a character that starts
/// and continues nothing.
pub open spec fn char_at(s: Seq<char>, i: int) -> char {
    if 0 <= i < s.len() {
        s[i]
    } else {
        '\0'
    }
}

/// Whether `c` is one of `0` to `9`.
pub open spec fn is_digit_char(c: char) -> bool {
    '0' <= c <= '9'
}

/// Whether `c` can follow a `,` or a `.` to make a range operator.
pub open spec fn continues_range(c: char) -> bool {
    c == '.' || c == ','
}

/// The first index from `i` on that holds no digit.
pub open spec fn digits_end(s: Seq<char>, i: int) -> int
    decreases s.len() - i,
{
    if 0 <= i < s.len() && is_digit_char(s[i]) {
        digits_end(s, i + 1)
    } else {
        i
    }
}

/// Where the number ends whose first character is just before `i`: after
/// the digits from `i` on and, if a point and a digit follow them, after
/// the digits behind that point.
pub open spec fn number_end(s: Seq<char>, i: int) -> int {
    let e = digits_end(s, i);
    if char_at(s, e) == '.' && is_digit_char(char_at(s, e + 1)) {
        digits_end(s, e + 2)
    } else {
        e
    }
}

/// The kind of the range operator made of `c1` and `c2`.
pub open spec fn range_kind(c1: char, c2: char) -> TokenType {
    if c1 == '.' {
        if c2 == '.' {
            TokenType::RangeCC
        } else {
            TokenType::RangeCO
        }
    } else {
        if c2 == '.' {
            TokenType::RangeOC
        } else {
            TokenType::RangeOO
        }
    }
}

/// The kind of the token that starts at `pos`.
pub open spec fn kind_at(s: Seq<char>, pos: int) -> TokenType {
    let c = char_at(s, pos);
    let next = char_at(s, pos + 1);
    if c == '!' {
        TokenType::Not
    } else if c == '[' {
        TokenType::LBrack
    } else if c == ']' {
        TokenType::RBrack
    } else if c == '(' {
        TokenType::LParen
    } else if c == ')' {
        TokenType::RParen
    } else if c == '|' {
        TokenType::Constraint
    } else if c == '*' {
        TokenType::CMultOf
    } else if c == ',' {
        if continues_range(next) {
            range_kind(c, next)
        } else {
            TokenType::Comma
        }
    } else if c == '.' {
        if continues_range(next) {
            range_kind(c, next)
        } else {
            TokenType::Ignored
        }
    } else if is_digit_char(c) || c == '-' || c == '+' {
        TokenType::Number
    } else {
        TokenType::Ignored
    }
}

/// Where the token that starts at `pos` ends.
pub open spec fn end_at(s: Seq<char>, pos: int) -> int {
    let c = char_at(s, pos);
    if (c == ',' || c == '.') && continues_range(char_at(s, pos + 1)) {
        pos + 2
    } else if is_digit_char(c) || c == '-' || c == '+' {
        number_end(s, pos + 1)
    } else {
        pos + 1
    }
}

/// The tokens of `s` from `pos` on, where `line` and `column` are those of
/// the character just before `pos`.
pub open spec fn lex_from(s: Seq<char>, pos: int, line: int, column: int) -> Seq<TokenView>
    decreases s.len() - pos,
    when 0 <= pos
    via lex_from_decreases
{
    if pos >= s.len() {
        Seq::empty()
    } else {
        let end = end_at(s, pos);
        let kind = kind_at(s, pos);
        let rest = if s[pos] == '\n' {
            lex_from(s, end, line + 1, 0)
        } else {
            lex_from(s, end, line, column + (end - pos))
        };
        if kind == TokenType::Ignored {
            rest
        } else {
            seq![
                TokenView {
                    kind,
                    text: s.subrange(pos, end),
                    line: line as usize,
                    column: (column + 1) as usize,
                },
            ] + rest
        }
    }
}

#[via_fn]
proof fn lex_from_decreases(s: Seq<char>, pos: int, line: int, column: int) {
    if pos < s.len() {
        lemma_end_at_bounds(s, pos);
    }
}

/// The tokens of the text `s`.
pub open spec fn lex(s: Seq<char>) -> Seq<TokenView> {
    lex_from(s, 0, 0, 0)
}

/// Digits end no earlier than they start and no later than the text.
pub proof fn lemma_digits_end_bounds(s: Seq<char>, i: int)
    requires
        0 <= i <= s.len(),
    ensures
        i <= digits_end(s, i) <= s.len(),
        forall|k: int| i <= k < digits_end(s, i) ==> is_digit_char(#[trigger] s[k]),
        !is_digit_char(char_at(s, digits_end(s, i))),
    decreases s.len() - i,
{
    if i < s.len() && is_digit_char(s[i]) {
        lemma_digits_end_bounds(s, i + 1);
    }
}

/// Every token holds at least one character and ends within the text.
pub proof fn lemma_end_at_bounds(s: Seq<char>, pos: int)
    requires
        0 <= pos < s.len(),
    ensures
        pos < end_at(s, pos) <= s.len(),
{
    lemma_digits_end_bounds(s, pos + 1);
    let e = digits_end(s, pos + 1);
    if char_at(s, e) == '.' && is_digit_char(char_at(s, e + 1)) {
        lemma_digits_end_bounds(s, e + 2);
    }
}

/// No token handed out is of the kind `Ignored`, and each holds at least one
/// character of the text.
pub proof fn lemma_lex_keeps_only_tokens(s: Seq<char>, pos: int, line: int, column: int, i: int)
    requires
        0 <= pos,
        0 <= i < lex_from(s, pos, line, column).len(),
    ensures
        lex_from(s, pos, line, column)[i].kind != TokenType::Ignored,
        lex_from(s, pos, line, column)[i].text.len() > 0,
    decreases s.len() - pos,
{
    if pos < s.len() {
        lemma_end_at_bounds(s, pos);
        let end = end_at(s, pos);
        let kind = kind_at(s, pos);
        let next_line = if s[pos] == '\n' {
            line + 1
        } else {
            line
        };
        let next_column = if s[pos] == '\n' {
            0
        } else {
            column + (end - pos)
        };
        if kind == TokenType::Ignored {
            lemma_lex_keeps_only_tokens(s, end, next_line, next_column, i);
        } else if i > 0 {
            lemma_lex_keeps_only_tokens(s, end, next_line, next_column, i - 1);
        }
    }
}

/// The state of one pass over a text.
struct Lexer<'a> {
    source: &'a str,
    chars: Vec<char>,
    lexeme_start: usize,
    char_reading: usize,
    char_reading_value: char,
    line: usize,
    column: usize,
}

impl<'a> Lexer<'a> {
    /// What holds between two steps: the position lies within the text and
    /// neither counter has run ahead of it.
    spec fn wf(&self) -> bool {
        &&& self.chars@ == self.source@
        &&& self.char_reading <= self.chars.len()
        &&& self.lexeme_start <= self.char_reading
        &&& self.line <= self.char_reading
        &&& self.column <= self.char_reading
        &&& self.char_reading > 0 ==> self.char_reading_value == self.chars[self.char_reading - 1]
    }

    /// All tokens from the current position on.
    fn tokenize(self) -> (tokens: Vec<Token>)
        requires
            self.wf(),
        ensures
            token_views(tokens@) == lex_from(
                self.chars@,
                self.char_reading as int,
                self.line as int,
                self.column as int,
            ),
    {
        let mut lexer = self;
        let mut tokens: Vec<Token> = Vec::new();
        let ghost text = lexer.chars@;
        let ghost all = lex_from(
            text,
            lexer.char_reading as int,
            lexer.line as int,
            lexer.column as int,
        );
        while !lexer.is_eof()
            invariant
                lexer.wf(),
                lexer.chars@ == text,
                all == token_views(tokens@) + lex_from(
                    text,
                    lexer.char_reading as int,
                    lexer.line as int,
                    lexer.column as int,
                ),
            decreases text.len() - lexer.char_reading,
        {
            lexer.lexeme_start = lexer.char_reading;
            let ghost before = token_views(tokens@);
            proof {
                lemma_end_at_bounds(text, lexer.char_reading as int);
            }
            let t = lexer.scan_token();
            if t.token_type != TokenType::Ignored {
                let ghost view = t@;
                tokens.push(t);
                assert(token_views(tokens@) == before + seq![view]);
            }
        }
        tokens
    }

    /// The token that starts at the current position.
    fn scan_token(&mut self) -> (token: Token)
        requires
            old(self).wf(),
            old(self).char_reading < old(self).chars.len(),
            old(self).lexeme_start == old(self).char_reading,
        ensures
            final(self).wf(),
            final(self).chars@ == old(self).chars@,
            final(self).char_reading == end_at(old(self).chars@, old(self).char_reading as int),
            token@ == (TokenView {
                kind: kind_at(old(self).chars@, old(self).char_reading as int),
                text: old(self).chars@.subrange(
                    old(self).char_reading as int,
                    final(self).char_reading as int,
                ),
                line: old(self).line,
                column: (old(self).column + 1) as usize,
            }),
            old(self).chars[old(self).char_reading as int] == '\n' ==> final(self).line
                == old(self).line + 1 && final(self).column == 0,
            old(self).chars[old(self).char_reading as int] != '\n' ==> final(self).line == old(
                self,
            ).line && final(self).column == old(self).column + (final(self).char_reading - old(
                self,
            ).char_reading),
    {
        proof {
            lemma_end_at_bounds(self.chars@, self.char_reading as int);
        }
        let start = self.char_reading;
        let c = self.advance();
        let line = self.line;
        let column = self.column;
        let mut token_type = TokenType::Ignored;
        match c {
            '!' => {
                token_type = TokenType::Not;
            },
            '[' => {
                token_type = TokenType::LBrack;
            },
            ']' => {
                token_type = TokenType::RBrack;
            },
            '(' => {
                token_type = TokenType::LParen;
            },
            ')' => {
                token_type = TokenType::RParen;
            },
            '|' => {
                token_type = TokenType::Constraint;
            },
            '*' => {
                token_type = TokenType::CMultOf;
            },
            ',' => {
                let next = self.peek();
                if next == '.' || next == ',' {
                    token_type = self.read_range();
                } else {
                    token_type = TokenType::Comma;
                }
            },
            '.' => {
                let next = self.peek();
                if next == '.' || next == ',' {
                    token_type = self.read_range();
                }
            },
            '\n' => {
                self.line += 1;
                self.column = 0;
            },
            _ => {
                if self.is_digit(c) || c == '-' || c == '+' {
                    token_type = self.read_numeric();
                }
            },
        }
        let content = self.source.substring_char(start, self.char_reading).to_owned();
        Token { token_type, content, line, column }
    }

    /// Reads the second character of a range operator and tells its kind.
    fn read_range(&mut self) -> (kind: TokenType)
        requires
            old(self).wf(),
            0 < old(self).char_reading < old(self).chars.len(),
            old(self).char_reading_value == ',' || old(self).char_reading_value == '.',
            continues_range(old(self).chars[old(self).char_reading as int]),
        ensures
            final(self).wf(),
            final(self).chars@ == old(self).chars@,
            final(self).source == old(self).source,
            final(self).lexeme_start == old(self).lexeme_start,
            final(self).char_reading == old(self).char_reading + 1,
            final(self).line == old(self).line,
            final(self).column == old(self).column + 1,
            kind == range_kind(
                old(self).char_reading_value,
                old(self).chars[old(self).char_reading as int],
            ),
    {
        let c1 = self.char_reading_value;
        let c2 = self.advance();
        if c1 == '.' {
            if c2 == '.' {
                TokenType::RangeCC
            } else {
                TokenType::RangeCO
            }
        } else {
            if c2 == '.' {
                TokenType::RangeOC
            } else {
                TokenType::RangeOO
            }
        }
    }

    /// Reads the rest of a number: digits, then a point and more digits
    /// where a digit follows the point.
    fn read_numeric(&mut self) -> (kind: TokenType)
        requires
            old(self).wf(),
        ensures
            final(self).wf(),
            final(self).chars@ == old(self).chars@,
            final(self).source == old(self).source,
            final(self).lexeme_start == old(self).lexeme_start,
            final(self).char_reading == number_end(old(self).chars@, old(self).char_reading as int),
            final(self).line == old(self).line,
            final(self).column == old(self).column + (final(self).char_reading - old(
                self,
            ).char_reading),
            kind == TokenType::Number,
    {
        self.read_digits();
        if self.peek() == '.' && self.is_digit(self.peek_next()) {
            self.advance();
            self.read_digits();
        }
        TokenType::Number
    }

    /// Moves past the digits at the current position.
    fn read_digits(&mut self)
        requires
            old(self).wf(),
        ensures
            final(self).wf(),
            final(self).chars@ == old(self).chars@,
            final(self).source == old(self).source,
            final(self).lexeme_start == old(self).lexeme_start,
            final(self).char_reading == digits_end(old(self).chars@, old(self).char_reading as int),
            final(self).line == old(self).line,
            final(self).column == old(self).column + (final(self).char_reading - old(
                self,
            ).char_reading),
    {
        let ghost text = self.chars@;
        let ghost target = digits_end(text, self.char_reading as int);
        let ghost first = self.char_reading;
        let ghost first_column = self.column;
        while self.is_digit(self.peek())
            invariant
                self.wf(),
                self.chars@ == text,
                self.source == old(self).source,
                self.lexeme_start == old(self).lexeme_start,
                self.line == old(self).line,
                first <= self.char_reading,
                self.column == first_column + (self.char_reading - first),
                digits_end(text, self.char_reading as int) == target,
            decreases text.len() - self.char_reading,
        {
            self.advance();
        }
    }

    /// Whether the whole text has been read.
    fn is_eof(&self) -> (r: bool)
        ensures
            r == (self.char_reading >= self.chars.len()),
    {
        self.char_reading >= self.chars.len()
    }

    /// Whether `c` is a decimal digit.
    fn is_digit(&self, c: char) -> (r: bool)
        ensures
            r == is_digit_char(c),
    {
        c >= '0' && c <= '9'
    }

    /// The character at the current position, NUL at the end.
    fn peek(&self) -> (c: char)
        requires
            self.wf(),
        ensures
            c == char_at(self.chars@, self.char_reading as int),
    {
        if self.char_reading < self.chars.len() {
            self.chars[self.char_reading]
        } else {
            '\0'
        }
    }

    /// The character after the current position, NUL past the end.
    fn peek_next(&self) -> (c: char)
        requires
            self.wf(),
        ensures
            c == char_at(self.chars@, self.char_reading + 1),
    {
        if self.char_reading < self.chars.len() && self.char_reading + 1 < self.chars.len() {
            self.chars[self.char_reading + 1]
        } else {
            '\0'
        }
    }

    /// Takes the character at the current position.
    fn advance(&mut self) -> (c: char)
        requires
            old(self).wf(),
            old(self).char_reading < old(self).chars.len(),
        ensures
            final(self).wf(),
            final(self).chars@ == old(self).chars@,
            final(self).source == old(self).source,
            final(self).lexeme_start == old(self).lexeme_start,
            final(self).char_reading == old(self).char_reading + 1,
            final(self).line == old(self).line,
            final(self).column == old(self).column + 1,
            final(self).char_reading_value == c,
            c == old(self).chars[old(self).char_reading as int],
    {
        self.column += 1;
        self.char_reading += 1;
        self.char_reading_value = self.chars[self.char_reading - 1];
        self.char_reading_value
    }
}

/// Splits `source` into its tokens. Text that means nothing to the language
/// is passed over, so every text has tokens, possibly none.
pub fn tokenize(source: &str) -> (tokens: Vec<Token>)
    ensures
        token_views(tokens@) == lex(source@),
        forall|i: int|
            0 <= i < tokens@.len() ==> (#[trigger] tokens@[i]).token_type != TokenType::Ignored,
{
    let mut chars: Vec<char> = Vec::new();
    for c in it: source.chars()
        invariant
            chars@ == it.seq().take(it.index()),
            it.seq() == source@,
    {
        chars.push(c);
    }
    assert(chars@ == source@);
    let lexer = Lexer {
        source,
        chars,
        lexeme_start: 0,
        char_reading: 0,
        char_reading_value: '\0',
        line: 0,
        column: 0,
    };
    let tokens = lexer.tokenize();
    assert forall|i: int| 0 <= i < tokens@.len() implies (#[trigger] tokens@[i]).token_type
        != TokenType::Ignored by {
        lemma_lex_keeps_only_tokens(source@, 0, 0, 0, i);
        assert(token_views(tokens@)[i] == tokens@[i]@);
    }
    tokens
}

} // verus!
