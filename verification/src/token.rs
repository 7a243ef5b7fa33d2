//! Tokens: what the scanner produces and the parser consumes.

use vstd::prelude::*;

verus! {

/// The kind of a token.
#[derive(Debug, Clone, Copy, PartialEq, Eq, Structural)]
pub enum TokenType {
    // One-character tokens
    LeftParen,
    RightParen,
    LeftBrace,
    RightBrace,
    Comma,
    Dot,
    Minus,
    Plus,
    Semicolon,
    Slash,
    Star,
    QuestionMark,
    Colon,
    // One- or two-character tokens
    Bang,
    BangEqual,
    Equal,
    EqualEqual,
    Greater,
    GreaterEqual,
    Less,
    LessEqual,
    // Literals
    Identifier,
    Str,
    Number,
    // Keywords
    And,
    Class,
    Else,
    False,
    Func,
    For,
    If,
    Nil,
    Or,
    Print,
    Return,
    Super,
    This,
    True,
    Var,
    While,
    // End of input
    Eof,
}

/// The payload of a token.
///
/// A number carries its numeral, digit for digit: the exact decimal that the
/// source wrote. Turning a numeral into a binary floating-point number is left
/// to whoever holds the token.
#[derive(Debug, Clone, PartialEq, Eq)]
pub enum Literal {
    /// Punctuation, operators and the end of input carry nothing.
    Nothing,
    /// A string's text between its quotes, or the text of a word.
    Text(String),
    /// The numeral of a number.
    Number(String),
}

/// The mathematical value of a [`Literal`].
pub enum LiteralView {
    Nothing,
    Text(Seq<char>),
    Number(Seq<char>),
}

impl View for Literal {
    type V = LiteralView;

    open spec fn view(&self) -> LiteralView {
        match self {
            Literal::Nothing => LiteralView::Nothing,
            Literal::Text(s) => LiteralView::Text(s@),
            Literal::Number(s) => LiteralView::Number(s@),
        }
    }
}

impl Literal {
    /// A copy of this payload.
    pub fn duplicate(&self) -> (r: Literal)
        ensures
            r@ == self@,
    {
        match self {
            Literal::Nothing => Literal::Nothing,
            Literal::Text(s) => Literal::Text(s.clone()),
            Literal::Number(s) => Literal::Number(s.clone()),
        }
    }
}

/// One token of the source.
#[derive(Debug, Clone, PartialEq, Eq)]
pub struct Token {
    pub token_type: TokenType,
    /// The exact source text the token was scanned from.
    pub lexeme: String,
    pub literal: Literal,
    /// The line the token ends on, counted from 1.
    pub line: u32,
}

/// The mathematical value of a [`Token`].
pub struct TokenView {
    pub token_type: TokenType,
    pub lexeme: Seq<char>,
    pub literal: LiteralView,
    pub line: u32,
}

impl View for Token {
    type V = TokenView;

    open spec fn view(&self) -> TokenView {
        TokenView {
            token_type: self.token_type,
            lexeme: self.lexeme@,
            literal: self.literal@,
            line: self.line,
        }
    }
}

/// The views of a sequence of tokens, in order.
pub open spec fn token_views(tokens: Seq<Token>) -> Seq<TokenView> {
    tokens.map_values(|t: Token| t@)
}

impl Token {
    pub fn new(token_type: TokenType, lexeme: String, literal: Literal, line: u32) -> (t: Token)
        ensures
            t.token_type == token_type,
            t.lexeme == lexeme,
            t.literal == literal,
            t.line == line,
    {
        Token { token_type, lexeme, literal, line }
    }

    /// A copy of this token.
    pub fn duplicate(&self) -> (r: Token)
        ensures
            r@ == self@,
    {
        Token {
            token_type: self.token_type,
            lexeme: self.lexeme.clone(),
            literal: self.literal.duplicate(),
            line: self.line,
        }
    }
}

/// Whether `kinds` holds the kind `kind`.
pub open spec fn kind_among(kind: TokenType, kinds: Seq<TokenType>) -> bool {
    exists|i: int| 0 <= i < kinds.len() && kinds[i] == kind
}

/// Whether the kind of `t` is one of `types`.
pub fn token_matches(t: &Token, types: &[TokenType]) -> (found: bool)
    ensures
        found == kind_among(t.token_type, types@),
{
    let mut i: usize = 0;
    while i < types.len()
        invariant
            i <= types.len(),
            forall|j: int| 0 <= j < i ==> types@[j] != t.token_type,
        decreases types.len() - i,
    {
        if t.token_type == types[i] {
            return true;
        }
        i += 1;
    }
    false
}

} // verus!
