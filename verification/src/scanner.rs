//! The scanner: source text to tokens.
//!
//! [`lex`] says which tokens a source text has, or which error stops the
//! scan; [`Scanner`] computes them in one pass from left to right.

use crate::text::{all_digits, chars_of, decimal, is_digit_char, push_decimal, text_of};
use crate::{err, err_text};
use crate::token::{token_views, Literal, LiteralView, Token, TokenType, TokenView};
use vstd::prelude::*;
use vstd::string::StringExecFns;

verus! {

/// Why a scan stopped.
#[derive(Debug, Clone, Copy, PartialEq, Eq, Structural)]
pub enum LexError {
    /// A character that begins no token.
    UnexpectedCharacter { character: char, line: u32 },
    /// A string whose closing quote is missing; the line is the last one.
    UnterminatedString { line: u32 },
}

/// Whether `c` is a letter of the alphabet or `_`.
pub open spec fn is_alpha_char(c: char) -> bool {
    ('a' <= c && c <= 'z') || ('A' <= c && c <= 'Z') || c == '_'
}

/// Whether `c` may stand inside a word.
pub open spec fn is_alphanumeric_char(c: char) -> bool {
    is_digit_char(c) || is_alpha_char(c)
}

/// The end of the longest run of digits that begins at `i`.
pub open spec fn digits_end(s: Seq<char>, i: int) -> int
    decreases s.len() - i,
{
    if 0 <= i < s.len() && is_digit_char(s[i]) {
        digits_end(s, i + 1)
    } else {
        i
    }
}

/// The end of the longest run of word characters that begins at `i`.
pub open spec fn word_end(s: Seq<char>, i: int) -> int
    decreases s.len() - i,
{
    if 0 <= i < s.len() && is_alphanumeric_char(s[i]) {
        word_end(s, i + 1)
    } else {
        i
    }
}

/// The place of the first `c` at or after `i`; the length of `s` if there is
/// none.
pub open spec fn find_char(s: Seq<char>, i: int, c: char) -> int
    decreases s.len() - i,
{
    if 0 <= i < s.len() && s[i] != c {
        find_char(s, i + 1, c)
    } else {
        i
    }
}

/// The number of line feeds in `s[from..to]`.
pub open spec fn newlines(s: Seq<char>, from: int, to: int) -> nat
    decreases to - from,
{
    if from >= to {
        0
    } else {
        newlines(s, from, to - 1) + if s[to - 1] == '\n' {
            1nat
        } else {
            0nat
        }
    }
}

/// The place just after the first `*/` that begins at or after `i`; the
/// length of `s` if there is none.
pub open spec fn comment_end(s: Seq<char>, i: int) -> int
    decreases s.len() - i,
{
    if i < 0 || i + 1 >= s.len() {
        s.len() as int
    } else if s[i] == '*' && s[i + 1] == '/' {
        i + 2
    } else {
        comment_end(s, i + 1)
    }
}

/// The end of the numeral that begins at `i`: a run of digits, and after it
/// a `.` with a further run of digits where the `.` has a digit behind it.
pub open spec fn number_end(s: Seq<char>, i: int) -> int {
    let d = digits_end(s, i);
    if d + 1 < s.len() && s[d] == '.' && is_digit_char(s[d + 1]) {
        digits_end(s, d + 1)
    } else {
        d
    }
}

/// The reserved words, each with the kind of its token.
pub open spec fn reserved_words() -> Seq<(Seq<char>, TokenType)> {
    seq![
        ("and"@, TokenType::And),
        ("class"@, TokenType::Class),
        ("else"@, TokenType::Else),
        ("false"@, TokenType::False),
        ("for"@, TokenType::For),
        ("func"@, TokenType::Func),
        ("if"@, TokenType::If),
        ("nil"@, TokenType::Nil),
        ("or"@, TokenType::Or),
        ("print"@, TokenType::Print),
        ("return"@, TokenType::Return),
        ("super"@, TokenType::Super),
        ("this"@, TokenType::This),
        ("true"@, TokenType::True),
        ("var"@, TokenType::Var),
        ("while"@, TokenType::While),
    ]
}

/// The kind that the first `n` entries of `table` give to the word `text`:
/// that of the first entry with this word.
pub open spec fn lookup(table: Seq<(Seq<char>, TokenType)>, n: int, text: Seq<char>) -> Option<
    TokenType,
>
    decreases n,
{
    if n <= 0 || n > table.len() {
        None
    } else {
        match lookup(table, n - 1, text) {
            Some(kind) => Some(kind),
            None => if table[n - 1].0 == text {
                Some(table[n - 1].1)
            } else {
                None
            },
        }
    }
}

/// The kind of the reserved word `text`, if it is one.
pub open spec fn keyword_kind(text: Seq<char>) -> Option<TokenType> {
    lookup(reserved_words(), reserved_words().len() as int, text)
}

/// The kind of the token that the character `c` is by itself.
pub open spec fn single_kind(c: char) -> Option<TokenType> {
    if c == '(' {
        Some(TokenType::LeftParen)
    } else if c == ')' {
        Some(TokenType::RightParen)
    } else if c == '{' {
        Some(TokenType::LeftBrace)
    } else if c == '}' {
        Some(TokenType::RightBrace)
    } else if c == ',' {
        Some(TokenType::Comma)
    } else if c == '.' {
        Some(TokenType::Dot)
    } else if c == '-' {
        Some(TokenType::Minus)
    } else if c == '+' {
        Some(TokenType::Plus)
    } else if c == ';' {
        Some(TokenType::Semicolon)
    } else if c == '*' {
        Some(TokenType::Star)
    } else if c == '?' {
        Some(TokenType::QuestionMark)
    } else if c == ':' {
        Some(TokenType::Colon)
    } else {
        None
    }
}

/// For a character that begins an operator of one or two characters: the
/// kind of the operator alone, and its kind with `=` behind it.
pub open spec fn operator_kinds(c: char) -> Option<(TokenType, TokenType)> {
    if c == '!' {
        Some((TokenType::Bang, TokenType::BangEqual))
    } else if c == '=' {
        Some((TokenType::Equal, TokenType::EqualEqual))
    } else if c == '<' {
        Some((TokenType::Less, TokenType::LessEqual))
    } else if c == '>' {
        Some((TokenType::Greater, TokenType::GreaterEqual))
    } else {
        None
    }
}

/// The line that is `feeds` line feeds after `line`. The count of lines
/// stops at the greatest number that 32 bits hold.
pub open spec fn bump(line: u32, feeds: nat) -> u32 {
    if line + feeds > u32::MAX {
        u32::MAX
    } else {
        (line + feeds) as u32
    }
}

/// What one step of the scan found: a token or none, where the scan goes
/// on, and the line it is on there.
pub struct Step {
    pub token: Option<TokenView>,
    pub next: int,
    pub line: u32,
}

/// The token of kind `kind` made of `s[from..to]`, without payload.
pub open spec fn plain_token(s: Seq<char>, from: int, to: int, kind: TokenType, line: u32) -> Step {
    Step {
        token: Some(
            TokenView {
                token_type: kind,
                lexeme: s.subrange(from, to),
                literal: LiteralView::Nothing,
                line,
            },
        ),
        next: to,
        line,
    }
}

/// A step that found no token.
pub open spec fn skip(next: int, line: u32) -> Step {
    Step { token: None, next, line }
}

/// What begins with a `/` at `pos`: a comment to the end of the line, whose
/// line feed is left for the next step; a comment from `/*` to `*/`, or to the
/// end of the text where it is never closed; or the token `/`.
pub open spec fn slash_step(s: Seq<char>, pos: int, line: u32) -> Step {
    if pos + 1 < s.len() && s[pos + 1] == '/' {
        skip(find_char(s, pos + 2, '\n'), line)
    } else if pos + 1 < s.len() && s[pos + 1] == '*' {
        let end = comment_end(s, pos + 2);
        skip(end, bump(line, newlines(s, pos + 2, end)))
    } else {
        plain_token(s, pos, pos + 1, TokenType::Slash, line)
    }
}

/// What begins with a `"` at `pos`: a string up to the next `"`. Its lexeme
/// has both quotes, its payload is the text between them, and its line is the
/// one that the closing quote stands on.
pub open spec fn string_step(s: Seq<char>, pos: int, line: u32) -> Result<Step, LexError> {
    let close = find_char(s, pos + 1, '"');
    let last_line = bump(line, newlines(s, pos + 1, close));
    if close >= s.len() {
        Err(LexError::UnterminatedString { line: last_line })
    } else {
        Ok(
            Step {
                token: Some(
                    TokenView {
                        token_type: TokenType::Str,
                        lexeme: s.subrange(pos, close + 1),
                        literal: LiteralView::Text(s.subrange(pos + 1, close)),
                        line: last_line,
                    },
                ),
                next: close + 1,
                line: last_line,
            },
        )
    }
}

/// What begins with a digit at `pos`: a number, whose payload is its numeral.
pub open spec fn number_step(s: Seq<char>, pos: int, line: u32) -> Step {
    let end = number_end(s, pos);
    Step {
        token: Some(
            TokenView {
                token_type: TokenType::Number,
                lexeme: s.subrange(pos, end),
                literal: LiteralView::Number(s.subrange(pos, end)),
                line,
            },
        ),
        next: end,
        line,
    }
}

/// What begins with a letter or `_` at `pos`: the longest word. A reserved
/// word is a token of its own kind; any other word is a token of kind `Str`.
/// Either way the payload is the word.
pub open spec fn word_step(s: Seq<char>, pos: int, line: u32) -> Step {
    let end = word_end(s, pos);
    let text = s.subrange(pos, end);
    Step {
        token: Some(
            TokenView {
                token_type: match keyword_kind(text) {
                    Some(kind) => kind,
                    None => TokenType::Str,
                },
                lexeme: text,
                literal: LiteralView::Text(text),
                line,
            },
        ),
        next: end,
        line,
    }
}

/// One step of the scan of `s`, at `pos` on line `line`.
pub open spec fn scan_step(s: Seq<char>, pos: int, line: u32) -> Result<Step, LexError>
    recommends
        0 <= pos < s.len(),
{
    let c = s[pos];
    if single_kind(c) is Some {
        Ok(plain_token(s, pos, pos + 1, single_kind(c)->Some_0, line))
    } else if operator_kinds(c) is Some {
        if pos + 1 < s.len() && s[pos + 1] == '=' {
            Ok(plain_token(s, pos, pos + 2, operator_kinds(c)->Some_0.1, line))
        } else {
            Ok(plain_token(s, pos, pos + 1, operator_kinds(c)->Some_0.0, line))
        }
    } else if c == '/' {
        Ok(slash_step(s, pos, line))
    } else if c == ' ' || c == '\r' || c == '\t' {
        Ok(skip(pos + 1, line))
    } else if c == '\n' {
        Ok(skip(pos + 1, bump(line, 1)))
    } else if c == '"' {
        string_step(s, pos, line)
    } else if is_digit_char(c) {
        Ok(number_step(s, pos, line))
    } else if is_alpha_char(c) {
        Ok(word_step(s, pos, line))
    } else {
        Err(LexError::UnexpectedCharacter { character: c, line })
    }
}

/// The token that ends every scan, on line `line`.
pub open spec fn eof_token(line: u32) -> TokenView {
    TokenView {
        token_type: TokenType::Eof,
        lexeme: Seq::empty(),
        literal: LiteralView::Nothing,
        line,
    }
}

/// The tokens of `s` from `pos` on, which is on line `line`, with the end
/// token behind them; or the first error.
pub open spec fn scan_from(s: Seq<char>, pos: int, line: u32) -> Result<Seq<TokenView>, LexError>
    decreases s.len() - pos,
{
    if pos < 0 || pos >= s.len() {
        Ok(seq![eof_token(line)])
    } else {
        match scan_step(s, pos, line) {
            Err(e) => Err(e),
            Ok(step) => {
                proof {
                    lemma_step_bounds(s, pos, line);
                }
                match scan_from(s, step.next, step.line) {
                    Err(e) => Err(e),
                    Ok(rest) => Ok(
                        match step.token {
                            Some(t) => seq![t] + rest,
                            None => rest,
                        },
                    ),
                }
            },
        }
    }
}

/// The tokens of the source text `s`, or the error that stops the scan.
pub open spec fn lex(s: Seq<char>) -> Result<Seq<TokenView>, LexError> {
    scan_from(s, 0, 1)
}

/// A run of digits ends within the text, at or after its beginning, and
/// holds digits only.
pub proof fn lemma_digits_end(s: Seq<char>, i: int)
    requires
        0 <= i <= s.len(),
    ensures
        i <= digits_end(s, i) <= s.len(),
        forall|j: int| i <= j < digits_end(s, i) ==> is_digit_char(#[trigger] s[j]),
        digits_end(s, i) < s.len() ==> !is_digit_char(s[digits_end(s, i)]),
    decreases s.len() - i,
{
    if i < s.len() && is_digit_char(s[i]) {
        lemma_digits_end(s, i + 1);
    }
}

/// A word ends within the text, at or after its beginning.
pub proof fn lemma_word_end(s: Seq<char>, i: int)
    requires
        0 <= i <= s.len(),
    ensures
        i <= word_end(s, i) <= s.len(),
    decreases s.len() - i,
{
    if i < s.len() && is_alphanumeric_char(s[i]) {
        lemma_word_end(s, i + 1);
    }
}

/// A character is found within the text, or at its end.
pub proof fn lemma_find_char(s: Seq<char>, i: int, c: char)
    requires
        0 <= i <= s.len(),
    ensures
        i <= find_char(s, i, c) <= s.len(),
    decreases s.len() - i,
{
    if i < s.len() && s[i] != c {
        lemma_find_char(s, i + 1, c);
    }
}

/// A comment ends within the text, at or after its beginning.
pub proof fn lemma_comment_end(s: Seq<char>, i: int)
    requires
        0 <= i <= s.len(),
    ensures
        i <= comment_end(s, i) <= s.len(),
    decreases s.len() - i,
{
    if i + 1 < s.len() && !(s[i] == '*' && s[i + 1] == '/') {
        lemma_comment_end(s, i + 1);
    }
}

/// A stretch of text has no more line feeds than characters.
pub proof fn lemma_newlines_bound(s: Seq<char>, from: int, to: int)
    ensures
        from <= to ==> newlines(s, from, to) <= to - from,
        from >= to ==> newlines(s, from, to) == 0,
    decreases to - from,
{
    if from < to {
        lemma_newlines_bound(s, from, to - 1);
    }
}

/// A numeral ends within the text, after its first digit.
pub proof fn lemma_number_end(s: Seq<char>, i: int)
    requires
        0 <= i < s.len(),
        is_digit_char(s[i]),
    ensures
        i < number_end(s, i) <= s.len(),
{
    lemma_digits_end(s, i + 1);
    let d = digits_end(s, i);
    if d + 1 < s.len() {
        lemma_digits_end(s, d + 1);
    }
}

/// Every step of the scan moves on, stays within the text, and does not
/// lower the line.
pub proof fn lemma_step_bounds(s: Seq<char>, pos: int, line: u32)
    requires
        0 <= pos < s.len(),
    ensures
        scan_step(s, pos, line) matches Ok(step) ==> pos < step.next <= s.len() && line
            <= step.line,
{
    let c = s[pos];
    if single_kind(c) is Some {
    } else if operator_kinds(c) is Some {
    } else if c == '/' {
        if pos + 1 < s.len() && s[pos + 1] == '/' {
            lemma_find_char(s, pos + 2, '\n');
        } else if pos + 1 < s.len() && s[pos + 1] == '*' {
            lemma_comment_end(s, pos + 2);
            lemma_newlines_bound(s, pos + 2, comment_end(s, pos + 2));
        }
    } else if c == ' ' || c == '\r' || c == '\t' {
    } else if c == '\n' {
    } else if c == '"' {
        lemma_find_char(s, pos + 1, '"');
        lemma_newlines_bound(s, pos + 1, find_char(s, pos + 1, '"'));
    } else if is_digit_char(c) {
        lemma_number_end(s, pos);
    } else if is_alpha_char(c) {
        lemma_word_end(s, pos + 1);
    }
}


/// Once a word is found among the first entries of a table, more entries do
/// not change what it is found as.
pub proof fn lemma_lookup_stable(
    table: Seq<(Seq<char>, TokenType)>,
    n: int,
    m: int,
    text: Seq<char>,
)
    requires
        0 <= n <= m <= table.len(),
        lookup(table, n, text) is Some,
    ensures
        lookup(table, m, text) == lookup(table, n, text),
    decreases m - n,
{
    if n < m {
        lemma_lookup_stable(table, n, m - 1, text);
    }
}

/// The views of the entries of a table of words.
pub open spec fn table_view(table: Seq<(String, TokenType)>) -> Seq<(Seq<char>, TokenType)> {
    table.map_values(|entry: (String, TokenType)| (entry.0@, entry.1))
}

/// Whether `c` is a decimal digit.
pub fn is_digit(c: char) -> (b: bool)
    ensures
        b == is_digit_char(c),
{
    c >= '0' && c <= '9'
}

/// Whether `c` is a letter of the alphabet or `_`.
pub fn is_alpha(c: char) -> (b: bool)
    ensures
        b == is_alpha_char(c),
{
    (c >= 'a' && c <= 'z') || (c >= 'A' && c <= 'Z') || (c == '_')
}

/// Whether `c` may stand inside a word.
pub fn is_alphanumeric(c: char) -> (b: bool)
    ensures
        b == is_alphanumeric_char(c),
{
    is_digit(c) || is_alpha(c)
}

/// The table of the reserved words.
pub fn reserved_identifiers() -> (table: Vec<(String, TokenType)>)
    ensures
        table_view(table@) == reserved_words(),
{
    let mut table: Vec<(String, TokenType)> = Vec::new();
    table.push((String::from_str("and"), TokenType::And));
    table.push((String::from_str("class"), TokenType::Class));
    table.push((String::from_str("else"), TokenType::Else));
    table.push((String::from_str("false"), TokenType::False));
    table.push((String::from_str("for"), TokenType::For));
    table.push((String::from_str("func"), TokenType::Func));
    table.push((String::from_str("if"), TokenType::If));
    table.push((String::from_str("nil"), TokenType::Nil));
    table.push((String::from_str("or"), TokenType::Or));
    table.push((String::from_str("print"), TokenType::Print));
    table.push((String::from_str("return"), TokenType::Return));
    table.push((String::from_str("super"), TokenType::Super));
    table.push((String::from_str("this"), TokenType::This));
    table.push((String::from_str("true"), TokenType::True));
    table.push((String::from_str("var"), TokenType::Var));
    table.push((String::from_str("while"), TokenType::While));
    assert(table_view(table@) =~= reserved_words());
    table
}

fn next_line(line: u32) -> (r: u32)
    ensures
        r == bump(line, 1),
{
    if line < u32::MAX {
        line + 1
    } else {
        line
    }
}

fn single(c: char) -> (k: Option<TokenType>)
    ensures
        k == single_kind(c),
{
    if c == '(' {
        Some(TokenType::LeftParen)
    } else if c == ')' {
        Some(TokenType::RightParen)
    } else if c == '{' {
        Some(TokenType::LeftBrace)
    } else if c == '}' {
        Some(TokenType::RightBrace)
    } else if c == ',' {
        Some(TokenType::Comma)
    } else if c == '.' {
        Some(TokenType::Dot)
    } else if c == '-' {
        Some(TokenType::Minus)
    } else if c == '+' {
        Some(TokenType::Plus)
    } else if c == ';' {
        Some(TokenType::Semicolon)
    } else if c == '*' {
        Some(TokenType::Star)
    } else if c == '?' {
        Some(TokenType::QuestionMark)
    } else if c == ':' {
        Some(TokenType::Colon)
    } else {
        None
    }
}

fn operators(c: char) -> (k: Option<(TokenType, TokenType)>)
    ensures
        k == operator_kinds(c),
{
    if c == '!' {
        Some((TokenType::Bang, TokenType::BangEqual))
    } else if c == '=' {
        Some((TokenType::Equal, TokenType::EqualEqual))
    } else if c == '<' {
        Some((TokenType::Less, TokenType::LessEqual))
    } else if c == '>' {
        Some((TokenType::Greater, TokenType::GreaterEqual))
    } else {
        None
    }
}

proof fn lemma_token_views_push(tokens: Seq<Token>, token: Token)
    ensures
        token_views(tokens.push(token)) == token_views(tokens).push(token@),
{
    assert(token_views(tokens.push(token)) =~= token_views(tokens).push(token@));
}

/// The state of a scan: the source, the tokens found so far, where the
/// token under way began, where the scan stands, and the line it is on.
pub struct Scanner {
    pub source: Vec<char>,
    pub tokens: Vec<Token>,
    pub start: usize,
    pub cur: usize,
    pub line: u32,
    pub reserved_identifiers: Vec<(String, TokenType)>,
}

impl Scanner {
    /// The source text.
    pub open spec fn text(&self) -> Seq<char> {
        self.source@
    }

    /// Whether the scanner holds the table of the reserved words.
    pub open spec fn well_formed(&self) -> bool {
        table_view(self.reserved_identifiers@) == reserved_words()
    }

    /// Whether `other` is a scan of the same source.
    pub open spec fn same_source(&self, other: &Scanner) -> bool {
        self.source == other.source && self.reserved_identifiers == other.reserved_identifiers
    }

    /// A scanner at the beginning of `source`, on line 1, with no token yet.
    pub fn new(source: String) -> (s: Scanner)
        ensures
            s.text() == source@,
            s.well_formed(),
            s.tokens@.len() == 0,
            s.start == 0,
            s.cur == 0,
            s.line == 1,
    {
        Scanner {
            source: chars_of(source.as_str()),
            tokens: Vec::new(),
            start: 0,
            cur: 0,
            line: 1,
            reserved_identifiers: reserved_identifiers(),
        }
    }

    /// Scans the source from where the scanner stands to its end, and adds
    /// the tokens found, and the end token behind them, to those that the
    /// scanner holds. The first error ends the scan.
    pub fn scan_tokens(&mut self) -> (r: Result<(), LexError>)
        requires
            old(self).well_formed(),
        ensures
            final(self).same_source(old(self)),
            final(self).text() == old(self).text(),
            final(self).well_formed(),
            match scan_from(old(self).text(), old(self).cur as int, old(self).line) {
                Ok(tokens) => {
                    &&& r is Ok
                    &&& token_views(final(self).tokens@) == token_views(old(self).tokens@) + tokens
                    &&& final(self).line == tokens.last().line
                    &&& final(self).cur == if old(self).cur < old(self).source.len() {
                        old(self).source.len()
                    } else {
                        old(self).cur
                    }
                },
                Err(e) => r == Err::<(), LexError>(e),
            },
    {
        let ghost s = self.source@;
        let ghost goal = scan_from(s, self.cur as int, self.line);
        let ghost before = token_views(self.tokens@);
        while self.cur < self.source.len()
            invariant
                self.same_source(old(self)),
                self.source@ == s,
                self.well_formed(),
                goal == scan_from(old(self).text(), old(self).cur as int, old(self).line),
                before == token_views(old(self).tokens@),
                match scan_from(s, self.cur as int, self.line) {
                    Ok(tokens) => goal == Ok::<Seq<TokenView>, LexError>(
                        token_views(self.tokens@).subrange(
                            before.len() as int,
                            self.tokens@.len() as int,
                        ) + tokens,
                    ),
                    Err(e) => goal == Err::<Seq<TokenView>, LexError>(e),
                },
                before.len() <= self.tokens@.len(),
                token_views(self.tokens@).subrange(0, before.len() as int) == before,
                self.cur <= s.len() || self.cur == old(self).cur,
                old(self).cur <= self.cur,
            decreases s.len() - self.cur,
        {
            self.start = self.cur;
            let ghost pos = self.cur as int;
            let ghost line = self.line;
            let ghost held = token_views(self.tokens@);
            proof {
                lemma_step_bounds(s, pos, line);
            }
            let res = self.scan_token();
            if res.is_err() {
                return res;
            }
            proof {
                let step = scan_step(s, pos, line)->Ok_0;
                let now = token_views(self.tokens@);
                assert(now.len() == self.tokens@.len());
                assert(held.len() >= before.len());
                match scan_from(s, step.next, step.line) {
                    Ok(rest) => {
                        match step.token {
                            Some(t) => {
                                assert(now.subrange(before.len() as int, now.len() as int) + rest
                                    =~= held.subrange(before.len() as int, held.len() as int) + (
                                seq![t] + rest));
                            },
                            None => {},
                        }
                    },
                    Err(e) => {},
                }
                assert(now.subrange(0, before.len() as int) =~= before);
            }
        }
        let ghost held = token_views(self.tokens@);
        let eof = Token::new(TokenType::Eof, String::new(), Literal::Nothing, self.line);
        proof {
            lemma_token_views_push(self.tokens@, eof);
        }
        self.tokens.push(eof);
        proof {
            let now = token_views(self.tokens@);
            assert(now =~= before + (held.subrange(before.len() as int, held.len() as int)
                + seq![eof_token(self.line)]));
        }
        Ok(())
    }

    /// Scans one token, or one stretch of what is no token, at `cur`.
    fn scan_token(&mut self) -> (r: Result<(), LexError>)
        requires
            old(self).well_formed(),
            old(self).start == old(self).cur,
            old(self).cur < old(self).source.len(),
        ensures
            final(self).same_source(old(self)),
            final(self).text() == old(self).text(),
            final(self).well_formed(),
            match scan_step(old(self).text(), old(self).cur as int, old(self).line) {
                Ok(step) => r is Ok && final(self).cur == step.next && final(self).line
                    == step.line && token_views(final(self).tokens@) == (match step.token {
                    Some(t) => token_views(old(self).tokens@).push(t),
                    None => token_views(old(self).tokens@),
                }),
                Err(e) => r == Err::<(), LexError>(e),
            },
    {
        let c = self.advance();
        match single(c) {
            Some(kind) => {
                self.add_token(kind);
                return Ok(());
            },
            None => {},
        }
        match operators(c) {
            Some((alone, with_equal)) => {
                let kind = if self.match_char('=') {
                    with_equal
                } else {
                    alone
                };
                self.add_token(kind);
                return Ok(());
            },
            None => {},
        }
        if c == '/' {
            if self.match_char('/') {
                self.line_comment();
            } else if self.match_char('*') {
                self.block_comment();
            } else {
                self.add_token(TokenType::Slash);
            }
            Ok(())
        } else if c == ' ' || c == '\r' || c == '\t' {
            Ok(())
        } else if c == '\n' {
            self.line = next_line(self.line);
            Ok(())
        } else if c == '"' {
            self.string()
        } else if is_digit(c) {
            self.number();
            Ok(())
        } else if is_alpha(c) {
            self.identifier();
            Ok(())
        } else {
            Err(LexError::UnexpectedCharacter { character: c, line: self.line })
        }
    }

    /// Skips the rest of the line; the line feed stays.
    fn line_comment(&mut self)
        requires
            old(self).cur <= old(self).source.len(),
        ensures
            *final(self) == (Scanner {
                cur: find_char(old(self).text(), old(self).cur as int, '\n') as usize,
                ..*old(self)
            }),
            final(self).cur == find_char(old(self).text(), old(self).cur as int, '\n'),
    {
        proof {
            lemma_find_char(self.source@, self.cur as int, '\n');
        }
        while self.peek() != '\n' && self.cur < self.source.len()
            invariant
                self.cur <= self.source.len(),
                *self == (Scanner { cur: self.cur, ..*old(self) }),
                find_char(self.source@, self.cur as int, '\n') == find_char(
                    self.source@,
                    old(self).cur as int,
                    '\n',
                ),
            decreases self.source.len() - self.cur,
        {
            self.advance();
        }
    }

    /// Skips to the end of the comment, counting the lines.
    fn block_comment(&mut self)
        requires
            old(self).cur <= old(self).source.len(),
        ensures
            *final(self) == (Scanner {
                cur: comment_end(old(self).text(), old(self).cur as int) as usize,
                line: bump(
                    old(self).line,
                    newlines(
                        old(self).text(),
                        old(self).cur as int,
                        comment_end(old(self).text(), old(self).cur as int),
                    ),
                ),
                ..*old(self)
            }),
            final(self).cur == comment_end(old(self).text(), old(self).cur as int),
            final(self).line == bump(
                old(self).line,
                newlines(
                    old(self).text(),
                    old(self).cur as int,
                    comment_end(old(self).text(), old(self).cur as int),
                ),
            ),
    {
        let ghost s = self.source@;
        let ghost body = self.cur as int;
        let ghost line = self.line;
        let mut star_found = false;
        proof {
            lemma_comment_end(s, body);
        }
        while self.cur < self.source.len()
            invariant_except_break
                star_found ==> self.cur > body && s[self.cur - 1] == '*',
                comment_end(s, body) == comment_end(
                    s,
                    if star_found {
                        self.cur - 1
                    } else {
                        self.cur as int
                    },
                ),
            invariant
                0 <= body <= self.cur <= s.len(),
                *self == (Scanner { cur: self.cur, line: self.line, ..*old(self) }),
                self.source@ == s,
                self.line == bump(line, newlines(s, body, self.cur as int)),
            ensures
                self.cur == comment_end(s, body),
            decreases s.len() - self.cur,
        {
            let ghost at = self.cur as int;
            proof {
                lemma_newlines_bound(s, body, at);
                assert(comment_end(s, at) == if at + 1 >= s.len() {
                    s.len() as int
                } else if s[at] == '*' && s[at + 1] == '/' {
                    at + 2
                } else {
                    comment_end(s, at + 1)
                });
                assert(at + 1 >= s.len() ==> comment_end(s, at + 1) == s.len());
                if star_found {
                    assert(comment_end(s, at - 1) == if s[at] == '/' {
                        at + 1
                    } else {
                        comment_end(s, at)
                    });
                }
            }
            if self.peek() == '\n' {
                self.line = next_line(self.line);
                star_found = false;
            } else if self.peek() == '/' && star_found {
                self.advance();
                break;
            } else if self.peek() == '*' {
                star_found = true;
            } else {
                star_found = false;
            }
            self.advance();
        }
    }

    /// Takes the next character if it is `expected`.
    fn match_char(&mut self, expected: char) -> (matched: bool)
        ensures
            matched == (old(self).cur < old(self).source.len() && old(self).text()[old(
                self,
            ).cur as int] == expected),
            *final(self) == (Scanner {
                cur: if matched {
                    (old(self).cur + 1) as usize
                } else {
                    old(self).cur
                },
                ..*old(self)
            }),
    {
        if self.cur >= self.source.len() || self.source[self.cur] != expected {
            false
        } else {
            self.cur += 1;
            true
        }
    }

    /// The character at `cur`; the null character at the end of the source.
    fn peek(&self) -> (c: char)
        ensures
            c == if self.cur < self.source.len() {
                self.text()[self.cur as int]
            } else {
                '\0'
            },
    {
        if self.cur >= self.source.len() {
            '\0'
        } else {
            self.source[self.cur]
        }
    }

    /// The character after the one at `cur`; the null character where the
    /// source has none.
    fn peek_next(&self) -> (c: char)
        ensures
            c == if self.cur + 1 < self.source.len() {
                self.text()[self.cur + 1]
            } else {
                '\0'
            },
    {
        if self.cur >= self.source.len() || self.cur + 1 >= self.source.len() {
            '\0'
        } else {
            self.source[self.cur + 1]
        }
    }

    /// Takes the character at `cur`.
    fn advance(&mut self) -> (c: char)
        requires
            old(self).cur < old(self).source.len(),
        ensures
            c == old(self).text()[old(self).cur as int],
            *final(self) == (Scanner { cur: (old(self).cur + 1) as usize, ..*old(self) }),
    {
        let res = self.source[self.cur];
        self.cur += 1;
        res
    }

    /// Adds the token of kind `token_t` made of the source from `start` to
    /// `cur`, without payload.
    fn add_token(&mut self, token_t: TokenType)
        requires
            old(self).start <= old(self).cur <= old(self).source.len(),
        ensures
            final(self).same_source(old(self)),
            final(self).text() == old(self).text(),
            final(self).well_formed() == old(self).well_formed(),
            final(self).start == old(self).start,
            final(self).cur == old(self).cur,
            final(self).line == old(self).line,
            token_views(final(self).tokens@) == token_views(old(self).tokens@).push(
                TokenView {
                    token_type: token_t,
                    lexeme: old(self).text().subrange(
                        old(self).start as int,
                        old(self).cur as int,
                    ),
                    literal: LiteralView::Nothing,
                    line: old(self).line,
                },
            ),
    {
        self._add_token(token_t, Literal::Nothing);
    }

    /// Adds the token of kind `token_t` made of the source from `start` to
    /// `cur`, with the payload `literal`.
    fn _add_token(&mut self, token_t: TokenType, literal: Literal)
        requires
            old(self).start <= old(self).cur <= old(self).source.len(),
        ensures
            final(self).same_source(old(self)),
            final(self).text() == old(self).text(),
            final(self).well_formed() == old(self).well_formed(),
            final(self).start == old(self).start,
            final(self).cur == old(self).cur,
            final(self).line == old(self).line,
            token_views(final(self).tokens@) == token_views(old(self).tokens@).push(
                TokenView {
                    token_type: token_t,
                    lexeme: old(self).text().subrange(
                        old(self).start as int,
                        old(self).cur as int,
                    ),
                    literal: literal@,
                    line: old(self).line,
                },
            ),
    {
        let text = text_of(&self.source, self.start, self.cur);
        let token = Token::new(token_t, text, literal, self.line);
        proof {
            lemma_token_views_push(self.tokens@, token);
        }
        self.tokens.push(token);
    }

    /// Scans the numeral whose first digit has been taken.
    fn number(&mut self)
        requires
            old(self).start + 1 == old(self).cur,
            old(self).cur <= old(self).source.len(),
            is_digit_char(old(self).text()[old(self).start as int]),
        ensures
            final(self).same_source(old(self)),
            final(self).text() == old(self).text(),
            final(self).well_formed() == old(self).well_formed(),
            final(self).line == old(self).line,
            final(self).cur == number_end(old(self).text(), old(self).start as int),
            token_views(final(self).tokens@) == token_views(old(self).tokens@).push(
                number_step(
                    old(self).text(),
                    old(self).start as int,
                    old(self).line,
                ).token->Some_0,
            ),
    {
        let ghost s = self.source@;
        let ghost begin = self.start as int;
        proof {
            lemma_digits_end(s, self.cur as int);
        }
        while is_digit(self.peek())
            invariant
                begin < self.cur <= s.len(),
                *self == (Scanner { cur: self.cur, ..*old(self) }),
                self.source@ == s,
                digits_end(s, self.cur as int) == digits_end(s, begin),
            decreases s.len() - self.cur,
        {
            self.advance();
        }
        if self.peek() == '.' && is_digit(self.peek_next()) {
            self.advance();
            proof {
                lemma_digits_end(s, self.cur as int);
            }
            while is_digit(self.peek())
                invariant
                    begin < self.cur <= s.len(),
                    *self == (Scanner { cur: self.cur, ..*old(self) }),
                    self.source@ == s,
                    digits_end(s, self.cur as int) == number_end(s, begin),
                decreases s.len() - self.cur,
            {
                self.advance();
            }
        }
        let numeral = text_of(&self.source, self.start, self.cur);
        self._add_token(TokenType::Number, Literal::Number(numeral));
    }

    /// Scans the string whose opening quote has been taken.
    fn string(&mut self) -> (r: Result<(), LexError>)
        requires
            old(self).start + 1 == old(self).cur,
            old(self).cur <= old(self).source.len(),
        ensures
            final(self).same_source(old(self)),
            final(self).text() == old(self).text(),
            final(self).well_formed() == old(self).well_formed(),
            match string_step(old(self).text(), old(self).start as int, old(self).line) {
                Ok(step) => r is Ok && final(self).cur == step.next && final(self).line
                    == step.line && token_views(final(self).tokens@) == token_views(
                    old(self).tokens@,
                ).push(step.token->Some_0),
                Err(e) => r == Err::<(), LexError>(e),
            },
    {
        let ghost s = self.source@;
        let ghost body = self.cur as int;
        let ghost line = self.line;
        proof {
            lemma_find_char(s, body, '"');
        }
        while self.peek() != '"' && self.cur < self.source.len()
            invariant
                body <= self.cur <= s.len(),
                *self == (Scanner { cur: self.cur, line: self.line, ..*old(self) }),
                self.source@ == s,
                find_char(s, self.cur as int, '"') == find_char(s, body, '"'),
                self.line == bump(line, newlines(s, body, self.cur as int)),
            decreases s.len() - self.cur,
        {
            proof {
                lemma_newlines_bound(s, body, self.cur as int);
            }
            if self.peek() == '\n' {
                self.line = next_line(self.line);
            }
            self.advance();
        }
        if self.cur >= self.source.len() {
            return Err(LexError::UnterminatedString { line: self.line });
        }
        let inner = text_of(&self.source, self.start + 1, self.cur);
        self.advance();
        self._add_token(TokenType::Str, Literal::Text(inner));
        Ok(())
    }

    /// The kind of the reserved word `text`, if it is one.
    fn keyword(&self, text: &String) -> (k: Option<TokenType>)
        requires
            self.well_formed(),
        ensures
            k == keyword_kind(text@),
    {
        let ghost table = table_view(self.reserved_identifiers@);
        let mut i: usize = 0;
        while i < self.reserved_identifiers.len()
            invariant
                i <= self.reserved_identifiers.len(),
                table == table_view(self.reserved_identifiers@),
                table == reserved_words(),
                lookup(table, i as int, text@) is None,
            decreases self.reserved_identifiers.len() - i,
        {
            if self.reserved_identifiers[i].0 == *text {
                proof {
                    assert(table[i as int].0 == text@);
                    lemma_lookup_stable(table, i + 1, table.len() as int, text@);
                }
                return Some(self.reserved_identifiers[i].1);
            }
            i += 1;
        }
        None
    }

    /// Scans the word whose first character has been taken.
    fn identifier(&mut self)
        requires
            old(self).well_formed(),
            old(self).start + 1 == old(self).cur,
            old(self).cur <= old(self).source.len(),
            is_alpha_char(old(self).text()[old(self).start as int]),
        ensures
            final(self).same_source(old(self)),
            final(self).text() == old(self).text(),
            final(self).well_formed(),
            final(self).line == old(self).line,
            final(self).cur == word_end(old(self).text(), old(self).start as int),
            token_views(final(self).tokens@) == token_views(old(self).tokens@).push(
                word_step(
                    old(self).text(),
                    old(self).start as int,
                    old(self).line,
                ).token->Some_0,
            ),
    {
        let ghost s = self.source@;
        let ghost begin = self.start as int;
        while is_alphanumeric(self.peek()) && self.cur < self.source.len()
            invariant
                begin < self.cur <= s.len(),
                *self == (Scanner { cur: self.cur, ..*old(self) }),
                self.source@ == s,
                word_end(s, self.cur as int) == word_end(s, begin),
            decreases s.len() - self.cur,
        {
            self.advance();
        }
        let word = text_of(&self.source, self.start, self.cur);
        let kind = match self.keyword(&word) {
            Some(reserved) => reserved,
            None => TokenType::Str,
        };
        self._add_token(kind, Literal::Text(word));
    }
}

/// The tokens of `source`, with the end token behind them, or the error
/// that stops the scan.
pub fn scan(source: &str) -> (r: Result<Vec<Token>, LexError>)
    ensures
        match lex(source@) {
            Ok(tokens) => r is Ok && token_views(r->Ok_0@) == tokens,
            Err(e) => r == Err::<Vec<Token>, LexError>(e),
        },
        r matches Ok(tokens) ==> tokens@.len() > 0 && tokens@.last().token_type
            == TokenType::Eof,
{
    let mut scanner = Scanner::new(String::from_str(source));
    match scanner.scan_tokens() {
        Ok(()) => {
            proof {
                let tokens = token_views(scanner.tokens@);
                assert(tokens =~= lex(source@)->Ok_0);
                lemma_scan_shape(source@, 0, 1);
                assert(tokens.last() == scanner.tokens@.last()@);
            }
            Ok(scanner.tokens)
        },
        Err(e) => Err(e),
    }
}


/// What a scan error complains of, without the line.
pub open spec fn lex_detail(e: LexError) -> Seq<char> {
    match e {
        LexError::UnexpectedCharacter { character, line } => "Unexpected token `"@ + seq![character]
            + "` ("@ + decimal(character as nat) + ")."@,
        LexError::UnterminatedString { line } => "unterminated string"@,
    }
}

/// The line of a scan error.
pub open spec fn lex_line(e: LexError) -> u32 {
    match e {
        LexError::UnexpectedCharacter { character, line } => line,
        LexError::UnterminatedString { line } => line,
    }
}

impl LexError {
    /// The line that the error arose on.
    pub fn line(&self) -> (line: u32)
        ensures
            line == lex_line(*self),
    {
        match self {
            LexError::UnexpectedCharacter { character: _, line } => *line,
            LexError::UnterminatedString { line } => *line,
        }
    }

    /// The error as one line of text: the line, and what it complains of
    /// between backquotes. An unexpected character is given with its code
    /// point.
    pub fn message(&self) -> (text: String)
        ensures
            text@ == err_text(lex_line(*self), lex_detail(*self)),
    {
        let mut detail = String::new();
        match self {
            LexError::UnexpectedCharacter { character, line: _ } => {
                detail.append("Unexpected token `");
                detail.push(*character);
                detail.append("` (");
                push_decimal(&mut detail, *character as u64);
                detail.append(").");
                assert(detail@ == lex_detail(*self));
            },
            LexError::UnterminatedString { line: _ } => {
                detail.append("unterminated string");
                assert(detail@ == lex_detail(*self));
            },
        }
        match err(self.line(), detail.as_str()) {
            Ok(_) => String::new(),
            Err(text) => text,
        }
    }
}


/// A run of digits that is followed by no digit ends where it ends.
pub proof fn lemma_digits_run(s: Seq<char>, from: int, to: int)
    requires
        0 <= from <= to <= s.len(),
        forall|j: int| from <= j < to ==> is_digit_char(#[trigger] s[j]),
        to < s.len() ==> !is_digit_char(s[to]),
    ensures
        digits_end(s, from) == to,
    decreases to - from,
{
    if from < to {
        assert(is_digit_char(s[from]));
        lemma_digits_run(s, from + 1, to);
    }
}

/// The numeral with the digits `whole` before the point and, where there is
/// a point, the digits `fraction` behind it.
pub open spec fn numeral(whole: Seq<char>, fraction: Option<Seq<char>>) -> Seq<char> {
    match fraction {
        Some(digits) => whole + seq!['.'] + digits,
        None => whole,
    }
}

/// Whether `whole` and `fraction` make a numeral: digits, and after a point
/// digits again, at least one each time.
pub open spec fn numeral_parts(whole: Seq<char>, fraction: Option<Seq<char>>) -> bool {
    &&& whole.len() > 0
    &&& all_digits(whole)
    &&& fraction matches Some(digits) ==> digits.len() > 0 && all_digits(digits)
}

/// A source text that is one numeral, digits with or without a point and
/// digits behind it, scans to one number token and the end token. The
/// token's text and its payload are the numeral itself, digit for digit.
pub proof fn lemma_numeral_scans_to_one_token(whole: Seq<char>, fraction: Option<Seq<char>>)
    requires
        numeral_parts(whole, fraction),
    ensures
        lex(numeral(whole, fraction)) == Ok::<Seq<TokenView>, LexError>(
            seq![
                TokenView {
                    token_type: TokenType::Number,
                    lexeme: numeral(whole, fraction),
                    literal: LiteralView::Number(numeral(whole, fraction)),
                    line: 1,
                },
                eof_token(1),
            ],
        ),
{
    let s = numeral(whole, fraction);
    let point = whole.len() as int;
    assert(s[0] == whole[0]);
    assert(is_digit_char(whole[0]));
    assert forall|j: int| 0 <= j < point implies is_digit_char(#[trigger] s[j]) by {
        assert(s[j] == whole[j]);
    }
    match fraction {
        Some(digits) => {
            assert(s[point] == '.');
            assert forall|j: int| point + 1 <= j < s.len() implies is_digit_char(
                #[trigger] s[j],
            ) by {
                assert(s[j] == digits[j - point - 1]);
            }
            assert(is_digit_char(s[point + 1]));
            lemma_digits_run(s, 0, point);
            lemma_digits_run(s, point + 1, s.len() as int);
        },
        None => {
            lemma_digits_run(s, 0, point);
        },
    }
    assert(number_end(s, 0) == s.len());
    assert(s.subrange(0, s.len() as int) == s);
    let step = scan_step(s, 0, 1)->Ok_0;
    assert(scan_step(s, 0, 1) == Ok::<Step, LexError>(number_step(s, 0, 1)));
    assert(scan_from(s, s.len() as int, 1) == Ok::<Seq<TokenView>, LexError>(seq![eof_token(1)]));
    assert(seq![step.token->Some_0] + seq![eof_token(1)] =~= seq![
        step.token->Some_0,
        eof_token(1),
    ]);
}

/// What a table of words finds is the kind of one of its entries.
pub proof fn lemma_lookup_member(table: Seq<(Seq<char>, TokenType)>, n: int, text: Seq<char>)
    requires
        0 <= n <= table.len(),
    ensures
        lookup(table, n, text) matches Some(kind) ==> exists|i: int|
            0 <= i < n && (#[trigger] table[i]).1 == kind && table[i].0 == text,
    decreases n,
{
    if n > 0 {
        lemma_lookup_member(table, n - 1, text);
    }
}

/// No step of the scan finds the end token, and the token that a step finds
/// is on the line that the step ends on.
pub proof fn lemma_step_token(s: Seq<char>, pos: int, line: u32)
    requires
        0 <= pos < s.len(),
    ensures
        scan_step(s, pos, line) matches Ok(step) ==> (step.token matches Some(t) ==> t.token_type
            != TokenType::Eof && t.line == step.line),
{
    let c = s[pos];
    if is_alpha_char(c) {
        let text = s.subrange(pos, word_end(s, pos));
        let table = reserved_words();
        lemma_lookup_member(table, table.len() as int, text);
    }
}

/// The tokens of a scan end with the end token, and hold no other; and no
/// token is on an earlier line than the scan began on, nor on an earlier
/// line than the token before it.
pub proof fn lemma_scan_shape(s: Seq<char>, pos: int, line: u32)
    requires
        0 <= pos <= s.len(),
    ensures
        scan_from(s, pos, line) matches Ok(tokens) ==> {
            &&& tokens.len() > 0
            &&& tokens.last().token_type == TokenType::Eof
            &&& forall|i: int|
                0 <= i < tokens.len() - 1 ==> (#[trigger] tokens[i]).token_type != TokenType::Eof
            &&& forall|i: int| 0 <= i < tokens.len() ==> line <= (#[trigger] tokens[i]).line
            &&& forall|i: int, j: int|
                0 <= i <= j < tokens.len() ==> (#[trigger] tokens[i]).line <= (
                #[trigger] tokens[j]).line
        },
    decreases s.len() - pos,
{
    if pos < s.len() {
        lemma_step_bounds(s, pos, line);
        lemma_step_token(s, pos, line);
        match scan_step(s, pos, line) {
            Ok(step) => {
                lemma_scan_shape(s, step.next, step.line);
                match scan_from(s, step.next, step.line) {
                    Ok(rest) => {
                        let tokens = scan_from(s, pos, line)->Ok_0;
                        match step.token {
                            Some(t) => {
                                assert(tokens == seq![t] + rest);
                                assert(tokens.last() == rest.last());
                                assert forall|i: int| 0 < i < tokens.len() implies tokens[i]
                                    == rest[i - 1] by {}
                                assert(tokens[0] == t);
                                assert forall|i: int, j: int|
                                    0 <= i <= j < tokens.len() implies (#[trigger] tokens[i]).line
                                    <= (#[trigger] tokens[j]).line by {
                                    if i > 0 {
                                        assert(tokens[i] == rest[i - 1]);
                                        assert(tokens[j] == rest[j - 1]);
                                    } else if j > 0 {
                                        assert(tokens[j] == rest[j - 1]);
                                    }
                                }
                            },
                            None => {},
                        }
                    },
                    Err(_) => {},
                }
            },
            Err(_) => {},
        }
    }
}


/// A character that does not occur from `from` on is found at the end.
pub proof fn lemma_find_absent(s: Seq<char>, from: int, c: char)
    requires
        0 <= from <= s.len(),
        forall|j: int| from <= j < s.len() ==> #[trigger] s[j] != c,
    ensures
        find_char(s, from, c) == s.len(),
    decreases s.len() - from,
{
    if from < s.len() {
        assert(s[from] != c);
        lemma_find_absent(s, from + 1, c);
    }
}

/// A source text that opens a string and never closes it fails as an
/// unterminated string, on the line that the text ends on.
pub proof fn lemma_open_string_fails(s: Seq<char>)
    requires
        s.len() > 0,
        s[0] == '"',
        forall|j: int| 1 <= j < s.len() ==> #[trigger] s[j] != '"',
    ensures
        lex(s) == Err::<Seq<TokenView>, LexError>(
            LexError::UnterminatedString { line: bump(1, newlines(s, 1, s.len() as int)) },
        ),
{
    lemma_find_absent(s, 1, '"');
}

} // verus!
