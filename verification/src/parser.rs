//! The parser: tokens to a syntax tree.
//!
//! The grammar, from the loosest binding to the tightest:
//!
//! ```text
//! expression -> comma ( "?" branches )?
//! branches   -> expression ( ":" expression )*
//! comma      -> equality ( "," equality )*
//! equality   -> comparison ( ( "!=" | "==" ) comparison )*
//! comparison -> term ( ( ">" | ">=" | "<" | "<=" ) term )*
//! term       -> factor ( ( "-" | "+" ) factor )*
//! factor     -> unary ( ( "/" | "*" ) unary )*
//! unary      -> ( "!" | "-" ) unary | primary
//! primary    -> NUMBER | STRING | "true" | "false" | "nil" | "(" expression ")"
//! ```
//!
//! Every level with operators of its own folds to the left. After `?` the
//! branches must come out as one pair joined by `:`, which becomes a ternary
//! node with the expression before the `?` as its condition.

use crate::syntax_tree::{Expr, ExprView};
use crate::text::{
    all_digits, chars_of, decimal, digit_value, digits_value, is_digit_char, push_decimal,
};
use crate::token::{
    kind_among, token_matches, token_views, Literal, LiteralView, Token, TokenType, TokenView,
};
use vstd::prelude::*;
use vstd::string::StringExecFns;

verus! {

/// What a parse error complains of.
#[derive(Debug, Clone, Copy, PartialEq, Eq, Structural)]
pub enum ParseFault {
    /// The tokens ended where an operand or a `)` had to follow.
    ReachedEof,
    /// A token that begins no expression.
    UnknownToken,
    /// An expression in parentheses is not followed by `)`.
    MissingRightParen,
    /// What follows a `?` is no pair of branches joined by `:`.
    MalformedTernary,
}

/// A parse error: the line and the text of the token it arose at, and the
/// fault. At the end of the tokens there is no text.
#[derive(Debug, Clone, PartialEq, Eq)]
pub struct ParseError {
    pub line: u32,
    pub lexeme: Option<String>,
    pub fault: ParseFault,
}

/// The mathematical value of a [`ParseError`].
pub struct ParseErrorView {
    pub line: u32,
    pub lexeme: Option<Seq<char>>,
    pub fault: ParseFault,
}

impl View for ParseError {
    type V = ParseErrorView;

    open spec fn view(&self) -> ParseErrorView {
        ParseErrorView {
            line: self.line,
            lexeme: match self.lexeme {
                Some(s) => Some(s@),
                None => None,
            },
            fault: self.fault,
        }
    }
}

/// The error with `fault` at the token `t`: at the end of input where `t` is
/// the end token, else at the text of `t`.
pub open spec fn error_at(t: TokenView, fault: ParseFault) -> ParseErrorView {
    ParseErrorView {
        line: t.line,
        lexeme: if t.token_type == TokenType::Eof {
            None
        } else {
            Some(t.lexeme)
        },
        fault,
    }
}

/// The error with `fault` where no token is left at all, not even the end
/// token: at the end of input, with 0 for the line, which no token gives.
pub open spec fn error_at_end(fault: ParseFault) -> ParseErrorView {
    ParseErrorView { line: 0, lexeme: None, fault }
}

/// A level of the grammar whose operators fold to the left.
#[derive(Debug, Clone, Copy, PartialEq, Eq, Structural)]
pub enum Level {
    /// The branches of a ternary, joined by `:`.
    Branches,
    Comma,
    Equality,
    Comparison,
    Term,
    Factor,
}

/// The operators of a level.
pub open spec fn operators(level: Level) -> Seq<TokenType> {
    match level {
        Level::Branches => seq![TokenType::Colon],
        Level::Comma => seq![TokenType::Comma],
        Level::Equality => seq![TokenType::BangEqual, TokenType::EqualEqual],
        Level::Comparison => seq![
            TokenType::Greater,
            TokenType::GreaterEqual,
            TokenType::Less,
            TokenType::LessEqual,
        ],
        Level::Term => seq![TokenType::Plus, TokenType::Minus],
        Level::Factor => seq![TokenType::Slash, TokenType::Star],
    }
}

/// How loosely a level binds: a level's operands are of the next lower rank.
pub open spec fn rank(level: Level) -> nat {
    match level {
        Level::Branches => 7,
        Level::Comma => 5,
        Level::Equality => 4,
        Level::Comparison => 3,
        Level::Term => 2,
        Level::Factor => 1,
    }
}

/// The outcome of a parse: the expression or the error, and the place of
/// the first token that was not taken.
pub struct Parsed {
    pub result: Result<ExprView, ParseErrorView>,
    pub next: int,
}

/// A parse that failed with `error`, having taken the tokens before `next`.
pub open spec fn failed(error: ParseErrorView, next: int) -> Parsed {
    Parsed { result: Err(error), next }
}

/// A parse that gave `e`, having taken the tokens before `next`.
pub open spec fn parsed(e: ExprView, next: int) -> Parsed {
    Parsed { result: Ok(e), next }
}

/// The literal of a number token with the text `lexeme`: an integer literal
/// where the text is made of digits alone and its value fits 64 bits with a
/// sign; else a literal that holds the numeral.
pub open spec fn number_literal(lexeme: Seq<char>) -> ExprView {
    if lexeme.len() > 0 && all_digits(lexeme) && digits_value(lexeme) <= i64::MAX {
        ExprView::IntLiteral(digits_value(lexeme) as i64)
    } else {
        ExprView::FloatLiteral(lexeme)
    }
}

/// The text of a string literal: the payload of its token.
pub open spec fn string_literal(t: TokenView) -> ExprView {
    ExprView::StringLiteral(
        match t.literal {
            LiteralView::Text(s) => s,
            _ => t.lexeme,
        },
    )
}

/// An expression, from `pos` on.
pub open spec fn parsed_expression(ts: Seq<TokenView>, pos: int) -> Parsed
    decreases ts.len() - pos, 12nat,
{
    let first = parsed_binary(ts, pos, Level::Comma);
    match first.result {
        Err(_) => first,
        Ok(condition) => {
            let mark = first.next;
            if pos <= mark < ts.len() && ts[mark].token_type == TokenType::QuestionMark {
                let rest = parsed_binary(ts, mark + 1, Level::Branches);
                match rest.result {
                    Err(_) => rest,
                    Ok(ExprView::Binary(if_true, op, if_false)) if op.token_type
                        == TokenType::Colon => parsed(
                        ExprView::Ternary(Box::new(condition), if_true, if_false),
                        rest.next,
                    ),
                    Ok(_) => failed(error_at(ts[mark], ParseFault::MalformedTernary), rest.next),
                }
            } else {
                first
            }
        },
    }
}

/// One operand of `level`, from `pos` on.
pub open spec fn parsed_operand(ts: Seq<TokenView>, pos: int, level: Level) -> Parsed
    decreases ts.len() - pos, 2 * rank(level),
{
    match level {
        Level::Branches => parsed_expression(ts, pos),
        Level::Comma => parsed_binary(ts, pos, Level::Equality),
        Level::Equality => parsed_binary(ts, pos, Level::Comparison),
        Level::Comparison => parsed_binary(ts, pos, Level::Term),
        Level::Term => parsed_binary(ts, pos, Level::Factor),
        Level::Factor => parsed_unary(ts, pos),
    }
}

/// Operands of `level` with its operators between them, from `pos` on.
pub open spec fn parsed_binary(ts: Seq<TokenView>, pos: int, level: Level) -> Parsed
    decreases ts.len() - pos, 2 * rank(level) + 1,
{
    let first = parsed_operand(ts, pos, level);
    match first.result {
        Err(_) => first,
        Ok(left) => if pos <= first.next <= ts.len() {
            parsed_rest(ts, first.next, level, left)
        } else {
            first
        },
    }
}

/// What follows the operands of `level` that are folded into `left`: as
/// long as the next token is an operator of the level, one more operand.
pub open spec fn parsed_rest(ts: Seq<TokenView>, pos: int, level: Level, left: ExprView) -> Parsed
    decreases ts.len() - pos, 0nat,
{
    if 0 <= pos < ts.len() && kind_among(ts[pos].token_type, operators(level)) {
        let right = parsed_operand(ts, pos + 1, level);
        match right.result {
            Err(_) => right,
            Ok(operand) => if pos < right.next <= ts.len() {
                parsed_rest(
                    ts,
                    right.next,
                    level,
                    ExprView::Binary(Box::new(left), ts[pos], Box::new(operand)),
                )
            } else {
                right
            },
        }
    } else {
        parsed(left, pos)
    }
}

/// A unary expression, from `pos` on.
pub open spec fn parsed_unary(ts: Seq<TokenView>, pos: int) -> Parsed
    decreases ts.len() - pos, 1nat,
{
    if pos < 0 || pos >= ts.len() {
        failed(error_at_end(ParseFault::ReachedEof), pos)
    } else if ts[pos].token_type == TokenType::Bang || ts[pos].token_type == TokenType::Minus {
        let operand = parsed_unary(ts, pos + 1);
        match operand.result {
            Err(_) => operand,
            Ok(right) => parsed(ExprView::Unary(Box::new(right), ts[pos]), operand.next),
        }
    } else {
        parsed_primary(ts, pos + 1, ts[pos])
    }
}

/// A primary expression that begins with the token `t`; `pos` is the place
/// after `t`. A primary expression is never the last of the tokens: after it
/// comes at least the end token. So where `t` is the last token, the tokens
/// have ended too early, and the error is at `t`, which is then the end token
/// unless the tokens lack one.
pub open spec fn parsed_primary(ts: Seq<TokenView>, pos: int, t: TokenView) -> Parsed
    decreases ts.len() - pos, 13nat,
{
    if pos < 0 || pos >= ts.len() {
        failed(error_at(t, ParseFault::ReachedEof), pos)
    } else {
        match t.token_type {
            TokenType::False => parsed(ExprView::BoolLiteral(false), pos),
            TokenType::True => parsed(ExprView::BoolLiteral(true), pos),
            TokenType::Nil => parsed(ExprView::NilLiteral, pos),
            TokenType::Number => parsed(number_literal(t.lexeme), pos),
            TokenType::Str => parsed(string_literal(t), pos),
            TokenType::LeftParen => {
                let inner = parsed_expression(ts, pos);
                match inner.result {
                    Err(_) => inner,
                    Ok(sub) => {
                        let end = inner.next;
                        if end < 0 || end >= ts.len() {
                            failed(error_at(t, ParseFault::ReachedEof), end)
                        } else if ts[end].token_type == TokenType::RightParen {
                            parsed(ExprView::Grouping(Box::new(sub)), end + 1)
                        } else {
                            failed(error_at(ts[end], ParseFault::MissingRightParen), end + 1)
                        }
                    },
                }
            },
            _ => failed(error_at(t, ParseFault::UnknownToken), pos),
        }
    }
}

/// The expression that the tokens `ts` begin with, or the first error.
pub open spec fn parse(ts: Seq<TokenView>) -> Result<ExprView, ParseErrorView> {
    parsed_expression(ts, 0).result
}


/// Whether the parse `out`, begun at `pos`, took no token before `pos` and
/// none beyond the last, and one token at least where it gave an expression.
pub open spec fn moves_on(ts: Seq<TokenView>, pos: int, out: Parsed) -> bool {
    &&& pos <= out.next <= ts.len()
    &&& out.result is Ok ==> pos < out.next
}

/// A parse of an expression moves on. So do the parses that it is made of:
/// the tests of the place in [`parsed_binary`] and [`parsed_rest`] never
/// fail.
pub proof fn lemma_expression_moves_on(ts: Seq<TokenView>, pos: int)
    requires
        0 <= pos <= ts.len(),
    ensures
        moves_on(ts, pos, parsed_expression(ts, pos)),
    decreases ts.len() - pos, 12nat,
{
    lemma_binary_moves_on(ts, pos, Level::Comma);
    let first = parsed_binary(ts, pos, Level::Comma);
    if first.result is Ok && first.next < ts.len() {
        lemma_binary_moves_on(ts, first.next + 1, Level::Branches);
    }
}

/// One operand of a level moves on.
pub proof fn lemma_operand_moves_on(ts: Seq<TokenView>, pos: int, level: Level)
    requires
        0 <= pos <= ts.len(),
    ensures
        moves_on(ts, pos, parsed_operand(ts, pos, level)),
    decreases ts.len() - pos, 2 * rank(level),
{
    match level {
        Level::Branches => lemma_expression_moves_on(ts, pos),
        Level::Comma => lemma_binary_moves_on(ts, pos, Level::Equality),
        Level::Equality => lemma_binary_moves_on(ts, pos, Level::Comparison),
        Level::Comparison => lemma_binary_moves_on(ts, pos, Level::Term),
        Level::Term => lemma_binary_moves_on(ts, pos, Level::Factor),
        Level::Factor => lemma_unary_moves_on(ts, pos),
    }
}

/// The operands of a level, with its operators between them, move on.
pub proof fn lemma_binary_moves_on(ts: Seq<TokenView>, pos: int, level: Level)
    requires
        0 <= pos <= ts.len(),
    ensures
        moves_on(ts, pos, parsed_binary(ts, pos, level)),
    decreases ts.len() - pos, 2 * rank(level) + 1,
{
    lemma_operand_moves_on(ts, pos, level);
    let first = parsed_operand(ts, pos, level);
    if let Ok(left) = first.result {
        lemma_rest_moves_on(ts, first.next, level, left);
    }
}

/// What follows the first operand of a level takes no token before its
/// place and none beyond the last, and never fails without an operator.
pub proof fn lemma_rest_moves_on(ts: Seq<TokenView>, pos: int, level: Level, left: ExprView)
    requires
        0 <= pos <= ts.len(),
    ensures
        pos <= parsed_rest(ts, pos, level, left).next <= ts.len(),
    decreases ts.len() - pos, 0nat,
{
    if pos < ts.len() && kind_among(ts[pos].token_type, operators(level)) {
        lemma_operand_moves_on(ts, pos + 1, level);
        let right = parsed_operand(ts, pos + 1, level);
        if let Ok(operand) = right.result {
            lemma_rest_moves_on(
                ts,
                right.next,
                level,
                ExprView::Binary(Box::new(left), ts[pos], Box::new(operand)),
            );
        }
    }
}

/// A unary expression moves on.
pub proof fn lemma_unary_moves_on(ts: Seq<TokenView>, pos: int)
    requires
        0 <= pos <= ts.len(),
    ensures
        moves_on(ts, pos, parsed_unary(ts, pos)),
    decreases ts.len() - pos, 1nat,
{
    if pos < ts.len() {
        if ts[pos].token_type == TokenType::Bang || ts[pos].token_type == TokenType::Minus {
            lemma_unary_moves_on(ts, pos + 1);
        } else {
            lemma_primary_moves_on(ts, pos + 1, ts[pos]);
        }
    }
}

/// A primary expression takes no token before the place after its first
/// token, and none beyond the last.
pub proof fn lemma_primary_moves_on(ts: Seq<TokenView>, pos: int, t: TokenView)
    requires
        0 <= pos <= ts.len(),
    ensures
        pos <= parsed_primary(ts, pos, t).next <= ts.len(),
    decreases ts.len() - pos, 13nat,
{
    if pos < ts.len() && t.token_type == TokenType::LeftParen {
        lemma_expression_moves_on(ts, pos);
    }
}

/// The kinds of the tokens that an expression is written with, in order:
/// every node stands for one production of the grammar.
pub open spec fn spelled(e: ExprView) -> Seq<TokenType>
    decreases e,
{
    match e {
        ExprView::StringLiteral(_) => seq![TokenType::Str],
        ExprView::IntLiteral(_) => seq![TokenType::Number],
        ExprView::FloatLiteral(_) => seq![TokenType::Number],
        ExprView::BoolLiteral(b) => seq![
            if b {
                TokenType::True
            } else {
                TokenType::False
            },
        ],
        ExprView::NilLiteral => seq![TokenType::Nil],
        ExprView::Unary(operand, op) => seq![op.token_type] + spelled(*operand),
        ExprView::Binary(left, op, right) => spelled(*left) + seq![op.token_type] + spelled(
            *right,
        ),
        ExprView::Ternary(condition, if_true, if_false) => spelled(*condition) + seq![
            TokenType::QuestionMark,
        ] + spelled(*if_true) + seq![TokenType::Colon] + spelled(*if_false),
        ExprView::Grouping(inner) => seq![TokenType::LeftParen] + spelled(*inner) + seq![
            TokenType::RightParen,
        ],
    }
}

/// The kinds of the tokens from `from` up to `to`.
pub open spec fn kinds_between(ts: Seq<TokenView>, from: int, to: int) -> Seq<TokenType> {
    ts.subrange(from, to).map_values(|t: TokenView| t.token_type)
}

/// Whether the parse `out`, begun at `from`, gave a tree that is written
/// with just the tokens that the parse took.
pub open spec fn spells(ts: Seq<TokenView>, from: int, out: Parsed) -> bool {
    out.result matches Ok(e) ==> spelled(e) == kinds_between(ts, from, out.next)
}

proof fn lemma_kinds_join(ts: Seq<TokenView>, from: int, mid: int, to: int)
    requires
        0 <= from <= mid <= to <= ts.len(),
    ensures
        kinds_between(ts, from, to) == kinds_between(ts, from, mid) + kinds_between(ts, mid, to),
{
    assert(kinds_between(ts, from, to) =~= kinds_between(ts, from, mid) + kinds_between(
        ts,
        mid,
        to,
    ));
}

proof fn lemma_kinds_one(ts: Seq<TokenView>, at: int)
    requires
        0 <= at < ts.len(),
    ensures
        kinds_between(ts, at, at + 1) == seq![ts[at].token_type],
{
    assert(kinds_between(ts, at, at + 1) =~= seq![ts[at].token_type]);
}

/// The tree of a parsed expression is written with just the tokens that the
/// parse took: no token is dropped, none made up, none moved.
pub proof fn lemma_expression_spells(ts: Seq<TokenView>, pos: int)
    requires
        0 <= pos <= ts.len(),
    ensures
        spells(ts, pos, parsed_expression(ts, pos)),
    decreases ts.len() - pos, 12nat,
{
    lemma_binary_spells(ts, pos, Level::Comma);
    lemma_binary_moves_on(ts, pos, Level::Comma);
    let first = parsed_binary(ts, pos, Level::Comma);
    if first.result is Ok && first.next < ts.len() {
        let mark = first.next;
        lemma_binary_spells(ts, mark + 1, Level::Branches);
        lemma_binary_moves_on(ts, mark + 1, Level::Branches);
        let rest = parsed_binary(ts, mark + 1, Level::Branches);
        if ts[mark].token_type == TokenType::QuestionMark && rest.result is Ok {
            lemma_kinds_one(ts, mark);
            lemma_kinds_join(ts, pos, mark, mark + 1);
            lemma_kinds_join(ts, pos, mark + 1, rest.next);
            if let Ok(ExprView::Binary(if_true, op, if_false)) = rest.result {
                if op.token_type == TokenType::Colon {
                    let e = parsed_expression(ts, pos).result->Ok_0;
                    assert(spelled(e) =~= spelled(first.result->Ok_0) + seq![
                        TokenType::QuestionMark,
                    ] + (spelled(*if_true) + seq![TokenType::Colon] + spelled(*if_false)));
                }
            }
        }
    }
}

/// The tree of one operand of a level is written with the tokens taken.
pub proof fn lemma_operand_spells(ts: Seq<TokenView>, pos: int, level: Level)
    requires
        0 <= pos <= ts.len(),
    ensures
        spells(ts, pos, parsed_operand(ts, pos, level)),
    decreases ts.len() - pos, 2 * rank(level),
{
    match level {
        Level::Branches => lemma_expression_spells(ts, pos),
        Level::Comma => lemma_binary_spells(ts, pos, Level::Equality),
        Level::Equality => lemma_binary_spells(ts, pos, Level::Comparison),
        Level::Comparison => lemma_binary_spells(ts, pos, Level::Term),
        Level::Term => lemma_binary_spells(ts, pos, Level::Factor),
        Level::Factor => lemma_unary_spells(ts, pos),
    }
}

/// The tree of the operands of a level, folded, is written with the tokens
/// taken.
pub proof fn lemma_binary_spells(ts: Seq<TokenView>, pos: int, level: Level)
    requires
        0 <= pos <= ts.len(),
    ensures
        spells(ts, pos, parsed_binary(ts, pos, level)),
    decreases ts.len() - pos, 2 * rank(level) + 1,
{
    lemma_operand_spells(ts, pos, level);
    lemma_operand_moves_on(ts, pos, level);
    let first = parsed_operand(ts, pos, level);
    if let Ok(left) = first.result {
        lemma_rest_spells(ts, pos, first.next, level, left);
    }
}

/// Where the operands folded so far are written with the tokens from `from`
/// up to `pos`, the tree of all the operands is written with the tokens from
/// `from` on that were taken.
pub proof fn lemma_rest_spells(
    ts: Seq<TokenView>,
    from: int,
    pos: int,
    level: Level,
    left: ExprView,
)
    requires
        0 <= from <= pos <= ts.len(),
        spelled(left) == kinds_between(ts, from, pos),
    ensures
        spells(ts, from, parsed_rest(ts, pos, level, left)),
    decreases ts.len() - pos, 0nat,
{
    if pos < ts.len() && kind_among(ts[pos].token_type, operators(level)) {
        lemma_operand_spells(ts, pos + 1, level);
        lemma_operand_moves_on(ts, pos + 1, level);
        let right = parsed_operand(ts, pos + 1, level);
        if let Ok(operand) = right.result {
            let folded = ExprView::Binary(Box::new(left), ts[pos], Box::new(operand));
            lemma_kinds_one(ts, pos);
            lemma_kinds_join(ts, from, pos, pos + 1);
            lemma_kinds_join(ts, from, pos + 1, right.next);
            lemma_rest_spells(ts, from, right.next, level, folded);
        }
    }
}

/// The tree of a unary expression is written with the tokens taken.
pub proof fn lemma_unary_spells(ts: Seq<TokenView>, pos: int)
    requires
        0 <= pos <= ts.len(),
    ensures
        spells(ts, pos, parsed_unary(ts, pos)),
    decreases ts.len() - pos, 1nat,
{
    if pos < ts.len() {
        lemma_kinds_one(ts, pos);
        if ts[pos].token_type == TokenType::Bang || ts[pos].token_type == TokenType::Minus {
            lemma_unary_spells(ts, pos + 1);
            lemma_unary_moves_on(ts, pos + 1);
            let operand = parsed_unary(ts, pos + 1);
            if operand.result is Ok {
                lemma_kinds_join(ts, pos, pos + 1, operand.next);
            }
        } else {
            lemma_primary_spells(ts, pos + 1);
        }
    }
}

/// The tree of a primary expression is written with its first token and
/// the tokens taken after it.
pub proof fn lemma_primary_spells(ts: Seq<TokenView>, pos: int)
    requires
        1 <= pos <= ts.len(),
    ensures
        spells(ts, pos - 1, parsed_primary(ts, pos, ts[pos - 1])),
    decreases ts.len() - pos, 13nat,
{
    let t = ts[pos - 1];
    lemma_kinds_one(ts, pos - 1);
    if pos < ts.len() && t.token_type == TokenType::LeftParen {
        lemma_expression_spells(ts, pos);
        lemma_expression_moves_on(ts, pos);
        let inner = parsed_expression(ts, pos);
        if inner.result is Ok && inner.next < ts.len() {
            lemma_kinds_one(ts, inner.next);
            lemma_kinds_join(ts, pos - 1, pos, inner.next);
            lemma_kinds_join(ts, pos - 1, inner.next, inner.next + 1);
        }
    }
}

/// A unary expression that fails makes the expression fail that begins
/// with it, with the same error at the same place.
pub proof fn lemma_failure_rises(ts: Seq<TokenView>, pos: int)
    requires
        parsed_unary(ts, pos).result is Err,
    ensures
        parsed_expression(ts, pos) == parsed_unary(ts, pos),
{
    let out = parsed_unary(ts, pos);
    assert(parsed_operand(ts, pos, Level::Factor) == out);
    assert(parsed_binary(ts, pos, Level::Factor) == out);
    assert(parsed_operand(ts, pos, Level::Term) == out);
    assert(parsed_binary(ts, pos, Level::Term) == out);
    assert(parsed_operand(ts, pos, Level::Comparison) == out);
    assert(parsed_binary(ts, pos, Level::Comparison) == out);
    assert(parsed_operand(ts, pos, Level::Equality) == out);
    assert(parsed_binary(ts, pos, Level::Equality) == out);
    assert(parsed_operand(ts, pos, Level::Comma) == out);
    assert(parsed_binary(ts, pos, Level::Comma) == out);
}

/// Tokens that begin with `(` and an expression, and go on with a token
/// that is no `)`, fail at that token for want of the closing parenthesis:
/// at the end of input where the token is the end token.
pub proof fn lemma_unclosed_group_fails(ts: Seq<TokenView>)
    requires
        ts.len() > 1,
        ts[0].token_type == TokenType::LeftParen,
        parsed_expression(ts, 1).result is Ok,
        parsed_expression(ts, 1).next < ts.len(),
        ts[parsed_expression(ts, 1).next].token_type != TokenType::RightParen,
    ensures
        parse(ts) == Err::<ExprView, ParseErrorView>(
            error_at(ts[parsed_expression(ts, 1).next], ParseFault::MissingRightParen),
        ),
{
    lemma_expression_moves_on(ts, 1);
    let end = parsed_expression(ts, 1).next;
    assert(parsed_primary(ts, 1, ts[0]) == failed(
        error_at(ts[end], ParseFault::MissingRightParen),
        end + 1,
    ));
    assert(parsed_unary(ts, 0) == parsed_primary(ts, 1, ts[0]));
    lemma_failure_rises(ts, 0);
}

/// The text of a fault.
pub open spec fn fault_text(fault: ParseFault) -> Seq<char> {
    match fault {
        ParseFault::ReachedEof => "reached EOF"@,
        ParseFault::UnknownToken => "unknown token"@,
        ParseFault::MissingRightParen => "could not find matching right paren"@,
        ParseFault::MalformedTernary => "Unable to parse rhs of ternary."@,
    }
}

/// The text of a parse error: `[line L] Error at 'lexeme': fault`, and
/// `[line L] Error at end: fault` at the end of the tokens.
pub open spec fn message_text(e: ParseErrorView) -> Seq<char> {
    "[line "@ + decimal(e.line as nat) + "] Error at "@ + match e.lexeme {
        Some(lexeme) => "'"@ + lexeme + "'"@,
        None => "end"@,
    } + ": "@ + fault_text(e.fault)
}

impl ParseError {
    /// The error as one line of text.
    pub fn message(&self) -> (text: String)
        ensures
            text@ == message_text(self@),
    {
        let mut out = String::from_str("[line ");
        push_decimal(&mut out, self.line as u64);
        out.append("] Error at ");
        match &self.lexeme {
            Some(lexeme) => {
                out.append("'");
                out.append(lexeme.as_str());
                out.append("'");
                assert(out@ == "[line "@ + decimal(self.line as nat) + "] Error at "@ + ("'"@
                    + lexeme@ + "'"@));
            },
            None => {
                out.append("end");
            },
        }
        out.append(": ");
        match self.fault {
            ParseFault::ReachedEof => out.append("reached EOF"),
            ParseFault::UnknownToken => out.append("unknown token"),
            ParseFault::MissingRightParen => out.append("could not find matching right paren"),
            ParseFault::MalformedTernary => out.append("Unable to parse rhs of ternary."),
        }
        out
    }
}

/// The view of the outcome of a parse.
pub open spec fn outcome_view(r: Result<Expr, ParseError>) -> Result<ExprView, ParseErrorView> {
    match r {
        Ok(e) => Ok(e@),
        Err(e) => Err(e@),
    }
}

/// A prefix of a sequence of digits is worth no more than the sequence.
pub proof fn lemma_digits_value_prefix(s: Seq<char>, n: int)
    requires
        all_digits(s),
        0 <= n <= s.len(),
    ensures
        digits_value(s.take(n)) <= digits_value(s),
    decreases s.len() - n,
{
    if n < s.len() {
        lemma_digits_value_prefix(s, n + 1);
        let longer = s.take(n + 1);
        assert(longer.drop_last() == s.take(n));
        assert(longer.last() == s[n]);
        assert(digit_value(s[n]) >= 0);
    } else {
        assert(s.take(n) == s);
    }
}

/// The integer that `lexeme` writes, where it is made of digits alone and
/// the integer fits 64 bits with a sign.
pub fn parse_integer(lexeme: &str) -> (r: Option<i64>)
    ensures
        r == if lexeme@.len() > 0 && all_digits(lexeme@) && digits_value(lexeme@) <= i64::MAX {
            Some(digits_value(lexeme@) as i64)
        } else {
            None
        },
{
    let digits = chars_of(lexeme);
    if digits.len() == 0 {
        return None;
    }
    let mut value: i64 = 0;
    let mut i: usize = 0;
    while i < digits.len()
        invariant
            i <= digits.len(),
            digits@ == lexeme@,
            all_digits(digits@.take(i as int)),
            value == digits_value(digits@.take(i as int)),
        decreases digits.len() - i,
    {
        let c = digits[i];
        let ghost longer = digits@.take(i + 1);
        proof {
            assert(longer.drop_last() == digits@.take(i as int));
            assert(longer.last() == c);
        }
        if !(c >= '0' && c <= '9') {
            assert(!all_digits(digits@));
            return None;
        }
        let digit: i64 = (c as u32 - '0' as u32) as i64;
        proof {
            assert forall|j: int| 0 <= j < longer.len() implies is_digit_char(
                #[trigger] longer[j],
            ) by {
                if j < i {
                    assert(longer[j] == digits@.take(i as int)[j]);
                }
            }
        }
        if value > (i64::MAX - digit) / 10 {
            proof {
                assert(digits_value(longer) > i64::MAX);
                if all_digits(digits@) {
                    lemma_digits_value_prefix(digits@, i + 1);
                }
            }
            return None;
        }
        value = value * 10 + digit;
        i += 1;
    }
    assert(digits@.take(i as int) == digits@);
    Some(value)
}

/// The literal of a number token with the text `lexeme`.
pub fn number_expr(lexeme: String) -> (e: Expr)
    ensures
        e@ == number_literal(lexeme@),
{
    match parse_integer(lexeme.as_str()) {
        Some(v) => Expr::IntLiteral(v),
        None => Expr::FloatLiteral(lexeme),
    }
}

/// The error with `fault` at the token `t`.
pub fn parse_error(t: &Token, fault: ParseFault) -> (e: ParseError)
    ensures
        e@ == error_at(t@, fault),
{
    if t.token_type == TokenType::Eof {
        ParseError { line: t.line, lexeme: None, fault }
    } else {
        ParseError { line: t.line, lexeme: Some(t.lexeme.clone()), fault }
    }
}

fn end_error(fault: ParseFault) -> (e: ParseError)
    ensures
        e@ == error_at_end(fault),
{
    ParseError { line: 0, lexeme: None, fault }
}

/// The tokens to parse, and the place of the next one to take.
pub struct Parser {
    pub tokens: Vec<Token>,
    pub cur: usize,
}

impl Parser {
    /// A parser at the first of the tokens `tk`.
    pub fn new(tk: Vec<Token>) -> (p: Parser)
        ensures
            p.tokens == tk,
            p.cur == 0,
    {
        Parser { tokens: tk, cur: 0 }
    }

    /// The views of the tokens.
    pub open spec fn stream(&self) -> Seq<TokenView> {
        token_views(self.tokens@)
    }
}

/// Whether the parser `after` and the outcome `r` are what `out` says of the
/// parser `before`: the same tokens, the place that `out` gives, which is not
/// before the old one, and the result that `out` gives.
pub open spec fn agrees(
    before: &Parser,
    after: &Parser,
    r: Result<Expr, ParseError>,
    out: Parsed,
) -> bool {
    &&& after.tokens == before.tokens
    &&& after.cur == out.next
    &&& outcome_view(r) == out.result
    &&& before.cur <= before.tokens.len() ==> before.cur <= after.cur <= before.tokens.len()
}

/// Whether a parse that gave an expression took a token at least, and none
/// beyond the last.
pub open spec fn progresses(before: &Parser, after: &Parser, r: Result<Expr, ParseError>) -> bool {
    r is Ok ==> before.cur < after.cur <= before.tokens.len()
}

fn is_operator(t: &Token, level: Level) -> (b: bool)
    ensures
        b == kind_among(t.token_type, operators(level)),
{
    match level {
        Level::Branches => {
            let kinds = [TokenType::Colon];
            assert(kinds@ == operators(level));
            token_matches(t, kinds.as_slice())
        },
        Level::Comma => {
            let kinds = [TokenType::Comma];
            assert(kinds@ == operators(level));
            token_matches(t, kinds.as_slice())
        },
        Level::Equality => {
            let kinds = [TokenType::BangEqual, TokenType::EqualEqual];
            assert(kinds@ == operators(level));
            token_matches(t, kinds.as_slice())
        },
        Level::Comparison => {
            let kinds = [
                TokenType::Greater,
                TokenType::GreaterEqual,
                TokenType::Less,
                TokenType::LessEqual,
            ];
            assert(kinds@ == operators(level));
            token_matches(t, kinds.as_slice())
        },
        Level::Term => {
            let kinds = [TokenType::Plus, TokenType::Minus];
            assert(kinds@ == operators(level));
            token_matches(t, kinds.as_slice())
        },
        Level::Factor => {
            let kinds = [TokenType::Slash, TokenType::Star];
            assert(kinds@ == operators(level));
            token_matches(t, kinds.as_slice())
        },
    }
}

/// Parses an expression at the parser's place.
pub fn expression(p: &mut Parser) -> (r: Result<Expr, ParseError>)
    ensures
        agrees(old(p), final(p), r, parsed_expression(old(p).stream(), old(p).cur as int)),
        progresses(old(p), final(p), r),
    decreases old(p).tokens.len() - old(p).cur, 18nat,
{
    let ghost ts = p.stream();
    let ghost pos = p.cur as int;
    let condition = match binary_expr(p, Level::Comma) {
        Ok(e) => e,
        Err(e) => {
            return Err(e);
        },
    };
    if p.cur < p.tokens.len() && p.tokens[p.cur].token_type == TokenType::QuestionMark {
        assert(ts[p.cur as int] == p.tokens@[p.cur as int]@);
        let mark = p.cur;
        p.cur += 1;
        match binary_expr(p, Level::Branches) {
            Ok(Expr::Binary(if_true, op, if_false)) => {
                if op.token_type == TokenType::Colon {
                    Ok(Expr::Ternary(Box::new(condition), if_true, if_false))
                } else {
                    Err(parse_error(&p.tokens[mark], ParseFault::MalformedTernary))
                }
            },
            Ok(_) => Err(parse_error(&p.tokens[mark], ParseFault::MalformedTernary)),
            Err(e) => Err(e),
        }
    } else {
        proof {
            if p.cur < p.tokens.len() {
                assert(ts[p.cur as int] == p.tokens@[p.cur as int]@);
            }
        }
        Ok(condition)
    }
}

/// Parses one operand of `level`.
fn operand(p: &mut Parser, level: Level) -> (r: Result<Expr, ParseError>)
    ensures
        agrees(old(p), final(p), r, parsed_operand(old(p).stream(), old(p).cur as int, level)),
        progresses(old(p), final(p), r),
    decreases old(p).tokens.len() - old(p).cur, 3 * rank(level),
{
    match level {
        Level::Branches => expression(p),
        Level::Comma => equality(p),
        Level::Equality => comparison(p),
        Level::Comparison => term(p),
        Level::Term => factor(p),
        Level::Factor => unary(p),
    }
}

/// Parses operands of `level` with its operators between them, and folds
/// them to the left.
fn binary_expr(p: &mut Parser, level: Level) -> (r: Result<Expr, ParseError>)
    ensures
        agrees(old(p), final(p), r, parsed_binary(old(p).stream(), old(p).cur as int, level)),
        progresses(old(p), final(p), r),
    decreases old(p).tokens.len() - old(p).cur, 3 * rank(level) + 1,
{
    let ghost ts = p.stream();
    let ghost pos = p.cur as int;
    let mut left = match operand(p, level) {
        Ok(e) => e,
        Err(e) => {
            return Err(e);
        },
    };
    loop
        invariant
            p.tokens == old(p).tokens,
            ts == old(p).stream(),
            pos == old(p).cur,
            pos < p.cur <= p.tokens.len(),
            parsed_rest(ts, p.cur as int, level, left@) == parsed_binary(ts, pos, level),
        decreases p.tokens.len() - p.cur,
    {
        if p.cur >= p.tokens.len() {
            return Ok(left);
        }
        assert(ts[p.cur as int] == p.tokens@[p.cur as int]@);
        if is_operator(&p.tokens[p.cur], level) {
            let op = p.tokens[p.cur].duplicate();
            p.cur += 1;
            match operand(p, level) {
                Ok(right) => {
                    left = Expr::Binary(Box::new(left), op, Box::new(right));
                },
                Err(e) => {
                    return Err(e);
                },
            }
        } else {
            return Ok(left);
        }
    }
}

fn equality(p: &mut Parser) -> (r: Result<Expr, ParseError>)
    ensures
        agrees(
            old(p),
            final(p),
            r,
            parsed_binary(old(p).stream(), old(p).cur as int, Level::Equality),
        ),
        progresses(old(p), final(p), r),
    decreases old(p).tokens.len() - old(p).cur, 14nat,
{
    binary_expr(p, Level::Equality)
}

fn comparison(p: &mut Parser) -> (r: Result<Expr, ParseError>)
    ensures
        agrees(
            old(p),
            final(p),
            r,
            parsed_binary(old(p).stream(), old(p).cur as int, Level::Comparison),
        ),
        progresses(old(p), final(p), r),
    decreases old(p).tokens.len() - old(p).cur, 11nat,
{
    binary_expr(p, Level::Comparison)
}

fn term(p: &mut Parser) -> (r: Result<Expr, ParseError>)
    ensures
        agrees(old(p), final(p), r, parsed_binary(old(p).stream(), old(p).cur as int, Level::Term)),
        progresses(old(p), final(p), r),
    decreases old(p).tokens.len() - old(p).cur, 8nat,
{
    binary_expr(p, Level::Term)
}

fn factor(p: &mut Parser) -> (r: Result<Expr, ParseError>)
    ensures
        agrees(
            old(p),
            final(p),
            r,
            parsed_binary(old(p).stream(), old(p).cur as int, Level::Factor),
        ),
        progresses(old(p), final(p), r),
    decreases old(p).tokens.len() - old(p).cur, 5nat,
{
    binary_expr(p, Level::Factor)
}

fn unary(p: &mut Parser) -> (r: Result<Expr, ParseError>)
    ensures
        agrees(old(p), final(p), r, parsed_unary(old(p).stream(), old(p).cur as int)),
        progresses(old(p), final(p), r),
    decreases old(p).tokens.len() - old(p).cur, 2nat,
{
    if p.cur >= p.tokens.len() {
        Err(end_error(ParseFault::ReachedEof))
    } else {
        assert(p.stream()[p.cur as int] == p.tokens@[p.cur as int]@);
        let t = p.tokens[p.cur].duplicate();
        p.cur += 1;
        if t.token_type == TokenType::Bang || t.token_type == TokenType::Minus {
            match unary(p) {
                Ok(right) => Ok(Expr::Unary(Box::new(right), t)),
                Err(e) => Err(e),
            }
        } else {
            primary(p, t)
        }
    }
}

fn primary(p: &mut Parser, t: Token) -> (r: Result<Expr, ParseError>)
    requires
        old(p).cur <= old(p).tokens.len(),
    ensures
        agrees(old(p), final(p), r, parsed_primary(old(p).stream(), old(p).cur as int, t@)),
    decreases old(p).tokens.len() - old(p).cur, 19nat,
{
    if p.cur >= p.tokens.len() {
        return Err(parse_error(&t, ParseFault::ReachedEof));
    }
    match t.token_type {
        TokenType::False => Ok(Expr::BoolLiteral(false)),
        TokenType::True => Ok(Expr::BoolLiteral(true)),
        TokenType::Nil => Ok(Expr::NilLiteral()),
        TokenType::Number => Ok(number_expr(t.lexeme)),
        TokenType::Str => match t.literal {
            Literal::Text(s) => Ok(Expr::StringLiteral(s)),
            _ => Ok(Expr::StringLiteral(t.lexeme)),
        },
        TokenType::LeftParen => match expression(p) {
            Ok(sub) => {
                if p.cur >= p.tokens.len() {
                    Err(parse_error(&t, ParseFault::ReachedEof))
                } else {
                    assert(p.stream()[p.cur as int] == p.tokens@[p.cur as int]@);
                    let end = p.cur;
                    p.cur += 1;
                    if p.tokens[end].token_type == TokenType::RightParen {
                        Ok(Expr::Grouping(Box::new(sub)))
                    } else {
                        Err(parse_error(&p.tokens[end], ParseFault::MissingRightParen))
                    }
                }
            },
            Err(e) => Err(e),
        },
        _ => Err(parse_error(&t, ParseFault::UnknownToken)),
    }
}

/// Parses the expression that `tokens` begin with.
pub fn parse_expression(tokens: Vec<Token>) -> (r: Result<Expr, ParseError>)
    ensures
        outcome_view(r) == parse(token_views(tokens@)),
{
    let mut p = Parser::new(tokens);
    expression(&mut p)
}

} // verus!
