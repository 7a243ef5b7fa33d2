//! Rendering, then scanning and parsing again.
//!
//! The rendering of a tree is not in general a source text of the same tree:
//! an operator is rendered before its operands, and every node but a literal
//! in parentheses. Where a tree is groupings around one literal, and the
//! literal is one that the scanner reads back as itself, the rendering scans
//! and parses to the very same tree.

use crate::parser::{
    number_literal, operators, parse, parsed, parsed_binary, parsed_expression, parsed_operand,
    parsed_primary, parsed_rest, parsed_unary, Level, ParseErrorView,
};
use crate::scanner::{
    eof_token, is_alpha_char, is_alphanumeric_char, keyword_kind, lemma_digits_run,
    lemma_lookup_member, lex, lookup, number_end, number_step, numeral, numeral_parts,
    plain_token, reserved_words, scan_from, scan_step, skip, word_end, word_step, LexError, Step,
};
use crate::syntax_tree::{bool_text, nil_text, render, ExprView};
use crate::text::{digits_value, is_digit_char, lemma_decimal_is_digits, signed_decimal};
use crate::token::{kind_among, LiteralView, TokenType, TokenView};
use vstd::prelude::*;

verus! {

/// Whether `s` is a word: a letter or `_`, then letters, digits and `_`.
pub open spec fn is_word(s: Seq<char>) -> bool {
    &&& s.len() > 0
    &&& is_alpha_char(s[0])
    &&& forall|i: int| 0 <= i < s.len() ==> is_alphanumeric_char(#[trigger] s[i])
}

/// Whether `text` is a numeral that is no integer literal: it has a point,
/// or its value does not fit 64 bits with a sign.
pub open spec fn is_float_numeral(text: Seq<char>) -> bool {
    exists|whole: Seq<char>, fraction: Option<Seq<char>>|
        numeral_parts(whole, fraction) && #[trigger] numeral(whole, fraction) == text && (
        fraction is Some || digits_value(whole) > i64::MAX)
}

/// Whether `e` is groupings around one literal that the scanner reads back
/// as itself: an integer that is not negative, a numeral that is no integer
/// literal, `true`, `false`, `nil`, or a string that is a word and not
/// reserved.
pub open spec fn plain(e: ExprView) -> bool
    decreases e,
{
    match e {
        ExprView::Grouping(inner) => plain(*inner),
        ExprView::IntLiteral(v) => v >= 0,
        ExprView::FloatLiteral(text) => is_float_numeral(text),
        ExprView::BoolLiteral(_) => true,
        ExprView::NilLiteral => true,
        ExprView::StringLiteral(s) => is_word(s) && keyword_kind(s) is None,
        _ => false,
    }
}

/// The token of a word or of a number with the text `text`.
pub open spec fn text_token(kind: TokenType, text: Seq<char>, line: u32) -> TokenView {
    TokenView {
        token_type: kind,
        lexeme: text,
        literal: if kind == TokenType::Number {
            LiteralView::Number(text)
        } else {
            LiteralView::Text(text)
        },
        line,
    }
}

/// The token of a mark of punctuation.
pub open spec fn mark_token(kind: TokenType, mark: char, line: u32) -> TokenView {
    TokenView { token_type: kind, lexeme: seq![mark], literal: LiteralView::Nothing, line }
}

/// The tokens of the rendering of a plain expression, all on line `line`.
pub open spec fn tokens_of(e: ExprView, line: u32) -> Seq<TokenView>
    decreases e,
{
    match e {
        ExprView::Grouping(inner) => seq![mark_token(TokenType::LeftParen, '(', line)] + tokens_of(
            *inner,
            line,
        ) + seq![mark_token(TokenType::RightParen, ')', line)],
        ExprView::IntLiteral(v) => seq![
            text_token(TokenType::Number, signed_decimal(v as int), line),
        ],
        ExprView::FloatLiteral(text) => seq![text_token(TokenType::Number, text, line)],
        ExprView::BoolLiteral(b) => seq![
            text_token(
                if b {
                    TokenType::True
                } else {
                    TokenType::False
                },
                bool_text(b),
                line,
            ),
        ],
        ExprView::NilLiteral => seq![text_token(TokenType::Nil, nil_text(), line)],
        ExprView::StringLiteral(s) => seq![text_token(TokenType::Str, s, line)],
        _ => Seq::empty(),
    }
}

/// The tokens `first`, then what `rest` gives.
pub open spec fn prepend(first: Seq<TokenView>, rest: Result<Seq<TokenView>, LexError>) -> Result<
    Seq<TokenView>,
    LexError,
> {
    match rest {
        Ok(tokens) => Ok(first + tokens),
        Err(e) => Err(e),
    }
}

/// Whether `s` holds `part` at `pos`, and after it a space or nothing.
pub open spec fn stands_at(s: Seq<char>, pos: int, part: Seq<char>) -> bool {
    &&& 0 <= pos
    &&& pos + part.len() <= s.len()
    &&& s.subrange(pos, pos + part.len()) == part
    &&& pos + part.len() < s.len() ==> s[pos + part.len()] == ' '
}

proof fn lemma_stands_index(s: Seq<char>, pos: int, part: Seq<char>, i: int)
    requires
        stands_at(s, pos, part),
        0 <= i < part.len(),
    ensures
        s[pos + i] == part[i],
{
    assert(s.subrange(pos, pos + part.len())[i] == s[pos + i]);
}

/// A run of word characters that is followed by none ends where it ends.
proof fn lemma_word_run(s: Seq<char>, from: int, to: int)
    requires
        0 <= from <= to <= s.len(),
        forall|j: int| from <= j < to ==> is_alphanumeric_char(#[trigger] s[j]),
        to < s.len() ==> !is_alphanumeric_char(s[to]),
    ensures
        word_end(s, from) == to,
    decreases to - from,
{
    if from < to {
        assert(is_alphanumeric_char(s[from]));
        lemma_word_run(s, from + 1, to);
    }
}

/// A word that stands in a text is scanned as one token.
proof fn lemma_word_scans(s: Seq<char>, pos: int, line: u32, word: Seq<char>)
    requires
        is_word(word),
        stands_at(s, pos, word),
    ensures
        scan_step(s, pos, line) == Ok::<Step, LexError>(
            Step {
                token: Some(
                    text_token(
                        match keyword_kind(word) {
                            Some(kind) => kind,
                            None => TokenType::Str,
                        },
                        word,
                        line,
                    ),
                ),
                next: pos + word.len(),
                line,
            },
        ),
{
    let end = pos + word.len();
    lemma_stands_index(s, pos, word, 0);
    assert forall|j: int| pos <= j < end implies is_alphanumeric_char(#[trigger] s[j]) by {
        lemma_stands_index(s, pos, word, j - pos);
    }
    lemma_word_run(s, pos, end);
    lemma_keyword_kinds(word);
    assert(scan_step(s, pos, line) == Ok::<Step, LexError>(word_step(s, pos, line)));
}

/// No reserved word is of the kind of a number.
proof fn lemma_keyword_kinds(word: Seq<char>)
    ensures
        keyword_kind(word) != Some(TokenType::Number),
{
    let table = reserved_words();
    lemma_lookup_member(table, table.len() as int, word);
}

/// A numeral that stands in a text is scanned as one token.
proof fn lemma_numeral_scans(
    s: Seq<char>,
    pos: int,
    line: u32,
    whole: Seq<char>,
    fraction: Option<Seq<char>>,
)
    requires
        numeral_parts(whole, fraction),
        stands_at(s, pos, numeral(whole, fraction)),
    ensures
        scan_step(s, pos, line) == Ok::<Step, LexError>(
            Step {
                token: Some(text_token(TokenType::Number, numeral(whole, fraction), line)),
                next: pos + numeral(whole, fraction).len(),
                line,
            },
        ),
{
    let text = numeral(whole, fraction);
    let end = pos + text.len();
    let point = pos + whole.len();
    lemma_stands_index(s, pos, text, 0);
    assert(text[0] == whole[0]);
    assert(is_digit_char(whole[0]));
    assert forall|j: int| pos <= j < point implies is_digit_char(#[trigger] s[j]) by {
        lemma_stands_index(s, pos, text, j - pos);
        assert(text[j - pos] == whole[j - pos]);
    }
    match fraction {
        Some(digits) => {
            lemma_stands_index(s, pos, text, whole.len() as int);
            assert(text[whole.len() as int] == '.');
            assert forall|j: int| point + 1 <= j < end implies is_digit_char(#[trigger] s[j]) by {
                lemma_stands_index(s, pos, text, j - pos);
                assert(text[j - pos] == digits[j - point - 1]);
            }
            assert(is_digit_char(s[point + 1]));
            lemma_digits_run(s, pos, point);
            lemma_digits_run(s, point + 1, end);
        },
        None => {
            lemma_digits_run(s, pos, point);
        },
    }
    assert(number_end(s, pos) == end);
    assert(scan_step(s, pos, line) == Ok::<Step, LexError>(number_step(s, pos, line)));
}


/// A word that stands in a table of words once, at `i`, is found as the
/// kind that stands with it.
proof fn lemma_lookup_found(table: Seq<(Seq<char>, TokenType)>, n: int, text: Seq<char>, i: int)
    requires
        0 <= i < n <= table.len(),
        table[i].0 == text,
        forall|j: int| 0 <= j < i ==> (#[trigger] table[j]).0 != text,
    ensures
        lookup(table, n, text) == Some(table[i].1),
    decreases n,
{
    if n - 1 > i {
        lemma_lookup_found(table, n - 1, text, i);
    } else {
        lemma_lookup_none(table, i, text);
    }
}

proof fn lemma_lookup_none(table: Seq<(Seq<char>, TokenType)>, n: int, text: Seq<char>)
    requires
        0 <= n <= table.len(),
        forall|j: int| 0 <= j < n ==> (#[trigger] table[j]).0 != text,
    ensures
        lookup(table, n, text) is None,
    decreases n,
{
    if n > 0 {
        lemma_lookup_none(table, n - 1, text);
    }
}

/// `true`, `false` and `nil` are reserved words, of the kinds so named.
pub proof fn lemma_literal_words()
    ensures
        keyword_kind(bool_text(true)) == Some(TokenType::True),
        keyword_kind(bool_text(false)) == Some(TokenType::False),
        keyword_kind(nil_text()) == Some(TokenType::Nil),
{
    reveal_strlit("and");
    reveal_strlit("class");
    reveal_strlit("else");
    reveal_strlit("false");
    reveal_strlit("for");
    reveal_strlit("func");
    reveal_strlit("if");
    reveal_strlit("nil");
    reveal_strlit("or");
    reveal_strlit("print");
    reveal_strlit("return");
    reveal_strlit("super");
    reveal_strlit("this");
    reveal_strlit("true");
    let table = reserved_words();
    let n = table.len() as int;
    assert(n == 16);
    let yes = bool_text(true);
    assert(table[13].0 =~= yes);
    assert forall|j: int| 0 <= j < 13 implies (#[trigger] table[j]).0 != yes by {
        if table[j].0.len() == 4 {
            assert(table[j].0[1] != yes[1] || table[j].0[0] != yes[0]);
        }
    }
    lemma_lookup_found(table, n, yes, 13);
    let no = bool_text(false);
    assert(table[3].0 =~= no);
    assert forall|j: int| 0 <= j < 3 implies (#[trigger] table[j]).0 != no by {
        if table[j].0.len() == 5 {
            assert(table[j].0[0] != no[0]);
        }
    }
    lemma_lookup_found(table, n, no, 3);
    let nothing = nil_text();
    assert(table[7].0 =~= nothing);
    assert forall|j: int| 0 <= j < 7 implies (#[trigger] table[j]).0 != nothing by {
        if table[j].0.len() == 3 {
            assert(table[j].0[0] != nothing[0]);
        }
    }
    lemma_lookup_found(table, n, nothing, 7);
}

/// A step that found a token puts it before the tokens that follow.
proof fn lemma_scan_token(s: Seq<char>, pos: int, line: u32, t: TokenView, next: int)
    requires
        0 <= pos < s.len(),
        scan_step(s, pos, line) == Ok::<Step, LexError>(Step { token: Some(t), next, line }),
    ensures
        scan_from(s, pos, line) == prepend(seq![t], scan_from(s, next, line)),
{
}

/// A space is passed over.
proof fn lemma_scan_space(s: Seq<char>, pos: int, line: u32)
    requires
        0 <= pos < s.len(),
        s[pos] == ' ',
    ensures
        scan_from(s, pos, line) == scan_from(s, pos + 1, line),
{
    assert(scan_step(s, pos, line) == Ok::<Step, LexError>(skip(pos + 1, line)));
}

/// A parenthesis is a token by itself.
proof fn lemma_scan_paren(s: Seq<char>, pos: int, line: u32, kind: TokenType, mark: char)
    requires
        0 <= pos < s.len(),
        s[pos] == mark,
        (mark == '(' && kind == TokenType::LeftParen) || (mark == ')' && kind
            == TokenType::RightParen),
    ensures
        scan_from(s, pos, line) == prepend(
            seq![mark_token(kind, mark, line)],
            scan_from(s, pos + 1, line),
        ),
{
    assert(s.subrange(pos, pos + 1) =~= seq![mark]);
    assert(scan_step(s, pos, line) == Ok::<Step, LexError>(
        plain_token(s, pos, pos + 1, kind, line),
    ));
    lemma_scan_token(s, pos, line, mark_token(kind, mark, line), pos + 1);
}

/// The rendering of a plain expression is not empty.
proof fn lemma_plain_render(e: ExprView)
    requires
        plain(e),
    ensures
        render(e).len() > 0,
        tokens_of(e, 1).len() > 0,
    decreases e,
{
    match e {
        ExprView::IntLiteral(v) => {
            lemma_decimal_is_digits(v as nat);
        },
        ExprView::FloatLiteral(text) => {
            let (whole, fraction) = choose|whole: Seq<char>, fraction: Option<Seq<char>>|
                numeral_parts(whole, fraction) && #[trigger] numeral(whole, fraction) == text && (
                fraction is Some || digits_value(whole) > i64::MAX);
        },
        _ => {},
    }
}

/// The rendering of a plain expression, where it stands in a text, is
/// scanned as the tokens of the expression.
pub proof fn lemma_plain_scans(e: ExprView, s: Seq<char>, pos: int, line: u32)
    requires
        plain(e),
        stands_at(s, pos, render(e)),
    ensures
        scan_from(s, pos, line) == prepend(
            tokens_of(e, line),
            scan_from(s, pos + render(e).len(), line),
        ),
    decreases e,
{
    let r = render(e);
    let end = pos + r.len();
    lemma_plain_render(e);
    match e {
        ExprView::Grouping(inner) => {
            let ri = render(*inner);
            let n = ri.len() as int;
            assert(r == seq!['(', ' '] + ri + seq![' ', ')']);
            assert(r.len() == n + 4);
            lemma_stands_index(s, pos, r, 0);
            lemma_stands_index(s, pos, r, 1);
            lemma_stands_index(s, pos, r, n + 2);
            lemma_stands_index(s, pos, r, n + 3);
            assert(s.subrange(pos + 2, pos + 2 + n) =~= ri) by {
                assert forall|i: int| 0 <= i < n implies s[pos + 2 + i] == ri[i] by {
                    lemma_stands_index(s, pos, r, i + 2);
                }
            }
            assert(stands_at(s, pos + 2, ri));
            lemma_scan_paren(s, pos, line, TokenType::LeftParen, '(');
            lemma_scan_space(s, pos + 1, line);
            lemma_plain_scans(*inner, s, pos + 2, line);
            lemma_scan_space(s, pos + 2 + n, line);
            lemma_scan_paren(s, pos + 3 + n, line, TokenType::RightParen, ')');
            let left = seq![mark_token(TokenType::LeftParen, '(', line)];
            let right = seq![mark_token(TokenType::RightParen, ')', line)];
            let middle = tokens_of(*inner, line);
            match scan_from(s, end, line) {
                Ok(rest) => {
                    assert(left + (middle + (right + rest)) =~= (left + middle + right) + rest);
                },
                Err(_) => {},
            }
        },
        ExprView::IntLiteral(v) => {
            lemma_decimal_is_digits(v as nat);
            lemma_numeral_scans(s, pos, line, r, None);
            lemma_scan_token(s, pos, line, text_token(TokenType::Number, r, line), end);
        },
        ExprView::FloatLiteral(text) => {
            let (whole, fraction) = choose|whole: Seq<char>, fraction: Option<Seq<char>>|
                numeral_parts(whole, fraction) && #[trigger] numeral(whole, fraction) == text && (
                fraction is Some || digits_value(whole) > i64::MAX);
            lemma_numeral_scans(s, pos, line, whole, fraction);
            lemma_scan_token(s, pos, line, text_token(TokenType::Number, r, line), end);
        },
        ExprView::BoolLiteral(b) => {
            lemma_literal_words();
            assert(is_word(r));
            lemma_word_scans(s, pos, line, r);
            lemma_scan_token(
                s,
                pos,
                line,
                text_token(
                    if b {
                        TokenType::True
                    } else {
                        TokenType::False
                    },
                    r,
                    line,
                ),
                end,
            );
        },
        ExprView::NilLiteral => {
            lemma_literal_words();
            assert(is_word(r));
            lemma_word_scans(s, pos, line, r);
            lemma_scan_token(s, pos, line, text_token(TokenType::Nil, r, line), end);
        },
        ExprView::StringLiteral(text) => {
            lemma_word_scans(s, pos, line, r);
            lemma_scan_token(s, pos, line, text_token(TokenType::Str, r, line), end);
        },
        _ => {},
    }
}


/// Whether a token of the kind `kind` ends an expression: `)` and the end
/// token do.
pub open spec fn closes(kind: TokenType) -> bool {
    kind == TokenType::RightParen || kind == TokenType::Eof
}

proof fn lemma_not_operator(kind: TokenType, level: Level)
    requires
        closes(kind),
    ensures
        !kind_among(kind, operators(level)),
{
}

/// A unary expression before a token that ends an expression is an
/// expression by itself.
proof fn lemma_climb(ts: Seq<TokenView>, pos: int, next: int, e: ExprView)
    requires
        0 <= pos < next < ts.len(),
        parsed_unary(ts, pos) == parsed(e, next),
        closes(ts[next].token_type),
    ensures
        parsed_expression(ts, pos) == parsed(e, next),
{
    let kind = ts[next].token_type;
    lemma_not_operator(kind, Level::Factor);
    lemma_not_operator(kind, Level::Term);
    lemma_not_operator(kind, Level::Comparison);
    lemma_not_operator(kind, Level::Equality);
    lemma_not_operator(kind, Level::Comma);
    let done = parsed(e, next);
    assert(parsed_operand(ts, pos, Level::Factor) == done);
    assert(parsed_rest(ts, next, Level::Factor, e) == done);
    assert(parsed_binary(ts, pos, Level::Factor) == done);
    assert(parsed_operand(ts, pos, Level::Term) == done);
    assert(parsed_rest(ts, next, Level::Term, e) == done);
    assert(parsed_binary(ts, pos, Level::Term) == done);
    assert(parsed_operand(ts, pos, Level::Comparison) == done);
    assert(parsed_rest(ts, next, Level::Comparison, e) == done);
    assert(parsed_binary(ts, pos, Level::Comparison) == done);
    assert(parsed_operand(ts, pos, Level::Equality) == done);
    assert(parsed_rest(ts, next, Level::Equality, e) == done);
    assert(parsed_binary(ts, pos, Level::Equality) == done);
    assert(parsed_operand(ts, pos, Level::Comma) == done);
    assert(parsed_rest(ts, next, Level::Comma, e) == done);
    assert(parsed_binary(ts, pos, Level::Comma) == done);
}

/// A numeral that is no integer literal is read as itself.
proof fn lemma_float_numeral(text: Seq<char>)
    requires
        is_float_numeral(text),
    ensures
        number_literal(text) == ExprView::FloatLiteral(text),
{
    let (whole, fraction) = choose|whole: Seq<char>, fraction: Option<Seq<char>>|
        numeral_parts(whole, fraction) && #[trigger] numeral(whole, fraction) == text && (
        fraction is Some || digits_value(whole) > i64::MAX);
    match fraction {
        Some(digits) => {
            assert(text[whole.len() as int] == '.');
            assert(!is_digit_char(text[whole.len() as int]));
        },
        None => {},
    }
}

/// The tokens of a plain expression, before a token that ends an
/// expression, are parsed as the expression.
pub proof fn lemma_plain_parses(e: ExprView, ts: Seq<TokenView>, pos: int, line: u32)
    requires
        plain(e),
        0 <= pos,
        pos + tokens_of(e, line).len() < ts.len(),
        ts.subrange(pos, pos + tokens_of(e, line).len()) == tokens_of(e, line),
        closes(ts[pos + tokens_of(e, line).len()].token_type),
    ensures
        parsed_expression(ts, pos) == parsed(e, pos + tokens_of(e, line).len()),
    decreases e,
{
    let own = tokens_of(e, line);
    let k = own.len() as int;
    assert forall|i: int| 0 <= i < k implies ts[pos + i] == own[i] by {
        assert(ts.subrange(pos, pos + k)[i] == ts[pos + i]);
    }
    match e {
        ExprView::Grouping(inner) => {
            let middle = tokens_of(*inner, line);
            let n = middle.len() as int;
            assert(k == n + 2);
            assert(ts[pos] == own[0]);
            assert(ts[pos + n + 1] == own[n + 1]);
            assert(ts.subrange(pos + 1, pos + 1 + n) =~= middle) by {
                assert forall|i: int| 0 <= i < n implies ts[pos + 1 + i] == middle[i] by {
                    assert(ts[pos + 1 + i] == own[i + 1]);
                }
            }
            lemma_plain_parses(*inner, ts, pos + 1, line);
            assert(parsed_primary(ts, pos + 1, ts[pos]) == parsed(e, pos + k));
            assert(parsed_unary(ts, pos) == parsed(e, pos + k));
            lemma_climb(ts, pos, pos + k, e);
        },
        ExprView::IntLiteral(v) => {
            lemma_decimal_is_digits(v as nat);
            assert(ts[pos] == own[0]);
            assert(parsed_primary(ts, pos + 1, ts[pos]) == parsed(e, pos + 1));
            lemma_climb(ts, pos, pos + 1, e);
        },
        ExprView::FloatLiteral(text) => {
            lemma_float_numeral(text);
            assert(ts[pos] == own[0]);
            assert(parsed_primary(ts, pos + 1, ts[pos]) == parsed(e, pos + 1));
            lemma_climb(ts, pos, pos + 1, e);
        },
        ExprView::BoolLiteral(b) => {
            assert(ts[pos] == own[0]);
            assert(parsed_primary(ts, pos + 1, ts[pos]) == parsed(e, pos + 1));
            lemma_climb(ts, pos, pos + 1, e);
        },
        ExprView::NilLiteral => {
            assert(ts[pos] == own[0]);
            assert(parsed_primary(ts, pos + 1, ts[pos]) == parsed(e, pos + 1));
            lemma_climb(ts, pos, pos + 1, e);
        },
        ExprView::StringLiteral(text) => {
            assert(ts[pos] == own[0]);
            assert(parsed_primary(ts, pos + 1, ts[pos]) == parsed(e, pos + 1));
            lemma_climb(ts, pos, pos + 1, e);
        },
        _ => {},
    }
}

/// The rendering of a plain expression scans and parses to the expression
/// itself. So rendering, scanning and parsing once more changes nothing: the
/// tree that comes back renders as the first one did.
pub proof fn lemma_plain_round_trip(e: ExprView)
    requires
        plain(e),
    ensures
        lex(render(e)) == Ok::<Seq<TokenView>, LexError>(tokens_of(e, 1) + seq![eof_token(1)]),
        parse(tokens_of(e, 1) + seq![eof_token(1)]) == Ok::<ExprView, ParseErrorView>(e),
        lex(render(e)) matches Ok(tokens) && parse(tokens) matches Ok(again) && again == e
            && render(again) == render(e),
{
    let s = render(e);
    let own = tokens_of(e, 1);
    let ts = own + seq![eof_token(1)];
    lemma_plain_render(e);
    assert(s.subrange(0, s.len() as int) =~= s);
    lemma_plain_scans(e, s, 0, 1);
    assert(scan_from(s, s.len() as int, 1) == Ok::<Seq<TokenView>, LexError>(seq![eof_token(1)]));
    assert(ts.subrange(0, own.len() as int) =~= own);
    assert(ts[own.len() as int] == eof_token(1));
    lemma_plain_parses(e, ts, 0, 1);
}


/// One trip is enough: a tree whose rendering is that of a plain expression
/// comes back from rendering, scanning and parsing as that plain expression,
/// and the plain expression comes back from a second trip as itself.
pub proof fn lemma_round_trip_is_stable(e: ExprView, p: ExprView)
    requires
        plain(p),
        render(e) == render(p),
    ensures
        lex(render(e)) matches Ok(tokens) && parse(tokens) == Ok::<ExprView, ParseErrorView>(p),
        lex(render(p)) matches Ok(tokens) && parse(tokens) == Ok::<ExprView, ParseErrorView>(p),
{
    lemma_plain_round_trip(p);
}

} // verus!
