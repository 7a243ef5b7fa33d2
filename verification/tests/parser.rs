use rslox::parser::{
    expression, number_expr, parse_error, parse_expression, parse_integer, ParseError,
    ParseFault, Parser,
};
use rslox::scanner::scan;
use rslox::syntax_tree::Expr;
use rslox::token::{Literal, Token, TokenType};

fn parse_source(source: &str) -> Result<Expr, ParseError> {
    parse_expression(scan(source).unwrap())
}

fn op(kind: TokenType, text: &str) -> Token {
    Token::new(kind, text.to_string(), Literal::Nothing, 1)
}

fn whole(v: i64) -> Box<Expr> {
    Box::new(Expr::IntLiteral(v))
}

fn failure(line: u32, lexeme: Option<&str>, fault: ParseFault) -> ParseError {
    ParseError { line, lexeme: lexeme.map(|s| s.to_string()), fault }
}

#[test]
fn literals() {
    assert_eq!(parse_source("true"), Ok(Expr::BoolLiteral(true)));
    assert_eq!(parse_source("false"), Ok(Expr::BoolLiteral(false)));
    assert_eq!(parse_source("nil"), Ok(Expr::NilLiteral()));
    assert_eq!(parse_source("17"), Ok(Expr::IntLiteral(17)));
    assert_eq!(parse_source("1.5"), Ok(Expr::FloatLiteral("1.5".to_string())));
    assert_eq!(parse_source("\"hi\""), Ok(Expr::StringLiteral("hi".to_string())));
    assert_eq!(parse_source("\"\""), Ok(Expr::StringLiteral(String::new())));
}

#[test]
fn word_is_a_string_literal() {
    assert_eq!(parse_source("abc"), Ok(Expr::StringLiteral("abc".to_string())));
}

#[test]
fn integer_literal_is_told_from_other_numbers_by_its_text() {
    assert_eq!(parse_source("0"), Ok(Expr::IntLiteral(0)));
    assert_eq!(parse_source("007"), Ok(Expr::IntLiteral(7)));
    assert_eq!(parse_source("1.0"), Ok(Expr::FloatLiteral("1.0".to_string())));
    assert_eq!(parse_source("9223372036854775807"), Ok(Expr::IntLiteral(i64::MAX)));
    assert_eq!(
        parse_source("9223372036854775808"),
        Ok(Expr::FloatLiteral("9223372036854775808".to_string()))
    );
    assert_eq!(
        parse_source("123456789012345678901234567890"),
        Ok(Expr::FloatLiteral("123456789012345678901234567890".to_string()))
    );
}

#[test]
fn integer_of_a_text() {
    assert_eq!(parse_integer("0"), Some(0));
    assert_eq!(parse_integer("42"), Some(42));
    assert_eq!(parse_integer("000123"), Some(123));
    assert_eq!(parse_integer("9223372036854775807"), Some(i64::MAX));
    assert_eq!(parse_integer("9223372036854775808"), None);
    assert_eq!(parse_integer("92233720368547758070"), None);
    assert_eq!(parse_integer("99999999999999999999999"), None);
    assert_eq!(parse_integer(""), None);
    assert_eq!(parse_integer("1.5"), None);
    assert_eq!(parse_integer("12a"), None);
    assert_eq!(parse_integer("-3"), None);
    assert_eq!(parse_integer("99999999999999999999999x"), None);
}

#[test]
fn number_literal_of_a_text() {
    assert_eq!(number_expr("12".to_string()), Expr::IntLiteral(12));
    assert_eq!(number_expr("12.50".to_string()), Expr::FloatLiteral("12.50".to_string()));
}

#[test]
fn factor_binds_tighter_than_term() {
    assert_eq!(
        parse_source("1 + 2 * 3"),
        Ok(Expr::Binary(
            whole(1),
            op(TokenType::Plus, "+"),
            Box::new(Expr::Binary(whole(2), op(TokenType::Star, "*"), whole(3))),
        ))
    );
    assert_eq!(
        parse_source("1 * 2 + 3"),
        Ok(Expr::Binary(
            Box::new(Expr::Binary(whole(1), op(TokenType::Star, "*"), whole(2))),
            op(TokenType::Plus, "+"),
            whole(3),
        ))
    );
}

#[test]
fn binary_operators_fold_to_the_left() {
    assert_eq!(
        parse_source("1 - 2 - 3"),
        Ok(Expr::Binary(
            Box::new(Expr::Binary(whole(1), op(TokenType::Minus, "-"), whole(2))),
            op(TokenType::Minus, "-"),
            whole(3),
        ))
    );
    assert_eq!(
        parse_source("8 / 4 / 2"),
        Ok(Expr::Binary(
            Box::new(Expr::Binary(whole(8), op(TokenType::Slash, "/"), whole(4))),
            op(TokenType::Slash, "/"),
            whole(2),
        ))
    );
}

#[test]
fn levels_from_equality_down() {
    assert_eq!(
        parse_source("1 == 2 < 3 + 4 * -5"),
        Ok(Expr::Binary(
            whole(1),
            op(TokenType::EqualEqual, "=="),
            Box::new(Expr::Binary(
                whole(2),
                op(TokenType::Less, "<"),
                Box::new(Expr::Binary(
                    whole(3),
                    op(TokenType::Plus, "+"),
                    Box::new(Expr::Binary(
                        whole(4),
                        op(TokenType::Star, "*"),
                        Box::new(Expr::Unary(whole(5), op(TokenType::Minus, "-"))),
                    )),
                )),
            )),
        ))
    );
}

#[test]
fn every_comparison_and_equality_operator() {
    for (text, kind) in [
        (">", TokenType::Greater),
        (">=", TokenType::GreaterEqual),
        ("<", TokenType::Less),
        ("<=", TokenType::LessEqual),
        ("!=", TokenType::BangEqual),
        ("==", TokenType::EqualEqual),
    ] {
        assert_eq!(
            parse_source(&format!("1 {} 2", text)),
            Ok(Expr::Binary(whole(1), op(kind, text), whole(2)))
        );
    }
}

#[test]
fn comma_binds_loosest() {
    assert_eq!(
        parse_source("1, 2 == 3"),
        Ok(Expr::Binary(
            whole(1),
            op(TokenType::Comma, ","),
            Box::new(Expr::Binary(whole(2), op(TokenType::EqualEqual, "=="), whole(3))),
        ))
    );
}

#[test]
fn unary_operators_stack() {
    assert_eq!(
        parse_source("--5"),
        Ok(Expr::Unary(
            Box::new(Expr::Unary(whole(5), op(TokenType::Minus, "-"))),
            op(TokenType::Minus, "-"),
        ))
    );
    assert_eq!(
        parse_source("!-true"),
        Ok(Expr::Unary(
            Box::new(Expr::Unary(Box::new(Expr::BoolLiteral(true)), op(TokenType::Minus, "-"))),
            op(TokenType::Bang, "!"),
        ))
    );
}

#[test]
fn grouping() {
    assert_eq!(
        parse_source("(1 + 2) * 3"),
        Ok(Expr::Binary(
            Box::new(Expr::Grouping(Box::new(Expr::Binary(
                whole(1),
                op(TokenType::Plus, "+"),
                whole(2),
            )))),
            op(TokenType::Star, "*"),
            whole(3),
        ))
    );
    assert_eq!(
        parse_source("((nil))"),
        Ok(Expr::Grouping(Box::new(Expr::Grouping(Box::new(Expr::NilLiteral())))))
    );
}

#[test]
fn negated_group_times_number() {
    assert_eq!(
        parse_source("(-123) * 45.67"),
        Ok(Expr::Binary(
            Box::new(Expr::Grouping(Box::new(Expr::Unary(whole(123), op(TokenType::Minus, "-"))))),
            op(TokenType::Star, "*"),
            Box::new(Expr::FloatLiteral("45.67".to_string())),
        ))
    );
}

#[test]
fn ternary() {
    assert_eq!(
        parse_source("true ? 1 : 2"),
        Ok(Expr::Ternary(Box::new(Expr::BoolLiteral(true)), whole(1), whole(2)))
    );
    assert_eq!(
        parse_source("1 < 2 ? 3 + 4 : 5 * 6"),
        Ok(Expr::Ternary(
            Box::new(Expr::Binary(whole(1), op(TokenType::Less, "<"), whole(2))),
            Box::new(Expr::Binary(whole(3), op(TokenType::Plus, "+"), whole(4))),
            Box::new(Expr::Binary(whole(5), op(TokenType::Star, "*"), whole(6))),
        ))
    );
}

#[test]
fn ternary_in_a_group_as_a_branch() {
    assert_eq!(
        parse_source("true ? (false ? 1 : 2) : 3"),
        Ok(Expr::Ternary(
            Box::new(Expr::BoolLiteral(true)),
            Box::new(Expr::Grouping(Box::new(Expr::Ternary(
                Box::new(Expr::BoolLiteral(false)),
                whole(1),
                whole(2),
            )))),
            whole(3),
        ))
    );
}

#[test]
fn ternary_in_the_false_branch() {
    assert_eq!(
        parse_source("true ? 1 : false ? 2 : 3"),
        Ok(Expr::Ternary(
            Box::new(Expr::BoolLiteral(true)),
            whole(1),
            Box::new(Expr::Ternary(Box::new(Expr::BoolLiteral(false)), whole(2), whole(3))),
        ))
    );
}

#[test]
fn branches_fold_to_the_left() {
    assert_eq!(
        parse_source("true ? 1 : 2 : 3"),
        Ok(Expr::Ternary(
            Box::new(Expr::BoolLiteral(true)),
            Box::new(Expr::Binary(whole(1), op(TokenType::Colon, ":"), whole(2))),
            whole(3),
        ))
    );
}

#[test]
fn ternary_without_branches_joined_by_a_colon_is_an_error() {
    assert_eq!(
        parse_source("true ? 1"),
        Err(failure(1, Some("?"), ParseFault::MalformedTernary))
    );
    assert_eq!(
        parse_source("true ? 1 + 2"),
        Err(failure(1, Some("?"), ParseFault::MalformedTernary))
    );
    assert_eq!(
        parse_source("true ? false ? 1 : 2 : 3"),
        Err(failure(1, Some("?"), ParseFault::MalformedTernary))
    );
}

#[test]
fn missing_closing_paren_at_the_end() {
    let e = parse_source("(1 + 2").unwrap_err();
    assert_eq!(e, failure(1, None, ParseFault::MissingRightParen));
    assert_eq!(e.message(), "[line 1] Error at end: could not find matching right paren");
}

#[test]
fn missing_closing_paren_before_another_token() {
    let e = parse_source("(1 + 2 3").unwrap_err();
    assert_eq!(e, failure(1, Some("3"), ParseFault::MissingRightParen));
    assert_eq!(e.message(), "[line 1] Error at '3': could not find matching right paren");
}

#[test]
fn missing_closing_paren_cites_the_line_of_the_end() {
    let e = parse_source("(1 +\n2\n").unwrap_err();
    assert_eq!(e, failure(3, None, ParseFault::MissingRightParen));
    assert_eq!(e.message(), "[line 3] Error at end: could not find matching right paren");
}

#[test]
fn missing_operand_at_the_end() {
    let e = parse_source("1 +").unwrap_err();
    assert_eq!(e, failure(1, None, ParseFault::ReachedEof));
    assert_eq!(e.message(), "[line 1] Error at end: reached EOF");
    assert_eq!(parse_source(""), Err(failure(1, None, ParseFault::ReachedEof)));
    assert_eq!(parse_source("-"), Err(failure(1, None, ParseFault::ReachedEof)));
    assert_eq!(parse_source("("), Err(failure(1, None, ParseFault::ReachedEof)));
    assert_eq!(parse_source("1 ? 2 :"), Err(failure(1, None, ParseFault::ReachedEof)));
    assert_eq!(parse_source("1 *\n\n"), Err(failure(3, None, ParseFault::ReachedEof)));
}

#[test]
fn token_that_begins_no_expression() {
    let e = parse_source(")").unwrap_err();
    assert_eq!(e, failure(1, Some(")"), ParseFault::UnknownToken));
    assert_eq!(e.message(), "[line 1] Error at ')': unknown token");
    assert_eq!(parse_source("1 + *"), Err(failure(1, Some("*"), ParseFault::UnknownToken)));
    assert_eq!(parse_source("\n\nwhile"), Err(failure(3, Some("while"), ParseFault::UnknownToken)));
    assert_eq!(parse_source("( + 1 2 )"), Err(failure(1, Some("+"), ParseFault::UnknownToken)));
}

#[test]
fn first_error_ends_the_parse() {
    assert_eq!(parse_source("1 + * ("), Err(failure(1, Some("*"), ParseFault::UnknownToken)));
}

#[test]
fn tokens_after_the_expression_are_left() {
    let mut p = Parser::new(scan("1 2").unwrap());
    assert_eq!(expression(&mut p), Ok(Expr::IntLiteral(1)));
    assert_eq!(p.cur, 1);
    assert_eq!(expression(&mut p), Ok(Expr::IntLiteral(2)));
    assert_eq!(p.cur, 2);
    assert_eq!(expression(&mut p), Err(failure(1, None, ParseFault::ReachedEof)));
    assert_eq!(p.cur, 3);
    assert_eq!(expression(&mut p), Err(failure(0, None, ParseFault::ReachedEof)));
    assert_eq!(p.cur, 3);
}

#[test]
fn parser_starts_at_the_first_token() {
    let tokens = scan("1 + 2").unwrap();
    let p = Parser::new(scan("1 + 2").unwrap());
    assert_eq!(p.cur, 0);
    assert_eq!(p.tokens, tokens);
}

#[test]
fn tokens_without_an_end_token() {
    let one = Token::new(TokenType::Number, "1".to_string(), Literal::Number("1".to_string()), 1);
    assert_eq!(parse_expression(vec![]), Err(failure(0, None, ParseFault::ReachedEof)));
    assert_eq!(
        parse_expression(vec![one.clone()]),
        Err(failure(1, Some("1"), ParseFault::ReachedEof))
    );
    assert_eq!(
        parse_expression(vec![one.clone(), op(TokenType::RightParen, ")")]),
        Ok(Expr::IntLiteral(1))
    );
    assert_eq!(
        parse_expression(vec![
            op(TokenType::LeftParen, "("),
            op(TokenType::LeftParen, "("),
            one,
            op(TokenType::RightParen, ")"),
        ]),
        Err(failure(1, Some("("), ParseFault::ReachedEof))
    );
}

#[test]
fn string_token_without_payload_gives_its_text() {
    let t = Token::new(TokenType::Str, "raw".to_string(), Literal::Nothing, 1);
    let end = Token::new(TokenType::Eof, String::new(), Literal::Nothing, 1);
    assert_eq!(parse_expression(vec![t, end]), Ok(Expr::StringLiteral("raw".to_string())));
}

#[test]
fn error_at_a_token_and_at_the_end_token() {
    let t = Token::new(TokenType::Star, "*".to_string(), Literal::Nothing, 9);
    assert_eq!(parse_error(&t, ParseFault::UnknownToken), failure(9, Some("*"), ParseFault::UnknownToken));
    let end = Token::new(TokenType::Eof, String::new(), Literal::Nothing, 4);
    assert_eq!(parse_error(&end, ParseFault::ReachedEof), failure(4, None, ParseFault::ReachedEof));
}

#[test]
fn every_fault_has_its_text() {
    assert_eq!(
        failure(2, Some("x"), ParseFault::ReachedEof).message(),
        "[line 2] Error at 'x': reached EOF"
    );
    assert_eq!(
        failure(10, None, ParseFault::UnknownToken).message(),
        "[line 10] Error at end: unknown token"
    );
    assert_eq!(
        failure(4294967295, Some("?"), ParseFault::MalformedTernary).message(),
        "[line 4294967295] Error at '?': Unable to parse rhs of ternary."
    );
}

fn spelled(e: &Expr) -> Vec<TokenType> {
    match e {
        Expr::StringLiteral(_) => vec![TokenType::Str],
        Expr::IntLiteral(_) | Expr::FloatLiteral(_) => vec![TokenType::Number],
        Expr::BoolLiteral(true) => vec![TokenType::True],
        Expr::BoolLiteral(false) => vec![TokenType::False],
        Expr::NilLiteral() => vec![TokenType::Nil],
        Expr::Unary(operand, op) => [vec![op.token_type], spelled(operand)].concat(),
        Expr::Binary(left, op, right) => {
            [spelled(left), vec![op.token_type], spelled(right)].concat()
        }
        Expr::Ternary(condition, if_true, if_false) => [
            spelled(condition),
            vec![TokenType::QuestionMark],
            spelled(if_true),
            vec![TokenType::Colon],
            spelled(if_false),
        ]
        .concat(),
        Expr::Grouping(inner) => {
            [vec![TokenType::LeftParen], spelled(inner), vec![TokenType::RightParen]].concat()
        }
    }
}

#[test]
fn tree_is_written_with_the_tokens_taken() {
    for source in [
        "1",
        "-1",
        "!-!x",
        "1 + 2 * 3 - 4 / 5",
        "(1 + 2) * (nil == \"a\")",
        "1 < 2 ? 3 : 4",
        "1, 2, 3 ? true : false : nil",
        "a ? b : (c ? d : e)",
        "1 >= 2 != 3 <= 4",
        "1 2 3",
        "(1) )",
    ] {
        let tokens = scan(source).unwrap();
        let kinds: Vec<TokenType> = tokens.iter().map(|t| t.token_type).collect();
        let mut p = Parser::new(tokens);
        let tree = expression(&mut p).unwrap();
        assert!(0 < p.cur && p.cur < kinds.len(), "{}", source);
        assert_eq!(spelled(&tree), kinds[..p.cur].to_vec(), "{}", source);
    }
}
