use rslox::interpreter::{
    apply_binary, apply_unary, are_equal, eval_binary_boolean_op, eval_binary_numeric_op,
    interpret, is_truthful, settle_answer, to_string, Answer, ArithOp, Comparison,
    Control, EvalError, Evaluation, Fault, Frame, Nil, Pending, Request, Value,
};
use rslox::parser::parse_expression;
use rslox::scanner::scan;
use rslox::syntax_tree::{visit_any, Expr};
use rslox::token::{Literal, Token, TokenType};
use rslox::Either;

fn answer(request: &Request) -> Answer {
    match request {
        Request::Decimal(text) => match text.parse::<f64>() {
            Ok(v) => Answer::Number(v.to_bits()),
            Err(_) => Answer::Invalid,
        },
        Request::Widen(v) => Answer::Number((*v as f64).to_bits()),
        Request::Arithmetic(op, a, b) => {
            let (x, y) = (f64::from_bits(*a), f64::from_bits(*b));
            let z = match op {
                ArithOp::Add => x + y,
                ArithOp::Subtract => x - y,
                ArithOp::Multiply => x * y,
                ArithOp::Divide => x / y,
            };
            Answer::Number(z.to_bits())
        }
        Request::Format(bits) => Answer::Text(format!("{}", f64::from_bits(*bits))),
    }
}

fn drive_logged(mut evaluation: Evaluation) -> (Result<Value, EvalError>, Vec<Request>) {
    let mut asked = Vec::new();
    loop {
        let reply = match &evaluation.control {
            Control::Await(request, _) => {
                asked.push(request.clone());
                answer(request)
            }
            Control::Return(_) => break,
            Control::Evaluate(_) => unreachable!(),
        };
        evaluation = evaluation.resume(reply);
    }
    assert!(evaluation.is_settled());
    assert!(evaluation.stack.is_empty());
    match evaluation.control {
        Control::Return(result) => (result, asked),
        _ => unreachable!(),
    }
}

fn drive(evaluation: Evaluation) -> Result<Value, EvalError> {
    drive_logged(evaluation).0
}

fn tree(source: &str) -> Expr {
    parse_expression(scan(source).unwrap()).unwrap()
}

fn evaluate(source: &str) -> Result<Value, EvalError> {
    drive(interpret(tree(source)))
}

fn float(v: f64) -> Value {
    Value::Float(v.to_bits())
}

fn text(s: &str) -> Value {
    Value::Str(s.to_string())
}

fn op(kind: TokenType, lexeme: &str, line: u32) -> Token {
    Token::new(kind, lexeme.to_string(), Literal::Nothing, line)
}

fn fault(line: u32, fault: Fault) -> EvalError {
    EvalError { line, fault }
}

#[test]
fn sum_of_integers_is_a_float() {
    assert_eq!(evaluate("1 + 2"), Ok(float(3.0)));
}

#[test]
fn string_plus_number_is_a_string() {
    assert_eq!(evaluate("\"a\" + 1"), Ok(text("a1")));
}

#[test]
fn integer_equals_float_of_the_same_value() {
    assert_eq!(evaluate("1 == 1.0"), Ok(Value::Boolean(true)));
}

#[test]
fn branch_not_taken_is_not_evaluated() {
    let (result, asked) = drive_logged(interpret(tree("true ? 1 : (1/0)")));
    assert_eq!(result, Ok(float(1.0)));
    assert_eq!(asked, vec![Request::Widen(1)]);
    let (result, asked) = drive_logged(interpret(tree("false ? (1/0) : 2")));
    assert_eq!(result, Ok(float(2.0)));
    assert_eq!(asked, vec![Request::Widen(2)]);
    let (result, asked) = drive_logged(interpret(tree("nil ? -\"a\" : \"b\"")));
    assert_eq!(result, Ok(text("b")));
    assert_eq!(asked, vec![]);
}

#[test]
fn equality_across_variants_is_false_and_never_an_error() {
    assert_eq!(evaluate("1 == \"1\""), Ok(Value::Boolean(false)));
    assert_eq!(evaluate("1 != \"1\""), Ok(Value::Boolean(true)));
    assert_eq!(evaluate("nil == false"), Ok(Value::Boolean(false)));
    assert_eq!(evaluate("nil != false"), Ok(Value::Boolean(true)));
    assert_eq!(evaluate("true == 1"), Ok(Value::Boolean(false)));
    assert_eq!(evaluate("\"nil\" == nil"), Ok(Value::Boolean(false)));
    assert_eq!(evaluate("0 == false"), Ok(Value::Boolean(false)));
    assert_eq!(evaluate("\"true\" != true"), Ok(Value::Boolean(true)));
}

#[test]
fn equality_within_a_variant() {
    assert_eq!(evaluate("nil == nil"), Ok(Value::Boolean(true)));
    assert_eq!(evaluate("nil != nil"), Ok(Value::Boolean(false)));
    assert_eq!(evaluate("true == true"), Ok(Value::Boolean(true)));
    assert_eq!(evaluate("true == false"), Ok(Value::Boolean(false)));
    assert_eq!(evaluate("\"ab\" == \"ab\""), Ok(Value::Boolean(true)));
    assert_eq!(evaluate("\"ab\" == \"ba\""), Ok(Value::Boolean(false)));
    assert_eq!(evaluate("2 == 2"), Ok(Value::Boolean(true)));
    assert_eq!(evaluate("2 != 3"), Ok(Value::Boolean(true)));
    assert_eq!(evaluate("0.1 + 0.2 == 0.3"), Ok(Value::Boolean(false)));
    assert_eq!(evaluate("0 == -0"), Ok(Value::Boolean(true)));
    assert_eq!(evaluate("0/0 == 0/0"), Ok(Value::Boolean(false)));
    assert_eq!(evaluate("0/0 != 0/0"), Ok(Value::Boolean(true)));
}

#[test]
fn literals_evaluate_to_themselves() {
    assert_eq!(evaluate("\"hi\""), Ok(text("hi")));
    assert_eq!(evaluate("true"), Ok(Value::Boolean(true)));
    assert_eq!(evaluate("false"), Ok(Value::Boolean(false)));
    assert_eq!(evaluate("nil"), Ok(Value::Nil(Nil {})));
    assert_eq!(evaluate("7"), Ok(float(7.0)));
    assert_eq!(evaluate("2.5"), Ok(float(2.5)));
    assert_eq!(evaluate("9223372036854775807"), Ok(float(9223372036854775807.0)));
    assert_eq!(evaluate("18446744073709551616"), Ok(float(18446744073709551616.0)));
}

#[test]
fn grouping_is_what_is_inside() {
    assert_eq!(evaluate("(7)"), Ok(float(7.0)));
    assert_eq!(evaluate("((\"x\"))"), Ok(text("x")));
    assert_eq!(evaluate("(1 + 2) * 3"), Ok(float(9.0)));
}

#[test]
fn arithmetic() {
    assert_eq!(evaluate("7 - 10"), Ok(float(-3.0)));
    assert_eq!(evaluate("6 * 7"), Ok(float(42.0)));
    assert_eq!(evaluate("10 / 4"), Ok(float(2.5)));
    assert_eq!(evaluate("1.5 + 2.25"), Ok(float(3.75)));
    assert_eq!(evaluate("1 + 2 * 3"), Ok(float(7.0)));
    assert_eq!(evaluate("1 - 2 - 3"), Ok(float(-4.0)));
    assert_eq!(evaluate("8 / 4 / 2"), Ok(float(1.0)));
    assert_eq!(evaluate("0.1 + 0.2"), Ok(float(0.1 + 0.2)));
    assert_eq!(evaluate("1 / 0"), Ok(float(f64::INFINITY)));
    assert_eq!(evaluate("-1 / 0"), Ok(float(f64::NEG_INFINITY)));
}

#[test]
fn operands_are_asked_for_from_left_to_right() {
    let (result, asked) = drive_logged(interpret(tree("8 - 2 * 3")));
    assert_eq!(result, Ok(float(2.0)));
    assert_eq!(
        asked,
        vec![
            Request::Widen(8),
            Request::Widen(2),
            Request::Widen(3),
            Request::Arithmetic(ArithOp::Multiply, 2.0f64.to_bits(), 3.0f64.to_bits()),
            Request::Arithmetic(ArithOp::Subtract, 8.0f64.to_bits(), 6.0f64.to_bits()),
        ]
    );
}

#[test]
fn negation() {
    assert_eq!(evaluate("-5"), Ok(float(-5.0)));
    assert_eq!(evaluate("--5"), Ok(float(5.0)));
    assert_eq!(evaluate("-0"), Ok(float(-0.0)));
    assert_eq!(evaluate("-2.5"), Ok(float(-2.5)));
    assert_eq!(evaluate("-(1 / 0)"), Ok(float(f64::NEG_INFINITY)));
    assert_eq!(evaluate("-\"a\""), Err(fault(1, Fault::NegatedNonNumber)));
    assert_eq!(evaluate("-true"), Err(fault(1, Fault::NegatedNonNumber)));
    assert_eq!(evaluate("\n-nil"), Err(fault(2, Fault::NegatedNonNumber)));
}

#[test]
fn not_negates_truthiness() {
    assert_eq!(evaluate("!true"), Ok(Value::Boolean(false)));
    assert_eq!(evaluate("!false"), Ok(Value::Boolean(true)));
    assert_eq!(evaluate("!nil"), Ok(Value::Boolean(true)));
    assert_eq!(evaluate("!0"), Ok(Value::Boolean(false)));
    assert_eq!(evaluate("!\"\""), Ok(Value::Boolean(false)));
    assert_eq!(evaluate("!!nil"), Ok(Value::Boolean(false)));
}

#[test]
fn comparisons() {
    assert_eq!(evaluate("1 < 2"), Ok(Value::Boolean(true)));
    assert_eq!(evaluate("2 < 1"), Ok(Value::Boolean(false)));
    assert_eq!(evaluate("2 < 2"), Ok(Value::Boolean(false)));
    assert_eq!(evaluate("2 <= 2"), Ok(Value::Boolean(true)));
    assert_eq!(evaluate("3 <= 2"), Ok(Value::Boolean(false)));
    assert_eq!(evaluate("3 > 2"), Ok(Value::Boolean(true)));
    assert_eq!(evaluate("2 > 2"), Ok(Value::Boolean(false)));
    assert_eq!(evaluate("2 >= 2"), Ok(Value::Boolean(true)));
    assert_eq!(evaluate("1 >= 2"), Ok(Value::Boolean(false)));
    assert_eq!(evaluate("-1 < 1"), Ok(Value::Boolean(true)));
    assert_eq!(evaluate("-2 < -1"), Ok(Value::Boolean(true)));
    assert_eq!(evaluate("1.5 > 1"), Ok(Value::Boolean(true)));
    assert_eq!(evaluate("0/0 < 1"), Ok(Value::Boolean(false)));
    assert_eq!(evaluate("0/0 >= 1"), Ok(Value::Boolean(false)));
    assert_eq!(evaluate("1 < \"2\""), Err(fault(1, Fault::RightNotNumeric)));
    assert_eq!(evaluate("\"1\" < 2"), Err(fault(1, Fault::LeftNotNumeric)));
    assert_eq!(evaluate("nil >= true"), Err(fault(1, Fault::LeftNotNumeric)));
}

#[test]
fn plus_concatenates_with_a_string() {
    assert_eq!(evaluate("\"a\" + \"b\""), Ok(text("ab")));
    assert_eq!(evaluate("1 + \"a\""), Ok(text("1a")));
    assert_eq!(evaluate("\"a\" + 2.5"), Ok(text("a2.5")));
    assert_eq!(evaluate("2.50 + \"a\""), Ok(text("2.5a")));
    assert_eq!(evaluate("\"a\" + true"), Ok(text("atrue")));
    assert_eq!(evaluate("false + \"a\""), Ok(text("falsea")));
    assert_eq!(evaluate("\"x\" + 1 / 0"), Ok(text("xinf")));
    assert_eq!(evaluate("\"x\" + -1"), Ok(text("x-1")));
    assert_eq!(evaluate("\"a\" + 1 + 2"), Ok(text("a12")));
    assert_eq!(evaluate("1 + 2 + \"a\""), Ok(text("3a")));
    assert_eq!(evaluate("\"a\" + nil"), Err(fault(1, Fault::CannotStringify)));
    assert_eq!(evaluate("nil + \"a\""), Err(fault(1, Fault::CannotStringify)));
}

#[test]
fn arithmetic_needs_numbers() {
    assert_eq!(evaluate("1 - \"a\""), Err(fault(1, Fault::RightNotNumeric)));
    assert_eq!(evaluate("\"a\" - 1"), Err(fault(1, Fault::LeftNotNumeric)));
    assert_eq!(evaluate("\"a\" * \"b\""), Err(fault(1, Fault::LeftNotNumeric)));
    assert_eq!(evaluate("true / 2"), Err(fault(1, Fault::LeftNotNumeric)));
    assert_eq!(evaluate("nil + 1"), Err(fault(1, Fault::LeftNotNumeric)));
    assert_eq!(evaluate("1 + nil"), Err(fault(1, Fault::RightNotNumeric)));
    assert_eq!(evaluate("true + false"), Err(fault(1, Fault::LeftNotNumeric)));
    assert_eq!(evaluate("1 \n\n* nil"), Err(fault(3, Fault::RightNotNumeric)));
}

#[test]
fn failed_operand_is_reported_with_its_side() {
    assert_eq!(
        evaluate("(1 - \"a\") + 2"),
        Err(fault(1, Fault::LeftOperand(Box::new(fault(1, Fault::RightNotNumeric)))))
    );
    assert_eq!(
        evaluate("2 *\n(-nil)"),
        Err(fault(1, Fault::RightOperand(Box::new(fault(2, Fault::NegatedNonNumber)))))
    );
    assert_eq!(
        evaluate("1 + 2 * -\"a\""),
        Err(fault(
            1,
            Fault::RightOperand(Box::new(fault(
                1,
                Fault::RightOperand(Box::new(fault(1, Fault::NegatedNonNumber)))
            )))
        ))
    );
}

#[test]
fn right_operand_of_a_failed_left_one_is_not_evaluated() {
    let (result, asked) = drive_logged(interpret(tree("-\"a\" + 1 / 0")));
    assert_eq!(result, Err(fault(1, Fault::LeftOperand(Box::new(fault(1, Fault::NegatedNonNumber))))));
    assert_eq!(asked, vec![]);
}

#[test]
fn error_passes_through_unary_grouping_and_condition() {
    assert_eq!(evaluate("!(-nil)"), Err(fault(1, Fault::NegatedNonNumber)));
    assert_eq!(evaluate("-nil ? 1 : 2"), Err(fault(1, Fault::NegatedNonNumber)));
    assert_eq!(evaluate("true ? -nil : 2"), Err(fault(1, Fault::NegatedNonNumber)));
}

#[test]
fn condition_goes_by_truthiness() {
    assert_eq!(evaluate("nil ? 1 : 2"), Ok(float(2.0)));
    assert_eq!(evaluate("0 ? 1 : 2"), Ok(float(1.0)));
    assert_eq!(evaluate("\"\" ? 1 : 2"), Ok(float(1.0)));
    assert_eq!(evaluate("1 < 2 ? \"yes\" : \"no\""), Ok(text("yes")));
    assert_eq!(evaluate("1 > 2 ? \"yes\" : \"no\""), Ok(text("no")));
}

#[test]
fn operators_that_the_language_does_not_have() {
    assert_eq!(evaluate("1, 2"), Err(fault(1, Fault::UnknownBinary)));
    assert_eq!(
        evaluate("true ? 1 : 2 : 3"),
        Err(fault(1, Fault::UnknownBinary))
    );
    let weird = Expr::Unary(Box::new(Expr::NilLiteral()), op(TokenType::Plus, "+", 4));
    assert_eq!(drive(interpret(weird)), Err(fault(4, Fault::UnknownUnary)));
}

#[test]
fn number_literal_that_is_no_numeral() {
    let odd = Expr::FloatLiteral("1.2.3".to_string());
    assert_eq!(drive(interpret(odd)), Err(fault(0, Fault::MalformedNumber)));
    let under = Expr::Unary(Box::new(Expr::FloatLiteral("x".to_string())), op(TokenType::Minus, "-", 1));
    assert_eq!(drive(interpret(under)), Err(fault(0, Fault::MalformedNumber)));
}

#[test]
fn evaluation_halts_at_its_first_request() {
    let evaluation = interpret(tree("1 + 2"));
    assert!(evaluation.is_settled());
    assert_eq!(evaluation.control, Control::Await(Request::Widen(1), Pending::Number));
    assert_eq!(
        evaluation.stack,
        vec![Frame::LeftOf(op(TokenType::Plus, "+", 1), Expr::IntLiteral(2))]
    );
    let evaluation = evaluation.resume(Answer::Number(1.0f64.to_bits()));
    assert_eq!(evaluation.control, Control::Await(Request::Widen(2), Pending::Number));
    assert_eq!(evaluation.stack, vec![Frame::RightOf(op(TokenType::Plus, "+", 1), float(1.0))]);
    let evaluation = evaluation.resume(Answer::Number(2.0f64.to_bits()));
    assert_eq!(
        evaluation.control,
        Control::Await(
            Request::Arithmetic(ArithOp::Add, 1.0f64.to_bits(), 2.0f64.to_bits()),
            Pending::Number
        )
    );
    assert_eq!(evaluation.stack, vec![]);
    let evaluation = evaluation.resume(Answer::Number(3.0f64.to_bits()));
    assert_eq!(evaluation.control, Control::Return(Ok(float(3.0))));
    assert!(evaluation.is_settled());
}

#[test]
fn evaluation_without_numbers_needs_no_answer() {
    let evaluation = interpret(tree("!nil == true"));
    assert_eq!(evaluation.control, Control::Return(Ok(Value::Boolean(true))));
    assert!(evaluation.stack.is_empty());
}

#[test]
fn finished_evaluation_stays_as_it_is() {
    let evaluation = interpret(tree("nil")).resume(Answer::Number(0));
    assert_eq!(evaluation.control, Control::Return(Ok(Value::Nil(Nil {}))));
    let evaluation = evaluation.run();
    assert_eq!(evaluation.control, Control::Return(Ok(Value::Nil(Nil {}))));
}

#[test]
fn answer_of_the_wrong_kind_is_a_fault() {
    let evaluation = interpret(tree("1")).resume(Answer::Text("one".to_string()));
    assert_eq!(evaluation.control, Control::Return(Err(fault(0, Fault::UnexpectedAnswer))));
    let evaluation = interpret(tree("1")).resume(Answer::Invalid);
    assert_eq!(evaluation.control, Control::Return(Err(fault(0, Fault::UnexpectedAnswer))));
    let evaluation = interpret(tree("\"a\" + 1"))
        .resume(Answer::Number(1.0f64.to_bits()))
        .resume(Answer::Number(0));
    assert_eq!(evaluation.control, Control::Return(Err(fault(0, Fault::UnexpectedAnswer))));
}

#[test]
fn answers_settle_what_is_pending() {
    assert_eq!(settle_answer(Pending::Number, Answer::Number(5)), Ok(Value::Float(5)));
    assert_eq!(settle_answer(Pending::Numeral, Answer::Number(5)), Ok(Value::Float(5)));
    assert_eq!(settle_answer(Pending::Numeral, Answer::Invalid), Err(fault(0, Fault::MalformedNumber)));
    assert_eq!(settle_answer(Pending::Number, Answer::Invalid), Err(fault(0, Fault::UnexpectedAnswer)));
    assert_eq!(
        settle_answer(Pending::Append("ab".to_string()), Answer::Text("cd".to_string())),
        Ok(text("abcd"))
    );
    assert_eq!(
        settle_answer(Pending::Prepend("ab".to_string()), Answer::Text("cd".to_string())),
        Ok(text("cdab"))
    );
    assert_eq!(
        settle_answer(Pending::Append("ab".to_string()), Answer::Number(1)),
        Err(fault(0, Fault::UnexpectedAnswer))
    );
}

#[test]
fn truthiness() {
    assert!(!is_truthful(Value::Nil(Nil {})));
    assert!(is_truthful(Value::Boolean(true)));
    assert!(!is_truthful(Value::Boolean(false)));
    assert!(is_truthful(float(0.0)));
    assert!(is_truthful(float(f64::NAN)));
    assert!(is_truthful(text("")));
    assert!(is_truthful(text("false")));
}

#[test]
fn equality_of_values() {
    assert!(are_equal(&float(1.0), &float(1.0)));
    assert!(!are_equal(&float(1.0), &float(2.0)));
    assert!(are_equal(&float(0.0), &float(-0.0)));
    assert!(!are_equal(&float(f64::NAN), &float(f64::NAN)));
    assert!(are_equal(&Value::Boolean(false), &Value::Boolean(false)));
    assert!(!are_equal(&Value::Boolean(false), &Value::Boolean(true)));
    assert!(are_equal(&text("a"), &text("a")));
    assert!(!are_equal(&text("a"), &text("b")));
    assert!(are_equal(&Value::Nil(Nil {}), &Value::Nil(Nil {})));
    assert!(!are_equal(&float(1.0), &text("1")));
    assert!(!are_equal(&text("1"), &float(1.0)));
    assert!(!are_equal(&Value::Nil(Nil {}), &Value::Boolean(false)));
    assert!(!are_equal(&Value::Boolean(true), &float(1.0)));
    assert!(!are_equal(&text("nil"), &Value::Nil(Nil {})));
}

#[test]
fn text_of_a_value() {
    assert_eq!(to_string(text("abc")), Ok(Either::Left("abc".to_string())));
    assert_eq!(to_string(Value::Boolean(true)), Ok(Either::Left("true".to_string())));
    assert_eq!(to_string(Value::Boolean(false)), Ok(Either::Left("false".to_string())));
    assert_eq!(to_string(float(1.5)), Ok(Either::Right(1.5f64.to_bits())));
    assert_eq!(to_string(Value::Nil(Nil {})), Err(Fault::CannotStringify));
}

#[test]
fn value_as_shown() {
    assert_eq!(visit_any(text("abc")), Either::Left("abc".to_string()));
    assert_eq!(visit_any(Value::Boolean(true)), Either::Left("true".to_string()));
    assert_eq!(visit_any(Value::Boolean(false)), Either::Left("false".to_string()));
    assert_eq!(visit_any(Value::Nil(Nil {})), Either::Left("nil".to_string()));
    assert_eq!(visit_any(float(-2.0)), Either::Right((-2.0f64).to_bits()));
}

#[test]
fn arithmetic_on_values_asks_for_the_operation() {
    assert_eq!(
        eval_binary_numeric_op(&float(1.0), &float(2.0), ArithOp::Divide),
        Ok(Request::Arithmetic(ArithOp::Divide, 1.0f64.to_bits(), 2.0f64.to_bits()))
    );
    assert_eq!(
        eval_binary_numeric_op(&float(1.0), &text("2"), ArithOp::Add),
        Err(Fault::RightNotNumeric)
    );
    assert_eq!(
        eval_binary_numeric_op(&Value::Nil(Nil {}), &float(1.0), ArithOp::Add),
        Err(Fault::LeftNotNumeric)
    );
    assert_eq!(
        eval_binary_numeric_op(&text("1"), &text("2"), ArithOp::Multiply),
        Err(Fault::LeftNotNumeric)
    );
}

#[test]
fn comparison_of_values() {
    assert_eq!(
        eval_binary_boolean_op(&float(1.0), &float(2.0), Comparison::Less),
        Ok(Value::Boolean(true))
    );
    assert_eq!(
        eval_binary_boolean_op(&float(1.0), &float(2.0), Comparison::Greater),
        Ok(Value::Boolean(false))
    );
    assert_eq!(
        eval_binary_boolean_op(&float(2.0), &float(2.0), Comparison::GreaterEqual),
        Ok(Value::Boolean(true))
    );
    assert_eq!(
        eval_binary_boolean_op(&float(2.0), &float(2.0), Comparison::LessEqual),
        Ok(Value::Boolean(true))
    );
    assert_eq!(
        eval_binary_boolean_op(&float(f64::NAN), &float(2.0), Comparison::LessEqual),
        Ok(Value::Boolean(false))
    );
    assert_eq!(
        eval_binary_boolean_op(&float(1.0), &Value::Boolean(true), Comparison::Less),
        Err(Fault::RightNotNumeric)
    );
    assert_eq!(
        eval_binary_boolean_op(&text("a"), &float(1.0), Comparison::Less),
        Err(Fault::LeftNotNumeric)
    );
}

#[test]
fn operators_on_values() {
    assert_eq!(apply_unary(&op(TokenType::Minus, "-", 1), float(2.0)), Ok(float(-2.0)));
    assert_eq!(apply_unary(&op(TokenType::Bang, "!", 1), float(2.0)), Ok(Value::Boolean(false)));
    assert_eq!(
        apply_unary(&op(TokenType::Star, "*", 6), float(2.0)),
        Err(fault(6, Fault::UnknownUnary))
    );
    assert_eq!(
        apply_binary(&op(TokenType::Plus, "+", 1), text("a"), text("b")),
        Control::Return(Ok(text("ab")))
    );
    assert_eq!(
        apply_binary(&op(TokenType::Plus, "+", 1), text("a"), float(1.0)),
        Control::Await(Request::Format(1.0f64.to_bits()), Pending::Append("a".to_string()))
    );
    assert_eq!(
        apply_binary(&op(TokenType::Plus, "+", 1), float(1.0), text("a")),
        Control::Await(Request::Format(1.0f64.to_bits()), Pending::Prepend("a".to_string()))
    );
    assert_eq!(
        apply_binary(&op(TokenType::Star, "*", 1), float(2.0), float(3.0)),
        Control::Await(
            Request::Arithmetic(ArithOp::Multiply, 2.0f64.to_bits(), 3.0f64.to_bits()),
            Pending::Number
        )
    );
    assert_eq!(
        apply_binary(&op(TokenType::EqualEqual, "==", 1), float(2.0), text("2")),
        Control::Return(Ok(Value::Boolean(false)))
    );
    assert_eq!(
        apply_binary(&op(TokenType::BangEqual, "!=", 1), float(2.0), text("2")),
        Control::Return(Ok(Value::Boolean(true)))
    );
    assert_eq!(
        apply_binary(&op(TokenType::And, "and", 8), float(2.0), float(2.0)),
        Control::Return(Err(fault(8, Fault::UnknownBinary)))
    );
}

#[test]
fn failure_as_text() {
    assert_eq!(
        fault(3, Fault::NegatedNonNumber).message(),
        "[line 3] failed to convert value to a number"
    );
    assert_eq!(fault(1, Fault::UnknownUnary).message(), "[line 1] could not evaluate unary expression");
    assert_eq!(fault(1, Fault::LeftNotNumeric).message(), "[line 1] left value is not a numeric type.");
    assert_eq!(fault(1, Fault::RightNotNumeric).message(), "[line 1] right value is not a numeric type.");
    assert_eq!(fault(12, Fault::CannotStringify).message(), "[line 12] cannot parse type into string");
    assert_eq!(fault(1, Fault::UnknownBinary).message(), "[line 1] could not evaluate binary expression");
    assert_eq!(fault(0, Fault::MalformedNumber).message(), "[line 0] could not parse number");
    assert_eq!(fault(0, Fault::UnexpectedAnswer).message(), "[line 0] unexpected answer to a request");
    assert_eq!(
        evaluate("2 *\n(-nil)").unwrap_err().message(),
        "[line 1] Could not evaluate right operand of binary expression. Reason = [line 2] failed to convert value to a number"
    );
    assert_eq!(
        evaluate("(1 - \"a\") + 2").unwrap_err().message(),
        "[line 1] Could not evaluate left operand of binary expression. Reason = [line 1] right value is not a numeric type."
    );
}

#[test]
fn request_and_result_of_an_evaluation() {
    let evaluation = interpret(tree("1 + 2"));
    assert_eq!(evaluation.request(), Some(&Request::Widen(1)));
    assert_eq!(evaluation.into_result(), None);
    let evaluation = interpret(tree("\"a\""));
    assert_eq!(evaluation.request(), None);
    assert_eq!(evaluation.into_result(), Some(Ok(text("a"))));
    let evaluation = interpret(tree("-nil"));
    assert_eq!(evaluation.request(), None);
    assert_eq!(evaluation.into_result(), Some(Err(fault(1, Fault::NegatedNonNumber))));
    let unfinished = Evaluation {
        control: Control::Return(Ok(text("a"))),
        stack: vec![Frame::Unary(op(TokenType::Bang, "!", 1))],
    };
    assert!(!unfinished.is_settled());
    assert_eq!(unfinished.request(), None);
    let unfinished = Evaluation {
        control: Control::Return(Ok(text("a"))),
        stack: vec![Frame::Unary(op(TokenType::Bang, "!", 1))],
    };
    assert_eq!(unfinished.into_result(), None);
    let unfinished = Evaluation {
        control: Control::Return(Ok(text("a"))),
        stack: vec![Frame::Unary(op(TokenType::Bang, "!", 1))],
    };
    assert_eq!(unfinished.run().into_result(), Some(Ok(Value::Boolean(false))));
}
