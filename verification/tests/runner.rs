use rslox::interpreter::{Answer, Control, Request, Value};
use rslox::{err, Either, RsLox, Run};

#[test]
fn error_text_has_the_line_and_the_message() {
    assert_eq!(err(3, "unterminated string"), Err("3: `unterminated string`".to_string()));
    assert_eq!(err(0, ""), Err("0: ``".to_string()));
    assert_eq!(err(4294967295, "x"), Err("4294967295: `x`".to_string()));
}

#[test]
fn new_runner_has_no_error() {
    assert!(!RsLox::new().had_error);
}

#[test]
fn reported_error_is_remembered() {
    let mut rslox = RsLox::new();
    assert_eq!(rslox.error(7, "bad".to_string()), "[line 7] Error : bad");
    assert!(rslox.had_error);
}

#[test]
fn scan_error_is_reported() {
    let mut rslox = RsLox::new();
    assert_eq!(
        rslox.run("1 +\n #".to_string()),
        Run::LexFailure("[line 2] Error : 2: `Unexpected token `#` (35).`".to_string())
    );
    assert!(rslox.had_error);
    let mut rslox = RsLox::new();
    assert_eq!(
        rslox.run("\"open".to_string()),
        Run::LexFailure("[line 1] Error : 1: `unterminated string`".to_string())
    );
    assert!(rslox.had_error);
}

#[test]
fn parse_error_is_given_as_text() {
    let mut rslox = RsLox::new();
    assert_eq!(
        rslox.run("(1 + 2".to_string()),
        Run::ParseFailure("[line 1] Error at end: could not find matching right paren".to_string())
    );
    assert!(!rslox.had_error);
    assert_eq!(
        rslox.run("1 + )".to_string()),
        Run::ParseFailure("[line 1] Error at ')': unknown token".to_string())
    );
}

#[test]
fn program_is_run_up_to_its_first_request() {
    let mut rslox = RsLox::new();
    let evaluation = match rslox.run("1 + 2".to_string()) {
        Run::Started(evaluation) => evaluation,
        other => panic!("{:?}", other),
    };
    assert!(!rslox.had_error);
    assert_eq!(evaluation.control, Control::Await(Request::Widen(1), rslox::interpreter::Pending::Number));
    let evaluation = evaluation
        .resume(Answer::Number(1.0f64.to_bits()))
        .resume(Answer::Number(2.0f64.to_bits()))
        .resume(Answer::Number(3.0f64.to_bits()));
    assert_eq!(evaluation.control, Control::Return(Ok(Value::Float(3.0f64.to_bits()))));
}

#[test]
fn program_without_numbers_is_run_to_its_end() {
    let mut rslox = RsLox::new();
    match rslox.run("\"a\" + \"b\" == \"ab\"".to_string()) {
        Run::Started(evaluation) => {
            assert_eq!(evaluation.control, Control::Return(Ok(Value::Boolean(true))))
        }
        other => panic!("{:?}", other),
    }
}

#[test]
fn either_holds_one_of_two() {
    let left: Either<String, u64> = Either::Left("a".to_string());
    let right: Either<String, u64> = Either::Right(1);
    assert_ne!(left, right);
    assert_eq!(left.clone(), Either::Left("a".to_string()));
}
