//! Evaluation of a syntax tree to a value.
//!
//! Numbers are IEEE 754 doubles held by their bits (see [`crate::number`]).
//! What needs rounding is not computed here: to make a number from a
//! literal, to add, subtract, multiply or divide, or to write a number out in
//! decimal, an [`Evaluation`] stops with a [`Request`] and goes on when it is
//! handed the [`Answer`]. Everything else is decided here: the order of
//! evaluation, which operand types an operator takes, truthiness, equality
//! and comparison, concatenation, and which error is reported.

use crate::number::{equal, less, less_equal, negate, negated, number_eq, number_le, number_lt};
use crate::semantics::{
    driven, eval, lemma_interpret_evaluates, lemma_run_keeps_meaning, lemma_supply_keeps_meaning,
    meaning, respond, FloatModel,
};
use crate::syntax_tree::{bool_text, push_bool, size, Expr, ExprView};
use crate::text::{decimal, push_decimal};
use crate::token::{Token, TokenType, TokenView};
use crate::Either;
use vstd::prelude::*;
use vstd::string::StringExecFns;

verus! {

/// The value of `nil`.
#[derive(Debug, Clone, Copy, PartialEq, Eq, Structural)]
pub struct Nil {}

/// A value at run time.
///
/// Integer literals are widened to doubles when they are evaluated, so every
/// number at run time is a `Float`.
///
/// `==` on values compares numbers bit by bit. The equality of the language,
/// in which no NaN equals anything and the two zeros are equal, is
/// [`are_equal`].
#[derive(Debug, Clone, PartialEq, Eq)]
pub enum Value {
    Str(String),
    /// The bits of a double.
    Float(u64),
    Boolean(bool),
    Nil(Nil),
}

/// The mathematical value of a [`Value`].
pub enum ValueView {
    Str(Seq<char>),
    Float(u64),
    Boolean(bool),
    Nil,
}

impl View for Value {
    type V = ValueView;

    open spec fn view(&self) -> ValueView {
        match self {
            Value::Str(s) => ValueView::Str(s@),
            Value::Float(bits) => ValueView::Float(*bits),
            Value::Boolean(b) => ValueView::Boolean(*b),
            Value::Nil(_) => ValueView::Nil,
        }
    }
}

/// What went wrong with an operator.
#[derive(Debug, PartialEq, Eq)]
pub enum Fault {
    /// `-` before what is no number.
    NegatedNonNumber,
    /// A unary operator that is neither `-` nor `!`.
    UnknownUnary,
    /// The left operand of an arithmetic operator or a comparison is no number.
    LeftNotNumeric,
    /// The right operand of an arithmetic operator or a comparison is no number.
    RightNotNumeric,
    /// `+` between a string and a value that has no text, such as `nil`.
    CannotStringify,
    /// A binary operator that the language does not have.
    UnknownBinary,
    /// A number literal whose text is no numeral.
    MalformedNumber,
    /// An answer of another kind than the request asked for.
    UnexpectedAnswer,
    /// The left operand of a binary operator failed, for the reason given.
    LeftOperand(Box<EvalError>),
    /// The right operand of a binary operator failed, for the reason given.
    RightOperand(Box<EvalError>),
}

/// A failed evaluation: the fault, and the line of the operator it arose at.
/// The line is 0 for the two faults that belong to no operator: a malformed
/// number literal and an unexpected answer.
#[derive(Debug, PartialEq, Eq)]
pub struct EvalError {
    pub line: u32,
    pub fault: Fault,
}

/// One of the four arithmetic operations on numbers.
#[derive(Debug, Clone, Copy, PartialEq, Eq, Structural)]
pub enum ArithOp {
    Add,
    Subtract,
    Multiply,
    Divide,
}

/// One of the four order comparisons of numbers.
#[derive(Debug, Clone, Copy, PartialEq, Eq, Structural)]
pub enum Comparison {
    Greater,
    GreaterEqual,
    Less,
    LessEqual,
}

/// Work on numbers that an evaluation asks for.
#[derive(Debug, Clone, PartialEq, Eq)]
pub enum Request {
    /// The double nearest to the decimal numeral.
    Decimal(String),
    /// The double nearest to the integer.
    Widen(i64),
    /// The result of the operation on the two doubles, left operand first.
    Arithmetic(ArithOp, u64, u64),
    /// The decimal text of the double.
    Format(u64),
}

/// The mathematical value of a [`Request`].
pub enum RequestView {
    Decimal(Seq<char>),
    Widen(i64),
    Arithmetic(ArithOp, u64, u64),
    Format(u64),
}

impl View for Request {
    type V = RequestView;

    open spec fn view(&self) -> RequestView {
        match self {
            Request::Decimal(s) => RequestView::Decimal(s@),
            Request::Widen(v) => RequestView::Widen(*v),
            Request::Arithmetic(op, a, b) => RequestView::Arithmetic(*op, *a, *b),
            Request::Format(bits) => RequestView::Format(*bits),
        }
    }
}

/// The answer to a [`Request`].
#[derive(Debug, Clone, PartialEq, Eq)]
pub enum Answer {
    /// The bits of the double asked for.
    Number(u64),
    /// The text asked for.
    Text(String),
    /// The text of a `Decimal` request is no numeral.
    Invalid,
}

/// The mathematical value of an [`Answer`].
pub enum AnswerView {
    Number(u64),
    Text(Seq<char>),
    Invalid,
}

impl View for Answer {
    type V = AnswerView;

    open spec fn view(&self) -> AnswerView {
        match self {
            Answer::Number(bits) => AnswerView::Number(*bits),
            Answer::Text(s) => AnswerView::Text(s@),
            Answer::Invalid => AnswerView::Invalid,
        }
    }
}

/// Truthiness: `nil` is false, a boolean is itself, everything else is true.
pub open spec fn truthy(v: ValueView) -> bool {
    match v {
        ValueView::Nil => false,
        ValueView::Boolean(b) => b,
        _ => true,
    }
}

/// Equality of values: values of different variants are never equal; numbers
/// are equal as numbers, booleans and strings as such, and `nil` equals `nil`.
pub open spec fn values_equal(left: ValueView, right: ValueView) -> bool {
    match (left, right) {
        (ValueView::Float(a), ValueView::Float(b)) => number_eq(a, b),
        (ValueView::Boolean(a), ValueView::Boolean(b)) => a == b,
        (ValueView::Str(a), ValueView::Str(b)) => a == b,
        (ValueView::Nil, ValueView::Nil) => true,
        _ => false,
    }
}

/// The text of a value, where this crate can write it: `Left` with the text.
/// A number is handed back as `Right`, for its text takes a [`Request`].
/// `nil` has no text.
pub open spec fn stringified(v: ValueView) -> Option<Either<Seq<char>, u64>> {
    match v {
        ValueView::Str(s) => Some(Either::Left(s)),
        ValueView::Float(bits) => Some(Either::Right(bits)),
        ValueView::Boolean(b) => Some(Either::Left(bool_text(b))),
        ValueView::Nil => None,
    }
}

/// The view of a text-or-number pair.
pub open spec fn either_view(e: Either<String, u64>) -> Either<Seq<char>, u64> {
    match e {
        Either::Left(s) => Either::Left(s@),
        Either::Right(bits) => Either::Right(bits),
    }
}

/// The outcome of a comparison of two numbers.
pub open spec fn compared(op: Comparison, a: u64, b: u64) -> bool {
    match op {
        Comparison::Greater => number_lt(b, a),
        Comparison::GreaterEqual => number_le(b, a),
        Comparison::Less => number_lt(a, b),
        Comparison::LessEqual => number_le(a, b),
    }
}

/// What an arithmetic operator does with two values: with two numbers it asks
/// for the operation on them; else it reports the first operand from the left
/// that is no number.
pub open spec fn numeric_op(left: ValueView, right: ValueView, op: ArithOp) -> Result<
    RequestView,
    Fault,
> {
    match (left, right) {
        (ValueView::Float(a), ValueView::Float(b)) => Ok(RequestView::Arithmetic(op, a, b)),
        (ValueView::Float(_), _) => Err(Fault::RightNotNumeric),
        _ => Err(Fault::LeftNotNumeric),
    }
}

/// What a comparison does with two values: with two numbers it compares them;
/// else it reports the first operand from the left that is no number.
pub open spec fn boolean_op(left: ValueView, right: ValueView, op: Comparison) -> Result<
    ValueView,
    Fault,
> {
    match (left, right) {
        (ValueView::Float(a), ValueView::Float(b)) => Ok(ValueView::Boolean(compared(op, a, b))),
        (ValueView::Float(_), _) => Err(Fault::RightNotNumeric),
        _ => Err(Fault::LeftNotNumeric),
    }
}

/// Whether `v` counts as true.
pub fn is_truthful(v: Value) -> (b: bool)
    ensures
        b == truthy(v@),
{
    match v {
        Value::Nil(_) => false,
        Value::Boolean(b) => b,
        _ => true,
    }
}

/// Whether two values are equal.
pub fn are_equal(left_value: &Value, right_value: &Value) -> (b: bool)
    ensures
        b == values_equal(left_value@, right_value@),
{
    match left_value {
        Value::Float(a) => match right_value {
            Value::Float(b) => equal(*a, *b),
            _ => false,
        },
        Value::Boolean(a) => match right_value {
            Value::Boolean(b) => *a == *b,
            _ => false,
        },
        Value::Str(a) => match right_value {
            Value::Str(b) => *a == *b,
            _ => false,
        },
        Value::Nil(_) => match right_value {
            Value::Nil(_) => true,
            _ => false,
        },
    }
}

/// The text of `val` for concatenation, or the number whose text has to be
/// asked for; `nil` cannot be made into text.
pub fn to_string(val: Value) -> (r: Result<Either<String, u64>, Fault>)
    ensures
        match stringified(val@) {
            Some(text) => r is Ok && either_view(r->Ok_0) == text,
            None => r == Err::<Either<String, u64>, Fault>(Fault::CannotStringify),
        },
{
    match val {
        Value::Str(s) => Ok(Either::Left(s)),
        Value::Float(bits) => Ok(Either::Right(bits)),
        Value::Boolean(b) => {
            let mut s = String::new();
            push_bool(&mut s, b);
            Ok(Either::Left(s))
        },
        Value::Nil(_) => Err(Fault::CannotStringify),
    }
}

/// The request for `op` on two numbers, or the fault of the operand that is
/// none.
pub fn eval_binary_numeric_op(left_value: &Value, right_value: &Value, op: ArithOp) -> (r: Result<
    Request,
    Fault,
>)
    ensures
        match numeric_op(left_value@, right_value@, op) {
            Ok(request) => r is Ok && r->Ok_0@ == request,
            Err(fault) => r == Err::<Request, Fault>(fault),
        },
{
    match left_value {
        Value::Float(a) => match right_value {
            Value::Float(b) => Ok(Request::Arithmetic(op, *a, *b)),
            _ => Err(Fault::RightNotNumeric),
        },
        _ => Err(Fault::LeftNotNumeric),
    }
}

/// The outcome of the comparison `op` of two numbers, or the fault of the
/// operand that is none.
pub fn eval_binary_boolean_op(left_value: &Value, right_value: &Value, op: Comparison) -> (r:
    Result<Value, Fault>)
    ensures
        match boolean_op(left_value@, right_value@, op) {
            Ok(value) => r is Ok && r->Ok_0@ == value,
            Err(fault) => r == Err::<Value, Fault>(fault),
        },
{
    match left_value {
        Value::Float(a) => match right_value {
            Value::Float(b) => {
                let outcome = match op {
                    Comparison::Greater => less(*b, *a),
                    Comparison::GreaterEqual => less_equal(*b, *a),
                    Comparison::Less => less(*a, *b),
                    Comparison::LessEqual => less_equal(*a, *b),
                };
                Ok(Value::Boolean(outcome))
            },
            _ => Err(Fault::RightNotNumeric),
        },
        _ => Err(Fault::LeftNotNumeric),
    }
}


/// What the answer to an outstanding request completes.
#[derive(Debug, PartialEq, Eq)]
pub enum Pending {
    /// The number of a literal numeral.
    Numeral,
    /// A number: a widened integer or the result of an operation.
    Number,
    /// The text of the right operand of `+`, to follow this string.
    Append(String),
    /// The text of the left operand of `+`, to stand before this string.
    Prepend(String),
}

/// The mathematical value of a [`Pending`].
pub enum PendingView {
    Numeral,
    Number,
    Append(Seq<char>),
    Prepend(Seq<char>),
}

impl View for Pending {
    type V = PendingView;

    open spec fn view(&self) -> PendingView {
        match self {
            Pending::Numeral => PendingView::Numeral,
            Pending::Number => PendingView::Number,
            Pending::Append(s) => PendingView::Append(s@),
            Pending::Prepend(s) => PendingView::Prepend(s@),
        }
    }
}

/// The view of the outcome of an evaluation.
pub open spec fn result_view(r: Result<Value, EvalError>) -> Result<ValueView, EvalError> {
    match r {
        Ok(v) => Ok(v@),
        Err(e) => Err(e),
    }
}

/// What an evaluation is doing.
#[derive(Debug, PartialEq, Eq)]
pub enum Control {
    /// The expression is still to be evaluated.
    Evaluate(Expr),
    /// The expression evaluated last gave this.
    Return(Result<Value, EvalError>),
    /// The request is outstanding.
    Await(Request, Pending),
}

/// The mathematical value of a [`Control`].
pub enum ControlView {
    Evaluate(ExprView),
    Return(Result<ValueView, EvalError>),
    Await(RequestView, PendingView),
}

impl View for Control {
    type V = ControlView;

    open spec fn view(&self) -> ControlView {
        match self {
            Control::Evaluate(e) => ControlView::Evaluate(e@),
            Control::Return(r) => ControlView::Return(result_view(*r)),
            Control::Await(request, pending) => ControlView::Await(request@, pending@),
        }
    }
}

/// A node whose operand is under evaluation, and what of the node is left to
/// do once the operand has a value.
#[derive(Debug, PartialEq, Eq)]
pub enum Frame {
    /// A unary node with this operator.
    Unary(Token),
    /// A binary node whose left operand is under evaluation: the operator and
    /// the right operand.
    LeftOf(Token, Expr),
    /// A binary node whose right operand is under evaluation: the operator and
    /// the value of the left operand.
    RightOf(Token, Value),
    /// A ternary node whose condition is under evaluation: the two branches.
    Condition(Expr, Expr),
}

/// The mathematical value of a [`Frame`].
pub enum FrameView {
    Unary(TokenView),
    LeftOf(TokenView, ExprView),
    RightOf(TokenView, ValueView),
    Condition(ExprView, ExprView),
}

impl View for Frame {
    type V = FrameView;

    open spec fn view(&self) -> FrameView {
        match self {
            Frame::Unary(op) => FrameView::Unary(op@),
            Frame::LeftOf(op, right) => FrameView::LeftOf(op@, right@),
            Frame::RightOf(op, left) => FrameView::RightOf(op@, left@),
            Frame::Condition(if_true, if_false) => FrameView::Condition(if_true@, if_false@),
        }
    }
}

/// The views of a stack of frames, bottom first.
pub open spec fn frame_views(frames: Seq<Frame>) -> Seq<FrameView> {
    frames.map_values(|f: Frame| f@)
}

/// An evaluation under way: what it is doing, and the nodes it is inside of,
/// outermost first.
#[derive(Debug, PartialEq, Eq)]
pub struct Evaluation {
    pub control: Control,
    pub stack: Vec<Frame>,
}

/// The mathematical value of an [`Evaluation`].
pub struct EvaluationView {
    pub control: ControlView,
    pub stack: Seq<FrameView>,
}

impl View for Evaluation {
    type V = EvaluationView;

    open spec fn view(&self) -> EvaluationView {
        EvaluationView { control: self.control@, stack: frame_views(self.stack@) }
    }
}

/// The failure of the operator on `line` with `fault`.
pub open spec fn failure(line: u32, fault: Fault) -> Result<ValueView, EvalError> {
    Err(EvalError { line, fault })
}

/// What an answer makes of what was pending. An answer of the wrong kind is
/// a fault, and so is a numeral that was found invalid.
pub open spec fn settle(pending: PendingView, answer: AnswerView) -> Result<ValueView, EvalError> {
    match (pending, answer) {
        (PendingView::Numeral, AnswerView::Number(bits)) => Ok(ValueView::Float(bits)),
        (PendingView::Numeral, AnswerView::Invalid) => failure(0, Fault::MalformedNumber),
        (PendingView::Number, AnswerView::Number(bits)) => Ok(ValueView::Float(bits)),
        (PendingView::Append(left), AnswerView::Text(text)) => Ok(ValueView::Str(left + text)),
        (PendingView::Prepend(right), AnswerView::Text(text)) => Ok(ValueView::Str(text + right)),
        _ => failure(0, Fault::UnexpectedAnswer),
    }
}

/// What a unary operator makes of the value of its operand: `-` negates a
/// number and fails on anything else, `!` negates the truthiness.
pub open spec fn unary_outcome(op: TokenView, v: ValueView) -> Result<ValueView, EvalError> {
    match op.token_type {
        TokenType::Minus => match v {
            ValueView::Float(bits) => Ok(ValueView::Float(negated(bits))),
            _ => failure(op.line, Fault::NegatedNonNumber),
        },
        TokenType::Bang => Ok(ValueView::Boolean(!truthy(v))),
        _ => failure(op.line, Fault::UnknownUnary),
    }
}

/// What an arithmetic operator on `line` makes of two values.
pub open spec fn arithmetic_outcome(
    line: u32,
    left: ValueView,
    right: ValueView,
    op: ArithOp,
) -> ControlView {
    match numeric_op(left, right, op) {
        Ok(request) => ControlView::Await(request, PendingView::Number),
        Err(fault) => ControlView::Return(failure(line, fault)),
    }
}

/// What a comparison on `line` makes of two values.
pub open spec fn comparison_outcome(
    line: u32,
    left: ValueView,
    right: ValueView,
    op: Comparison,
) -> ControlView {
    match boolean_op(left, right, op) {
        Ok(value) => ControlView::Return(Ok(value)),
        Err(fault) => ControlView::Return(failure(line, fault)),
    }
}

/// What `+` on `line` makes of two values: two strings are concatenated; with
/// one string, the other operand is made into text and joined to it in its
/// place, left or right; with no string, the two are added as numbers.
pub open spec fn plus_outcome(line: u32, left: ValueView, right: ValueView) -> ControlView {
    match (left, right) {
        (ValueView::Str(a), ValueView::Str(b)) => ControlView::Return(Ok(ValueView::Str(a + b))),
        (ValueView::Str(a), _) => match stringified(right) {
            Some(Either::Left(text)) => ControlView::Return(Ok(ValueView::Str(a + text))),
            Some(Either::Right(bits)) => ControlView::Await(
                RequestView::Format(bits),
                PendingView::Append(a),
            ),
            None => ControlView::Return(failure(line, Fault::CannotStringify)),
        },
        (_, ValueView::Str(b)) => match stringified(left) {
            Some(Either::Left(text)) => ControlView::Return(Ok(ValueView::Str(text + b))),
            Some(Either::Right(bits)) => ControlView::Await(
                RequestView::Format(bits),
                PendingView::Prepend(b),
            ),
            None => ControlView::Return(failure(line, Fault::CannotStringify)),
        },
        _ => arithmetic_outcome(line, left, right, ArithOp::Add),
    }
}

/// What a binary operator makes of the values of its operands: a result, or
/// the request whose answer completes it.
pub open spec fn binary_outcome(op: TokenView, left: ValueView, right: ValueView) -> ControlView {
    match op.token_type {
        TokenType::Minus => arithmetic_outcome(op.line, left, right, ArithOp::Subtract),
        TokenType::Star => arithmetic_outcome(op.line, left, right, ArithOp::Multiply),
        TokenType::Slash => arithmetic_outcome(op.line, left, right, ArithOp::Divide),
        TokenType::Plus => plus_outcome(op.line, left, right),
        TokenType::Greater => comparison_outcome(op.line, left, right, Comparison::Greater),
        TokenType::GreaterEqual => comparison_outcome(
            op.line,
            left,
            right,
            Comparison::GreaterEqual,
        ),
        TokenType::Less => comparison_outcome(op.line, left, right, Comparison::Less),
        TokenType::LessEqual => comparison_outcome(op.line, left, right, Comparison::LessEqual),
        TokenType::EqualEqual => ControlView::Return(
            Ok(ValueView::Boolean(values_equal(left, right))),
        ),
        TokenType::BangEqual => ControlView::Return(
            Ok(ValueView::Boolean(!values_equal(left, right))),
        ),
        _ => ControlView::Return(failure(op.line, Fault::UnknownBinary)),
    }
}

/// One step into the expression `e`, inside the nodes of `stack`: a literal
/// gives its value, or the request for its number; any other node is entered
/// at its first operand.
pub open spec fn descend(e: ExprView, stack: Seq<FrameView>) -> EvaluationView {
    match e {
        ExprView::StringLiteral(s) => EvaluationView {
            control: ControlView::Return(Ok(ValueView::Str(s))),
            stack,
        },
        ExprView::IntLiteral(v) => EvaluationView {
            control: ControlView::Await(RequestView::Widen(v), PendingView::Number),
            stack,
        },
        ExprView::FloatLiteral(s) => EvaluationView {
            control: ControlView::Await(RequestView::Decimal(s), PendingView::Numeral),
            stack,
        },
        ExprView::BoolLiteral(b) => EvaluationView {
            control: ControlView::Return(Ok(ValueView::Boolean(b))),
            stack,
        },
        ExprView::NilLiteral => EvaluationView {
            control: ControlView::Return(Ok(ValueView::Nil)),
            stack,
        },
        ExprView::Grouping(inner) => EvaluationView {
            control: ControlView::Evaluate(*inner),
            stack,
        },
        ExprView::Unary(operand, op) => EvaluationView {
            control: ControlView::Evaluate(*operand),
            stack: stack.push(FrameView::Unary(op)),
        },
        ExprView::Binary(left, op, right) => EvaluationView {
            control: ControlView::Evaluate(*left),
            stack: stack.push(FrameView::LeftOf(op, *right)),
        },
        ExprView::Ternary(condition, if_true, if_false) => EvaluationView {
            control: ControlView::Evaluate(*condition),
            stack: stack.push(FrameView::Condition(*if_true, *if_false)),
        },
    }
}

/// One step out of an operand that gave `result`, into the node `frame`; the
/// nodes around it are `stack`.
///
/// A failed operand ends a unary or a ternary node with the same error, and a
/// binary node with an error that says which side failed. A left operand
/// that has a value is followed by the right one; the right one by the
/// operator. A condition is followed by the branch that its truthiness picks,
/// and the other branch is dropped.
pub open spec fn ascend(
    frame: FrameView,
    result: Result<ValueView, EvalError>,
    stack: Seq<FrameView>,
) -> EvaluationView {
    match frame {
        FrameView::Unary(op) => EvaluationView {
            control: ControlView::Return(
                match result {
                    Ok(v) => unary_outcome(op, v),
                    Err(e) => Err(e),
                },
            ),
            stack,
        },
        FrameView::LeftOf(op, right) => match result {
            Ok(v) => EvaluationView {
                control: ControlView::Evaluate(right),
                stack: stack.push(FrameView::RightOf(op, v)),
            },
            Err(e) => EvaluationView {
                control: ControlView::Return(failure(op.line, Fault::LeftOperand(Box::new(e)))),
                stack,
            },
        },
        FrameView::RightOf(op, left) => match result {
            Ok(v) => EvaluationView { control: binary_outcome(op, left, v), stack },
            Err(e) => EvaluationView {
                control: ControlView::Return(failure(op.line, Fault::RightOperand(Box::new(e)))),
                stack,
            },
        },
        FrameView::Condition(if_true, if_false) => match result {
            Ok(v) => EvaluationView {
                control: ControlView::Evaluate(
                    if truthy(v) {
                        if_true
                    } else {
                        if_false
                    },
                ),
                stack,
            },
            Err(e) => EvaluationView { control: ControlView::Return(Err(e)), stack },
        },
    }
}

/// Whether the evaluation has come to a halt: it has a request outstanding,
/// or it has the result of the whole expression.
pub open spec fn settled(s: EvaluationView) -> bool {
    match s.control {
        ControlView::Evaluate(_) => false,
        ControlView::Return(_) => s.stack.len() == 0,
        ControlView::Await(_, _) => true,
    }
}

/// The result of the whole expression, once the evaluation has it.
pub open spec fn finished(s: EvaluationView) -> Option<Result<ValueView, EvalError>> {
    match s.control {
        ControlView::Return(r) if s.stack.len() == 0 => Some(r),
        _ => None,
    }
}

/// The request that is outstanding, if one is.
pub open spec fn asked(s: EvaluationView) -> Option<RequestView> {
    match s.control {
        ControlView::Await(request, _) => Some(request),
        _ => None,
    }
}

/// One step of an evaluation that has not come to a halt.
pub open spec fn advance(s: EvaluationView) -> EvaluationView {
    match s.control {
        ControlView::Evaluate(e) => descend(e, s.stack),
        ControlView::Return(r) => if s.stack.len() > 0 {
            ascend(s.stack.last(), r, s.stack.drop_last())
        } else {
            s
        },
        ControlView::Await(_, _) => s,
    }
}

/// The evaluation after the outstanding request got `answer`; unchanged
/// where none is outstanding.
pub open spec fn supply(s: EvaluationView, answer: AnswerView) -> EvaluationView {
    match s.control {
        ControlView::Await(_, pending) => EvaluationView {
            control: ControlView::Return(settle(pending, answer)),
            stack: s.stack,
        },
        _ => s,
    }
}

/// A bound on the steps that a frame still stands for.
pub open spec fn frame_work(frame: FrameView) -> nat {
    match frame {
        FrameView::Unary(_) => 1,
        FrameView::LeftOf(_, right) => 4 * size(right) + 3,
        FrameView::RightOf(_, _) => 2,
        FrameView::Condition(if_true, if_false) => 4 * size(if_true) + 4 * size(if_false) + 1,
    }
}

/// A bound on the steps that a stack still stands for.
pub open spec fn stack_work(stack: Seq<FrameView>) -> nat
    decreases stack.len(),
{
    if stack.len() == 0 {
        0
    } else {
        frame_work(stack.last()) + stack_work(stack.drop_last())
    }
}

/// A bound on the steps and answers that the evaluation still takes: every
/// step and every answer lowers it.
pub open spec fn work(s: EvaluationView) -> nat {
    stack_work(s.stack) + match s.control {
        ControlView::Evaluate(e) => 4 * size(e),
        ControlView::Return(_) => 0,
        ControlView::Await(_, _) => 1,
    }
}

/// Every expression has a node.
pub proof fn lemma_size_positive(e: ExprView)
    ensures
        size(e) >= 1,
{
}

/// A stack with one more frame stands for that frame's work more.
pub proof fn lemma_stack_work_push(stack: Seq<FrameView>, frame: FrameView)
    ensures
        stack_work(stack.push(frame)) == stack_work(stack) + frame_work(frame),
{
    assert(stack.push(frame).drop_last() == stack);
}

/// A step of an evaluation that has not come to a halt lowers its work.
pub proof fn lemma_advance_lowers_work(s: EvaluationView)
    requires
        !settled(s),
    ensures
        work(advance(s)) < work(s),
{
    match s.control {
        ControlView::Evaluate(e) => {
            match e {
                ExprView::Unary(operand, op) => {
                    lemma_stack_work_push(s.stack, FrameView::Unary(op));
                },
                ExprView::Binary(left, op, right) => {
                    lemma_stack_work_push(s.stack, FrameView::LeftOf(op, *right));
                },
                ExprView::Ternary(condition, if_true, if_false) => {
                    lemma_stack_work_push(s.stack, FrameView::Condition(*if_true, *if_false));
                },
                _ => {},
            }
        },
        ControlView::Return(r) => {
            let rest = s.stack.drop_last();
            match s.stack.last() {
                FrameView::LeftOf(op, right) => {
                    if let Ok(v) = r {
                        lemma_stack_work_push(rest, FrameView::RightOf(op, v));
                    }
                },
                FrameView::Condition(if_true, if_false) => {
                    lemma_size_positive(if_true);
                    lemma_size_positive(if_false);
                },
                _ => {},
            }
        },
        ControlView::Await(_, _) => {},
    }
}

/// The evaluation run on until it comes to a halt.
pub open spec fn run(s: EvaluationView) -> EvaluationView
    decreases work(s),
{
    if settled(s) {
        s
    } else {
        proof {
            lemma_advance_lowers_work(s);
        }
        run(advance(s))
    }
}

/// The evaluation of `e`, not yet begun.
pub open spec fn start(e: ExprView) -> EvaluationView {
    EvaluationView { control: ControlView::Evaluate(e), stack: Seq::empty() }
}

/// An evaluation that is run on comes to a halt, and its work does not
/// grow.
pub proof fn lemma_run_settles(s: EvaluationView)
    ensures
        settled(run(s)),
        work(run(s)) <= work(s),
    decreases work(s),
{
    if !settled(s) {
        lemma_advance_lowers_work(s);
        lemma_run_settles(advance(s));
    }
}


fn fail(line: u32, fault: Fault) -> (r: Result<Value, EvalError>)
    ensures
        result_view(r) == failure(line, fault),
{
    Err(EvalError { line, fault })
}

/// What `answer` makes of what was pending.
pub fn settle_answer(pending: Pending, answer: Answer) -> (r: Result<Value, EvalError>)
    ensures
        result_view(r) == settle(pending@, answer@),
{
    match pending {
        Pending::Numeral => match answer {
            Answer::Number(bits) => Ok(Value::Float(bits)),
            Answer::Invalid => fail(0, Fault::MalformedNumber),
            Answer::Text(_) => fail(0, Fault::UnexpectedAnswer),
        },
        Pending::Number => match answer {
            Answer::Number(bits) => Ok(Value::Float(bits)),
            _ => fail(0, Fault::UnexpectedAnswer),
        },
        Pending::Append(left) => match answer {
            Answer::Text(text) => Ok(Value::Str(left.concat(text.as_str()))),
            _ => fail(0, Fault::UnexpectedAnswer),
        },
        Pending::Prepend(right) => match answer {
            Answer::Text(text) => Ok(Value::Str(text.concat(right.as_str()))),
            _ => fail(0, Fault::UnexpectedAnswer),
        },
    }
}

/// What the unary operator `op` makes of `v`.
pub fn apply_unary(op: &Token, v: Value) -> (r: Result<Value, EvalError>)
    ensures
        result_view(r) == unary_outcome(op@, v@),
{
    match op.token_type {
        TokenType::Minus => match v {
            Value::Float(bits) => Ok(Value::Float(negate(bits))),
            _ => fail(op.line, Fault::NegatedNonNumber),
        },
        TokenType::Bang => Ok(Value::Boolean(!is_truthful(v))),
        _ => fail(op.line, Fault::UnknownUnary),
    }
}

fn arithmetic(line: u32, left: &Value, right: &Value, op: ArithOp) -> (c: Control)
    ensures
        c@ == arithmetic_outcome(line, left@, right@, op),
{
    match eval_binary_numeric_op(left, right, op) {
        Ok(request) => Control::Await(request, Pending::Number),
        Err(fault) => Control::Return(fail(line, fault)),
    }
}

fn comparison(line: u32, left: &Value, right: &Value, op: Comparison) -> (c: Control)
    ensures
        c@ == comparison_outcome(line, left@, right@, op),
{
    match eval_binary_boolean_op(left, right, op) {
        Ok(value) => Control::Return(Ok(value)),
        Err(fault) => Control::Return(fail(line, fault)),
    }
}

fn plus(line: u32, left: Value, right: Value) -> (c: Control)
    ensures
        c@ == plus_outcome(line, left@, right@),
{
    match left {
        Value::Str(a) => match right {
            Value::Str(b) => Control::Return(Ok(Value::Str(a.concat(b.as_str())))),
            other => match to_string(other) {
                Ok(Either::Left(text)) => Control::Return(
                    Ok(Value::Str(a.concat(text.as_str()))),
                ),
                Ok(Either::Right(bits)) => Control::Await(
                    Request::Format(bits),
                    Pending::Append(a),
                ),
                Err(fault) => Control::Return(fail(line, fault)),
            },
        },
        other_left => match right {
            Value::Str(b) => match to_string(other_left) {
                Ok(Either::Left(text)) => Control::Return(
                    Ok(Value::Str(text.concat(b.as_str()))),
                ),
                Ok(Either::Right(bits)) => Control::Await(
                    Request::Format(bits),
                    Pending::Prepend(b),
                ),
                Err(fault) => Control::Return(fail(line, fault)),
            },
            other_right => arithmetic(line, &other_left, &other_right, ArithOp::Add),
        },
    }
}

/// What the binary operator `op` makes of the values of its operands.
pub fn apply_binary(op: &Token, left: Value, right: Value) -> (c: Control)
    ensures
        c@ == binary_outcome(op@, left@, right@),
{
    match op.token_type {
        TokenType::Minus => arithmetic(op.line, &left, &right, ArithOp::Subtract),
        TokenType::Star => arithmetic(op.line, &left, &right, ArithOp::Multiply),
        TokenType::Slash => arithmetic(op.line, &left, &right, ArithOp::Divide),
        TokenType::Plus => plus(op.line, left, right),
        TokenType::Greater => comparison(op.line, &left, &right, Comparison::Greater),
        TokenType::GreaterEqual => comparison(op.line, &left, &right, Comparison::GreaterEqual),
        TokenType::Less => comparison(op.line, &left, &right, Comparison::Less),
        TokenType::LessEqual => comparison(op.line, &left, &right, Comparison::LessEqual),
        TokenType::EqualEqual => Control::Return(Ok(Value::Boolean(are_equal(&left, &right)))),
        TokenType::BangEqual => Control::Return(Ok(Value::Boolean(!are_equal(&left, &right)))),
        _ => Control::Return(fail(op.line, Fault::UnknownBinary)),
    }
}

proof fn lemma_frame_views_push(frames: Seq<Frame>, frame: Frame)
    ensures
        frame_views(frames.push(frame)) == frame_views(frames).push(frame@),
{
    assert(frame_views(frames.push(frame)) =~= frame_views(frames).push(frame@));
}

fn push_frame(stack: &mut Vec<Frame>, frame: Frame)
    ensures
        frame_views(final(stack)@) == frame_views(old(stack)@).push(frame@),
{
    proof {
        lemma_frame_views_push(stack@, frame);
    }
    stack.push(frame);
}

fn descend_into(e: Expr, stack: &mut Vec<Frame>) -> (c: Control)
    ensures
        (EvaluationView { control: c@, stack: frame_views(final(stack)@) }) == descend(
            e@,
            frame_views(old(stack)@),
        ),
{
    match e {
        Expr::StringLiteral(s) => Control::Return(Ok(Value::Str(s))),
        Expr::IntLiteral(v) => Control::Await(Request::Widen(v), Pending::Number),
        Expr::FloatLiteral(s) => Control::Await(Request::Decimal(s), Pending::Numeral),
        Expr::BoolLiteral(b) => Control::Return(Ok(Value::Boolean(b))),
        Expr::NilLiteral() => Control::Return(Ok(Value::Nil(Nil {  }))),
        Expr::Grouping(inner) => Control::Evaluate(*inner),
        Expr::Unary(operand, op) => {
            push_frame(stack, Frame::Unary(op));
            Control::Evaluate(*operand)
        },
        Expr::Binary(left, op, right) => {
            push_frame(stack, Frame::LeftOf(op, *right));
            Control::Evaluate(*left)
        },
        Expr::Ternary(condition, if_true, if_false) => {
            push_frame(stack, Frame::Condition(*if_true, *if_false));
            Control::Evaluate(*condition)
        },
    }
}

fn ascend_from(frame: Frame, result: Result<Value, EvalError>, stack: &mut Vec<Frame>) -> (c:
    Control)
    ensures
        (EvaluationView { control: c@, stack: frame_views(final(stack)@) }) == ascend(
            frame@,
            result_view(result),
            frame_views(old(stack)@),
        ),
{
    match frame {
        Frame::Unary(op) => match result {
            Ok(v) => Control::Return(apply_unary(&op, v)),
            Err(e) => Control::Return(Err(e)),
        },
        Frame::LeftOf(op, right) => match result {
            Ok(v) => {
                push_frame(stack, Frame::RightOf(op, v));
                Control::Evaluate(right)
            },
            Err(e) => Control::Return(fail(op.line, Fault::LeftOperand(Box::new(e)))),
        },
        Frame::RightOf(op, left) => match result {
            Ok(v) => apply_binary(&op, left, v),
            Err(e) => Control::Return(fail(op.line, Fault::RightOperand(Box::new(e)))),
        },
        Frame::Condition(if_true, if_false) => match result {
            Ok(v) => if is_truthful(v) {
                Control::Evaluate(if_true)
            } else {
                Control::Evaluate(if_false)
            },
            Err(e) => Control::Return(Err(e)),
        },
    }
}

fn step(control: Control, stack: &mut Vec<Frame>) -> (c: Control)
    requires
        !settled(EvaluationView { control: control@, stack: frame_views(old(stack)@) }),
    ensures
        (EvaluationView { control: c@, stack: frame_views(final(stack)@) }) == advance(
            EvaluationView { control: control@, stack: frame_views(old(stack)@) },
        ),
{
    match control {
        Control::Evaluate(e) => descend_into(e, stack),
        Control::Return(r) => {
            let ghost before = stack@;
            match stack.pop() {
                Some(frame) => {
                    assert(frame_views(before).last() == frame@);
                    assert(frame_views(before).drop_last() == frame_views(stack@));
                    ascend_from(frame, r, stack)
                },
                None => Control::Return(r),
            }
        },
        Control::Await(request, pending) => Control::Await(request, pending),
    }
}

impl Evaluation {
    /// Whether the evaluation has come to a halt.
    pub fn is_settled(&self) -> (b: bool)
        ensures
            b == settled(self@),
    {
        match &self.control {
            Control::Evaluate(_) => false,
            Control::Return(_) => self.stack.len() == 0,
            Control::Await(_, _) => true,
        }
    }

    /// Runs the evaluation on until it comes to a halt. What the evaluation
    /// ends with stays the same, over every model of the doubles.
    pub fn run(self) -> (r: Evaluation)
        ensures
            r@ == run(self@),
            settled(r@),
            work(r@) <= work(self@),
            forall|model: FloatModel| #[trigger] meaning(r@, model) == meaning(self@, model),
    {
        proof {
            assert forall|model: FloatModel| #[trigger]
                meaning(run(self@), model) == meaning(self@, model) by {
                lemma_run_keeps_meaning(self@, model);
            }
            lemma_run_settles(self@);
        }
        let mut current = self;
        while !current.is_settled()
            invariant
                run(current@) == run(self@),
            decreases work(current@),
        {
            proof {
                lemma_advance_lowers_work(current@);
            }
            let Evaluation { control, mut stack } = current;
            let next = step(control, &mut stack);
            current = Evaluation { control: next, stack };
        }
        current
    }

    /// Hands the evaluation the answer to its outstanding request, and runs
    /// it on until it comes to a halt again. Where the answer is the one
    /// that a model of the doubles gives, what the evaluation ends with over
    /// that model stays the same. Every answer brings the end nearer.
    pub fn resume(self, answer: Answer) -> (r: Evaluation)
        ensures
            r@ == run(supply(self@, answer@)),
            settled(r@),
            asked(self@) is Some ==> work(r@) < work(self@),
            forall|model: FloatModel|
                asked(self@) matches Some(request) && respond(model, request) == answer@
                    ==> #[trigger] meaning(r@, model) == meaning(self@, model),
    {
        proof {
            assert forall|model: FloatModel|
                asked(self@) matches Some(request) && respond(model, request)
                    == answer@ implies #[trigger] meaning(run(supply(self@, answer@)), model)
                == meaning(self@, model) by {
                lemma_supply_keeps_meaning(self@, model);
                lemma_run_keeps_meaning(supply(self@, answer@), model);
            }
            lemma_run_settles(supply(self@, answer@));
        }
        let Evaluation { control, stack } = self;
        match control {
            Control::Await(_, pending) => {
                let result = settle_answer(pending, answer);
                (Evaluation { control: Control::Return(result), stack }).run()
            },
            other => (Evaluation { control: other, stack }).run(),
        }
    }

    /// The request that is outstanding, if one is.
    pub fn request(&self) -> (r: Option<&Request>)
        ensures
            match r {
                Some(request) => asked(self@) == Some(request@),
                None => asked(self@) is None,
            },
    {
        match &self.control {
            Control::Await(request, _) => Some(request),
            _ => None,
        }
    }

    /// The result of the whole expression, once the evaluation has it.
    pub fn into_result(self) -> (r: Option<Result<Value, EvalError>>)
        ensures
            match finished(self@) {
                Some(result) => r is Some && result_view(r->Some_0) == result,
                None => r is None,
            },
    {
        if self.stack.len() == 0 {
            match self.control {
                Control::Return(result) => Some(result),
                _ => None,
            }
        } else {
            None
        }
    }
}

/// Begins the evaluation of `e` and runs it on until it comes to a halt: at
/// its first request, or at the result where it needs none.
///
/// Over every model of the doubles, the evaluation ends with the value of
/// `e` over that model, once a driver has answered its requests by the model.
pub fn interpret(e: Expr) -> (r: Evaluation)
    ensures
        r@ == run(start(e@)),
        settled(r@),
        forall|model: FloatModel| #[trigger] meaning(r@, model) == eval(e@, model),
        forall|model: FloatModel| #[trigger] driven(r@, model) == eval(e@, model),
{
    proof {
        assert forall|model: FloatModel| #[trigger]
            meaning(run(start(e@)), model) == eval(e@, model) by {
            lemma_interpret_evaluates(e@, model);
        }
        assert forall|model: FloatModel| #[trigger]
            driven(run(start(e@)), model) == eval(e@, model) by {
            lemma_interpret_evaluates(e@, model);
        }
    }
    let stack: Vec<Frame> = Vec::new();
    assert(frame_views(stack@) == Seq::<FrameView>::empty());
    (Evaluation { control: Control::Evaluate(e), stack }).run()
}

/// The text of a failed evaluation: `[line L] ` and the text of the fault.
pub open spec fn eval_message(e: EvalError) -> Seq<char>
    decreases e,
{
    "[line "@ + decimal(e.line as nat) + "] "@ + fault_message(e.fault)
}

/// The text of a fault. The fault of a failed operand names the side and
/// goes on with the text of the failure of the operand.
pub open spec fn fault_message(fault: Fault) -> Seq<char>
    decreases fault,
{
    match fault {
        Fault::NegatedNonNumber => "failed to convert value to a number"@,
        Fault::UnknownUnary => "could not evaluate unary expression"@,
        Fault::LeftNotNumeric => "left value is not a numeric type."@,
        Fault::RightNotNumeric => "right value is not a numeric type."@,
        Fault::CannotStringify => "cannot parse type into string"@,
        Fault::UnknownBinary => "could not evaluate binary expression"@,
        Fault::MalformedNumber => "could not parse number"@,
        Fault::UnexpectedAnswer => "unexpected answer to a request"@,
        Fault::LeftOperand(reason) => {
            "Could not evaluate left operand of binary expression. Reason = "@ + eval_message(
                *reason,
            )
        },
        Fault::RightOperand(reason) => {
            "Could not evaluate right operand of binary expression. Reason = "@ + eval_message(
                *reason,
            )
        },
    }
}

/// Appends the text of `e` to `out`.
pub fn push_message(e: &EvalError, out: &mut String)
    ensures
        final(out)@ == old(out)@ + eval_message(*e),
    decreases e,
{
    out.append("[line ");
    push_decimal(out, e.line as u64);
    out.append("] ");
    let ghost head = out@;
    assert(head == old(out)@ + ("[line "@ + decimal(e.line as nat) + "] "@));
    match &e.fault {
        Fault::NegatedNonNumber => out.append("failed to convert value to a number"),
        Fault::UnknownUnary => out.append("could not evaluate unary expression"),
        Fault::LeftNotNumeric => out.append("left value is not a numeric type."),
        Fault::RightNotNumeric => out.append("right value is not a numeric type."),
        Fault::CannotStringify => out.append("cannot parse type into string"),
        Fault::UnknownBinary => out.append("could not evaluate binary expression"),
        Fault::MalformedNumber => out.append("could not parse number"),
        Fault::UnexpectedAnswer => out.append("unexpected answer to a request"),
        Fault::LeftOperand(reason) => {
            out.append("Could not evaluate left operand of binary expression. Reason = ");
            push_message(reason, out);
            assert(out@ == head + (
            "Could not evaluate left operand of binary expression. Reason = "@ + eval_message(
                **reason,
            )));
        },
        Fault::RightOperand(reason) => {
            out.append("Could not evaluate right operand of binary expression. Reason = ");
            push_message(reason, out);
            assert(out@ == head + (
            "Could not evaluate right operand of binary expression. Reason = "@ + eval_message(
                **reason,
            )));
        },
    }
    assert(out@ == head + fault_message(e.fault));
}

impl EvalError {
    /// The error as one line of text.
    pub fn message(&self) -> (text: String)
        ensures
            text@ == eval_message(*self),
    {
        let mut out = String::new();
        push_message(self, &mut out);
        out
    }
}

} // verus!
