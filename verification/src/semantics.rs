//! What an expression means, and that an [`Evaluation`] computes it.
//!
//! The meaning of an expression is given once and for all by [`eval`], over
//! a [`FloatModel`]: the four functions on doubles that this crate asks for
//! and does not compute. An evaluation whose requests are answered by a model
//! ends with what `eval` gives over that model.

use crate::interpreter::{
    advance, asked, binary_outcome, failure, finished, lemma_advance_lowers_work,
    lemma_run_settles, run, settle, settled, start, supply, truthy, unary_outcome, values_equal,
    work, AnswerView, ArithOp, ControlView, EvalError, EvaluationView, Fault, FrameView,
    RequestView, ValueView,
};
use crate::syntax_tree::ExprView;
use crate::token::{TokenType, TokenView};
use vstd::prelude::*;

verus! {

/// The arithmetic of doubles, as four functions on their bits.
pub struct FloatModel {
    /// The double of a decimal numeral, where the text is one.
    pub decimal: spec_fn(Seq<char>) -> Option<u64>,
    /// The double of an integer.
    pub widen: spec_fn(i64) -> u64,
    /// The result of an operation on two doubles.
    pub arithmetic: spec_fn(ArithOp, u64, u64) -> u64,
    /// The decimal text of a double.
    pub format: spec_fn(u64) -> Seq<char>,
}

/// The answer that the model gives to a request.
pub open spec fn respond(model: FloatModel, request: RequestView) -> AnswerView {
    match request {
        RequestView::Decimal(text) => match (model.decimal)(text) {
            Some(bits) => AnswerView::Number(bits),
            None => AnswerView::Invalid,
        },
        RequestView::Widen(v) => AnswerView::Number((model.widen)(v)),
        RequestView::Arithmetic(op, a, b) => AnswerView::Number((model.arithmetic)(op, a, b)),
        RequestView::Format(bits) => AnswerView::Text((model.format)(bits)),
    }
}

/// What a step of evaluation comes to over the model: an expression comes to
/// its value, a result to itself, a request to what its answer completes.
pub open spec fn outcome_of(control: ControlView, model: FloatModel) -> Result<
    ValueView,
    EvalError,
> {
    match control {
        ControlView::Evaluate(e) => eval(e, model),
        ControlView::Return(r) => r,
        ControlView::Await(request, pending) => settle(pending, respond(model, request)),
    }
}

/// The value of the expression `e` over the model.
///
/// - A string, a boolean and `nil` evaluate to themselves; an integer literal
///   to the double of the integer; any other number literal to the double of
///   its numeral.
/// - A grouping evaluates to what is inside it.
/// - A unary node evaluates its operand, then applies the operator.
/// - A binary node evaluates the left operand, then the right one, then
///   applies the operator; an operand that fails ends the node with an error
///   that names the side, and the right operand of a failed left one is not
///   evaluated.
/// - A ternary node evaluates its condition, then the branch that the
///   condition's truthiness picks, and only that one.
pub open spec fn eval(e: ExprView, model: FloatModel) -> Result<ValueView, EvalError>
    decreases e,
{
    match e {
        ExprView::StringLiteral(s) => Ok(ValueView::Str(s)),
        ExprView::IntLiteral(v) => Ok(ValueView::Float((model.widen)(v))),
        ExprView::FloatLiteral(text) => match (model.decimal)(text) {
            Some(bits) => Ok(ValueView::Float(bits)),
            None => failure(0, Fault::MalformedNumber),
        },
        ExprView::BoolLiteral(b) => Ok(ValueView::Boolean(b)),
        ExprView::NilLiteral => Ok(ValueView::Nil),
        ExprView::Grouping(inner) => eval(*inner, model),
        ExprView::Unary(operand, op) => match eval(*operand, model) {
            Ok(v) => unary_outcome(op, v),
            Err(e) => Err(e),
        },
        ExprView::Binary(left, op, right) => match eval(*left, model) {
            Ok(l) => match eval(*right, model) {
                Ok(r) => binary_value(op, l, r, model),
                Err(e) => failure(op.line, Fault::RightOperand(Box::new(e))),
            },
            Err(e) => failure(op.line, Fault::LeftOperand(Box::new(e))),
        },
        ExprView::Ternary(condition, if_true, if_false) => match eval(*condition, model) {
            Ok(v) => if truthy(v) {
                eval(*if_true, model)
            } else {
                eval(*if_false, model)
            },
            Err(e) => Err(e),
        },
    }
}

/// What the binary operator `op` makes of two values over the model.
pub open spec fn binary_value(
    op: TokenView,
    left: ValueView,
    right: ValueView,
    model: FloatModel,
) -> Result<ValueView, EvalError> {
    match binary_outcome(op, left, right) {
        ControlView::Await(request, pending) => settle(pending, respond(model, request)),
        ControlView::Return(r) => r,
        ControlView::Evaluate(_) => failure(op.line, Fault::UnknownBinary),
    }
}

/// What the node `frame` comes to over the model once the operand under
/// evaluation has given `result`.
pub open spec fn frame_outcome(
    frame: FrameView,
    result: Result<ValueView, EvalError>,
    model: FloatModel,
) -> Result<ValueView, EvalError> {
    match frame {
        FrameView::Unary(op) => match result {
            Ok(v) => unary_outcome(op, v),
            Err(e) => Err(e),
        },
        FrameView::LeftOf(op, right) => match result {
            Ok(l) => match eval(right, model) {
                Ok(r) => binary_value(op, l, r, model),
                Err(e) => failure(op.line, Fault::RightOperand(Box::new(e))),
            },
            Err(e) => failure(op.line, Fault::LeftOperand(Box::new(e))),
        },
        FrameView::RightOf(op, left) => match result {
            Ok(r) => binary_value(op, left, r, model),
            Err(e) => failure(op.line, Fault::RightOperand(Box::new(e))),
        },
        FrameView::Condition(if_true, if_false) => match result {
            Ok(v) => if truthy(v) {
                eval(if_true, model)
            } else {
                eval(if_false, model)
            },
            Err(e) => Err(e),
        },
    }
}

/// What the nodes of `stack` come to over the model, innermost first, once
/// the operand under evaluation has given `result`.
pub open spec fn unwind(
    stack: Seq<FrameView>,
    result: Result<ValueView, EvalError>,
    model: FloatModel,
) -> Result<ValueView, EvalError>
    decreases stack.len(),
{
    if stack.len() == 0 {
        result
    } else {
        unwind(stack.drop_last(), frame_outcome(stack.last(), result, model), model)
    }
}

/// What the evaluation `s` ends with when the model answers its requests.
pub open spec fn meaning(s: EvaluationView, model: FloatModel) -> Result<ValueView, EvalError> {
    unwind(s.stack, outcome_of(s.control, model), model)
}

/// What the evaluation `s` ends with when a driver runs it to its end: as
/// long as a request is outstanding, the driver answers it by the model and
/// lets the evaluation run on.
pub open spec fn driven(s: EvaluationView, model: FloatModel) -> Result<ValueView, EvalError>
    decreases work(s),
    when settled(s)
{
    match s.control {
        ControlView::Await(request, _) => {
            let next = supply(s, respond(model, request));
            proof {
                lemma_run_settles(next);
            }
            driven(run(next), model)
        },
        ControlView::Return(r) => r,
        ControlView::Evaluate(_) => failure(0, Fault::UnexpectedAnswer),
    }
}

proof fn lemma_unwind_push(
    stack: Seq<FrameView>,
    frame: FrameView,
    result: Result<ValueView, EvalError>,
    model: FloatModel,
)
    ensures
        unwind(stack.push(frame), result, model) == unwind(
            stack,
            frame_outcome(frame, result, model),
            model,
        ),
{
    assert(stack.push(frame).drop_last() == stack);
}

/// A step of an evaluation keeps what the evaluation ends with, over every
/// model.
pub proof fn lemma_advance_keeps_meaning(s: EvaluationView, model: FloatModel)
    requires
        !settled(s),
    ensures
        meaning(advance(s), model) == meaning(s, model),
{
    match s.control {
        ControlView::Evaluate(e) => {
            match e {
                ExprView::Unary(operand, op) => {
                    lemma_unwind_push(s.stack, FrameView::Unary(op), eval(*operand, model), model);
                },
                ExprView::Binary(left, op, right) => {
                    lemma_unwind_push(
                        s.stack,
                        FrameView::LeftOf(op, *right),
                        eval(*left, model),
                        model,
                    );
                },
                ExprView::Ternary(condition, if_true, if_false) => {
                    lemma_unwind_push(
                        s.stack,
                        FrameView::Condition(*if_true, *if_false),
                        eval(*condition, model),
                        model,
                    );
                },
                _ => {},
            }
        },
        ControlView::Return(r) => {
            let rest = s.stack.drop_last();
            match s.stack.last() {
                FrameView::LeftOf(op, right) => {
                    if let Ok(v) = r {
                        lemma_unwind_push(
                            rest,
                            FrameView::RightOf(op, v),
                            eval(right, model),
                            model,
                        );
                    }
                },
                _ => {},
            }
        },
        ControlView::Await(_, _) => {},
    }
}

/// Running an evaluation on keeps what it ends with, over every model.
pub proof fn lemma_run_keeps_meaning(s: EvaluationView, model: FloatModel)
    ensures
        meaning(run(s), model) == meaning(s, model),
    decreases work(s),
{
    if !settled(s) {
        lemma_advance_lowers_work(s);
        lemma_advance_keeps_meaning(s, model);
        lemma_run_keeps_meaning(advance(s), model);
    }
}

/// An answer that the model gives keeps what the evaluation ends with over
/// that model, and lowers its work.
pub proof fn lemma_supply_keeps_meaning(s: EvaluationView, model: FloatModel)
    requires
        asked(s) is Some,
    ensures
        meaning(supply(s, respond(model, asked(s)->Some_0)), model) == meaning(s, model),
        work(supply(s, respond(model, asked(s)->Some_0))) < work(s),
{
}

/// An evaluation that has its result ends with it.
pub proof fn lemma_finished_meaning(s: EvaluationView, model: FloatModel)
    requires
        finished(s) is Some,
    ensures
        meaning(s, model) == finished(s)->Some_0,
{
}

/// An evaluation that a driver runs to its end, answering by the model, ends
/// with what it means over the model.
pub proof fn lemma_driven_meaning(s: EvaluationView, model: FloatModel)
    requires
        settled(s),
    ensures
        driven(s, model) == meaning(s, model),
    decreases work(s),
{
    match s.control {
        ControlView::Await(request, _) => {
            let next = supply(s, respond(model, request));
            lemma_supply_keeps_meaning(s, model);
            lemma_run_keeps_meaning(next, model);
            lemma_run_settles(next);
            lemma_driven_meaning(run(next), model);
        },
        _ => {},
    }
}

/// The evaluation of an expression, driven to its end with its requests
/// answered by a model, ends with the value of the expression over that
/// model.
pub proof fn lemma_interpret_evaluates(e: ExprView, model: FloatModel)
    ensures
        meaning(run(start(e)), model) == eval(e, model),
        driven(run(start(e)), model) == eval(e, model),
{
    lemma_run_keeps_meaning(start(e), model);
    lemma_run_settles(start(e));
    lemma_driven_meaning(run(start(e)), model);
}

/// Whether two values are of the same variant.
pub open spec fn same_variant(left: ValueView, right: ValueView) -> bool {
    match (left, right) {
        (ValueView::Str(_), ValueView::Str(_)) => true,
        (ValueView::Float(_), ValueView::Float(_)) => true,
        (ValueView::Boolean(_), ValueView::Boolean(_)) => true,
        (ValueView::Nil, ValueView::Nil) => true,
        _ => false,
    }
}

/// Between values of different variants `==` gives false and `!=` gives
/// true, and neither fails nor asks for anything.
pub proof fn lemma_equality_across_variants(op: TokenView, left: ValueView, right: ValueView)
    requires
        !same_variant(left, right),
    ensures
        !values_equal(left, right),
        op.token_type == TokenType::EqualEqual ==> binary_outcome(op, left, right)
            == ControlView::Return(Ok(ValueView::Boolean(false))),
        op.token_type == TokenType::BangEqual ==> binary_outcome(op, left, right)
            == ControlView::Return(Ok(ValueView::Boolean(true))),
{
}

/// A comparison for equality of two expressions whose values are of
/// different variants evaluates to false, and one for inequality to true,
/// over every model.
pub proof fn lemma_equality_of_expressions_across_variants(
    left: ExprView,
    op: TokenView,
    right: ExprView,
    model: FloatModel,
)
    requires
        op.token_type == TokenType::EqualEqual || op.token_type == TokenType::BangEqual,
        eval(left, model) matches Ok(l) && eval(right, model) matches Ok(r) && !same_variant(l, r),
    ensures
        eval(ExprView::Binary(Box::new(left), op, Box::new(right)), model) == Ok::<
            ValueView,
            EvalError,
        >(ValueView::Boolean(op.token_type == TokenType::BangEqual)),
{
}

/// `==` and `!=` never fail, whatever the operands.
pub proof fn lemma_equality_never_fails(op: TokenView, left: ValueView, right: ValueView)
    requires
        op.token_type == TokenType::EqualEqual || op.token_type == TokenType::BangEqual,
    ensures
        binary_outcome(op, left, right) matches ControlView::Return(Ok(ValueView::Boolean(_))),
{
}

/// A ternary node is worth the branch that its condition picks, whatever the
/// other branch is: the branch not taken is not evaluated.
pub proof fn lemma_untaken_branch(
    condition: ExprView,
    if_true: ExprView,
    if_false: ExprView,
    other: ExprView,
    model: FloatModel,
)
    ensures
        eval(condition, model) matches Ok(v) && truthy(v) ==> eval(
            ExprView::Ternary(Box::new(condition), Box::new(if_true), Box::new(if_false)),
            model,
        ) == eval(if_true, model) && eval(
            ExprView::Ternary(Box::new(condition), Box::new(if_true), Box::new(other)),
            model,
        ) == eval(if_true, model),
        eval(condition, model) matches Ok(v) && !truthy(v) ==> eval(
            ExprView::Ternary(Box::new(condition), Box::new(if_true), Box::new(if_false)),
            model,
        ) == eval(if_false, model) && eval(
            ExprView::Ternary(Box::new(condition), Box::new(other), Box::new(if_false)),
            model,
        ) == eval(if_false, model),
{
}

} // verus!
