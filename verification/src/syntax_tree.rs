//! The syntax tree of an expression, and its rendering as text.

use crate::interpreter::{either_view, Value, ValueView};
use crate::text::{push_signed_decimal, signed_decimal};
use crate::token::{Token, TokenView};
use crate::Either;
use vstd::prelude::*;

verus! {

/// An expression. Every node owns its children.
#[derive(Debug, PartialEq, Eq)]
pub enum Expr {
    StringLiteral(String),
    IntLiteral(i64),
    /// A number that is no integer literal, held as the numeral that the
    /// source wrote: the exact decimal, not yet rounded to any binary format.
    FloatLiteral(String),
    BoolLiteral(bool),
    NilLiteral(),
    /// Operand, then operator.
    Unary(Box<Expr>, Token),
    /// Left operand, operator, right operand.
    Binary(Box<Expr>, Token, Box<Expr>),
    /// Condition, the branch taken when it holds, the branch taken when not.
    Ternary(Box<Expr>, Box<Expr>, Box<Expr>),
    Grouping(Box<Expr>),
}

/// The mathematical value of an [`Expr`].
pub enum ExprView {
    StringLiteral(Seq<char>),
    IntLiteral(i64),
    FloatLiteral(Seq<char>),
    BoolLiteral(bool),
    NilLiteral,
    Unary(Box<ExprView>, TokenView),
    Binary(Box<ExprView>, TokenView, Box<ExprView>),
    Ternary(Box<ExprView>, Box<ExprView>, Box<ExprView>),
    Grouping(Box<ExprView>),
}

/// The view of `e`, node by node.
pub open spec fn expr_view(e: Expr) -> ExprView
    decreases e,
{
    match e {
        Expr::StringLiteral(s) => ExprView::StringLiteral(s@),
        Expr::IntLiteral(v) => ExprView::IntLiteral(v),
        Expr::FloatLiteral(s) => ExprView::FloatLiteral(s@),
        Expr::BoolLiteral(b) => ExprView::BoolLiteral(b),
        Expr::NilLiteral() => ExprView::NilLiteral,
        Expr::Unary(operand, op) => ExprView::Unary(Box::new(expr_view(*operand)), op@),
        Expr::Binary(left, op, right) => ExprView::Binary(
            Box::new(expr_view(*left)),
            op@,
            Box::new(expr_view(*right)),
        ),
        Expr::Ternary(condition, if_true, if_false) => ExprView::Ternary(
            Box::new(expr_view(*condition)),
            Box::new(expr_view(*if_true)),
            Box::new(expr_view(*if_false)),
        ),
        Expr::Grouping(inner) => ExprView::Grouping(Box::new(expr_view(*inner))),
    }
}

impl View for Expr {
    type V = ExprView;

    open spec fn view(&self) -> ExprView {
        expr_view(*self)
    }
}

/// The number of nodes of `e`.
pub open spec fn size(e: ExprView) -> nat
    decreases e,
{
    match e {
        ExprView::Unary(operand, _) => 1 + size(*operand),
        ExprView::Binary(left, _, right) => 1 + size(*left) + size(*right),
        ExprView::Ternary(condition, if_true, if_false) => 1 + size(*condition) + size(*if_true)
            + size(*if_false),
        ExprView::Grouping(inner) => 1 + size(*inner),
        _ => 1,
    }
}

/// `true` or `false`, spelled out.
pub open spec fn bool_text(b: bool) -> Seq<char> {
    if b {
        seq!['t', 'r', 'u', 'e']
    } else {
        seq!['f', 'a', 'l', 's', 'e']
    }
}

/// `nil`, spelled out.
pub open spec fn nil_text() -> Seq<char> {
    seq!['n', 'i', 'l']
}

/// The rendering of `e`: a literal is its own text, and every other node is
/// wrapped in parentheses, with one space between any two of its parts.
///
/// - a unary node is `( op operand )`,
/// - a binary node is `( op left right )`,
/// - a ternary node is `( condition ? if_true : if_false )`,
/// - a grouping is `( inner )`.
pub open spec fn render(e: ExprView) -> Seq<char>
    decreases e,
{
    match e {
        ExprView::StringLiteral(s) => s,
        ExprView::IntLiteral(v) => signed_decimal(v as int),
        ExprView::FloatLiteral(s) => s,
        ExprView::BoolLiteral(b) => bool_text(b),
        ExprView::NilLiteral => nil_text(),
        ExprView::Unary(operand, op) => seq!['(', ' '] + op.lexeme + seq![' '] + render(*operand)
            + seq![' ', ')'],
        ExprView::Binary(left, op, right) => seq!['(', ' '] + op.lexeme + seq![' '] + render(*left)
            + seq![' '] + render(*right) + seq![' ', ')'],
        ExprView::Ternary(condition, if_true, if_false) => seq!['(', ' '] + render(*condition)
            + seq![' ', '?', ' '] + render(*if_true) + seq![' ', ':', ' '] + render(*if_false)
            + seq![' ', ')'],
        ExprView::Grouping(inner) => seq!['(', ' '] + render(*inner) + seq![' ', ')'],
    }
}

/// Appends `true` or `false` to `out`.
pub fn push_bool(out: &mut String, b: bool)
    ensures
        final(out)@ == old(out)@ + bool_text(b),
{
    if b {
        out.push('t');
        out.push('r');
        out.push('u');
        out.push('e');
    } else {
        out.push('f');
        out.push('a');
        out.push('l');
        out.push('s');
        out.push('e');
    }
    assert(final(out)@ == old(out)@ + bool_text(b));
}

/// Appends `nil` to `out`.
pub fn push_nil(out: &mut String)
    ensures
        final(out)@ == old(out)@ + nil_text(),
{
    out.push('n');
    out.push('i');
    out.push('l');
    assert(final(out)@ == old(out)@ + nil_text());
}

fn push_open(out: &mut String)
    ensures
        final(out)@ == old(out)@ + seq!['(', ' '],
{
    out.push('(');
    out.push(' ');
    assert(final(out)@ == old(out)@ + seq!['(', ' ']);
}

fn push_close(out: &mut String)
    ensures
        final(out)@ == old(out)@ + seq![' ', ')'],
{
    out.push(' ');
    out.push(')');
    assert(final(out)@ == old(out)@ + seq![' ', ')']);
}

fn push_mark(out: &mut String, mark: char)
    ensures
        final(out)@ == old(out)@ + seq![' ', mark, ' '],
{
    out.push(' ');
    out.push(mark);
    out.push(' ');
    assert(final(out)@ == old(out)@ + seq![' ', mark, ' ']);
}

fn push_space(out: &mut String)
    ensures
        final(out)@ == old(out)@ + seq![' '],
{
    out.push(' ');
    assert(final(out)@ == old(out)@ + seq![' ']);
}

/// Appends the rendering of `e` to `out`.
pub fn render_into(e: &Expr, out: &mut String)
    ensures
        final(out)@ == old(out)@ + render(e@),
    decreases e,
{
    match e {
        Expr::StringLiteral(s) => {
            out.append(s.as_str());
        },
        Expr::IntLiteral(v) => {
            push_signed_decimal(out, *v);
        },
        Expr::FloatLiteral(s) => {
            out.append(s.as_str());
        },
        Expr::BoolLiteral(b) => {
            push_bool(out, *b);
        },
        Expr::NilLiteral() => {
            push_nil(out);
        },
        Expr::Unary(operand, op) => {
            push_open(out);
            out.append(op.lexeme.as_str());
            push_space(out);
            render_into(operand, out);
            push_close(out);
        },
        Expr::Binary(left, op, right) => {
            push_open(out);
            out.append(op.lexeme.as_str());
            push_space(out);
            render_into(left, out);
            push_space(out);
            render_into(right, out);
            push_close(out);
        },
        Expr::Ternary(condition, if_true, if_false) => {
            push_open(out);
            render_into(condition, out);
            push_mark(out, '?');
            render_into(if_true, out);
            push_mark(out, ':');
            render_into(if_false, out);
            push_close(out);
        },
        Expr::Grouping(inner) => {
            push_open(out);
            render_into(inner, out);
            push_close(out);
        },
    }
}

/// The rendering of `e` as text.
pub fn visit(e: Expr) -> (text: String)
    ensures
        text@ == render(e@),
{
    let mut out = String::new();
    render_into(&e, &mut out);
    out
}

/// What a value is shown as: a string as it is, a boolean as `true` or
/// `false`, `nil` as `nil`, each as `Left` with the text. A number is handed
/// back as `Right`: its decimal text is not written by this crate.
pub open spec fn shown(v: ValueView) -> Either<Seq<char>, u64> {
    match v {
        ValueView::Str(s) => Either::Left(s),
        ValueView::Float(bits) => Either::Right(bits),
        ValueView::Boolean(b) => Either::Left(bool_text(b)),
        ValueView::Nil => Either::Left(nil_text()),
    }
}

/// What `b` is shown as: its text, or the number whose text has to be asked
/// for.
pub fn visit_any(b: Value) -> (r: Either<String, u64>)
    ensures
        either_view(r) == shown(b@),
{
    match b {
        Value::Str(s) => Either::Left(s),
        Value::Float(bits) => Either::Right(bits),
        Value::Boolean(v) => {
            let mut s = String::new();
            push_bool(&mut s, v);
            Either::Left(s)
        },
        Value::Nil(_) => {
            let mut s = String::new();
            push_nil(&mut s);
            Either::Left(s)
        },
    }
}

} // verus!
