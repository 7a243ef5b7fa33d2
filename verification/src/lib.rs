//! Front end and evaluator of a small expression language.
//!
//! Source text is scanned into tokens ([`scanner`], [`token`]), tokens are
//! parsed into a syntax tree ([`parser`], [`syntax_tree`]), and the tree is
//! evaluated to a value ([`interpreter`]). What an expression means is laid
//! down in [`semantics`]; [`round_trip`] says which trees come back from their
//! own rendering. Numbers at run time are doubles held by their bits
//! ([`number`]); this crate compares and negates them, and asks its caller for
//! all that rounds.

use crate::interpreter::{interpret, Evaluation};
use crate::parser::{message_text, parse, parse_expression};
use crate::scanner::{lex, lex_detail, lex_line, Scanner};
use crate::semantics::{eval, meaning, FloatModel};
use crate::text::{decimal, push_decimal};
use crate::token::token_views;
use vstd::prelude::*;
use vstd::string::StringExecFns;

pub mod interpreter;
pub mod number;
pub mod parser;
pub mod round_trip;
pub mod scanner;
pub mod semantics;
pub mod syntax_tree;
pub mod text;
pub mod token;

verus! {

/// One of two things.
#[derive(Debug, Clone, PartialEq, Eq)]
pub enum Either<L, R> {
    Left(L),
    Right(R),
}

/// The text of an error on `line`: the line, a colon, and the message
/// between backquotes.
pub open spec fn err_text(line: u32, msg: Seq<char>) -> Seq<char> {
    decimal(line as nat) + ": `"@ + msg + "`"@
}

/// The error on `line` with the message `msg`, as text.
pub fn err(line: u32, msg: &str) -> (r: Result<(), String>)
    ensures
        r is Err,
        r->Err_0@ == err_text(line, msg@),
{
    let mut text = String::new();
    push_decimal(&mut text, line as u64);
    text.append(": `");
    text.append(msg);
    text.append("`");
    Err(text)
}

/// The text of a report: `[line L] Error WHERE: MESSAGE`.
pub open spec fn report_text(line: u32, where_at: Seq<char>, message: Seq<char>) -> Seq<char> {
    "[line "@ + decimal(line as nat) + "] Error "@ + where_at + ": "@ + message
}

/// How far a run of a program came.
#[derive(Debug, PartialEq, Eq)]
pub enum Run {
    /// The scan failed; the report of the error.
    LexFailure(String),
    /// The parse failed; the text of the error.
    ParseFailure(String),
    /// The program was parsed, and its evaluation has come to its first
    /// halt.
    Started(Evaluation),
}

/// A runner of programs, which remembers whether an error was reported.
pub struct RsLox {
    pub had_error: bool,
}

impl RsLox {
    /// A runner that has reported no error yet.
    pub fn new() -> (r: Self)
        ensures
            !r.had_error,
    {
        RsLox { had_error: false }
    }

    /// Scans and parses `program` and begins its evaluation.
    ///
    /// A scan error is reported, and remembered; a parse error is given as
    /// its text. Else the evaluation of the expression that the program
    /// begins with is handed out at its first halt.
    pub fn run(&mut self, program: String) -> (r: Run)
        ensures
            match lex(program@) {
                Err(e) => {
                    &&& final(self).had_error
                    &&& r matches Run::LexFailure(text)
                    &&& text@ == report_text(
                        lex_line(e),
                        Seq::empty(),
                        err_text(lex_line(e), lex_detail(e)),
                    )
                },
                Ok(tokens) => {
                    &&& final(self).had_error == old(self).had_error
                    &&& match parse(tokens) {
                        Err(e) => {
                            &&& r matches Run::ParseFailure(text)
                            &&& text@ == message_text(e)
                        },
                        Ok(expr) => {
                            &&& r matches Run::Started(evaluation)
                            &&& evaluation@ == interpreter::run(interpreter::start(expr))
                            &&& forall|model: FloatModel| #[trigger]
                                meaning(evaluation@, model) == eval(expr, model)
                        },
                    }
                },
            },
    {
        let mut scanner = Scanner::new(program);
        match scanner.scan_tokens() {
            Err(e) => {
                return Run::LexFailure(self.error(e.line(), e.message()));
            },
            Ok(()) => {},
        }
        assert(token_views(scanner.tokens@) =~= lex(program@)->Ok_0);
        match parse_expression(scanner.tokens) {
            Ok(expr) => Run::Started(interpret(expr)),
            Err(e) => Run::ParseFailure(e.message()),
        }
    }

    /// Reports the error `message` on `line`: remembers that there was an
    /// error, and gives the text of the report.
    pub fn error(&mut self, line: u32, message: String) -> (text: String)
        ensures
            final(self).had_error,
            text@ == report_text(line, Seq::empty(), message@),
    {
        self.report(line, String::new(), message)
    }

    fn report(&mut self, line: u32, where_at: String, message: String) -> (text: String)
        ensures
            final(self).had_error,
            text@ == report_text(line, where_at@, message@),
    {
        let mut text = String::from_str("[line ");
        push_decimal(&mut text, line as u64);
        text.append("] Error ");
        text.append(where_at.as_str());
        text.append(": ");
        text.append(message.as_str());
        self.had_error = true;
        text
    }
}

} // verus!
