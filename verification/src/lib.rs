//! A tree-walking interpreter for a small dynamically typed scripting
//! language: lexer, recursive-descent parser, scope chain and evaluator,
//! each stated against a mathematical model and proved by Verus.

pub mod ast;
pub mod environment;
pub mod error;
pub mod function;
pub mod grammar;
pub mod interpreter;
pub mod number;
pub mod object;
pub mod operators;
pub mod parser;
pub mod scanner;
pub mod semantics;
pub mod source_location;
pub mod spans;
pub mod text;
pub mod token;

use crate::ast::{Stmt, StmtView};
use crate::error::{ErrorView, LoxError};
use crate::grammar::parse_tokens;
use crate::interpreter::{run_model, Interpreter};
use crate::parser::{parsed_program, Parser};
use crate::scanner::{scan_text, Scanner};
use crate::semantics::{agrees, run, Clock};
use vstd::prelude::*;

verus! {

/// The statements that a program text spells: those of its tokens, or the
/// first lexical error, or else the first error of syntax.
pub open spec fn parse_text(text: Seq<char>) -> Result<Seq<StmtView>, ErrorView> {
    match scan_text(text) {
        Ok(tokens) => parse_tokens(tokens),
        Err(error) => Err(error),
    }
}

/// Whether a text breaks off where a token was still expected, so that
/// more text may complete it.
pub open spec fn breaks_off(text: Seq<char>) -> bool {
    parse_text(text) matches Err(ErrorView::ExpectedToken { .. })
}

/// Scans and parses a program text.
pub fn parse_statements(source_code: &str) -> (r: Result<Vec<Stmt>, LoxError>)
    ensures
        parsed_program(r) == parse_text(source_code@),
{
    let mut scanner = Scanner::new(source_code);
    let tokens = match scanner.scan() {
        Ok(tokens) => tokens,
        Err(error) => {
            return Err(error);
        },
    };
    let mut parser = Parser::new(&tokens);
    parser.parse()
}

/// Whether `source_code` breaks off where a token was still expected: a
/// prompt then asks for another line instead of reporting the error.
pub fn is_incomplete(source_code: &str) -> (r: bool)
    ensures
        r == breaks_off(source_code@),
{
    match parse_statements(source_code) {
        Err(LoxError::ExpectedToken { .. }) => true,
        _ => false,
    }
}

/// Scans, parses and runs a program text in the state of `interpreter`.
/// A text that does not parse runs nothing and leaves the state as it was.
pub fn run_source(source_code: &str, interpreter: &mut Interpreter) -> (r: Result<(), LoxError>)
    requires
        old(interpreter).well_formed(),
    ensures
        final(interpreter).well_formed(),
        final(interpreter).budget() == old(interpreter).budget(),
        old(interpreter).readings().is_prefix_of(final(interpreter).readings()),
        match parse_text(source_code@) {
            Ok(statements) => forall|clock: Clock|
                agrees(clock, final(interpreter).readings()) ==> #[trigger] run(
                    statements,
                    old(interpreter)@,
                    clock,
                    old(interpreter).budget(),
                ) == (run_model(r), final(interpreter)@),
            Err(error) => run_model(r) == Err::<(), ErrorView>(error) && final(interpreter)@ == old(
                interpreter,
            )@ && final(interpreter).readings() == old(interpreter).readings(),
        },
{
    match parse_statements(source_code) {
        Ok(statements) => interpreter.interpret(statements.as_slice()),
        Err(error) => Err(error),
    }
}

} // verus!
