//! An interpreter for a prefix-notation ("Polish notation") numeric
//! expression language with statement sequencing and single-character
//! variable bindings.
//!
//! A program is a text of whitespace-delimited tokens.  The lexer turns the
//! text into a token sequence, the parser turns the tokens into a sequence
//! of statements over a recursive expression tree, and the evaluator walks
//! the statements in order, binding variables lazily and producing one
//! result per print statement.
//!
//! Numeric values are double-precision literals, carried everywhere as the
//! text they were written with.  The evaluator resolves every variable
//! reference away and hands back, for each print statement, a closed
//! operation tree over literals; folding such a tree into a machine number
//! is left to the caller, which keeps the floating-point hardware outside
//! the verified library.

pub mod eval;
pub mod lexer;
pub mod literal;
pub mod parser;

use crate::eval::eval_program;
use crate::eval::run_spec;
use crate::eval::EvalError;
use crate::eval::RunResult;
use crate::eval::ValueView;
use crate::eval::RESOLUTION_DEPTH_LIMIT;
use crate::lexer::lex;
use crate::lexer::lex_spec;
use crate::lexer::LexError;
use crate::parser::parse_program;
use crate::parser::parse_program_spec;
use crate::parser::ParseError;
use vstd::prelude::*;

verus! {

/// Why a run produced no result at all: the stage that refused the source.
#[derive(Debug, Clone, Copy, PartialEq, Eq)]
pub enum PipelineError {
    /// The lexer met a malformed literal.
    Lex(LexError),
    /// The parser met a malformed statement.
    Parse(ParseError),
}

/// What running a source text yields: the outcome of evaluating the parsed
/// program, or the lexing or parsing failure that kept it from running.
pub open spec fn run_source_spec(s: Seq<char>) -> Result<
    (Seq<ValueView>, Option<EvalError>),
    PipelineError,
> {
    match lex_spec(s) {
        Ok(tokens) => match parse_program_spec(tokens) {
            Ok(stmts) => Ok(run_spec(stmts, Map::empty(), RESOLUTION_DEPTH_LIMIT as nat)),
            Err(e) => Err(PipelineError::Parse(e)),
        },
        Err(e) => Err(PipelineError::Lex(e)),
    }
}

/// Lexes, parses and evaluates a whole source text.
pub fn run(source: &str) -> (r: Result<RunResult, PipelineError>)
    ensures
        (match r {
            Ok(rr) => Ok((rr.outputs.deep_view(), rr.error)),
            Err(e) => Err(e),
        }) == run_source_spec(source@),
{
    match lex(source) {
        Ok(tokens) => match parse_program(tokens) {
            Ok(program) => Ok(eval_program(program)),
            Err(e) => Err(PipelineError::Parse(e)),
        },
        Err(e) => Err(PipelineError::Lex(e)),
    }
}

} // verus!
