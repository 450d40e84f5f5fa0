//! From source text to statements in one call, with errors as the lines
//! that report them.

use crate::grammar::{program, Parsed};
use crate::parser::Parser;
use crate::scanner::{scanned, Scanner, ScannerError};
use crate::soundness::{lemma_sound_statements, sound_statements};
use crate::statement::{stmt_models, Stmt, StmtModel};
use crate::text::join;
use crate::value::LoxError;
use vstd::prelude::*;

verus! {

/// The line that reports `message` to the user.
pub open spec fn diagnostic_text(message: Seq<char>) -> Seq<char> {
    "Error: "@ + message
}

/// The line that reports `message` to the user.
pub fn diagnostic(message: &str) -> (line: String)
    ensures
        line@ == diagnostic_text(message@),
{
    join("Error: ", message)
}

/// What reading a source text gives: its statements, or the lines that
/// report what is wrong with it. Lexical errors are all reported, each on a
/// line of its own and in source order; a source without lexical errors is
/// parsed, and the first error of the parser is the only line.
pub open spec fn compiled(source: Seq<char>) -> Result<Seq<StmtModel>, Seq<Seq<char>>> {
    let scan = scanned(source);
    if scan.errors.len() > 0 {
        Err(scan.errors.map_values(|error: ScannerError| diagnostic_text(error.message_text())))
    } else {
        match program(scan.tokens, 0, Seq::empty()) {
            Parsed::Tree(statements, _) => Ok(statements),
            Parsed::Error(message) => Err(seq![diagnostic_text(message)]),
        }
    }
}

/// The texts of a list of lines.
pub open spec fn line_texts(lines: Seq<String>) -> Seq<Seq<char>> {
    lines.map_values(|line: String| line@)
}

/// Scans and parses `source`.
pub fn compile(source: &str) -> (result: Result<Vec<Stmt>, Vec<String>>)
    ensures
        match result {
            Ok(statements) => {
                &&& compiled(source@) == Ok::<Seq<StmtModel>, Seq<Seq<char>>>(
                    stmt_models(statements@),
                )
                &&& sound_statements(&statements)
            },
            Err(lines) => compiled(source@) == Err::<Seq<StmtModel>, Seq<Seq<char>>>(
                line_texts(lines@),
            ),
        },
{
    match Scanner::scan(source) {
        Ok(tokens) => match Parser::parse(tokens.as_slice()) {
            Ok(statements) => {
                proof {
                    lemma_sound_statements(&statements);
                }
                Ok(statements)
            },
            Err(errors) => {
                let mut lines: Vec<String> = Vec::new();
                lines.push(diagnostic(errors[0].message().as_str()));
                assert(line_texts(lines@) =~= seq![diagnostic_text(errors@[0]@)]);
                Err(lines)
            },
        },
        Err(errors) => {
            let mut lines: Vec<String> = Vec::new();
            let mut at: usize = 0;
            while at < errors.len()
                invariant
                    at <= errors@.len(),
                    lines@.len() == at,
                    forall|i: int|
                        0 <= i < at ==> (#[trigger] lines@[i])@ == diagnostic_text(
                            errors@[i].message_text(),
                        ),
                decreases errors@.len() - at,
            {
                let message = errors[at].message();
                lines.push(diagnostic(message.as_str()));
                at += 1;
            }
            assert(line_texts(lines@) =~= errors@.map_values(
                |error: ScannerError| diagnostic_text(error.message_text()),
            ));
            Err(lines)
        },
    }
}

} // verus!
