//! A tree-walking interpreter for Lox, with its behaviour stated and proved.
//!
//! Source text is scanned to tokens ([`scanner`]), tokens are parsed to
//! statements ([`parser`], against the grammar in [`grammar`]), and statements
//! are run by an interpreter ([`interpreter`], against the rules in
//! [`semantics`]) over a chain of scopes ([`environment`]).
//!
//! The interpreter runs in steps. What it cannot do itself it asks of its
//! host: writing output, the arithmetic on doubles and the time of day.
//!
//! Beyond the contracts of the functions, the library proves what holds of
//! them together: that blanks and comments do not matter to the scanner, that
//! an expression is parsed from the tokens that spell it ([`spelling`]), how
//! scopes and closures behave, that evaluation is local ([`evaluation`]), and
//! that the interpreter never finds itself out of order ([`soundness`]).

pub mod environment;
pub mod evaluation;
pub mod expression;
pub mod grammar;
pub mod interpreter;
pub mod lox;
pub mod parser;
pub mod scanner;
pub mod semantics;
pub mod soundness;
pub mod spelling;
pub mod statement;
pub mod text;
pub mod token;
pub mod value;
