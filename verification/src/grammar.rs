//! The grammar: which statements a list of tokens stands for.
//!
//! Each construct of the language has a function here that says, for the
//! tokens from a position on, which tree they spell and where it ends, or
//! which error is the first. The parser computes exactly these functions.

use crate::expression::ExprModel;
use crate::statement::{all_well_formed, FuncStmtModel, StmtModel};
use crate::text::decimal;
use crate::token::{TokenModel, TokenType};
use vstd::prelude::*;

verus! {

/// The outcome of parsing one construct: its tree and the position behind
/// it, or the message of the first error.
pub enum Parsed<T> {
    Tree(T, int),
    Error(Seq<char>),
}

/// The most arguments that a call, and the most parameters that a function,
/// may have.
pub const MAX_ARITY: usize = 255;

/// Whether no token is left at `pos`: the end-of-input token is there.
pub open spec fn at_end(tokens: Seq<TokenModel>, pos: int) -> bool {
    !(0 <= pos < tokens.len()) || tokens[pos].token_type == TokenType::EOF
}

/// Whether the token at `pos` is of kind `kind`. Only the kinds are
/// compared, not the texts that the tokens carry, and the end-of-input token
/// matches no kind.
pub open spec fn check(tokens: Seq<TokenModel>, pos: int, kind: TokenType) -> bool {
    !at_end(tokens, pos) && tokens[pos].token_type == kind
}

/// The number of tokens from `pos` on.
pub open spec fn remaining(tokens: Seq<TokenModel>, pos: int) -> nat {
    if 0 <= pos < tokens.len() {
        (tokens.len() - pos) as nat
    } else {
        0
    }
}

/// `parsed`, as long as it keeps to the rule that a tree starts at a token
/// and ends behind it. Every parse of this grammar does; the definitions
/// below go through this function where the next step depends on it.
pub open spec fn proper<T>(tokens: Seq<TokenModel>, from: int, parsed: Parsed<T>) -> Parsed<T> {
    match parsed {
        Parsed::Tree(_, next) => if 0 <= from < tokens.len() && from < next {
            parsed
        } else {
            Parsed::Error(Seq::empty())
        },
        Parsed::Error(_) => parsed,
    }
}

/// The message for an error at `token`: the token, or the end of the input,
/// the line, and what was expected.
pub open spec fn error_at(token: TokenModel, message: Seq<char>) -> Seq<char> {
    if token.token_type == TokenType::EOF {
        "Unexpected EOF at line "@ + decimal(token.line as nat) + ". "@ + message + " "@
    } else {
        token.description() + " at line "@ + decimal(token.line as nat) + ". "@ + message
    }
}

/// The token at `pos` when it is of kind `kind`, and otherwise an error at
/// that token with `message`.
pub open spec fn consume(tokens: Seq<TokenModel>, pos: int, kind: TokenType, message: Seq<char>) -> Parsed<
    TokenModel,
> {
    if check(tokens, pos, kind) {
        Parsed::Tree(tokens[pos], pos + 1)
    } else {
        Parsed::Error(error_at(tokens[pos], message))
    }
}

/// The classes of left-associative binary operators, from the one that binds
/// loosest to the one that binds tightest.
#[derive(Clone, Copy, Debug, PartialEq, Eq, Structural)]
pub enum Precedence {
    Or,
    And,
    Equality,
    Comparison,
    Addition,
    Multiplication,
}

impl Precedence {
    /// How tightly the class binds: 0 for the tightest.
    pub open spec fn rank(self) -> nat {
        match self {
            Precedence::Or => 5,
            Precedence::And => 4,
            Precedence::Equality => 3,
            Precedence::Comparison => 2,
            Precedence::Addition => 1,
            Precedence::Multiplication => 0,
        }
    }

    /// The class that binds next tighter, whose expressions are the operands
    /// of this one; the operands of a multiplication are unary expressions.
    pub open spec fn tighter(self) -> Option<Precedence> {
        match self {
            Precedence::Or => Some(Precedence::And),
            Precedence::And => Some(Precedence::Equality),
            Precedence::Equality => Some(Precedence::Comparison),
            Precedence::Comparison => Some(Precedence::Addition),
            Precedence::Addition => Some(Precedence::Multiplication),
            Precedence::Multiplication => None,
        }
    }

    /// Whether `kind` is an operator of the class.
    pub open spec fn has(self, kind: TokenType) -> bool {
        match self {
            Precedence::Or => kind == TokenType::Or,
            Precedence::And => kind == TokenType::And,
            Precedence::Equality => kind == TokenType::EqualEqual || kind == TokenType::BangEqual,
            Precedence::Comparison => kind == TokenType::Less || kind == TokenType::LessEqual || kind
                == TokenType::Greater || kind == TokenType::GreaterEqual,
            Precedence::Addition => kind == TokenType::Plus || kind == TokenType::Minus,
            Precedence::Multiplication => kind == TokenType::Slash || kind == TokenType::Star,
        }
    }

    /// The tree for `left operator right`.
    pub open spec fn combine(self, left: ExprModel, operator: TokenModel, right: ExprModel) -> ExprModel {
        match self {
            Precedence::Or | Precedence::And => ExprModel::Logical(
                Box::new(left),
                operator,
                Box::new(right),
            ),
            _ => ExprModel::Binary(Box::new(left), operator, Box::new(right)),
        }
    }
}

/// expression → assignment
pub open spec fn expression(tokens: Seq<TokenModel>, pos: int) -> Parsed<ExprModel>
    decreases remaining(tokens, pos), 60nat,
{
    assignment(tokens, pos)
}

/// assignment → IDENT "=" assignment | logic_or
///
/// The left side is parsed as an expression; when `=` follows, it must be a
/// variable, or else the `=` is an invalid assignment target.
pub open spec fn assignment(tokens: Seq<TokenModel>, pos: int) -> Parsed<ExprModel>
    decreases remaining(tokens, pos), 50nat,
{
    match proper(tokens, pos, binary(tokens, pos, Precedence::Or)) {
        Parsed::Tree(target, next) => if check(tokens, next, TokenType::Equal) {
            match assignment(tokens, next + 1) {
                Parsed::Tree(value, end) => match target {
                    ExprModel::Variable(name) => Parsed::Tree(
                        ExprModel::Assignment(name, Box::new(value)),
                        end,
                    ),
                    _ => Parsed::Error(error_at(tokens[next], "Invalid assignment target."@)),
                },
                Parsed::Error(message) => Parsed::Error(message),
            }
        } else {
            Parsed::Tree(target, next)
        },
        Parsed::Error(message) => Parsed::Error(message),
    }
}

/// A chain of operands joined by operators of one class, as a tree that
/// leans to the left:
///
/// logic_or → logic_and ("or" logic_and)*, and so on down to
/// multiplication → unary (("/" | "*") unary)*
pub open spec fn binary(tokens: Seq<TokenModel>, pos: int, class: Precedence) -> Parsed<ExprModel>
    decreases remaining(tokens, pos), 2 * class.rank() + 12,
{
    match proper(tokens, pos, operand(tokens, pos, class)) {
        Parsed::Tree(left, next) => binary_rest(tokens, next, class, left),
        Parsed::Error(message) => Parsed::Error(message),
    }
}

/// One operand of an operator of `class`.
pub open spec fn operand(tokens: Seq<TokenModel>, pos: int, class: Precedence) -> Parsed<ExprModel>
    decreases remaining(tokens, pos), 2 * class.rank() + 11,
{
    match class.tighter() {
        Some(tighter) => binary(tokens, pos, tighter),
        None => unary(tokens, pos),
    }
}

/// What follows the operand `left` in a chain of `class`: more operators
/// and operands, or nothing.
pub open spec fn binary_rest(
    tokens: Seq<TokenModel>,
    pos: int,
    class: Precedence,
    left: ExprModel,
) -> Parsed<ExprModel>
    decreases remaining(tokens, pos), 2 * class.rank() + 12,
{
    if !at_end(tokens, pos) && class.has(tokens[pos].token_type) {
        match proper(tokens, pos + 1, operand(tokens, pos + 1, class)) {
            Parsed::Tree(right, next) => binary_rest(
                tokens,
                next,
                class,
                class.combine(left, tokens[pos], right),
            ),
            Parsed::Error(message) => Parsed::Error(message),
        }
    } else {
        Parsed::Tree(left, pos)
    }
}

/// unary → ("!" | "-") unary | call
pub open spec fn unary(tokens: Seq<TokenModel>, pos: int) -> Parsed<ExprModel>
    decreases remaining(tokens, pos), 5nat,
{
    if check(tokens, pos, TokenType::Bang) || check(tokens, pos, TokenType::Minus) {
        match unary(tokens, pos + 1) {
            Parsed::Tree(right, next) => Parsed::Tree(
                ExprModel::Unary(tokens[pos], Box::new(right)),
                next,
            ),
            Parsed::Error(message) => Parsed::Error(message),
        }
    } else {
        call(tokens, pos)
    }
}

/// call → primary ("(" args? ")")*
pub open spec fn call(tokens: Seq<TokenModel>, pos: int) -> Parsed<ExprModel>
    decreases remaining(tokens, pos), 4nat,
{
    match proper(tokens, pos, primary(tokens, pos)) {
        Parsed::Tree(callee, next) => call_rest(tokens, next, callee),
        Parsed::Error(message) => Parsed::Error(message),
    }
}

/// What follows `callee`: argument lists in parentheses, each of which
/// calls what stands before it, or nothing.
pub open spec fn call_rest(tokens: Seq<TokenModel>, pos: int, callee: ExprModel) -> Parsed<ExprModel>
    decreases remaining(tokens, pos), 3nat,
{
    if check(tokens, pos, TokenType::LeftParen) {
        match proper(tokens, pos, finish_call(tokens, pos + 1, callee)) {
            Parsed::Tree(called, next) => call_rest(tokens, next, called),
            Parsed::Error(message) => Parsed::Error(message),
        }
    } else {
        Parsed::Tree(callee, pos)
    }
}

/// The call of `callee` whose argument list starts at `pos`, behind the
/// opening parenthesis.
pub open spec fn finish_call(tokens: Seq<TokenModel>, pos: int, callee: ExprModel) -> Parsed<ExprModel>
    decreases remaining(tokens, pos), 80nat,
{
    let list = if check(tokens, pos, TokenType::RightParen) {
        Parsed::Tree(Seq::empty(), pos)
    } else {
        arguments(tokens, pos, Seq::empty())
    };
    match list {
        Parsed::Tree(given, next) => match consume(
            tokens,
            next,
            TokenType::RightParen,
            "Expected ')' after arguments."@,
        ) {
            Parsed::Tree(paren, end) => Parsed::Tree(
                ExprModel::Call(Box::new(callee), paren, given),
                end,
            ),
            Parsed::Error(message) => Parsed::Error(message),
        },
        Parsed::Error(message) => Parsed::Error(message),
    }
}

/// args → expression ("," expression)*, behind the arguments `given`, of
/// which there may be no more than [`MAX_ARITY`] in all.
pub open spec fn arguments(tokens: Seq<TokenModel>, pos: int, given: Seq<ExprModel>) -> Parsed<
    Seq<ExprModel>,
>
    decreases remaining(tokens, pos), 70nat,
{
    if given.len() >= MAX_ARITY {
        Parsed::Error(error_at(tokens[pos], "Cannot have more than 255 arguments"@))
    } else {
        match proper(tokens, pos, expression(tokens, pos)) {
            Parsed::Tree(argument, next) => if check(tokens, next, TokenType::Comma) {
                arguments(tokens, next + 1, given.push(argument))
            } else {
                Parsed::Tree(given.push(argument), next)
            },
            Parsed::Error(message) => Parsed::Error(message),
        }
    }
}

/// primary → "false" | "true" | "nil" | NUMBER | STRING | IDENT
///         | "(" expression ")"
pub open spec fn primary(tokens: Seq<TokenModel>, pos: int) -> Parsed<ExprModel>
    decreases remaining(tokens, pos), 1nat,
{
    if check(tokens, pos, TokenType::False) {
        Parsed::Tree(ExprModel::False, pos + 1)
    } else if check(tokens, pos, TokenType::True) {
        Parsed::Tree(ExprModel::True, pos + 1)
    } else if check(tokens, pos, TokenType::Nil) {
        Parsed::Tree(ExprModel::Nil, pos + 1)
    } else if check(tokens, pos, TokenType::Number) {
        Parsed::Tree(ExprModel::Number(tokens[pos].literal), pos + 1)
    } else if check(tokens, pos, TokenType::String) {
        Parsed::Tree(ExprModel::String(tokens[pos].literal), pos + 1)
    } else if check(tokens, pos, TokenType::LeftParen) {
        match expression(tokens, pos + 1) {
            Parsed::Tree(inner, next) => match consume(
                tokens,
                next,
                TokenType::RightParen,
                "Expected ')' after expression."@,
            ) {
                Parsed::Tree(_, end) => Parsed::Tree(ExprModel::Grouping(Box::new(inner)), end),
                Parsed::Error(message) => Parsed::Error(message),
            },
            Parsed::Error(message) => Parsed::Error(message),
        }
    } else if check(tokens, pos, TokenType::Identifier) {
        Parsed::Tree(ExprModel::Variable(tokens[pos]), pos + 1)
    } else {
        Parsed::Error(error_at(tokens[pos], "Expected expression."@))
    }
}

/// An expression and the token of kind `kind` that must close it, whose
/// absence is reported with `message`.
pub open spec fn closed_expression(
    tokens: Seq<TokenModel>,
    pos: int,
    kind: TokenType,
    message: Seq<char>,
) -> Parsed<ExprModel> {
    match expression(tokens, pos) {
        Parsed::Tree(expr, next) => match consume(tokens, next, kind, message) {
            Parsed::Tree(_, end) => Parsed::Tree(expr, end),
            Parsed::Error(message) => Parsed::Error(message),
        },
        Parsed::Error(message) => Parsed::Error(message),
    }
}

/// printStmt → "print" expression ";", behind the keyword.
pub open spec fn print_statement(tokens: Seq<TokenModel>, pos: int) -> Parsed<StmtModel> {
    match closed_expression(tokens, pos, TokenType::Semicolon, "Expected ';' after value."@) {
        Parsed::Tree(value, end) => Parsed::Tree(StmtModel::Print(value), end),
        Parsed::Error(message) => Parsed::Error(message),
    }
}

/// exprStmt → expression ";"
pub open spec fn expression_statement(tokens: Seq<TokenModel>, pos: int) -> Parsed<StmtModel> {
    match closed_expression(tokens, pos, TokenType::Semicolon, "Expected ';' after expression."@) {
        Parsed::Tree(value, end) => Parsed::Tree(StmtModel::Expr(value), end),
        Parsed::Error(message) => Parsed::Error(message),
    }
}

/// returnStmt → "return" expression? ";", behind the keyword.
pub open spec fn return_statement(tokens: Seq<TokenModel>, pos: int) -> Parsed<StmtModel> {
    if check(tokens, pos, TokenType::Semicolon) {
        Parsed::Tree(StmtModel::Ret(None), pos + 1)
    } else {
        match closed_expression(
            tokens,
            pos,
            TokenType::Semicolon,
            "Expected ';' after return value."@,
        ) {
            Parsed::Tree(value, end) => Parsed::Tree(StmtModel::Ret(Some(value)), end),
            Parsed::Error(message) => Parsed::Error(message),
        }
    }
}

/// varDecl → "var" IDENT ("=" expression)? ";", behind the keyword.
pub open spec fn var_declaration(tokens: Seq<TokenModel>, pos: int) -> Parsed<StmtModel> {
    match consume(tokens, pos, TokenType::Identifier, "Expected variable name"@) {
        Parsed::Tree(name, next) => if check(tokens, next, TokenType::Equal) {
            match closed_expression(
                tokens,
                next + 1,
                TokenType::Semicolon,
                "Expected ';' after variable declaration"@,
            ) {
                Parsed::Tree(initializer, end) => Parsed::Tree(
                    StmtModel::Var(name, Some(initializer)),
                    end,
                ),
                Parsed::Error(message) => Parsed::Error(message),
            }
        } else {
            match consume(
                tokens,
                next,
                TokenType::Semicolon,
                "Expected ';' after variable declaration"@,
            ) {
                Parsed::Tree(_, end) => Parsed::Tree(StmtModel::Var(name, None), end),
                Parsed::Error(message) => Parsed::Error(message),
            }
        },
        Parsed::Error(message) => Parsed::Error(message),
    }
}

/// A condition in parentheses: "(" expression ")". `opening` and `closing`
/// are the messages for a missing parenthesis.
pub open spec fn condition(
    tokens: Seq<TokenModel>,
    pos: int,
    opening: Seq<char>,
    closing: Seq<char>,
) -> Parsed<ExprModel> {
    match consume(tokens, pos, TokenType::LeftParen, opening) {
        Parsed::Tree(_, next) => closed_expression(tokens, next, TokenType::RightParen, closing),
        Parsed::Error(message) => Parsed::Error(message),
    }
}

/// params → IDENT ("," IDENT)*, behind the parameters `given`, of which
/// there may be no more than [`MAX_ARITY`] in all.
pub open spec fn parameters(tokens: Seq<TokenModel>, pos: int, given: Seq<TokenModel>) -> Parsed<
    Seq<TokenModel>,
>
    decreases remaining(tokens, pos),
{
    if given.len() >= MAX_ARITY {
        Parsed::Error(error_at(tokens[pos], "Cannot have more than 255 parameters."@))
    } else {
        match consume(tokens, pos, TokenType::Identifier, "Expected parameter name."@) {
            Parsed::Tree(name, next) => if check(tokens, next, TokenType::Comma) {
                parameters(tokens, next + 1, given.push(name))
            } else {
                Parsed::Tree(given.push(name), next)
            },
            Parsed::Error(message) => Parsed::Error(message),
        }
    }
}

/// The first clause of a `for` loop, behind the opening parenthesis: a
/// variable declaration, an expression statement, or nothing but `;`.
pub open spec fn for_initializer(tokens: Seq<TokenModel>, pos: int) -> Parsed<Option<StmtModel>> {
    if check(tokens, pos, TokenType::Semicolon) {
        Parsed::Tree(None, pos + 1)
    } else {
        let clause = if check(tokens, pos, TokenType::Var) {
            var_declaration(tokens, pos + 1)
        } else {
            expression_statement(tokens, pos)
        };
        match clause {
            Parsed::Tree(statement, next) => Parsed::Tree(Some(statement), next),
            Parsed::Error(message) => Parsed::Error(message),
        }
    }
}

/// The second clause of a `for` loop: the condition, which is `true` when
/// none is written, and the `;` behind it.
pub open spec fn for_condition(tokens: Seq<TokenModel>, pos: int) -> Parsed<ExprModel> {
    if check(tokens, pos, TokenType::Semicolon) {
        Parsed::Tree(ExprModel::True, pos + 1)
    } else {
        closed_expression(tokens, pos, TokenType::Semicolon, "Expected ';' after loop condition."@)
    }
}

/// The third clause of a `for` loop: the increment, if one is written, and
/// the closing parenthesis.
pub open spec fn for_increment(tokens: Seq<TokenModel>, pos: int) -> Parsed<Option<StmtModel>> {
    if check(tokens, pos, TokenType::RightParen) {
        Parsed::Tree(None, pos + 1)
    } else {
        match closed_expression(tokens, pos, TokenType::RightParen, "Expected ')' after 'for'."@) {
            Parsed::Tree(increment, end) => Parsed::Tree(Some(StmtModel::Expr(increment)), end),
            Parsed::Error(message) => Parsed::Error(message),
        }
    }
}

/// What a `for` loop stands for: a block that holds the initializer, if
/// there is one, and a `while` loop whose body is the loop's body, followed
/// by the increment if there is one.
pub open spec fn desugared_for(
    initializer: Option<StmtModel>,
    condition: ExprModel,
    increment: Option<StmtModel>,
    body: StmtModel,
) -> StmtModel {
    let repeated = match increment {
        Some(increment) => StmtModel::Block(seq![body, increment]),
        None => body,
    };
    let looping = StmtModel::While(condition, Box::new(repeated));
    match initializer {
        Some(initializer) => StmtModel::Block(seq![initializer, looping]),
        None => StmtModel::Block(seq![looping]),
    }
}

/// declaration → funDecl | varDecl | statement
pub open spec fn declaration(tokens: Seq<TokenModel>, pos: int) -> Parsed<StmtModel>
    decreases remaining(tokens, pos), 10nat,
{
    if check(tokens, pos, TokenType::Fun) {
        function_declaration(tokens, pos + 1, "function"@)
    } else if check(tokens, pos, TokenType::Var) {
        var_declaration(tokens, pos + 1)
    } else {
        statement(tokens, pos)
    }
}

/// funDecl → "fun" IDENT "(" params? ")" "{" declaration* "}", behind the
/// keyword. `kind` says in messages what is being declared.
pub open spec fn function_declaration(tokens: Seq<TokenModel>, pos: int, kind: Seq<char>) -> Parsed<
    StmtModel,
>
    decreases remaining(tokens, pos), 5nat,
{
    match consume(tokens, pos, TokenType::Identifier, "Expected "@ + kind + " name"@) {
        Parsed::Tree(name, after_name) => match consume(
            tokens,
            after_name,
            TokenType::LeftParen,
            "Expected '(' after "@ + kind + " name"@,
        ) {
            Parsed::Tree(_, after_paren) => {
                let list = if check(tokens, after_paren, TokenType::RightParen) {
                    Parsed::Tree(Seq::empty(), after_paren)
                } else {
                    proper(tokens, after_paren, parameters(tokens, after_paren, Seq::empty()))
                };
                match list {
                    Parsed::Tree(params, after_params) => match consume(
                        tokens,
                        after_params,
                        TokenType::RightParen,
                        "Expected ')' after parameters"@,
                    ) {
                        Parsed::Tree(_, before_body) => match consume(
                            tokens,
                            before_body,
                            TokenType::LeftBrace,
                            "Expected '{' before "@ + kind + " body."@,
                        ) {
                            Parsed::Tree(_, in_body) => match block(tokens, in_body, Seq::empty()) {
                                Parsed::Tree(body, end) => Parsed::Tree(
                                    StmtModel::Function(FuncStmtModel { name, params, body }),
                                    end,
                                ),
                                Parsed::Error(message) => Parsed::Error(message),
                            },
                            Parsed::Error(message) => Parsed::Error(message),
                        },
                        Parsed::Error(message) => Parsed::Error(message),
                    },
                    Parsed::Error(message) => Parsed::Error(message),
                }
            },
            Parsed::Error(message) => Parsed::Error(message),
        },
        Parsed::Error(message) => Parsed::Error(message),
    }
}

/// statement → printStmt | ifStmt | whileStmt | forStmt | returnStmt
///           | block | exprStmt
pub open spec fn statement(tokens: Seq<TokenModel>, pos: int) -> Parsed<StmtModel>
    decreases remaining(tokens, pos), 8nat,
{
    if check(tokens, pos, TokenType::If) {
        if_statement(tokens, pos + 1)
    } else if check(tokens, pos, TokenType::Print) {
        print_statement(tokens, pos + 1)
    } else if check(tokens, pos, TokenType::LeftBrace) {
        match block(tokens, pos + 1, Seq::empty()) {
            Parsed::Tree(statements, end) => Parsed::Tree(StmtModel::Block(statements), end),
            Parsed::Error(message) => Parsed::Error(message),
        }
    } else if check(tokens, pos, TokenType::While) {
        while_statement(tokens, pos + 1)
    } else if check(tokens, pos, TokenType::For) {
        for_statement(tokens, pos + 1)
    } else if check(tokens, pos, TokenType::Return) {
        return_statement(tokens, pos + 1)
    } else {
        expression_statement(tokens, pos)
    }
}

/// ifStmt → "if" "(" expression ")" statement ("else" statement)?, behind
/// the keyword. An `else` belongs to the nearest `if`.
pub open spec fn if_statement(tokens: Seq<TokenModel>, pos: int) -> Parsed<StmtModel>
    decreases remaining(tokens, pos), 5nat,
{
    match proper(
        tokens,
        pos,
        condition(tokens, pos, "Expected '(' after 'if'."@, "Expected ')' after if condition."@),
    ) {
        Parsed::Tree(test, next) => match proper(tokens, next, statement(tokens, next)) {
            Parsed::Tree(then_branch, after_then) => if check(tokens, after_then, TokenType::Else) {
                match statement(tokens, after_then + 1) {
                    Parsed::Tree(else_branch, end) => Parsed::Tree(
                        StmtModel::If(test, Box::new(then_branch), Some(Box::new(else_branch))),
                        end,
                    ),
                    Parsed::Error(message) => Parsed::Error(message),
                }
            } else {
                Parsed::Tree(StmtModel::If(test, Box::new(then_branch), None), after_then)
            },
            Parsed::Error(message) => Parsed::Error(message),
        },
        Parsed::Error(message) => Parsed::Error(message),
    }
}

/// whileStmt → "while" "(" expression ")" statement, behind the keyword.
pub open spec fn while_statement(tokens: Seq<TokenModel>, pos: int) -> Parsed<StmtModel>
    decreases remaining(tokens, pos), 5nat,
{
    match proper(
        tokens,
        pos,
        condition(
            tokens,
            pos,
            "Expected '(' after 'while'."@,
            "Expected ')' after while condition."@,
        ),
    ) {
        Parsed::Tree(test, next) => match statement(tokens, next) {
            Parsed::Tree(body, end) => Parsed::Tree(StmtModel::While(test, Box::new(body)), end),
            Parsed::Error(message) => Parsed::Error(message),
        },
        Parsed::Error(message) => Parsed::Error(message),
    }
}

/// forStmt → "for" "(" (varDecl | exprStmt | ";") expression? ";"
///           expression? ")" statement, behind the keyword.
///
/// No loop of this form is kept in the tree: see [`desugared_for`].
pub open spec fn for_statement(tokens: Seq<TokenModel>, pos: int) -> Parsed<StmtModel>
    decreases remaining(tokens, pos), 5nat,
{
    match consume(tokens, pos, TokenType::LeftParen, "Expected '(' after 'for'."@) {
        Parsed::Tree(_, first) => match proper(tokens, first, for_initializer(tokens, first)) {
            Parsed::Tree(initializer, second) => match proper(
                tokens,
                second,
                for_condition(tokens, second),
            ) {
                Parsed::Tree(test, third) => match proper(
                    tokens,
                    third,
                    for_increment(tokens, third),
                ) {
                    Parsed::Tree(increment, before_body) => match statement(tokens, before_body) {
                        Parsed::Tree(body, end) => Parsed::Tree(
                            desugared_for(initializer, test, increment, body),
                            end,
                        ),
                        Parsed::Error(message) => Parsed::Error(message),
                    },
                    Parsed::Error(message) => Parsed::Error(message),
                },
                Parsed::Error(message) => Parsed::Error(message),
            },
            Parsed::Error(message) => Parsed::Error(message),
        },
        Parsed::Error(message) => Parsed::Error(message),
    }
}

/// block → "{" declaration* "}", behind the opening brace and the
/// statements `done`.
pub open spec fn block(tokens: Seq<TokenModel>, pos: int, done: Seq<StmtModel>) -> Parsed<
    Seq<StmtModel>,
>
    decreases remaining(tokens, pos), 20nat,
{
    if check(tokens, pos, TokenType::RightBrace) {
        Parsed::Tree(done, pos + 1)
    } else {
        match proper(tokens, pos, declaration(tokens, pos)) {
            Parsed::Tree(statement, next) => block(tokens, next, done.push(statement)),
            Parsed::Error(message) => Parsed::Error(message),
        }
    }
}

/// program → declaration* EOF, behind the statements `done`.
pub open spec fn program(tokens: Seq<TokenModel>, pos: int, done: Seq<StmtModel>) -> Parsed<
    Seq<StmtModel>,
>
    decreases remaining(tokens, pos), 30nat,
{
    if at_end(tokens, pos) {
        Parsed::Tree(done, pos)
    } else {
        match proper(tokens, pos, declaration(tokens, pos)) {
            Parsed::Tree(statement, next) => program(tokens, next, done.push(statement)),
            Parsed::Error(message) => Parsed::Error(message),
        }
    }
}

/// A call may have [`MAX_ARITY`] arguments and a function as many
/// parameters: behind fewer, one more is taken; behind that many, the next
/// one is an error at its first token, whatever it is.
pub proof fn lemma_arity_limit(
    tokens: Seq<TokenModel>,
    pos: int,
    arguments_given: Seq<ExprModel>,
    parameters_given: Seq<TokenModel>,
)
    ensures
        arguments_given.len() >= MAX_ARITY ==> arguments(tokens, pos, arguments_given)
            == Parsed::<Seq<ExprModel>>::Error(
            error_at(tokens[pos], "Cannot have more than 255 arguments"@),
        ),
        parameters_given.len() >= MAX_ARITY ==> parameters(tokens, pos, parameters_given)
            == Parsed::<Seq<TokenModel>>::Error(
            error_at(tokens[pos], "Cannot have more than 255 parameters."@),
        ),
        arguments_given.len() < MAX_ARITY ==> match proper(tokens, pos, expression(tokens, pos)) {
            Parsed::Tree(argument, next) => !check(tokens, next, TokenType::Comma) ==> arguments(
                tokens,
                pos,
                arguments_given,
            ) == Parsed::Tree(arguments_given.push(argument), next),
            Parsed::Error(_) => true,
        },
        parameters_given.len() < MAX_ARITY && check(tokens, pos, TokenType::Identifier) && !check(
            tokens,
            pos + 1,
            TokenType::Comma,
        ) ==> parameters(tokens, pos, parameters_given) == Parsed::Tree(
            parameters_given.push(tokens[pos]),
            pos + 1,
        ),
{
}

/// A `for` loop without clauses, `for (;;) body`, is a loop that never ends
/// by itself: a block that holds `while (true) body` and nothing else.
pub proof fn lemma_for_without_clauses(tokens: Seq<TokenModel>, pos: int)
    requires
        check(tokens, pos, TokenType::LeftParen),
        check(tokens, pos + 1, TokenType::Semicolon),
        check(tokens, pos + 2, TokenType::Semicolon),
        check(tokens, pos + 3, TokenType::RightParen),
    ensures
        for_statement(tokens, pos) == match statement(tokens, pos + 4) {
            Parsed::Tree(body, end) => Parsed::Tree(
                StmtModel::Block(seq![StmtModel::While(ExprModel::True, Box::new(body))]),
                end,
            ),
            Parsed::Error(message) => Parsed::Error(message),
        },
{
}

/// The tree of `parsed`, if it has one, is well formed.
pub open spec fn gives_expr(parsed: Parsed<ExprModel>) -> bool {
    match parsed {
        Parsed::Tree(tree, _) => tree.well_formed(),
        Parsed::Error(_) => true,
    }
}

/// The tree of `parsed`, if it has one, is well formed.
pub open spec fn gives_stmt(parsed: Parsed<StmtModel>) -> bool {
    match parsed {
        Parsed::Tree(tree, _) => tree.well_formed(),
        Parsed::Error(_) => true,
    }
}

/// The trees of `parsed`, if it has any, are well formed.
pub open spec fn gives_exprs(parsed: Parsed<Seq<ExprModel>>) -> bool {
    match parsed {
        Parsed::Tree(trees, _) => forall|i: int|
            0 <= i < trees.len() ==> (#[trigger] trees[i]).well_formed(),
        Parsed::Error(_) => true,
    }
}

/// The trees of `parsed`, if it has any, are well formed.
pub open spec fn gives_stmts(parsed: Parsed<Seq<StmtModel>>) -> bool {
    match parsed {
        Parsed::Tree(trees, _) => all_well_formed(trees),
        Parsed::Error(_) => true,
    }
}

/// Every expression that the grammar yields is well formed.
pub proof fn lemma_expression_well_formed(tokens: Seq<TokenModel>, pos: int)
    ensures
        gives_expr(expression(tokens, pos)),
    decreases remaining(tokens, pos), 60nat,
{
    lemma_assignment_well_formed(tokens, pos);
}

proof fn lemma_assignment_well_formed(tokens: Seq<TokenModel>, pos: int)
    ensures
        gives_expr(assignment(tokens, pos)),
    decreases remaining(tokens, pos), 50nat,
{
    lemma_binary_well_formed(tokens, pos, Precedence::Or);
    match proper(tokens, pos, binary(tokens, pos, Precedence::Or)) {
        Parsed::Tree(target, next) => {
            if check(tokens, next, TokenType::Equal) {
                lemma_assignment_well_formed(tokens, next + 1);
            }
        },
        Parsed::Error(_) => {},
    }
}

proof fn lemma_binary_well_formed(tokens: Seq<TokenModel>, pos: int, class: Precedence)
    ensures
        gives_expr(binary(tokens, pos, class)),
    decreases remaining(tokens, pos), 2 * class.rank() + 12,
{
    lemma_operand_well_formed(tokens, pos, class);
    match proper(tokens, pos, operand(tokens, pos, class)) {
        Parsed::Tree(left, next) => lemma_binary_rest_well_formed(tokens, next, class, left),
        Parsed::Error(_) => {},
    }
}

proof fn lemma_operand_well_formed(tokens: Seq<TokenModel>, pos: int, class: Precedence)
    ensures
        gives_expr(operand(tokens, pos, class)),
    decreases remaining(tokens, pos), 2 * class.rank() + 11,
{
    match class.tighter() {
        Some(tighter) => lemma_binary_well_formed(tokens, pos, tighter),
        None => lemma_unary_well_formed(tokens, pos),
    }
}

proof fn lemma_binary_rest_well_formed(
    tokens: Seq<TokenModel>,
    pos: int,
    class: Precedence,
    left: ExprModel,
)
    requires
        left.well_formed(),
    ensures
        gives_expr(binary_rest(tokens, pos, class, left)),
    decreases remaining(tokens, pos), 2 * class.rank() + 12,
{
    if !at_end(tokens, pos) && class.has(tokens[pos].token_type) {
        lemma_operand_well_formed(tokens, pos + 1, class);
        match proper(tokens, pos + 1, operand(tokens, pos + 1, class)) {
            Parsed::Tree(right, next) => lemma_binary_rest_well_formed(
                tokens,
                next,
                class,
                class.combine(left, tokens[pos], right),
            ),
            Parsed::Error(_) => {},
        }
    }
}

proof fn lemma_unary_well_formed(tokens: Seq<TokenModel>, pos: int)
    ensures
        gives_expr(unary(tokens, pos)),
    decreases remaining(tokens, pos), 5nat,
{
    if check(tokens, pos, TokenType::Bang) || check(tokens, pos, TokenType::Minus) {
        lemma_unary_well_formed(tokens, pos + 1);
    } else {
        lemma_call_well_formed(tokens, pos);
    }
}

proof fn lemma_call_well_formed(tokens: Seq<TokenModel>, pos: int)
    ensures
        gives_expr(call(tokens, pos)),
    decreases remaining(tokens, pos), 4nat,
{
    lemma_primary_well_formed(tokens, pos);
    match proper(tokens, pos, primary(tokens, pos)) {
        Parsed::Tree(callee, next) => lemma_call_rest_well_formed(tokens, next, callee),
        Parsed::Error(_) => {},
    }
}

proof fn lemma_call_rest_well_formed(tokens: Seq<TokenModel>, pos: int, callee: ExprModel)
    requires
        callee.well_formed(),
    ensures
        gives_expr(call_rest(tokens, pos, callee)),
    decreases remaining(tokens, pos), 3nat,
{
    if check(tokens, pos, TokenType::LeftParen) {
        lemma_finish_call_well_formed(tokens, pos + 1, callee);
        match proper(tokens, pos, finish_call(tokens, pos + 1, callee)) {
            Parsed::Tree(called, next) => lemma_call_rest_well_formed(tokens, next, called),
            Parsed::Error(_) => {},
        }
    }
}

proof fn lemma_finish_call_well_formed(tokens: Seq<TokenModel>, pos: int, callee: ExprModel)
    requires
        callee.well_formed(),
    ensures
        gives_expr(finish_call(tokens, pos, callee)),
    decreases remaining(tokens, pos), 80nat,
{
    if !check(tokens, pos, TokenType::RightParen) {
        lemma_arguments_well_formed(tokens, pos, Seq::empty());
    }
}

proof fn lemma_arguments_well_formed(tokens: Seq<TokenModel>, pos: int, given: Seq<ExprModel>)
    requires
        forall|i: int| 0 <= i < given.len() ==> (#[trigger] given[i]).well_formed(),
    ensures
        gives_exprs(arguments(tokens, pos, given)),
    decreases remaining(tokens, pos), 70nat,
{
    if given.len() < MAX_ARITY {
        lemma_expression_well_formed(tokens, pos);
        match proper(tokens, pos, expression(tokens, pos)) {
            Parsed::Tree(argument, next) => {
                if check(tokens, next, TokenType::Comma) {
                    lemma_arguments_well_formed(tokens, next + 1, given.push(argument));
                }
            },
            Parsed::Error(_) => {},
        }
    }
}

proof fn lemma_primary_well_formed(tokens: Seq<TokenModel>, pos: int)
    ensures
        gives_expr(primary(tokens, pos)),
    decreases remaining(tokens, pos), 1nat,
{
    if check(tokens, pos, TokenType::LeftParen) {
        lemma_expression_well_formed(tokens, pos + 1);
    }
}

/// Every declaration that the grammar yields is well formed.
pub proof fn lemma_declaration_well_formed(tokens: Seq<TokenModel>, pos: int)
    ensures
        gives_stmt(declaration(tokens, pos)),
    decreases remaining(tokens, pos), 10nat,
{
    if check(tokens, pos, TokenType::Fun) {
        lemma_function_declaration_well_formed(tokens, pos + 1, "function"@);
    } else if check(tokens, pos, TokenType::Var) {
        lemma_var_declaration_well_formed(tokens, pos + 1);
    } else {
        lemma_statement_well_formed(tokens, pos);
    }
}

proof fn lemma_closed_expression_well_formed(
    tokens: Seq<TokenModel>,
    pos: int,
    kind: TokenType,
    message: Seq<char>,
)
    ensures
        gives_expr(closed_expression(tokens, pos, kind, message)),
{
    lemma_expression_well_formed(tokens, pos);
}

proof fn lemma_var_declaration_well_formed(tokens: Seq<TokenModel>, pos: int)
    ensures
        gives_stmt(var_declaration(tokens, pos)),
{
    lemma_closed_expression_well_formed(
        tokens,
        pos + 2,
        TokenType::Semicolon,
        "Expected ';' after variable declaration"@,
    );
}

proof fn lemma_expression_statement_well_formed(tokens: Seq<TokenModel>, pos: int)
    ensures
        gives_stmt(expression_statement(tokens, pos)),
{
    lemma_closed_expression_well_formed(
        tokens,
        pos,
        TokenType::Semicolon,
        "Expected ';' after expression."@,
    );
}

proof fn lemma_function_declaration_well_formed(
    tokens: Seq<TokenModel>,
    pos: int,
    kind: Seq<char>,
)
    ensures
        gives_stmt(function_declaration(tokens, pos, kind)),
    decreases remaining(tokens, pos), 5nat,
{
    match consume(tokens, pos, TokenType::Identifier, "Expected "@ + kind + " name"@) {
        Parsed::Tree(name, after_name) => match consume(
            tokens,
            after_name,
            TokenType::LeftParen,
            "Expected '(' after "@ + kind + " name"@,
        ) {
            Parsed::Tree(_, after_paren) => {
                let list = if check(tokens, after_paren, TokenType::RightParen) {
                    Parsed::Tree(Seq::empty(), after_paren)
                } else {
                    proper(tokens, after_paren, parameters(tokens, after_paren, Seq::empty()))
                };
                match list {
                    Parsed::Tree(params, after_params) => match consume(
                        tokens,
                        after_params,
                        TokenType::RightParen,
                        "Expected ')' after parameters"@,
                    ) {
                        Parsed::Tree(_, before_body) => match consume(
                            tokens,
                            before_body,
                            TokenType::LeftBrace,
                            "Expected '{' before "@ + kind + " body."@,
                        ) {
                            Parsed::Tree(_, in_body) => lemma_block_well_formed(
                                tokens,
                                in_body,
                                Seq::empty(),
                            ),
                            Parsed::Error(_) => {},
                        },
                        Parsed::Error(_) => {},
                    },
                    Parsed::Error(_) => {},
                }
            },
            Parsed::Error(_) => {},
        },
        Parsed::Error(_) => {},
    }
}

proof fn lemma_statement_well_formed(tokens: Seq<TokenModel>, pos: int)
    ensures
        gives_stmt(statement(tokens, pos)),
    decreases remaining(tokens, pos), 8nat,
{
    if check(tokens, pos, TokenType::If) {
        lemma_if_statement_well_formed(tokens, pos + 1);
    } else if check(tokens, pos, TokenType::Print) {
        lemma_closed_expression_well_formed(
            tokens,
            pos + 1,
            TokenType::Semicolon,
            "Expected ';' after value."@,
        );
    } else if check(tokens, pos, TokenType::LeftBrace) {
        lemma_block_well_formed(tokens, pos + 1, Seq::empty());
    } else if check(tokens, pos, TokenType::While) {
        lemma_while_statement_well_formed(tokens, pos + 1);
    } else if check(tokens, pos, TokenType::For) {
        lemma_for_statement_well_formed(tokens, pos + 1);
    } else if check(tokens, pos, TokenType::Return) {
        lemma_closed_expression_well_formed(
            tokens,
            pos + 1,
            TokenType::Semicolon,
            "Expected ';' after return value."@,
        );
    } else {
        lemma_expression_statement_well_formed(tokens, pos);
    }
}

proof fn lemma_condition_well_formed(
    tokens: Seq<TokenModel>,
    pos: int,
    opening: Seq<char>,
    closing: Seq<char>,
)
    ensures
        gives_expr(condition(tokens, pos, opening, closing)),
{
    lemma_closed_expression_well_formed(tokens, pos + 1, TokenType::RightParen, closing);
}

proof fn lemma_if_statement_well_formed(tokens: Seq<TokenModel>, pos: int)
    ensures
        gives_stmt(if_statement(tokens, pos)),
    decreases remaining(tokens, pos), 5nat,
{
    let opening = "Expected '(' after 'if'."@;
    let closing = "Expected ')' after if condition."@;
    lemma_condition_well_formed(tokens, pos, opening, closing);
    match proper(tokens, pos, condition(tokens, pos, opening, closing)) {
        Parsed::Tree(test, next) => {
            lemma_statement_well_formed(tokens, next);
            match proper(tokens, next, statement(tokens, next)) {
                Parsed::Tree(then_branch, after_then) => {
                    if check(tokens, after_then, TokenType::Else) {
                        lemma_statement_well_formed(tokens, after_then + 1);
                    }
                },
                Parsed::Error(_) => {},
            }
        },
        Parsed::Error(_) => {},
    }
}

proof fn lemma_while_statement_well_formed(tokens: Seq<TokenModel>, pos: int)
    ensures
        gives_stmt(while_statement(tokens, pos)),
    decreases remaining(tokens, pos), 5nat,
{
    let opening = "Expected '(' after 'while'."@;
    let closing = "Expected ')' after while condition."@;
    lemma_condition_well_formed(tokens, pos, opening, closing);
    match proper(tokens, pos, condition(tokens, pos, opening, closing)) {
        Parsed::Tree(test, next) => lemma_statement_well_formed(tokens, next),
        Parsed::Error(_) => {},
    }
}

proof fn lemma_for_statement_well_formed(tokens: Seq<TokenModel>, pos: int)
    ensures
        gives_stmt(for_statement(tokens, pos)),
    decreases remaining(tokens, pos), 5nat,
{
    match consume(tokens, pos, TokenType::LeftParen, "Expected '(' after 'for'."@) {
        Parsed::Tree(_, first) => {
            lemma_var_declaration_well_formed(tokens, first + 1);
            lemma_expression_statement_well_formed(tokens, first);
            match proper(tokens, first, for_initializer(tokens, first)) {
                Parsed::Tree(initializer, second) => {
                    lemma_closed_expression_well_formed(
                        tokens,
                        second,
                        TokenType::Semicolon,
                        "Expected ';' after loop condition."@,
                    );
                    match proper(tokens, second, for_condition(tokens, second)) {
                        Parsed::Tree(test, third) => {
                            lemma_closed_expression_well_formed(
                                tokens,
                                third,
                                TokenType::RightParen,
                                "Expected ')' after 'for'."@,
                            );
                            match proper(tokens, third, for_increment(tokens, third)) {
                                Parsed::Tree(increment, before_body) => {
                                    lemma_statement_well_formed(tokens, before_body);
                                    match statement(tokens, before_body) {
                                        Parsed::Tree(body, _) => {
                                            lemma_desugared_for_well_formed(
                                                initializer,
                                                test,
                                                increment,
                                                body,
                                            );
                                        },
                                        Parsed::Error(_) => {},
                                    }
                                },
                                Parsed::Error(_) => {},
                            }
                        },
                        Parsed::Error(_) => {},
                    }
                },
                Parsed::Error(_) => {},
            }
        },
        Parsed::Error(_) => {},
    }
}

proof fn lemma_desugared_for_well_formed(
    initializer: Option<StmtModel>,
    condition: ExprModel,
    increment: Option<StmtModel>,
    body: StmtModel,
)
    requires
        match initializer {
            Some(statement) => statement.well_formed(),
            None => true,
        },
        condition.well_formed(),
        match increment {
            Some(statement) => statement.well_formed(),
            None => true,
        },
        body.well_formed(),
    ensures
        desugared_for(initializer, condition, increment, body).well_formed(),
{
    let repeated = match increment {
        Some(increment) => StmtModel::Block(seq![body, increment]),
        None => body,
    };
    assert(repeated.well_formed());
    let looping = StmtModel::While(condition, Box::new(repeated));
    assert(looping.well_formed());
}

proof fn lemma_block_well_formed(tokens: Seq<TokenModel>, pos: int, done: Seq<StmtModel>)
    requires
        all_well_formed(done),
    ensures
        gives_stmts(block(tokens, pos, done)),
    decreases remaining(tokens, pos), 20nat,
{
    if !check(tokens, pos, TokenType::RightBrace) {
        lemma_declaration_well_formed(tokens, pos);
        match proper(tokens, pos, declaration(tokens, pos)) {
            Parsed::Tree(statement, next) => lemma_block_well_formed(
                tokens,
                next,
                done.push(statement),
            ),
            Parsed::Error(_) => {},
        }
    }
}

/// Every statement of a program that the grammar yields is well formed: the
/// parser builds no tree that the interpreter would have to reject.
pub proof fn lemma_program_well_formed(tokens: Seq<TokenModel>, pos: int, done: Seq<StmtModel>)
    requires
        all_well_formed(done),
    ensures
        gives_stmts(program(tokens, pos, done)),
    decreases remaining(tokens, pos), 30nat,
{
    if !at_end(tokens, pos) {
        lemma_declaration_well_formed(tokens, pos);
        match proper(tokens, pos, declaration(tokens, pos)) {
            Parsed::Tree(statement, next) => lemma_program_well_formed(
                tokens,
                next,
                done.push(statement),
            ),
            Parsed::Error(_) => {},
        }
    }
}

} // verus!
