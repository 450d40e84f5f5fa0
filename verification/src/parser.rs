//! The parser: from tokens to statements, by recursive descent.

use crate::expression::{expr_models, lemma_call_model, Expr, ExprModel};
use crate::grammar::{
    arguments, assignment, at_end, binary, binary_rest, block, call, call_rest, check, condition,
    consume, declaration, desugared_for, error_at, expression, expression_statement, finish_call,
    for_condition, for_increment, for_initializer, for_statement, function_declaration,
    if_statement, lemma_program_well_formed, operand, parameters, primary, print_statement,
    program, return_statement, statement, unary, var_declaration, while_statement, Parsed,
    Precedence, MAX_ARITY,
};
use crate::statement::{
    all_well_formed, lemma_block_model, lemma_function_model, optional_stmt_model, stmt_models,
    FuncStmt, Stmt, StmtModel,
};
use crate::text::push_decimal;
use crate::token::{token_models, Token, TokenModel, TokenType};
use crate::value::LoxError;
use vstd::prelude::*;
use vstd::string::StringExecFns;

verus! {

/// What a parse gave, with every tree as its model and an error as its
/// message.
pub enum Given<M> {
    Tree(M),
    Error(Seq<char>),
}

/// What parsing an expression gave.
pub open spec fn given_expr(result: Result<Expr, LoxError>) -> Given<ExprModel> {
    match result {
        Ok(expr) => Given::Tree(expr@),
        Err(error) => Given::Error(error@),
    }
}

/// What parsing a list of expressions gave.
pub open spec fn given_exprs(result: Result<Vec<Expr>, LoxError>) -> Given<Seq<ExprModel>> {
    match result {
        Ok(exprs) => Given::Tree(expr_models(exprs@)),
        Err(error) => Given::Error(error@),
    }
}

/// What parsing a statement gave.
pub open spec fn given_stmt(result: Result<Stmt, LoxError>) -> Given<StmtModel> {
    match result {
        Ok(statement) => Given::Tree(statement@),
        Err(error) => Given::Error(error@),
    }
}

/// What parsing an optional statement gave.
pub open spec fn given_optional_stmt(result: Result<Option<Stmt>, LoxError>) -> Given<
    Option<StmtModel>,
> {
    match result {
        Ok(statement) => Given::Tree(optional_stmt_model(statement)),
        Err(error) => Given::Error(error@),
    }
}

/// What parsing a list of statements gave.
pub open spec fn given_stmts(result: Result<Vec<Stmt>, LoxError>) -> Given<Seq<StmtModel>> {
    match result {
        Ok(statements) => Given::Tree(stmt_models(statements@)),
        Err(error) => Given::Error(error@),
    }
}

/// What taking one token gave.
pub open spec fn given_token(result: Result<Token, LoxError>) -> Given<TokenModel> {
    match result {
        Ok(token) => Given::Tree(token@),
        Err(error) => Given::Error(error@),
    }
}

/// What parsing a list of tokens gave.
pub open spec fn given_tokens(result: Result<Vec<Token>, LoxError>) -> Given<Seq<TokenModel>> {
    match result {
        Ok(tokens) => Given::Tree(token_models(tokens@)),
        Err(error) => Given::Error(error@),
    }
}

/// The statement that a `for` loop with these parts stands for.
fn desugar_for(
    initializer: Option<Stmt>,
    condition: Expr,
    increment: Option<Stmt>,
    body: Stmt,
) -> (statement: Stmt)
    ensures
        statement@ == desugared_for(
            optional_stmt_model(initializer),
            condition@,
            optional_stmt_model(increment),
            body@,
        ),
{
    let repeated = match increment {
        Some(increment) => {
            let ghost parts = seq![body@, increment@];
            let mut pair: Vec<Stmt> = Vec::new();
            pair.push(body);
            pair.push(increment);
            proof {
                lemma_block_model(pair);
                assert(stmt_models(pair@) =~= parts);
            }
            Stmt::Block(pair)
        },
        None => body,
    };
    let looping = Stmt::While(condition, Box::new(repeated));
    let ghost model = looping@;
    let mut statements: Vec<Stmt> = Vec::new();
    match initializer {
        Some(initializer) => {
            let ghost first = initializer@;
            statements.push(initializer);
            statements.push(looping);
            proof {
                assert(stmt_models(statements@) =~= seq![first, model]);
            }
        },
        None => {
            statements.push(looping);
            proof {
                assert(stmt_models(statements@) =~= seq![model]);
            }
        },
    }
    proof {
        lemma_block_model(statements);
    }
    Stmt::Block(statements)
}

/// Whether two token kinds are the same.
fn same_kind(left: TokenType, right: TokenType) -> (same: bool)
    ensures
        same == (left == right),
{
    left == right
}

/// Whether `kind` is an operator of `class`.
fn has_operator(class: Precedence, kind: TokenType) -> (has: bool)
    ensures
        has == class.has(kind),
{
    match class {
        Precedence::Or => kind == TokenType::Or,
        Precedence::And => kind == TokenType::And,
        Precedence::Equality => kind == TokenType::EqualEqual || kind == TokenType::BangEqual,
        Precedence::Comparison => kind == TokenType::Less || kind == TokenType::LessEqual || kind
            == TokenType::Greater || kind == TokenType::GreaterEqual,
        Precedence::Addition => kind == TokenType::Plus || kind == TokenType::Minus,
        Precedence::Multiplication => kind == TokenType::Slash || kind == TokenType::Star,
    }
}

/// A recursive-descent parser over a token list that ends with the
/// end-of-input token. It looks one token ahead and stops at the first error.
pub struct Parser<'a> {
    tokens: &'a [Token],
    current: usize,
}

impl<'a> Parser<'a> {
    /// The token list ends with the end-of-input token and the parser is at
    /// one of its tokens.
    pub closed spec fn well_formed(&self) -> bool {
        &&& self.tokens@.len() > 0
        &&& self.tokens@.last().token_type == TokenType::EOF
        &&& self.current < self.tokens@.len()
    }

    /// The models of the tokens.
    pub closed spec fn models(&self) -> Seq<TokenModel> {
        token_models(self.tokens@)
    }

    /// The position of the token that is parsed next.
    pub closed spec fn position(&self) -> int {
        self.current as int
    }

    /// The parser has gone on from `before` as `expected` says, and `given`
    /// is what `expected` holds: on success the parser stands behind the
    /// tree, which is not empty.
    pub open spec fn went<M>(&self, before: &Parser<'a>, given: Given<M>, expected: Parsed<M>) -> bool {
        &&& self.models() == before.models()
        &&& match expected {
            Parsed::Tree(tree, next) => {
                &&& given == Given::Tree(tree)
                &&& self.position() == next
                &&& before.position() < next
                &&& self.well_formed()
            },
            Parsed::Error(message) => given == Given::<M>::Error(message),
        }
    }

    /// Parses a whole program. The result is the list of its statements, or
    /// the first error in a list of its own.
    pub fn parse(tokens: &[Token]) -> (result: Result<Vec<Stmt>, Vec<LoxError>>)
        requires
            tokens@.len() > 0,
            tokens@.last().token_type == TokenType::EOF,
        ensures
            match program(token_models(tokens@), 0, Seq::empty()) {
                Parsed::Tree(statements, _) => {
                    &&& result is Ok
                    &&& stmt_models(result->Ok_0@) == statements
                    &&& all_well_formed(statements)
                },
                Parsed::Error(message) => {
                    &&& result is Err
                    &&& result->Err_0@.len() == 1
                    &&& result->Err_0@[0]@ == message
                },
            },
    {
        proof {
            lemma_program_well_formed(token_models(tokens@), 0, Seq::empty());
        }
        let mut parser = Parser::new(tokens);
        match parser.parse_statements() {
            Ok(statements) => Ok(statements),
            Err(error) => {
                let mut errors: Vec<LoxError> = Vec::new();
                errors.push(error);
                Err(errors)
            },
        }
    }

    /// Parses the declarations from the parser's position to the end of the
    /// input.
    pub fn parse_statements(&mut self) -> (result: Result<Vec<Stmt>, LoxError>)
        requires
            old(self).well_formed(),
        ensures
            final(self).models() == old(self).models(),
            match program(old(self).models(), old(self).position(), Seq::empty()) {
                Parsed::Tree(statements, next) => {
                    &&& given_stmts(result) == Given::Tree(statements)
                    &&& final(self).position() == next
                    &&& final(self).well_formed()
                },
                Parsed::Error(message) => given_stmts(result) == Given::<Seq<StmtModel>>::Error(
                    message,
                ),
            },
    {
        let mut statements: Vec<Stmt> = Vec::new();
        let ghost tokens = self.models();
        assert(stmt_models(statements@) =~= Seq::empty());
        while !self.is_at_end()
            invariant
                self.well_formed(),
                self.models() == tokens,
                tokens == old(self).models(),
                program(tokens, self.position(), stmt_models(statements@)) == program(
                    tokens,
                    old(self).position(),
                    Seq::empty(),
                ),
            decreases self.tokens@.len() - self.current,
        {
            let ghost done = stmt_models(statements@);
            match self.declaration() {
                Ok(statement) => {
                    statements.push(statement);
                    assert(stmt_models(statements@) =~= done.push(statement@));
                },
                Err(error) => {
                    return Err(error);
                },
            }
        }
        Ok(statements)
    }

    fn new(tokens: &'a [Token]) -> (parser: Parser<'a>)
        requires
            tokens@.len() > 0,
            tokens@.last().token_type == TokenType::EOF,
        ensures
            parser.well_formed(),
            parser.models() == token_models(tokens@),
            parser.position() == 0,
    {
        Parser { tokens, current: 0 }
    }
}

// Expressions
impl<'a> Parser<'a> {
    fn expression(&mut self) -> (result: Result<Expr, LoxError>)
        requires
            old(self).well_formed(),
        ensures
            final(self).went(
                old(self),
                given_expr(result),
                expression(old(self).models(), old(self).position()),
            ),
        decreases old(self).tokens@.len() - old(self).current, 60nat,
    {
        self.assignment()
    }

    fn assignment(&mut self) -> (result: Result<Expr, LoxError>)
        requires
            old(self).well_formed(),
        ensures
            final(self).went(
                old(self),
                given_expr(result),
                assignment(old(self).models(), old(self).position()),
            ),
        decreases old(self).tokens@.len() - old(self).current, 50nat,
    {
        let expr = match self.logic_or() {
            Ok(expr) => expr,
            Err(error) => {
                return Err(error);
            },
        };
        if self.match_type(TokenType::Equal) {
            let equals = self.previous().clone();
            let value = match self.assignment() {
                Ok(value) => value,
                Err(error) => {
                    return Err(error);
                },
            };
            if let Expr::Variable(token) = expr {
                return Ok(Expr::Assignment(token, Box::new(value)));
            }
            return Err(self.format_error(&equals, "Invalid assignment target."));
        }
        Ok(expr)
    }

    fn logic_or(&mut self) -> (result: Result<Expr, LoxError>)
        requires
            old(self).well_formed(),
        ensures
            final(self).went(
                old(self),
                given_expr(result),
                binary(old(self).models(), old(self).position(), Precedence::Or),
            ),
        decreases old(self).tokens@.len() - old(self).current, 28nat,
    {
        self.parse_binary_expression(Precedence::Or)
    }

    fn logic_and(&mut self) -> (result: Result<Expr, LoxError>)
        requires
            old(self).well_formed(),
        ensures
            final(self).went(
                old(self),
                given_expr(result),
                binary(old(self).models(), old(self).position(), Precedence::And),
            ),
        decreases old(self).tokens@.len() - old(self).current, 25nat,
    {
        self.parse_binary_expression(Precedence::And)
    }

    fn equality(&mut self) -> (result: Result<Expr, LoxError>)
        requires
            old(self).well_formed(),
        ensures
            final(self).went(
                old(self),
                given_expr(result),
                binary(old(self).models(), old(self).position(), Precedence::Equality),
            ),
        decreases old(self).tokens@.len() - old(self).current, 22nat,
    {
        self.parse_binary_expression(Precedence::Equality)
    }

    fn comparison(&mut self) -> (result: Result<Expr, LoxError>)
        requires
            old(self).well_formed(),
        ensures
            final(self).went(
                old(self),
                given_expr(result),
                binary(old(self).models(), old(self).position(), Precedence::Comparison),
            ),
        decreases old(self).tokens@.len() - old(self).current, 19nat,
    {
        self.parse_binary_expression(Precedence::Comparison)
    }

    fn addition(&mut self) -> (result: Result<Expr, LoxError>)
        requires
            old(self).well_formed(),
        ensures
            final(self).went(
                old(self),
                given_expr(result),
                binary(old(self).models(), old(self).position(), Precedence::Addition),
            ),
        decreases old(self).tokens@.len() - old(self).current, 16nat,
    {
        self.parse_binary_expression(Precedence::Addition)
    }

    fn multiplication(&mut self) -> (result: Result<Expr, LoxError>)
        requires
            old(self).well_formed(),
        ensures
            final(self).went(
                old(self),
                given_expr(result),
                binary(old(self).models(), old(self).position(), Precedence::Multiplication),
            ),
        decreases old(self).tokens@.len() - old(self).current, 13nat,
    {
        self.parse_binary_expression(Precedence::Multiplication)
    }

    fn unary(&mut self) -> (result: Result<Expr, LoxError>)
        requires
            old(self).well_formed(),
        ensures
            final(self).went(
                old(self),
                given_expr(result),
                unary(old(self).models(), old(self).position()),
            ),
        decreases old(self).tokens@.len() - old(self).current, 5nat,
    {
        if self.check(&TokenType::Bang) || self.check(&TokenType::Minus) {
            self.advance();
            let operator = self.previous().clone();
            return match self.unary() {
                Ok(right) => Ok(Expr::Unary(operator, Box::new(right))),
                Err(error) => Err(error),
            };
        }
        self.call()
    }

    fn call(&mut self) -> (result: Result<Expr, LoxError>)
        requires
            old(self).well_formed(),
        ensures
            final(self).went(
                old(self),
                given_expr(result),
                call(old(self).models(), old(self).position()),
            ),
        decreases old(self).tokens@.len() - old(self).current, 4nat,
    {
        let ghost tokens = self.models();
        let mut expr = match self.primary() {
            Ok(expr) => expr,
            Err(error) => {
                return Err(error);
            },
        };
        while self.check(&TokenType::LeftParen)
            invariant
                self.well_formed(),
                self.models() == tokens,
                tokens == old(self).models(),
                old(self).position() < self.position(),
                call_rest(tokens, self.position(), expr@) == call(tokens, old(self).position()),
            decreases self.tokens@.len() - self.current,
        {
            self.advance();
            expr = match self.finish_call(expr) {
                Ok(called) => called,
                Err(error) => {
                    return Err(error);
                },
            };
        }
        Ok(expr)
    }

    fn finish_call(&mut self, expr: Expr) -> (result: Result<Expr, LoxError>)
        requires
            old(self).well_formed(),
            old(self).position() > 0,
        ensures
            final(self).went(
                old(self),
                given_expr(result),
                finish_call(old(self).models(), old(self).position(), expr@),
            ),
        decreases old(self).tokens@.len() - old(self).current, 80nat,
    {
        let list = if self.check(&TokenType::RightParen) {
            let list: Vec<Expr> = Vec::new();
            assert(expr_models(list@) =~= Seq::empty());
            list
        } else {
            match self.arguments() {
                Ok(list) => list,
                Err(error) => {
                    return Err(error);
                },
            }
        };
        let paren = match self.consume(&TokenType::RightParen, "Expected ')' after arguments.") {
            Ok(paren) => paren,
            Err(error) => {
                return Err(error);
            },
        };
        proof {
            lemma_call_model(expr, paren, list);
        }
        Ok(Expr::Call(Box::new(expr), paren, list))
    }

    /// The arguments of a call, of which there is at least one.
    fn arguments(&mut self) -> (result: Result<Vec<Expr>, LoxError>)
        requires
            old(self).well_formed(),
        ensures
            final(self).went(
                old(self),
                given_exprs(result),
                arguments(old(self).models(), old(self).position(), Seq::empty()),
            ),
        decreases old(self).tokens@.len() - old(self).current, 70nat,
    {
        let ghost tokens = self.models();
        let mut list: Vec<Expr> = Vec::new();
        assert(expr_models(list@) =~= Seq::empty());
        loop
            invariant_except_break
                arguments(tokens, self.position(), expr_models(list@)) == arguments(
                    tokens,
                    old(self).position(),
                    Seq::empty(),
                ),
            invariant
                self.well_formed(),
                self.models() == tokens,
                tokens == old(self).models(),
                old(self).position() <= self.position(),
            ensures
                old(self).position() < self.position(),
                arguments(tokens, old(self).position(), Seq::empty()) == Parsed::Tree(
                    expr_models(list@),
                    self.position(),
                ),
            decreases self.tokens@.len() - self.current,
        {
            if list.len() >= MAX_ARITY {
                return Err(self.format_error(self.peek(), "Cannot have more than 255 arguments"));
            }
            let ghost given = expr_models(list@);
            match self.expression() {
                Ok(argument) => {
                    list.push(argument);
                    assert(expr_models(list@) =~= given.push(argument@));
                },
                Err(error) => {
                    return Err(error);
                },
            }
            if !self.match_type(TokenType::Comma) {
                break ;
            }
        }
        Ok(list)
    }

    fn primary(&mut self) -> (result: Result<Expr, LoxError>)
        requires
            old(self).well_formed(),
        ensures
            final(self).went(
                old(self),
                given_expr(result),
                primary(old(self).models(), old(self).position()),
            ),
        decreases old(self).tokens@.len() - old(self).current, 1nat,
    {
        if self.match_type(TokenType::False) {
            return Ok(Expr::False);
        }
        if self.match_type(TokenType::True) {
            return Ok(Expr::True);
        }
        if self.match_type(TokenType::Nil) {
            return Ok(Expr::Nil);
        }
        if self.match_type(TokenType::Number) {
            return Ok(Expr::Number(self.previous().literal.clone()));
        }
        if self.match_type(TokenType::String) {
            return Ok(Expr::String(self.previous().literal.clone()));
        }
        if self.match_type(TokenType::LeftParen) {
            let expr = match self.expression() {
                Ok(expr) => expr,
                Err(error) => {
                    return Err(error);
                },
            };
            match self.consume(&TokenType::RightParen, "Expected ')' after expression.") {
                Ok(_) => {},
                Err(error) => {
                    return Err(error);
                },
            }
            return Ok(Expr::Grouping(Box::new(expr)));
        }
        if self.match_type(TokenType::Identifier) {
            return Ok(Expr::Variable(self.previous().clone()));
        }
        Err(self.format_error(self.peek(), "Expected expression."))
    }

    /// One operand of an operator of `class`.
    fn operand(&mut self, class: Precedence) -> (result: Result<Expr, LoxError>)
        requires
            old(self).well_formed(),
        ensures
            final(self).went(
                old(self),
                given_expr(result),
                operand(old(self).models(), old(self).position(), class),
            ),
        decreases old(self).tokens@.len() - old(self).current, 3 * class.rank() + 11,
    {
        match class {
            Precedence::Or => self.logic_and(),
            Precedence::And => self.equality(),
            Precedence::Equality => self.comparison(),
            Precedence::Comparison => self.addition(),
            Precedence::Addition => self.multiplication(),
            Precedence::Multiplication => self.unary(),
        }
    }

    /// A chain of operands joined by operators of `class`, as a tree that
    /// leans to the left.
    fn parse_binary_expression(&mut self, class: Precedence) -> (result: Result<Expr, LoxError>)
        requires
            old(self).well_formed(),
        ensures
            final(self).went(
                old(self),
                given_expr(result),
                binary(old(self).models(), old(self).position(), class),
            ),
        decreases old(self).tokens@.len() - old(self).current, 3 * class.rank() + 12,
    {
        let ghost tokens = self.models();
        let mut expr = match self.operand(class) {
            Ok(expr) => expr,
            Err(error) => {
                return Err(error);
            },
        };
        while has_operator(class, self.peek().token_type)
            invariant
                self.well_formed(),
                self.models() == tokens,
                tokens == old(self).models(),
                old(self).position() < self.position(),
                binary_rest(tokens, self.position(), class, expr@) == binary(
                    tokens,
                    old(self).position(),
                    class,
                ),
            decreases self.tokens@.len() - self.current,
        {
            self.advance();
            let operator = self.previous().clone();
            let right = match self.operand(class) {
                Ok(right) => right,
                Err(error) => {
                    return Err(error);
                },
            };
            expr = match class {
                Precedence::Or | Precedence::And => Expr::Logical(
                    Box::new(expr),
                    operator,
                    Box::new(right),
                ),
                _ => Expr::Binary(Box::new(expr), operator, Box::new(right)),
            };
        }
        Ok(expr)
    }

    /// Takes the next token when it is of kind `token_type`.
    fn match_type(&mut self, token_type: TokenType) -> (matched: bool)
        requires
            old(self).well_formed(),
        ensures
            final(self).well_formed(),
            final(self).models() == old(self).models(),
            final(self).tokens == old(self).tokens,
            matched == check(old(self).models(), old(self).position(), token_type),
            final(self).position() == if matched {
                old(self).position() + 1
            } else {
                old(self).position()
            },
    {
        if self.check(&token_type) {
            self.advance();
            return true;
        }
        false
    }

    fn check(&self, token_type: &TokenType) -> (same: bool)
        requires
            self.well_formed(),
        ensures
            same == check(self.models(), self.position(), *token_type),
    {
        if self.is_at_end() {
            return false;
        }
        same_kind(self.peek().token_type, *token_type)
    }

    fn advance(&mut self) -> (token: &Token)
        requires
            old(self).well_formed(),
        ensures
            final(self).well_formed(),
            final(self).models() == old(self).models(),
            final(self).tokens == old(self).tokens,
            final(self).position() == if at_end(old(self).models(), old(self).position()) {
                old(self).position()
            } else {
                old(self).position() + 1
            },
    {
        let length = self.tokens.len();
        if !self.is_at_end() {
            assert(self.current + 1 < length);
            self.current += 1;
        }
        self.peek()
    }

    fn is_at_end(&self) -> (ended: bool)
        requires
            self.well_formed(),
        ensures
            ended == at_end(self.models(), self.position()),
    {
        same_kind(self.peek().token_type, TokenType::EOF)
    }

    fn peek(&self) -> (token: &Token)
        requires
            self.well_formed(),
        ensures
            token@ == self.models()[self.position()],
            *token == self.tokens@[self.position()],
    {
        &self.tokens[self.current]
    }

    fn previous(&self) -> (token: &Token)
        requires
            self.well_formed(),
            self.position() > 0,
        ensures
            token@ == self.models()[self.position() - 1],
    {
        &self.tokens[self.current - 1]
    }

    fn consume(&mut self, token_type: &TokenType, message: &str) -> (result: Result<
        Token,
        LoxError,
    >)
        requires
            old(self).well_formed(),
        ensures
            final(self).went(
                old(self),
                given_token(result),
                consume(old(self).models(), old(self).position(), *token_type, message@),
            ),
    {
        if self.check(token_type) {
            self.advance();
            return Ok(self.previous().clone());
        }
        Err(self.format_error(self.peek(), message))
    }

    fn format_error(&self, token: &Token, message: &str) -> (error: LoxError)
        ensures
            error@ == error_at(token@, message@),
    {
        if token.token_type == TokenType::EOF {
            let mut text = String::from_str("Unexpected EOF at line ");
            push_decimal(&mut text, token.line);
            text.append(". ");
            text.append(message);
            text.append(" ");
            LoxError::Standard(text)
        } else {
            let mut text = token.describe();
            text.append(" at line ");
            push_decimal(&mut text, token.line);
            text.append(". ");
            text.append(message);
            LoxError::Standard(text)
        }
    }
}

// Statements
impl<'a> Parser<'a> {
    fn declaration(&mut self) -> (result: Result<Stmt, LoxError>)
        requires
            old(self).well_formed(),
        ensures
            final(self).went(
                old(self),
                given_stmt(result),
                declaration(old(self).models(), old(self).position()),
            ),
        decreases old(self).tokens@.len() - old(self).current, 10nat,
    {
        if self.match_type(TokenType::Fun) {
            return self.function_declaration("function");
        }
        if self.match_type(TokenType::Var) {
            return self.var_declaration();
        }
        self.statement()
    }

    fn function_declaration(&mut self, kind: &str) -> (result: Result<Stmt, LoxError>)
        requires
            old(self).well_formed(),
            old(self).position() > 0,
        ensures
            final(self).went(
                old(self),
                given_stmt(result),
                function_declaration(old(self).models(), old(self).position(), kind@),
            ),
        decreases old(self).tokens@.len() - old(self).current, 5nat,
    {
        let mut expected_name = String::from_str("Expected ");
        expected_name.append(kind);
        expected_name.append(" name");
        let name = match self.consume(&TokenType::Identifier, expected_name.as_str()) {
            Ok(name) => name,
            Err(error) => {
                return Err(error);
            },
        };
        let mut expected_paren = String::from_str("Expected '(' after ");
        expected_paren.append(kind);
        expected_paren.append(" name");
        match self.consume(&TokenType::LeftParen, expected_paren.as_str()) {
            Ok(_) => {},
            Err(error) => {
                return Err(error);
            },
        }
        let params = if self.check(&TokenType::RightParen) {
            let params: Vec<Token> = Vec::new();
            assert(token_models(params@) =~= Seq::empty());
            params
        } else {
            match self.parameters() {
                Ok(params) => params,
                Err(error) => {
                    return Err(error);
                },
            }
        };
        match self.consume(&TokenType::RightParen, "Expected ')' after parameters") {
            Ok(_) => {},
            Err(error) => {
                return Err(error);
            },
        }
        let mut expected_body = String::from_str("Expected '{' before ");
        expected_body.append(kind);
        expected_body.append(" body.");
        match self.consume(&TokenType::LeftBrace, expected_body.as_str()) {
            Ok(_) => {},
            Err(error) => {
                return Err(error);
            },
        }
        let body = match self.block() {
            Ok(body) => body,
            Err(error) => {
                return Err(error);
            },
        };
        let function = FuncStmt { name, params, body };
        proof {
            lemma_function_model(function);
        }
        Ok(Stmt::Function(function))
    }

    /// The parameters of a function, of which there is at least one.
    fn parameters(&mut self) -> (result: Result<Vec<Token>, LoxError>)
        requires
            old(self).well_formed(),
        ensures
            final(self).went(
                old(self),
                given_tokens(result),
                parameters(old(self).models(), old(self).position(), Seq::empty()),
            ),
    {
        let ghost tokens = self.models();
        let mut params: Vec<Token> = Vec::new();
        assert(token_models(params@) =~= Seq::empty());
        loop
            invariant_except_break
                parameters(tokens, self.position(), token_models(params@)) == parameters(
                    tokens,
                    old(self).position(),
                    Seq::empty(),
                ),
            invariant
                self.well_formed(),
                self.models() == tokens,
                tokens == old(self).models(),
                old(self).position() <= self.position(),
            ensures
                old(self).position() < self.position(),
                parameters(tokens, old(self).position(), Seq::empty()) == Parsed::Tree(
                    token_models(params@),
                    self.position(),
                ),
            decreases self.tokens@.len() - self.current,
        {
            if params.len() >= MAX_ARITY {
                return Err(self.format_error(self.peek(), "Cannot have more than 255 parameters."));
            }
            let ghost given = token_models(params@);
            match self.consume(&TokenType::Identifier, "Expected parameter name.") {
                Ok(param) => {
                    params.push(param);
                    assert(token_models(params@) =~= given.push(param@));
                },
                Err(error) => {
                    return Err(error);
                },
            }
            if !self.match_type(TokenType::Comma) {
                break ;
            }
        }
        Ok(params)
    }

    fn var_declaration(&mut self) -> (result: Result<Stmt, LoxError>)
        requires
            old(self).well_formed(),
        ensures
            final(self).went(
                old(self),
                given_stmt(result),
                var_declaration(old(self).models(), old(self).position()),
            ),
    {
        let name = match self.consume(&TokenType::Identifier, "Expected variable name") {
            Ok(name) => name,
            Err(error) => {
                return Err(error);
            },
        };
        let initializer = if self.match_type(TokenType::Equal) {
            match self.expression() {
                Ok(initializer) => Some(initializer),
                Err(error) => {
                    return Err(error);
                },
            }
        } else {
            None
        };
        match self.consume(&TokenType::Semicolon, "Expected ';' after variable declaration") {
            Ok(_) => {},
            Err(error) => {
                return Err(error);
            },
        }
        Ok(Stmt::Var(name, initializer))
    }

    fn statement(&mut self) -> (result: Result<Stmt, LoxError>)
        requires
            old(self).well_formed(),
        ensures
            final(self).went(
                old(self),
                given_stmt(result),
                statement(old(self).models(), old(self).position()),
            ),
        decreases old(self).tokens@.len() - old(self).current, 8nat,
    {
        if self.match_type(TokenType::If) {
            return self.if_statement();
        }
        if self.match_type(TokenType::Print) {
            return self.print_statement();
        }
        if self.match_type(TokenType::LeftBrace) {
            return match self.block() {
                Ok(statements) => {
                    proof {
                        lemma_block_model(statements);
                    }
                    Ok(Stmt::Block(statements))
                },
                Err(error) => Err(error),
            };
        }
        if self.match_type(TokenType::While) {
            return self.while_statement();
        }
        if self.match_type(TokenType::For) {
            return self.for_statement();
        }
        if self.match_type(TokenType::Return) {
            return self.return_statement();
        }
        self.expression_statement()
    }

    fn if_statement(&mut self) -> (result: Result<Stmt, LoxError>)
        requires
            old(self).well_formed(),
        ensures
            final(self).went(
                old(self),
                given_stmt(result),
                if_statement(old(self).models(), old(self).position()),
            ),
        decreases old(self).tokens@.len() - old(self).current, 5nat,
    {
        match self.consume(&TokenType::LeftParen, "Expected '(' after 'if'.") {
            Ok(_) => {},
            Err(error) => {
                return Err(error);
            },
        }
        let condition = match self.expression() {
            Ok(condition) => condition,
            Err(error) => {
                return Err(error);
            },
        };
        match self.consume(&TokenType::RightParen, "Expected ')' after if condition.") {
            Ok(_) => {},
            Err(error) => {
                return Err(error);
            },
        }
        let then_branch = match self.statement() {
            Ok(branch) => Box::new(branch),
            Err(error) => {
                return Err(error);
            },
        };
        let else_branch = if self.match_type(TokenType::Else) {
            match self.statement() {
                Ok(branch) => Some(Box::new(branch)),
                Err(error) => {
                    return Err(error);
                },
            }
        } else {
            None
        };
        Ok(Stmt::If(condition, then_branch, else_branch))
    }

    fn print_statement(&mut self) -> (result: Result<Stmt, LoxError>)
        requires
            old(self).well_formed(),
        ensures
            final(self).went(
                old(self),
                given_stmt(result),
                print_statement(old(self).models(), old(self).position()),
            ),
    {
        let value = match self.expression() {
            Ok(value) => value,
            Err(error) => {
                return Err(error);
            },
        };
        match self.consume(&TokenType::Semicolon, "Expected ';' after value.") {
            Ok(_) => {},
            Err(error) => {
                return Err(error);
            },
        }
        Ok(Stmt::Print(value))
    }

    /// The statements of a block, behind its opening brace, and its closing
    /// brace.
    fn block(&mut self) -> (result: Result<Vec<Stmt>, LoxError>)
        requires
            old(self).well_formed(),
            old(self).position() > 0,
        ensures
            final(self).went(
                old(self),
                given_stmts(result),
                block(old(self).models(), old(self).position(), Seq::empty()),
            ),
        decreases old(self).tokens@.len() - old(self).current, 20nat,
    {
        let ghost tokens = self.models();
        let mut statements: Vec<Stmt> = Vec::new();
        assert(stmt_models(statements@) =~= Seq::empty());
        while !self.check(&TokenType::RightBrace)
            invariant
                self.well_formed(),
                self.models() == tokens,
                tokens == old(self).models(),
                old(self).position() <= self.position(),
                block(tokens, self.position(), stmt_models(statements@)) == block(
                    tokens,
                    old(self).position(),
                    Seq::empty(),
                ),
            decreases self.tokens@.len() - self.current,
        {
            let ghost done = stmt_models(statements@);
            match self.declaration() {
                Ok(statement) => {
                    statements.push(statement);
                    assert(stmt_models(statements@) =~= done.push(statement@));
                },
                Err(error) => {
                    return Err(error);
                },
            }
        }
        match self.consume(&TokenType::RightBrace, "Expected '}' after block.") {
            Ok(_) => {},
            Err(error) => {
                return Err(error);
            },
        }
        Ok(statements)
    }

    fn while_statement(&mut self) -> (result: Result<Stmt, LoxError>)
        requires
            old(self).well_formed(),
        ensures
            final(self).went(
                old(self),
                given_stmt(result),
                while_statement(old(self).models(), old(self).position()),
            ),
        decreases old(self).tokens@.len() - old(self).current, 5nat,
    {
        match self.consume(&TokenType::LeftParen, "Expected '(' after 'while'.") {
            Ok(_) => {},
            Err(error) => {
                return Err(error);
            },
        }
        let condition = match self.expression() {
            Ok(condition) => condition,
            Err(error) => {
                return Err(error);
            },
        };
        match self.consume(&TokenType::RightParen, "Expected ')' after while condition.") {
            Ok(_) => {},
            Err(error) => {
                return Err(error);
            },
        }
        match self.statement() {
            Ok(body) => Ok(Stmt::While(condition, Box::new(body))),
            Err(error) => Err(error),
        }
    }

    fn for_statement(&mut self) -> (result: Result<Stmt, LoxError>)
        requires
            old(self).well_formed(),
        ensures
            final(self).went(
                old(self),
                given_stmt(result),
                for_statement(old(self).models(), old(self).position()),
            ),
        decreases old(self).tokens@.len() - old(self).current, 5nat,
    {
        match self.consume(&TokenType::LeftParen, "Expected '(' after 'for'.") {
            Ok(_) => {},
            Err(error) => {
                return Err(error);
            },
        }
        let initializer = match self.for_initializer() {
            Ok(initializer) => initializer,
            Err(error) => {
                return Err(error);
            },
        };
        let condition = match self.for_condition() {
            Ok(condition) => condition,
            Err(error) => {
                return Err(error);
            },
        };
        let increment = match self.for_increment() {
            Ok(increment) => increment,
            Err(error) => {
                return Err(error);
            },
        };
        match self.statement() {
            Ok(body) => Ok(desugar_for(initializer, condition, increment, body)),
            Err(error) => Err(error),
        }
    }

    /// The first clause of a `for` loop, behind the opening parenthesis.
    fn for_initializer(&mut self) -> (result: Result<Option<Stmt>, LoxError>)
        requires
            old(self).well_formed(),
        ensures
            final(self).went(
                old(self),
                given_optional_stmt(result),
                for_initializer(old(self).models(), old(self).position()),
            ),
    {
        if self.match_type(TokenType::Semicolon) {
            return Ok(None);
        }
        let clause = if self.match_type(TokenType::Var) {
            self.var_declaration()
        } else {
            self.expression_statement()
        };
        match clause {
            Ok(initializer) => Ok(Some(initializer)),
            Err(error) => Err(error),
        }
    }

    /// The second clause of a `for` loop and the `;` behind it.
    fn for_condition(&mut self) -> (result: Result<Expr, LoxError>)
        requires
            old(self).well_formed(),
        ensures
            final(self).went(
                old(self),
                given_expr(result),
                for_condition(old(self).models(), old(self).position()),
            ),
    {
        let condition = if self.check(&TokenType::Semicolon) {
            Expr::True
        } else {
            match self.expression() {
                Ok(condition) => condition,
                Err(error) => {
                    return Err(error);
                },
            }
        };
        match self.consume(&TokenType::Semicolon, "Expected ';' after loop condition.") {
            Ok(_) => Ok(condition),
            Err(error) => Err(error),
        }
    }

    /// The third clause of a `for` loop and the closing parenthesis.
    fn for_increment(&mut self) -> (result: Result<Option<Stmt>, LoxError>)
        requires
            old(self).well_formed(),
        ensures
            final(self).went(
                old(self),
                given_optional_stmt(result),
                for_increment(old(self).models(), old(self).position()),
            ),
    {
        let increment = if self.check(&TokenType::RightParen) {
            None
        } else {
            match self.expression() {
                Ok(increment) => Some(Stmt::Expr(increment)),
                Err(error) => {
                    return Err(error);
                },
            }
        };
        match self.consume(&TokenType::RightParen, "Expected ')' after 'for'.") {
            Ok(_) => Ok(increment),
            Err(error) => Err(error),
        }
    }

    fn expression_statement(&mut self) -> (result: Result<Stmt, LoxError>)
        requires
            old(self).well_formed(),
        ensures
            final(self).went(
                old(self),
                given_stmt(result),
                expression_statement(old(self).models(), old(self).position()),
            ),
    {
        let expression = match self.expression() {
            Ok(expression) => expression,
            Err(error) => {
                return Err(error);
            },
        };
        match self.consume(&TokenType::Semicolon, "Expected ';' after expression.") {
            Ok(_) => {},
            Err(error) => {
                return Err(error);
            },
        }
        Ok(Stmt::Expr(expression))
    }

    fn return_statement(&mut self) -> (result: Result<Stmt, LoxError>)
        requires
            old(self).well_formed(),
        ensures
            final(self).went(
                old(self),
                given_stmt(result),
                return_statement(old(self).models(), old(self).position()),
            ),
    {
        let value = if self.check(&TokenType::Semicolon) {
            None
        } else {
            match self.expression() {
                Ok(value) => Some(value),
                Err(error) => {
                    return Err(error);
                },
            }
        };
        match self.consume(&TokenType::Semicolon, "Expected ';' after return value.") {
            Ok(_) => {},
            Err(error) => {
                return Err(error);
            },
        }
        Ok(Stmt::Ret(value))
    }
}

} // verus!
