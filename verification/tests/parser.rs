use rlox::expression::Expr;
use rlox::parser::Parser;
use rlox::scanner::Scanner;
use rlox::statement::{FuncStmt, Stmt};
use rlox::token::{Token, TokenType};
use rlox::value::LoxError;

fn parse(source: &str) -> Result<Vec<Stmt>, Vec<LoxError>> {
    Parser::parse(&Scanner::scan(source).unwrap())
}

fn parse_error(source: &str) -> String {
    let errors = parse(source).unwrap_err();
    assert_eq!(errors.len(), 1);
    errors[0].message().clone()
}

fn token(token_type: TokenType, literal: &str, line: usize) -> Token {
    Token { token_type, literal: literal.to_string(), line }
}

fn plain(token_type: TokenType) -> Token {
    token(token_type, "", 1)
}

fn number(digits: &str) -> Box<Expr> {
    Box::new(Expr::Number(digits.to_string()))
}

fn variable(name: &str) -> Expr {
    Expr::Variable(token(TokenType::Identifier, name, 1))
}

#[test]
fn multiplication_binds_tighter_than_addition() {
    assert_eq!(
        parse("1 + 2 * 3;").unwrap(),
        vec![Stmt::Expr(Expr::Binary(
            number("1"),
            plain(TokenType::Plus),
            Box::new(Expr::Binary(number("2"), plain(TokenType::Star), number("3"))),
        ))]
    );
}

#[test]
fn binary_operators_are_left_associative() {
    assert_eq!(
        parse("1 - 2 - 3;").unwrap(),
        vec![Stmt::Expr(Expr::Binary(
            Box::new(Expr::Binary(number("1"), plain(TokenType::Minus), number("2"))),
            plain(TokenType::Minus),
            number("3"),
        ))]
    );
    assert_eq!(
        parse("a or b or c;").unwrap(),
        vec![Stmt::Expr(Expr::Logical(
            Box::new(Expr::Logical(
                Box::new(variable("a")),
                plain(TokenType::Or),
                Box::new(variable("b")),
            )),
            plain(TokenType::Or),
            Box::new(variable("c")),
        ))]
    );
}

#[test]
fn and_binds_tighter_than_or() {
    assert_eq!(
        parse("a or b and c;").unwrap(),
        vec![Stmt::Expr(Expr::Logical(
            Box::new(variable("a")),
            plain(TokenType::Or),
            Box::new(Expr::Logical(
                Box::new(variable("b")),
                plain(TokenType::And),
                Box::new(variable("c")),
            )),
        ))]
    );
}

#[test]
fn assignment_is_right_associative() {
    assert_eq!(
        parse("a = b = c;").unwrap(),
        vec![Stmt::Expr(Expr::Assignment(
            token(TokenType::Identifier, "a", 1),
            Box::new(Expr::Assignment(
                token(TokenType::Identifier, "b", 1),
                Box::new(variable("c")),
            )),
        ))]
    );
}

#[test]
fn assignment_target_must_be_a_variable() {
    assert_eq!(parse_error("1 = 2;"), "Equal at line 1. Invalid assignment target.");
    assert_eq!(parse_error("(a) = 2;"), "Equal at line 1. Invalid assignment target.");
}

#[test]
fn unary_and_grouping() {
    assert_eq!(
        parse("!-(nil);").unwrap(),
        vec![Stmt::Expr(Expr::Unary(
            plain(TokenType::Bang),
            Box::new(Expr::Unary(
                plain(TokenType::Minus),
                Box::new(Expr::Grouping(Box::new(Expr::Nil))),
            )),
        ))]
    );
}

#[test]
fn calls_chain_and_carry_their_closing_parenthesis() {
    assert_eq!(
        parse("f(1)(\"s\", true);").unwrap(),
        vec![Stmt::Expr(Expr::Call(
            Box::new(Expr::Call(
                Box::new(variable("f")),
                plain(TokenType::RightParen),
                vec![Expr::Number("1".to_string())],
            )),
            plain(TokenType::RightParen),
            vec![Expr::String("s".to_string()), Expr::True],
        ))]
    );
}

fn call_with_arguments(count: usize) -> String {
    let arguments: Vec<&str> = std::iter::repeat("1").take(count).collect();
    format!("f({});", arguments.join(", "))
}

#[test]
fn a_call_takes_255_arguments_and_no_more() {
    match &parse(&call_with_arguments(255)).unwrap()[0] {
        Stmt::Expr(Expr::Call(_, _, arguments)) => assert_eq!(arguments.len(), 255),
        other => panic!("unexpected statement {:?}", other),
    }
    assert_eq!(
        parse_error(&call_with_arguments(256)),
        "Number(1) at line 1. Cannot have more than 255 arguments"
    );
}

fn function_with_parameters(count: usize) -> String {
    let parameters: Vec<String> = (0..count).map(|i| format!("p{}", i)).collect();
    format!("fun f({}) {{}}", parameters.join(", "))
}

#[test]
fn a_function_takes_255_parameters_and_no_more() {
    match &parse(&function_with_parameters(255)).unwrap()[0] {
        Stmt::Function(FuncStmt { params, .. }) => assert_eq!(params.len(), 255),
        other => panic!("unexpected statement {:?}", other),
    }
    assert_eq!(
        parse_error(&function_with_parameters(256)),
        "Identifier(\"p255\") at line 1. Cannot have more than 255 parameters."
    );
}

#[test]
fn for_without_clauses_is_an_endless_loop() {
    assert_eq!(
        parse("for (;;) print 1;").unwrap(),
        vec![Stmt::Block(vec![Stmt::While(
            Expr::True,
            Box::new(Stmt::Print(Expr::Number("1".to_string()))),
        )])]
    );
}

#[test]
fn for_is_a_block_around_a_while_loop() {
    let i = || token(TokenType::Identifier, "i", 1);
    assert_eq!(
        parse("for (var i = 0; i < 3; i = i + 1) print i;").unwrap(),
        vec![Stmt::Block(vec![
            Stmt::Var(i(), Some(Expr::Number("0".to_string()))),
            Stmt::While(
                Expr::Binary(Box::new(Expr::Variable(i())), plain(TokenType::Less), number("3")),
                Box::new(Stmt::Block(vec![
                    Stmt::Print(Expr::Variable(i())),
                    Stmt::Expr(Expr::Assignment(
                        i(),
                        Box::new(Expr::Binary(
                            Box::new(Expr::Variable(i())),
                            plain(TokenType::Plus),
                            number("1"),
                        )),
                    )),
                ])),
            ),
        ])]
    );
    assert_eq!(
        parse("for (i = 0;;) {}").unwrap(),
        vec![Stmt::Block(vec![
            Stmt::Expr(Expr::Assignment(i(), number("0"))),
            Stmt::While(Expr::True, Box::new(Stmt::Block(vec![]))),
        ])]
    );
}

#[test]
fn declarations_and_statements() {
    let name = |text: &str| token(TokenType::Identifier, text, 1);
    assert_eq!(
        parse("var a; var b = 1; { a; } if (a) b; else a; while (a) b; return; return a;")
            .unwrap(),
        vec![
            Stmt::Var(name("a"), None),
            Stmt::Var(name("b"), Some(Expr::Number("1".to_string()))),
            Stmt::Block(vec![Stmt::Expr(variable("a"))]),
            Stmt::If(
                variable("a"),
                Box::new(Stmt::Expr(variable("b"))),
                Some(Box::new(Stmt::Expr(variable("a")))),
            ),
            Stmt::While(variable("a"), Box::new(Stmt::Expr(variable("b")))),
            Stmt::Ret(None),
            Stmt::Ret(Some(variable("a"))),
        ]
    );
    assert_eq!(
        parse("fun f(a, b) { print a; }").unwrap(),
        vec![Stmt::Function(FuncStmt {
            name: name("f"),
            params: vec![name("a"), name("b")],
            body: vec![Stmt::Print(variable("a"))],
        })]
    );
}

#[test]
fn else_belongs_to_the_nearest_if() {
    assert_eq!(
        parse("if (a) if (b) 1; else 2;").unwrap(),
        vec![Stmt::If(
            variable("a"),
            Box::new(Stmt::If(
                variable("b"),
                Box::new(Stmt::Expr(Expr::Number("1".to_string()))),
                Some(Box::new(Stmt::Expr(Expr::Number("2".to_string())))),
            )),
            None,
        )]
    );
}

#[test]
fn tokens_keep_their_lines() {
    assert_eq!(
        parse("var a;\n\nprint\na;").unwrap(),
        vec![
            Stmt::Var(token(TokenType::Identifier, "a", 1), None),
            Stmt::Print(Expr::Variable(token(TokenType::Identifier, "a", 4))),
        ]
    );
}

#[test]
fn the_first_error_is_the_only_one() {
    assert_eq!(parse_error("print ;\nprint ;"), "Semicolon at line 1. Expected expression.");
}

#[test]
fn errors_name_the_token_and_the_line() {
    assert_eq!(parse_error("print 1"), "Unexpected EOF at line 1. Expected ';' after value. ");
    assert_eq!(parse_error("(1"), "Unexpected EOF at line 1. Expected ')' after expression. ");
    assert_eq!(parse_error("f(1;"), "Semicolon at line 1. Expected ')' after arguments.");
    assert_eq!(parse_error("1 2;"), "Number(2) at line 1. Expected ';' after expression.");
    assert_eq!(parse_error("var 1;"), "Number(1) at line 1. Expected variable name");
    assert_eq!(
        parse_error("var a = 1 \"s\""),
        "String(\"s\") at line 1. Expected ';' after variable declaration"
    );
    assert_eq!(parse_error("\nfun (a) {}"), "LeftParen at line 2. Expected function name");
    assert_eq!(parse_error("fun f a"), "Identifier(\"a\") at line 1. Expected '(' after function name");
    assert_eq!(parse_error("fun f(1) {}"), "Number(1) at line 1. Expected parameter name.");
    assert_eq!(parse_error("fun f(a {}"), "LeftBrace at line 1. Expected ')' after parameters");
    assert_eq!(parse_error("fun f() 1"), "Number(1) at line 1. Expected '{' before function body.");
    assert_eq!(parse_error("if a"), "Identifier(\"a\") at line 1. Expected '(' after 'if'.");
    assert_eq!(parse_error("if (a;"), "Semicolon at line 1. Expected ')' after if condition.");
    assert_eq!(parse_error("while a"), "Identifier(\"a\") at line 1. Expected '(' after 'while'.");
    assert_eq!(parse_error("while (a;"), "Semicolon at line 1. Expected ')' after while condition.");
    assert_eq!(parse_error("for a"), "Identifier(\"a\") at line 1. Expected '(' after 'for'.");
    assert_eq!(parse_error("for (;a)"), "RightParen at line 1. Expected ';' after loop condition.");
    assert_eq!(parse_error("for (;;a;"), "Semicolon at line 1. Expected ')' after 'for'.");
    assert_eq!(parse_error("return 1 }"), "RightBrace at line 1. Expected ';' after return value.");
    assert_eq!(parse_error("{ var a;"), "Unexpected EOF at line 1. Expected expression. ");
}

#[test]
fn whitespace_and_comments_do_not_change_the_tree() {
    let plain = parse("var a=1;print a+2;").unwrap();
    assert_eq!(parse("var  a = 1 ;\tprint a\r + 2 ; // done").unwrap(), plain);
    assert_eq!(parse("// first\nvar a = 1; print a + 2;").is_ok(), true);
}

#[test]
fn an_empty_program_has_no_statements() {
    assert_eq!(parse("").unwrap(), vec![]);
    assert_eq!(parse("  // nothing\n").unwrap(), vec![]);
}
