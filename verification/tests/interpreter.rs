use rlox::interpreter::{Interpreter, Request};
use rlox::parser::Parser;
use rlox::scanner::Scanner;
use rlox::semantics::ArithmeticOp;
use rlox::environment::GLOBAL;
use rlox::expression::Expr;
use rlox::value::LoxValue;
use rlox::statement::Stmt;
use rlox::token::{Token, TokenType};
use rlox::value::Number;

fn number(value: f64) -> Number {
    Number { bits: value.to_bits() }
}

fn float(number: Number) -> f64 {
    f64::from_bits(number.bits)
}

/// Steps the interpreter to the end of its program, doing what it asks.
fn drive(interpreter: &mut Interpreter) -> Result<Vec<String>, String> {
    let mut output = Vec::new();
    let mut reply = None;
    loop {
        match interpreter.step(reply.take()) {
            Request::Continue => {}
            Request::Finished => return Ok(output),
            Request::Print(text) => output.push(text),
            Request::PrintNumber(value) => output.push(format!("{}", float(value))),
            Request::ParseNumber(digits) => reply = digits.parse().ok().map(number),
            Request::Arithmetic(operation, left, right) => {
                let (left, right) = (float(left), float(right));
                reply = Some(number(match operation {
                    ArithmeticOp::Add => left + right,
                    ArithmeticOp::Subtract => left - right,
                    ArithmeticOp::Multiply => left * right,
                    ArithmeticOp::Divide => left / right,
                }));
            }
            Request::Clock => reply = Some(number(12345.0)),
            Request::Failed(error) => return Err(error.message().clone()),
        }
    }
}

fn run(source: &str) -> Result<Vec<String>, String> {
    let tokens = Scanner::scan(source).map_err(|errors| errors[0].message())?;
    let statements = Parser::parse(&tokens).map_err(|errors| errors[0].message().clone())?;
    let mut interpreter = Interpreter::new();
    interpreter.interpret(&statements);
    drive(&mut interpreter)
}

fn lines(expected: &[&str]) -> Result<Vec<String>, String> {
    Ok(expected.iter().map(|line| line.to_string()).collect())
}

#[test]
fn arithmetic_follows_precedence() {
    assert_eq!(run("print 1 + 2 * 3;"), lines(&["7"]));
}

#[test]
fn assignment_to_a_string_variable() {
    assert_eq!(run("var a = \"hi\"; a = a + \"!\"; print a;"), lines(&["hi!"]));
}

#[test]
fn inner_block_shadows_and_outer_binding_survives() {
    assert_eq!(
        run("{ var x = 1; { var x = 2; print x; } print x; }"),
        lines(&["2", "1"])
    );
}

#[test]
fn while_loop_counts() {
    assert_eq!(
        run("var i = 0; while (i < 3) { print i; i = i + 1; }"),
        lines(&["0", "1", "2"])
    );
}

#[test]
fn closure_keeps_its_scope_alive() {
    assert_eq!(
        run("fun makeCounter() { var n = 0; fun c() { n = n + 1; print n; } return c; } \
             var k = makeCounter(); k(); k(); k();"),
        lines(&["1", "2", "3"])
    );
}

#[test]
fn logical_operators_give_back_an_operand() {
    assert_eq!(
        run("print nil or \"a\"; print false and \"b\"; print true and \"c\";"),
        lines(&["a", "false", "c"])
    );
}

#[test]
fn logical_operators_skip_the_right_operand() {
    assert_eq!(
        run("var a = 1; true or (a = 2); false and (a = 3); print a;"),
        lines(&["1"])
    );
    assert_eq!(
        run("var a = 1; false or (a = 2); print a; true and (a = 3); print a;"),
        lines(&["2", "3"])
    );
}

#[test]
fn grouping_is_transparent() {
    assert_eq!(run("print (1 + 2) * 3; print ((\"x\"));"), lines(&["9", "x"]));
}

#[test]
fn printed_text_is_the_display_of_the_value() {
    assert_eq!(
        run("var a = 2.5; print a; var b = \"s\"; print b; var c = nil; print c; \
             var d = true; print d; var e; print e;"),
        lines(&["2.5", "s", "nil", "true", "nil"])
    );
    assert_eq!(
        run("fun f(a, b) {} print f; print clock;"),
        lines(&["Function : 2", "Native function"])
    );
}

#[test]
fn division_by_zero_follows_ieee() {
    assert_eq!(
        run("print 1 / 0; print -1 / 0; print 0 / 0 == 0 / 0;"),
        lines(&["inf", "-inf", "false"])
    );
}

#[test]
fn string_concatenation() {
    assert_eq!(run("print \"a\" + \"b\";"), lines(&["ab"]));
    assert_eq!(
        run("print \"a\" + 1;"),
        Err("Error in line: 1, operands must both be numbers or strings.".to_string())
    );
}

#[test]
fn operators_on_wrong_operands_fail() {
    assert_eq!(
        run("\n print 1 - \"a\";"),
        Err("Error in line: 2, operands must both be numbers.".to_string())
    );
    assert_eq!(run("print -\"a\";"), Err("Error: operand must be a number.".to_string()));
}

#[test]
fn comparison_and_equality() {
    assert_eq!(
        run("print 1 < 2; print 2 <= 2; print 1 > 2; print 2 >= 3; print 1 == 1; \
             print 1 != 1; print nil == nil; print \"a\" == \"a\"; print 1 == \"1\"; \
             print -0 == 0; print -1 < 0; print -2 < -1;"),
        lines(&[
            "true", "true", "false", "false", "true", "false", "true", "true", "false", "true",
            "true", "true"
        ])
    );
}

#[test]
fn callables_are_never_equal() {
    assert_eq!(run("fun f() {} print f == f;"), lines(&["false"]));
}

#[test]
fn undefined_variables_fail() {
    assert_eq!(run("print a;"), Err("Undefined variable: a".to_string()));
    assert_eq!(run("a = 1;"), Err("Undefined variable 'a'.".to_string()));
}

#[test]
fn calls_check_callee_and_arity() {
    assert_eq!(run("\"f\"();"), Err("Can only call functions and classes.".to_string()));
    assert_eq!(
        run("fun f(a) {} f(1, 2);"),
        Err("Expected 1 arguments but got 2.".to_string())
    );
}

#[test]
fn function_without_return_gives_nil() {
    assert_eq!(run("fun f() {} print f(); fun g() { return; } print g();"), lines(&["nil", "nil"]));
}

#[test]
fn return_unwinds_nested_statements() {
    assert_eq!(
        run("fun f(n) { while (true) { if (n > 1) { { return n * 2; } } n = n + 1; } } \
             print 1 + f(0);"),
        lines(&["5"])
    );
}

#[test]
fn recursion() {
    assert_eq!(
        run("fun fib(n) { if (n < 2) return n; return fib(n - 1) + fib(n - 2); } print fib(10);"),
        lines(&["55"])
    );
}

#[test]
fn functions_are_lexically_scoped() {
    assert_eq!(
        run("var a = \"global\"; fun show() { print a; } { var a = \"local\"; show(); }"),
        lines(&["global"])
    );
}

#[test]
fn return_at_top_level_fails() {
    assert_eq!(run("return 1;"), Err("return from top level".to_string()));
}

#[test]
fn for_loop_runs_like_its_while_loop() {
    assert_eq!(
        run("for (var i = 0; i < 3; i = i + 1) print i;"),
        lines(&["0", "1", "2"])
    );
}

#[test]
fn clock_is_asked_of_the_host() {
    assert_eq!(run("print clock();"), lines(&["12345"]));
}

#[test]
fn arguments_are_evaluated_left_to_right() {
    assert_eq!(
        run("fun show(a, b) { print a; print b; } fun one() { print \"one\"; return 1; } \
             fun two() { print \"two\"; return 2; } show(one(), two());"),
        lines(&["one", "two", "1", "2"])
    );
}

#[test]
fn bindings_survive_between_programs_and_after_a_failure() {
    let first = Parser::parse(&Scanner::scan("var a = 1; { var b = 2; print c; }").unwrap()).unwrap();
    let second = Parser::parse(&Scanner::scan("print a;").unwrap()).unwrap();
    let mut interpreter = Interpreter::new();
    interpreter.interpret(&first);
    assert_eq!(drive(&mut interpreter), Err("Undefined variable: c".to_string()));
    interpreter.interpret(&second);
    assert_eq!(drive(&mut interpreter), lines(&["1"]));
}

#[test]
fn a_missing_reply_fails() {
    let statements = Parser::parse(&Scanner::scan("print 1;").unwrap()).unwrap();
    let mut interpreter = Interpreter::new();
    interpreter.interpret(&statements);
    loop {
        match interpreter.step(None) {
            Request::Continue => {}
            Request::ParseNumber(digits) => {
                assert_eq!(digits, "1");
                break;
            }
            other => panic!("unexpected request {:?}", other),
        }
    }
    match interpreter.step(None) {
        Request::Failed(error) => assert_eq!(error.message(), "The host gave no number."),
        other => panic!("unexpected request {:?}", other),
    }
    assert!(matches!(interpreter.step(None), Request::Finished));
}

fn run_tree(statements: Vec<Stmt>) -> Result<Vec<String>, String> {
    let mut interpreter = Interpreter::new();
    interpreter.interpret(&statements);
    drive(&mut interpreter)
}

fn token(token_type: TokenType, literal: &str) -> Token {
    Token { token_type, literal: literal.to_string(), line: 1 }
}

#[test]
fn trees_that_no_parser_builds_fail() {
    let bug = Err("Interpreter bug: unexpected syntax tree.".to_string());
    let one = || Box::new(Expr::Nil);
    assert_eq!(run_tree(vec![Stmt::Var(token(TokenType::Plus, ""), None)]), bug);
    assert_eq!(
        run_tree(vec![Stmt::Expr(Expr::Unary(token(TokenType::Plus, ""), one()))]),
        bug
    );
    assert_eq!(
        run_tree(vec![Stmt::Expr(Expr::Logical(one(), token(TokenType::Plus, ""), one()))]),
        bug
    );
    assert_eq!(
        run_tree(vec![Stmt::Expr(Expr::Binary(one(), token(TokenType::And, ""), one()))]),
        bug
    );
    assert_eq!(run_tree(vec![Stmt::Expr(Expr::Variable(token(TokenType::Nil, "")))]), bug);
    assert_eq!(
        run_tree(vec![Stmt::Expr(Expr::Assignment(token(TokenType::Nil, ""), one()))]),
        bug
    );
}

#[test]
fn digits_that_are_no_number_fail() {
    assert_eq!(
        run_tree(vec![Stmt::Print(Expr::Number("1.2.3".to_string()))]),
        Err("The host gave no number.".to_string())
    );
}

#[test]
fn parameters_are_bound_to_the_arguments_in_order() {
    assert_eq!(
        run("fun f(a, b, a) { print a; print b; } f(1, 2, 3);"),
        lines(&["3", "2"])
    );
}

#[test]
fn a_block_ends_its_scope_on_every_way_out() {
    assert_eq!(
        run("var a = \"outer\"; fun f() { { var a = \"inner\"; return a; } } print f(); print a;"),
        lines(&["inner", "outer"])
    );
}

#[test]
fn a_callee_is_checked_before_its_arguments_are_evaluated() {
    let first = Parser::parse(
        &Scanner::scan("var a = 1; fun g() { a = 2; } \"f\"(g());").unwrap(),
    )
    .unwrap();
    let second = Parser::parse(&Scanner::scan("print a;").unwrap()).unwrap();
    let mut interpreter = Interpreter::new();
    interpreter.interpret(&first);
    assert_eq!(
        drive(&mut interpreter),
        Err("Can only call functions and classes.".to_string())
    );
    interpreter.interpret(&second);
    assert_eq!(drive(&mut interpreter), lines(&["1"]));
}

#[test]
fn arity_is_checked_after_the_arguments_are_evaluated() {
    let first = Parser::parse(
        &Scanner::scan("var a = 1; fun g() { a = 2; } fun f() {} f(g());").unwrap(),
    )
    .unwrap();
    let second = Parser::parse(&Scanner::scan("print a;").unwrap()).unwrap();
    let mut interpreter = Interpreter::new();
    interpreter.interpret(&first);
    assert_eq!(drive(&mut interpreter), Err("Expected 0 arguments but got 1.".to_string()));
    interpreter.interpret(&second);
    assert_eq!(drive(&mut interpreter), lines(&["2"]));
}

#[test]
fn scopes_outlive_their_blocks_and_calls() {
    let statements = Parser::parse(
        &Scanner::scan("var a = \"x\"; { var b = a; } fun f(c) { return c; } f(a);").unwrap(),
    )
    .unwrap();
    let mut interpreter = Interpreter::new();
    assert_eq!(interpreter.environment().len(), 1);
    interpreter.interpret(&statements);
    assert_eq!(drive(&mut interpreter), Ok(vec![]));
    assert_eq!(interpreter.current(), GLOBAL);
    let environment = interpreter.environment();
    assert_eq!(environment.len(), 3);
    let read = |scope: usize, name: &str| match environment.get(scope, &token(TokenType::Identifier, name)) {
        Ok(LoxValue::String(text)) => Some(text),
        _ => None,
    };
    assert_eq!(read(1, "b"), Some("x".to_string()));
    assert_eq!(read(2, "c"), Some("x".to_string()));
    assert_eq!(read(2, "a"), Some("x".to_string()));
    assert_eq!(read(GLOBAL, "b"), None);
}
