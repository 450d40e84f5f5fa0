use rlox::lox::{compile, diagnostic};
use rlox::statement::Stmt;
use rlox::expression::Expr;

#[test]
fn a_diagnostic_starts_with_error() {
    assert_eq!(diagnostic("Undefined variable: a"), "Error: Undefined variable: a");
    assert_eq!(diagnostic(""), "Error: ");
}

#[test]
fn a_good_source_compiles_to_its_statements() {
    assert_eq!(compile("print nil;"), Ok(vec![Stmt::Print(Expr::Nil)]));
    assert_eq!(compile(""), Ok(vec![]));
}

#[test]
fn lexical_errors_are_all_reported_and_nothing_is_parsed() {
    assert_eq!(
        compile("print ;\n@ \"open"),
        Err(vec![
            "Error: unexpected character at line 2".to_string(),
            "Error: unterminated string at line 2".to_string(),
        ])
    );
}

#[test]
fn the_first_parse_error_is_reported_alone() {
    assert_eq!(
        compile("print ;\nvar 1;"),
        Err(vec!["Error: Semicolon at line 1. Expected expression.".to_string()])
    );
}

#[test]
fn line_numbers_have_all_their_digits() {
    let source = format!("{}@", "\n".repeat(1203));
    assert_eq!(
        compile(&source),
        Err(vec!["Error: unexpected character at line 1204".to_string()])
    );
}

#[test]
fn texts_are_taken_apart_and_put_together() {
    let chars = rlox::text::to_chars("héllo");
    assert_eq!(chars, vec!['h', 'é', 'l', 'l', 'o']);
    assert_eq!(rlox::text::collect_text(&chars, 1, 4), "éll");
    assert_eq!(rlox::text::collect_text(&chars, 2, 2), "");
    assert_eq!(rlox::text::join("ab", "cd"), "abcd");
    let mut text = String::from("n = ");
    rlox::text::push_decimal(&mut text, 0);
    rlox::text::push_decimal(&mut text, 9);
    rlox::text::push_decimal(&mut text, 10);
    rlox::text::push_decimal(&mut text, usize::MAX);
    assert_eq!(text, format!("n = 0910{}", usize::MAX));
}
