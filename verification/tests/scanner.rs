use rlox::scanner::{Scanner, ScannerError, ScannerErrorType};
use rlox::token::{Token, TokenType};

fn kinds(tokens: &[Token]) -> Vec<TokenType> {
    tokens.iter().map(|token| token.token_type).collect()
}

#[test]
fn scans_punctuation_and_operators() {
    let tokens = Scanner::scan("(){},.-+;*/ ! != = == < <= > >=").unwrap();
    assert_eq!(
        kinds(&tokens),
        vec![
            TokenType::LeftParen,
            TokenType::RightParen,
            TokenType::LeftBrace,
            TokenType::RightBrace,
            TokenType::Comma,
            TokenType::Dot,
            TokenType::Minus,
            TokenType::Plus,
            TokenType::Semicolon,
            TokenType::Star,
            TokenType::Slash,
            TokenType::Bang,
            TokenType::BangEqual,
            TokenType::Equal,
            TokenType::EqualEqual,
            TokenType::Less,
            TokenType::LessEqual,
            TokenType::Greater,
            TokenType::GreaterEqual,
            TokenType::EOF,
        ]
    );
}

#[test]
fn string_token_carries_its_contents() {
    let tokens = Scanner::scan("\"abc\"").unwrap();
    assert_eq!(tokens.len(), 2);
    assert_eq!(tokens[0].token_type, TokenType::String);
    assert_eq!(tokens[0].literal, "abc");
    assert_eq!(tokens[0].line, 1);
    assert_eq!(tokens[1].token_type, TokenType::EOF);
}

#[test]
fn unterminated_string_is_an_error_on_the_last_line() {
    let errors = Scanner::scan("\"abc\ndef").unwrap_err();
    assert_eq!(
        errors,
        vec![ScannerError { line: 2, error_type: ScannerErrorType::UnterminatedString }]
    );
    assert_eq!(errors[0].message(), "unterminated string at line 2");
}

fn literals(tokens: &[Token]) -> Vec<(TokenType, String, usize)> {
    tokens.iter().map(|token| (token.token_type, token.literal.clone(), token.line)).collect()
}

fn item(token_type: TokenType, literal: &str, line: usize) -> (TokenType, String, usize) {
    (token_type, literal.to_string(), line)
}

#[test]
fn an_empty_source_is_the_end_of_input() {
    assert_eq!(literals(&Scanner::scan("").unwrap()), vec![item(TokenType::EOF, "", 1)]);
}

#[test]
fn keywords_and_identifiers() {
    let tokens = Scanner::scan(
        "and class else false for fun if nil or print return super this true var while \
         andy _x x1 Fun",
    )
    .unwrap();
    assert_eq!(
        kinds(&tokens),
        vec![
            TokenType::And,
            TokenType::Class,
            TokenType::Else,
            TokenType::False,
            TokenType::For,
            TokenType::Fun,
            TokenType::If,
            TokenType::Nil,
            TokenType::Or,
            TokenType::Print,
            TokenType::Return,
            TokenType::Super,
            TokenType::This,
            TokenType::True,
            TokenType::Var,
            TokenType::While,
            TokenType::Identifier,
            TokenType::Identifier,
            TokenType::Identifier,
            TokenType::Identifier,
            TokenType::EOF,
        ]
    );
    assert_eq!(tokens[16].literal, "andy");
    assert_eq!(tokens[17].literal, "_x");
    assert_eq!(tokens[18].literal, "x1");
    assert_eq!(tokens[19].literal, "Fun");
}

#[test]
fn an_underscore_ends_an_identifier() {
    assert_eq!(
        literals(&Scanner::scan("a_b").unwrap()),
        vec![
            item(TokenType::Identifier, "a", 1),
            item(TokenType::Identifier, "_b", 1),
            item(TokenType::EOF, "", 1),
        ]
    );
}

#[test]
fn numbers_keep_their_digits() {
    assert_eq!(
        literals(&Scanner::scan("12 3.25 4. .5 6.x").unwrap()),
        vec![
            item(TokenType::Number, "12", 1),
            item(TokenType::Number, "3.25", 1),
            item(TokenType::Number, "4", 1),
            item(TokenType::Dot, "", 1),
            item(TokenType::Dot, "", 1),
            item(TokenType::Number, "5", 1),
            item(TokenType::Number, "6", 1),
            item(TokenType::Dot, "", 1),
            item(TokenType::Identifier, "x", 1),
            item(TokenType::EOF, "", 1),
        ]
    );
}

#[test]
fn lines_are_counted_from_one() {
    assert_eq!(
        literals(&Scanner::scan("a\nb // c\n\n\"d\ne\" f").unwrap()),
        vec![
            item(TokenType::Identifier, "a", 1),
            item(TokenType::Identifier, "b", 2),
            item(TokenType::String, "d\ne", 5),
            item(TokenType::Identifier, "f", 5),
            item(TokenType::EOF, "", 5),
        ]
    );
}

#[test]
fn comments_run_to_the_end_of_the_line() {
    assert_eq!(
        literals(&Scanner::scan("1 / 2 // 3 / 4\n5 //").unwrap()),
        vec![
            item(TokenType::Number, "1", 1),
            item(TokenType::Slash, "", 1),
            item(TokenType::Number, "2", 1),
            item(TokenType::Number, "5", 2),
            item(TokenType::EOF, "", 2),
        ]
    );
}

#[test]
fn all_errors_are_reported_in_order() {
    let errors = Scanner::scan("a @ b\n# \"c").unwrap_err();
    assert_eq!(
        errors,
        vec![
            ScannerError { line: 1, error_type: ScannerErrorType::UnexpectedCharacter },
            ScannerError { line: 2, error_type: ScannerErrorType::UnexpectedCharacter },
            ScannerError { line: 2, error_type: ScannerErrorType::UnterminatedString },
        ]
    );
    assert_eq!(errors[0].message(), "unexpected character at line 1");
}

#[test]
fn strings_hold_any_characters() {
    let tokens = Scanner::scan("\"héllo wörld // no comment\"").unwrap();
    assert_eq!(tokens[0].literal, "héllo wörld // no comment");
    assert_eq!(tokens[0].describe(), "String(\"héllo wörld // no comment\")");
}

#[test]
fn blanks_between_tokens_change_nothing() {
    let dense = literals(&Scanner::scan("var a=1;print(a<=2);").unwrap());
    let loose = literals(&Scanner::scan(" var\ta =\r1 ; print ( a <= 2 ) ; ").unwrap());
    assert_eq!(dense, loose);
}
