use rlox::environment::{Environment, GLOBAL};
use rlox::token::{Token, TokenType};
use rlox::value::{LoxValue, Number};

fn name(text: &str) -> Token {
    Token { token_type: TokenType::Identifier, literal: text.to_string(), line: 1 }
}

fn text(value: &str) -> LoxValue<'static> {
    LoxValue::String(value.to_string())
}

fn read(environment: &Environment, scope: usize, variable: &str) -> Result<String, String> {
    match environment.get(scope, &name(variable)) {
        Ok(LoxValue::String(value)) => Ok(value),
        Ok(other) => panic!("unexpected value {:?}", other),
        Err(error) => Err(error.message().clone()),
    }
}

#[test]
fn a_defined_name_reads_back() {
    let mut environment = Environment::new();
    environment.define(GLOBAL, "a", &text("one"));
    assert_eq!(read(&environment, GLOBAL, "a"), Ok("one".to_string()));
    environment.define(GLOBAL, "a", &text("two"));
    assert_eq!(read(&environment, GLOBAL, "a"), Ok("two".to_string()));
}

#[test]
fn an_unbound_name_can_be_neither_read_nor_written() {
    let mut environment = Environment::new();
    let inner = environment.new_enclosed(GLOBAL);
    assert_eq!(read(&environment, inner, "a"), Err("Undefined variable: a".to_string()));
    let written = environment.assign(inner, "a", &text("one"));
    assert_eq!(written.unwrap_err().message(), "Undefined variable 'a'.");
    assert_eq!(read(&environment, inner, "a"), Err("Undefined variable: a".to_string()));
}

#[test]
fn lookups_walk_outward_and_definitions_stay_local() {
    let mut environment = Environment::new();
    assert_eq!(environment.len(), 1);
    let inner = environment.new_enclosed(GLOBAL);
    let innermost = environment.new_enclosed(inner);
    assert_eq!((inner, innermost, environment.len()), (1, 2, 3));
    environment.define(GLOBAL, "a", &text("global"));
    assert_eq!(read(&environment, innermost, "a"), Ok("global".to_string()));
    environment.define(inner, "a", &text("inner"));
    assert_eq!(read(&environment, innermost, "a"), Ok("inner".to_string()));
    assert_eq!(read(&environment, GLOBAL, "a"), Ok("global".to_string()));
    environment.define(innermost, "b", &text("b"));
    assert_eq!(read(&environment, inner, "b"), Err("Undefined variable: b".to_string()));
}

#[test]
fn assignment_writes_to_the_nearest_binding() {
    let mut environment = Environment::new();
    let inner = environment.new_enclosed(GLOBAL);
    let sibling = environment.new_enclosed(GLOBAL);
    environment.define(GLOBAL, "a", &text("global"));
    assert!(environment.assign(inner, "a", &text("changed")).is_ok());
    assert_eq!(read(&environment, sibling, "a"), Ok("changed".to_string()));
    environment.define(inner, "a", &text("inner"));
    assert!(environment.assign(inner, "a", &text("again")).is_ok());
    assert_eq!(read(&environment, inner, "a"), Ok("again".to_string()));
    assert_eq!(read(&environment, GLOBAL, "a"), Ok("changed".to_string()));
}

#[test]
fn numbers_compare_as_doubles() {
    let values = [
        f64::NEG_INFINITY,
        -2.5,
        -1.0,
        -0.0,
        0.0,
        f64::MIN_POSITIVE,
        1.0,
        2.5,
        1e300,
        f64::INFINITY,
        f64::NAN,
    ];
    for left in values {
        for right in values {
            let (a, b) = (Number { bits: left.to_bits() }, Number { bits: right.to_bits() });
            assert_eq!(a.equals(&b), left == right, "{} == {}", left, right);
            assert_eq!(a.less(&b), left < right, "{} < {}", left, right);
            assert_eq!(a.less_or_equal(&b), left <= right, "{} <= {}", left, right);
        }
        let value = Number { bits: left.to_bits() };
        assert_eq!(value.negate().bits, (-left).to_bits());
        assert_eq!(value.nan(), left.is_nan());
    }
}

#[test]
fn truthiness_and_equality_of_values() {
    let one = LoxValue::Number(Number { bits: 1f64.to_bits() });
    let zero = LoxValue::Number(Number { bits: 0f64.to_bits() });
    assert!(!LoxValue::Nil.is_truthy());
    assert!(!LoxValue::Bool(false).is_truthy());
    assert!(LoxValue::Bool(true).is_truthy());
    assert!(zero.is_truthy());
    assert!(text("").is_truthy());
    assert!(LoxValue::Nil.equals(&LoxValue::Nil));
    assert!(one.equals(&one.clone()));
    assert!(!one.equals(&zero));
    assert!(!one.equals(&text("1")));
    assert!(text("a").equals(&text("a")));
    assert!(!LoxValue::Bool(false).equals(&LoxValue::Nil));
    assert_eq!(text("a").to_text(), Some("a".to_string()));
    assert_eq!(LoxValue::Nil.to_text(), Some("nil".to_string()));
    assert_eq!(LoxValue::Bool(false).to_text(), Some("false".to_string()));
    assert_eq!(one.to_text(), None);
}
