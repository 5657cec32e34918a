use compiler_in_rust_lib::env::EnvDefBuilder;
use compiler_in_rust_lib::error::ErrorKind;
use compiler_in_rust_lib::lexer::LexerErrorKind;
use compiler_in_rust_lib::parser::ParseErrorKind;
use compiler_in_rust_lib::passes::evaluate::EvaluateErrorKind;
use compiler_in_rust_lib::passes::PassErrorKind;
use compiler_in_rust_lib::source::{Location, Span};
use compiler_in_rust_lib::value::Value;
use compiler_in_rust_lib::{execute, execute_with_globals, parse, ExecuteErrorKind};

#[test]
fn simple_expression_1() {
    assert_eq!(Ok(Value::Int32(2)), execute("1 + 1"))
}

#[test]
fn simple_expression_2() {
    assert_eq!(Ok(Value::Int32(4)), execute("2 * 2"))
}

#[test]
fn simple_expression_3() {
    assert_eq!(Ok(Value::Int32(5)), execute("2 * 2 + 1"))
}

#[test]
fn expression_with_env() {
    let builder = EnvDefBuilder::new();
    let env_def = builder.with_item("foo", Value::Int32(100)).with_item("bar", Value::Int32(200)).build();

    assert_eq!(Ok(Value::Int32(300)), execute_with_globals("foo + bar", &env_def));
}

#[test]
fn execute_integer_literals() {
    assert_eq!(Ok(Value::Int32(0)), execute("0"));
    assert_eq!(Ok(Value::Int32(42)), execute("42"));
    assert_eq!(Ok(Value::Int32(7)), execute("007"));
    assert_eq!(Ok(Value::Int32(2147483647)), execute("2147483647"));
}

#[test]
fn execute_arithmetic() {
    assert_eq!(Ok(Value::Int32(19)), execute("12+7"));
    assert_eq!(Ok(Value::Int32(5)), execute("12-7"));
    assert_eq!(Ok(Value::Int32(84)), execute("12*7"));
    assert_eq!(Ok(Value::Int32(1)), execute("12/7"));
}

#[test]
fn execute_precedence_and_associativity() {
    assert_eq!(Ok(Value::Int32(7)), execute("1+2*3"));
    assert_eq!(Ok(Value::Int32(5)), execute("10-2-3"));
    assert_eq!(Ok(Value::Int32(2)), execute("20/5/2"));
    assert_eq!(Ok(Value::Int32(14)), execute("2*3+4*2"));
}

#[test]
fn execute_modulo_is_not_an_infix_operator() {
    assert_eq!(Ok(Value::Int32(7)), execute("7%3"));
}

#[test]
fn execute_unknown_variable() {
    let env_def = EnvDefBuilder::new().with_item("foo", Value::Int32(100)).with_item("bar", Value::Int32(200)).build();
    let err = execute_with_globals("baz", &env_def).unwrap_err();
    assert_eq!(
        ExecuteErrorKind::Pass(PassErrorKind::VariableDoesNotExist { variable_name: String::from("baz") }),
        err.kind()
    );
    assert_eq!(Span::new(Location::new(1, 1), Location::new(1, 3)), err.span());
    assert_eq!("Variable 'baz' does not exist", err.message());
    let err = execute("foo").unwrap_err();
    assert_eq!(
        ExecuteErrorKind::Pass(PassErrorKind::VariableDoesNotExist { variable_name: String::from("foo") }),
        err.kind()
    );
}

#[test]
fn execute_lexical_error() {
    // The parser stops at the first result that is not a token, so a bad character after a
    // complete expression is left unread.
    assert_eq!(Ok(Value::Int32(1)), execute("1 # 2"));
    let err = execute("# 2").unwrap_err();
    assert_eq!(ExecuteErrorKind::Parse(ParseErrorKind::LexerError(LexerErrorKind::InvalidCharacter('#'))), err.kind());
    assert_eq!(Span::new(Location::new(1, 1), Location::new(1, 1)), err.span());
}

#[test]
fn execute_parse_errors() {
    assert_eq!(ExecuteErrorKind::Parse(ParseErrorKind::UnexpectedEndOfInput), execute("").unwrap_err().kind());
    assert_eq!(ExecuteErrorKind::Parse(ParseErrorKind::UnexpectedEndOfInput), execute("3 -").unwrap_err().kind());
    assert_eq!(
        ExecuteErrorKind::Parse(ParseErrorKind::LexerError(LexerErrorKind::InvalidInteger(String::from("99999999999")))),
        execute("99999999999").unwrap_err().kind()
    );
    assert_eq!("Unexpected end of input", execute("").unwrap_err().message());
}

#[test]
fn execute_evaluation_errors() {
    let err = execute("4 / 0").unwrap_err();
    assert_eq!(ExecuteErrorKind::Evaluate(EvaluateErrorKind::DivisionByZero), err.kind());
    assert_eq!(Span::new(Location::new(1, 1), Location::new(1, 5)), err.span());
    assert_eq!(ExecuteErrorKind::Evaluate(EvaluateErrorKind::Overflow), execute("2147483647 + 1").unwrap_err().kind());
    assert_eq!("Arithmetic overflow.", execute("2147483647 + 1").unwrap_err().message());
}

#[test]
fn execute_with_variables() {
    let env_def = EnvDefBuilder::new().with_item("x", Value::Int32(6)).with_item("y", Value::Int32(4)).build();
    assert_eq!(Ok(Value::Int32(26)), execute_with_globals("x * y + 2", &env_def));
    assert_eq!(Ok(Value::Int32(2)), execute_with_globals("x - y", &env_def));
    let env_def = EnvDefBuilder::new().with_item("t", Value::Tuple(vec![Value::Int32(1)])).build();
    assert_eq!(Ok(Value::Tuple(vec![Value::Int32(1)])), execute_with_globals("t", &env_def));
}

#[test]
fn parse_at_different_offsets_is_equal() {
    assert_eq!(parse("1+2*x").unwrap(), parse("\n\t  1 +  2 * x").unwrap());
}
