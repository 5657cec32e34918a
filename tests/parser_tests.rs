use compiler_in_rust_lib::ast::{Expr, ExprKind};
use compiler_in_rust_lib::common::BinaryOp;
use compiler_in_rust_lib::error::ErrorKind;
use compiler_in_rust_lib::lexer::{Lexer, LexerErrorKind, TokenKind};
use compiler_in_rust_lib::parser::{ParseErrorKind, Parser};
use compiler_in_rust_lib::source::{Location, Span};
use compiler_in_rust_lib::value::Value;

fn parse(src: &str) -> Expr {
    let lexer = Lexer::new(src);
    let mut parser = Parser::new(lexer);
    parser.parse().unwrap()
}

#[test]
pub fn parse_literals() {
    assert_eq!(Expr::new_literal(Value::Int32(1)), parse("1"));
    assert_eq!(Expr::new_literal(Value::Int32(123)), parse("  123  "));
}

#[test]
pub fn parse_literal_binary_add() {
    assert_eq!(
        Expr::new_binary(BinaryOp::Add, Expr::new_literal(Value::Int32(1)), Expr::new_literal(Value::Int32(1))),
        parse("1+1")
    )
}

#[test]
pub fn parse_literal_binary_mul() {
    assert_eq!(
        Expr::new_binary(BinaryOp::Mul, Expr::new_literal(Value::Int32(1)), Expr::new_literal(Value::Int32(1)),),
        parse("1*1")
    )
}

#[test]
pub fn parse_literal_binary_add_mul() {
    assert_eq!(
        Expr::new_binary(
            BinaryOp::Add,
            Expr::new_literal(Value::Int32(1)),
            Expr::new_binary(BinaryOp::Mul, Expr::new_literal(Value::Int32(2)), Expr::new_literal(Value::Int32(3)))
        ),
        parse("1+2*3")
    )
}

#[test]
pub fn parse_identifier() {
    assert_eq!(Expr::new_variable_ref(String::from("abc")), parse("abc"));
}

#[test]
fn parse_left_associative() {
    assert_eq!(
        Expr::new_binary(
            BinaryOp::Sub,
            Expr::new_binary(BinaryOp::Sub, Expr::new_literal(Value::Int32(10)), Expr::new_literal(Value::Int32(2))),
            Expr::new_literal(Value::Int32(3))
        ),
        parse("10-2-3")
    )
}

#[test]
fn parse_binary_span_joins_operands() {
    let e = parse("12 + 34");
    assert_eq!(Span::new(Location::new(1, 1), Location::new(1, 7)), e.span);
    match e.kind {
        ExprKind::Binary { op, left, right } => {
            assert_eq!(BinaryOp::Add, op);
            assert_eq!(Span::new(Location::new(1, 1), Location::new(1, 2)), left.span);
            assert_eq!(Span::new(Location::new(1, 6), Location::new(1, 7)), right.span);
            assert_eq!(left.span.start, e.span.start);
            assert_eq!(right.span.end, e.span.end);
        }
        other => panic!("expected a binary node, got {:?}", other),
    }
}

#[test]
fn equality_ignores_spans() {
    let a = parse("1 + x * 2");
    let b = parse("    1 + x * 2");
    assert_ne!(a.span, b.span);
    assert_eq!(a, b);
    assert_ne!(parse("1 + x * 2"), parse("1 + y * 2"));
    assert_ne!(parse("1 + 2"), parse("1 - 2"));
    assert_eq!(
        Expr::new_literal_with_span(Value::Int32(5), Span::new(Location::new(3, 4), Location::new(3, 4))),
        Expr::new_literal(Value::Int32(5))
    );
    assert_ne!(Expr::new_variable_index(0), Expr::new_variable_index(1));
}

#[test]
fn parse_stops_after_one_expression() {
    assert_eq!(Expr::new_literal(Value::Int32(7)), parse("7 % 3"));
    assert_eq!(Expr::new_literal(Value::Int32(1)), parse("1 2 3"));
}

fn parse_error(src: &str) -> (ParseErrorKind, Span, String) {
    let mut parser = Parser::new(Lexer::new(src));
    let e = parser.parse().unwrap_err();
    (e.kind(), e.span(), e.message())
}

#[test]
fn parse_errors() {
    let (k, s, m) = parse_error("");
    assert_eq!(ParseErrorKind::UnexpectedEndOfInput, k);
    assert_eq!(Span::new(Location::new(1, 0), Location::new(1, 0)), s);
    assert_eq!("Unexpected end of input", m);

    let (k, s, _) = parse_error("1 +");
    assert_eq!(ParseErrorKind::UnexpectedEndOfInput, k);
    assert_eq!(Span::new(Location::new(1, 3), Location::new(1, 3)), s);

    let (k, s, m) = parse_error("* 2");
    assert_eq!(ParseErrorKind::InvalidPrefixExpressionTerm(TokenKind::BinaryOperator(BinaryOp::Mul)), k);
    assert_eq!(Span::new(Location::new(1, 1), Location::new(1, 1)), s);
    assert_eq!("Invalid prefix expression term: operator *", m);

    let (k, _, m) = parse_error("1 + #");
    assert_eq!(ParseErrorKind::LexerError(LexerErrorKind::InvalidCharacter('#')), k);
    assert_eq!("Invalid character: '#'", m);

    assert_eq!(
        "Expected binary operator but found: literal integer 3",
        ParseErrorKind::ExpectedBinaryOperator(TokenKind::LiteralInt32(3)).message()
    );
}
