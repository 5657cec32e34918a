use compiler_in_rust_lib::ast::Expr;
use compiler_in_rust_lib::common::BinaryOp;
use compiler_in_rust_lib::env::EnvDefBuilder;
use compiler_in_rust_lib::error::ErrorKind;
use compiler_in_rust_lib::passes::evaluate::{evaluate, EvaluateErrorKind};
use compiler_in_rust_lib::source::{Location, Span};
use compiler_in_rust_lib::value::Value;

fn lit_int32(value: i32) -> Expr {
    Expr::new_literal(Value::Int32(value))
}

fn eval(expr: &Expr) -> Value {
    let env = EnvDefBuilder::new().build();
    let empty = env.create_with_default_values();
    evaluate(expr, &empty).unwrap()
}

fn eval_err(expr: &Expr) -> EvaluateErrorKind {
    let env = EnvDefBuilder::new().build();
    let empty = env.create_with_default_values();
    evaluate(expr, &empty).unwrap_err().kind()
}

#[test]
fn evaluator_test_add() {
    assert_eq!(Value::Int32(2), eval(&Expr::new_binary(BinaryOp::Add, lit_int32(1), lit_int32(1))));
}

#[test]
fn evaluator_test_sub() {
    assert_eq!(Value::Int32(0), eval(&Expr::new_binary(BinaryOp::Sub, lit_int32(1), lit_int32(1))));
}

#[test]
fn evaluator_test_mul() {
    assert_eq!(Value::Int32(10), eval(&Expr::new_binary(BinaryOp::Mul, lit_int32(2), lit_int32(5))));
}

#[test]
fn evaluator_test_div() {
    assert_eq!(Value::Int32(5), eval(&Expr::new_binary(BinaryOp::Div, lit_int32(10), lit_int32(2))));
}

#[test]
fn evaluator_test_mod() {
    assert_eq!(Value::Int32(1), eval(&Expr::new_binary(BinaryOp::Mod, lit_int32(7), lit_int32(3))));
}

#[test]
fn passes_test_add() {
    assert_eq!(Value::Int32(2), eval(&Expr::new_binary(BinaryOp::Add, lit_int32(1), lit_int32(1))));
}

#[test]
fn passes_test_sub() {
    assert_eq!(Value::Int32(0), eval(&Expr::new_binary(BinaryOp::Sub, lit_int32(1), lit_int32(1))));
}

#[test]
fn passes_test_mul() {
    assert_eq!(Value::Int32(10), eval(&Expr::new_binary(BinaryOp::Mul, lit_int32(2), lit_int32(5))));
}

#[test]
fn passes_test_div() {
    assert_eq!(Value::Int32(5), eval(&Expr::new_binary(BinaryOp::Div, lit_int32(10), lit_int32(2))));
}

#[test]
fn passes_test_mod() {
    assert_eq!(Value::Int32(1), eval(&Expr::new_binary(BinaryOp::Mod, lit_int32(7), lit_int32(3))));
}

#[test]
fn evaluate_test_add() {
    assert_eq!(Value::Int32(2), eval(&Expr::new_binary(BinaryOp::Add, lit_int32(1), lit_int32(1))));
}

#[test]
fn evaluate_test_sub() {
    assert_eq!(Value::Int32(0), eval(&Expr::new_binary(BinaryOp::Sub, lit_int32(1), lit_int32(1))));
}

#[test]
fn evaluate_test_mul() {
    assert_eq!(Value::Int32(10), eval(&Expr::new_binary(BinaryOp::Mul, lit_int32(2), lit_int32(5))));
}

#[test]
fn evaluate_test_div() {
    assert_eq!(Value::Int32(5), eval(&Expr::new_binary(BinaryOp::Div, lit_int32(10), lit_int32(2))));
}

#[test]
fn evaluate_test_mod() {
    assert_eq!(Value::Int32(1), eval(&Expr::new_binary(BinaryOp::Mod, lit_int32(7), lit_int32(3))));
}

#[test]
fn evaluate_truncates_division_of_negatives() {
    assert_eq!(Value::Int32(-3), eval(&Expr::new_binary(BinaryOp::Div, lit_int32(-7), lit_int32(2))));
    assert_eq!(Value::Int32(-1), eval(&Expr::new_binary(BinaryOp::Mod, lit_int32(-7), lit_int32(2))));
    assert_eq!(Value::Int32(1), eval(&Expr::new_binary(BinaryOp::Mod, lit_int32(7), lit_int32(-3))));
}

#[test]
fn evaluate_division_by_zero() {
    assert_eq!(EvaluateErrorKind::DivisionByZero, eval_err(&Expr::new_binary(BinaryOp::Div, lit_int32(1), lit_int32(0))));
    assert_eq!(EvaluateErrorKind::DivisionByZero, eval_err(&Expr::new_binary(BinaryOp::Mod, lit_int32(1), lit_int32(0))));
    assert_eq!("Division by zero.", EvaluateErrorKind::DivisionByZero.message());
}

#[test]
fn evaluate_overflow() {
    assert_eq!(EvaluateErrorKind::Overflow, eval_err(&Expr::new_binary(BinaryOp::Add, lit_int32(i32::MAX), lit_int32(1))));
    assert_eq!(EvaluateErrorKind::Overflow, eval_err(&Expr::new_binary(BinaryOp::Sub, lit_int32(i32::MIN), lit_int32(1))));
    assert_eq!(EvaluateErrorKind::Overflow, eval_err(&Expr::new_binary(BinaryOp::Mul, lit_int32(65536), lit_int32(65536))));
    assert_eq!(EvaluateErrorKind::Overflow, eval_err(&Expr::new_binary(BinaryOp::Div, lit_int32(i32::MIN), lit_int32(-1))));
    assert_eq!(EvaluateErrorKind::Overflow, eval_err(&Expr::new_binary(BinaryOp::Mod, lit_int32(i32::MIN), lit_int32(-1))));
    assert_eq!("Arithmetic overflow.", EvaluateErrorKind::Overflow.message());
}

#[test]
fn evaluate_index_out_of_range() {
    let env = EnvDefBuilder::new().with_item("a", Value::Int32(4)).build();
    let values = env.create_with_default_values();
    assert_eq!(Value::Int32(4), evaluate(&Expr::new_variable_index(0), &values).unwrap());
    let err = evaluate(
        &Expr::new_variable_index_with_span(5, Span::new(Location::new(2, 3), Location::new(2, 4))),
        &values,
    )
    .unwrap_err();
    assert_eq!(EvaluateErrorKind::IndexOutOfRange(5), err.kind());
    assert_eq!(Span::new(Location::new(2, 3), Location::new(2, 4)), err.span());
    assert_eq!("Index 5 was out of range.", err.message());
}

#[test]
fn evaluate_left_error_comes_first() {
    let e = Expr::new_binary(
        BinaryOp::Add,
        Expr::new_variable_index(9),
        Expr::new_binary(BinaryOp::Div, lit_int32(1), lit_int32(0)),
    );
    assert_eq!(EvaluateErrorKind::IndexOutOfRange(9), eval_err(&e));
}

#[test]
fn evaluate_tuple_value_of_variable() {
    let env = EnvDefBuilder::new()
        .with_item("t", Value::Tuple(vec![Value::Int32(1), Value::Tuple(vec![])]))
        .build();
    let values = env.create_with_default_values();
    assert_eq!(
        Value::Tuple(vec![Value::Int32(1), Value::Tuple(vec![])]),
        evaluate(&Expr::new_variable_index(0), &values).unwrap()
    );
}
