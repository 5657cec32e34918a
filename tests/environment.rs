use compiler_in_rust_lib::ast::Expr;
use compiler_in_rust_lib::common::BinaryOp;
use compiler_in_rust_lib::env::{EnvDefBuilder, EnvField};
use compiler_in_rust_lib::error::ErrorKind;
use compiler_in_rust_lib::passes::resolve_variables::resolve_variables;
use compiler_in_rust_lib::passes::PassErrorKind;
use compiler_in_rust_lib::source::{Location, Span};
use compiler_in_rust_lib::value::Value;

#[test]
fn env_def_bulider_test() {
    let builder = EnvDefBuilder::new();
    let env_def = builder.with_item("foo", Value::Int32(100)).with_item("bar", Value::Int32(200)).build();

    assert_eq!(
        Some(&EnvField { name: String::from("foo"), default_value: Value::Int32(100), ordinal: 0 }),
        env_def.find("foo")
    );
    assert_eq!(
        Some(&EnvField { name: String::from("bar"), default_value: Value::Int32(200), ordinal: 1 }),
        env_def.find("bar")
    );
}

#[test]
fn env_def_find_missing() {
    let env_def = EnvDefBuilder::new().with_item("foo", Value::Int32(1)).build();
    assert!(env_def.find("fo").is_none());
    assert!(env_def.find("fooo").is_none());
    assert!(EnvDefBuilder::new().build().find("foo").is_none());
}

#[test]
fn env_def_duplicate_name_keeps_ordinal() {
    let env_def = EnvDefBuilder::new()
        .with_item("a", Value::Int32(1))
        .with_item("b", Value::Int32(2))
        .with_item("a", Value::Int32(3))
        .build();
    assert_eq!(Some(&EnvField { name: String::from("a"), default_value: Value::Int32(3), ordinal: 0 }), env_def.find("a"));
    assert_eq!(Some(&EnvField { name: String::from("b"), default_value: Value::Int32(2), ordinal: 1 }), env_def.find("b"));
    let env = env_def.create_with_default_values();
    assert_eq!(Some(&Value::Int32(3)), env.get_by_index(0));
    assert_eq!(Some(&Value::Int32(2)), env.get_by_index(1));
    assert_eq!(None, env.get_by_index(2));
}

#[test]
fn env_lookup_by_name() {
    let env_def = EnvDefBuilder::new().with_item("x", Value::Int32(7)).with_item("y", Value::Int32(8)).build();
    let env = env_def.create_with_default_values();
    assert_eq!(Some(&Value::Int32(8)), env.get_by_name("y"));
    assert_eq!(Some(&Value::Int32(7)), env.get_by_name("x"));
    assert_eq!(None, env.get_by_name("z"));
}

#[test]
fn resolve_replaces_names_by_ordinals() {
    let env_def = EnvDefBuilder::new().with_item("foo", Value::Int32(100)).with_item("bar", Value::Int32(200)).build();
    let e = Expr::new_binary(BinaryOp::Add, Expr::new_variable_ref(String::from("bar")), Expr::new_literal(Value::Int32(1)));
    let r = resolve_variables(e, &env_def).unwrap();
    assert_eq!(
        Expr::new_binary(BinaryOp::Add, Expr::new_variable_index(1), Expr::new_literal(Value::Int32(1))),
        r
    );
    let again = resolve_variables(r, &env_def).unwrap();
    assert_eq!(
        Expr::new_binary(BinaryOp::Add, Expr::new_variable_index(1), Expr::new_literal(Value::Int32(1))),
        again
    );
}

#[test]
fn resolve_unknown_name_fails_with_first_name() {
    let env_def = EnvDefBuilder::new().with_item("foo", Value::Int32(100)).build();
    let span = Span::new(Location::new(1, 1), Location::new(1, 3));
    let e = Expr::new_binary(
        BinaryOp::Mul,
        Expr::new_variable_ref_with_span(String::from("baz"), span),
        Expr::new_variable_ref(String::from("qux")),
    );
    let err = resolve_variables(e, &env_def).unwrap_err();
    assert_eq!(PassErrorKind::VariableDoesNotExist { variable_name: String::from("baz") }, err.kind());
    assert_eq!(span, err.span());
    assert_eq!("Variable 'baz' does not exist", err.message());
}
