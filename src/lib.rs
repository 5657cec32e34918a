//! A small expression language: lexing, precedence-climbing parsing, name resolution and
//! evaluation of arithmetic over 32-bit integers and named variables.
pub mod source;
pub mod common;
pub mod text;
pub mod value;
pub mod error;
pub mod input;
pub mod lexer;
pub mod ast;
pub mod parser;
pub mod env;
pub mod passes;

use vstd::prelude::*;
use crate::ast::{span_of, ExprModel};
use crate::common::BinaryOp;
use crate::env::{defaults_of, index_of, EnvDef, EnvDefBuilder, SchemaModel};
use crate::error::{ErrorKind, SourceError};
use crate::input::loc_after;
use crate::lexer::{
    continues_run, digits_value, is_digit_char, is_letter_char, lemma_digits_value_nonneg, lemma_number_at,
    lemma_word_at, operator_of, skip_white, Lexer, TokenKindModel,
};
use crate::parser::{
    lemma_expr_progress, lemma_loop_at_end, parse_error_text, parse_expr_at, parse_infix_at, parse_loop_at,
    parse_model, parse_prefix_at, parse_result_model, precedence_of, ParseErrorKind, ParseErrorModel,
    ParseResult, Parser,
};
use crate::passes::evaluate::{apply_op, eval_model, evaluate, evaluate_error_text, lemma_eval_defined, EvaluateErrorKind};
use crate::passes::resolve_variables::{
    lemma_resolve_keeps_literals, lemma_resolve_leaves_no_names, resolve_model, resolve_variables,
};
use crate::passes::{pass_error_text, PassErrorKind, PassErrorModel};
use crate::source::Span;
use crate::value::{Value, ValueModel};

verus! {

/// The kinds of error of the whole pipeline, by the stage that met them.
#[derive(Debug, PartialEq)]
pub enum ExecuteErrorKind {
    Parse(ParseErrorKind),
    Pass(PassErrorKind),
    Evaluate(EvaluateErrorKind),
}

/// What an `ExecuteErrorKind` stands for.
pub enum ExecuteErrorModel {
    Parse(ParseErrorModel),
    Pass(PassErrorModel),
    Evaluate(EvaluateErrorKind),
}

impl View for ExecuteErrorKind {
    type V = ExecuteErrorModel;

    open spec fn view(&self) -> ExecuteErrorModel {
        match self {
            ExecuteErrorKind::Parse(k) => ExecuteErrorModel::Parse(k@),
            ExecuteErrorKind::Pass(k) => ExecuteErrorModel::Pass(k@),
            ExecuteErrorKind::Evaluate(k) => ExecuteErrorModel::Evaluate(*k),
        }
    }
}

impl ErrorKind for ExecuteErrorKind {
    open spec fn text_of(kind: ExecuteErrorModel) -> Seq<char> {
        match kind {
            ExecuteErrorModel::Parse(k) => parse_error_text(k),
            ExecuteErrorModel::Pass(k) => pass_error_text(k),
            ExecuteErrorModel::Evaluate(k) => evaluate_error_text(k),
        }
    }

    fn message(&self) -> (r: String) {
        match self {
            ExecuteErrorKind::Parse(kind) => kind.message(),
            ExecuteErrorKind::Evaluate(kind) => kind.message(),
            ExecuteErrorKind::Pass(kind) => kind.message(),
        }
    }

    fn duplicate(&self) -> (r: ExecuteErrorKind) {
        match self {
            ExecuteErrorKind::Parse(kind) => ExecuteErrorKind::Parse(kind.duplicate()),
            ExecuteErrorKind::Evaluate(kind) => ExecuteErrorKind::Evaluate(*kind),
            ExecuteErrorKind::Pass(kind) => ExecuteErrorKind::Pass(kind.duplicate()),
        }
    }
}

pub type ExecuteError = SourceError<ExecuteErrorKind>;

pub type ExecuteResult = Result<Value, ExecuteError>;

/// What the outcome of running the pipeline stands for.
pub type ExecuteOutcome = Result<ValueModel, (ExecuteErrorModel, Span)>;

pub open spec fn execute_result_model(r: ExecuteResult) -> ExecuteOutcome {
    match r {
        Ok(v) => Ok(v@),
        Err(e) => Err(e@),
    }
}

/// The outcome of parsing `s`, resolving it against `schema` and evaluating it with the
/// schema's default values; the first stage that fails decides the error. `None` when
/// evaluation would meet a tuple operand, which the pipeline must not be given.
pub open spec fn execute_model(s: Seq<char>, schema: SchemaModel) -> Option<ExecuteOutcome> {
    match parse_model(s) {
        Err((k, sp)) => Some(Err((ExecuteErrorModel::Parse(k), sp))),
        Ok(ast) => match resolve_model(ast, schema) {
            Err((k, sp)) => Some(Err((ExecuteErrorModel::Pass(k), sp))),
            Ok(resolved) => match eval_model(resolved, defaults_of(schema)) {
                None => None,
                Some(Ok(v)) => Some(Ok(v)),
                Some(Err((k, sp))) => Some(Err((ExecuteErrorModel::Evaluate(k), sp))),
            },
        },
    }
}

/// A schema whose default values are all integers never leads evaluation to a tuple.
pub proof fn lemma_execute_defined(s: Seq<char>, schema: SchemaModel)
    requires
        forall|i: int| 0 <= i < schema.len() ==> (#[trigger] schema[i]).1 is Int32,
    ensures
        execute_model(s, schema) is Some,
{
    lemma_expr_progress(s, 0, 0);
    if let Ok(ast) = parse_model(s) {
        lemma_resolve_keeps_literals(ast, schema);
        lemma_resolve_leaves_no_names(ast, schema);
        if let Ok(resolved) = resolve_model(ast, schema) {
            let env = defaults_of(schema);
            assert forall|i: int| 0 <= i < env.len() implies #[trigger] env[i] is Int32 by {
                assert(env[i] == schema[i].1);
            }
            lemma_eval_defined(resolved, env);
        }
    }
}

/// A run of decimal digits whose value fits in an `i32` runs to that value.
pub proof fn lemma_execute_literal(t: Seq<char>)
    requires
        t.len() > 0,
        forall|i: int| 0 <= i < t.len() ==> is_digit_char(#[trigger] t[i]),
        digits_value(t) <= i32::MAX,
    ensures
        execute_model(t, Seq::empty()) == Some(Ok::<ValueModel, (ExecuteErrorModel, Span)>(ValueModel::Int32(digits_value(t) as i32))),
{
    let n = t.len() as int;
    lemma_digits_value_nonneg(t);
    assert(t.subrange(0, n) =~= t);
    lemma_number_at(t, 0, n);
    let lit = ExprModel::Literal { value: ValueModel::Int32(digits_value(t) as i32), span: Span {
        start: loc_after(t, 1),
        end: loc_after(t, n),
    } };
    assert(parse_prefix_at(t, 0) == (Ok::<ExprModel, (ParseErrorModel, Span)>(lit), n));
    lemma_loop_at_end(t, 0, lit);
    assert(parse_model(t) == Ok::<ExprModel, (ParseErrorModel, Span)>(lit));
}

/// Two runs of decimal digits joined by `+`, `-`, `*` or `/` run to the result of the
/// operation, when it is defined and fits in an `i32`.
pub proof fn lemma_execute_binary(a: Seq<char>, c: char, b: Seq<char>)
    requires
        a.len() > 0,
        b.len() > 0,
        forall|i: int| 0 <= i < a.len() ==> is_digit_char(#[trigger] a[i]),
        forall|i: int| 0 <= i < b.len() ==> is_digit_char(#[trigger] b[i]),
        digits_value(a) <= i32::MAX,
        digits_value(b) <= i32::MAX,
        operator_of(c) is Some,
        operator_of(c) != Some(BinaryOp::Mod),
        apply_op(operator_of(c)->0, digits_value(a) as i32, digits_value(b) as i32) is Ok,
    ensures
        execute_model(a + seq![c] + b, Seq::empty()) == Some(Ok::<ValueModel, (ExecuteErrorModel, Span)>(
            ValueModel::Int32(apply_op(operator_of(c)->0, digits_value(a) as i32, digits_value(b) as i32)->Ok_0),
        )),
{
    lemma_digits_value_nonneg(a);
    lemma_digits_value_nonneg(b);
    let s = a + seq![c] + b;
    let la = a.len() as int;
    let n = s.len() as int;
    let op = operator_of(c)->0;
    assert forall|q: int| 0 <= q < la implies is_digit_char(#[trigger] s[q]) by {
        assert(s[q] == a[q]);
    }
    assert forall|q: int| la + 1 <= q < n implies is_digit_char(#[trigger] s[q]) by {
        assert(s[q] == b[q - la - 1]);
    }
    assert(s[la] == c);
    assert(s.subrange(0, la) =~= a);
    assert(s.subrange(la + 1, n) =~= b);
    lemma_number_at(s, 0, la);
    lemma_number_at(s, la + 1, n);
    let lit_a = ExprModel::Literal { value: ValueModel::Int32(digits_value(a) as i32), span: Span {
        start: loc_after(s, 1),
        end: loc_after(s, la),
    } };
    let lit_b = ExprModel::Literal { value: ValueModel::Int32(digits_value(b) as i32), span: Span {
        start: loc_after(s, la + 2),
        end: loc_after(s, n),
    } };
    assert(parse_prefix_at(s, 0) == (Ok::<ExprModel, (ParseErrorModel, Span)>(lit_a), la));
    assert(parse_prefix_at(s, la + 1) == (Ok::<ExprModel, (ParseErrorModel, Span)>(lit_b), n));
    let pr = precedence_of(TokenKindModel::BinaryOperator(op));
    lemma_loop_at_end(s, pr, lit_b);
    assert(parse_expr_at(s, pr, la + 1) == (Ok::<ExprModel, (ParseErrorModel, Span)>(lit_b), n));
    let bin = ExprModel::Binary { op, left: Box::new(lit_a), right: Box::new(lit_b), span: Span {
        start: span_of(lit_a).start,
        end: span_of(lit_b).end,
    } };
    assert(skip_white(s, la) == la);
    assert(parse_infix_at(s, lit_a, pr, la) == (Ok::<ExprModel, (ParseErrorModel, Span)>(bin), n));
    lemma_loop_at_end(s, 0, bin);
    assert(parse_loop_at(s, 0, lit_a, la) == (Ok::<ExprModel, (ParseErrorModel, Span)>(bin), n));
    assert(parse_model(s) == Ok::<ExprModel, (ParseErrorModel, Span)>(bin));
    let empty = Seq::<(Seq<char>, ValueModel)>::empty();
    assert(resolve_model(lit_a, empty) == Ok::<ExprModel, (PassErrorModel, Span)>(lit_a));
    assert(resolve_model(lit_b, empty) == Ok::<ExprModel, (PassErrorModel, Span)>(lit_b));
    assert(resolve_model(bin, empty) == Ok::<ExprModel, (PassErrorModel, Span)>(bin));
    let env = defaults_of(empty);
    assert(eval_model(lit_a, env) == Some(Ok::<ValueModel, (EvaluateErrorKind, Span)>(ValueModel::Int32(digits_value(a) as i32))));
    assert(eval_model(lit_b, env) == Some(Ok::<ValueModel, (EvaluateErrorKind, Span)>(ValueModel::Int32(digits_value(b) as i32))));
}

/// A variable name that the schema does not declare fails resolution with that name.
pub proof fn lemma_execute_unknown_variable(w: Seq<char>, schema: SchemaModel)
    requires
        w.len() > 0,
        is_letter_char(w[0]),
        forall|i: int| 0 <= i < w.len() ==> continues_run(#[trigger] w[i], true),
        index_of(schema, w) is None,
    ensures
        execute_model(w, schema) matches Some(Err((ExecuteErrorModel::Pass(PassErrorModel::VariableDoesNotExist { variable_name }), _)))
            && variable_name == w,
{
    let n = w.len() as int;
    assert(w.subrange(0, n) =~= w);
    lemma_word_at(w, 0, n);
    let name = ExprModel::VariableRef { name: w, span: Span {
        start: loc_after(w, 1),
        end: loc_after(w, n),
    } };
    assert(parse_prefix_at(w, 0) == (Ok::<ExprModel, (ParseErrorModel, Span)>(name), n));
    lemma_loop_at_end(w, 0, name);
    assert(parse_model(w) == Ok::<ExprModel, (ParseErrorModel, Span)>(name));
}

/// Parses `source` as one expression; tokens after it are left unread.
pub fn parse(source: &str) -> (r: ParseResult)
    requires
        source@.len() <= u32::MAX,
    ensures
        parse_result_model(r) == parse_model(source@),
{
    let lexer = Lexer::new(source);
    let mut parser = Parser::new(lexer);
    parser.parse()
}

/// Runs `source` with no variables declared.
pub fn execute(source: &str) -> (r: ExecuteResult)
    requires
        source@.len() <= u32::MAX,
    ensures
        execute_model(source@, Seq::empty()) is Some,
        execute_result_model(r) == execute_model(source@, Seq::empty())->0,
{
    let empty_env = EnvDefBuilder::new().build();
    proof {
        lemma_execute_defined(source@, Seq::empty());
    }
    execute_with_globals(source, &empty_env)
}

/// Parses `source`, resolves its variables against `global_env_def` and evaluates it with
/// the variables' default values.
pub fn execute_with_globals(source: &str, global_env_def: &EnvDef) -> (r: ExecuteResult)
    requires
        source@.len() <= u32::MAX,
        execute_model(source@, global_env_def@) is Some,
    ensures
        execute_result_model(r) == execute_model(source@, global_env_def@)->0,
{
    match parse(source) {
        Ok(ast) => match resolve_variables(ast, global_env_def) {
            Ok(ast) => {
                let global_env = global_env_def.create_with_default_values();
                match evaluate(&ast, &global_env) {
                    Ok(value) => Ok(value),
                    Err(err) => {
                        let (kind, span) = err.into_parts();
                        Err(ExecuteError::new_with_span(ExecuteErrorKind::Evaluate(kind), span))
                    },
                }
            },
            Err(pass_err) => {
                let (kind, span) = pass_err.into_parts();
                Err(ExecuteError::new_with_span(ExecuteErrorKind::Pass(kind), span))
            },
        },
        Err(parse_error) => {
            let (kind, span) = parse_error.into_parts();
            Err(ExecuteError::new_with_span(ExecuteErrorKind::Parse(kind), span))
        },
    }
}

} // verus!
