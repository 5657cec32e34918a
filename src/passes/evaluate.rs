//! The evaluator: computes the value of a resolved tree in an environment.
use vstd::prelude::*;
use crate::ast::{int_literals, is_resolved, Expr, ExprKind, ExprModel};
use crate::common::BinaryOp;
use crate::env::Env;
use crate::error::{ErrorKind, SourceError};
use crate::source::Span;
use crate::text::{push_decimal, push_str};
use crate::value::{Value, ValueModel};

verus! {

/// The kinds of evaluation error.
#[derive(Debug, Clone, Copy, PartialEq, Eq, Structural)]
pub enum EvaluateErrorKind {
    /// A variable index with no value in the environment.
    IndexOutOfRange(u32),
    /// A division or remainder by zero.
    DivisionByZero,
    /// A result outside the range of a 32-bit signed integer.
    Overflow,
}

impl View for EvaluateErrorKind {
    type V = EvaluateErrorKind;

    open spec fn view(&self) -> EvaluateErrorKind {
        *self
    }
}

/// The message text of an evaluation error.
pub open spec fn evaluate_error_text(e: EvaluateErrorKind) -> Seq<char> {
    match e {
        EvaluateErrorKind::IndexOutOfRange(i) => "Index "@ + crate::text::decimal(i as nat) + " was out of range."@,
        EvaluateErrorKind::DivisionByZero => "Division by zero."@,
        EvaluateErrorKind::Overflow => "Arithmetic overflow."@,
    }
}

impl ErrorKind for EvaluateErrorKind {
    open spec fn text_of(kind: EvaluateErrorKind) -> Seq<char> {
        evaluate_error_text(kind)
    }

    fn message(&self) -> (r: String) {
        let mut s = String::new();
        match self {
            EvaluateErrorKind::IndexOutOfRange(index) => {
                push_str(&mut s, "Index ");
                push_decimal(&mut s, *index);
                push_str(&mut s, " was out of range.");
            },
            EvaluateErrorKind::DivisionByZero => {
                push_str(&mut s, "Division by zero.");
            },
            EvaluateErrorKind::Overflow => {
                push_str(&mut s, "Arithmetic overflow.");
            },
        }
        s
    }

    fn duplicate(&self) -> (r: EvaluateErrorKind) {
        *self
    }
}

pub type EvaluateError = SourceError<EvaluateErrorKind>;

pub type EvaluateResult = Result<Value, EvaluateError>;

/// What the outcome of an evaluation stands for.
pub type EvalOutcome = Result<ValueModel, (EvaluateErrorKind, Span)>;

pub open spec fn eval_result_model(r: EvaluateResult) -> EvalOutcome {
    match r {
        Ok(v) => Ok(v@),
        Err(e) => Err(e@),
    }
}

/// A binary operation on two 32-bit integers, with the standard meaning of each operator
/// (division and remainder truncate), or the error it meets.
pub open spec fn apply_op(op: BinaryOp, l: i32, r: i32) -> Result<i32, EvaluateErrorKind> {
    match op {
        BinaryOp::Add => if i32::MIN <= l + r <= i32::MAX {
            Ok((l + r) as i32)
        } else {
            Err(EvaluateErrorKind::Overflow)
        },
        BinaryOp::Sub => if i32::MIN <= l - r <= i32::MAX {
            Ok((l - r) as i32)
        } else {
            Err(EvaluateErrorKind::Overflow)
        },
        BinaryOp::Mul => if i32::MIN <= l * r <= i32::MAX {
            Ok((l * r) as i32)
        } else {
            Err(EvaluateErrorKind::Overflow)
        },
        BinaryOp::Div => if r == 0 {
            Err(EvaluateErrorKind::DivisionByZero)
        } else {
            match l.checked_div(r) {
                Some(v) => Ok(v),
                None => Err(EvaluateErrorKind::Overflow),
            }
        },
        BinaryOp::Mod => if r == 0 {
            Err(EvaluateErrorKind::DivisionByZero)
        } else {
            match l.checked_rem(r) {
                Some(v) => Ok(v),
                None => Err(EvaluateErrorKind::Overflow),
            }
        },
    }
}

/// The value of `e` in an environment holding `env`, by ordinal, or the error met
/// (operands are evaluated left to right; the first error wins). `None` when evaluation
/// meets a variable name or a tuple operand: a tree the evaluator must not be given.
pub open spec fn eval_model(e: ExprModel, env: Seq<ValueModel>) -> Option<EvalOutcome>
    decreases e,
{
    match e {
        ExprModel::Literal { value, .. } => Some(Ok(value)),
        ExprModel::VariableIndex { index, span } => if index < env.len() {
            Some(Ok(env[index as int]))
        } else {
            Some(Err((EvaluateErrorKind::IndexOutOfRange(index), span)))
        },
        ExprModel::VariableRef { .. } => None,
        ExprModel::Binary { op, left, right, span } => match eval_model(*left, env) {
            None => None,
            Some(Err(x)) => Some(Err(x)),
            Some(Ok(lv)) => match eval_model(*right, env) {
                None => None,
                Some(Err(x)) => Some(Err(x)),
                Some(Ok(rv)) => match (lv, rv) {
                    (ValueModel::Int32(a), ValueModel::Int32(b)) => match apply_op(op, a, b) {
                        Ok(v) => Some(Ok(ValueModel::Int32(v))),
                        Err(k) => Some(Err((k, span))),
                    },
                    _ => None,
                },
            },
        },
    }
}

/// A resolved tree of integer literals, in an environment of integers, evaluates to an
/// integer or an error: it never meets a variable name or a tuple operand.
pub proof fn lemma_eval_defined(e: ExprModel, env: Seq<ValueModel>)
    requires
        is_resolved(e),
        int_literals(e),
        forall|i: int| 0 <= i < env.len() ==> #[trigger] env[i] is Int32,
    ensures
        eval_model(e, env) is Some,
        eval_model(e, env) matches Some(Ok(v)) ==> v is Int32,
    decreases e,
{
    if let ExprModel::Binary { left, right, .. } = e {
        lemma_eval_defined(*left, env);
        lemma_eval_defined(*right, env);
    }
}

fn apply(op: BinaryOp, l: i32, r: i32) -> (res: Result<i32, EvaluateErrorKind>)
    ensures
        res == apply_op(op, l, r),
{
    let checked = match op {
        BinaryOp::Add => l.checked_add(r),
        BinaryOp::Sub => l.checked_sub(r),
        BinaryOp::Mul => l.checked_mul(r),
        BinaryOp::Div => {
            if r == 0 {
                return Err(EvaluateErrorKind::DivisionByZero);
            }
            l.checked_div(r)
        },
        BinaryOp::Mod => {
            if r == 0 {
                return Err(EvaluateErrorKind::DivisionByZero);
            }
            l.checked_rem(r)
        },
    };
    match checked {
        Some(v) => Ok(v),
        None => Err(EvaluateErrorKind::Overflow),
    }
}

/// Evaluates a resolved tree in `env`.
pub fn evaluate(expr: &Expr, env: &Env) -> (r: EvaluateResult)
    requires
        eval_model(expr@, env@) is Some,
    ensures
        eval_result_model(r) == eval_model(expr@, env@)->0,
    decreases expr,
{
    match &expr.kind {
        ExprKind::Literal { value } => Ok(value.duplicate()),
        ExprKind::VariableIndex { index } => match env.get_by_index(*index) {
            Some(value) => Ok(value.duplicate()),
            None => Err(EvaluateError::new_with_span(EvaluateErrorKind::IndexOutOfRange(*index), expr.span)),
        },
        ExprKind::VariableRef { .. } => {
            proof {
                assert(false);
            }
            Err(EvaluateError::new_with_span(EvaluateErrorKind::IndexOutOfRange(0), expr.span))
        },
        ExprKind::Binary { op, left, right } => {
            proof {
                assert(decreases_to!(*expr => **left));
                assert(decreases_to!(*expr => **right));
            }
            let left_value = match evaluate(left, env) {
                Err(e) => {
                    return Err(e);
                },
                Ok(value) => value,
            };
            let right_value = match evaluate(right, env) {
                Err(e) => {
                    return Err(e);
                },
                Ok(value) => value,
            };
            match (left_value, right_value) {
                (Value::Int32(l), Value::Int32(r)) => match apply(*op, l, r) {
                    Ok(v) => Ok(Value::Int32(v)),
                    Err(kind) => Err(EvaluateError::new_with_span(kind, expr.span)),
                },
                _ => {
                    proof {
                        assert(false);
                    }
                    Err(EvaluateError::new_with_span(EvaluateErrorKind::Overflow, expr.span))
                },
            }
        },
    }
}

} // verus!
