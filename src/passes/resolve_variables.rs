//! The resolution pass: replaces each variable name by the variable's ordinal.
use vstd::prelude::*;
use crate::ast::{int_literals, is_resolved, Expr, ExprKind, ExprModel};
use crate::env::{index_of, EnvDef, SchemaModel};
use crate::passes::{pass_result_model, PassError, PassErrorKind, PassErrorModel, PassOutcome, PassResult};

verus! {

/// The tree with every variable name replaced by its ordinal in `schema`; the first name
/// (from the left) that is not declared fails the whole pass.
pub open spec fn resolve_model(e: ExprModel, schema: SchemaModel) -> PassOutcome
    decreases e,
{
    match e {
        ExprModel::VariableRef { name, span } => match index_of(schema, name) {
            Some(i) => Ok(ExprModel::VariableIndex { index: i as u32, span }),
            None => Err((PassErrorModel::VariableDoesNotExist { variable_name: name }, span)),
        },
        ExprModel::Binary { op, left, right, span } => match resolve_model(*left, schema) {
            Err(x) => Err(x),
            Ok(l) => match resolve_model(*right, schema) {
                Err(x) => Err(x),
                Ok(r) => Ok(ExprModel::Binary { op, left: Box::new(l), right: Box::new(r), span }),
            },
        },
        _ => Ok(e),
    }
}

/// A tree that resolution accepts has no variable name left.
pub proof fn lemma_resolve_leaves_no_names(e: ExprModel, schema: SchemaModel)
    ensures
        resolve_model(e, schema) matches Ok(r) ==> is_resolved(r),
    decreases e,
{
    if let ExprModel::Binary { left, right, .. } = e {
        lemma_resolve_leaves_no_names(*left, schema);
        lemma_resolve_leaves_no_names(*right, schema);
    }
}

/// Resolution keeps every literal as it was.
pub proof fn lemma_resolve_keeps_literals(e: ExprModel, schema: SchemaModel)
    requires
        int_literals(e),
    ensures
        resolve_model(e, schema) matches Ok(r) ==> int_literals(r),
    decreases e,
{
    if let ExprModel::Binary { left, right, .. } = e {
        lemma_resolve_keeps_literals(*left, schema);
        lemma_resolve_keeps_literals(*right, schema);
    }
}

/// Resolving a tree that names no variable changes nothing.
pub proof fn lemma_resolve_resolved(e: ExprModel, schema: SchemaModel)
    requires
        is_resolved(e),
    ensures
        resolve_model(e, schema) == Ok::<ExprModel, (PassErrorModel, crate::source::Span)>(e),
    decreases e,
{
    if let ExprModel::Binary { left, right, .. } = e {
        lemma_resolve_resolved(*left, schema);
        lemma_resolve_resolved(*right, schema);
    }
}

/// Resolution is a one-shot rewrite: running it again on what it produced, against the
/// same schema, succeeds and changes nothing.
pub proof fn lemma_resolve_again_is_noop(e: ExprModel, schema: SchemaModel)
    ensures
        resolve_model(e, schema) matches Ok(r) ==> resolve_model(r, schema) == Ok::<ExprModel, (PassErrorModel, crate::source::Span)>(r),
{
    lemma_resolve_leaves_no_names(e, schema);
    if let Ok(r) = resolve_model(e, schema) {
        lemma_resolve_resolved(r, schema);
    }
}

/// Rebuilds `expr` with every variable name replaced by its ordinal in `global_def`.
fn recurse_clone(expr: &Expr, global_def: &EnvDef) -> (r: PassResult)
    ensures
        pass_result_model(r) == resolve_model(expr@, global_def@),
    decreases expr,
{
    match &expr.kind {
        ExprKind::VariableRef { name } => match global_def.find(name.as_str()) {
            Some(field) => Ok(Expr::new_variable_index_with_span(field.ordinal, expr.span)),
            None => Err(PassError::new_with_span(
                PassErrorKind::VariableDoesNotExist { variable_name: name.clone() },
                expr.span,
            )),
        },
        ExprKind::Literal { value } => Ok(Expr::new_literal_with_span(value.duplicate(), expr.span)),
        ExprKind::VariableIndex { index } => Ok(Expr::new_variable_index_with_span(*index, expr.span)),
        ExprKind::Binary { op, left, right } => {
            proof {
                assert(decreases_to!(*expr => **left));
                assert(decreases_to!(*expr => **right));
            }
            let new_left = match recurse_clone(left, global_def) {
                Err(e) => {
                    return Err(e);
                },
                Ok(e) => e,
            };
            let new_right = match recurse_clone(right, global_def) {
                Err(e) => {
                    return Err(e);
                },
                Ok(e) => e,
            };
            Ok(Expr::new_binary_with_span(*op, new_left, new_right, expr.span))
        },
    }
}

/// Replaces each variable name in `expr` by the variable's ordinal in `global_def`, or
/// fails on the first name that is not declared.
pub fn resolve_variables(expr: Expr, global_def: &EnvDef) -> (r: PassResult)
    ensures
        pass_result_model(r) == resolve_model(expr@, global_def@),
        r matches Ok(e) ==> is_resolved(e@),
{
    proof {
        lemma_resolve_leaves_no_names(expr@, global_def@);
    }
    recurse_clone(&expr, global_def)
}

} // verus!
