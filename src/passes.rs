//! Passes over expression trees: name resolution and evaluation.
use vstd::prelude::*;
use crate::ast::ExprModel;
use crate::error::{ErrorKind, SourceError};
use crate::ast::Expr;
use crate::source::Span;
use crate::text::push_str;

pub mod resolve_variables;
pub mod evaluate;

verus! {

/// The kinds of error of a rewrite pass.
#[derive(Debug, PartialEq)]
pub enum PassErrorKind {
    VariableDoesNotExist { variable_name: String },
}

/// What a `PassErrorKind` stands for.
pub enum PassErrorModel {
    VariableDoesNotExist { variable_name: Seq<char> },
}

impl View for PassErrorKind {
    type V = PassErrorModel;

    open spec fn view(&self) -> PassErrorModel {
        match self {
            PassErrorKind::VariableDoesNotExist { variable_name } => PassErrorModel::VariableDoesNotExist {
                variable_name: variable_name@,
            },
        }
    }
}

/// The message text of a pass error.
pub open spec fn pass_error_text(e: PassErrorModel) -> Seq<char> {
    match e {
        PassErrorModel::VariableDoesNotExist { variable_name } => "Variable '"@ + variable_name + "' does not exist"@,
    }
}

impl ErrorKind for PassErrorKind {
    open spec fn text_of(kind: PassErrorModel) -> Seq<char> {
        pass_error_text(kind)
    }

    fn message(&self) -> (r: String) {
        let mut s = String::new();
        match self {
            PassErrorKind::VariableDoesNotExist { variable_name } => {
                push_str(&mut s, "Variable '");
                push_str(&mut s, variable_name.as_str());
                push_str(&mut s, "' does not exist");
            },
        }
        s
    }

    fn duplicate(&self) -> (r: PassErrorKind) {
        match self {
            PassErrorKind::VariableDoesNotExist { variable_name } => PassErrorKind::VariableDoesNotExist {
                variable_name: variable_name.clone(),
            },
        }
    }
}

pub type PassError = SourceError<PassErrorKind>;

pub type PassResult = Result<Expr, PassError>;

/// What the outcome of a pass stands for.
pub type PassOutcome = Result<ExprModel, (PassErrorModel, Span)>;

pub open spec fn pass_result_model(r: PassResult) -> PassOutcome {
    match r {
        Ok(e) => Ok(e@),
        Err(e) => Err(e@),
    }
}

} // verus!
