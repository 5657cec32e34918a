//! The expression tree. Spans are kept on every node but take no part in equality.
use vstd::prelude::*;
use crate::common::BinaryOp;
use crate::source::{unknown_span, Span};
use crate::value::{Value, ValueModel};

verus! {

/// The kinds of expression node.
#[derive(Debug)]
pub enum ExprKind {
    Literal { value: Value },
    Binary { op: BinaryOp, left: Box<Expr>, right: Box<Expr> },
    /// A variable named in the source; the resolution pass replaces it by its index.
    VariableRef { name: String },
    /// A variable by its index in the environment.
    VariableIndex { index: u32 },
}

/// An expression node and the span of text it was read from.
#[derive(Debug)]
pub struct Expr {
    pub kind: ExprKind,
    pub span: Span,
}

/// What an `Expr` stands for.
pub enum ExprModel {
    Literal { value: ValueModel, span: Span },
    Binary { op: BinaryOp, left: Box<ExprModel>, right: Box<ExprModel>, span: Span },
    VariableRef { name: Seq<char>, span: Span },
    VariableIndex { index: u32, span: Span },
}

/// The model of an expression tree.
pub open spec fn expr_model(e: Expr) -> ExprModel
    decreases e,
{
    match e.kind {
        ExprKind::Literal { value } => ExprModel::Literal { value: value@, span: e.span },
        ExprKind::Binary { op, left, right } => ExprModel::Binary {
            op,
            left: Box::new(expr_model(*left)),
            right: Box::new(expr_model(*right)),
            span: e.span,
        },
        ExprKind::VariableRef { name } => ExprModel::VariableRef { name: name@, span: e.span },
        ExprKind::VariableIndex { index } => ExprModel::VariableIndex { index, span: e.span },
    }
}

impl View for Expr {
    type V = ExprModel;

    open spec fn view(&self) -> ExprModel {
        expr_model(*self)
    }
}

/// The span of the root node.
pub open spec fn span_of(e: ExprModel) -> Span {
    match e {
        ExprModel::Literal { span, .. } => span,
        ExprModel::Binary { span, .. } => span,
        ExprModel::VariableRef { span, .. } => span,
        ExprModel::VariableIndex { span, .. } => span,
    }
}

/// The tree with every span replaced by the unknown span: its shape and its values alone.
pub open spec fn strip(e: ExprModel) -> ExprModel
    decreases e,
{
    match e {
        ExprModel::Literal { value, .. } => ExprModel::Literal { value, span: unknown_span() },
        ExprModel::Binary { op, left, right, .. } => ExprModel::Binary {
            op,
            left: Box::new(strip(*left)),
            right: Box::new(strip(*right)),
            span: unknown_span(),
        },
        ExprModel::VariableRef { name, .. } => ExprModel::VariableRef { name, span: unknown_span() },
        ExprModel::VariableIndex { index, .. } => ExprModel::VariableIndex { index, span: unknown_span() },
    }
}

/// Whether no node of the tree names a variable (all are literals, operations and indices).
pub open spec fn is_resolved(e: ExprModel) -> bool
    decreases e,
{
    match e {
        ExprModel::Binary { left, right, .. } => is_resolved(*left) && is_resolved(*right),
        ExprModel::VariableRef { .. } => false,
        _ => true,
    }
}

/// Whether every literal of the tree is an integer.
pub open spec fn int_literals(e: ExprModel) -> bool
    decreases e,
{
    match e {
        ExprModel::Literal { value, .. } => value is Int32,
        ExprModel::Binary { left, right, .. } => int_literals(*left) && int_literals(*right),
        _ => true,
    }
}

/// Whether the span of every operation runs from the start of its left operand to the end
/// of its right operand.
pub open spec fn spans_joined(e: ExprModel) -> bool
    decreases e,
{
    match e {
        ExprModel::Binary { left, right, span, .. } => {
            &&& span == (Span { start: span_of(*left).start, end: span_of(*right).end })
            &&& spans_joined(*left)
            &&& spans_joined(*right)
        },
        _ => true,
    }
}

impl Expr {
    pub fn new_literal(value: Value) -> (r: Expr)
        ensures
            r@ == (ExprModel::Literal { value: value@, span: unknown_span() }),
    {
        Expr::new_literal_with_span(value, Span::unknown())
    }

    pub fn new_literal_with_span(value: Value, span: Span) -> (r: Expr)
        ensures
            r@ == (ExprModel::Literal { value: value@, span }),
    {
        Expr::new_with_span(ExprKind::Literal { value }, span)
    }

    pub fn new_binary(op: BinaryOp, left: Expr, right: Expr) -> (r: Expr)
        ensures
            r@ == (ExprModel::Binary {
                op,
                left: Box::new(left@),
                right: Box::new(right@),
                span: unknown_span(),
            }),
    {
        Expr::new_binary_with_span(op, left, right, Span::unknown())
    }

    pub fn new_binary_with_span(op: BinaryOp, left: Expr, right: Expr, span: Span) -> (r: Expr)
        ensures
            r@ == (ExprModel::Binary { op, left: Box::new(left@), right: Box::new(right@), span }),
    {
        Expr::new_with_span(ExprKind::Binary { op, left: Box::new(left), right: Box::new(right) }, span)
    }

    pub fn new_variable_ref(name: String) -> (r: Expr)
        ensures
            r@ == (ExprModel::VariableRef { name: name@, span: unknown_span() }),
    {
        Expr::new_variable_ref_with_span(name, Span::unknown())
    }

    pub fn new_variable_ref_with_span(name: String, span: Span) -> (r: Expr)
        ensures
            r@ == (ExprModel::VariableRef { name: name@, span }),
    {
        Expr::new_with_span(ExprKind::VariableRef { name }, span)
    }

    pub fn new_variable_index(index: u32) -> (r: Expr)
        ensures
            r@ == (ExprModel::VariableIndex { index, span: unknown_span() }),
    {
        Expr::new_variable_index_with_span(index, Span::unknown())
    }

    pub fn new_variable_index_with_span(index: u32, span: Span) -> (r: Expr)
        ensures
            r@ == (ExprModel::VariableIndex { index, span }),
    {
        Expr::new_with_span(ExprKind::VariableIndex { index }, span)
    }

    fn new_with_span(kind: ExprKind, span: Span) -> (r: Expr)
        ensures
            r == (Expr { kind, span }),
    {
        Expr { kind, span }
    }

    /// Whether two trees have the same shape and values, whatever their spans.
    pub fn same_shape(&self, other: &Expr) -> (r: bool)
        ensures
            r == (strip(self@) == strip(other@)),
        decreases self,
    {
        match (&self.kind, &other.kind) {
            (ExprKind::Literal { value: a }, ExprKind::Literal { value: b }) => a.same_as(b),
            (
                ExprKind::Binary { op: o1, left: l1, right: r1 },
                ExprKind::Binary { op: o2, left: l2, right: r2 },
            ) => {
                proof {
                    assert(decreases_to!(*self => **l1));
                    assert(decreases_to!(*self => **r1));
                }
                *o1 == *o2 && l1.same_shape(l2) && r1.same_shape(r2)
            },
            (ExprKind::VariableRef { name: a }, ExprKind::VariableRef { name: b }) => *a == *b,
            (ExprKind::VariableIndex { index: a }, ExprKind::VariableIndex { index: b }) => *a == *b,
            _ => false,
        }
    }
}

/// Expressions are equal when they have the same shape and values; spans are ignored.
impl PartialEq for Expr {
    fn eq(&self, other: &Expr) -> (r: bool) {
        self.same_shape(other)
    }
}

impl vstd::std_specs::cmp::PartialEqSpecImpl for Expr {
    open spec fn obeys_eq_spec() -> bool {
        true
    }

    open spec fn eq_spec(&self, other: &Expr) -> bool {
        strip(self@) == strip(other@)
    }
}

} // verus!
