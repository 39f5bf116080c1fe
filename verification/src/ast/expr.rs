//! Expressions.
use vstd::prelude::*;
use crate::ast::{Argument, Path, PathSegmentView};

verus! {

/// An expression.
#[derive(Debug, PartialEq, Eq)]
pub enum Expr {
    Assignment(AssignmentExpr),
    Paren(ParenExpr),
    Call(CallExpr),
    StringLiteral(StringLiteral),
    IntegerLiteral(IntegerLiteral),
    Symbol(SymbolExpr),
    KeyValue(KeyValueExpr),
    Negate(NegateExpr),
}

/// A `a = b` expression.
#[derive(Clone, Debug, PartialEq, Eq)]
pub struct AssignmentExpr {
    /// The left-hand side.
    pub assignee: Path,
    /// The new value.
    pub value: Box<Expr>,
}

/// A `:key => value` expression.
#[derive(Clone, Debug, PartialEq, Eq)]
pub struct KeyValueExpr {
    pub key: String,
    pub value: Box<Expr>,
}

/// A parenthesized expression.
#[derive(Clone, Debug, PartialEq, Eq)]
pub struct ParenExpr {
    /// The expression in the parentheses.
    pub inner: Box<Expr>,
}

/// A call of the method that a path names.
#[derive(Clone, Debug, PartialEq, Eq)]
pub struct CallExpr {
    pub callee: Path,
    pub arguments: Vec<Argument>,
}

#[derive(Clone, Debug, PartialEq, Eq)]
pub struct StringLiteral {
    pub value: String,
}

#[derive(Clone, Debug, PartialEq, Eq)]
pub struct IntegerLiteral {
    pub value: i64,
}

/// A `:name` expression.
#[derive(Clone, Debug, PartialEq, Eq)]
pub struct SymbolExpr {
    pub name: String,
}

#[derive(Clone, Debug, PartialEq, Eq)]
pub struct NegateExpr {
    pub inner: Box<Expr>,
}

/// What an expression is, as a value. The arguments of a call are all
/// positional, so they are listed as expressions.
pub enum ExprView {
    Assignment { assignee: Seq<PathSegmentView>, value: Box<ExprView> },
    Paren { inner: Box<ExprView> },
    Call { callee: Seq<PathSegmentView>, arguments: Seq<ExprView> },
    StringLiteral { text: Seq<char> },
    IntegerLiteral { number: i64 },
    Symbol { name: Seq<char> },
    KeyValue { key: Seq<char>, value: Box<ExprView> },
    Negate { inner: Box<ExprView> },
}

impl Expr {
    /// The value of the expression.
    pub open spec fn model(&self) -> ExprView
        decreases self,
    {
        match self {
            Expr::Assignment(e) => ExprView::Assignment {
                assignee: e.assignee@,
                value: Box::new(e.value.model()),
            },
            Expr::Paren(e) => ExprView::Paren { inner: Box::new(e.inner.model()) },
            Expr::Call(e) => ExprView::Call {
                callee: e.callee@,
                arguments: Seq::new(
                    e.arguments@.len(),
                    |i: int|
                        if 0 <= i < e.arguments@.len() {
                            e.arguments@[i].model()
                        } else {
                            arbitrary()
                        },
                ),
            },
            Expr::StringLiteral(e) => ExprView::StringLiteral { text: e.value@ },
            Expr::IntegerLiteral(e) => ExprView::IntegerLiteral { number: e.value },
            Expr::Symbol(e) => ExprView::Symbol { name: e.name@ },
            Expr::KeyValue(e) => ExprView::KeyValue { key: e.key@, value: Box::new(e.value.model()) },
            Expr::Negate(e) => ExprView::Negate { inner: Box::new(e.inner.model()) },
        }
    }
}

impl Argument {
    /// The value of the expression that is passed.
    pub open spec fn model(&self) -> ExprView
        decreases self,
    {
        match self {
            Argument::Positional(e) => e.model(),
        }
    }
}

impl View for Expr {
    type V = ExprView;

    open spec fn view(&self) -> ExprView {
        self.model()
    }
}

impl View for Argument {
    type V = ExprView;

    open spec fn view(&self) -> ExprView {
        self.model()
    }
}

/// The values of a list of expressions.
pub open spec fn expr_views(exprs: Seq<Expr>) -> Seq<ExprView> {
    exprs.map_values(|e: Expr| e@)
}

/// The values of a list of arguments.
pub open spec fn argument_views(arguments: Seq<Argument>) -> Seq<ExprView> {
    arguments.map_values(|a: Argument| a@)
}

/// A copy of an expression.
fn copy_expr(expr: &Expr) -> (copy: Expr)
    ensures
        copy@ == expr@,
    decreases expr, 0int,
{
    match expr {
        Expr::Assignment(e) => Expr::Assignment(
            AssignmentExpr { assignee: e.assignee.clone(), value: Box::new(copy_expr(&e.value)) },
        ),
        Expr::Paren(e) => Expr::Paren(ParenExpr { inner: Box::new(copy_expr(&e.inner)) }),
        Expr::Call(e) => {
            let call = CallExpr {
                callee: e.callee.clone(),
                arguments: copy_arguments(&e.arguments),
            };
            proof {
                crate::ast::lemma_call_view(call);
                crate::ast::lemma_call_view(*e);
            }
            Expr::Call(call)
        },
        Expr::StringLiteral(e) => Expr::StringLiteral(StringLiteral { value: e.value.clone() }),
        Expr::IntegerLiteral(e) => Expr::IntegerLiteral(IntegerLiteral { value: e.value }),
        Expr::Symbol(e) => Expr::Symbol(SymbolExpr { name: e.name.clone() }),
        Expr::KeyValue(e) => Expr::KeyValue(
            KeyValueExpr { key: e.key.clone(), value: Box::new(copy_expr(&e.value)) },
        ),
        Expr::Negate(e) => Expr::Negate(NegateExpr { inner: Box::new(copy_expr(&e.inner)) }),
    }
}

/// A copy of a list of arguments.
fn copy_arguments(arguments: &Vec<Argument>) -> (copy: Vec<Argument>)
    ensures
        argument_views(copy@) == argument_views(arguments@),
    decreases arguments, 1int,
{
    let mut copy: Vec<Argument> = Vec::new();
    let mut i: usize = 0;
    while i < arguments.len()
        invariant
            i <= arguments.len(),
            copy@.len() == i,
            forall|k: int| 0 <= k < i ==> copy@[k]@ == arguments@[k]@,
        decreases arguments.len() - i,
    {
        match &arguments[i] {
            Argument::Positional(value) => {
                copy.push(Argument::Positional(copy_expr(value)));
            },
        }
        i += 1;
    }
    assert(argument_views(copy@) =~= argument_views(arguments@));
    copy
}

/// A copy of a list of expressions.
pub fn copy_exprs(exprs: &Vec<Expr>) -> (copy: Vec<Expr>)
    ensures
        expr_views(copy@) == expr_views(exprs@),
{
    let mut copy: Vec<Expr> = Vec::new();
    let mut i: usize = 0;
    while i < exprs.len()
        invariant
            i <= exprs.len(),
            copy@.len() == i,
            forall|k: int| 0 <= k < i ==> copy@[k]@ == exprs@[k]@,
        decreases exprs.len() - i,
    {
        copy.push(copy_expr(&exprs[i]));
        i += 1;
    }
    assert(expr_views(copy@) =~= expr_views(exprs@));
    copy
}

impl Clone for Expr {
    fn clone(&self) -> (copy: Self)
        ensures
            copy@ == self@,
    {
        copy_expr(self)
    }
}

impl Clone for Argument {
    fn clone(&self) -> (copy: Self)
        ensures
            copy@ == self@,
    {
        match self {
            Argument::Positional(value) => Argument::Positional(copy_expr(value)),
        }
    }
}

} // verus!
